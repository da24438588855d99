use vstd::prelude::*;

verus! {

/// One instruction of the loaded program, restricted to the forms the
/// native-call path of the execution engine dispatches: pushing a tagged
/// operand, invoking a bound import, and returning from the frame.  The full
/// instruction set of the machine is the decoder's and dispatch loop's
/// business, not this bridge's.
#[derive(Debug, Clone, PartialEq, Eq)]
pub enum Instruction {
    /// Push a tagged integer onto the frame's operand stack.
    PushInt(i64),
    /// Push a tagged text value onto the frame's operand stack.
    PushText(String),
    /// Invoke the native callable bound to the given import slot.
    CallImport(usize),
    /// Return from the current frame.
    Return,
}

/// One entry of the function table: a defined function's name and the offset
/// of its first instruction.
#[derive(Debug, Clone, PartialEq, Eq)]
pub struct FunctionDef {
    pub name: String,
    pub entry: usize,
}

/// The parsed, immutable representation of a loaded program: its instruction
/// sequence, its function table, and its import declaration table (one name
/// per import slot, to be bound against the native function registry).
///
/// A `CodeHolder` is produced by the external bytecode decoder; this crate
/// never mutates one.
#[derive(Debug, Clone, PartialEq, Eq)]
pub struct CodeHolder {
    pub instructions: Vec<Instruction>,
    pub functions: Vec<FunctionDef>,
    pub imports: Vec<String>,
}

/// The entry offset of the first function named `name` in `fns`, if any:
/// the function table is searched in order and the first match wins.
pub open spec fn entry_in(fns: Seq<FunctionDef>, name: Seq<char>) -> Option<int>
    decreases fns.len(),
{
    if fns.len() == 0 {
        None
    } else if fns.first().name@ == name {
        Some(fns.first().entry as int)
    } else {
        entry_in(fns.drop_first(), name)
    }
}

impl CodeHolder {
    /// The entry offset execution of `name` would start at, if the function
    /// table defines it.
    pub open spec fn entry_of(self, name: Seq<char>) -> Option<int> {
        entry_in(self.functions@, name)
    }

    /// Look `name` up in the function table; first match wins.
    pub fn find_entry(&self, name: &String) -> (r: Option<usize>)
        ensures
            match r {
                Some(e) => self.entry_of(name@) == Some(e as int),
                None => self.entry_of(name@) is None,
            },
    {
        let mut i: usize = 0;
        proof {
            assert(self.functions@.skip(0) =~= self.functions@);
        }
        while i < self.functions.len()
            invariant
                i <= self.functions@.len(),
                entry_in(self.functions@, name@) == entry_in(
                    self.functions@.skip(i as int),
                    name@,
                ),
            decreases self.functions@.len() - i,
        {
            proof {
                assert(self.functions@.skip(i as int).first() == self.functions@[i as int]);
                assert(self.functions@.skip(i as int).drop_first() =~= self.functions@.skip(
                    i as int + 1,
                ));
            }
            if self.functions[i].name == *name {
                return Some(self.functions[i].entry);
            }
            i = i + 1;
        }
        proof {
            assert(self.functions@.skip(i as int).len() == 0);
        }
        None
    }
}

} // verus!
