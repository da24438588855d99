use vstd::prelude::*;

use crate::errors::RVMError;
use crate::value::AbstractValue;
use crate::value::Value;

verus! {

/// The value stack accessor: the scoped, typed interface a native callable
/// uses to read its arguments and write its results.
///
/// It is a bounded view over one call frame's operand values, addressed in
/// pop order: the value pushed last is popped first.  One typed accessor per
/// supported primitive kind pops the next value when the runtime tag matches
/// the requested type; on a mismatch it fails with `TypeMismatchError` and
/// leaves the value in place (no pop, no coercion), so a later correctly
/// typed access still sees it.  Popping with nothing left fails with
/// `StackUnderflowError`, distinct from a mismatch.  One pusher per kind
/// appends a tagged value; pushing is how a native function returns results.
pub struct ResurgenceState {
    stack: Vec<Value>,
}

impl View for ResurgenceState {
    type V = Seq<AbstractValue>;

    closed spec fn view(&self) -> Seq<AbstractValue> {
        self.stack@.map_values(|v: Value| v@)
    }
}

impl ResurgenceState {
    /// An accessor over an empty stack region.
    pub fn new() -> (s: ResurgenceState)
        ensures
            s@ == Seq::<AbstractValue>::empty(),
    {
        let s = ResurgenceState { stack: Vec::new() };
        proof {
            assert(s@ =~= Seq::<AbstractValue>::empty());
        }
        s
    }

    /// How many values remain in scope.
    pub fn len(&self) -> (n: usize)
        ensures
            n == self@.len(),
    {
        self.stack.len()
    }

    /// Push a tagged integer value.
    pub fn push_i64(&mut self, n: i64)
        ensures
            final(self)@ == old(self)@.push(AbstractValue::Int(n as int)),
    {
        self.stack.push(Value::Int(n));
        proof {
            assert(final(self)@ =~= old(self)@.push(AbstractValue::Int(n as int)));
        }
    }

    /// Push a tagged text value.
    pub fn push_string(&mut self, s: String)
        ensures
            final(self)@ == old(self)@.push(AbstractValue::Text(s@)),
    {
        let ghost sv = s@;
        self.stack.push(Value::Text(s));
        proof {
            assert(final(self)@ =~= old(self)@.push(AbstractValue::Text(sv)));
        }
    }

    /// Pop the next value as a signed 64-bit integer.
    ///
    /// Fails with `StackUnderflowError` when nothing remains, and with
    /// `TypeMismatchError` (leaving the value in place) when the next value
    /// is not an integer.
    pub fn get_i64(&mut self) -> (r: Result<i64, RVMError>)
        ensures
            old(self)@.len() == 0 ==> {
                &&& r matches Err(e) && e is StackUnderflowError
                &&& final(self)@ == old(self)@
            },
            old(self)@.len() > 0 ==> match old(self)@.last() {
                AbstractValue::Int(n) => {
                    &&& r matches Ok(v) && v as int == n
                    &&& final(self)@ == old(self)@.drop_last()
                },
                AbstractValue::Text(_) => {
                    &&& r matches Err(e) && e is TypeMismatchError
                    &&& final(self)@ == old(self)@
                },
            },
    {
        if self.stack.len() == 0 {
            return Err(RVMError::StackUnderflowError);
        }
        let top = self.stack.len() - 1;
        let num = match &self.stack[top] {
            Value::Int(n) => Some(*n),
            Value::Text(_) => None,
        };
        match num {
            Some(n) => {
                let _popped = self.stack.pop();
                proof {
                    assert(final(self)@ =~= old(self)@.drop_last());
                }
                Ok(n)
            },
            None => Err(RVMError::TypeMismatchError),
        }
    }

    /// Pop the next value as text.
    ///
    /// Fails with `StackUnderflowError` when nothing remains, and with
    /// `TypeMismatchError` (leaving the value in place) when the next value
    /// is not text.
    pub fn get_string(&mut self) -> (r: Result<String, RVMError>)
        ensures
            old(self)@.len() == 0 ==> {
                &&& r matches Err(e) && e is StackUnderflowError
                &&& final(self)@ == old(self)@
            },
            old(self)@.len() > 0 ==> match old(self)@.last() {
                AbstractValue::Text(t) => {
                    &&& r matches Ok(v) && v@ == t
                    &&& final(self)@ == old(self)@.drop_last()
                },
                AbstractValue::Int(_) => {
                    &&& r matches Err(e) && e is TypeMismatchError
                    &&& final(self)@ == old(self)@
                },
            },
    {
        if self.stack.len() == 0 {
            return Err(RVMError::StackUnderflowError);
        }
        let top = self.stack.len() - 1;
        let is_text = match &self.stack[top] {
            Value::Text(_) => true,
            Value::Int(_) => false,
        };
        if !is_text {
            return Err(RVMError::TypeMismatchError);
        }
        match self.stack.pop() {
            Some(Value::Text(s)) => {
                proof {
                    assert(final(self)@ =~= old(self)@.drop_last());
                }
                Ok(s)
            },
            _ => {
                proof {
                    assert(false);
                }
                Err(RVMError::TypeMismatchError)
            },
        }
    }
}

} // verus!
