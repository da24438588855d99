use vstd::prelude::*;

use crate::errors::RVMError;
use crate::interpreter::NativeFn;
use crate::state::ResurgenceState;

verus! {

/// One registration: a native callable stored under a name.
pub struct RegEntry<F> {
    pub name: String,
    pub func: F,
}

/// The registrations in `s`, as a mapping from name to callable in which the
/// last registration of a name wins.
pub open spec fn reg_map<F>(s: Seq<RegEntry<F>>) -> Map<Seq<char>, F>
    decreases s.len(),
{
    if s.len() == 0 {
        Map::empty()
    } else {
        reg_map(s.drop_last()).insert(s.last().name@, s.last().func)
    }
}

/// The native function registry: a mapping from function name to a native
/// callable, populated by the host before import resolution and read-only
/// afterwards.  Registering a name already present replaces the prior entry
/// (last registration wins); there is no duplicate-name error.
pub struct NativeRegistry<F> {
    entries: Vec<RegEntry<F>>,
}

impl<F> View for NativeRegistry<F> {
    type V = Map<Seq<char>, F>;

    closed spec fn view(&self) -> Map<Seq<char>, F> {
        reg_map(self.entries@)
    }
}

/// Entries later than `j` never use the name of entry `j`: entry `j` is the
/// registration that wins for its name.
pub open spec fn last_entry_for<F>(s: Seq<RegEntry<F>>, j: int, name: Seq<char>) -> bool {
    &&& 0 <= j < s.len()
    &&& s[j].name@ == name
    &&& forall|k: int| j < k < s.len() ==> (#[trigger] s[k]).name@ != name
}

proof fn lemma_reg_map_no_match<F>(s: Seq<RegEntry<F>>, name: Seq<char>)
    requires
        forall|k: int| 0 <= k < s.len() ==> (#[trigger] s[k]).name@ != name,
    ensures
        !reg_map(s).contains_key(name),
    decreases s.len(),
{
    if s.len() > 0 {
        lemma_reg_map_no_match(s.drop_last(), name);
    }
}

proof fn lemma_reg_map_last_match<F>(s: Seq<RegEntry<F>>, j: int, name: Seq<char>)
    requires
        last_entry_for(s, j, name),
    ensures
        reg_map(s).contains_key(name),
        reg_map(s)[name] == s[j].func,
    decreases s.len(),
{
    if j == s.len() - 1 {
    } else {
        assert(forall|k: int| j < k < s.drop_last().len() ==> (#[trigger] s.drop_last()[k]).name@
            != name);
        lemma_reg_map_last_match(s.drop_last(), j, name);
    }
}

impl<F> NativeRegistry<F> {
    /// An empty registry.
    pub fn new() -> (r: NativeRegistry<F>)
        ensures
            r@ == Map::<Seq<char>, F>::empty(),
    {
        NativeRegistry { entries: Vec::new() }
    }

    /// Store `func` under `name`, overwriting any prior entry with the same
    /// name: the last registration wins.  Earlier registrations keep their
    /// indices.
    pub fn register(&mut self, func: F, name: String)
        ensures
            final(self)@ == old(self)@.insert(name@, func),
            final(self).entry_count() == old(self).entry_count() + 1,
            forall|j: int|
                0 <= j < old(self).entry_count() ==> final(self).entry_name(j) == old(
                    self,
                ).entry_name(j) && final(self).entry_func(j) == old(self).entry_func(j),
    {
        let ghost pre = self.entries@;
        let ghost namev = name@;
        let ghost funcg = func;
        self.entries.push(RegEntry { name, func });
        proof {
            assert(self.entries@.drop_last() =~= pre);
            assert(self.entries@.last().name@ == namev);
            assert(self.entries@.last().func == funcg);
        }
    }

    /// The index of the winning registration for `name`, or `None` when the
    /// name was never registered.  The callable at the returned index is the
    /// one the registry maps `name` to.
    pub fn lookup_index(&self, name: &String) -> (r: Option<usize>)
        ensures
            match r {
                Some(j) => {
                    &&& j < self.entry_count()
                    &&& self.entry_name(j as int) == name@
                    &&& self@.contains_key(name@)
                    &&& self.entry_func(j as int) == self@[name@]
                },
                None => !self@.contains_key(name@),
            },
    {
        let mut i: usize = self.entries.len();
        while i > 0
            invariant
                i <= self.entries@.len(),
                forall|k: int|
                    i <= k < self.entries@.len() ==> (#[trigger] self.entries@[k]).name@ != name@,
            decreases i,
        {
            i = i - 1;
            if self.entries[i].name == *name {
                proof {
                    lemma_reg_map_last_match(self.entries@, i as int, name@);
                }
                return Some(i);
            }
        }
        proof {
            lemma_reg_map_no_match(self.entries@, name@);
        }
        None
    }

    /// Return the callable registered under `name`, or `None` when the name
    /// was never registered.
    pub fn lookup(&self, name: &String) -> (r: Option<&F>)
        ensures
            match r {
                Some(f) => self@.contains_key(name@) && *f == self@[name@],
                None => !self@.contains_key(name@),
            },
    {
        match self.lookup_index(name) {
            Some(j) => Some(&self.entries[j].func),
            None => None,
        }
    }

    /// How many registrations the registry holds (replaced entries
    /// included).
    pub closed spec fn entry_count(self) -> nat {
        self.entries@.len()
    }

    /// The name of registration `j`.
    pub closed spec fn entry_name(self, j: int) -> Seq<char> {
        self.entries@[j].name@
    }

    /// The callable of registration `j`.
    pub closed spec fn entry_func(self, j: int) -> F {
        self.entries@[j].func
    }

}

impl<F: NativeFn> NativeRegistry<F> {
    /// Invoke the callable of registration `j` on `state`.  Nothing is
    /// promised of what a native callable does to the stack or returns.
    pub(crate) fn call_at(&self, j: usize, state: &mut ResurgenceState) -> (r: Result<
        (),
        RVMError,
    >)
        requires
            j < self.entry_count(),
    {
        self.entries[j].func.call(state)
    }
}

} // verus!
