use vstd::prelude::*;

use crate::code::CodeHolder;
use crate::code::Instruction;
use crate::errors::RVMError;
use crate::registry::NativeRegistry;
use crate::state::ResurgenceState;
use crate::value::AbstractValue;

verus! {

/// A native callable: host-implemented logic exposed to the program through
/// the registry.  The engine hands it a value stack accessor scoped to the
/// current frame; it reads its arguments there and writes its results back.
/// Nothing is promised of what an implementation does: the engine's own
/// contract states what holds whatever a native callable did.
pub trait NativeFn {
    /// Invoked by the execution engine when a bound import is called.
    fn call(&self, state: &mut ResurgenceState) -> Result<(), RVMError>;
}

/// One recorded native invocation: which import slot was called, the very
/// callable that was invoked, the operand stack it was handed, the operand
/// stack it left behind, and what it returned.
pub struct NativeEvent<F> {
    pub slot: int,
    pub func: F,
    pub stack: Seq<AbstractValue>,
    pub stack_after: Seq<AbstractValue>,
    pub result: Result<(), RVMError>,
}

/// The import slots a frame entered at `pc` invokes, in program order: the
/// slots of the `CallImport` instructions from `pc` up to (exclusive) the
/// first `Return`, or the end of the instruction sequence.
pub open spec fn import_slots(instrs: Seq<Instruction>, pc: int) -> Seq<int>
    decreases instrs.len() - pc,
{
    if pc < 0 || pc >= instrs.len() {
        Seq::empty()
    } else {
        match instrs[pc] {
            Instruction::CallImport(k) => seq![k as int] + import_slots(instrs, pc + 1),
            Instruction::Return => Seq::empty(),
            _ => import_slots(instrs, pc + 1),
        }
    }
}

/// The offsets of the `CallImport` instructions a frame entered at `pc`
/// reaches, in program order, up to (exclusive) the first `Return` or the
/// end of the instruction sequence: entry `i` is where the frame's `i`-th
/// native call stands.
pub open spec fn import_positions(instrs: Seq<Instruction>, pc: int) -> Seq<int>
    decreases instrs.len() - pc,
{
    if pc < 0 || pc >= instrs.len() {
        Seq::empty()
    } else {
        match instrs[pc] {
            Instruction::CallImport(_) => seq![pc] + import_positions(instrs, pc + 1),
            Instruction::Return => Seq::empty(),
            _ => import_positions(instrs, pc + 1),
        }
    }
}

/// The operands a frame entered at `pc` has pushed by the time it reaches
/// its first import call (or its return): the tagged values of the
/// uninterrupted run of push instructions starting at `pc`, oldest at the
/// bottom.
pub open spec fn leading_operands(instrs: Seq<Instruction>, pc: int) -> Seq<AbstractValue>
    decreases instrs.len() - pc,
{
    if pc < 0 || pc >= instrs.len() {
        Seq::empty()
    } else {
        match instrs[pc] {
            Instruction::PushInt(n) => seq![AbstractValue::Int(n as int)] + leading_operands(
                instrs,
                pc + 1,
            ),
            Instruction::PushText(s) => seq![AbstractValue::Text(s@)] + leading_operands(
                instrs,
                pc + 1,
            ),
            _ => Seq::empty(),
        }
    }
}

/// The names among `imports` (views, in slot order, duplicates kept) that
/// the registry mapping `m` does not contain: the names an all-or-nothing
/// resolution pass reports as unresolved.
pub open spec fn missing_in<F>(imports: Seq<String>, m: Map<Seq<char>, F>) -> Seq<Seq<char>>
    decreases imports.len(),
{
    if imports.len() == 0 {
        Seq::empty()
    } else {
        let rest = missing_in(imports.drop_last(), m);
        if m.contains_key(imports.last()@) {
            rest
        } else {
            rest.push(imports.last()@)
        }
    }
}

proof fn lemma_missing_in_empty<F>(imports: Seq<String>, m: Map<Seq<char>, F>)
    ensures
        missing_in(imports, m).len() == 0 <==> (forall|k: int|
            0 <= k < imports.len() ==> m.contains_key((#[trigger] imports[k])@)),
    decreases imports.len(),
{
    if imports.len() > 0 {
        lemma_missing_in_empty(imports.drop_last(), m);
        assert(forall|k: int|
            0 <= k < imports.len() - 1 ==> imports.drop_last()[k] == imports[k]);
        assert(imports.last() == imports[imports.len() - 1]);
    }
}

/// The import slots of a sequence of recorded calls, in order.
spec fn event_slots<F>(ev: Seq<NativeEvent<F>>) -> Seq<int> {
    ev.map_values(|e: NativeEvent<F>| e.slot)
}

/// The names `ns` are, viewed character-sequence for character-sequence,
/// exactly the sequence `expected`.
pub open spec fn names_match(ns: Seq<String>, expected: Seq<Seq<char>>) -> bool {
    &&& ns.len() == expected.len()
    &&& forall|t: int| 0 <= t < ns.len() ==> (#[trigger] ns[t])@ == expected[t]
}

/// The payload an unresolved-call fault at import slot `slot` carries: the
/// slot's declared name when the slot is declared at all, nothing when the
/// instruction named a slot outside the import table.
pub open spec fn unresolved_names_for(code: CodeHolder, slot: int, ns: Seq<String>) -> bool {
    if 0 <= slot < code.imports@.len() {
        ns.len() == 1 && ns[0]@ == code.imports@[slot]@
    } else {
        ns.len() == 0
    }
}

/// What one `execute_function` run whose entry offset is `entry` did,
/// stated over the call log: the run appended one event per native call it
/// made, in program order along `import_slots`; every call went to the
/// callable the slot was bound to before the run; the first call was handed
/// exactly the operands the frame had pushed up to it, and each later call
/// exactly what the previous call left behind plus the operands pushed
/// between the two calls; every call but possibly the last returned
/// success.  A run returns `Ok` exactly by reaching the frame's return with
/// every native call made and successful; it returns an unresolved-call
/// fault at the first slot without a binding; and any other failure is the
/// error the last recorded call returned.
pub open spec fn exec_events_ok<F: NativeFn>(
    pre: Interpreter<F>,
    post: Interpreter<F>,
    entry: int,
    r: Result<(), RVMError>,
) -> bool {
    let instrs = pre.code_view().instructions@;
    let slots = import_slots(instrs, entry);
    let n = pre.call_log().len() as int;
    let ev = post.call_log().skip(n);
    &&& post.call_log().len() >= n
    &&& post.call_log().take(n) == pre.call_log()
    &&& ev.len() <= slots.len()
    &&& (forall|i: int| 0 <= i < ev.len() ==> (#[trigger] ev[i]).slot == slots[i])
    &&& (forall|i: int|
        0 <= i < ev.len() ==> pre.binding((#[trigger] ev[i]).slot) == Some(ev[i].func))
    &&& (forall|i: int| 0 <= i < ev.len() - 1 ==> (#[trigger] ev[i]).result is Ok)
    &&& (ev.len() > 0 ==> ev[0].stack == leading_operands(instrs, entry))
    &&& (forall|i: int|
        0 <= i < ev.len() - 1 ==> ev[i + 1].stack == (#[trigger] ev[i]).stack_after
            + leading_operands(instrs, import_positions(instrs, entry)[i] + 1))
    &&& match r {
        Ok(_) => {
            &&& ev.len() == slots.len()
            &&& (forall|i: int| 0 <= i < ev.len() ==> (#[trigger] ev[i]).result is Ok)
        },
        Err(e) => {
            ||| (ev.len() > 0 && ev.last().result == Result::<(), RVMError>::Err(e))
            ||| ({
                &&& ev.len() < slots.len()
                &&& (forall|i: int| 0 <= i < ev.len() ==> (#[trigger] ev[i]).result is Ok)
                &&& pre.binding(slots[ev.len() as int]) is None
                &&& e matches RVMError::UnresolvedImportError(ns) && unresolved_names_for(
                    pre.code_view(),
                    slots[ev.len() as int],
                    ns@,
                )
            })
        },
    }
}

/// The execution engine with its per-instance bridge state: the loaded
/// program, the native function registry, the resolved import table, and a
/// log of the native calls made so far.
///
/// Lifecycle: constructed around a program with every import slot unbound,
/// populated by `register_function`, frozen by a successful
/// `resolve_imports`, then used through `execute_function`.
pub struct Interpreter<F> {
    code: CodeHolder,
    registry: NativeRegistry<F>,
    resolved: Vec<Option<usize>>,
    frozen: bool,
    calls: Ghost<Seq<NativeEvent<F>>>,
}

impl<F> Interpreter<F> {
    /// Every bound import slot names a registration the registry actually
    /// holds.
    #[verifier::type_invariant]
    spec fn inv(self) -> bool {
        forall|k: int|
            0 <= k < self.resolved@.len() ==> match #[trigger] self.resolved@[k] {
                Some(j) => (j as int) < self.registry.entry_count(),
                None => true,
            }
    }
}

impl<F: NativeFn> Interpreter<F> {
    /// The loaded program this engine owns.
    pub closed spec fn code_view(self) -> CodeHolder {
        self.code
    }

    /// The registry's contents: name to callable, last registration wins.
    pub closed spec fn registry_map(self) -> Map<Seq<char>, F> {
        self.registry@
    }

    /// How many import slots the resolved import table has.
    pub closed spec fn slot_count(self) -> nat {
        self.resolved@.len()
    }

    /// The callable import slot `k` is bound to, or `None` while the slot
    /// is unbound.
    pub closed spec fn binding(self, k: int) -> Option<F> {
        if 0 <= k < self.resolved@.len() {
            match self.resolved@[k] {
                Some(j) => Some(self.registry.entry_func(j as int)),
                None => None,
            }
        } else {
            None
        }
    }

    /// Whether a successful resolution pass has frozen the registry.
    pub closed spec fn is_frozen(self) -> bool {
        self.frozen
    }

    /// The native calls made so far, oldest first.
    pub closed spec fn call_log(self) -> Seq<NativeEvent<F>> {
        self.calls@
    }

    /// Every import declaration of the program names a registered native.
    pub open spec fn imports_all_registered(self) -> bool {
        forall|k: int|
            0 <= k < self.code_view().imports@.len() ==> self.registry_map().contains_key(
                (#[trigger] self.code_view().imports@[k])@,
            )
    }

    /// Every import slot is bound to the callable registered under the
    /// slot's declared name: the state a successful resolution establishes.
    pub open spec fn fully_resolved(self) -> bool {
        &&& self.slot_count() == self.code_view().imports@.len()
        &&& forall|k: int|
            0 <= k < self.slot_count() ==> {
                &&& self.registry_map().contains_key((#[trigger] self.code_view().imports@[k])@)
                &&& self.binding(k) == Some(
                    self.registry_map()[self.code_view().imports@[k]@],
                )
            }
    }

    /// An engine around a loaded program: the registry empty, every import
    /// slot unbound, nothing executed yet.
    pub fn new(code: CodeHolder) -> (it: Interpreter<F>)
        ensures
            it.code_view() == code,
            it.registry_map() == Map::<Seq<char>, F>::empty(),
            it.slot_count() == code.imports@.len(),
            forall|k: int| it.binding(k) is None,
            !it.is_frozen(),
            it.call_log() == Seq::<NativeEvent<F>>::empty(),
    {
        let n = code.imports.len();
        let mut resolved: Vec<Option<usize>> = Vec::new();
        let mut i: usize = 0;
        while i < n
            invariant
                i <= n,
                resolved@.len() == i,
                forall|t: int| 0 <= t < i ==> (#[trigger] resolved@[t]) is None,
            decreases n - i,
        {
            resolved.push(None);
            i = i + 1;
        }
        Interpreter {
            code,
            registry: NativeRegistry::new(),
            resolved,
            frozen: false,
            calls: Ghost(Seq::empty()),
        }
    }

    /// Store `function` under `name` in the registry, replacing any prior
    /// registration of that name (last registration wins).  After a
    /// successful resolution the registry is frozen: a late registration is
    /// ignored, so already-bound slots are never disturbed.
    pub fn register_function(&mut self, function: F, name: String)
        ensures
            old(self).is_frozen() ==> *final(self) == *old(self),
            !old(self).is_frozen() ==> {
                &&& final(self).registry_map() == old(self).registry_map().insert(
                    name@,
                    function,
                )
                &&& final(self).code_view() == old(self).code_view()
                &&& final(self).slot_count() == old(self).slot_count()
                &&& (forall|k: int| final(self).binding(k) == old(self).binding(k))
                &&& !final(self).is_frozen()
                &&& final(self).call_log() == old(self).call_log()
            },
    {
        proof {
            use_type_invariant(&*self);
        }
        if self.frozen {
            return ;
        }
        let mut parked: Vec<Option<usize>> = Vec::new();
        std::mem::swap(&mut parked, &mut self.resolved);
        let mut reg: NativeRegistry<F> = NativeRegistry::new();
        std::mem::swap(&mut reg, &mut self.registry);
        reg.register(function, name);
        self.registry = reg;
        self.resolved = parked;
    }

    /// Bind every import declaration of the program to its registered
    /// native callable, all or nothing.  Succeeds exactly when every
    /// declared name is registered; then every slot is bound and the
    /// registry is frozen.  Otherwise nothing changes and the fault carries
    /// the missing names, in slot order.
    pub fn resolve_imports(&mut self) -> (r: Result<(), RVMError>)
        ensures
            final(self).code_view() == old(self).code_view(),
            final(self).registry_map() == old(self).registry_map(),
            final(self).call_log() == old(self).call_log(),
            r is Ok <==> old(self).imports_all_registered(),
            old(self).imports_all_registered() ==> {
                &&& final(self).fully_resolved()
                &&& final(self).is_frozen()
            },
            !old(self).imports_all_registered() ==> {
                &&& *final(self) == *old(self)
                &&& r matches Err(RVMError::UnresolvedImportError(ns)) && names_match(
                    ns@,
                    missing_in(old(self).code_view().imports@, old(self).registry_map()),
                )
            },
    {
        let ghost imports = self.code.imports@;
        let mut missing: Vec<String> = Vec::new();
        let mut table: Vec<Option<usize>> = Vec::new();
        let mut i: usize = 0;
        while i < self.code.imports.len()
            invariant
                *self == *old(self),
                i <= imports.len(),
                imports == self.code.imports@,
                table@.len() == i,
                forall|t: int|
                    0 <= t < i ==> match #[trigger] table@[t] {
                        Some(j) => {
                            &&& (j as int) < self.registry.entry_count()
                            &&& self.registry@.contains_key(imports[t]@)
                            &&& self.registry.entry_func(j as int) == self.registry@[imports[t]@]
                        },
                        None => !self.registry@.contains_key(imports[t]@),
                    },
                names_match(missing@, missing_in(imports.take(i as int), self.registry@)),
            decreases imports.len() - i,
        {
            match self.registry.lookup_index(&self.code.imports[i]) {
                Some(j) => {
                    table.push(Some(j));
                },
                None => {
                    missing.push(self.code.imports[i].clone());
                    table.push(None);
                },
            }
            proof {
                assert(imports.take(i as int + 1).drop_last() =~= imports.take(i as int));
                assert(imports.take(i as int + 1).last() == imports[i as int]);
            }
            i = i + 1;
        }
        proof {
            assert(imports.take(i as int) =~= imports);
            lemma_missing_in_empty(imports, self.registry@);
        }
        if missing.len() > 0 {
            proof {
                assert(missing_in(imports, self.registry@).len() > 0);
                if old(self).imports_all_registered() {
                    assert forall|k: int|
                        0 <= k < imports.len() implies self.registry@.contains_key(
                        (#[trigger] imports[k])@,
                    ) by {
                        assert(imports[k] == old(self).code_view().imports@[k]);
                    }
                    assert(false);
                }
            }
            return Err(RVMError::UnresolvedImportError(missing));
        }
        proof {
            assert(missing_in(imports, self.registry@).len() == 0);
            assert forall|k: int|
                0 <= k < old(self).code_view().imports@.len() implies old(
                self,
            ).registry_map().contains_key(
                (#[trigger] old(self).code_view().imports@[k])@,
            ) by {
                assert(old(self).code_view().imports@[k] == imports[k]);
            }
            assert(old(self).imports_all_registered());
        }
        self.resolved = table;
        self.frozen = true;
        Ok(())
    }

    /// Look `name` up in the program's function table and run the function
    /// from its entry offset until it returns or a fault aborts the run.
    ///
    /// An absent name fails with `FunctionNotFoundError` and has no effect
    /// at all: in particular, no native call is made.  Otherwise the run's
    /// native calls — their order, their targets, the operand stacks they
    /// were handed and what they returned — are as `exec_events_ok` states
    /// over the call log.
    pub fn execute_function(&mut self, name: &String) -> (r: Result<(), RVMError>)
        ensures
            final(self).code_view() == old(self).code_view(),
            final(self).registry_map() == old(self).registry_map(),
            final(self).slot_count() == old(self).slot_count(),
            forall|k: int| final(self).binding(k) == old(self).binding(k),
            final(self).is_frozen() == old(self).is_frozen(),
            match old(self).code_view().entry_of(name@) {
                None => {
                    &&& r matches Err(RVMError::FunctionNotFoundError(n)) && n@ == name@
                    &&& *final(self) == *old(self)
                },
                Some(entry) => exec_events_ok(*old(self), *final(self), entry, r),
            },
    {
        proof {
            use_type_invariant(&*self);
        }
        let entry: usize;
        match self.code.find_entry(name) {
            Some(e) => {
                entry = e;
            },
            None => {
                return Err(RVMError::FunctionNotFoundError(name.clone()));
            },
        }
        let ghost pre = *self;
        let ghost instrs = self.code.instructions@;
        let ghost slots_full = import_slots(instrs, entry as int);
        let mut state = ResurgenceState::new();
        let mut pc: usize = entry;
        let ghost mut nev: Seq<NativeEvent<F>> = Seq::empty();
        let ghost mut poss: Seq<int> = Seq::empty();
        let ghost mut seg: Seq<AbstractValue> = Seq::empty();
        proof {
            assert(leading_operands(instrs, entry as int) =~= seg + leading_operands(
                instrs,
                entry as int,
            ));
            assert(import_positions(instrs, entry as int) =~= poss + import_positions(
                instrs,
                entry as int,
            ));
        }
        while pc < self.code.instructions.len()
            invariant
                pre == *old(self),
                pre.code_view().entry_of(name@) == Some(entry as int),
                self.code == pre.code,
                self.registry == pre.registry,
                self.resolved == pre.resolved,
                self.frozen == pre.frozen,
                instrs == pre.code.instructions@,
                slots_full == import_slots(instrs, entry as int),
                self.calls@ == pre.calls@ + nev,
                slots_full == event_slots(nev) + import_slots(instrs, pc as int),
                import_positions(instrs, entry as int) == poss + import_positions(
                    instrs,
                    pc as int,
                ),
                poss.len() == nev.len(),
                nev.len() == 0 ==> state@ == seg,
                nev.len() > 0 ==> state@ == nev.last().stack_after + seg,
                nev.len() == 0 ==> leading_operands(instrs, entry as int) == seg
                    + leading_operands(instrs, pc as int),
                nev.len() > 0 ==> leading_operands(instrs, poss.last() + 1) == seg
                    + leading_operands(instrs, pc as int),
                nev.len() > 0 ==> nev[0].stack == leading_operands(instrs, entry as int),
                forall|i: int|
                    0 <= i < nev.len() - 1 ==> nev[i + 1].stack == (#[trigger] nev[i]).stack_after
                        + leading_operands(instrs, poss[i] + 1),
                forall|i: int| 0 <= i < nev.len() ==> (#[trigger] nev[i]).result is Ok,
                forall|i: int|
                    0 <= i < nev.len() ==> pre.binding((#[trigger] nev[i]).slot) == Some(
                        nev[i].func,
                    ),
            decreases instrs.len() - pc,
        {
            let ghost pc0 = pc as int;
            match &self.code.instructions[pc] {
                Instruction::PushInt(n) => {
                    let ghost seg0 = seg;
                    state.push_i64(*n);
                    proof {
                        seg = seg.push(AbstractValue::Int((*n) as int));
                        assert(import_slots(instrs, pc0) == import_slots(instrs, pc0 + 1));
                        assert(import_positions(instrs, pc0) == import_positions(
                            instrs,
                            pc0 + 1,
                        ));
                        assert(leading_operands(instrs, pc0) == seq![
                            AbstractValue::Int((*n) as int),
                        ] + leading_operands(instrs, pc0 + 1));
                        assert(seg0 + leading_operands(instrs, pc0) =~= seg + leading_operands(
                            instrs,
                            pc0 + 1,
                        ));
                        if nev.len() > 0 {
                            assert((nev.last().stack_after + seg0).push(
                                AbstractValue::Int((*n) as int),
                            ) =~= nev.last().stack_after + seg);
                        }
                    }
                },
                Instruction::PushText(s) => {
                    let ghost seg0 = seg;
                    state.push_string(s.clone());
                    proof {
                        seg = seg.push(AbstractValue::Text(s@));
                        assert(import_slots(instrs, pc0) == import_slots(instrs, pc0 + 1));
                        assert(import_positions(instrs, pc0) == import_positions(
                            instrs,
                            pc0 + 1,
                        ));
                        assert(leading_operands(instrs, pc0) == seq![AbstractValue::Text(s@)]
                            + leading_operands(instrs, pc0 + 1));
                        assert(seg0 + leading_operands(instrs, pc0) =~= seg + leading_operands(
                            instrs,
                            pc0 + 1,
                        ));
                        if nev.len() > 0 {
                            assert((nev.last().stack_after + seg0).push(AbstractValue::Text(s@))
                                =~= nev.last().stack_after + seg);
                        }
                    }
                },
                Instruction::Return => {
                    proof {
                        assert(import_slots(instrs, pc0) =~= Seq::<int>::empty());
                        assert(slots_full =~= event_slots(nev));
                        lemma_consecutive_stacks(instrs, entry as int, pc0, poss, nev);
                        lemma_run_post(pre, *self, entry as int, nev);
                    }
                    return Ok(());
                },
                Instruction::CallImport(kr) => {
                    let k = *kr;
                    proof {
                        use_type_invariant(&*self);
                        assert(import_slots(instrs, pc0) == seq![k as int] + import_slots(
                            instrs,
                            pc0 + 1,
                        ));
                        assert(import_positions(instrs, pc0) == seq![pc0] + import_positions(
                            instrs,
                            pc0 + 1,
                        ));
                        assert(slots_full[nev.len() as int] == k as int);
                    }
                    let j_opt: Option<usize> = if k < self.resolved.len() {
                        self.resolved[k]
                    } else {
                        None
                    };
                    match j_opt {
                        None => {
                            let mut ns: Vec<String> = Vec::new();
                            if k < self.code.imports.len() {
                                ns.push(self.code.imports[k].clone());
                            }
                            proof {
                                assert(pre.binding(k as int) is None);
                                assert(nev.len() < slots_full.len());
                                lemma_consecutive_stacks(instrs, entry as int, pc0, poss, nev);
                                lemma_run_post(pre, *self, entry as int, nev);
                            }
                            return Err(RVMError::UnresolvedImportError(ns));
                        },
                        Some(j) => {
                            let ghost stack_at_call = state@;
                            proof {
                                assert(leading_operands(instrs, pc0)
                                    =~= Seq::<AbstractValue>::empty());
                                assert(seg + leading_operands(instrs, pc0) =~= seg);
                                if nev.len() == 0 {
                                    assert(leading_operands(instrs, entry as int) == seg);
                                } else {
                                    assert(leading_operands(instrs, poss.last() + 1) == seg);
                                }
                            }
                            let res = self.registry.call_at(j, &mut state);
                            let ghost ev = NativeEvent {
                                slot: k as int,
                                func: pre.registry.entry_func(j as int),
                                stack: stack_at_call,
                                stack_after: state@,
                                result: res,
                            };
                            proof {
                                use_type_invariant(&*self);
                                assert(pre.binding(k as int) == Some(ev.func));
                                if nev.len() > 0 {
                                    assert(ev.stack == nev.last().stack_after
                                        + leading_operands(instrs, poss.last() + 1));
                                } else {
                                    assert(ev.stack == leading_operands(instrs, entry as int));
                                }
                                nev = nev.push(ev);
                                poss = poss.push(pc0);
                                seg = Seq::empty();
                                assert(event_slots(nev) =~= event_slots(nev.drop_last()).push(
                                    k as int,
                                ));
                                assert(slots_full =~= event_slots(nev) + import_slots(
                                    instrs,
                                    pc0 + 1,
                                ));
                                assert(import_positions(instrs, entry as int) =~= poss
                                    + import_positions(instrs, pc0 + 1));
                                assert(state@ =~= nev.last().stack_after + seg);
                                assert(leading_operands(instrs, pc0 + 1) =~= seg
                                    + leading_operands(instrs, pc0 + 1));
                            }
                            self.calls = Ghost(self.calls@.push(ev));
                            proof {
                                assert(self.calls@ =~= pre.calls@ + nev);
                            }
                            match res {
                                Ok(_) => {},
                                Err(e) => {
                                    proof {
                                        lemma_consecutive_stacks(
                                            instrs,
                                            entry as int,
                                            pc0 + 1,
                                            poss,
                                            nev,
                                        );
                                        lemma_run_post(pre, *self, entry as int, nev);
                                    }
                                    return Err(e);
                                },
                            }
                        },
                    }
                },
            }
            pc = pc + 1;
        }
        proof {
            assert(import_slots(instrs, pc as int) =~= Seq::<int>::empty());
            assert(slots_full =~= event_slots(nev));
            lemma_consecutive_stacks(instrs, entry as int, pc as int, poss, nev);
            lemma_run_post(pre, *self, entry as int, nev);
        }
        Ok(())
    }
}

/// A program with no import declarations is always resolvable: whatever the
/// registry holds, `imports_all_registered` holds, so `resolve_imports` is
/// owed success by its contract.
pub proof fn lemma_no_imports_always_resolvable<F: NativeFn>(it: Interpreter<F>)
    requires
        it.code_view().imports@.len() == 0,
    ensures
        it.imports_all_registered(),
{
}

/// After a successful resolution, every native call a run records invokes
/// the very callable registered under the called slot's declared name —
/// the registered value itself, not a copy of it.
pub proof fn lemma_calls_invoke_registered_callable<F: NativeFn>(
    pre: Interpreter<F>,
    post: Interpreter<F>,
    entry: int,
    r: Result<(), RVMError>,
    i: int,
)
    requires
        pre.fully_resolved(),
        exec_events_ok(pre, post, entry, r),
        pre.call_log().len() <= i < post.call_log().len(),
    ensures
        ({
            let e = post.call_log()[i];
            &&& 0 <= e.slot < pre.code_view().imports@.len()
            &&& pre.registry_map().contains_key(pre.code_view().imports@[e.slot]@)
            &&& e.func == pre.registry_map()[pre.code_view().imports@[e.slot]@]
        }),
{
    let n = pre.call_log().len() as int;
    let ev = post.call_log().skip(n);
    let e = post.call_log()[i];
    assert(ev[i - n] == e);
    assert(pre.binding(e.slot) == Some(e.func));
}

/// While no import slot is bound, a run makes no native calls at all: an
/// unresolved program never reaches host code.
pub proof fn lemma_unbound_slots_make_no_calls<F: NativeFn>(
    pre: Interpreter<F>,
    post: Interpreter<F>,
    entry: int,
    r: Result<(), RVMError>,
)
    requires
        exec_events_ok(pre, post, entry, r),
        forall|k: int| pre.binding(k) is None,
    ensures
        post.call_log() == pre.call_log(),
{
    let n = pre.call_log().len() as int;
    let ev = post.call_log().skip(n);
    if ev.len() > 0 {
        assert(pre.binding(ev[0].slot) == Some(ev[0].func));
        assert(false);
    }
    assert(post.call_log() =~= post.call_log().take(n));
}

/// Registering a name a second time replaces the earlier callable: any
/// later resolution sees only the newer registration, exactly as if the
/// first had never happened.
pub proof fn lemma_reregister_replaces<F: NativeFn>(
    m: Map<Seq<char>, F>,
    name: Seq<char>,
    f: F,
    g: F,
)
    ensures
        m.insert(name, f).insert(name, g) == m.insert(name, g),
{
    assert(m.insert(name, f).insert(name, g) =~= m.insert(name, g));
}

/// The consecutive-stack relation the dispatch loop maintains over its own
/// list of call positions is the one the engine's contract states over
/// `import_positions` from the entry offset: the two lists agree on every
/// position of a call already made.
proof fn lemma_consecutive_stacks<F: NativeFn>(
    instrs: Seq<Instruction>,
    entry: int,
    pc: int,
    poss: Seq<int>,
    nev: Seq<NativeEvent<F>>,
)
    requires
        import_positions(instrs, entry) == poss + import_positions(instrs, pc),
        poss.len() == nev.len(),
        forall|i: int|
            0 <= i < nev.len() - 1 ==> nev[i + 1].stack == (#[trigger] nev[i]).stack_after
                + leading_operands(instrs, poss[i] + 1),
    ensures
        forall|i: int|
            0 <= i < nev.len() - 1 ==> nev[i + 1].stack == (#[trigger] nev[i]).stack_after
                + leading_operands(instrs, import_positions(instrs, entry)[i] + 1),
{
    assert forall|i: int|
        0 <= i < nev.len() - 1 implies nev[i + 1].stack == (#[trigger] nev[i]).stack_after
        + leading_operands(instrs, import_positions(instrs, entry)[i] + 1) by {
        assert(import_positions(instrs, entry)[i] == poss[i]);
    }
}

/// The common bookkeeping at every exit of the dispatch loop: the events a
/// run appended are exactly the loop's accumulated `nev`.
proof fn lemma_run_post<F: NativeFn>(
    pre: Interpreter<F>,
    post: Interpreter<F>,
    entry: int,
    nev: Seq<NativeEvent<F>>,
)
    requires
        post.call_log() == pre.call_log() + nev,
    ensures
        post.call_log().len() >= pre.call_log().len(),
        post.call_log().take(pre.call_log().len() as int) == pre.call_log(),
        post.call_log().skip(pre.call_log().len() as int) == nev,
{
    assert(post.call_log().take(pre.call_log().len() as int) =~= pre.call_log());
    assert(post.call_log().skip(pre.call_log().len() as int) =~= nev);
}

} // verus!
