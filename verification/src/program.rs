//! A program: functions that are declared, then defined, then finalized
//! together.

use vstd::prelude::*;
use crate::ir::{
    fresh_values, BuildError, BuildState, CallArgument, DraftView, FunctionDraft, FunctionId,
    Inst, InstView, ValueId,
};
use crate::signature::CallSignature;

verus! {

/// How many values an instruction defines.
pub open spec fn defines(inst: InstView) -> nat {
    match inst {
        InstView::Iconst { .. } => 1,
        InstView::StackStore { .. } => 0,
        InstView::StackAddr { .. } => 1,
        InstView::Load { .. } => 1,
        InstView::Call { results, .. } => results.len(),
        InstView::Return { .. } => 0,
    }
}

/// How many values are defined before instruction `k`: the parameters,
/// and what the instructions before `k` define.
pub open spec fn defined_before(draft: DraftView, k: int) -> nat
    decreases k,
{
    if k <= 0 {
        draft.params.len()
    } else {
        defined_before(draft, k - 1) + defines(draft.body[k - 1])
    }
}

/// The value that a call argument names.
pub open spec fn argument_value(argument: CallArgument) -> ValueId {
    match argument {
        CallArgument::Plain(v) => v,
        CallArgument::StructPointer { address, .. } => address,
    }
}

/// Whether each of `values` is among the first `defined` values.
pub open spec fn values_defined(values: Seq<ValueId>, defined: nat) -> bool {
    forall|i: int| 0 <= i < values.len() ==> (#[trigger] values[i]).0 < defined
}

/// Whether each of `arguments` names one of the first `defined` values.
pub open spec fn arguments_defined(arguments: Seq<CallArgument>, defined: nat) -> bool {
    forall|i: int|
        0 <= i < arguments.len() ==> (#[trigger] argument_value(arguments[i])).0 < defined
}

/// Whether an instruction, with `defined` values before it, in a function
/// of `slots` stack slots and number `id`, uses only values that are
/// defined, slots that exist and functions declared before its own, and
/// numbers what it defines with the next numbers.
pub open spec fn scoped(inst: InstView, defined: nat, slots: nat, id: nat) -> bool {
    match inst {
        InstView::Iconst { result, .. } => result.0 == defined,
        InstView::StackStore { value, slot, .. } => value.0 < defined && slot.0 < slots,
        InstView::StackAddr { result, slot, .. } => result.0 == defined && slot.0 < slots,
        InstView::Load { result, address, .. } => result.0 == defined && address.0 < defined,
        InstView::Call { callee, arguments, results } => {
            &&& callee.0 < id
            &&& arguments_defined(arguments, defined)
            &&& results == fresh_values(defined as int, results.len() as int)
            &&& defined + results.len() <= u32::MAX
        },
        InstView::Return { values } => values_defined(values, defined),
    }
}

/// Whether the instructions of a function follow one another in scope:
/// each uses only values that are defined before it, slots that exist and
/// functions among the first `functions`, each numbers what it defines
/// with the next numbers, and only the last may be a `Return`.
pub open spec fn well_scoped(draft: DraftView, functions: nat) -> bool {
    &&& forall|k: int|
        0 <= k < draft.body.len() ==> #[trigger] scoped(
            draft.body[k],
            defined_before(draft, k),
            draft.slots.len(),
            functions,
        )
    &&& forall|k: int| 0 <= k < draft.body.len() - 1 ==> !(#[trigger] draft.body[k] is Return)
}

/// Whether a function can be defined under the number `id`: its block is
/// sealed and closed by a `Return`, its parameters are bound to the first
/// values, and its instructions are well scoped against the functions
/// declared before it.
pub open spec fn well_formed(draft: DraftView, id: nat) -> bool {
    &&& draft.state == BuildState::Sealed
    &&& draft.closed()
    &&& draft.signature.params.len() <= u32::MAX
    &&& draft.params == fresh_values(0, draft.signature.params.len() as int)
    &&& well_scoped(draft, id)
}

/// Whether the first `n` values of a list are below `bound`.
fn values_below(values: &Vec<ValueId>, bound: u64) -> (r: bool)
    ensures
        r == values_defined(values@, bound as nat),
{
    let mut i: usize = 0;
    while i < values.len()
        invariant
            i <= values@.len(),
            forall|j: int| 0 <= j < i ==> (#[trigger] values@[j]).0 < bound,
        decreases values.len() - i,
    {
        if values[i].0 as u64 >= bound {
            return false;
        }
        i += 1;
    }
    true
}

/// Whether the values that the arguments of a call name are below `bound`.
fn arguments_below(arguments: &Vec<CallArgument>, bound: u64) -> (r: bool)
    ensures
        r == arguments_defined(arguments@, bound as nat),
{
    let mut i: usize = 0;
    while i < arguments.len()
        invariant
            i <= arguments@.len(),
            forall|j: int| 0 <= j < i ==> (#[trigger] argument_value(arguments@[j])).0 < bound,
        decreases arguments.len() - i,
    {
        let v = match arguments[i] {
            CallArgument::Plain(v) => v,
            CallArgument::StructPointer { address, .. } => address,
        };
        if v.0 as u64 >= bound {
            assert(argument_value(arguments@[i as int]).0 >= bound);
            return false;
        }
        i += 1;
    }
    true
}

/// Whether `values` are `first`, `first + 1`, and so on.
pub fn values_fresh(values: &Vec<ValueId>, first: u64) -> (r: bool)
    ensures
        r == (first + values@.len() <= u32::MAX && values@ == fresh_values(
            first as int,
            values@.len() as int,
        )),
{
    if first > u32::MAX as u64 || values.len() as u64 > u32::MAX as u64 - first {
        return false;
    }
    let mut i: usize = 0;
    while i < values.len()
        invariant
            i <= values@.len(),
            first + values@.len() <= u32::MAX,
            forall|j: int| 0 <= j < i ==> (#[trigger] values@[j]).0 == first + j,
        decreases values.len() - i,
    {
        if values[i].0 as u64 != first + i as u64 {
            assert(fresh_values(first as int, values@.len() as int)[i as int].0 == first + i);
            return false;
        }
        i += 1;
    }
    proof {
        assert(values@ =~= fresh_values(first as int, values@.len() as int));
    }
    true
}

/// Whether one instruction is scoped.
fn inst_scoped(inst: &Inst, defined: u64, slots: usize, id: u64) -> (r: bool)
    ensures
        r == scoped(inst@, defined as nat, slots as nat, id as nat),
{
    match inst {
        Inst::Iconst { result, .. } => result.0 as u64 == defined,
        Inst::StackStore { value, slot, .. } => (value.0 as u64) < defined && (slot.0 as u64)
            < slots as u64,
        Inst::StackAddr { result, slot, .. } => result.0 as u64 == defined && (slot.0 as u64)
            < slots as u64,
        Inst::Load { result, address, .. } => result.0 as u64 == defined && (address.0 as u64)
            < defined,
        Inst::Call { callee, arguments, results } => (callee.0 as u64) < id && arguments_below(
            arguments,
            defined,
        ) && values_fresh(results, defined),
        Inst::Return { values } => values_below(values, defined),
    }
}

/// Whether the instructions of a function follow one another in scope.
pub fn is_well_scoped(draft: &FunctionDraft, functions: u64) -> (r: bool)
    requires
        draft@.params.len() <= u32::MAX,
    ensures
        r == well_scoped(draft@, functions as nat),
{
    let n = draft.len();
    let mut defined: u64 = draft.param_count() as u64;
    let mut k: usize = 0;
    while k < n
        invariant
            k <= n == draft@.body.len(),
            draft@.params.len() <= u32::MAX,
            defined == defined_before(draft@, k as int),
            defined <= u32::MAX + 1,
            forall|j: int|
                0 <= j < k ==> #[trigger] scoped(
                    draft@.body[j],
                    defined_before(draft@, j),
                    draft@.slots.len(),
                    functions as nat,
                ),
            forall|j: int| 0 <= j < k && j < n - 1 ==> !(#[trigger] draft@.body[j] is Return),
        decreases n - k,
    {
        let inst = draft.inst(k);
        if !inst_scoped(inst, defined, draft.slot_count(), functions) {
            return false;
        }
        let closes = match inst {
            Inst::Return { .. } => true,
            _ => false,
        };
        if closes && k != n - 1 {
            assert(draft@.body[k as int] is Return);
            return false;
        }
        let more: u64 = match inst {
            Inst::Iconst { .. } => 1,
            Inst::StackStore { .. } => 0,
            Inst::StackAddr { .. } => 1,
            Inst::Load { .. } => 1,
            Inst::Call { results, .. } => results.len() as u64,
            Inst::Return { .. } => 0,
        };
        defined = defined + more;
        k += 1;
    }
    true
}

/// Whether a function can be defined under the number `id`.
pub fn validate(draft: &FunctionDraft, id: FunctionId) -> (r: bool)
    ensures
        r == well_formed(draft@, id.0 as nat),
{
    if draft.state() != BuildState::Sealed || !draft.is_closed() {
        return false;
    }
    let count = draft.signature().param_count();
    if count > u32::MAX as usize {
        return false;
    }
    if draft.param_count() != count {
        assert(draft@.params.len() != fresh_values(0, count as int).len());
        return false;
    }
    let mut p: usize = 0;
    while p < count
        invariant
            p <= count == draft@.params.len(),
            count <= u32::MAX,
            forall|j: int| 0 <= j < p ==> (#[trigger] draft@.params[j]).0 == j,
        decreases count - p,
    {
        if draft.param(p).0 as u64 != p as u64 {
            assert(fresh_values(0, count as int)[p as int].0 != draft@.params[p as int].0);
            return false;
        }
        p += 1;
    }
    proof {
        assert(draft@.params =~= fresh_values(0, count as int));
    }
    is_well_scoped(draft, id.0 as u64)
}

/// What a program holds.
pub struct ProgramView {
    /// The functions, by number.
    pub functions: Seq<DraftView>,
    /// Whether the program is finalized.
    pub finalized: bool,
}

impl ProgramView {
    /// Every function is declared and no more, or defined and well formed.
    pub open spec fn wf(self) -> bool {
        &&& self.functions.len() <= u32::MAX
        &&& forall|i: int|
            0 <= i < self.functions.len() ==> {
                let f = #[trigger] self.functions[i];
                ||| f.state == BuildState::Declared
                ||| f.state == BuildState::Defined && well_formed(
                    DraftView { state: BuildState::Sealed, ..f },
                    i as nat,
                )
            }
    }

    /// Whether every function is defined.
    pub open spec fn complete(self) -> bool {
        forall|i: int|
            0 <= i < self.functions.len() ==> (#[trigger] self.functions[i]).state
                == BuildState::Defined
    }
}

/// A program.
#[derive(Debug)]
pub struct Program {
    functions: Vec<FunctionDraft>,
    finalized: bool,
}

/// The functions of a list, each as a mathematical value.
pub open spec fn draft_views(functions: Seq<FunctionDraft>) -> Seq<DraftView> {
    Seq::new(functions.len(), |i: int| functions[i]@)
}

impl View for Program {
    type V = ProgramView;

    closed spec fn view(&self) -> ProgramView {
        ProgramView { functions: draft_views(self.functions@), finalized: self.finalized }
    }
}

impl Program {
    /// A program without functions.
    pub fn new() -> (r: Self)
        ensures
            r@.wf(),
            r@.functions.len() == 0,
            !r@.finalized,
    {
        Program { functions: Vec::new(), finalized: false }
    }

    /// How many functions are declared.
    pub fn len(&self) -> (r: usize)
        ensures
            r == self@.functions.len(),
    {
        self.functions.len()
    }

    /// Whether the program is finalized.
    pub fn is_finalized(&self) -> (r: bool)
        ensures
            r == self@.finalized,
    {
        self.finalized
    }

    /// Function `i`.
    pub fn function(&self, i: usize) -> (r: &FunctionDraft)
        requires
            i < self@.functions.len(),
        ensures
            r@ == self@.functions[i as int],
    {
        &self.functions[i]
    }

    /// Declares a function and gives it the next number.
    pub fn declare(&mut self, signature: CallSignature) -> (r: Result<FunctionId, BuildError>)
        requires
            old(self)@.wf(),
        ensures
            final(self)@.wf(),
            match r {
                Ok(id) => {
                    &&& !old(self)@.finalized
                    &&& old(self)@.functions.len() < u32::MAX
                    &&& id.0 == old(self)@.functions.len()
                    &&& final(self)@ == (ProgramView {
                        functions: old(self)@.functions.push(
                            DraftView {
                                signature: signature@,
                                state: BuildState::Declared,
                                params: Seq::empty(),
                                slots: Seq::empty(),
                                body: Seq::empty(),
                                values: 0,
                            },
                        ),
                        ..old(self)@
                    })
                },
                Err(e) => {
                    &&& final(self)@ == old(self)@
                    &&& e == BuildError::State <==> old(self)@.finalized
                    &&& e == BuildError::Exhausted <==> (!old(self)@.finalized && old(
                        self,
                    )@.functions.len() >= u32::MAX)
                    &&& (e == BuildError::State || e == BuildError::Exhausted)
                },
            },
    {
        if self.finalized {
            return Err(BuildError::State);
        }
        if self.functions.len() >= u32::MAX as usize {
            return Err(BuildError::Exhausted);
        }
        let id = FunctionId(self.functions.len() as u32);
        let draft = FunctionDraft::declare(signature);
        let ghost before = self.functions@;
        self.functions.push(draft);
        proof {
            assert(draft_views(self.functions@) =~= draft_views(before).push(draft@));
        }
        Ok(id)
    }

    /// What `define` answers.
    pub open spec fn define_spec(program: ProgramView, id: FunctionId, draft: DraftView) -> Result<
        (),
        BuildError,
    > {
        if program.finalized {
            Err(BuildError::State)
        } else if id.0 >= program.functions.len() || program.functions[id.0 as int].signature
            != draft.signature {
            Err(BuildError::Declaration)
        } else if program.functions[id.0 as int].state != BuildState::Declared || !well_formed(
            draft,
            id.0 as nat,
        ) {
            Err(BuildError::Definition)
        } else {
            Ok(())
        }
    }

    /// Defines a declared function by a sealed draft of the same
    /// signature. A function is defined once.
    pub fn define(&mut self, id: FunctionId, draft: FunctionDraft) -> (r: Result<(), BuildError>)
        requires
            old(self)@.wf(),
        ensures
            final(self)@.wf(),
            r == Self::define_spec(old(self)@, id, draft@),
            r is Ok ==> final(self)@ == (ProgramView {
                functions: old(self)@.functions.update(
                    id.0 as int,
                    DraftView { state: BuildState::Defined, ..draft@ },
                ),
                ..old(self)@
            }),
            r is Err ==> final(self)@ == old(self)@,
    {
        if self.finalized {
            return Err(BuildError::State);
        }
        let index = id.0 as usize;
        if index >= self.functions.len() {
            return Err(BuildError::Declaration);
        }
        if !self.functions[index].signature().equals(draft.signature()) {
            return Err(BuildError::Declaration);
        }
        if self.functions[index].state() != BuildState::Declared || !validate(&draft, id) {
            return Err(BuildError::Definition);
        }
        let defined = draft.into_defined();
        let ghost before = self.functions@;
        self.functions.set(index, defined);
        proof {
            assert(draft_views(self.functions@) =~= draft_views(before).update(
                index as int,
                defined@,
            ));
            assert(DraftView { state: BuildState::Sealed, ..defined@ } == draft@);
        }
        Ok(())
    }

    /// Finalizes the program: from here on nothing is declared or defined,
    /// and functions can be invoked. Every declared function must be
    /// defined. Finalizing again changes nothing.
    pub fn finalize(&mut self) -> (r: Result<(), BuildError>)
        requires
            old(self)@.wf(),
        ensures
            final(self)@.wf(),
            match r {
                Ok(_) => {
                    &&& old(self)@.complete()
                    &&& final(self)@ == (ProgramView { finalized: true, ..old(self)@ })
                },
                Err(e) => {
                    &&& !old(self)@.complete()
                    &&& e == BuildError::Definition
                    &&& final(self)@ == old(self)@
                },
            },
    {
        let mut i: usize = 0;
        while i < self.functions.len()
            invariant
                i <= self.functions@.len(),
                *self == *old(self),
                old(self)@.wf(),
                forall|j: int|
                    0 <= j < i ==> (#[trigger] self@.functions[j]).state == BuildState::Defined,
            decreases self.functions.len() - i,
        {
            if self.functions[i].state() != BuildState::Defined {
                assert(self@.functions[i as int].state != BuildState::Defined);
                return Err(BuildError::Definition);
            }
            i += 1;
        }
        self.finalized = true;
        Ok(())
    }
}

} // verus!
