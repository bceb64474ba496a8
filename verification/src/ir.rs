//! The instructions that the lowering emits, and a function under
//! construction.

use vstd::prelude::*;
use crate::layout::ScalarType;
use crate::signature::{CallSignature, CallSignatureModel};

verus! {

/// A value: the result of one instruction, or a parameter. Values are
/// numbered from zero in the order in which they are defined.
#[derive(Clone, Copy, Debug, PartialEq, Eq, Structural)]
pub struct ValueId(pub u32);

/// A stack slot of the function that holds it, by number.
#[derive(Clone, Copy, Debug, PartialEq, Eq, Structural)]
pub struct SlotId(pub u32);

/// A function of a program, by number.
#[derive(Clone, Copy, Debug, PartialEq, Eq, Structural)]
pub struct FunctionId(pub u32);

/// Storage in the frame of one activation of a function.
#[derive(Clone, Copy, Debug, PartialEq, Eq, Structural)]
pub struct FrameSlot {
    /// The size in bytes.
    pub size: u32,
    /// The alignment in bytes, a power of two.
    pub align: u32,
}

/// One argument of a call, as the class of its parameter has it travel.
#[derive(Clone, Copy, Debug, PartialEq, Eq, Structural)]
pub enum CallArgument {
    /// The value itself.
    Plain(ValueId),
    /// The address of an aggregate, with the padded size of the aggregate.
    StructPointer { address: ValueId, padded_size: u32 },
}

/// An instruction.
#[derive(Debug, PartialEq, Eq)]
pub enum Inst {
    /// `result` is the constant `bits` of type `ty`.
    Iconst { result: ValueId, ty: ScalarType, bits: u64 },
    /// Stores `value` at `offset` in `slot`.
    StackStore { value: ValueId, slot: SlotId, offset: u32 },
    /// `result` is the address of `offset` in `slot`.
    StackAddr { result: ValueId, slot: SlotId, offset: u32 },
    /// `result` is what lies at `offset` from `address`, read as a `ty`.
    Load { result: ValueId, ty: ScalarType, address: ValueId, offset: u32 },
    /// Calls `callee`; `results` are what it gives back.
    Call { callee: FunctionId, arguments: Vec<CallArgument>, results: Vec<ValueId> },
    /// Leaves the function with `values`.
    Return { values: Vec<ValueId> },
}

/// An instruction, as a mathematical value.
pub enum InstView {
    Iconst { result: ValueId, ty: ScalarType, bits: u64 },
    StackStore { value: ValueId, slot: SlotId, offset: u32 },
    StackAddr { result: ValueId, slot: SlotId, offset: u32 },
    Load { result: ValueId, ty: ScalarType, address: ValueId, offset: u32 },
    Call { callee: FunctionId, arguments: Seq<CallArgument>, results: Seq<ValueId> },
    Return { values: Seq<ValueId> },
}

impl View for Inst {
    type V = InstView;

    open spec fn view(&self) -> InstView {
        match *self {
            Inst::Iconst { result, ty, bits } => InstView::Iconst { result, ty, bits },
            Inst::StackStore { value, slot, offset } => InstView::StackStore {
                value,
                slot,
                offset,
            },
            Inst::StackAddr { result, slot, offset } => InstView::StackAddr {
                result,
                slot,
                offset,
            },
            Inst::Load { result, ty, address, offset } => InstView::Load {
                result,
                ty,
                address,
                offset,
            },
            Inst::Call { callee, arguments, results } => InstView::Call {
                callee,
                arguments: arguments@,
                results: results@,
            },
            Inst::Return { values } => InstView::Return { values: values@ },
        }
    }
}

impl Inst {
    /// A copy.
    pub fn duplicate(&self) -> (r: Inst)
        ensures
            r@ == self@,
    {
        match self {
            Inst::Iconst { result, ty, bits } => Inst::Iconst {
                result: *result,
                ty: *ty,
                bits: *bits,
            },
            Inst::StackStore { value, slot, offset } => Inst::StackStore {
                value: *value,
                slot: *slot,
                offset: *offset,
            },
            Inst::StackAddr { result, slot, offset } => Inst::StackAddr {
                result: *result,
                slot: *slot,
                offset: *offset,
            },
            Inst::Load { result, ty, address, offset } => Inst::Load {
                result: *result,
                ty: *ty,
                address: *address,
                offset: *offset,
            },
            Inst::Call { callee, arguments, results } => {
                let mut copied: Vec<CallArgument> = Vec::new();
                let mut i: usize = 0;
                while i < arguments.len()
                    invariant
                        i <= arguments@.len(),
                        copied@ == arguments@.take(i as int),
                    decreases arguments.len() - i,
                {
                    copied.push(arguments[i]);
                    i += 1;
                    proof {
                        assert(copied@ =~= arguments@.take(i as int));
                    }
                }
                proof {
                    assert(arguments@.take(arguments@.len() as int) =~= arguments@);
                }
                Inst::Call { callee: *callee, arguments: copied, results: copy_values(results) }
            },
            Inst::Return { values } => Inst::Return { values: copy_values(values) },
        }
    }
}

/// A copy of a list of values.
fn copy_values(values: &Vec<ValueId>) -> (r: Vec<ValueId>)
    ensures
        r@ == values@,
{
    let mut copied: Vec<ValueId> = Vec::new();
    let mut i: usize = 0;
    while i < values.len()
        invariant
            i <= values@.len(),
            copied@ == values@.take(i as int),
        decreases values.len() - i,
    {
        copied.push(values[i]);
        i += 1;
        proof {
            assert(copied@ =~= values@.take(i as int));
        }
    }
    proof {
        assert(values@.take(values@.len() as int) =~= values@);
    }
    copied
}

/// The instructions of a list, each as a mathematical value.
pub open spec fn views(insts: Seq<Inst>) -> Seq<InstView> {
    Seq::new(insts.len(), |i: int| insts[i]@)
}

/// The values `first`, `first + 1`, and so on, `count` of them.
pub open spec fn fresh_values(first: int, count: int) -> Seq<ValueId> {
    Seq::new(count as nat, |i: int| ValueId((first + i) as u32))
}

/// Where a function under construction stands.
#[derive(Clone, Copy, Debug, PartialEq, Eq, Structural)]
pub enum BuildState {
    /// Its signature is known and nothing else.
    Declared,
    /// Its entry block takes parameters and instructions.
    EntryBlockOpen,
    /// Its entry block takes nothing more.
    Sealed,
    /// It is part of a program.
    Defined,
}

/// Why a step of construction was refused.
#[derive(Clone, Copy, Debug, PartialEq, Eq, Structural)]
pub enum BuildError {
    /// A function is declared twice, or against its signature.
    Declaration,
    /// A function body is malformed or its block is not closed, or the
    /// function is defined twice.
    Definition,
    /// The step does not fit where the function or the program stands.
    State,
    /// The arguments are not as many as the parameters.
    Arity,
    /// No number is left for another value or slot.
    Exhausted,
}

/// What a function under construction holds.
pub struct DraftView {
    pub signature: CallSignatureModel,
    pub state: BuildState,
    /// The values bound to the parameters.
    pub params: Seq<ValueId>,
    pub slots: Seq<FrameSlot>,
    pub body: Seq<InstView>,
    /// How many values are defined.
    pub values: nat,
}

impl DraftView {
    /// Whether the entry block is open and no `Return` has closed it.
    pub open spec fn open(self) -> bool {
        self.state == BuildState::EntryBlockOpen && !self.closed()
    }

    /// Whether the last instruction is a `Return`.
    pub open spec fn closed(self) -> bool {
        self.body.len() > 0 && self.body.last() is Return
    }

    /// This function with one more instruction, which defines `defined` values.
    pub open spec fn emit(self, inst: InstView, defined: nat) -> DraftView {
        DraftView { body: self.body.push(inst), values: self.values + defined, ..self }
    }
}

/// A function under construction.
#[derive(Debug)]
pub struct FunctionDraft {
    signature: CallSignature,
    state: BuildState,
    params: Vec<ValueId>,
    slots: Vec<FrameSlot>,
    body: Vec<Inst>,
    values: u32,
}

impl View for FunctionDraft {
    type V = DraftView;

    closed spec fn view(&self) -> DraftView {
        DraftView {
            signature: self.signature@,
            state: self.state,
            params: self.params@,
            slots: self.slots@,
            body: views(self.body@),
            values: self.values as nat,
        }
    }
}

impl FunctionDraft {
    /// A function of which the signature is known and nothing else.
    pub fn declare(signature: CallSignature) -> (r: Self)
        ensures
            r@ == (DraftView {
                signature: signature@,
                state: BuildState::Declared,
                params: Seq::empty(),
                slots: Seq::empty(),
                body: Seq::empty(),
                values: 0,
            }),
    {
        let r = FunctionDraft {
            signature,
            state: BuildState::Declared,
            params: Vec::new(),
            slots: Vec::new(),
            body: Vec::new(),
            values: 0,
        };
        proof {
            assert(views(r.body@) =~= Seq::empty());
        }
        r
    }

    /// The signature.
    pub fn signature(&self) -> (r: &CallSignature)
        ensures
            r@ == self@.signature,
    {
        &self.signature
    }

    /// Where the function stands.
    pub fn state(&self) -> (r: BuildState)
        ensures
            r == self@.state,
    {
        self.state
    }

    /// How many values are bound to parameters.
    pub fn param_count(&self) -> (r: usize)
        ensures
            r == self@.params.len(),
    {
        self.params.len()
    }

    /// The value bound to parameter `i`.
    pub fn param(&self, i: usize) -> (r: ValueId)
        requires
            i < self@.params.len(),
        ensures
            r == self@.params[i as int],
    {
        self.params[i]
    }

    /// How many stack slots there are.
    pub fn slot_count(&self) -> (r: usize)
        ensures
            r == self@.slots.len(),
    {
        self.slots.len()
    }

    /// Stack slot `i`.
    pub fn slot(&self, i: usize) -> (r: FrameSlot)
        requires
            i < self@.slots.len(),
        ensures
            r == self@.slots[i as int],
    {
        self.slots[i]
    }

    /// How many instructions there are.
    pub fn len(&self) -> (r: usize)
        ensures
            r == self@.body.len(),
    {
        self.body.len()
    }

    /// Instruction `i`.
    pub fn inst(&self, i: usize) -> (r: &Inst)
        requires
            i < self@.body.len(),
        ensures
            r@ == self@.body[i as int],
    {
        &self.body[i]
    }

    /// How many values are defined.
    pub fn value_count(&self) -> (r: u32)
        ensures
            r == self@.values,
    {
        self.values
    }

    /// Whether the entry block is open and no `Return` has closed it.
    pub fn is_open(&self) -> (r: bool)
        ensures
            r == self@.open(),
    {
        if self.state != BuildState::EntryBlockOpen {
            return false;
        }
        let n = self.body.len();
        if n == 0 {
            return true;
        }
        match &self.body[n - 1] {
            Inst::Return { .. } => false,
            _ => true,
        }
    }

    /// Whether the last instruction is a `Return`.
    pub fn is_closed(&self) -> (r: bool)
        ensures
            r == self@.closed(),
    {
        let n = self.body.len();
        if n == 0 {
            return false;
        }
        match &self.body[n - 1] {
            Inst::Return { .. } => true,
            _ => false,
        }
    }

    /// Opens the entry block and binds one value to each parameter, in
    /// order. A parameter that goes by pointer is bound as the pointer
    /// itself: no copy of the aggregate is made.
    pub fn lower_entry(&mut self) -> (r: Result<Vec<ValueId>, BuildError>)
        ensures
            match r {
                Ok(bound) => {
                    &&& old(self)@.state == BuildState::Declared
                    &&& old(self)@.signature.params.len() <= u32::MAX
                    &&& bound@ == fresh_values(0, old(self)@.signature.params.len() as int)
                    &&& final(self)@ == (DraftView {
                        state: BuildState::EntryBlockOpen,
                        params: bound@,
                        values: bound@.len(),
                        ..old(self)@
                    })
                },
                Err(e) => {
                    &&& final(self)@ == old(self)@
                    &&& e == BuildError::State <==> old(self)@.state != BuildState::Declared
                    &&& e == BuildError::Exhausted <==> (old(self)@.state == BuildState::Declared
                        && old(self)@.signature.params.len() > u32::MAX)
                    &&& (e == BuildError::State || e == BuildError::Exhausted)
                },
            },
    {
        if self.state != BuildState::Declared {
            return Err(BuildError::State);
        }
        let n = self.signature.param_count();
        if n > u32::MAX as usize {
            return Err(BuildError::Exhausted);
        }
        let mut bound: Vec<ValueId> = Vec::new();
        let mut params: Vec<ValueId> = Vec::new();
        let mut i: usize = 0;
        while i < n
            invariant
                i <= n <= u32::MAX,
                bound@ == fresh_values(0, i as int),
                params@ == bound@,
            decreases n - i,
        {
            bound.push(ValueId(i as u32));
            params.push(ValueId(i as u32));
            i += 1;
            proof {
                assert(bound@ =~= fresh_values(0, i as int));
            }
        }
        self.params = params;
        self.values = n as u32;
        self.state = BuildState::EntryBlockOpen;
        Ok(bound)
    }

    /// Adds a stack slot.
    pub fn create_slot(&mut self, slot: FrameSlot) -> (r: Result<SlotId, BuildError>)
        ensures
            match r {
                Ok(id) => {
                    &&& old(self)@.open()
                    &&& id == SlotId(old(self)@.slots.len() as u32)
                    &&& old(self)@.slots.len() < u32::MAX
                    &&& final(self)@ == (DraftView {
                        slots: old(self)@.slots.push(slot),
                        ..old(self)@
                    })
                },
                Err(e) => {
                    &&& final(self)@ == old(self)@
                    &&& e == BuildError::State <==> !old(self)@.open()
                    &&& e == BuildError::Exhausted <==> (old(self)@.open() && old(
                        self,
                    )@.slots.len() >= u32::MAX)
                    &&& (e == BuildError::State || e == BuildError::Exhausted)
                },
            },
    {
        if !self.is_open() {
            return Err(BuildError::State);
        }
        if self.slots.len() >= u32::MAX as usize {
            return Err(BuildError::Exhausted);
        }
        let id = SlotId(self.slots.len() as u32);
        self.slots.push(slot);
        Ok(id)
    }

    /// Appends an instruction that defines `defined` values.
    fn push(&mut self, inst: Inst, defined: u32)
        requires
            old(self).values + defined <= u32::MAX,
        ensures
            final(self)@ == old(self)@.emit(inst@, defined as nat),
    {
        let ghost before = self.body@;
        self.body.push(inst);
        self.values = self.values + defined;
        proof {
            assert(views(self.body@) =~= views(before).push(inst@));
        }
    }

    /// Emits a constant.
    pub fn iconst(&mut self, ty: ScalarType, bits: u64) -> (r: Result<ValueId, BuildError>)
        ensures
            match r {
                Ok(v) => {
                    &&& old(self)@.open()
                    &&& old(self)@.values < u32::MAX
                    &&& v == ValueId(old(self)@.values as u32)
                    &&& final(self)@ == old(self)@.emit(
                        InstView::Iconst { result: v, ty, bits },
                        1,
                    )
                },
                Err(e) => {
                    &&& final(self)@ == old(self)@
                    &&& e == BuildError::State <==> !old(self)@.open()
                    &&& e == BuildError::Exhausted <==> (old(self)@.open() && old(self)@.values
                        >= u32::MAX)
                    &&& (e == BuildError::State || e == BuildError::Exhausted)
                },
            },
    {
        if !self.is_open() {
            return Err(BuildError::State);
        }
        if self.values == u32::MAX {
            return Err(BuildError::Exhausted);
        }
        let result = ValueId(self.values);
        self.push(Inst::Iconst { result, ty, bits }, 1);
        Ok(result)
    }

    /// Emits a store into a stack slot.
    pub fn stack_store(&mut self, value: ValueId, slot: SlotId, offset: u32) -> (r: Result<
        (),
        BuildError,
    >)
        ensures
            match r {
                Ok(_) => {
                    &&& old(self)@.open()
                    &&& final(self)@ == old(self)@.emit(
                        InstView::StackStore { value, slot, offset },
                        0,
                    )
                },
                Err(e) => {
                    &&& final(self)@ == old(self)@
                    &&& !old(self)@.open()
                    &&& e == BuildError::State
                },
            },
    {
        if !self.is_open() {
            return Err(BuildError::State);
        }
        self.push(Inst::StackStore { value, slot, offset }, 0);
        Ok(())
    }

    /// Emits the address of a place in a stack slot.
    pub fn stack_addr(&mut self, slot: SlotId, offset: u32) -> (r: Result<ValueId, BuildError>)
        ensures
            match r {
                Ok(v) => {
                    &&& old(self)@.open()
                    &&& old(self)@.values < u32::MAX
                    &&& v == ValueId(old(self)@.values as u32)
                    &&& final(self)@ == old(self)@.emit(
                        InstView::StackAddr { result: v, slot, offset },
                        1,
                    )
                },
                Err(e) => {
                    &&& final(self)@ == old(self)@
                    &&& e == BuildError::State <==> !old(self)@.open()
                    &&& e == BuildError::Exhausted <==> (old(self)@.open() && old(self)@.values
                        >= u32::MAX)
                    &&& (e == BuildError::State || e == BuildError::Exhausted)
                },
            },
    {
        if !self.is_open() {
            return Err(BuildError::State);
        }
        if self.values == u32::MAX {
            return Err(BuildError::Exhausted);
        }
        let result = ValueId(self.values);
        self.push(Inst::StackAddr { result, slot, offset }, 1);
        Ok(result)
    }

    /// Emits a load through a pointer.
    pub fn load(&mut self, ty: ScalarType, address: ValueId, offset: u32) -> (r: Result<
        ValueId,
        BuildError,
    >)
        ensures
            match r {
                Ok(v) => {
                    &&& old(self)@.open()
                    &&& old(self)@.values < u32::MAX
                    &&& v == ValueId(old(self)@.values as u32)
                    &&& final(self)@ == old(self)@.emit(
                        InstView::Load { result: v, ty, address, offset },
                        1,
                    )
                },
                Err(e) => {
                    &&& final(self)@ == old(self)@
                    &&& e == BuildError::State <==> !old(self)@.open()
                    &&& e == BuildError::Exhausted <==> (old(self)@.open() && old(self)@.values
                        >= u32::MAX)
                    &&& (e == BuildError::State || e == BuildError::Exhausted)
                },
            },
    {
        if !self.is_open() {
            return Err(BuildError::State);
        }
        if self.values == u32::MAX {
            return Err(BuildError::Exhausted);
        }
        let result = ValueId(self.values);
        self.push(Inst::Load { result, ty, address, offset }, 1);
        Ok(result)
    }

    /// Emits a call that gives back `count` values.
    pub fn call(&mut self, callee: FunctionId, arguments: Vec<CallArgument>, count: usize) -> (r:
        Result<Vec<ValueId>, BuildError>)
        ensures
            match r {
                Ok(given) => {
                    &&& old(self)@.open()
                    &&& old(self)@.values + count <= u32::MAX
                    &&& given@ == fresh_values(old(self)@.values as int, count as int)
                    &&& final(self)@ == old(self)@.emit(
                        InstView::Call { callee, arguments: arguments@, results: given@ },
                        count as nat,
                    )
                },
                Err(e) => {
                    &&& final(self)@ == old(self)@
                    &&& e == BuildError::State <==> !old(self)@.open()
                    &&& e == BuildError::Exhausted <==> (old(self)@.open() && old(self)@.values
                        + count > u32::MAX)
                    &&& (e == BuildError::State || e == BuildError::Exhausted)
                },
            },
    {
        if !self.is_open() {
            return Err(BuildError::State);
        }
        if count > (u32::MAX - self.values) as usize {
            return Err(BuildError::Exhausted);
        }
        let first = self.values;
        let mut given: Vec<ValueId> = Vec::new();
        let mut results: Vec<ValueId> = Vec::new();
        let mut i: usize = 0;
        while i < count
            invariant
                i <= count,
                first + count <= u32::MAX,
                given@ == fresh_values(first as int, i as int),
                results@ == given@,
            decreases count - i,
        {
            given.push(ValueId(first + i as u32));
            results.push(ValueId(first + i as u32));
            i += 1;
            proof {
                assert(given@ =~= fresh_values(first as int, i as int));
            }
        }
        self.push(Inst::Call { callee, arguments, results }, count as u32);
        Ok(given)
    }

    /// Emits the instruction that leaves the function; it closes the block.
    pub fn ret(&mut self, values: Vec<ValueId>) -> (r: Result<(), BuildError>)
        ensures
            match r {
                Ok(_) => {
                    &&& old(self)@.open()
                    &&& final(self)@ == old(self)@.emit(InstView::Return { values: values@ }, 0)
                },
                Err(e) => {
                    &&& final(self)@ == old(self)@
                    &&& !old(self)@.open()
                    &&& e == BuildError::State
                },
            },
    {
        if !self.is_open() {
            return Err(BuildError::State);
        }
        self.push(Inst::Return { values }, 0);
        Ok(())
    }

    /// This function as part of a program.
    pub(crate) fn into_defined(self) -> (r: Self)
        requires
            self@.state == BuildState::Sealed,
        ensures
            r@ == (DraftView { state: BuildState::Defined, ..self@ }),
    {
        let mut r = self;
        r.state = BuildState::Defined;
        r
    }

    /// Seals the entry block: it has no predecessor, and from here on the
    /// function takes no parameter, slot or instruction.
    pub fn seal(&mut self) -> (r: Result<(), BuildError>)
        ensures
            match r {
                Ok(_) => {
                    &&& old(self)@.state == BuildState::EntryBlockOpen
                    &&& final(self)@ == (DraftView { state: BuildState::Sealed, ..old(self)@ })
                },
                Err(e) => {
                    &&& final(self)@ == old(self)@
                    &&& old(self)@.state != BuildState::EntryBlockOpen
                    &&& e == BuildError::State
                },
            },
    {
        if self.state != BuildState::EntryBlockOpen {
            return Err(BuildError::State);
        }
        self.state = BuildState::Sealed;
        Ok(())
    }
}

} // verus!
