//! Lowering of the two sides of a call that passes aggregates by pointer.

use vstd::prelude::*;
use crate::ir::{
    fresh_values, BuildError, CallArgument, DraftView, FrameSlot, FunctionDraft, FunctionId,
    InstView, SlotId, ValueId,
};
use crate::layout::{AggregateType, StructLayout};
use crate::signature::{aggregate_padded_size, CallSignature, ParameterClass};

verus! {

/// The stores that write the first `n` fields into `slot`, each at its offset.
pub open spec fn store_insts(fields: Seq<ValueId>, offsets: Seq<u32>, slot: SlotId, n: int) -> Seq<
    InstView,
> {
    Seq::new(
        n as nat,
        |i: int| InstView::StackStore { value: fields[i], slot, offset: offsets[i] },
    )
}

/// The instructions that materialize an aggregate: one store for each
/// field, then the address of the slot.
pub open spec fn materialize_insts(
    fields: Seq<ValueId>,
    offsets: Seq<u32>,
    slot: SlotId,
    address: ValueId,
) -> Seq<InstView> {
    store_insts(fields, offsets, slot, fields.len() as int).push(
        InstView::StackAddr { result: address, slot, offset: 0 },
    )
}

/// The arguments of a call as the classes of the parameters have them
/// travel: a plain one as it is, an aggregate as its address with the
/// padded size that the class declares.
pub open spec fn passed(params: Seq<ParameterClass>, arguments: Seq<ValueId>) -> Seq<CallArgument> {
    Seq::new(
        params.len(),
        |i: int|
            match params[i] {
                ParameterClass::Plain(_) => CallArgument::Plain(arguments[i]),
                ParameterClass::StructByPointer(padded_size) => CallArgument::StructPointer {
                    address: arguments[i],
                    padded_size,
                },
            },
    )
}

/// The call site and the signature cannot disagree on a padded size: where
/// a parameter was classified from an aggregate, the call site attaches the
/// padded size of that aggregate, computed once, by the signature's rule.
pub proof fn lemma_call_site_agrees(
    params: Seq<ParameterClass>,
    arguments: Seq<ValueId>,
    i: int,
    aggregate: AggregateType,
)
    requires
        0 <= i < params.len(),
        aggregate_padded_size(aggregate.size_spec()) <= u32::MAX,
        params[i] == ParameterClass::StructByPointer(
            aggregate_padded_size(aggregate.size_spec()) as u32,
        ),
    ensures
        passed(params, arguments)[i] == (CallArgument::StructPointer {
            address: arguments[i],
            padded_size: aggregate_padded_size(aggregate.size_spec()) as u32,
        }),
{
}

/// Materializes an aggregate in the frame: a fresh stack slot of the size
/// and alignment of the aggregate, one store for each field at its offset,
/// and the address of the slot, which is returned.
pub fn materialize(draft: &mut FunctionDraft, layout: &StructLayout, fields: &Vec<ValueId>) -> (r:
    Result<ValueId, BuildError>)
    requires
        layout.wf(),
    ensures
        match r {
            Ok(address) => {
                &&& old(draft)@.open()
                &&& fields@.len() == layout.fields_spec().len()
                &&& old(draft)@.slots.len() < u32::MAX
                &&& old(draft)@.values < u32::MAX
                &&& address == ValueId(old(draft)@.values as u32)
                &&& final(draft)@ == (DraftView {
                    slots: old(draft)@.slots.push(
                        FrameSlot {
                            size: layout.aggregate_spec().size_spec(),
                            align: layout.aggregate_spec().align_spec(),
                        },
                    ),
                    body: old(draft)@.body + materialize_insts(
                        fields@,
                        layout.offsets_spec(),
                        SlotId(old(draft)@.slots.len() as u32),
                        address,
                    ),
                    values: old(draft)@.values + 1,
                    ..old(draft)@
                })
            },
            Err(e) => {
                &&& final(draft)@ == old(draft)@
                &&& e == BuildError::State <==> !old(draft)@.open()
                &&& e == BuildError::Arity <==> (old(draft)@.open() && fields@.len()
                    != layout.fields_spec().len())
                &&& e == BuildError::Exhausted <==> (old(draft)@.open() && fields@.len()
                    == layout.fields_spec().len() && (old(draft)@.slots.len() >= u32::MAX || old(
                    draft,
                )@.values >= u32::MAX))
                &&& (e == BuildError::State || e == BuildError::Arity || e
                    == BuildError::Exhausted)
            },
        },
{
    if !draft.is_open() {
        return Err(BuildError::State);
    }
    if fields.len() != layout.field_count() {
        return Err(BuildError::Arity);
    }
    if draft.slot_count() >= u32::MAX as usize || draft.value_count() == u32::MAX {
        return Err(BuildError::Exhausted);
    }
    let aggregate = layout.aggregate();
    let slot = match draft.create_slot(FrameSlot { size: aggregate.size(), align: aggregate.align() }) {
        Ok(s) => s,
        Err(e) => {
            return Err(e);
        },
    };
    let ghost opened = draft@;
    let mut i: usize = 0;
    while i < fields.len()
        invariant
            i <= fields@.len(),
            fields@.len() == layout.fields_spec().len(),
            layout.wf(),
            draft@ == (DraftView {
                body: opened.body + store_insts(fields@, layout.offsets_spec(), slot, i as int),
                ..opened
            }),
            opened.open(),
        decreases fields.len() - i,
    {
        let ghost before = draft@;
        proof {
            if i > 0 {
                assert(draft@.body.last() == store_insts(
                    fields@,
                    layout.offsets_spec(),
                    slot,
                    i as int,
                ).last());
            } else {
                assert(draft@.body =~= opened.body);
            }
        }
        match draft.stack_store(fields[i], slot, layout.field_offset(i)) {
            Ok(_) => {},
            Err(e) => {
                return Err(e);
            },
        }
        i += 1;
        proof {
            assert(draft@.body =~= opened.body + store_insts(
                fields@,
                layout.offsets_spec(),
                slot,
                i as int,
            ));
        }
    }
    proof {
        if i > 0 {
            assert(draft@.body.last() == store_insts(
                fields@,
                layout.offsets_spec(),
                slot,
                i as int,
            ).last());
        } else {
            assert(draft@.body =~= opened.body);
        }
    }
    match draft.stack_addr(slot, 0) {
        Ok(address) => {
            proof {
                assert(draft@.body =~= old(draft)@.body + materialize_insts(
                    fields@,
                    layout.offsets_spec(),
                    slot,
                    address,
                ));
            }
            Ok(address)
        },
        Err(e) => Err(e),
    }
}

/// Lowers a call. Each argument is matched to the class that the callee's
/// signature declares for it: a plain value is passed as it is, and an
/// aggregate as the address that `materialize` gave, with the padded size
/// that the signature records. The values that the call gives back are
/// returned, one for each result of the signature.
pub fn lower_call(
    draft: &mut FunctionDraft,
    callee: FunctionId,
    signature: &CallSignature,
    arguments: &Vec<ValueId>,
) -> (r: Result<Vec<ValueId>, BuildError>)
    ensures
        match r {
            Ok(given) => {
                &&& old(draft)@.open()
                &&& arguments@.len() == signature@.params.len()
                &&& old(draft)@.values + signature@.results.len() <= u32::MAX
                &&& given@ == fresh_values(
                    old(draft)@.values as int,
                    signature@.results.len() as int,
                )
                &&& final(draft)@ == old(draft)@.emit(
                    InstView::Call {
                        callee,
                        arguments: passed(signature@.params, arguments@),
                        results: given@,
                    },
                    signature@.results.len(),
                )
            },
            Err(e) => {
                &&& final(draft)@ == old(draft)@
                &&& e == BuildError::State <==> !old(draft)@.open()
                &&& e == BuildError::Arity <==> (old(draft)@.open() && arguments@.len()
                    != signature@.params.len())
                &&& e == BuildError::Exhausted <==> (old(draft)@.open() && arguments@.len()
                    == signature@.params.len() && old(draft)@.values + signature@.results.len()
                    > u32::MAX)
                &&& (e == BuildError::State || e == BuildError::Arity || e
                    == BuildError::Exhausted)
            },
        },
{
    if !draft.is_open() {
        return Err(BuildError::State);
    }
    if arguments.len() != signature.param_count() {
        return Err(BuildError::Arity);
    }
    let mut lowered: Vec<CallArgument> = Vec::new();
    let mut i: usize = 0;
    while i < arguments.len()
        invariant
            i <= arguments@.len(),
            arguments@.len() == signature@.params.len(),
            lowered@.len() == i,
            forall|k: int|
                0 <= k < i ==> #[trigger] lowered@[k] == passed(signature@.params, arguments@)[k],
        decreases arguments.len() - i,
    {
        let argument = match signature.param(i) {
            ParameterClass::Plain(_) => CallArgument::Plain(arguments[i]),
            ParameterClass::StructByPointer(padded_size) => CallArgument::StructPointer {
                address: arguments[i],
                padded_size,
            },
        };
        lowered.push(argument);
        i += 1;
    }
    proof {
        assert(lowered@ =~= passed(signature@.params, arguments@));
    }
    draft.call(callee, lowered, signature.result_count())
}

/// Lowers the read of field `field` of an aggregate that came in by
/// pointer: a load through `base` at the offset of the field.
pub fn load_field(draft: &mut FunctionDraft, layout: &StructLayout, base: ValueId, field: usize) -> (r:
    Result<ValueId, BuildError>)
    requires
        layout.wf(),
    ensures
        match r {
            Ok(v) => {
                &&& old(draft)@.open()
                &&& field < layout.fields_spec().len()
                &&& old(draft)@.values < u32::MAX
                &&& v == ValueId(old(draft)@.values as u32)
                &&& final(draft)@ == old(draft)@.emit(
                    InstView::Load {
                        result: v,
                        ty: layout.fields_spec()[field as int],
                        address: base,
                        offset: layout.offsets_spec()[field as int],
                    },
                    1,
                )
            },
            Err(e) => {
                &&& final(draft)@ == old(draft)@
                &&& e == BuildError::State <==> !old(draft)@.open()
                &&& e == BuildError::Arity <==> (old(draft)@.open() && field
                    >= layout.fields_spec().len())
                &&& e == BuildError::Exhausted <==> (old(draft)@.open() && field
                    < layout.fields_spec().len() && old(draft)@.values >= u32::MAX)
                &&& (e == BuildError::State || e == BuildError::Arity || e
                    == BuildError::Exhausted)
            },
        },
{
    if !draft.is_open() {
        return Err(BuildError::State);
    }
    if field >= layout.field_count() {
        return Err(BuildError::Arity);
    }
    draft.load(layout.field_type(field), base, layout.field_offset(field))
}

} // verus!
