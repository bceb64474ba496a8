use struct_abi::ir::{
    BuildError, BuildState, CallArgument, FrameSlot, FunctionDraft, FunctionId, Inst, SlotId,
    ValueId,
};
use struct_abi::layout::{layout, ScalarType};
use struct_abi::lower::{load_field, lower_call, materialize};
use struct_abi::signature::{CallConv, CallSignature, ParameterClass};

fn takes_struct_and_int() -> CallSignature {
    CallSignature::new(
        vec![ParameterClass::StructByPointer(16), ParameterClass::Plain(ScalarType::I32)],
        vec![ScalarType::I32],
        CallConv::SystemV,
    )
}

fn takes_nothing() -> CallSignature {
    CallSignature::new(vec![], vec![ScalarType::I32], CallConv::SystemV)
}

fn body_of(draft: &FunctionDraft) -> Vec<Inst> {
    let mut out = Vec::new();
    for i in 0..draft.len() {
        out.push(draft.inst(i).duplicate());
    }
    out
}

#[test]
fn a_declared_function_holds_only_its_signature() {
    let draft = FunctionDraft::declare(takes_struct_and_int());
    assert_eq!(draft.state(), BuildState::Declared);
    assert_eq!(draft.len(), 0);
    assert_eq!(draft.param_count(), 0);
    assert_eq!(draft.slot_count(), 0);
    assert_eq!(draft.value_count(), 0);
    assert!(!draft.is_open());
    assert!(!draft.is_closed());
    assert_eq!(draft.signature().param_count(), 2);
}

#[test]
fn entry_binds_one_value_to_each_parameter() {
    let mut draft = FunctionDraft::declare(takes_struct_and_int());
    let bound = draft.lower_entry().unwrap();
    assert_eq!(bound, vec![ValueId(0), ValueId(1)]);
    assert_eq!(draft.state(), BuildState::EntryBlockOpen);
    assert_eq!(draft.param_count(), 2);
    assert_eq!(draft.param(0), ValueId(0));
    assert_eq!(draft.param(1), ValueId(1));
    assert_eq!(draft.value_count(), 2);
    assert_eq!(draft.len(), 0);
    assert!(draft.is_open());
}

#[test]
fn entry_is_lowered_once() {
    let mut draft = FunctionDraft::declare(takes_nothing());
    assert_eq!(draft.lower_entry(), Ok(vec![]));
    assert_eq!(draft.lower_entry(), Err(BuildError::State));
}

#[test]
fn nothing_is_emitted_before_the_entry_is_open() {
    let mut draft = FunctionDraft::declare(takes_nothing());
    assert_eq!(draft.iconst(ScalarType::I32, 1), Err(BuildError::State));
    assert_eq!(draft.stack_store(ValueId(0), SlotId(0), 0), Err(BuildError::State));
    assert_eq!(draft.stack_addr(SlotId(0), 0), Err(BuildError::State));
    assert_eq!(draft.load(ScalarType::I32, ValueId(0), 0), Err(BuildError::State));
    assert_eq!(draft.call(FunctionId(0), vec![], 1), Err(BuildError::State));
    assert_eq!(draft.ret(vec![]), Err(BuildError::State));
    assert_eq!(
        draft.create_slot(FrameSlot { size: 4, align: 4 }),
        Err(BuildError::State)
    );
    assert_eq!(draft.seal(), Err(BuildError::State));
    assert_eq!(draft.len(), 0);
}

#[test]
fn nothing_is_emitted_after_the_return() {
    let mut draft = FunctionDraft::declare(takes_nothing());
    draft.lower_entry().unwrap();
    let v = draft.iconst(ScalarType::I32, 7).unwrap();
    assert_eq!(draft.ret(vec![v]), Ok(()));
    assert!(draft.is_closed());
    assert!(!draft.is_open());
    assert_eq!(draft.iconst(ScalarType::I32, 8), Err(BuildError::State));
    assert_eq!(draft.ret(vec![v]), Err(BuildError::State));
    assert_eq!(draft.len(), 2);
    assert_eq!(draft.seal(), Ok(()));
    assert_eq!(draft.state(), BuildState::Sealed);
    assert_eq!(draft.seal(), Err(BuildError::State));
}

#[test]
fn values_are_numbered_in_order() {
    let mut draft = FunctionDraft::declare(takes_struct_and_int());
    draft.lower_entry().unwrap();
    assert_eq!(draft.iconst(ScalarType::I64, 5), Ok(ValueId(2)));
    assert_eq!(draft.create_slot(FrameSlot { size: 8, align: 8 }), Ok(SlotId(0)));
    assert_eq!(draft.create_slot(FrameSlot { size: 4, align: 4 }), Ok(SlotId(1)));
    assert_eq!(draft.stack_store(ValueId(2), SlotId(0), 0), Ok(()));
    assert_eq!(draft.stack_addr(SlotId(1), 0), Ok(ValueId(3)));
    assert_eq!(draft.load(ScalarType::I32, ValueId(0), 0), Ok(ValueId(4)));
    assert_eq!(
        draft.call(FunctionId(0), vec![CallArgument::Plain(ValueId(4))], 2),
        Ok(vec![ValueId(5), ValueId(6)])
    );
    assert_eq!(draft.value_count(), 7);
    assert_eq!(draft.slot_count(), 2);
    assert_eq!(draft.slot(0), FrameSlot { size: 8, align: 8 });
    assert_eq!(
        body_of(&draft),
        vec![
            Inst::Iconst { result: ValueId(2), ty: ScalarType::I64, bits: 5 },
            Inst::StackStore { value: ValueId(2), slot: SlotId(0), offset: 0 },
            Inst::StackAddr { result: ValueId(3), slot: SlotId(1), offset: 0 },
            Inst::Load { result: ValueId(4), ty: ScalarType::I32, address: ValueId(0), offset: 0 },
            Inst::Call {
                callee: FunctionId(0),
                arguments: vec![CallArgument::Plain(ValueId(4))],
                results: vec![ValueId(5), ValueId(6)],
            },
        ]
    );
}

#[test]
fn materialize_stores_each_field_and_takes_the_address() {
    let shape = layout(&vec![ScalarType::I8, ScalarType::I32]).unwrap();
    let mut draft = FunctionDraft::declare(takes_nothing());
    draft.lower_entry().unwrap();
    let a = draft.iconst(ScalarType::I8, 1).unwrap();
    let b = draft.iconst(ScalarType::I32, 2).unwrap();
    let address = materialize(&mut draft, &shape, &vec![a, b]).unwrap();
    assert_eq!(address, ValueId(2));
    assert_eq!(draft.slot_count(), 1);
    assert_eq!(draft.slot(0), FrameSlot { size: 8, align: 4 });
    assert_eq!(
        body_of(&draft),
        vec![
            Inst::Iconst { result: ValueId(0), ty: ScalarType::I8, bits: 1 },
            Inst::Iconst { result: ValueId(1), ty: ScalarType::I32, bits: 2 },
            Inst::StackStore { value: ValueId(0), slot: SlotId(0), offset: 0 },
            Inst::StackStore { value: ValueId(1), slot: SlotId(0), offset: 4 },
            Inst::StackAddr { result: ValueId(2), slot: SlotId(0), offset: 0 },
        ]
    );
}

#[test]
fn each_materialize_gets_a_fresh_slot() {
    let shape = layout(&vec![ScalarType::I32]).unwrap();
    let mut draft = FunctionDraft::declare(takes_nothing());
    draft.lower_entry().unwrap();
    let v = draft.iconst(ScalarType::I32, 9).unwrap();
    let first = materialize(&mut draft, &shape, &vec![v]).unwrap();
    let second = materialize(&mut draft, &shape, &vec![v]).unwrap();
    assert_ne!(first, second);
    assert_eq!(draft.slot_count(), 2);
    assert_eq!(
        draft.inst(draft.len() - 1).duplicate(),
        Inst::StackAddr { result: second, slot: SlotId(1), offset: 0 }
    );
}

#[test]
fn materialize_wants_one_value_for_each_field() {
    let shape = layout(&vec![ScalarType::I32]).unwrap();
    let mut draft = FunctionDraft::declare(takes_nothing());
    assert_eq!(materialize(&mut draft, &shape, &vec![]), Err(BuildError::State));
    draft.lower_entry().unwrap();
    assert_eq!(materialize(&mut draft, &shape, &vec![]), Err(BuildError::Arity));
    assert_eq!(
        materialize(&mut draft, &shape, &vec![ValueId(0), ValueId(1)]),
        Err(BuildError::Arity)
    );
    assert_eq!(draft.len(), 0);
    assert_eq!(draft.slot_count(), 0);
}

#[test]
fn call_passes_the_address_with_the_padded_size_of_the_signature() {
    let mut draft = FunctionDraft::declare(takes_nothing());
    draft.lower_entry().unwrap();
    let given = lower_call(
        &mut draft,
        FunctionId(3),
        &takes_struct_and_int(),
        &vec![ValueId(7), ValueId(8)],
    )
    .unwrap();
    assert_eq!(given, vec![ValueId(0)]);
    assert_eq!(
        body_of(&draft),
        vec![Inst::Call {
            callee: FunctionId(3),
            arguments: vec![
                CallArgument::StructPointer { address: ValueId(7), padded_size: 16 },
                CallArgument::Plain(ValueId(8)),
            ],
            results: vec![ValueId(0)],
        }]
    );
}

#[test]
fn call_wants_one_argument_for_each_parameter() {
    let mut draft = FunctionDraft::declare(takes_nothing());
    let signature = takes_struct_and_int();
    assert_eq!(
        lower_call(&mut draft, FunctionId(0), &signature, &vec![ValueId(0), ValueId(1)]),
        Err(BuildError::State)
    );
    draft.lower_entry().unwrap();
    assert_eq!(
        lower_call(&mut draft, FunctionId(0), &signature, &vec![ValueId(0)]),
        Err(BuildError::Arity)
    );
    assert_eq!(draft.len(), 0);
}

#[test]
fn field_is_loaded_through_the_pointer_at_its_offset() {
    let shape = layout(&vec![ScalarType::I8, ScalarType::I64]).unwrap();
    let mut draft = FunctionDraft::declare(takes_struct_and_int());
    let bound = draft.lower_entry().unwrap();
    assert_eq!(load_field(&mut draft, &shape, bound[0], 1), Ok(ValueId(2)));
    assert_eq!(load_field(&mut draft, &shape, bound[0], 2), Err(BuildError::Arity));
    assert_eq!(
        body_of(&draft),
        vec![Inst::Load { result: ValueId(2), ty: ScalarType::I64, address: ValueId(0), offset: 8 }]
    );
}

#[test]
fn values_run_out_at_two_to_the_32() {
    let mut draft = FunctionDraft::declare(takes_nothing());
    draft.lower_entry().unwrap();
    assert_eq!(draft.iconst(ScalarType::I32, 0), Ok(ValueId(0)));
    assert_eq!(
        draft.call(FunctionId(0), vec![], u32::MAX as usize),
        Err(BuildError::Exhausted)
    );
    assert_eq!(draft.len(), 1);
    assert_eq!(draft.value_count(), 1);
}
