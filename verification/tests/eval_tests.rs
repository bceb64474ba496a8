use struct_abi::eval::{fits_type, invoke, EvalError, Word};
use struct_abi::ir::{CallArgument, FrameSlot, FunctionDraft, FunctionId, ValueId};
use struct_abi::layout::{layout, ScalarType};
use struct_abi::lower::{load_field, lower_call, materialize};
use struct_abi::program::Program;
use struct_abi::roundtrip::{
    bits_i32, build_program, callee_draft, callee_signature, caller_draft, caller_signature,
    i32_bits, struct_layout, STRUCT_PADDED_SIZE,
};
use struct_abi::signature::{CallConv, CallSignature, ParameterClass};

fn run_round_trip(value: i32) -> i32 {
    let program = build_program(value, CallConv::SystemV);
    let given = invoke(&program, FunctionId(1), vec![]).unwrap();
    assert_eq!(given.len(), 1);
    match given[0] {
        Word::Int { ty, bits } => {
            assert_eq!(ty, ScalarType::I32);
            bits_i32(bits).unwrap()
        }
        Word::Address { .. } => panic!("an address came back"),
    }
}

#[test]
fn worked_example_returns_42() {
    assert_eq!(run_round_trip(42), 42);
    let program = build_program(42, CallConv::SystemV);
    assert_eq!(
        invoke(&program, FunctionId(1), vec![]),
        Ok(vec![Word::Int { ty: ScalarType::I32, bits: 42 }])
    );
}

#[test]
fn round_trip_gives_back_every_value() {
    for v in [0, -1, 1, 42, i32::MAX, i32::MIN, -42, 0x1234_5678, -0x1234_5678] {
        assert_eq!(run_round_trip(v), v);
    }
}

#[test]
fn round_trip_does_not_depend_on_the_convention() {
    for conv in [CallConv::SystemV, CallConv::WindowsFastcall, CallConv::AppleAarch64] {
        let program = build_program(-7, conv);
        assert_eq!(
            invoke(&program, FunctionId(1), vec![]),
            Ok(vec![Word::Int { ty: ScalarType::I32, bits: 0xffff_fff9 }])
        );
    }
}

#[test]
fn building_twice_gives_identical_results() {
    let first = build_program(42, CallConv::SystemV);
    let second = build_program(42, CallConv::SystemV);
    assert_eq!(
        invoke(&first, FunctionId(1), vec![]),
        invoke(&second, FunctionId(1), vec![])
    );
    assert_eq!(first.len(), second.len());
    for f in 0..first.len() {
        assert_eq!(first.function(f).len(), second.function(f).len());
        for i in 0..first.function(f).len() {
            assert_eq!(first.function(f).inst(i), second.function(f).inst(i));
        }
    }
}

#[test]
fn bits_of_an_integer_and_back() {
    assert_eq!(i32_bits(0), 0);
    assert_eq!(i32_bits(42), 42);
    assert_eq!(i32_bits(-1), 0xffff_ffff);
    assert_eq!(i32_bits(i32::MIN), 0x8000_0000);
    assert_eq!(i32_bits(i32::MAX), 0x7fff_ffff);
    assert_eq!(bits_i32(0xffff_ffff), Some(-1));
    assert_eq!(bits_i32(0x8000_0000), Some(i32::MIN));
    assert_eq!(bits_i32(0x1_0000_0000), None);
}

#[test]
fn the_struct_is_four_bytes_and_pads_to_sixteen() {
    let shape = struct_layout();
    assert_eq!(shape.aggregate().size(), 4);
    assert_eq!(shape.aggregate().align(), 4);
    assert_eq!(shape.field_offset(0), 0);
    assert_eq!(STRUCT_PADDED_SIZE, 16);
    assert_eq!(
        callee_signature(CallConv::SystemV).param(0),
        ParameterClass::StructByPointer(16)
    );
    assert_eq!(caller_signature(CallConv::SystemV).param_count(), 0);
}

#[test]
fn the_callee_can_be_called_with_an_address_only() {
    let program = build_program(1, CallConv::SystemV);
    assert_eq!(
        invoke(&program, FunctionId(0), vec![Word::Int { ty: ScalarType::I32, bits: 1 }]),
        Err(EvalError::AbiMismatch)
    );
    assert_eq!(invoke(&program, FunctionId(0), vec![]), Err(EvalError::AbiMismatch));
    assert_eq!(
        invoke(&program, FunctionId(0), vec![Word::Address { region: 0, offset: 0 }]),
        Err(EvalError::OutOfBounds)
    );
}

#[test]
fn a_call_site_with_the_raw_size_is_detected() {
    let mut program = Program::new();
    let foo = program.declare(callee_signature(CallConv::SystemV)).unwrap();
    program.define(foo, callee_draft(CallConv::SystemV)).unwrap();
    let main = program.declare(caller_signature(CallConv::SystemV)).unwrap();

    let mut draft = FunctionDraft::declare(caller_signature(CallConv::SystemV));
    draft.lower_entry().unwrap();
    let member = draft.iconst(ScalarType::I32, 42).unwrap();
    let address = materialize(&mut draft, &struct_layout(), &vec![member]).unwrap();
    let raw_size = struct_layout().aggregate().size();
    assert_ne!(raw_size, STRUCT_PADDED_SIZE);
    let given = draft
        .call(foo, vec![CallArgument::StructPointer { address, padded_size: raw_size }], 1)
        .unwrap();
    draft.ret(given).unwrap();
    draft.seal().unwrap();
    program.define(main, draft).unwrap();
    program.finalize().unwrap();
    assert_eq!(invoke(&program, main, vec![]), Err(EvalError::AbiMismatch));
}

#[test]
fn the_lowered_call_site_agrees_with_the_signature() {
    let mut program = Program::new();
    let foo = program.declare(callee_signature(CallConv::SystemV)).unwrap();
    program.define(foo, callee_draft(CallConv::SystemV)).unwrap();
    let main = program.declare(caller_signature(CallConv::SystemV)).unwrap();
    let mut draft = FunctionDraft::declare(caller_signature(CallConv::SystemV));
    draft.lower_entry().unwrap();
    let member = draft.iconst(ScalarType::I32, 5).unwrap();
    let address = materialize(&mut draft, &struct_layout(), &vec![member]).unwrap();
    let given = lower_call(
        &mut draft,
        foo,
        &callee_signature(CallConv::SystemV),
        &vec![address],
    )
    .unwrap();
    draft.ret(given).unwrap();
    draft.seal().unwrap();
    program.define(main, draft).unwrap();
    program.finalize().unwrap();
    assert_eq!(
        invoke(&program, main, vec![]),
        Ok(vec![Word::Int { ty: ScalarType::I32, bits: 5 }])
    );
}

#[test]
fn the_drafts_of_the_example_are_what_the_program_holds() {
    let program = build_program(42, CallConv::SystemV);
    let callee = callee_draft(CallConv::SystemV);
    let caller = caller_draft(42, FunctionId(0), CallConv::SystemV);
    assert_eq!(program.function(0).len(), callee.len());
    assert_eq!(program.function(1).len(), caller.len());
    for i in 0..caller.len() {
        assert_eq!(program.function(1).inst(i), caller.inst(i));
    }
    assert_eq!(caller.slot(0), FrameSlot { size: 4, align: 4 });
}

#[test]
fn a_program_runs_only_when_finalized() {
    let mut program = Program::new();
    let foo = program.declare(callee_signature(CallConv::SystemV)).unwrap();
    program.define(foo, callee_draft(CallConv::SystemV)).unwrap();
    assert_eq!(invoke(&program, foo, vec![]), Err(EvalError::NotFinalized));
    program.finalize().unwrap();
    assert_eq!(invoke(&program, FunctionId(5), vec![]), Err(EvalError::UnknownFunction));
}

#[test]
fn a_second_field_is_read_back_too() {
    let shape = layout(&vec![ScalarType::I8, ScalarType::I64, ScalarType::I16]).unwrap();
    let callee_signature = CallSignature::new(
        vec![ParameterClass::StructByPointer(32)],
        vec![ScalarType::I64],
        CallConv::SystemV,
    );
    let caller_signature =
        CallSignature::new(vec![], vec![ScalarType::I64], CallConv::SystemV);
    let mut program = Program::new();
    let foo = program.declare(callee_signature.duplicate()).unwrap();
    let mut callee = FunctionDraft::declare(callee_signature.duplicate());
    let bound = callee.lower_entry().unwrap();
    let field = load_field(&mut callee, &shape, bound[0], 1).unwrap();
    callee.ret(vec![field]).unwrap();
    callee.seal().unwrap();
    program.define(foo, callee).unwrap();

    let main = program.declare(caller_signature.duplicate()).unwrap();
    let mut caller = FunctionDraft::declare(caller_signature);
    caller.lower_entry().unwrap();
    let a = caller.iconst(ScalarType::I8, 0xab).unwrap();
    let b = caller.iconst(ScalarType::I64, 0x0102_0304_0506_0708).unwrap();
    let c = caller.iconst(ScalarType::I16, 0xcdef).unwrap();
    let address = materialize(&mut caller, &shape, &vec![a, b, c]).unwrap();
    let given = lower_call(&mut caller, foo, &callee_signature, &vec![address]).unwrap();
    caller.ret(given).unwrap();
    caller.seal().unwrap();
    program.define(main, caller).unwrap();
    program.finalize().unwrap();
    assert_eq!(
        invoke(&program, main, vec![]),
        Ok(vec![Word::Int { ty: ScalarType::I64, bits: 0x0102_0304_0506_0708 }])
    );
}

fn single(body: impl FnOnce(&mut FunctionDraft) -> Vec<ValueId>) -> Result<Vec<Word>, EvalError> {
    let signature = || CallSignature::new(vec![], vec![ScalarType::I32], CallConv::SystemV);
    let mut program = Program::new();
    let id = program.declare(signature()).unwrap();
    let mut draft = FunctionDraft::declare(signature());
    draft.lower_entry().unwrap();
    let values = body(&mut draft);
    draft.ret(values).unwrap();
    draft.seal().unwrap();
    program.define(id, draft).unwrap();
    program.finalize().unwrap();
    invoke(&program, id, vec![])
}

#[test]
fn a_store_outside_its_slot_is_out_of_bounds() {
    let r = single(|d| {
        let slot = d.create_slot(FrameSlot { size: 4, align: 4 }).unwrap();
        let v = d.iconst(ScalarType::I32, 1).unwrap();
        d.stack_store(v, slot, 1).unwrap();
        vec![v]
    });
    assert_eq!(r, Err(EvalError::OutOfBounds));
}

#[test]
fn a_load_outside_its_region_is_out_of_bounds() {
    let r = single(|d| {
        let slot = d.create_slot(FrameSlot { size: 4, align: 4 }).unwrap();
        let a = d.stack_addr(slot, 0).unwrap();
        let v = d.load(ScalarType::I32, a, 2).unwrap();
        vec![v]
    });
    assert_eq!(r, Err(EvalError::OutOfBounds));
}

#[test]
fn a_fresh_slot_reads_as_zero() {
    let r = single(|d| {
        let slot = d.create_slot(FrameSlot { size: 8, align: 8 }).unwrap();
        let a = d.stack_addr(slot, 4).unwrap();
        let v = d.load(ScalarType::I32, a, 0).unwrap();
        vec![v]
    });
    assert_eq!(r, Ok(vec![Word::Int { ty: ScalarType::I32, bits: 0 }]));
}

#[test]
fn bytes_are_stored_lowest_first() {
    let r = single(|d| {
        let slot = d.create_slot(FrameSlot { size: 8, align: 8 }).unwrap();
        let v = d.iconst(ScalarType::I32, 0x1122_3344).unwrap();
        d.stack_store(v, slot, 2).unwrap();
        let a = d.stack_addr(slot, 0).unwrap();
        let w = d.load(ScalarType::I32, a, 3).unwrap();
        vec![w]
    });
    assert_eq!(r, Ok(vec![Word::Int { ty: ScalarType::I32, bits: 0x0011_2233 }]));
}

#[test]
fn a_load_through_an_integer_is_ill_typed() {
    let r = single(|d| {
        let v = d.iconst(ScalarType::I32, 0).unwrap();
        let w = d.load(ScalarType::I32, v, 0).unwrap();
        vec![w]
    });
    assert_eq!(r, Err(EvalError::IllTyped));
}

#[test]
fn a_constant_fits_its_type() {
    assert!(fits_type(ScalarType::I8, 0xff));
    assert!(!fits_type(ScalarType::I8, 0x100));
    assert!(fits_type(ScalarType::I32, 0xffff_ffff));
    assert!(!fits_type(ScalarType::I32, 0x1_0000_0000));
    assert!(fits_type(ScalarType::I64, u64::MAX));
    let r = single(|d| vec![d.iconst(ScalarType::I32, 0x1_0000_0000).unwrap()]);
    assert_eq!(r, Err(EvalError::IllTyped));
}

#[test]
fn a_result_of_another_type_is_an_abi_mismatch() {
    let r = single(|d| vec![d.iconst(ScalarType::I64, 1).unwrap()]);
    assert_eq!(r, Err(EvalError::AbiMismatch));
    let none = single(|_| vec![]);
    assert_eq!(none, Err(EvalError::AbiMismatch));
}

#[test]
fn a_call_that_expects_more_than_the_callee_gives_is_malformed() {
    let signature = || CallSignature::new(vec![], vec![ScalarType::I32], CallConv::SystemV);
    let mut program = Program::new();
    let one = program.declare(signature()).unwrap();
    let mut callee = FunctionDraft::declare(signature());
    callee.lower_entry().unwrap();
    let v = callee.iconst(ScalarType::I32, 3).unwrap();
    callee.ret(vec![v]).unwrap();
    callee.seal().unwrap();
    program.define(one, callee).unwrap();

    let two = program.declare(signature()).unwrap();
    let mut caller = FunctionDraft::declare(signature());
    caller.lower_entry().unwrap();
    let given = caller.call(one, vec![], 2).unwrap();
    caller.ret(vec![given[0]]).unwrap();
    caller.seal().unwrap();
    program.define(two, caller).unwrap();
    program.finalize().unwrap();
    assert_eq!(invoke(&program, two, vec![]), Err(EvalError::Malformed));
    assert_eq!(
        invoke(&program, one, vec![]),
        Ok(vec![Word::Int { ty: ScalarType::I32, bits: 3 }])
    );
}

#[test]
fn a_plain_argument_is_passed_as_it_is() {
    let callee_signature = || {
        CallSignature::new(
            vec![ParameterClass::Plain(ScalarType::I16)],
            vec![ScalarType::I16],
            CallConv::SystemV,
        )
    };
    let caller_signature = || CallSignature::new(vec![], vec![ScalarType::I16], CallConv::SystemV);
    let mut program = Program::new();
    let echo = program.declare(callee_signature()).unwrap();
    let mut callee = FunctionDraft::declare(callee_signature());
    let bound = callee.lower_entry().unwrap();
    callee.ret(bound).unwrap();
    callee.seal().unwrap();
    program.define(echo, callee).unwrap();

    let main = program.declare(caller_signature()).unwrap();
    let mut caller = FunctionDraft::declare(caller_signature());
    caller.lower_entry().unwrap();
    let v = caller.iconst(ScalarType::I16, 0xbeef).unwrap();
    let given = lower_call(&mut caller, echo, &callee_signature(), &vec![v]).unwrap();
    caller.ret(given).unwrap();
    caller.seal().unwrap();
    program.define(main, caller).unwrap();
    program.finalize().unwrap();
    assert_eq!(
        invoke(&program, main, vec![]),
        Ok(vec![Word::Int { ty: ScalarType::I16, bits: 0xbeef }])
    );
    assert_eq!(
        invoke(&program, echo, vec![Word::Int { ty: ScalarType::I16, bits: 7 }]),
        Ok(vec![Word::Int { ty: ScalarType::I16, bits: 7 }])
    );
    assert_eq!(
        invoke(&program, echo, vec![Word::Int { ty: ScalarType::I32, bits: 7 }]),
        Err(EvalError::AbiMismatch)
    );
}
