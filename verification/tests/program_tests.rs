use struct_abi::ir::{BuildError, BuildState, CallArgument, FunctionDraft, FunctionId, ValueId};
use struct_abi::layout::ScalarType;
use struct_abi::program::{validate, Program};
use struct_abi::signature::{CallConv, CallSignature, ParameterClass};

fn returns_int() -> CallSignature {
    CallSignature::new(vec![], vec![ScalarType::I32], CallConv::SystemV)
}

fn constant(value: u64) -> FunctionDraft {
    let mut draft = FunctionDraft::declare(returns_int());
    draft.lower_entry().unwrap();
    let v = draft.iconst(ScalarType::I32, value).unwrap();
    draft.ret(vec![v]).unwrap();
    draft.seal().unwrap();
    draft
}

#[test]
fn functions_are_numbered_as_they_are_declared() {
    let mut program = Program::new();
    assert_eq!(program.len(), 0);
    assert!(!program.is_finalized());
    assert_eq!(program.declare(returns_int()), Ok(FunctionId(0)));
    assert_eq!(program.declare(returns_int()), Ok(FunctionId(1)));
    assert_eq!(program.len(), 2);
    assert_eq!(program.function(0).state(), BuildState::Declared);
}

#[test]
fn a_sealed_function_is_defined() {
    let mut program = Program::new();
    let id = program.declare(returns_int()).unwrap();
    assert_eq!(program.define(id, constant(7)), Ok(()));
    assert_eq!(program.function(0).state(), BuildState::Defined);
    assert_eq!(program.function(0).len(), 2);
}

#[test]
fn a_function_is_defined_once() {
    let mut program = Program::new();
    let id = program.declare(returns_int()).unwrap();
    assert_eq!(program.define(id, constant(7)), Ok(()));
    assert_eq!(program.define(id, constant(8)), Err(BuildError::Definition));
}

#[test]
fn an_undeclared_function_is_not_defined() {
    let mut program = Program::new();
    assert_eq!(program.define(FunctionId(0), constant(7)), Err(BuildError::Declaration));
}

#[test]
fn a_definition_has_the_declared_signature() {
    let mut program = Program::new();
    let id = program
        .declare(CallSignature::new(vec![], vec![ScalarType::I64], CallConv::SystemV))
        .unwrap();
    assert_eq!(program.define(id, constant(7)), Err(BuildError::Declaration));
    assert_eq!(program.function(0).state(), BuildState::Declared);
}

#[test]
fn an_unsealed_function_is_not_defined() {
    let mut program = Program::new();
    let id = program.declare(returns_int()).unwrap();
    let mut draft = FunctionDraft::declare(returns_int());
    draft.lower_entry().unwrap();
    let v = draft.iconst(ScalarType::I32, 1).unwrap();
    draft.ret(vec![v]).unwrap();
    assert!(!validate(&draft, id));
    assert_eq!(program.define(id, draft), Err(BuildError::Definition));
}

#[test]
fn an_unclosed_block_is_not_defined() {
    let mut program = Program::new();
    let id = program.declare(returns_int()).unwrap();
    let mut draft = FunctionDraft::declare(returns_int());
    draft.lower_entry().unwrap();
    draft.iconst(ScalarType::I32, 1).unwrap();
    draft.seal().unwrap();
    assert!(!validate(&draft, id));
    assert_eq!(program.define(id, draft), Err(BuildError::Definition));
}

#[test]
fn a_value_is_defined_before_it_is_used() {
    let mut draft = FunctionDraft::declare(returns_int());
    draft.lower_entry().unwrap();
    draft.ret(vec![ValueId(0)]).unwrap();
    draft.seal().unwrap();
    assert!(!validate(&draft, FunctionId(0)));
    assert!(validate(&constant(3), FunctionId(0)));
}

#[test]
fn a_function_calls_only_functions_declared_before_it() {
    let mut draft = FunctionDraft::declare(returns_int());
    draft.lower_entry().unwrap();
    let given = draft.call(FunctionId(1), vec![], 1).unwrap();
    draft.ret(given).unwrap();
    draft.seal().unwrap();
    assert!(!validate(&draft, FunctionId(1)));
    assert!(!validate(&draft, FunctionId(0)));
    assert!(validate(&draft, FunctionId(2)));
}

#[test]
fn a_stack_slot_exists_before_it_is_used() {
    let mut draft = FunctionDraft::declare(returns_int());
    draft.lower_entry().unwrap();
    let v = draft.iconst(ScalarType::I32, 1).unwrap();
    draft.stack_store(v, struct_abi::ir::SlotId(0), 0).unwrap();
    draft.ret(vec![v]).unwrap();
    draft.seal().unwrap();
    assert!(!validate(&draft, FunctionId(0)));
}

#[test]
fn an_argument_is_defined_before_the_call() {
    let mut draft = FunctionDraft::declare(returns_int());
    draft.lower_entry().unwrap();
    let given = draft
        .call(
            FunctionId(0),
            vec![CallArgument::StructPointer { address: ValueId(9), padded_size: 16 }],
            1,
        )
        .unwrap();
    draft.ret(given).unwrap();
    draft.seal().unwrap();
    assert!(!validate(&draft, FunctionId(1)));
}

#[test]
fn finalize_wants_every_function_defined() {
    let mut program = Program::new();
    let first = program.declare(returns_int()).unwrap();
    program.declare(returns_int()).unwrap();
    program.define(first, constant(1)).unwrap();
    assert_eq!(program.finalize(), Err(BuildError::Definition));
    assert!(!program.is_finalized());
    program.define(FunctionId(1), constant(2)).unwrap();
    assert_eq!(program.finalize(), Ok(()));
    assert!(program.is_finalized());
    assert_eq!(program.finalize(), Ok(()));
}

#[test]
fn nothing_is_declared_or_defined_after_finalize() {
    let mut program = Program::new();
    let id = program.declare(returns_int()).unwrap();
    program.define(id, constant(1)).unwrap();
    program.finalize().unwrap();
    assert_eq!(program.declare(returns_int()), Err(BuildError::State));
    assert_eq!(program.define(id, constant(1)), Err(BuildError::State));
    assert_eq!(program.len(), 1);
}

#[test]
fn a_signature_with_a_struct_parameter_is_declared() {
    let mut program = Program::new();
    let signature = CallSignature::new(
        vec![ParameterClass::StructByPointer(16)],
        vec![ScalarType::I32],
        CallConv::SystemV,
    );
    assert_eq!(program.declare(signature), Ok(FunctionId(0)));
    assert_eq!(
        program.function(0).signature().param(0),
        ParameterClass::StructByPointer(16)
    );
}
