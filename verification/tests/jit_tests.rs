use cranelift::codegen::ir::{
    types, AbiParam, ArgumentPurpose, InstBuilder, StackSlotData, StackSlotKind, UserFuncName,
};
use cranelift::codegen::settings;
use cranelift::codegen::Context;
use cranelift::frontend::{FunctionBuilder, FunctionBuilderContext};
use cranelift::codegen::settings::Configurable;
use cranelift_jit::{JITBuilder, JITModule};
use cranelift_module::Module;
use struct_abi::emit::{
    build_function, close_function, declare, is_definable, lower_signature, lower_type,
    open_function,
};
use struct_abi::ir::{BuildError, FrameSlot, FunctionDraft, FunctionId, SlotId};
use struct_abi::jit::{build_pair, create_foo, create_main, MEMBER};
use struct_abi::readback::read_back;
use struct_abi::roundtrip::{callee_draft, caller_draft};
use struct_abi::layout::ScalarType;
use struct_abi::roundtrip::{callee_signature, caller_signature};
use struct_abi::signature::{CallConv, CallSignature, ParameterClass};

fn host_module() -> JITModule {
    let mut flags = settings::builder();
    flags.set("use_colocated_libcalls", "false").unwrap();
    flags.set("is_pic", "false").unwrap();
    let isa = cranelift_native::builder()
        .unwrap()
        .finish(settings::Flags::new(flags))
        .unwrap();
    JITModule::new(JITBuilder::with_isa(isa, cranelift_module::default_libcall_names()))
}

fn returns_int() -> CallSignature {
    CallSignature::new(vec![], vec![ScalarType::I32], CallConv::SystemV)
}

fn holds_nothing(context: &Context) -> bool {
    context.func.layout.blocks().count() == 0
        && context.func.dfg.num_blocks() == 0
        && context.func.dfg.num_insts() == 0
        && context.func.sized_stack_slots.is_empty()
        && context.func.dfg.ext_funcs.is_empty()
}

fn holds_nothing_in_its_layout(context: &Context) -> bool {
    context.func.layout.blocks().count() == 0
        && context.func.sized_stack_slots.is_empty()
        && context.func.dfg.ext_funcs.is_empty()
}

fn stores_one() -> FunctionDraft {
    let mut draft = FunctionDraft::declare(returns_int());
    draft.lower_entry().unwrap();
    let slot = draft.create_slot(FrameSlot { size: 4, align: 4 }).unwrap();
    let one = draft.iconst(ScalarType::I32, 1).unwrap();
    draft.stack_store(one, slot, 0).unwrap();
    draft.ret(vec![one]).unwrap();
    draft.seal().unwrap();
    draft
}

fn store_one_by_hand(module: &JITModule, context: &mut Context, kind: StackSlotKind) {
    module.clear_context(context);
    context.func.signature = lower_signature(&returns_int(), module.target_config().pointer_type());
    context.func.name = UserFuncName::testcase("one");
    let mut builder_context = FunctionBuilderContext::new();
    let mut builder = FunctionBuilder::new(&mut context.func, &mut builder_context);
    let block = builder.create_block();
    builder.switch_to_block(block);
    builder.seal_block(block);
    let slot = builder.create_sized_stack_slot(StackSlotData::new(kind, 4, 2));
    let one = builder.ins().iconst(types::I32, 1);
    builder.ins().stack_store(one, slot, 0);
    builder.ins().return_(&[one]);
    builder.finalize();
}

#[test]
fn the_callee_takes_the_struct_by_pointer_and_loads_the_field() {
    let mut module = host_module();
    let pointer = module.target_config().pointer_type();
    let conv = module.target_config().default_call_conv;
    let mut context = module.make_context();
    let foo = create_foo(&mut module, &mut context).unwrap();
    assert_eq!(foo.as_u32(), 0);
    let expected = format!(
        "function %foo({pointer} sarg(16)) -> i32 {conv} {{\n\
         block0(v0: {pointer}):\n    \
         v1 = load.i32 notrap aligned v0\n    \
         return v1\n\
         }}\n"
    );
    assert_eq!(format!("{}", context.func), expected);
}

#[test]
fn the_caller_materializes_the_struct_and_passes_its_address() {
    let mut module = host_module();
    let pointer = module.target_config().pointer_type();
    let conv = module.target_config().default_call_conv;
    let mut callee = module.make_context();
    let mut caller = module.make_context();
    let foo = create_foo(&mut module, &mut callee).unwrap();
    let main = create_main(&mut module, &mut caller, foo).unwrap();
    assert_ne!(foo, main);
    assert_eq!(MEMBER, 42);
    let expected = format!(
        "function %main() -> i32 {conv} {{\n    \
         ss0 = explicit_slot 4, align = 4\n    \
         sig0 = ({pointer} sarg(16)) -> i32 {conv}\n    \
         fn0 = colocated u0:0 sig0\n\
         \n\
         block0:\n    \
         v0 = iconst.i32 42\n    \
         stack_store v0, ss0  ; v0 = 42\n    \
         v1 = stack_addr.{pointer} ss0\n    \
         v2 = call fn0(v1)\n    \
         return v2\n\
         }}\n"
    );
    assert_eq!(format!("{}", caller.func), expected);
}

#[test]
fn the_pair_is_declared_in_order() {
    let mut module = host_module();
    let mut callee = module.make_context();
    let mut caller = module.make_context();
    let (foo, main) = build_pair(&mut module, &mut callee, &mut caller).unwrap();
    assert_eq!(foo.as_u32(), 0);
    assert_eq!(main.as_u32(), 1);
    assert!(format!("{}", callee.func).starts_with("function %foo("));
    assert!(format!("{}", caller.func).starts_with("function %main("));
    assert_eq!(module.declarations().get_functions().count(), 2);
    assert_eq!(module.declarations().get_function_decl(foo).name.as_deref(), Some("foo"));
    assert_eq!(module.declarations().get_function_decl(main).name.as_deref(), Some("main"));
}

#[test]
fn building_in_two_modules_gives_the_same_functions() {
    let mut texts = Vec::new();
    for _ in 0..2 {
        let mut module = host_module();
        let mut callee = module.make_context();
        let mut caller = module.make_context();
        build_pair(&mut module, &mut callee, &mut caller).unwrap();
        texts.push((format!("{}", callee.func), format!("{}", caller.func)));
    }
    assert_eq!(texts[0], texts[1]);
}

#[test]
fn a_context_is_cleared_before_it_is_used_again() {
    let mut module = host_module();
    let mut context = module.make_context();
    let foo = create_foo(&mut module, &mut context).unwrap();
    let first = format!("{}", context.func);
    create_main(&mut module, &mut context, foo).unwrap();
    let second = format!("{}", context.func);
    assert!(first.contains("load.i32"));
    assert!(!second.contains("load.i32"));
    assert!(second.contains("iconst.i32 42"));
}

#[test]
fn the_callee_compiles() {
    let mut module = host_module();
    let mut context = module.make_context();
    let foo = create_foo(&mut module, &mut context).unwrap();
    assert!(module.define_function(foo, &mut context).is_ok());
}

#[test]
fn the_caller_compiles_after_the_callee() {
    let mut module = host_module();
    let mut context = module.make_context();
    let foo = create_foo(&mut module, &mut context).unwrap();
    assert!(module.define_function(foo, &mut context).is_ok());
    let main = create_main(&mut module, &mut context, foo).unwrap();
    assert!(module.define_function(main, &mut context).is_ok());
    assert!(module.finalize_definitions().is_ok());
}

#[test]
fn a_name_is_declared_with_one_signature() {
    let mut module = host_module();
    let first = declare(&mut module, "f", &returns_int()).unwrap();
    assert_eq!(declare(&mut module, "f", &returns_int()), Err(BuildError::Declaration));
    assert_eq!(
        declare(&mut module, "f", &callee_signature(CallConv::SystemV)),
        Err(BuildError::Declaration)
    );
    assert_eq!(module.declarations().get_functions().count(), 1);
    let second = declare(&mut module, "g", &returns_int()).unwrap();
    assert_ne!(first, second);
    assert_eq!(module.declarations().get_functions().count(), 2);
}

#[test]
fn scalars_are_lowered_to_integer_types() {
    assert_eq!(lower_type(ScalarType::I8), types::I8);
    assert_eq!(lower_type(ScalarType::I16), types::I16);
    assert_eq!(lower_type(ScalarType::I32), types::I32);
    assert_eq!(lower_type(ScalarType::I64), types::I64);
}

#[test]
fn a_struct_parameter_is_lowered_with_its_padded_size() {
    let signature = CallSignature::new(
        vec![ParameterClass::StructByPointer(48), ParameterClass::Plain(ScalarType::I16)],
        vec![ScalarType::I32, ScalarType::I64],
        CallConv::WindowsFastcall,
    );
    let lowered = lower_signature(&signature, types::I64);
    assert_eq!(
        lowered.params,
        vec![
            AbiParam::special(types::I64, ArgumentPurpose::StructArgument(48)),
            AbiParam::new(types::I16),
        ]
    );
    assert_eq!(lowered.returns, vec![AbiParam::new(types::I32), AbiParam::new(types::I64)]);
    assert_eq!(
        lowered.call_conv,
        cranelift::codegen::isa::CallConv::WindowsFastcall
    );
    let example = lower_signature(&callee_signature(CallConv::SystemV), types::I64);
    assert_eq!(
        example.params,
        vec![AbiParam::special(types::I64, ArgumentPurpose::StructArgument(16))]
    );
    assert_eq!(lower_signature(&caller_signature(CallConv::AppleAarch64), types::I64).params, vec![]);
}

#[test]
fn a_general_function_is_built() {
    let mut module = host_module();
    let conv = module.target_config().default_call_conv;
    let signature = CallSignature::new(
        vec![ParameterClass::Plain(ScalarType::I64), ParameterClass::Plain(ScalarType::I8)],
        vec![ScalarType::I64],
        CallConv::SystemV,
    );
    let mut draft = FunctionDraft::declare(signature);
    let bound = draft.lower_entry().unwrap();
    let slot = draft.create_slot(FrameSlot { size: 16, align: 8 }).unwrap();
    draft.stack_store(bound[0], slot, 8).unwrap();
    let wide = draft.iconst(ScalarType::I64, u64::MAX).unwrap();
    draft.stack_store(wide, slot, 0).unwrap();
    draft.ret(vec![bound[0]]).unwrap();
    draft.seal().unwrap();
    assert!(is_definable(&draft, 0));
    let mut context = module.make_context();
    assert_eq!(build_function(&mut module, &mut context, "store", &draft, &vec![]), Ok(()));
    let expected = format!(
        "function %store(i64, i8) -> i64 {conv} {{\n    \
         ss0 = explicit_slot 16, align = 8\n\
         \n\
         block0(v0: i64, v1: i8):\n    \
         stack_store v0, ss0+8\n    \
         v2 = iconst.i64 -1\n    \
         stack_store v2, ss0  ; v2 = -1\n    \
         return v0\n\
         }}\n"
    );
    assert_eq!(format!("{}", context.func), expected);
    let pointer = module.target_config().pointer_type();
    let read = read_back(&context, &draft, &vec![], pointer).unwrap();
    assert_eq!(read.values.len(), 3);
    assert_eq!(read.slots.len(), 1);
    assert_eq!(read.imports.len(), 0);
}

#[test]
fn an_unclosed_function_is_not_built() {
    let mut module = host_module();
    let mut context = module.make_context();
    let mut draft = FunctionDraft::declare(returns_int());
    draft.lower_entry().unwrap();
    draft.iconst(ScalarType::I32, 1).unwrap();
    assert!(!is_definable(&draft, 0));
    assert_eq!(
        build_function(&mut module, &mut context, "open", &draft, &vec![]),
        Err(BuildError::Definition)
    );
}

#[test]
fn a_slot_needs_an_alignment_that_is_a_power_of_two() {
    let mut module = host_module();
    let mut context = module.make_context();
    let mut draft = FunctionDraft::declare(returns_int());
    draft.lower_entry().unwrap();
    draft.create_slot(FrameSlot { size: 4, align: 3 }).unwrap();
    let v = draft.iconst(ScalarType::I32, 1).unwrap();
    draft.ret(vec![v]).unwrap();
    assert_eq!(
        build_function(&mut module, &mut context, "odd", &draft, &vec![]),
        Err(BuildError::Definition)
    );
}

#[test]
fn an_offset_of_two_to_the_31_is_not_encodable() {
    let mut module = host_module();
    let mut context = module.make_context();
    let mut draft = FunctionDraft::declare(returns_int());
    draft.lower_entry().unwrap();
    let slot = draft.create_slot(FrameSlot { size: 4, align: 4 }).unwrap();
    let v = draft.iconst(ScalarType::I32, 1).unwrap();
    draft.stack_store(v, slot, 0x8000_0000).unwrap();
    draft.ret(vec![v]).unwrap();
    assert_eq!(slot, SlotId(0));
    assert_eq!(
        build_function(&mut module, &mut context, "far", &draft, &vec![]),
        Err(BuildError::Definition)
    );
}

#[test]
fn a_call_gets_as_many_results_as_the_callee_gives() {
    let mut module = host_module();
    let callee = declare(&mut module, "one", &returns_int()).unwrap();
    let mut context = module.make_context();
    let mut draft = FunctionDraft::declare(returns_int());
    draft.lower_entry().unwrap();
    let given = draft.call(FunctionId(0), vec![], 2).unwrap();
    draft.ret(vec![given[0]]).unwrap();
    assert_eq!(
        build_function(&mut module, &mut context, "two", &draft, &vec![callee]),
        Err(BuildError::Arity)
    );
    assert!(holds_nothing(&context));
    let mut right = FunctionDraft::declare(returns_int());
    right.lower_entry().unwrap();
    let given = right.call(FunctionId(0), vec![], 1).unwrap();
    right.ret(given).unwrap();
    assert_eq!(
        build_function(&mut module, &mut context, "two", &right, &vec![callee]),
        Ok(())
    );
    assert!(format!("{}", context.func).contains("v0 = call fn0()"));
}

#[test]
fn a_block_takes_no_more_than_65536_parameters() {
    let mut module = host_module();
    let mut context = module.make_context();
    let mut params = Vec::new();
    for _ in 0..0x1_0001 {
        params.push(ParameterClass::Plain(ScalarType::I8));
    }
    let mut draft = FunctionDraft::declare(CallSignature::new(
        params,
        vec![ScalarType::I8],
        CallConv::SystemV,
    ));
    let bound = draft.lower_entry().unwrap();
    draft.ret(vec![bound[0]]).unwrap();
    assert!(is_definable(&draft, 0));
    assert_eq!(
        build_function(&mut module, &mut context, "wide", &draft, &vec![]),
        Err(BuildError::Exhausted)
    );
    assert!(holds_nothing(&context));
}

#[test]
fn the_callee_is_declared_once() {
    let mut module = host_module();
    let mut context = module.make_context();
    let foo = create_foo(&mut module, &mut context).unwrap();
    let built = format!("{}", context.func);
    assert_eq!(create_foo(&mut module, &mut context), Err(BuildError::Declaration));
    assert_eq!(format!("{}", context.func), built);
    assert_eq!(module.declarations().get_functions().count(), 1);
    assert_eq!(module.declarations().get_function_decl(foo).name.as_deref(), Some("foo"));
}

#[test]
fn the_caller_is_declared_once_and_before_anything_is_built() {
    let mut module = host_module();
    let mut context = module.make_context();
    let foo = create_foo(&mut module, &mut context).unwrap();
    let built = format!("{}", context.func);
    declare(&mut module, "main", &callee_signature(CallConv::SystemV)).unwrap();
    assert_eq!(create_main(&mut module, &mut context, foo), Err(BuildError::Declaration));
    assert_eq!(format!("{}", context.func), built);
    assert_eq!(module.declarations().get_functions().count(), 2);
}

#[test]
fn the_pair_is_refused_where_a_name_is_taken() {
    let mut module = host_module();
    let mut callee = module.make_context();
    let mut caller = module.make_context();
    declare(&mut module, "main", &returns_int()).unwrap();
    assert_eq!(
        build_pair(&mut module, &mut callee, &mut caller),
        Err(BuildError::Declaration)
    );
    assert_eq!(module.declarations().get_functions().count(), 1);
    assert_eq!(callee.func.dfg.num_blocks(), 0);
    assert_eq!(caller.func.dfg.num_blocks(), 0);
}

#[test]
fn the_caller_is_another_function_than_the_callee() {
    let mut module = host_module();
    let conv = module.target_config().default_call_conv;
    let mut callee = module.make_context();
    let mut caller = module.make_context();
    let (foo, main) = build_pair(&mut module, &mut callee, &mut caller).unwrap();
    assert_ne!(foo, main);
    let declared = module.declarations().get_function_decl(foo);
    assert_eq!(declared.signature.params.len(), 1);
    assert_eq!(declared.signature.call_conv, conv);
    let entry = module.declarations().get_function_decl(main);
    assert_eq!(entry.signature.params.len(), 0);
    assert_eq!(entry.signature.returns, vec![AbiParam::new(types::I32)]);
    assert_eq!(entry.signature.call_conv, conv);
    assert_eq!(entry.linkage, cranelift_module::Linkage::Export);
}

#[test]
fn a_signature_has_no_more_than_65536_results() {
    let mut module = host_module();
    let mut results = Vec::new();
    for _ in 0..0x1_0001 {
        results.push(ScalarType::I8);
    }
    let wide = CallSignature::new(vec![], results, CallConv::SystemV);
    assert_eq!(declare(&mut module, "wide", &wide), Err(BuildError::Exhausted));
    assert_eq!(module.declarations().get_functions().count(), 0);
}

#[test]
fn what_the_context_holds_is_read_back() {
    let mut module = host_module();
    let pointer = module.target_config().pointer_type();
    let mut callee = module.make_context();
    let mut caller = module.make_context();
    let (foo, _) = build_pair(&mut module, &mut callee, &mut caller).unwrap();
    let callee_model = callee_draft(CallConv::SystemV);
    let caller_model = caller_draft(MEMBER, FunctionId(0), CallConv::SystemV);
    let read = read_back(&callee, &callee_model, &vec![], pointer).unwrap();
    assert_eq!(read.values.len(), 2);
    assert_eq!(read.slots.len(), 0);
    assert_eq!(read.imports.len(), 0);
    let read = read_back(&caller, &caller_model, &vec![foo], pointer).unwrap();
    assert_eq!(read.values.len(), 3);
    assert_eq!(read.slots.len(), 1);
    assert_eq!(read.imports.len(), 1);
    assert!(read_back(&callee, &caller_model, &vec![foo], pointer).is_none());
    assert!(read_back(&caller, &callee_model, &vec![], pointer).is_none());
    let other = caller_draft(MEMBER + 1, FunctionId(0), CallConv::SystemV);
    assert!(read_back(&caller, &other, &vec![foo], pointer).is_none());
    assert!(read_back(&caller, &caller_model, &vec![], pointer).is_none());
    assert!(read_back(&caller, &caller_model, &vec![foo], types::I32).is_none());
}

#[test]
fn a_function_that_cannot_be_built_leaves_the_context_as_it_was() {
    let mut module = host_module();
    let mut context = module.make_context();
    create_foo(&mut module, &mut context).unwrap();
    let held = format!("{}", context.func);
    let mut draft = FunctionDraft::declare(returns_int());
    draft.lower_entry().unwrap();
    draft.iconst(ScalarType::I32, 1).unwrap();
    assert_eq!(
        build_function(&mut module, &mut context, "open", &draft, &vec![]),
        Err(BuildError::Definition)
    );
    assert_eq!(format!("{}", context.func), held);
}

#[test]
fn a_refused_call_clears_what_the_context_held() {
    let mut module = host_module();
    let mut context = module.make_context();
    create_foo(&mut module, &mut context).unwrap();
    let one = declare(&mut module, "one", &returns_int()).unwrap();
    assert!(!holds_nothing(&context));
    let mut draft = FunctionDraft::declare(returns_int());
    draft.lower_entry().unwrap();
    let slot = draft.create_slot(FrameSlot { size: 4, align: 4 }).unwrap();
    let stored = draft.iconst(ScalarType::I32, 1).unwrap();
    draft.stack_store(stored, slot, 0).unwrap();
    let given = draft.call(FunctionId(0), vec![], 3).unwrap();
    draft.ret(vec![given[0]]).unwrap();
    assert!(is_definable(&draft, 1));
    assert_eq!(
        build_function(&mut module, &mut context, "three", &draft, &vec![one]),
        Err(BuildError::Arity)
    );
    assert!(holds_nothing(&context));
}

#[test]
fn a_function_that_is_built_is_read_back() {
    let mut module = host_module();
    let pointer = module.target_config().pointer_type();
    let callee = declare(&mut module, "one", &returns_int()).unwrap();
    let signature = CallSignature::new(
        vec![ParameterClass::Plain(ScalarType::I64), ParameterClass::StructByPointer(32)],
        vec![ScalarType::I16],
        CallConv::SystemV,
    );
    let mut draft = FunctionDraft::declare(signature);
    let bound = draft.lower_entry().unwrap();
    let first = draft.create_slot(FrameSlot { size: 16, align: 8 }).unwrap();
    let second = draft.create_slot(FrameSlot { size: 4, align: 1 }).unwrap();
    draft.stack_store(bound[0], first, 8).unwrap();
    let given = draft.call(FunctionId(0), vec![], 1).unwrap();
    draft.stack_store(given[0], second, 0).unwrap();
    let again = draft.call(FunctionId(1), vec![], 1).unwrap();
    draft.stack_store(again[0], first, 0).unwrap();
    let field = draft.load(ScalarType::I16, bound[1], 6).unwrap();
    draft.ret(vec![field]).unwrap();
    draft.seal().unwrap();
    let other = declare(&mut module, "other", &returns_int()).unwrap();
    let functions = vec![callee, other];
    let mut context = module.make_context();
    assert_eq!(build_function(&mut module, &mut context, "both", &draft, &functions), Ok(()));
    let read = read_back(&context, &draft, &functions, pointer).unwrap();
    assert_eq!(read.values.len(), 5);
    assert_eq!(read.slots.len(), 2);
    assert_eq!(read.imports.len(), 2);
    assert_ne!(read.slots[0], read.slots[1]);
    assert_ne!(read.imports[0], read.imports[1]);
    assert!(read_back(&context, &draft, &vec![other, callee], pointer).is_none());
}

#[test]
fn a_slot_is_read_back_with_its_kind() {
    let module = host_module();
    let pointer = module.target_config().pointer_type();
    let draft = stores_one();
    let mut context = module.make_context();
    store_one_by_hand(&module, &mut context, StackSlotKind::ExplicitSlot);
    assert!(read_back(&context, &draft, &vec![], pointer).is_some());
    store_one_by_hand(&module, &mut context, StackSlotKind::ExplicitDynamicSlot);
    assert!(read_back(&context, &draft, &vec![], pointer).is_none());
}

#[test]
fn a_function_built_by_hand_is_the_function_that_is_built() {
    let mut module = host_module();
    let draft = stores_one();
    let mut built = module.make_context();
    assert_eq!(build_function(&mut module, &mut built, "one", &draft, &vec![]), Ok(()));
    let mut by_hand = module.make_context();
    store_one_by_hand(&module, &mut by_hand, StackSlotKind::ExplicitSlot);
    assert_eq!(format!("{}", built.func), format!("{}", by_hand.func));
}

#[test]
fn the_pair_is_built_wherever_both_names_are_free() {
    let mut module = host_module();
    declare(&mut module, "bar", &returns_int()).unwrap();
    declare(&mut module, "baz", &caller_signature(CallConv::SystemV)).unwrap();
    let mut callee = module.make_context();
    let mut caller = module.make_context();
    let (foo, main) = build_pair(&mut module, &mut callee, &mut caller).unwrap();
    assert_eq!(foo.as_u32(), 2);
    assert_eq!(main.as_u32(), 3);
    assert!(format!("{}", caller.func).contains("fn0 = colocated u0:2 sig0"));
    let model = caller_draft(MEMBER, FunctionId(0), CallConv::SystemV);
    let pointer = module.target_config().pointer_type();
    assert!(read_back(&caller, &model, &vec![foo], pointer).is_some());
}

#[test]
fn constants_of_every_width_are_read_back() {
    let mut module = host_module();
    let pointer = module.target_config().pointer_type();
    let mut draft = FunctionDraft::declare(returns_int());
    draft.lower_entry().unwrap();
    let slot = draft.create_slot(FrameSlot { size: 32, align: 16 }).unwrap();
    let byte = draft.iconst(ScalarType::I8, 0xff).unwrap();
    let half = draft.iconst(ScalarType::I16, 0x8000).unwrap();
    let word = draft.iconst(ScalarType::I32, 0xffff_ffff).unwrap();
    let long = draft.iconst(ScalarType::I64, u64::MAX).unwrap();
    draft.stack_store(byte, slot, 0).unwrap();
    draft.stack_store(half, slot, 2).unwrap();
    draft.stack_store(long, slot, 0x7fff_ffff).unwrap();
    let address = draft.stack_addr(slot, 24).unwrap();
    let field = draft.load(ScalarType::I32, address, 0x7fff_ffff).unwrap();
    assert_ne!(word, field);
    draft.ret(vec![word]).unwrap();
    draft.seal().unwrap();
    let mut context = module.make_context();
    assert_eq!(build_function(&mut module, &mut context, "wide", &draft, &vec![]), Ok(()));
    let text = format!("{}", context.func);
    assert!(text.contains("ss0 = explicit_slot 32, align = 16"));
    assert!(text.contains("iconst.i8 -1"));
    assert!(text.contains("iconst.i16 -32768"));
    assert!(text.contains("iconst.i32 -1"));
    assert!(text.contains("iconst.i64 -1"));
    let read = read_back(&context, &draft, &vec![], pointer).unwrap();
    assert_eq!(read.values.len(), 6);
    assert_eq!(read.slots.len(), 1);
}

#[test]
fn a_function_is_closed_at_its_block() {
    let module = host_module();
    let mut context = module.make_context();
    let mut builder_context = FunctionBuilderContext::new();
    let (mut builder, entry) =
        open_function(&module, &mut context, &mut builder_context, "empty", &returns_int());
    assert_eq!(builder.current_block(), Some(entry));
    let one = builder.ins().iconst(types::I32, 1);
    builder.ins().return_(&[one]);
    assert_eq!(close_function(builder), Some(entry));
    assert_eq!(context.func.layout.blocks().collect::<Vec<_>>(), vec![entry]);
    assert_eq!(format!("{}", context.func.name), "%empty");
}

#[test]
fn a_function_without_instructions_holds_no_block() {
    let mut module = host_module();
    let mut context = module.make_context();
    create_foo(&mut module, &mut context).unwrap();
    let mut builder_context = FunctionBuilderContext::new();
    let (builder, entry) =
        open_function(&module, &mut context, &mut builder_context, "empty", &returns_int());
    assert_eq!(close_function(builder), Some(entry));
    assert!(holds_nothing_in_its_layout(&context));
}
