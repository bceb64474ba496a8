//! Cranelift, as far as the lowering hands its work to it.
//!
//! Nothing in this file is proved. The types are Cranelift's own; the
//! functions without a body name what Cranelift holds; and each function
//! with a body makes one call into Cranelift, or reads one thing out of
//! what Cranelift holds, under a contract that states what the source of
//! Cranelift shows of it. A `requires` leaves out the inputs on which
//! Cranelift would fail an assertion.

use vstd::prelude::*;
use cranelift::codegen::ir::{
    AbiParam, ArgumentPurpose, Block, ExternalName, FuncRef, InstructionData, MemFlags, Opcode,
    StackSlot, StackSlotData, StackSlotKind, Type, UserFuncName, Value,
};
use cranelift::codegen::isa;
use cranelift::codegen::Context;
use cranelift::frontend::{FunctionBuilder, FunctionBuilderContext};
use cranelift::prelude::InstBuilder;
use cranelift_jit::JITModule;
use cranelift_module::{FuncId, Linkage, Module, ModuleError};
use crate::signature::CallConv;

verus! {

/// Cranelift's `Context`: the function that is being built or compiled,
/// and what its compilation needs.
#[verifier::external_type_specification]
#[verifier::external_body]
pub struct ExContext(Context);

/// Cranelift's `FunctionBuilderContext`: the state that a
/// `FunctionBuilder` keeps between its calls.
#[verifier::external_type_specification]
#[verifier::external_body]
pub struct ExFunctionBuilderContext(FunctionBuilderContext);

/// Cranelift's `FunctionBuilder`: it builds one function into a `Context`.
#[verifier::external_type_specification]
#[verifier::external_body]
pub struct ExFunctionBuilder<'a>(FunctionBuilder<'a>);

/// Cranelift's `JITModule`: the functions that are declared and compiled
/// for the host.
#[verifier::external_type_specification]
#[verifier::external_body]
pub struct ExJITModule(JITModule);

/// Cranelift's `FuncId`: a function of a module.
#[verifier::external_type_specification]
#[verifier::external_body]
pub struct ExFuncId(FuncId);

/// Cranelift's `ModuleError`: why a module refused a declaration or a
/// definition.
#[verifier::external_type_specification]
#[verifier::external_body]
pub struct ExModuleError(ModuleError);

/// Cranelift's `Type`: the type of a value.
#[verifier::external_type_specification]
#[verifier::external_body]
pub struct ExType(Type);

/// Cranelift's `AbiParam`: a parameter or result of a signature.
#[verifier::external_type_specification]
#[verifier::external_body]
pub struct ExAbiParam(AbiParam);

/// Cranelift's `Signature`: the parameters, results and calling
/// convention of a function.
#[verifier::external_type_specification]
#[verifier::external_body]
pub struct ExSignature(cranelift::codegen::ir::Signature);

/// Cranelift's `Block`: a basic block of a function.
#[verifier::external_type_specification]
#[verifier::external_body]
pub struct ExBlock(Block);

/// Cranelift's `Value`: a value of a function.
#[verifier::external_type_specification]
#[verifier::external_body]
pub struct ExValue(Value);

/// Cranelift's `StackSlot`: a stack slot of a function.
#[verifier::external_type_specification]
#[verifier::external_body]
pub struct ExStackSlot(StackSlot);

/// Cranelift's `FuncRef`: a function that a function imports.
#[verifier::external_type_specification]
#[verifier::external_body]
pub struct ExFuncRef(FuncRef);

/// What an `AbiParam` holds: the bits of its type, and the size of the
/// struct where its purpose is `StructArgument`, `None` where it is `Normal`.
pub struct AbiParamView {
    pub bits: int,
    pub struct_size: Option<u32>,
}

/// What a Cranelift signature holds.
pub struct LoweredSignature {
    pub params: Seq<AbiParamView>,
    pub results: Seq<AbiParamView>,
    pub call_conv: CallConv,
}

/// A stack slot of a function: whether its kind is `ExplicitSlot`, its
/// size, and the exponent of its alignment.
pub struct SlotData {
    pub explicit: bool,
    pub size: u32,
    pub align_shift: u8,
}

/// A function that a function under construction imports: the function
/// of the module that it names, and how many results that one gives.
pub struct Import {
    pub function: FuncId,
    pub results: nat,
}

/// An instruction in a block, with the values, slots and functions that
/// it names.
pub enum Emitted {
    Iconst { result: Value, bits: int, imm: i64 },
    StackStore { value: Value, slot: StackSlot, offset: i32 },
    StackAddr { result: Value, bits: int, slot: StackSlot, offset: i32 },
    /// A load; `notrap` and `aligned` are the flags of those names.
    Load { result: Value, bits: int, address: Value, offset: i32, notrap: bool, aligned: bool },
    Call { function: FuncRef, arguments: Seq<Value>, results: Seq<Value> },
    Return { values: Seq<Value> },
    /// Any other instruction.
    Other,
}

/// What the function of a context holds.
pub struct FunctionView {
    /// The name, as `UserFuncName::testcase` was given it.
    pub name: Seq<char>,
    /// The signature.
    pub signature: LoweredSignature,
    /// The blocks, in the order of the layout.
    pub blocks: Seq<Block>,
    /// The parameters of the first block, in order, each with the bits of
    /// its type.
    pub params: Seq<(Value, int)>,
    /// The stack slots, in order.
    pub slots: Seq<(StackSlot, SlotData)>,
    /// The imported functions, in order; with each, where its name is a
    /// user name, the namespace and the index of that name. A module names
    /// its functions in namespace 0, each by its number.
    pub imports: Seq<(FuncRef, Option<(u32, u32)>)>,
    /// The instructions of the first block, in order.
    pub insts: Seq<Emitted>,
}

impl FunctionView {
    /// Whether the function holds no block, stack slot, import or
    /// instruction.
    pub open spec fn bare(self) -> bool {
        &&& self.blocks.len() == 0
        &&& self.params.len() == 0
        &&& self.slots.len() == 0
        &&& self.imports.len() == 0
        &&& self.insts.len() == 0
    }
}

/// What a `FunctionBuilder` holds, for a function of one block.
pub struct BuilderState {
    /// The block, once it is created.
    pub entry: Option<Block>,
    /// Whether instructions are inserted at the block.
    pub positioned: bool,
    /// Whether the block is sealed.
    pub sealed: bool,
    /// Whether a terminator closes the block.
    pub filled: bool,
    /// The parameters of the block, in order, each with the bits of its type.
    pub params: Seq<(Value, int)>,
    /// The instructions of the block, in order.
    pub insts: Seq<Emitted>,
    /// The values that are defined.
    pub values: Set<Value>,
    /// The stack slots.
    pub slots: Map<StackSlot, SlotData>,
    /// The stack slots, in the order in which they were created.
    pub slot_order: Seq<StackSlot>,
    /// The imported functions.
    pub imports: Map<FuncRef, Import>,
    /// The imported functions, in the order in which they were imported.
    pub import_order: Seq<FuncRef>,
}

impl BuilderState {
    /// A builder to which nothing was added.
    pub open spec fn fresh() -> BuilderState {
        BuilderState {
            entry: None,
            positioned: false,
            sealed: false,
            filled: false,
            params: Seq::empty(),
            insts: Seq::empty(),
            values: Set::empty(),
            slots: Map::empty(),
            slot_order: Seq::empty(),
            imports: Map::empty(),
            import_order: Seq::empty(),
        }
    }

    /// Whether an instruction can be inserted.
    pub open spec fn accepts(self) -> bool {
        self.entry is Some && self.positioned && !self.filled
    }

    /// Whether each of `values` is defined.
    pub open spec fn defines(self, values: Seq<Value>) -> bool {
        forall|i: int| 0 <= i < values.len() ==> self.values.contains(#[trigger] values[i])
    }

    /// This state with one more instruction, which defines `results`.
    pub open spec fn append(self, inst: Emitted, results: Seq<Value>) -> BuilderState {
        BuilderState {
            insts: self.insts.push(inst),
            values: self.values.union(results.to_set()),
            ..self
        }
    }
}

/// Whether a function holds what a builder has built: where the builder
/// has inserted an instruction, the block of the builder with its
/// parameters and instructions, and else no block; the stack slots in the
/// order of their creation; and the imports in their order, each named in
/// namespace 0 by the number of its function.
pub open spec fn built(outcome: FunctionView, state: BuilderState) -> bool {
    &&& state.insts.len() > 0 ==> state.entry is Some && outcome.blocks == seq![state.entry->0]
        && outcome.params == state.params
    &&& state.insts.len() == 0 ==> outcome.blocks.len() == 0 && outcome.params.len() == 0
    &&& outcome.insts == state.insts
    &&& outcome.slots == Seq::new(
        state.slot_order.len(),
        |i: int| (state.slot_order[i], state.slots[state.slot_order[i]]),
    )
    &&& outcome.imports == Seq::new(
        state.import_order.len(),
        |i: int|
            (
                state.import_order[i],
                Some((0u32, function_number(state.imports[state.import_order[i]].function))),
            ),
    )
}

/// Whether a builder that is finalized in `state`, at the block
/// `position`, leaves the function `outcome`.
pub open spec fn finished(outcome: FunctionView, state: BuilderState, position: Option<Block>) -> bool {
    &&& built(outcome, state)
    &&& position == (if state.positioned {
        state.entry
    } else {
        None
    })
}

/// Whether `results` are values that `state` does not define, no two the same.
pub open spec fn new_values(state: BuilderState, results: Seq<Value>) -> bool {
    &&& forall|i: int| 0 <= i < results.len() ==> !state.values.contains(#[trigger] results[i])
    &&& forall|i: int, j: int|
        0 <= i < j < results.len() ==> #[trigger] results[i] != #[trigger] results[j]
}

/// Whether the constant `imm` is one that Cranelift keeps as it is in a
/// type of `bits` bits: it has no bit set above the width of the type.
pub open spec fn immediate_in_width(bits: int, imm: i64) -> bool {
    ||| bits == 64
    ||| bits == 32 && 0 <= imm <= 0xffff_ffff
    ||| bits == 16 && 0 <= imm <= 0xffff
    ||| bits == 8 && 0 <= imm <= 0xff
}

/// The views of a list of parameters.
pub open spec fn param_views(params: Seq<AbiParam>) -> Seq<AbiParamView> {
    Seq::new(params.len(), |i: int| abi_param_view(params[i]))
}

/// `Type::bits`: the bits of a type.
pub uninterp spec fn type_bits(ty: Type) -> int;

/// The width in bits of a pointer of the target that a module compiles for.
pub uninterp spec fn module_pointer_bits(module: JITModule) -> int;

/// The default calling convention of the target that a module compiles
/// for. Cranelift takes it from the triple of the target, and it is one of
/// the three that this library knows.
pub uninterp spec fn module_call_conv(module: JITModule) -> CallConv;

/// The names that a module has declared, for functions or for data.
pub uninterp spec fn module_names(module: JITModule) -> Set<Seq<char>>;

/// The functions that a module has declared with the linkage `Export`.
pub uninterp spec fn module_exported(module: JITModule) -> Set<FuncId>;

/// `FuncId::as_u32`: the number of a function of a module.
pub uninterp spec fn function_number(function: FuncId) -> u32;

/// What an `AbiParam` holds.
pub uninterp spec fn abi_param_view(param: AbiParam) -> AbiParamView;

/// What a Cranelift signature holds.
pub uninterp spec fn signature_view(signature: cranelift::codegen::ir::Signature) -> LoweredSignature;

/// The functions that a module has declared, each with its signature.
pub uninterp spec fn module_functions(module: JITModule) -> Map<FuncId, LoweredSignature>;

/// Whether the function of a `Context` holds no block, value, stack
/// slot, import or instruction.
pub uninterp spec fn context_clear(context: Context) -> bool;

/// What the function of a context holds.
pub uninterp spec fn context_function(context: Context) -> FunctionView;

/// Whether a `FunctionBuilderContext` holds nothing of a function.
pub uninterp spec fn builder_context_idle(context: FunctionBuilderContext) -> bool;

/// What a `FunctionBuilder` holds.
pub uninterp spec fn builder_state(builder: FunctionBuilder) -> BuilderState;

/// What the function that a `FunctionBuilder` builds holds when the
/// builder is gone. No call on a builder changes what this is; the call
/// that finalizes the builder says what it is.
pub uninterp spec fn builder_outcome(builder: FunctionBuilder) -> FunctionView;

/// `Type::int`: the integer type of `bits` bits, where there is one.
#[verifier::external_body]
pub(crate) fn int_type(bits: u16) -> (r: Option<Type>)
    ensures
        r is Some <==> (bits == 8 || bits == 16 || bits == 32 || bits == 64 || bits == 128),
        r matches Some(ty) ==> type_bits(ty) == bits,
{
    Type::int(bits)
}

/// `TargetFrontendConfig::pointer_type` of `Module::target_config`: the
/// integer type of the width of a pointer, which is 16, 32 or 64 bits.
#[verifier::external_body]
pub(crate) fn pointer_type(module: &JITModule) -> (r: Type)
    ensures
        type_bits(r) == module_pointer_bits(*module),
        type_bits(r) == 16 || type_bits(r) == 32 || type_bits(r) == 64,
{
    module.target_config().pointer_type()
}

/// The field `default_call_conv` of `Module::target_config`. Cranelift
/// computes it by `CallConv::triple_default`, which gives one of the three
/// conventions that this library knows.
#[verifier::external_body]
pub(crate) fn host_call_conv(module: &JITModule) -> (r: Option<CallConv>)
    ensures
        r == Some(module_call_conv(*module)),
{
    match module.target_config().default_call_conv {
        isa::CallConv::SystemV => Some(CallConv::SystemV),
        isa::CallConv::WindowsFastcall => Some(CallConv::WindowsFastcall),
        isa::CallConv::AppleAarch64 => Some(CallConv::AppleAarch64),
        _ => None,
    }
}

/// `AbiParam::new`: a parameter of the given type and purpose `Normal`.
#[verifier::external_body]
pub(crate) fn abi_plain(ty: Type) -> (r: AbiParam)
    ensures
        abi_param_view(r) == (AbiParamView { bits: type_bits(ty), struct_size: None }),
{
    AbiParam::new(ty)
}

/// `AbiParam::special` with `ArgumentPurpose::StructArgument`: a parameter
/// of the given type that stands for a struct of `size` bytes.
#[verifier::external_body]
pub(crate) fn abi_struct_argument(ty: Type, size: u32) -> (r: AbiParam)
    ensures
        abi_param_view(r) == (AbiParamView { bits: type_bits(ty), struct_size: Some(size) }),
{
    AbiParam::special(ty, ArgumentPurpose::StructArgument(size))
}

/// A Cranelift `Signature` of the given fields.
#[verifier::external_body]
pub(crate) fn make_signature(params: Vec<AbiParam>, results: Vec<AbiParam>, call_conv: CallConv) -> (r:
    cranelift::codegen::ir::Signature)
    ensures
        signature_view(r) == (LoweredSignature {
            params: param_views(params@),
            results: param_views(results@),
            call_conv,
        }),
{
    let call_conv = match call_conv {
        CallConv::SystemV => isa::CallConv::SystemV,
        CallConv::WindowsFastcall => isa::CallConv::WindowsFastcall,
        CallConv::AppleAarch64 => isa::CallConv::AppleAarch64,
    };
    cranelift::codegen::ir::Signature { params, returns: results, call_conv }
}

/// `Module::get_name`: whether a name is declared.
#[verifier::external_body]
pub(crate) fn is_declared(module: &JITModule, name: &str) -> (r: bool)
    ensures
        r == module_names(*module).contains(name@),
{
    module.get_name(name).is_some()
}

/// `Module::declare_function` with `Linkage::Export`. A name that is not
/// declared is taken, and gets a function that was not declared before.
/// Where it succeeds, the function that it returns is declared under this
/// name with this signature. Where it fails, the module declares what it
/// declared before. The target of the module stays as it is.
#[verifier::external_body]
pub(crate) fn declare_function(
    module: &mut JITModule,
    name: &str,
    signature: &cranelift::codegen::ir::Signature,
) -> (r: Result<FuncId, ModuleError>)
    ensures
        module_pointer_bits(*final(module)) == module_pointer_bits(*old(module)),
        module_call_conv(*final(module)) == module_call_conv(*old(module)),
        !module_names(*old(module)).contains(name@) ==> r is Ok,
        match r {
            Ok(id) => {
                &&& module_functions(*final(module)) == module_functions(*old(module)).insert(
                    id,
                    signature_view(*signature),
                )
                &&& module_names(*final(module)) == module_names(*old(module)).insert(name@)
                &&& module_exported(*final(module)) == module_exported(*old(module)).insert(id)
                &&& !module_names(*old(module)).contains(name@) ==> !module_functions(
                    *old(module),
                ).dom().contains(id)
            },
            Err(_) => {
                &&& module_functions(*final(module)) == module_functions(*old(module))
                &&& module_names(*final(module)) == module_names(*old(module))
            },
        },
{
    module.declare_function(name, Linkage::Export, signature)
}

/// `Module::clear_context`: the function of the context is cleared.
#[verifier::external_body]
pub(crate) fn clear_context(module: &JITModule, context: &mut Context)
    ensures
        context_clear(*final(context)),
        context_function(*final(context)).bare(),
{
    module.clear_context(context)
}

/// Assigns the field `signature` of the function of a context.
#[verifier::external_body]
pub(crate) fn set_signature(context: &mut Context, signature: cranelift::codegen::ir::Signature)
    ensures
        context_clear(*final(context)) == context_clear(*old(context)),
        context_function(*final(context)) == (FunctionView {
            signature: signature_view(signature),
            ..context_function(*old(context))
        }),
{
    context.func.signature = signature;
}

/// Assigns `UserFuncName::testcase` of `name` to the field `name` of the
/// function of a context.
#[verifier::external_body]
pub(crate) fn set_name(context: &mut Context, name: &str)
    ensures
        context_clear(*final(context)) == context_clear(*old(context)),
        context_function(*final(context)) == (FunctionView {
            name: name@,
            ..context_function(*old(context))
        }),
{
    context.func.name = UserFuncName::testcase(name);
}

/// `FunctionBuilderContext::new`.
#[verifier::external_body]
pub(crate) fn new_builder_context() -> (r: FunctionBuilderContext)
    ensures
        builder_context_idle(r),
{
    FunctionBuilderContext::new()
}

/// `FunctionBuilder::new` on the function of a context. Cranelift asserts
/// that the builder context is empty. The builder builds into the
/// function of the context, so when the builder is gone the context holds
/// what the builder leaves. No method of a builder assigns the name or
/// the signature of the function, so the context has them still.
#[verifier::external_body]
pub(crate) fn new_builder<'a>(
    context: &'a mut Context,
    builder_context: &'a mut FunctionBuilderContext,
) -> (r: FunctionBuilder<'a>)
    requires
        context_clear(*old(context)),
        builder_context_idle(*old(builder_context)),
    ensures
        builder_state(r) == BuilderState::fresh(),
        context_function(*final(context)) == (FunctionView {
            name: context_function(*old(context)).name,
            signature: context_function(*old(context)).signature,
            ..builder_outcome(r)
        }),
{
    FunctionBuilder::new(&mut context.func, builder_context)
}

/// `FunctionBuilder::create_block`, for the one block of the function.
#[verifier::external_body]
pub(crate) fn create_block(builder: &mut FunctionBuilder) -> (r: Block)
    requires
        builder_state(*old(builder)).entry is None,
    ensures
        builder_outcome(*final(builder)) == builder_outcome(*old(builder)),
        builder_state(*final(builder)) == (BuilderState {
            entry: Some(r),
            ..builder_state(*old(builder))
        }),
{
    builder.create_block()
}

/// `FunctionBuilder::switch_to_block`. Cranelift asserts that the block is
/// not filled, and that the block that it leaves is filled or empty.
#[verifier::external_body]
pub(crate) fn switch_to_block(builder: &mut FunctionBuilder, block: Block)
    requires
        builder_state(*old(builder)).entry == Some(block),
        !builder_state(*old(builder)).positioned,
        !builder_state(*old(builder)).filled,
    ensures
        builder_outcome(*final(builder)) == builder_outcome(*old(builder)),
        builder_state(*final(builder)) == (BuilderState {
            positioned: true,
            ..builder_state(*old(builder))
        }),
{
    builder.switch_to_block(block)
}

/// `FunctionBuilder::seal_block`. Cranelift asserts that the block is not
/// sealed yet.
#[verifier::external_body]
pub(crate) fn seal_block(builder: &mut FunctionBuilder, block: Block)
    requires
        builder_state(*old(builder)).entry == Some(block),
        !builder_state(*old(builder)).sealed,
    ensures
        builder_outcome(*final(builder)) == builder_outcome(*old(builder)),
        builder_state(*final(builder)) == (BuilderState {
            sealed: true,
            ..builder_state(*old(builder))
        }),
{
    builder.seal_block(block)
}

/// `FunctionBuilder::append_block_param`. Cranelift asserts that the block
/// holds no instruction, and that the number of the new parameter, which
/// counts from zero, fits in 16 bits.
#[verifier::external_body]
pub(crate) fn append_block_param(builder: &mut FunctionBuilder, block: Block, ty: Type) -> (r: Value)
    requires
        builder_state(*old(builder)).entry == Some(block),
        builder_state(*old(builder)).insts.len() == 0,
        builder_state(*old(builder)).params.len() <= 0xffff,
    ensures
        builder_outcome(*final(builder)) == builder_outcome(*old(builder)),
        !builder_state(*old(builder)).values.contains(r),
        builder_state(*final(builder)) == (BuilderState {
            params: builder_state(*old(builder)).params.push((r, type_bits(ty))),
            values: builder_state(*old(builder)).values.insert(r),
            ..builder_state(*old(builder))
        }),
{
    builder.append_block_param(block, ty)
}

/// `FunctionBuilder::create_sized_stack_slot` with a `StackSlotData` of
/// kind `ExplicitSlot`.
#[verifier::external_body]
pub(crate) fn create_stack_slot(builder: &mut FunctionBuilder, size: u32, align_shift: u8) -> (r:
    StackSlot)
    ensures
        builder_outcome(*final(builder)) == builder_outcome(*old(builder)),
        !builder_state(*old(builder)).slots.dom().contains(r),
        builder_state(*final(builder)) == (BuilderState {
            slots: builder_state(*old(builder)).slots.insert(
                r,
                SlotData { explicit: true, size, align_shift },
            ),
            slot_order: builder_state(*old(builder)).slot_order.push(r),
            ..builder_state(*old(builder))
        }),
{
    builder.create_sized_stack_slot(StackSlotData::new(StackSlotKind::ExplicitSlot, size, align_shift))
}

/// `Module::declare_func_in_func` on the function of a builder: the
/// function imports a declared function of the module. Cranelift indexes
/// the declarations with the function, so it must be declared.
#[verifier::external_body]
pub(crate) fn import_function(module: &mut JITModule, builder: &mut FunctionBuilder, function: FuncId) -> (r:
    FuncRef)
    requires
        module_functions(*old(module)).dom().contains(function),
    ensures
        builder_outcome(*final(builder)) == builder_outcome(*old(builder)),
        module_functions(*final(module)) == module_functions(*old(module)),
        module_names(*final(module)) == module_names(*old(module)),
        module_exported(*final(module)) == module_exported(*old(module)),
        module_pointer_bits(*final(module)) == module_pointer_bits(*old(module)),
        module_call_conv(*final(module)) == module_call_conv(*old(module)),
        !builder_state(*old(builder)).imports.dom().contains(r),
        builder_state(*final(builder)) == (BuilderState {
            imports: builder_state(*old(builder)).imports.insert(
                r,
                Import {
                    function,
                    results: module_functions(*old(module))[function].results.len(),
                },
            ),
            import_order: builder_state(*old(builder)).import_order.push(r),
            ..builder_state(*old(builder))
        }),
{
    module.declare_func_in_func(function, builder.func)
}

/// `InstBuilder::iconst` at the position of the builder. Cranelift keeps
/// of the constant the bits below the width of the type.
#[verifier::external_body]
pub(crate) fn ins_iconst(builder: &mut FunctionBuilder, ty: Type, imm: i64) -> (r: Value)
    requires
        builder_state(*old(builder)).accepts(),
        immediate_in_width(type_bits(ty), imm),
    ensures
        builder_outcome(*final(builder)) == builder_outcome(*old(builder)),
        !builder_state(*old(builder)).values.contains(r),
        builder_state(*final(builder)) == builder_state(*old(builder)).append(
            Emitted::Iconst { result: r, bits: type_bits(ty), imm },
            seq![r],
        ),
{
    builder.ins().iconst(ty, imm)
}

/// `InstBuilder::stack_store` at the position of the builder. Cranelift
/// looks up the type of the value, so it must be defined.
#[verifier::external_body]
pub(crate) fn ins_stack_store(builder: &mut FunctionBuilder, value: Value, slot: StackSlot, offset: i32)
    requires
        builder_state(*old(builder)).accepts(),
        builder_state(*old(builder)).values.contains(value),
        builder_state(*old(builder)).slots.dom().contains(slot),
    ensures
        builder_outcome(*final(builder)) == builder_outcome(*old(builder)),
        builder_state(*final(builder)) == builder_state(*old(builder)).append(
            Emitted::StackStore { value, slot, offset },
            seq![],
        ),
{
    builder.ins().stack_store(value, slot, offset);
}

/// `InstBuilder::stack_addr` at the position of the builder.
#[verifier::external_body]
pub(crate) fn ins_stack_addr(builder: &mut FunctionBuilder, ty: Type, slot: StackSlot, offset: i32) -> (r:
    Value)
    requires
        builder_state(*old(builder)).accepts(),
        builder_state(*old(builder)).slots.dom().contains(slot),
    ensures
        builder_outcome(*final(builder)) == builder_outcome(*old(builder)),
        !builder_state(*old(builder)).values.contains(r),
        builder_state(*final(builder)) == builder_state(*old(builder)).append(
            Emitted::StackAddr { result: r, bits: type_bits(ty), slot, offset },
            seq![r],
        ),
{
    builder.ins().stack_addr(ty, slot, offset)
}

/// `InstBuilder::load` with `MemFlags::trusted()` at the position of the
/// builder.
#[verifier::external_body]
pub(crate) fn ins_load(builder: &mut FunctionBuilder, ty: Type, address: Value, offset: i32) -> (r: Value)
    requires
        builder_state(*old(builder)).accepts(),
        builder_state(*old(builder)).values.contains(address),
    ensures
        builder_outcome(*final(builder)) == builder_outcome(*old(builder)),
        !builder_state(*old(builder)).values.contains(r),
        builder_state(*final(builder)) == builder_state(*old(builder)).append(
            Emitted::Load {
                result: r,
                bits: type_bits(ty),
                address,
                offset,
                notrap: true,
                aligned: true,
            },
            seq![r],
        ),
{
    builder.ins().load(ty, MemFlags::trusted(), address, offset)
}

/// `InstBuilder::call` at the position of the builder, and
/// `FunctionBuilder::inst_results` of the call: one new value for each
/// result of the imported function. Cranelift indexes the imports with the
/// function, so it must be imported, and it stops where the number of a
/// result, which counts from zero, does not fit in 16 bits.
#[verifier::external_body]
pub(crate) fn ins_call(builder: &mut FunctionBuilder, function: FuncRef, arguments: &Vec<Value>) -> (r: Vec<
    Value,
>)
    requires
        builder_state(*old(builder)).accepts(),
        builder_state(*old(builder)).imports.dom().contains(function),
        builder_state(*old(builder)).imports[function].results <= 0x1_0000,
        builder_state(*old(builder)).defines(arguments@),
    ensures
        builder_outcome(*final(builder)) == builder_outcome(*old(builder)),
        r@.len() == builder_state(*old(builder)).imports[function].results,
        new_values(builder_state(*old(builder)), r@),
        builder_state(*final(builder)) == builder_state(*old(builder)).append(
            Emitted::Call { function, arguments: arguments@, results: r@ },
            r@,
        ),
{
    let call = builder.ins().call(function, arguments);
    builder.inst_results(call).to_vec()
}

/// `InstBuilder::return_` at the position of the builder: the block is
/// filled.
#[verifier::external_body]
pub(crate) fn ins_return(builder: &mut FunctionBuilder, values: &Vec<Value>)
    requires
        builder_state(*old(builder)).accepts(),
        builder_state(*old(builder)).defines(values@),
    ensures
        builder_outcome(*final(builder)) == builder_outcome(*old(builder)),
        builder_state(*final(builder)) == (BuilderState {
            filled: true,
            ..builder_state(*old(builder)).append(Emitted::Return { values: values@ }, seq![])
        }),
{
    builder.ins().return_(values);
}

/// `FunctionBuilder::seal_all_blocks`: the block is sealed, where there
/// is one.
#[verifier::external_body]
pub(crate) fn seal_all_blocks(builder: &mut FunctionBuilder)
    ensures
        builder_outcome(*final(builder)) == builder_outcome(*old(builder)),
        builder_state(*final(builder)) == (BuilderState {
            sealed: builder_state(*old(builder)).sealed || builder_state(*old(builder)).entry
                is Some,
            ..builder_state(*old(builder))
        }),
{
    builder.seal_all_blocks()
}

/// `FunctionBuilder::finalize`, and `FunctionBuilder::current_block`
/// before it. Cranelift asserts that a block that holds an instruction is
/// sealed and filled. The function is left as the builder has built it:
/// finalizing adds nothing where no value needs a stack map, and no
/// wrapper of this file asks for one.
#[verifier::external_body]
pub(crate) fn finalize(builder: FunctionBuilder) -> (r: Option<Block>)
    requires
        builder_state(builder).insts.len() > 0 ==> builder_state(builder).sealed && builder_state(
            builder,
        ).filled,
    ensures
        finished(builder_outcome(builder), builder_state(builder), r),
{
    let position = builder.current_block();
    builder.finalize();
    position
}

/// `Type::bits`.
#[verifier::external_body]
pub(crate) fn bits_of_type(ty: Type) -> (r: u32)
    ensures
        r == type_bits(ty),
{
    ty.bits()
}

/// `==` on two values.
#[verifier::external_body]
pub(crate) fn same_value(a: Value, b: Value) -> (r: bool)
    ensures
        r == (a == b),
{
    a == b
}

/// `==` on two stack slots.
#[verifier::external_body]
pub(crate) fn same_slot(a: StackSlot, b: StackSlot) -> (r: bool)
    ensures
        r == (a == b),
{
    a == b
}

/// `==` on two imports.
#[verifier::external_body]
pub(crate) fn same_import(a: FuncRef, b: FuncRef) -> (r: bool)
    ensures
        r == (a == b),
{
    a == b
}

/// `FuncId::as_u32`.
#[verifier::external_body]
pub(crate) fn number_of_function(function: FuncId) -> (r: u32)
    ensures
        r == function_number(function),
{
    function.as_u32()
}

/// `Layout::blocks` of the function of a context.
#[verifier::external_body]
pub(crate) fn built_blocks(context: &Context) -> (r: Vec<Block>)
    ensures
        r@ == context_function(*context).blocks,
{
    context.func.layout.blocks().collect()
}

/// `DataFlowGraph::block_params` of the first block of the function of a
/// context, each with `Type::bits` of its type.
#[verifier::external_body]
pub(crate) fn built_params(context: &Context) -> (r: Vec<(Value, u32)>)
    ensures
        r@.len() == context_function(*context).params.len(),
        forall|i: int|
            0 <= i < r@.len() ==> (#[trigger] r@[i]).0 == context_function(*context).params[i].0
                && r@[i].1 == context_function(*context).params[i].1,
{
    let dfg = &context.func.dfg;
    match context.func.layout.entry_block() {
        Some(block) => dfg.block_params(block).iter().map(
            |v| (*v, dfg.value_type(*v).bits()),
        ).collect(),
        None => Vec::new(),
    }
}

/// The field `sized_stack_slots` of the function of a context: each slot
/// with whether its kind is `ExplicitSlot`, its size and the exponent of
/// its alignment.
#[verifier::external_body]
pub(crate) fn built_slots(context: &Context) -> (r: Vec<(StackSlot, bool, u32, u8)>)
    ensures
        r@.len() == context_function(*context).slots.len(),
        forall|i: int|
            0 <= i < r@.len() ==> context_function(*context).slots[i] == ((#[trigger] r@[i]).0, SlotData {
                explicit: r@[i].1,
                size: r@[i].2,
                align_shift: r@[i].3,
            }),
{
    context.func.sized_stack_slots.iter().map(
        |(s, d)| match d.kind {
            StackSlotKind::ExplicitSlot => (s, true, d.size, d.align_shift),
            StackSlotKind::ExplicitDynamicSlot => (s, false, d.size, d.align_shift),
        },
    ).collect()
}

/// The field `ext_funcs` of the function of a context: each import with,
/// where its name is a user name that the function holds, the namespace
/// and the index of that name.
#[verifier::external_body]
pub(crate) fn built_imports(context: &Context) -> (r: Vec<(FuncRef, Option<(u32, u32)>)>)
    ensures
        r@ == context_function(*context).imports,
{
    let names = context.func.params.user_named_funcs();
    context.func.dfg.ext_funcs.iter().map(
        |(r, d)| (r, match d.name {
            ExternalName::User(n) => names.get(n).map(|u| (u.namespace, u.index)),
            _ => None,
        }),
    ).collect()
}

/// How many instructions the first block of the function of a context
/// holds, by `Layout::block_insts`.
#[verifier::external_body]
pub(crate) fn built_inst_count(context: &Context) -> (r: usize)
    ensures
        r == context_function(*context).insts.len(),
{
    let layout = &context.func.layout;
    layout.entry_block().map_or(0, |b| layout.block_insts(b).count())
}

/// Instruction `k` of the first block of the function of a context, where
/// it is an `iconst` with a result: its result, the bits of its type and
/// its constant.
#[verifier::external_body]
pub(crate) fn built_iconst(context: &Context, k: usize) -> (r: Option<(Value, u32, i64)>)
    ensures
        match r {
            Some((result, bits, imm)) => k < context_function(*context).insts.len()
                && context_function(*context).insts[k as int] == (Emitted::Iconst {
                result,
                bits: bits as int,
                imm,
            }),
            None => !(k < context_function(*context).insts.len() && context_function(
                *context,
            ).insts[k as int] is Iconst),
        },
{
    let func = &context.func;
    let inst = func.layout.entry_block().and_then(|b| func.layout.block_insts(b).nth(k))?;
    match func.dfg.insts[inst] {
        InstructionData::UnaryImm { opcode: Opcode::Iconst, imm } => {
            let r = *func.dfg.inst_results(inst).first()?;
            Some((r, func.dfg.value_type(r).bits(), imm.bits()))
        },
        _ => None,
    }
}

/// Instruction `k` of the first block of the function of a context, where
/// it is a `stack_store`: the value, the slot and the offset.
#[verifier::external_body]
pub(crate) fn built_stack_store(context: &Context, k: usize) -> (r: Option<(Value, StackSlot, i32)>)
    ensures
        match r {
            Some((value, slot, offset)) => k < context_function(*context).insts.len()
                && context_function(*context).insts[k as int] == (Emitted::StackStore {
                value,
                slot,
                offset,
            }),
            None => !(k < context_function(*context).insts.len() && context_function(
                *context,
            ).insts[k as int] is StackStore),
        },
{
    let func = &context.func;
    let inst = func.layout.entry_block().and_then(|b| func.layout.block_insts(b).nth(k))?;
    match func.dfg.insts[inst] {
        InstructionData::StackStore { opcode: Opcode::StackStore, arg, stack_slot, offset } => {
            Some((arg, stack_slot, offset.into()))
        },
        _ => None,
    }
}

/// Instruction `k` of the first block of the function of a context, where
/// it is a `stack_addr`: its result, the bits of its type, the slot and
/// the offset.
#[verifier::external_body]
pub(crate) fn built_stack_addr(context: &Context, k: usize) -> (r: Option<
    (Value, u32, StackSlot, i32),
>)
    ensures
        match r {
            Some((result, bits, slot, offset)) => k < context_function(*context).insts.len()
                && context_function(*context).insts[k as int] == (Emitted::StackAddr {
                result,
                bits: bits as int,
                slot,
                offset,
            }),
            None => !(k < context_function(*context).insts.len() && context_function(
                *context,
            ).insts[k as int] is StackAddr),
        },
{
    let func = &context.func;
    let inst = func.layout.entry_block().and_then(|b| func.layout.block_insts(b).nth(k))?;
    match func.dfg.insts[inst] {
        InstructionData::StackLoad { opcode: Opcode::StackAddr, stack_slot, offset } => {
            let r = *func.dfg.inst_results(inst).first()?;
            Some((r, func.dfg.value_type(r).bits(), stack_slot, offset.into()))
        },
        _ => None,
    }
}

/// Instruction `k` of the first block of the function of a context, where
/// it is a `load`: its result, the bits of its type, the address, the
/// offset, and the flags `notrap` and `aligned`.
#[verifier::external_body]
pub(crate) fn built_load(context: &Context, k: usize) -> (r: Option<
    (Value, u32, Value, i32, bool, bool),
>)
    ensures
        match r {
            Some((result, bits, address, offset, notrap, aligned)) => k < context_function(
                *context,
            ).insts.len() && context_function(*context).insts[k as int] == (Emitted::Load {
                result,
                bits: bits as int,
                address,
                offset,
                notrap,
                aligned,
            }),
            None => !(k < context_function(*context).insts.len() && context_function(
                *context,
            ).insts[k as int] is Load),
        },
{
    let func = &context.func;
    let inst = func.layout.entry_block().and_then(|b| func.layout.block_insts(b).nth(k))?;
    match func.dfg.insts[inst] {
        InstructionData::Load { opcode: Opcode::Load, arg, flags, offset } => {
            let r = *func.dfg.inst_results(inst).first()?;
            let bits = func.dfg.value_type(r).bits();
            Some((r, bits, arg, offset.into(), flags.notrap(), flags.aligned()))
        },
        _ => None,
    }
}

/// Instruction `k` of the first block of the function of a context, where
/// it is a `call`: the import, the arguments and the results.
#[verifier::external_body]
pub(crate) fn built_call(context: &Context, k: usize) -> (r: Option<
    (FuncRef, Vec<Value>, Vec<Value>),
>)
    ensures
        match r {
            Some((function, arguments, results)) => k < context_function(*context).insts.len()
                && context_function(*context).insts[k as int] == (Emitted::Call {
                function,
                arguments: arguments@,
                results: results@,
            }),
            None => !(k < context_function(*context).insts.len() && context_function(
                *context,
            ).insts[k as int] is Call),
        },
{
    let func = &context.func;
    let inst = func.layout.entry_block().and_then(|b| func.layout.block_insts(b).nth(k))?;
    match func.dfg.insts[inst] {
        InstructionData::Call { opcode: Opcode::Call, args, func_ref } => {
            let arguments = args.as_slice(&func.dfg.value_lists).to_vec();
            Some((func_ref, arguments, func.dfg.inst_results(inst).to_vec()))
        },
        _ => None,
    }
}

/// Instruction `k` of the first block of the function of a context, where
/// it is a `return`: the values.
#[verifier::external_body]
pub(crate) fn built_return(context: &Context, k: usize) -> (r: Option<Vec<Value>>)
    ensures
        match r {
            Some(values) => k < context_function(*context).insts.len() && context_function(
                *context,
            ).insts[k as int] == (Emitted::Return { values: values@ }),
            None => !(k < context_function(*context).insts.len() && context_function(
                *context,
            ).insts[k as int] is Return),
        },
{
    let func = &context.func;
    let inst = func.layout.entry_block().and_then(|b| func.layout.block_insts(b).nth(k))?;
    match func.dfg.insts[inst] {
        InstructionData::MultiAry { opcode: Opcode::Return, args } => {
            Some(args.as_slice(&func.dfg.value_lists).to_vec())
        },
        _ => None,
    }
}

} // verus!
