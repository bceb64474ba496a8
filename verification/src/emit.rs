//! Handing a lowered function to Cranelift.

use vstd::prelude::*;
use vstd::pervasive::unreached;
use cranelift::codegen::ir::{AbiParam, Block, FuncRef, StackSlot, Type, Value};
use cranelift::codegen::Context;
use cranelift::frontend::{FunctionBuilder, FunctionBuilderContext};
use cranelift_jit::JITModule;
use cranelift_module::FuncId;
use crate::backend::{
    abi_param_view, abi_plain, abi_struct_argument, append_block_param, builder_context_idle,
    builder_outcome, builder_state, built, clear_context, context_function, create_block,
    create_stack_slot, declare_function, finalize, import_function, ins_call, ins_iconst, ins_load,
    ins_return, ins_stack_addr, ins_stack_store, int_type, is_declared, make_signature,
    module_call_conv, module_exported, module_functions, module_names, module_pointer_bits,
    new_builder, new_builder_context, new_values, param_views, pointer_type, seal_all_blocks,
    seal_block, set_name, set_signature, signature_view, switch_to_block, type_bits, AbiParamView,
    BuilderState, Emitted, FunctionView, Import, LoweredSignature,
};
use crate::eval::{argument_values, fits, fits_type};
use crate::readback::{holds, lemma_built_as};
use crate::ir::{
    fresh_values, BuildError, CallArgument, DraftView, FrameSlot, FunctionDraft, Inst, InstView,
    ValueId,
};
use crate::layout::{align_shift, is_power_of_two, ScalarType};
use vstd::arithmetic::power2::{is_pow2, pow2};
use crate::program::{
    argument_value, arguments_defined, defined_before, defines, is_well_scoped, scoped,
    values_defined, well_scoped,
};
use crate::signature::{CallSignature, CallSignatureModel, ParameterClass};

verus! {

/// The Cranelift parameter of a class: a scalar of its type, and for an
/// aggregate a pointer that stands for a struct of the padded size.
pub open spec fn lowered_param(class: ParameterClass, pointer_bits: int) -> AbiParamView {
    match class {
        ParameterClass::Plain(ty) => AbiParamView {
            bits: ty.bits_spec(),
            struct_size: None,
        },
        ParameterClass::StructByPointer(padded_size) => AbiParamView {
            bits: pointer_bits,
            struct_size: Some(padded_size),
        },
    }
}

/// The Cranelift parameter that stands for a result of type `ty`.
pub open spec fn lowered_result(ty: ScalarType) -> AbiParamView {
    AbiParamView { bits: ty.bits_spec(), struct_size: None }
}

/// The Cranelift signature of a signature, on a target with pointers of
/// `pointer_bits` bits.
pub open spec fn lowered(signature: CallSignatureModel, pointer_bits: int) -> LoweredSignature {
    LoweredSignature {
        params: Seq::new(
            signature.params.len(),
            |i: int| lowered_param(signature.params[i], pointer_bits),
        ),
        results: Seq::new(signature.results.len(), |i: int| lowered_result(signature.results[i])),
        call_conv: signature.call_conv,
    }
}

/// The Cranelift type of a scalar.
pub fn lower_type(ty: ScalarType) -> (r: Type)
    ensures
        type_bits(r) == ty.bits_spec(),
{
    match int_type(ty.bits()) {
        Some(t) => t,
        None => unreached(),
    }
}

/// The Cranelift type of a parameter of class `class`.
pub fn lower_class(class: ParameterClass, pointer: Type) -> (r: Type)
    ensures
        type_bits(r) == lowered_param(class, type_bits(pointer)).bits,
{
    match class {
        ParameterClass::Plain(ty) => lower_type(ty),
        ParameterClass::StructByPointer(_) => pointer,
    }
}

/// The Cranelift signature of a signature.
pub fn lower_signature(signature: &CallSignature, pointer: Type) -> (r:
    cranelift::codegen::ir::Signature)
    ensures
        signature_view(r) == lowered(signature@, type_bits(pointer)),
{
    let mut params: Vec<AbiParam> = Vec::new();
    let mut i: usize = 0;
    while i < signature.param_count()
        invariant
            i <= signature@.params.len(),
            params@.len() == i,
            forall|k: int|
                0 <= k < i ==> abi_param_view(#[trigger] params@[k]) == lowered_param(
                    signature@.params[k],
                    type_bits(pointer),
                ),
        decreases signature@.params.len() - i,
    {
        let param = match signature.param(i) {
            ParameterClass::Plain(ty) => abi_plain(lower_type(ty)),
            ParameterClass::StructByPointer(padded_size) => abi_struct_argument(
                pointer,
                padded_size,
            ),
        };
        params.push(param);
        i += 1;
    }
    let mut results: Vec<AbiParam> = Vec::new();
    let mut j: usize = 0;
    while j < signature.result_count()
        invariant
            j <= signature@.results.len(),
            results@.len() == j,
            forall|k: int|
                0 <= k < j ==> abi_param_view(#[trigger] results@[k]) == lowered_result(
                    signature@.results[k],
                ),
        decreases signature@.results.len() - j,
    {
        results.push(abi_plain(lower_type(signature.result_type(j))));
        j += 1;
    }
    proof {
        assert(param_views(params@) =~= lowered(signature@, type_bits(pointer)).params);
        assert(param_views(results@) =~= lowered(signature@, type_bits(pointer)).results);
    }
    make_signature(params, results, signature.call_conv())
}

/// Declares a function of the given name and signature in a module, for
/// export. A name is declared once: a name that the module has declared
/// already, for a function or for data, is refused. A signature has no
/// more results than a call can number.
pub fn declare(module: &mut JITModule, name: &str, signature: &CallSignature) -> (r: Result<
    FuncId,
    BuildError,
>)
    ensures
        module_pointer_bits(*final(module)) == module_pointer_bits(*old(module)),
        module_call_conv(*final(module)) == module_call_conv(*old(module)),
        r == Err::<FuncId, BuildError>(BuildError::Declaration) <==> module_names(
            *old(module),
        ).contains(name@),
        r == Err::<FuncId, BuildError>(BuildError::Exhausted) <==> (!module_names(
            *old(module),
        ).contains(name@) && signature@.results.len() > 0x1_0000),
        match r {
            Ok(id) => {
                &&& !module_functions(*old(module)).dom().contains(id)
                &&& module_functions(*final(module)) == module_functions(*old(module)).insert(
                    id,
                    lowered(signature@, module_pointer_bits(*old(module))),
                )
                &&& module_names(*final(module)) == module_names(*old(module)).insert(name@)
                &&& module_exported(*final(module)) == module_exported(*old(module)).insert(id)
            },
            Err(e) => {
                &&& (e == BuildError::Declaration || e == BuildError::Exhausted)
                &&& module_functions(*final(module)) == module_functions(*old(module))
                &&& module_names(*final(module)) == module_names(*old(module))
                &&& module_exported(*final(module)) == module_exported(*old(module))
            },
        },
{
    if is_declared(module, name) {
        return Err(BuildError::Declaration);
    }
    if signature.result_count() > 0x1_0000 {
        return Err(BuildError::Exhausted);
    }
    let pointer = pointer_type(module);
    let lowered_signature = lower_signature(signature, pointer);
    match declare_function(module, name, &lowered_signature) {
        Ok(id) => Ok(id),
        Err(_) => unreached(),
    }
}

/// Starts a function in a cleared context: its signature and name are
/// set, its one block is created and sealed, and instructions go to it.
pub fn open_function<'a>(
    module: &JITModule,
    context: &'a mut Context,
    builder_context: &'a mut FunctionBuilderContext,
    name: &str,
    signature: &CallSignature,
) -> (r: (FunctionBuilder<'a>, Block))
    requires
        builder_context_idle(*old(builder_context)),
    ensures
        builder_state(r.0) == (BuilderState {
            entry: Some(r.1),
            positioned: true,
            sealed: true,
            ..BuilderState::fresh()
        }),
        context_function(*final(context)) == (FunctionView {
            name: name@,
            signature: lowered(signature@, module_pointer_bits(*module)),
            ..builder_outcome(r.0)
        }),
{
    clear_context(module, context);
    set_signature(context, lower_signature(signature, pointer_type(module)));
    set_name(context, name);
    let mut builder = new_builder(context, builder_context);
    let entry = create_block(&mut builder);
    switch_to_block(&mut builder, entry);
    seal_block(&mut builder, entry);
    (builder, entry)
}

/// The constant that Cranelift is given for `bits`: the same 64 bits,
/// read as a signed number.
pub open spec fn immediate(bits: u64) -> i64 {
    if bits <= 0x7fff_ffff_ffff_ffff {
        bits as i64
    } else {
        (bits - 0x1_0000_0000_0000_0000) as i64
    }
}

/// The handles of `values` under `env`, which holds for each value the
/// handle that Cranelift gave it.
pub open spec fn handles(env: Seq<Value>, values: Seq<ValueId>) -> Seq<Value> {
    Seq::new(values.len(), |i: int| env[values[i].0 as int])
}

/// Whether Cranelift can hold the instruction: its offset is below 2^31,
/// and its constant fits its type.
pub open spec fn encodable(inst: InstView) -> bool {
    match inst {
        InstView::Iconst { ty, bits, .. } => fits(ty, bits),
        InstView::StackStore { offset, .. } => offset <= i32::MAX,
        InstView::StackAddr { offset, .. } => offset <= i32::MAX,
        InstView::Load { offset, .. } => offset <= i32::MAX,
        InstView::Call { .. } => true,
        InstView::Return { .. } => true,
    }
}

/// Whether a call gets as many results as the function that it calls
/// gives.
pub open spec fn call_matches(inst: InstView, imports: Seq<FuncRef>, state: BuilderState) -> bool {
    match inst {
        InstView::Call { callee, results, .. } => state.imports[imports[callee.0 as int]].results
            == results.len(),
        _ => true,
    }
}

/// The instruction that Cranelift holds for an instruction, under the
/// handles `env` of the values, `slots` of the stack slots and `imports`
/// of the functions.
pub open spec fn emitted_for(
    inst: InstView,
    env: Seq<Value>,
    slots: Seq<StackSlot>,
    imports: Seq<FuncRef>,
    pointer_bits: int,
) -> Emitted {
    match inst {
        InstView::Iconst { result, ty, bits } => Emitted::Iconst {
            result: env[result.0 as int],
            bits: ty.bits_spec(),
            imm: immediate(bits),
        },
        InstView::StackStore { value, slot, offset } => Emitted::StackStore {
            value: env[value.0 as int],
            slot: slots[slot.0 as int],
            offset: offset as i32,
        },
        InstView::StackAddr { result, slot, offset } => Emitted::StackAddr {
            result: env[result.0 as int],
            bits: pointer_bits,
            slot: slots[slot.0 as int],
            offset: offset as i32,
        },
        InstView::Load { result, ty, address, offset } => Emitted::Load {
            result: env[result.0 as int],
            bits: ty.bits_spec(),
            address: env[address.0 as int],
            offset: offset as i32,
            notrap: true,
            aligned: true,
        },
        InstView::Call { callee, arguments, results } => Emitted::Call {
            function: imports[callee.0 as int],
            arguments: handles(env, argument_values(arguments)),
            results: handles(env, results),
        },
        InstView::Return { values } => Emitted::Return { values: handles(env, values) },
    }
}

/// Whether the handles of a list are known to a builder.
pub open spec fn slots_known(state: BuilderState, slots: Seq<StackSlot>) -> bool {
    forall|i: int| 0 <= i < slots.len() ==> state.slots.dom().contains(#[trigger] slots[i])
}

/// Whether the imports of a list are known to a builder.
pub open spec fn imports_known(state: BuilderState, imports: Seq<FuncRef>) -> bool {
    forall|i: int|
        0 <= i < imports.len() ==> state.imports.dom().contains(#[trigger] imports[i])
            && state.imports[imports[i]].results <= 0x1_0000
}

/// The constant that Cranelift is given for `bits`.
pub(crate) fn immediate_of(bits: u64) -> (r: i64)
    ensures
        r == immediate(bits),
{
    let r = bits as i64;
    assert(r == (if bits <= 0x7fff_ffff_ffff_ffff {
        bits as i64
    } else {
        (bits - 0x1_0000_0000_0000_0000) as i64
    })) by (bit_vector)
        requires
            r == bits as i64,
    ;
    r
}

/// The handles of `values`.
fn handles_of(env: &Vec<Value>, values: &Vec<ValueId>) -> (r: Vec<Value>)
    requires
        values_defined(values@, env@.len()),
    ensures
        r@ == handles(env@, values@),
{
    let mut out: Vec<Value> = Vec::new();
    let mut i: usize = 0;
    while i < values.len()
        invariant
            i <= values@.len(),
            out@.len() == i,
            values_defined(values@, env@.len()),
            forall|j: int| 0 <= j < i ==> #[trigger] out@[j] == env@[values@[j].0 as int],
        decreases values.len() - i,
    {
        assert(values@[i as int].0 < env@.len());
        out.push(env[values[i].0 as usize]);
        i += 1;
    }
    proof {
        assert(out@ =~= handles(env@, values@));
    }
    out
}

/// The handles of the values that the arguments of a call name.
fn argument_handles(env: &Vec<Value>, arguments: &Vec<CallArgument>) -> (r: Vec<Value>)
    requires
        arguments_defined(arguments@, env@.len()),
    ensures
        r@ == handles(env@, argument_values(arguments@)),
{
    let mut out: Vec<Value> = Vec::new();
    let mut i: usize = 0;
    while i < arguments.len()
        invariant
            i <= arguments@.len(),
            out@.len() == i,
            arguments_defined(arguments@, env@.len()),
            forall|j: int|
                0 <= j < i ==> #[trigger] out@[j] == env@[argument_value(arguments@[j]).0 as int],
        decreases arguments.len() - i,
    {
        let v = match arguments[i] {
            CallArgument::Plain(v) => v,
            CallArgument::StructPointer { address, .. } => address,
        };
        assert(argument_value(arguments@[i as int]).0 < env@.len());
        out.push(env[v.0 as usize]);
        i += 1;
    }
    proof {
        assert(out@ =~= handles(env@, argument_values(arguments@)));
    }
    out
}

/// Whether Cranelift can hold the instruction.
pub fn is_encodable(inst: &Inst) -> (r: bool)
    ensures
        r == encodable(inst@),
{
    match inst {
        Inst::Iconst { ty, bits, .. } => fits_type(*ty, *bits),
        Inst::StackStore { offset, .. } => *offset <= i32::MAX as u32,
        Inst::StackAddr { offset, .. } => *offset <= i32::MAX as u32,
        Inst::Load { offset, .. } => *offset <= i32::MAX as u32,
        Inst::Call { .. } => true,
        Inst::Return { .. } => true,
    }
}

/// Hands one instruction to Cranelift. The handles of the values that it
/// defines are added to `env`.
pub fn emit_inst(
    builder: &mut FunctionBuilder,
    inst: &Inst,
    env: &mut Vec<Value>,
    slots: &Vec<StackSlot>,
    imports: &Vec<FuncRef>,
    pointer: Type,
) -> (r: Result<(), BuildError>)
    requires
        scoped(inst@, old(env)@.len(), slots@.len(), imports@.len()),
        encodable(inst@),
        builder_state(*old(builder)).accepts(),
        builder_state(*old(builder)).defines(old(env)@),
        slots_known(builder_state(*old(builder)), slots@),
        imports_known(builder_state(*old(builder)), imports@),
    ensures
        builder_outcome(*final(builder)) == builder_outcome(*old(builder)),
        match r {
            Ok(_) => {
                &&& call_matches(inst@, imports@, builder_state(*old(builder)))
                &&& final(env)@.len() == old(env)@.len() + defines(inst@)
                &&& final(env)@.take(old(env)@.len() as int) == old(env)@
                &&& new_values(
                    builder_state(*old(builder)),
                    final(env)@.skip(old(env)@.len() as int),
                )
                &&& builder_state(*final(builder)) == (BuilderState {
                    filled: inst@ is Return,
                    ..builder_state(*old(builder)).append(
                        emitted_for(
                            inst@,
                            final(env)@,
                            slots@,
                            imports@,
                            type_bits(pointer),
                        ),
                        final(env)@.skip(old(env)@.len() as int),
                    )
                })
            },
            Err(e) => e == BuildError::Arity && !call_matches(
                inst@,
                imports@,
                builder_state(*old(builder)),
            ),
        },
{
    let ghost state = builder_state(*builder);
    let ghost before = env@;
    match inst {
        Inst::Iconst { result, ty, bits } => {
            let imm = immediate_of(*bits);
            let lowered_type = lower_type(*ty);
            let handle = ins_iconst(builder, lowered_type, imm);
            env.push(handle);
            proof {
                assert(env@.take(before.len() as int) =~= before);
                assert(env@.skip(before.len() as int) =~= seq![handle]);
            }
            Ok(())
        },
        Inst::StackStore { value, slot, offset } => {
            assert(state.slots.dom().contains(slots@[slot.0 as int]));
            assert(state.values.contains(env@[value.0 as int]));
            ins_stack_store(builder, env[value.0 as usize], slots[slot.0 as usize], *offset as i32);
            proof {
                assert(env@.take(before.len() as int) =~= before);
                assert(env@.skip(before.len() as int) =~= seq![]);
                assert(state.values.union(Seq::<Value>::empty().to_set()) =~= state.values);
            }
            Ok(())
        },
        Inst::StackAddr { result, slot, offset } => {
            assert(state.slots.dom().contains(slots@[slot.0 as int]));
            let handle = ins_stack_addr(builder, pointer, slots[slot.0 as usize], *offset as i32);
            env.push(handle);
            proof {
                assert(env@.take(before.len() as int) =~= before);
                assert(env@.skip(before.len() as int) =~= seq![handle]);
            }
            Ok(())
        },
        Inst::Load { result, ty, address, offset } => {
            assert(state.values.contains(env@[address.0 as int]));
            let lowered_type = lower_type(*ty);
            let handle = ins_load(builder, lowered_type, env[address.0 as usize], *offset as i32);
            env.push(handle);
            proof {
                assert(env@.take(before.len() as int) =~= before);
                assert(env@.skip(before.len() as int) =~= seq![handle]);
            }
            Ok(())
        },
        Inst::Call { callee, arguments, results } => {
            assert(inst@ == InstView::Call {
                callee: *callee,
                arguments: arguments@,
                results: results@,
            });
            let passed = argument_handles(env, arguments);
            proof {
                assert forall|i: int| 0 <= i < passed@.len() implies state.values.contains(
                    #[trigger] passed@[i],
                ) by {
                    assert(argument_value(arguments@[i]).0 < before.len());
                    assert(state.values.contains(before[argument_value(arguments@[i]).0 as int]));
                }
                assert(state.imports.dom().contains(imports@[callee.0 as int]));
            }
            let given = ins_call(builder, imports[callee.0 as usize], &passed);
            if given.len() != results.len() {
                return Err(BuildError::Arity);
            }
            let mut i: usize = 0;
            while i < given.len()
                invariant
                    i <= given@.len(),
                    env@ == before + given@.take(i as int),
                decreases given.len() - i,
            {
                env.push(given[i]);
                i += 1;
                proof {
                    assert(env@ =~= before + given@.take(i as int));
                }
            }
            proof {
                assert(given@.take(given@.len() as int) =~= given@);
                assert(env@.take(before.len() as int) =~= before);
                assert(env@.skip(before.len() as int) =~= given@);
                assert(handles(env@, argument_values(arguments@)) =~= passed@);
                assert(handles(env@, results@) =~= given@) by {
                    assert forall|j: int| 0 <= j < results@.len() implies env@[results@[j].0 as int]
                        == given@[j] by {
                        assert(results@[j] == fresh_values(
                            before.len() as int,
                            results@.len() as int,
                        )[j]);
                    }
                }
            }
            Ok(())
        },
        Inst::Return { values } => {
            assert(inst@ == InstView::Return { values: values@ });
            let returned = handles_of(env, values);
            proof {
                assert forall|i: int| 0 <= i < returned@.len() implies state.values.contains(
                    #[trigger] returned@[i],
                ) by {
                    assert(values@[i].0 < before.len());
                    assert(state.values.contains(before[values@[i].0 as int]));
                }
            }
            ins_return(builder, &returned);
            proof {
                assert(env@.take(before.len() as int) =~= before);
                assert(env@.skip(before.len() as int) =~= seq![]);
                assert(state.values.union(Seq::<Value>::empty().to_set()) =~= state.values);
            }
            Ok(())
        },
    }
}

/// Whether the alignment of every slot is a power of two.
pub open spec fn slots_aligned(slots: Seq<FrameSlot>) -> bool {
    forall|i: int| 0 <= i < slots.len() ==> is_pow2((#[trigger] slots[i]).align as int)
}

/// Whether a builder holds `slots[i]` for slot `i` of a function, as an
/// explicit slot with its size and the exponent of its alignment.
pub open spec fn slots_created(state: BuilderState, slots: Seq<StackSlot>, wanted: Seq<FrameSlot>) -> bool {
    &&& slots.len() == wanted.len()
    &&& forall|i: int|
        0 <= i < slots.len() ==> {
            &&& state.slots.dom().contains(#[trigger] slots[i])
            &&& state.slots[slots[i]].explicit
            &&& state.slots[slots[i]].size == wanted[i].size
            &&& pow2(state.slots[slots[i]].align_shift as nat) == wanted[i].align
        }
}

/// Whether `keys` are the keys that a map holds in addition to those that
/// it held in `before`, each of them once, and what it held it holds still.
pub open spec fn added<K, V>(before: Map<K, V>, after: Map<K, V>, keys: Seq<K>) -> bool {
    &&& forall|i: int| 0 <= i < keys.len() ==> !before.dom().contains(#[trigger] keys[i])
    &&& forall|i: int, j: int| 0 <= i < j < keys.len() ==> #[trigger] keys[i] != #[trigger] keys[j]
    &&& forall|k: K| #[trigger]
        after.dom().contains(k) <==> before.dom().contains(k) || keys.contains(k)
    &&& forall|k: K| before.dom().contains(k) ==> #[trigger] after[k] == before[k]
}

/// One more key that a map did not hold is one more key added, and the
/// keys added before it are other keys.
pub proof fn lemma_added_one<K, V>(first: Map<K, V>, before: Map<K, V>, keys: Seq<K>, key: K, value: V)
    requires
        added(first, before, keys),
        !before.dom().contains(key),
    ensures
        added(first, before.insert(key, value), keys.push(key)),
        forall|i: int| 0 <= i < keys.len() ==> #[trigger] keys[i] != key,
{
    let after = before.insert(key, value);
    let more = keys.push(key);
    assert forall|i: int| 0 <= i < keys.len() implies #[trigger] keys[i] != key by {
        assert(keys.contains(keys[i]));
    }
    assert forall|i: int| 0 <= i < more.len() implies !first.dom().contains(#[trigger] more[i]) by {
        if i < keys.len() {
            assert(more[i] == keys[i]);
        }
    }
    assert forall|i: int, j: int| 0 <= i < j < more.len() implies #[trigger] more[i]
        != #[trigger] more[j] by {
        assert(more[i] == keys[i]);
        if j < keys.len() {
            assert(more[j] == keys[j]);
        }
    }
    assert forall|k: K| #[trigger]
        after.dom().contains(k) <==> first.dom().contains(k) || more.contains(k) by {
        if keys.contains(k) {
            let i = choose|i: int| 0 <= i < keys.len() && keys[i] == k;
            assert(more[i] == k);
        }
        if more.contains(k) {
            let i = choose|i: int| 0 <= i < more.len() && more[i] == k;
            if i < keys.len() {
                assert(keys[i] == k);
            }
        }
        if k == key {
            assert(more[keys.len() as int] == k);
        }
    }
}

/// Whether `slots` are the stack slots that a builder holds in addition
/// to those that it held in `before`, each of them once and in this
/// order.
pub open spec fn slots_added(before: BuilderState, after: BuilderState, slots: Seq<StackSlot>) -> bool {
    &&& added(before.slots, after.slots, slots)
    &&& after.slot_order == before.slot_order + slots
}

/// Creates the stack slots of a function in a builder.
pub fn emit_slots(builder: &mut FunctionBuilder, draft: &FunctionDraft) -> (r: Result<
    Vec<StackSlot>,
    BuildError,
>)
    ensures
        builder_outcome(*final(builder)) == builder_outcome(*old(builder)),
        match r {
            Ok(slots) => {
                &&& slots_aligned(draft@.slots)
                &&& slots_created(builder_state(*final(builder)), slots@, draft@.slots)
                &&& slots_added(
                    builder_state(*old(builder)),
                    builder_state(*final(builder)),
                    slots@,
                )
                &&& builder_state(*final(builder)) == (BuilderState {
                    slots: builder_state(*final(builder)).slots,
                    slot_order: builder_state(*final(builder)).slot_order,
                    ..builder_state(*old(builder))
                })
            },
            Err(e) => {
                &&& e == BuildError::Definition
                &&& !slots_aligned(draft@.slots)
                &&& builder_state(*final(builder)) == builder_state(*old(builder))
            },
        },
{
    let count = draft.slot_count();
    let mut shifts: Vec<u8> = Vec::new();
    let mut c: usize = 0;
    while c < count
        invariant
            c <= count == draft@.slots.len(),
            shifts@.len() == c,
            forall|i: int| 0 <= i < c ==> is_pow2((#[trigger] draft@.slots[i]).align as int),
            forall|i: int| 0 <= i < c ==> pow2(#[trigger] shifts@[i] as nat) == draft@.slots[i].align,
        decreases count - c,
    {
        match align_shift(draft.slot(c).align) {
            Some(shift) => {
                shifts.push(shift);
            },
            None => {
                return Err(BuildError::Definition);
            },
        }
        c += 1;
    }
    let ghost first = builder_state(*builder);
    let mut slots: Vec<StackSlot> = Vec::new();
    let mut i: usize = 0;
    proof {
        assert(first.slot_order + slots@ =~= first.slot_order);
    }
    while i < count
        invariant
            i <= count == draft@.slots.len(),
            first == builder_state(*old(builder)),
            builder_outcome(*builder) == builder_outcome(*old(builder)),
            slots_aligned(draft@.slots),
            shifts@.len() == count,
            forall|k: int|
                0 <= k < count ==> pow2(#[trigger] shifts@[k] as nat) == draft@.slots[k].align,
            slots_created(builder_state(*builder), slots@, draft@.slots.take(i as int)),
            slots_added(first, builder_state(*builder), slots@),
            builder_state(*builder) == (BuilderState {
                slots: builder_state(*builder).slots,
                slot_order: builder_state(*builder).slot_order,
                ..first
            }),
        decreases count - i,
    {
        let wanted = draft.slot(i);
        let ghost before = builder_state(*builder);
        let ghost created = slots@;
        let slot = create_stack_slot(builder, wanted.size, shifts[i]);
        slots.push(slot);
        i += 1;
        proof {
            let state = builder_state(*builder);
            let target = draft@.slots.take(i as int);
            lemma_added_one(first.slots, before.slots, created, slot, state.slots[slot]);
            assert(state.slots =~= before.slots.insert(slot, state.slots[slot]));
            assert(state.slot_order =~= first.slot_order + slots@);
            assert forall|j: int| 0 <= j < slots@.len() implies {
                &&& state.slots.dom().contains(#[trigger] slots@[j])
                &&& state.slots[slots@[j]].explicit
                &&& state.slots[slots@[j]].size == target[j].size
                &&& pow2(state.slots[slots@[j]].align_shift as nat) == target[j].align
            } by {
                if j < i - 1 {
                    assert(slots@[j] == created[j]);
                    assert(before.slots.dom().contains(created[j]));
                    assert(target[j] == draft@.slots.take(i as int - 1)[j]);
                }
            }
        }
    }
    proof {
        assert(draft@.slots.take(count as int) =~= draft@.slots);
    }
    Ok(slots)
}

/// The parameters that a block gets for a signature.
pub open spec fn bound_params(signature: CallSignatureModel, env: Seq<Value>, pointer_bits: int) -> Seq<
    (Value, int),
> {
    Seq::new(
        signature.params.len(),
        |i: int| (env[i], lowered_param(signature.params[i], pointer_bits).bits),
    )
}

/// Gives the block of a function one parameter for each parameter of the
/// signature, and returns their handles.
pub fn bind_parameters(
    builder: &mut FunctionBuilder,
    entry: Block,
    signature: &CallSignature,
    pointer: Type,
) -> (r: Result<Vec<Value>, BuildError>)
    requires
        builder_state(*old(builder)).entry == Some(entry),
        builder_state(*old(builder)).insts.len() == 0,
        builder_state(*old(builder)).params.len() == 0,
    ensures
        builder_outcome(*final(builder)) == builder_outcome(*old(builder)),
        match r {
            Ok(env) => {
                &&& signature@.params.len() <= 0x1_0000
                &&& env@.len() == signature@.params.len()
                &&& builder_state(*final(builder)).defines(env@)
                &&& builder_state(*final(builder)) == (BuilderState {
                    params: bound_params(signature@, env@, type_bits(pointer)),
                    values: builder_state(*old(builder)).values.union(env@.to_set()),
                    ..builder_state(*old(builder))
                })
            },
            Err(e) => {
                &&& e == BuildError::Exhausted
                &&& signature@.params.len() > 0x1_0000
                &&& builder_state(*final(builder)) == builder_state(*old(builder))
            },
        },
{
    let count = signature.param_count();
    if count > 0x1_0000 {
        return Err(BuildError::Exhausted);
    }
    let mut env: Vec<Value> = Vec::new();
    let mut i: usize = 0;
    proof {
        assert(builder_state(*builder).values.union(env@.to_set()) =~= builder_state(
            *builder,
        ).values);
        assert(builder_state(*builder).params =~= Seq::new(
            0,
            |k: int| (env@[k], lowered_param(signature@.params[k], type_bits(pointer)).bits),
        ));
    }
    while i < count
        invariant
            i <= count == signature@.params.len(),
            count <= 0x1_0000,
            builder_outcome(*builder) == builder_outcome(*old(builder)),
            env@.len() == i,
            builder_state(*builder) == (BuilderState {
                params: Seq::new(
                    i as nat,
                    |k: int| (env@[k], lowered_param(signature@.params[k], type_bits(pointer)).bits),
                ),
                values: builder_state(*old(builder)).values.union(env@.to_set()),
                ..builder_state(*old(builder))
            }),
            builder_state(*old(builder)).entry == Some(entry),
            builder_state(*old(builder)).insts.len() == 0,
        decreases count - i,
    {
        let ghost before = env@;
        let ty = lower_class(signature.param(i), pointer);
        let handle = append_block_param(builder, entry, ty);
        env.push(handle);
        i += 1;
        proof {
            assert(env@.to_set() =~= before.to_set().insert(handle)) by {
                assert forall|v: Value| env@.to_set().contains(v) <==> before.to_set().insert(
                    handle,
                ).contains(v) by {
                    if env@.contains(v) {
                        let j = choose|j: int| 0 <= j < env@.len() && env@[j] == v;
                        if j < before.len() {
                            assert(before[j] == v);
                        }
                    }
                    if before.contains(v) {
                        let j = choose|j: int| 0 <= j < before.len() && before[j] == v;
                        assert(env@[j] == v);
                    }
                    if v == handle {
                        assert(env@[i as int - 1] == v);
                    }
                }
            }
            assert(builder_state(*builder).values =~= builder_state(*old(builder)).values.union(
                env@.to_set(),
            ));
            assert(builder_state(*builder).params =~= Seq::new(
                i as nat,
                |k: int| (env@[k], lowered_param(signature@.params[k], type_bits(pointer)).bits),
            ));
        }
    }
    proof {
        assert(builder_state(*builder).params =~= bound_params(
            signature@,
            env@,
            type_bits(pointer),
        ));
        assert forall|k: int| 0 <= k < env@.len() implies builder_state(*builder).values.contains(
            #[trigger] env@[k],
        ) by {
            assert(env@.contains(env@[k]));
        }
    }
    Ok(env)
}

/// Whether every function of a list is declared in a module, with no
/// more than 65536 results.
pub open spec fn all_declared(module: JITModule, functions: Seq<FuncId>) -> bool {
    forall|i: int|
        0 <= i < functions.len() ==> module_functions(module).dom().contains(
            #[trigger] functions[i],
        ) && module_functions(module)[functions[i]].results.len() <= 0x1_0000
}

/// Whether a builder holds `imports[i]` as the import of `functions[i]`.
pub open spec fn imports_made(
    state: BuilderState,
    imports: Seq<FuncRef>,
    functions: Seq<FuncId>,
    module: JITModule,
) -> bool {
    &&& imports.len() == functions.len()
    &&& forall|i: int|
        0 <= i < imports.len() ==> {
            &&& state.imports.dom().contains(#[trigger] imports[i])
            &&& state.imports[imports[i]] == (Import {
                function: functions[i],
                results: module_functions(module)[functions[i]].results.len(),
            })
        }
}

/// Whether `imports` are the imports that a builder holds in addition to
/// those that it held in `before`, each of them once and in this order.
pub open spec fn imports_added(before: BuilderState, after: BuilderState, imports: Seq<FuncRef>) -> bool {
    &&& added(before.imports, after.imports, imports)
    &&& after.import_order == before.import_order + imports
}

/// Imports declared functions of a module into a function under
/// construction, and returns their handles.
pub fn import_all(module: &mut JITModule, builder: &mut FunctionBuilder, functions: &Vec<FuncId>) -> (r:
    Vec<FuncRef>)
    requires
        all_declared(*old(module), functions@),
    ensures
        module_functions(*final(module)) == module_functions(*old(module)),
        module_names(*final(module)) == module_names(*old(module)),
        module_exported(*final(module)) == module_exported(*old(module)),
        module_pointer_bits(*final(module)) == module_pointer_bits(*old(module)),
        module_call_conv(*final(module)) == module_call_conv(*old(module)),
        builder_outcome(*final(builder)) == builder_outcome(*old(builder)),
        imports_made(builder_state(*final(builder)), r@, functions@, *old(module)),
        imports_added(builder_state(*old(builder)), builder_state(*final(builder)), r@),
        builder_state(*final(builder)) == (BuilderState {
            imports: builder_state(*final(builder)).imports,
            import_order: builder_state(*final(builder)).import_order,
            ..builder_state(*old(builder))
        }),
{
    let ghost first = builder_state(*builder);
    let mut imports: Vec<FuncRef> = Vec::new();
    let mut i: usize = 0;
    proof {
        assert(first.import_order + imports@ =~= first.import_order);
    }
    while i < functions.len()
        invariant
            i <= functions@.len(),
            first == builder_state(*old(builder)),
            all_declared(*old(module), functions@),
            module_functions(*module) == module_functions(*old(module)),
            module_names(*module) == module_names(*old(module)),
            module_exported(*module) == module_exported(*old(module)),
            module_pointer_bits(*module) == module_pointer_bits(*old(module)),
            module_call_conv(*module) == module_call_conv(*old(module)),
            builder_outcome(*builder) == builder_outcome(*old(builder)),
            imports_made(builder_state(*builder), imports@, functions@.take(i as int), *old(module)),
            imports_added(first, builder_state(*builder), imports@),
            builder_state(*builder) == (BuilderState {
                imports: builder_state(*builder).imports,
                import_order: builder_state(*builder).import_order,
                ..first
            }),
        decreases functions.len() - i,
    {
        let ghost before = builder_state(*builder);
        let ghost made = imports@;
        assert(module_functions(*module).dom().contains(functions@[i as int]));
        let import = import_function(module, builder, functions[i]);
        imports.push(import);
        i += 1;
        proof {
            let state = builder_state(*builder);
            let target = functions@.take(i as int);
            lemma_added_one(first.imports, before.imports, made, import, state.imports[import]);
            assert(state.imports =~= before.imports.insert(import, state.imports[import]));
            assert(state.import_order =~= first.import_order + imports@);
            assert forall|j: int| 0 <= j < imports@.len() implies {
                &&& state.imports.dom().contains(#[trigger] imports@[j])
                &&& state.imports[imports@[j]] == (Import {
                    function: target[j],
                    results: module_functions(*old(module))[target[j]].results.len(),
                })
            } by {
                if j < i - 1 {
                    assert(imports@[j] == made[j]);
                    assert(before.imports.dom().contains(made[j]));
                    assert(target[j] == functions@.take(i as int - 1)[j]);
                }
            }
        }
    }
    proof {
        assert(functions@.take(functions@.len() as int) =~= functions@);
    }
    imports
}

/// Ends a function: its block is sealed, and the builder is finalized.
/// The function is then what the builder has built. The block at which
/// the builder stood is returned.
pub fn close_function(builder: FunctionBuilder) -> (r: Option<Block>)
    requires
        builder_state(builder).entry is Some,
        builder_state(builder).insts.len() > 0 ==> builder_state(builder).filled,
    ensures
        built(builder_outcome(builder), builder_state(builder)),
        r == (if builder_state(builder).positioned {
            builder_state(builder).entry
        } else {
            None
        }),
{
    let mut sealed = builder;
    seal_all_blocks(&mut sealed);
    finalize(sealed)
}

/// Whether Cranelift can hold every instruction.
pub open spec fn all_encodable(body: Seq<InstView>) -> bool {
    forall|k: int| 0 <= k < body.len() ==> encodable(#[trigger] body[k])
}

/// Whether every call gets as many results as its callee gives.
pub open spec fn calls_match(body: Seq<InstView>, imports: Seq<FuncRef>, state: BuilderState) -> bool {
    forall|k: int| 0 <= k < body.len() ==> call_matches(#[trigger] body[k], imports, state)
}

/// The instructions that Cranelift holds for the first `n` instructions
/// of a function.
pub open spec fn emitted_body(
    draft: DraftView,
    n: int,
    env: Seq<Value>,
    slots: Seq<StackSlot>,
    imports: Seq<FuncRef>,
    pointer_bits: int,
) -> Seq<Emitted> {
    Seq::new(n as nat, |k: int| emitted_for(draft.body[k], env, slots, imports, pointer_bits))
}

/// More instructions define no fewer values.
pub proof fn lemma_defined_grows(draft: DraftView, j: int, k: int)
    requires
        0 <= j <= k,
    ensures
        defined_before(draft, j) <= defined_before(draft, k),
    decreases k - j,
{
    if j < k {
        lemma_defined_grows(draft, j, k - 1);
    }
}

/// What Cranelift holds for a scoped instruction does not depend on the
/// handles of values that are defined after it.
pub proof fn lemma_emitted_stable(
    inst: InstView,
    defined: nat,
    slot_count: nat,
    functions: nat,
    short: Seq<Value>,
    long: Seq<Value>,
    slots: Seq<StackSlot>,
    imports: Seq<FuncRef>,
    pointer_bits: int,
)
    requires
        scoped(inst, defined, slot_count, functions),
        defined + defines(inst) <= short.len() <= long.len(),
        long.take(short.len() as int) == short,
    ensures
        emitted_for(inst, short, slots, imports, pointer_bits) == emitted_for(
            inst,
            long,
            slots,
            imports,
            pointer_bits,
        ),
{
    assert forall|i: int| 0 <= i < short.len() implies short[i] == long[i] by {
        assert(long.take(short.len() as int)[i] == long[i]);
    }
    match inst {
        InstView::Call { callee, arguments, results } => {
            assert(handles(short, argument_values(arguments)) =~= handles(
                long,
                argument_values(arguments),
            )) by {
                assert forall|i: int| 0 <= i < arguments.len() implies short[argument_value(
                    arguments[i],
                ).0 as int] == long[argument_value(arguments[i]).0 as int] by {
                    assert(argument_value(arguments[i]).0 < defined);
                }
            }
            assert(handles(short, results) =~= handles(long, results)) by {
                assert forall|i: int| 0 <= i < results.len() implies short[results[i].0 as int]
                    == long[results[i].0 as int] by {
                    assert(results[i] == fresh_values(defined as int, results.len() as int)[i]);
                }
            }
        },
        InstView::Return { values } => {
            assert(handles(short, values) =~= handles(long, values)) by {
                assert forall|i: int| 0 <= i < values.len() implies short[values[i].0 as int]
                    == long[values[i].0 as int] by {
                    assert(values[i].0 < defined);
                }
            }
        },
        _ => {},
    }
}

/// Hands the instructions of a function to Cranelift, in order. `env`
/// holds the handles of the parameters when this begins, and the handles
/// of all values when it ends.
pub fn emit_body(
    builder: &mut FunctionBuilder,
    draft: &FunctionDraft,
    env: &mut Vec<Value>,
    slots: &Vec<StackSlot>,
    imports: &Vec<FuncRef>,
    pointer: Type,
) -> (r: Result<(), BuildError>)
    requires
        well_scoped(draft@, imports@.len()),
        old(env)@.len() == draft@.params.len(),
        slots@.len() == draft@.slots.len(),
        builder_state(*old(builder)).accepts(),
        builder_state(*old(builder)).defines(old(env)@),
        slots_known(builder_state(*old(builder)), slots@),
        imports_known(builder_state(*old(builder)), imports@),
    ensures
        builder_outcome(*final(builder)) == builder_outcome(*old(builder)),
        match r {
            Ok(_) => {
                &&& all_encodable(draft@.body)
                &&& calls_match(draft@.body, imports@, builder_state(*old(builder)))
                &&& final(env)@.len() == defined_before(draft@, draft@.body.len() as int)
                &&& final(env)@.take(old(env)@.len() as int) == old(env)@
                &&& builder_state(*final(builder)).defines(final(env)@)
                &&& new_values(
                    builder_state(*old(builder)),
                    final(env)@.skip(old(env)@.len() as int),
                )
                &&& builder_state(*final(builder)) == (BuilderState {
                    filled: draft@.closed(),
                    insts: builder_state(*old(builder)).insts + emitted_body(
                        draft@,
                        draft@.body.len() as int,
                        final(env)@,
                        slots@,
                        imports@,
                        type_bits(pointer),
                    ),
                    values: builder_state(*old(builder)).values.union(
                        final(env)@.skip(old(env)@.len() as int).to_set(),
                    ),
                    ..builder_state(*old(builder))
                })
            },
            Err(e) => {
                &&& e == BuildError::Definition <==> !all_encodable(draft@.body)
                &&& e == BuildError::Arity <==> (all_encodable(draft@.body) && !calls_match(
                    draft@.body,
                    imports@,
                    builder_state(*old(builder)),
                ))
                &&& (e == BuildError::Definition || e == BuildError::Arity)
            },
        },
{
    let n = draft.len();
    let mut c: usize = 0;
    while c < n
        invariant
            c <= n == draft@.body.len(),
            forall|k: int| 0 <= k < c ==> encodable(#[trigger] draft@.body[k]),
        decreases n - c,
    {
        if !is_encodable(draft.inst(c)) {
            return Err(BuildError::Definition);
        }
        c += 1;
    }
    let ghost start = builder_state(*builder);
    let ghost given = env@;
    let ghost bits = type_bits(pointer);
    let mut k: usize = 0;
    proof {
        assert(start.insts + emitted_body(draft@, 0, env@, slots@, imports@, bits) =~= start.insts);
        assert(env@.take(given.len() as int) =~= given);
        assert(env@.skip(given.len() as int) =~= Seq::<Value>::empty());
        assert(start.values.union(env@.skip(given.len() as int).to_set()) =~= start.values);
    }
    while k < n
        invariant
            k <= n == draft@.body.len(),
            well_scoped(draft@, imports@.len()),
            all_encodable(draft@.body),
            slots@.len() == draft@.slots.len(),
            given.len() == draft@.params.len(),
            start == builder_state(*old(builder)),
            builder_outcome(*builder) == builder_outcome(*old(builder)),
            bits == type_bits(pointer),
            env@.len() == defined_before(draft@, k as int),
            env@.take(given.len() as int) == given,
            builder_state(*builder).defines(env@),
            env@.len() >= given.len(),
            new_values(start, env@.skip(given.len() as int)),
            forall|j: int| 0 <= j < k ==> call_matches(#[trigger] draft@.body[j], imports@, start),
            builder_state(*builder) == (BuilderState {
                filled: k > 0 && draft@.body[k as int - 1] is Return,
                insts: start.insts + emitted_body(draft@, k as int, env@, slots@, imports@, bits),
                values: start.values.union(env@.skip(given.len() as int).to_set()),
                ..start
            }),
            start.accepts(),
            slots_known(start, slots@),
            imports_known(start, imports@),
        decreases n - k,
    {
        let ghost before = builder_state(*builder);
        let ghost short = env@;
        proof {
            assert(scoped(
                draft@.body[k as int],
                defined_before(draft@, k as int),
                draft@.slots.len(),
                imports@.len(),
            ));
            assert(encodable(draft@.body[k as int]));
            if k > 0 {
                assert(!(draft@.body[k as int - 1] is Return));
            }
            assert(slots_known(before, slots@));
            assert(imports_known(before, imports@));
        }
        match emit_inst(builder, draft.inst(k), env, slots, imports, pointer) {
            Ok(_) => {},
            Err(e) => {
                proof {
                    assert(!call_matches(draft@.body[k as int], imports@, start));
                }
                return Err(e);
            },
        }
        proof {
            let state = builder_state(*builder);
            let long = env@;
            assert(long.take(given.len() as int) =~= given) by {
                lemma_defined_grows(draft@, 0, k as int);
                assert forall|i: int| 0 <= i < given.len() implies long[i] == given[i] by {
                    assert(long.take(short.len() as int)[i] == long[i]);
                    assert(short.take(given.len() as int)[i] == short[i]);
                }
            }
            let n0 = given.len() as int;
            let m = short.len() as int;
            let fresh = long.skip(m);
            assert forall|i: int| 0 <= i < long.len() - n0 implies #[trigger] long.skip(n0)[i]
                == (if i < m - n0 {
                short.skip(n0)[i]
            } else {
                fresh[i - (m - n0)]
            }) by {
                if i < m - n0 {
                    assert(long.take(m)[n0 + i] == long[n0 + i]);
                }
            }
            assert(state.values =~= start.values.union(long.skip(n0).to_set())) by {
                assert forall|v: Value| state.values.contains(v) <==> start.values.union(
                    long.skip(n0).to_set(),
                ).contains(v) by {
                    if short.skip(n0).contains(v) {
                        let a = choose|a: int| 0 <= a < short.skip(n0).len() && short.skip(n0)[a] == v;
                        assert(long.skip(n0)[a] == v);
                    }
                    if fresh.contains(v) {
                        let a = choose|a: int| 0 <= a < fresh.len() && fresh[a] == v;
                        assert(long.skip(n0)[a + (m - n0)] == v);
                    }
                    if long.skip(n0).contains(v) {
                        let a = choose|a: int| 0 <= a < long.skip(n0).len() && long.skip(n0)[a] == v;
                        if a < m - n0 {
                            assert(short.skip(n0)[a] == v);
                        } else {
                            assert(fresh[a - (m - n0)] == v);
                        }
                    }
                }
            }
            assert(new_values(start, long.skip(n0))) by {
                assert forall|i: int| 0 <= i < long.skip(n0).len() implies !start.values.contains(
                    #[trigger] long.skip(n0)[i],
                ) by {
                    if i >= m - n0 {
                        assert(!before.values.contains(fresh[i - (m - n0)]));
                    }
                }
                assert forall|i: int, j: int| 0 <= i < j < long.skip(n0).len() implies #[trigger] long.skip(
                    n0,
                )[i] != #[trigger] long.skip(n0)[j] by {
                    if j >= m - n0 {
                        assert(!before.values.contains(fresh[j - (m - n0)]));
                        if i < m - n0 {
                            assert(short.skip(n0).contains(short.skip(n0)[i]));
                        }
                    }
                }
            }
            assert(state.defines(long)) by {
                assert forall|i: int| 0 <= i < long.len() implies state.values.contains(
                    #[trigger] long[i],
                ) by {
                    if i < short.len() {
                        assert(long.take(short.len() as int)[i] == long[i]);
                        assert(before.values.contains(short[i]));
                    } else {
                        assert(long.skip(short.len() as int)[i - short.len()] == long[i]);
                        assert(long.skip(short.len() as int).to_set().contains(long[i]));
                    }
                }
            }
            assert(state.insts =~= start.insts + emitted_body(
                draft@,
                k as int + 1,
                long,
                slots@,
                imports@,
                bits,
            )) by {
                assert forall|j: int| 0 <= j < k implies emitted_for(
                    draft@.body[j],
                    short,
                    slots@,
                    imports@,
                    bits,
                ) == emitted_for(draft@.body[j], long, slots@, imports@, bits) by {
                    lemma_defined_grows(draft@, j + 1, k as int);
                    assert(scoped(
                        draft@.body[j],
                        defined_before(draft@, j),
                        draft@.slots.len(),
                        imports@.len(),
                    ));
                    lemma_emitted_stable(
                        draft@.body[j],
                        defined_before(draft@, j),
                        draft@.slots.len(),
                        imports@.len(),
                        short,
                        long,
                        slots@,
                        imports@,
                        bits,
                    );
                }
            }
        }
        k += 1;
    }
    proof {
        if n > 0 {
            assert(draft@.body.last() == draft@.body[n as int - 1]);
        }
    }
    Ok(())
}

/// Whether a function can be built for Cranelift, with `functions`
/// functions that it can call: its parameters are bound, its instructions
/// are well scoped, its block is closed by a `Return`, the alignment of
/// every stack slot is a power of two, and Cranelift can hold every
/// instruction.
pub open spec fn definable(draft: DraftView, functions: nat) -> bool {
    &&& draft.params.len() == draft.signature.params.len()
    &&& draft.params.len() <= u32::MAX
    &&& well_scoped(draft, functions)
    &&& draft.closed()
    &&& slots_aligned(draft.slots)
    &&& all_encodable(draft.body)
}

/// Whether every call of a function gets as many results as the
/// declaration of its callee gives, where `functions[i]` is the function
/// of the module that stands for function `i`.
pub open spec fn calls_declared(body: Seq<InstView>, functions: Seq<FuncId>, module: JITModule) -> bool {
    forall|k: int| 0 <= k < body.len() ==> call_declared(#[trigger] body[k], functions, module)
}

/// Whether a call gets as many results as the declaration of its callee
/// gives.
pub open spec fn call_declared(inst: InstView, functions: Seq<FuncId>, module: JITModule) -> bool {
    match inst {
        InstView::Call { callee, results, .. } => module_functions(
            module,
        )[functions[callee.0 as int]].results.len() == results.len(),
        _ => true,
    }
}

/// Whether a function can be built for Cranelift, with `functions`
/// functions that it can call.
pub fn is_definable(draft: &FunctionDraft, functions: usize) -> (r: bool)
    ensures
        r == definable(draft@, functions as nat),
{
    if draft.param_count() != draft.signature().param_count() || draft.param_count()
        > u32::MAX as usize {
        return false;
    }
    if !is_well_scoped(draft, functions as u64) || !draft.is_closed() {
        return false;
    }
    let count = draft.slot_count();
    let mut c: usize = 0;
    while c < count
        invariant
            c <= count == draft@.slots.len(),
            forall|i: int| 0 <= i < c ==> is_pow2((#[trigger] draft@.slots[i]).align as int),
        decreases count - c,
    {
        if !is_power_of_two(draft.slot(c).align) {
            return false;
        }
        c += 1;
    }
    let n = draft.len();
    let mut k: usize = 0;
    while k < n
        invariant
            k <= n == draft@.body.len(),
            forall|j: int| 0 <= j < k ==> encodable(#[trigger] draft@.body[j]),
        decreases n - k,
    {
        if !is_encodable(draft.inst(k)) {
            return false;
        }
        k += 1;
    }
    true
}

/// Builds a function in a context, for Cranelift to compile: the context
/// is cleared, the signature and the name are set, and the block, its
/// parameters, the stack slots, the imports and the instructions are
/// handed over. `functions[i]` is the declared function of the module
/// that stands for function `i` in calls. The context then holds the
/// function. A function that cannot be built leaves the context as it
/// was; where Cranelift cannot take the parameters or a call, the context
/// is left cleared.
pub fn build_function(
    module: &mut JITModule,
    context: &mut Context,
    name: &str,
    draft: &FunctionDraft,
    functions: &Vec<FuncId>,
) -> (r: Result<(), BuildError>)
    requires
        all_declared(*old(module), functions@),
    ensures
        module_functions(*final(module)) == module_functions(*old(module)),
        module_names(*final(module)) == module_names(*old(module)),
        module_exported(*final(module)) == module_exported(*old(module)),
        module_pointer_bits(*final(module)) == module_pointer_bits(*old(module)),
        module_call_conv(*final(module)) == module_call_conv(*old(module)),
        r == Err::<(), BuildError>(BuildError::Definition) <==> !definable(
            draft@,
            functions@.len(),
        ),
        r == Err::<(), BuildError>(BuildError::Exhausted) <==> (definable(
            draft@,
            functions@.len(),
        ) && draft@.signature.params.len() > 0x1_0000),
        r == Err::<(), BuildError>(BuildError::Arity) <==> (definable(draft@, functions@.len())
            && draft@.signature.params.len() <= 0x1_0000 && !calls_declared(
            draft@.body,
            functions@,
            *old(module),
        )),
        r is Ok <==> (definable(draft@, functions@.len()) && draft@.signature.params.len()
            <= 0x1_0000 && calls_declared(draft@.body, functions@, *old(module))),
        r is Ok ==> holds(
            context_function(*final(context)),
            draft@,
            functions@,
            name@,
            module_pointer_bits(*old(module)),
        ),
        r == Err::<(), BuildError>(BuildError::Definition) ==> *final(context) == *old(context),
        (r == Err::<(), BuildError>(BuildError::Exhausted) || r == Err::<(), BuildError>(
            BuildError::Arity,
        )) ==> context_function(*final(context)).bare(),
{
    if !is_definable(draft, functions.len()) {
        return Err(BuildError::Definition);
    }
    let pointer = pointer_type(module);
    let mut builder_context = new_builder_context();
    let (mut builder, entry) = open_function(
        module,
        context,
        &mut builder_context,
        name,
        draft.signature(),
    );
    let mut env = match bind_parameters(&mut builder, entry, draft.signature(), pointer) {
        Ok(env) => env,
        Err(e) => {
            clear_context(module, context);
            return Err(e);
        },
    };
    let ghost given = env@;
    let slots = match emit_slots(&mut builder, draft) {
        Ok(slots) => slots,
        Err(_) => unreached(),
    };
    let imports = import_all(module, &mut builder, functions);
    let ghost ready = builder_state(builder);
    match emit_body(&mut builder, draft, &mut env, &slots, &imports, pointer) {
        Ok(_) => {},
        Err(e) => {
            proof {
                let k = choose|k: int|
                    0 <= k < draft@.body.len() && !call_matches(
                        #[trigger] draft@.body[k],
                        imports@,
                        ready,
                    );
                assert(scoped(
                    draft@.body[k],
                    defined_before(draft@, k),
                    draft@.slots.len(),
                    functions@.len(),
                ));
                assert(!call_declared(draft@.body[k], functions@, *old(module)));
            }
            clear_context(module, context);
            return Err(e);
        },
    }
    proof {
        assert forall|k: int| 0 <= k < draft@.body.len() implies call_declared(
            #[trigger] draft@.body[k],
            functions@,
            *old(module),
        ) by {
            assert(call_matches(draft@.body[k], imports@, ready));
            assert(scoped(
                draft@.body[k],
                defined_before(draft@, k),
                draft@.slots.len(),
                functions@.len(),
            ));
        }
    }
    let ghost outcome = builder_outcome(builder);
    let ghost state = builder_state(builder);
    let _ = close_function(builder);
    proof {
        lemma_defined_grows(draft@, 0, draft@.body.len() as int);
        lemma_built_as(
            context_function(*context),
            outcome,
            state,
            draft@,
            functions@,
            type_bits(pointer),
            entry,
            given,
            env@,
            slots@,
            imports@,
        );
    }
    Ok(())
}

} // verus!
