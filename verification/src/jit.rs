//! The callee and the caller of the round trip, built in a Cranelift
//! module.

use vstd::prelude::*;
use vstd::pervasive::unreached;
use vstd::arithmetic::power2::pow2;
use cranelift::codegen::ir::{Block, FuncRef, StackSlot, Value};
use cranelift::codegen::Context;
use cranelift::frontend::FunctionBuilder;
use cranelift_jit::JITModule;
use cranelift_module::FuncId;
use crate::backend::{
    builder_outcome, builder_state, built, context_function, host_call_conv, ins_return,
    is_declared, module_call_conv, module_exported, module_functions, module_names,
    module_pointer_bits, new_builder_context, pointer_type, type_bits, BuilderState, Emitted,
    FunctionView, Import, LoweredSignature,
};
use crate::emit::{
    all_encodable, bound_params, build_function, call_declared, call_matches, close_function,
    declare, definable, emit_body, emit_slots, emitted_body, emitted_for, encodable, handles,
    immediate, import_all, lowered, open_function, slots_aligned,
};
use crate::eval::argument_values;
use crate::ir::{BuildError, DraftView, FrameSlot, FunctionDraft, FunctionId};
use crate::layout::lemma_pow2_single_bit;
use crate::readback::{built_as, holds, lemma_built_as, same_body};
use crate::roundtrip::{
    bits_of_i32, callee_draft, callee_signature, callee_signature_view, callee_view, caller_body,
    caller_body_view, caller_signature, caller_signature_view, caller_view, i32_bits,
    lemma_callee_well_formed, lemma_caller_body_scoped, lemma_caller_well_formed,
};
use crate::program::{defined_before, well_scoped};
use crate::signature::CallConv;

verus! {

/// The value that the caller stores in the struct.
pub const MEMBER: i32 = 42;

/// Whether a module declares one function more than before: `id`, which
/// it did not declare, for export, under the name `name`, with the
/// signature `signature`.
pub open spec fn declared_more(before: JITModule, after: JITModule, id: FuncId, name: Seq<char>, signature: LoweredSignature) -> bool {
    &&& !module_functions(before).dom().contains(id)
    &&& module_functions(after) == module_functions(before).insert(id, signature)
    &&& module_names(after) == module_names(before).insert(name)
    &&& module_exported(after) == module_exported(before).insert(id)
}

/// Whether a module declares what it declared before.
pub open spec fn declares_same(before: JITModule, after: JITModule) -> bool {
    &&& module_functions(after) == module_functions(before)
    &&& module_names(after) == module_names(before)
    &&& module_exported(after) == module_exported(before)
}

/// The signature under which a module declares the callee.
pub open spec fn callee_declaration(module: JITModule) -> LoweredSignature {
    lowered(callee_signature_view(module_call_conv(module)), module_pointer_bits(module))
}

/// The signature under which a module declares the caller.
pub open spec fn caller_declaration(module: JITModule) -> LoweredSignature {
    lowered(caller_signature_view(module_call_conv(module)), module_pointer_bits(module))
}

/// Whether a builder got the body of the caller, up to the call: the
/// constant; one new explicit stack slot, of four bytes aligned to four,
/// after the slots that it had; the store of the constant at offset 0 of
/// the slot; the address of the slot; one new import, of `foo`, after the
/// imports that it had; and the call of the import with that address,
/// which gives `result`. The constant, the address and the result are
/// three new values.
pub open spec fn caller_body_emitted(
    before: BuilderState,
    after: BuilderState,
    foo: FuncId,
    result: Value,
    pointer_bits: int,
    member: Value,
    address: Value,
    slot: StackSlot,
    import: FuncRef,
) -> bool {
    &&& after.insts == before.insts + seq![
        Emitted::Iconst { result: member, bits: 32, imm: MEMBER as i64 },
        Emitted::StackStore { value: member, slot, offset: 0 },
        Emitted::StackAddr { result: address, bits: pointer_bits, slot, offset: 0 },
        Emitted::Call { function: import, arguments: seq![address], results: seq![result] },
    ]
    &&& !before.slots.dom().contains(slot)
    &&& after.slots == before.slots.insert(slot, after.slots[slot])
    &&& after.slot_order == before.slot_order.push(slot)
    &&& after.slots[slot].explicit
    &&& after.slots[slot].size == 4
    &&& pow2(after.slots[slot].align_shift as nat) == 4
    &&& !before.imports.dom().contains(import)
    &&& after.imports == before.imports.insert(import, after.imports[import])
    &&& after.import_order == before.import_order.push(import)
    &&& after.imports[import] == (Import { function: foo, results: 1 })
    &&& !before.values.contains(member)
    &&& !before.values.contains(address)
    &&& !before.values.contains(result)
    &&& member != address
    &&& member != result
    &&& address != result
    &&& after.values == before.values.insert(member).insert(address).insert(result)
    &&& after.entry == before.entry
    &&& after.positioned == before.positioned
    &&& after.sealed == before.sealed
    &&& after.filled == before.filled
    &&& after.params == before.params
}

/// Whether a builder got the body of the caller, up to the call.
pub open spec fn caller_body_done(
    before: BuilderState,
    after: BuilderState,
    foo: FuncId,
    result: Value,
    pointer_bits: int,
) -> bool {
    exists|member: Value, address: Value, slot: StackSlot, import: FuncRef|
        caller_body_emitted(
            before,
            after,
            foo,
            result,
            pointer_bits,
            member,
            address,
            slot,
            import,
        )
}

/// The instructions of the caller up to the call can be handed to
/// Cranelift one after the other, in a function without parameters and
/// with one stack slot, aligned to four, that holds them and no other.
pub proof fn lemma_caller_body_emittable(d: DraftView, bits: u64)
    requires
        bits <= 0xffff_ffff,
        d.params.len() == 0,
        d.slots == seq![FrameSlot { size: 4, align: 4 }],
        d.body == caller_body_view(bits, FunctionId(0)),
    ensures
        well_scoped(d, 1),
        all_encodable(d.body),
        slots_aligned(d.slots),
        defined_before(d, 4) == 3,
{
    lemma_caller_body_scoped(d, bits, FunctionId(0), 1);
    assert forall|k: int| 0 <= k < d.body.len() implies encodable(#[trigger] d.body[k]) by {
        if k == 0 {
        } else if k == 1 {
        } else if k == 2 {
        } else {
            assert(k == 3);
        }
    }
    assert forall|k: int| 0 <= k < d.body.len() - 1 implies !(#[trigger] d.body[k] is Return) by {
        if k == 0 {
        } else if k == 1 {
        } else {
            assert(k == 2);
        }
    }
    lemma_pow2_single_bit(4);
    assert(4u32 & ((4u32 - 1) as u32) == 0) by (bit_vector);
}

/// The callee and the caller can be built for Cranelift.
pub proof fn lemma_example_definable(bits: u64, call_conv: CallConv)
    requires
        bits <= 0xffff_ffff,
    ensures
        definable(callee_view(call_conv), 0),
        definable(caller_view(bits, FunctionId(0), call_conv), 1),
{
    lemma_callee_well_formed(call_conv);
    lemma_caller_well_formed(bits, FunctionId(0), call_conv, 1);
    let callee = callee_view(call_conv);
    let caller = caller_view(bits, FunctionId(0), call_conv);
    assert(callee.body.last() == callee.body[1]);
    assert(caller.body.last() == caller.body[4]);
    assert forall|k: int| 0 <= k < callee.body.len() implies encodable(#[trigger] callee.body[k]) by {
        if k == 0 {
        } else {
            assert(k == 1);
        }
    }
    assert forall|k: int| 0 <= k < caller.body.len() implies encodable(#[trigger] caller.body[k]) by {
        if k == 0 {
        } else if k == 1 {
        } else if k == 2 {
        } else if k == 3 {
        } else {
            assert(k == 4);
        }
    }
    lemma_pow2_single_bit(4);
    assert(4u32 & ((4u32 - 1) as u32) == 0) by (bit_vector);
    assert(slots_aligned(caller.slots));
}

/// A builder that got a block, the body of the caller up to the call
/// and the `Return` of what the call gave has built the caller.
pub proof fn lemma_caller_built(
    view: FunctionView,
    outcome: FunctionView,
    opened: BuilderState,
    called: BuilderState,
    closed: BuilderState,
    entry: Block,
    foo: FuncId,
    call_conv: CallConv,
    pointer_bits: int,
    result: Value,
    member: Value,
    address: Value,
    slot: StackSlot,
    import: FuncRef,
)
    requires
        built(outcome, closed),
        same_body(view, outcome),
        opened == (BuilderState {
            entry: Some(entry),
            positioned: true,
            sealed: true,
            ..BuilderState::fresh()
        }),
        caller_body_emitted(opened, called, foo, result, pointer_bits, member, address, slot, import),
        closed == (BuilderState {
            filled: true,
            ..called.append(Emitted::Return { values: seq![result] }, seq![])
        }),
    ensures
        built_as(
            view,
            caller_view(bits_of_i32(MEMBER), FunctionId(0), call_conv),
            seq![foo],
            pointer_bits,
            entry,
            seq![member, address, result],
            seq![slot],
            seq![import],
        ),
{
    let bits = bits_of_i32(MEMBER);
    let d = caller_view(bits, FunctionId(0), call_conv);
    let env = seq![member, address, result];
    let slots = seq![slot];
    let imports = seq![import];
    assert(bits == 42);
    assert(immediate(42) == 42);
    lemma_caller_body_scoped(d, bits, FunctionId(0), 1);
    assert(defined_before(d, 5) == 3);
    assert(handles(env, argument_values(d.body[3]->Call_arguments)) =~= seq![address]);
    assert(handles(env, d.body[3]->Call_results) =~= seq![result]);
    assert(handles(env, d.body[4]->Return_values) =~= seq![result]);
    assert(closed.insts =~= emitted_body(d, 5, env, slots, imports, pointer_bits)) by {
        assert forall|k: int| 0 <= k < 5 implies closed.insts[k] == emitted_for(
            d.body[k],
            env,
            slots,
            imports,
            pointer_bits,
        ) by {
            if k == 0 {
            } else if k == 1 {
            } else if k == 2 {
            } else if k == 3 {
            } else {
                assert(k == 4);
            }
        }
    }
    assert(closed.params =~= bound_params(d.signature, Seq::empty(), pointer_bits));
    assert(env.take(0) =~= Seq::<Value>::empty());
    assert(closed.slot_order =~= slots);
    assert(closed.import_order =~= imports);
    lemma_built_as(
        view,
        outcome,
        closed,
        d,
        seq![foo],
        pointer_bits,
        entry,
        Seq::empty(),
        env,
        slots,
        imports,
    );
}

/// Builds the callee in a context and declares it in the module as
/// `foo`, for export, with the calling convention of the host. The callee
/// takes the struct by pointer, with the padded size of the struct, loads
/// the field at offset 0 and returns it. A module that has declared the
/// name `foo` already is refused, and nothing is built; any other module
/// gets the callee.
pub fn create_foo(module: &mut JITModule, context: &mut Context) -> (r: Result<FuncId, BuildError>)
    ensures
        module_pointer_bits(*final(module)) == module_pointer_bits(*old(module)),
        module_call_conv(*final(module)) == module_call_conv(*old(module)),
        r is Ok <==> !module_names(*old(module)).contains("foo"@),
        match r {
            Ok(id) => {
                &&& declared_more(
                    *old(module),
                    *final(module),
                    id,
                    "foo"@,
                    callee_declaration(*old(module)),
                )
                &&& holds(
                    context_function(*final(context)),
                    callee_view(module_call_conv(*old(module))),
                    Seq::<FuncId>::empty(),
                    "foo"@,
                    module_pointer_bits(*old(module)),
                )
            },
            Err(e) => {
                &&& e == BuildError::Declaration
                &&& declares_same(*old(module), *final(module))
                &&& *final(context) == *old(context)
            },
        },
{
    if is_declared(module, "foo") {
        return Err(BuildError::Declaration);
    }
    let call_conv = match host_call_conv(module) {
        Some(c) => c,
        None => unreached(),
    };
    let draft = callee_draft(call_conv);
    let functions: Vec<FuncId> = Vec::new();
    proof {
        lemma_example_definable(0, call_conv);
        assert(functions@ =~= Seq::<FuncId>::empty());
        let d = draft@;
        assert forall|k: int| 0 <= k < d.body.len() implies call_declared(
            #[trigger] d.body[k],
            functions@,
            *old(module),
        ) by {
            if k == 0 {
            } else {
                assert(k == 1);
            }
        }
    }
    match build_function(module, context, "foo", &draft, &functions) {
        Ok(_) => {},
        Err(_) => unreached(),
    }
    match declare(module, "foo", draft.signature()) {
        Ok(id) => Ok(id),
        Err(_) => unreached(),
    }
}

/// Generates the body of the caller, up to the call, at the position of
/// a builder, and returns what the call gives. `foo` is the callee.
pub fn generate_main_body(
    module: &mut JITModule,
    builder: &mut FunctionBuilder,
    foo: FuncId,
) -> (r: Value)
    requires
        builder_state(*old(builder)).accepts(),
        module_functions(*old(module)).dom().contains(foo),
        module_functions(*old(module))[foo].results.len() == 1,
    ensures
        module_functions(*final(module)) == module_functions(*old(module)),
        module_names(*final(module)) == module_names(*old(module)),
        module_exported(*final(module)) == module_exported(*old(module)),
        module_pointer_bits(*final(module)) == module_pointer_bits(*old(module)),
        module_call_conv(*final(module)) == module_call_conv(*old(module)),
        builder_outcome(*final(builder)) == builder_outcome(*old(builder)),
        caller_body_done(
            builder_state(*old(builder)),
            builder_state(*final(builder)),
            foo,
            r,
            module_pointer_bits(*old(module)),
        ),
{
    let pointer = pointer_type(module);
    let call_conv = match host_call_conv(module) {
        Some(c) => c,
        None => unreached(),
    };
    let mut functions: Vec<FuncId> = Vec::new();
    functions.push(foo);
    let imports = import_all(module, builder, &functions);
    let ghost imported = builder_state(*builder);

    let mut draft = FunctionDraft::declare(caller_signature(call_conv));
    match draft.lower_entry() {
        Ok(_) => {},
        Err(_) => unreached(),
    }
    let signature = callee_signature(call_conv);
    let _ = caller_body(&mut draft, i32_bits(MEMBER), FunctionId(0), &signature);
    let ghost bits = bits_of_i32(MEMBER);
    proof {
        let d = draft@;
        assert(bits == 42);
        assert(d.body =~= caller_body_view(bits, FunctionId(0)));
        lemma_caller_body_emittable(d, bits);
    }
    let slots = match emit_slots(builder, &draft) {
        Ok(slots) => slots,
        Err(_) => unreached(),
    };
    let ghost ready = builder_state(*builder);
    let mut env: Vec<Value> = Vec::new();
    match emit_body(builder, &draft, &mut env, &slots, &imports, pointer) {
        Ok(_) => {},
        Err(_) => {
            proof {
                let d = draft@;
                assert forall|k: int| 0 <= k < d.body.len() implies call_matches(
                    #[trigger] d.body[k],
                    imports@,
                    ready,
                ) by {
                    if k == 0 {
                    } else if k == 1 {
                    } else if k == 2 {
                    } else {
                        assert(k == 3);
                        assert(ready.imports[imports@[0]].results == 1);
                    }
                }
            }
            unreached()
        },
    }
    let result = env[2];
    proof {
        let d = draft@;
        let before = builder_state(*old(builder));
        let after = builder_state(*builder);
        let bits_p = module_pointer_bits(*old(module));
        assert(immediate(42) == 42);
        assert(handles(env@, argument_values(d.body[3]->Call_arguments)) =~= seq![env@[1]]);
        assert(handles(env@, d.body[3]->Call_results) =~= seq![env@[2]]);
        let emitted = emitted_body(d, 4, env@, slots@, imports@, type_bits(pointer));
        assert(emitted =~= seq![
            Emitted::Iconst { result: env@[0], bits: 32, imm: MEMBER as i64 },
            Emitted::StackStore { value: env@[0], slot: slots@[0], offset: 0 },
            Emitted::StackAddr { result: env@[1], bits: bits_p, slot: slots@[0], offset: 0 },
            Emitted::Call {
                function: imports@[0],
                arguments: seq![env@[1]],
                results: seq![env@[2]],
            },
        ]);
        let import = imports@[0];
        let slot = slots@[0];
        assert(imports@.contains(import));
        assert(slots@.contains(slot));
        assert(after.imports.dom().contains(import));
        assert(after.slots.dom().contains(slot));
        assert(after.imports =~= before.imports.insert(import, after.imports[import])) by {
            assert forall|f: FuncRef| #[trigger]
                after.imports.dom().contains(f) <==> before.imports.insert(
                    import,
                    after.imports[import],
                ).dom().contains(f) by {
                if imports@.contains(f) {
                    let a = choose|a: int| 0 <= a < imports@.len() && imports@[a] == f;
                    assert(a == 0);
                }
            }
        }
        assert(after.slots =~= before.slots.insert(slot, after.slots[slot])) by {
            assert forall|s: StackSlot| #[trigger]
                after.slots.dom().contains(s) <==> before.slots.insert(
                    slot,
                    after.slots[slot],
                ).dom().contains(s) by {
                if slots@.contains(s) {
                    let a = choose|a: int| 0 <= a < slots@.len() && slots@[a] == s;
                    assert(a == 0);
                }
            }
        }
        assert(after.slot_order =~= before.slot_order.push(slot));
        assert(after.import_order =~= before.import_order.push(import));
        let made = env@.skip(0);
        assert(made =~= env@);
        assert(made[0] == env@[0] && made[1] == env@[1] && made[2] == env@[2]);
        assert(after.values =~= before.values.insert(env@[0]).insert(env@[1]).insert(env@[2])) by {
            assert forall|v: Value| after.values.contains(v) <==> before.values.insert(
                env@[0],
            ).insert(env@[1]).insert(env@[2]).contains(v) by {
                if made.contains(v) {
                    let a = choose|a: int| 0 <= a < made.len() && made[a] == v;
                    assert(a == 0 || a == 1 || a == 2);
                }
                assert(made.contains(made[0]));
                assert(made.contains(made[1]));
                assert(made.contains(made[2]));
            }
        }
        assert(caller_body_emitted(
            before,
            after,
            foo,
            result,
            bits_p,
            env@[0],
            env@[1],
            slot,
            import,
        ));
    }
    result
}

/// Builds the caller in a context and declares it in the module as
/// `main`, for export, with the calling convention of the host. The
/// caller takes nothing, stores `MEMBER` in a struct in its frame, calls
/// `foo` with the address of the struct and returns what `foo` gives.
/// `foo` must be declared with one result. A module that has declared the
/// name `main` already is refused, and nothing is built; any other module
/// gets the caller.
pub fn create_main(module: &mut JITModule, context: &mut Context, foo: FuncId) -> (r: Result<
    FuncId,
    BuildError,
>)
    requires
        module_functions(*old(module)).dom().contains(foo),
        module_functions(*old(module))[foo].results.len() == 1,
    ensures
        module_pointer_bits(*final(module)) == module_pointer_bits(*old(module)),
        module_call_conv(*final(module)) == module_call_conv(*old(module)),
        r is Ok <==> !module_names(*old(module)).contains("main"@),
        match r {
            Ok(id) => {
                &&& id != foo
                &&& module_functions(*final(module))[foo] == module_functions(*old(module))[foo]
                &&& declared_more(
                    *old(module),
                    *final(module),
                    id,
                    "main"@,
                    caller_declaration(*old(module)),
                )
                &&& holds(
                    context_function(*final(context)),
                    caller_view(bits_of_i32(MEMBER), FunctionId(0), module_call_conv(*old(module))),
                    seq![foo],
                    "main"@,
                    module_pointer_bits(*old(module)),
                )
            },
            Err(e) => {
                &&& e == BuildError::Declaration
                &&& declares_same(*old(module), *final(module))
                &&& *final(context) == *old(context)
            },
        },
{
    if is_declared(module, "main") {
        return Err(BuildError::Declaration);
    }
    let call_conv = match host_call_conv(module) {
        Some(c) => c,
        None => unreached(),
    };
    let signature = caller_signature(call_conv);
    let mut builder_context = new_builder_context();
    let (mut builder, entry) = open_function(
        module,
        context,
        &mut builder_context,
        "main",
        &signature,
    );
    let ghost opened = builder_state(builder);
    let value = generate_main_body(module, &mut builder, foo);
    let ghost called = builder_state(builder);
    let mut values: Vec<Value> = Vec::new();
    values.push(value);
    ins_return(&mut builder, &values);
    let ghost outcome = builder_outcome(builder);
    let ghost closed = builder_state(builder);
    let _ = close_function(builder);
    proof {
        let pointer_bits = module_pointer_bits(*old(module));
        let (member, address, slot, import) = choose|
            member: Value,
            address: Value,
            slot: StackSlot,
            import: FuncRef,
        |
            caller_body_emitted(
                opened,
                called,
                foo,
                value,
                pointer_bits,
                member,
                address,
                slot,
                import,
            );
        assert(values@ =~= seq![value]);
        lemma_caller_built(
            context_function(*context),
            outcome,
            opened,
            called,
            closed,
            entry,
            foo,
            call_conv,
            pointer_bits,
            value,
            member,
            address,
            slot,
            import,
        );
    }
    match declare(module, "main", &signature) {
        Ok(id) => Ok(id),
        Err(_) => unreached(),
    }
}

/// Builds the callee in one context and the caller in the other, and
/// declares both in the module. The functions are returned, the callee
/// first; each context holds its function for Cranelift to compile. A
/// module that has declared one of the names already is refused, and
/// nothing is built; any other module gets both functions.
pub fn build_pair(module: &mut JITModule, callee_context: &mut Context, caller_context: &mut Context) -> (r:
    Result<(FuncId, FuncId), BuildError>)
    ensures
        module_pointer_bits(*final(module)) == module_pointer_bits(*old(module)),
        module_call_conv(*final(module)) == module_call_conv(*old(module)),
        r is Ok <==> (!module_names(*old(module)).contains("foo"@) && !module_names(
            *old(module),
        ).contains("main"@)),
        match r {
            Ok((foo, main)) => {
                &&& foo != main
                &&& !module_functions(*old(module)).dom().contains(foo)
                &&& !module_functions(*old(module)).dom().contains(main)
                &&& module_functions(*final(module)) == module_functions(*old(module)).insert(
                    foo,
                    callee_declaration(*old(module)),
                ).insert(main, caller_declaration(*old(module)))
                &&& module_names(*final(module)) == module_names(*old(module)).insert(
                    "foo"@,
                ).insert("main"@)
                &&& module_exported(*final(module)) == module_exported(*old(module)).insert(
                    foo,
                ).insert(main)
                &&& holds(
                    context_function(*final(callee_context)),
                    callee_view(module_call_conv(*old(module))),
                    Seq::<FuncId>::empty(),
                    "foo"@,
                    module_pointer_bits(*old(module)),
                )
                &&& holds(
                    context_function(*final(caller_context)),
                    caller_view(
                        bits_of_i32(MEMBER),
                        FunctionId(0),
                        module_call_conv(*old(module)),
                    ),
                    seq![foo],
                    "main"@,
                    module_pointer_bits(*old(module)),
                )
            },
            Err(e) => {
                &&& e == BuildError::Declaration
                &&& declares_same(*old(module), *final(module))
                &&& *final(callee_context) == *old(callee_context)
                &&& *final(caller_context) == *old(caller_context)
            },
        },
{
    if is_declared(module, "foo") || is_declared(module, "main") {
        return Err(BuildError::Declaration);
    }
    proof {
        reveal_strlit("foo");
        reveal_strlit("main");
        assert("foo"@.len() != "main"@.len());
    }
    let foo = match create_foo(module, callee_context) {
        Ok(id) => id,
        Err(_) => unreached(),
    };
    proof {
        assert(callee_declaration(*old(module)).results.len() == 1);
        assert(module_names(*module) =~= module_names(*old(module)).insert("foo"@));
        assert(!module_names(*module).contains("main"@));
    }
    let main = match create_main(module, caller_context, foo) {
        Ok(id) => id,
        Err(_) => unreached(),
    };
    Ok((foo, main))
}

} // verus!
