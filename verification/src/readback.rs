//! Reading back what Cranelift holds for a function, and holding it
//! against the function that was lowered.

use vstd::prelude::*;
use vstd::arithmetic::power2::{lemma_pow2_strictly_increases, pow2};
use cranelift::codegen::ir::{Block, FuncRef, StackSlot, Type, Value};
use cranelift::codegen::Context;
use cranelift_module::FuncId;
use crate::backend::{
    bits_of_type, built_blocks, built_call, built_iconst, built_imports, built_inst_count,
    built, built_load, built_params, built_return, built_slots, built_stack_addr,
    built_stack_store, context_function, function_number, number_of_function, same_import,
    same_slot, same_value, type_bits, BuilderState, FunctionView,
};
use crate::emit::{
    all_encodable, bound_params, definable, emitted_body, emitted_for, encodable, handles,
    immediate_of, is_definable, lemma_defined_grows, lemma_emitted_stable, lower_class, lowered,
    lowered_param, slots_created,
};
use crate::eval::argument_values;
use crate::ir::{fresh_values, CallArgument, DraftView, FunctionDraft, Inst, InstView, ValueId};
use crate::layout::align_shift;
use crate::program::{argument_value, defined_before, defines, scoped, well_scoped};

verus! {

/// The handles under which Cranelift holds a function: its block, and
/// the handle of each value, stack slot and import.
pub struct Handles {
    pub entry: Block,
    pub values: Vec<Value>,
    pub slots: Vec<StackSlot>,
    pub imports: Vec<FuncRef>,
}

/// Whether what Cranelift holds is the function `draft` under the given
/// handles: one block; one parameter of the block for each parameter of
/// the signature, of its type; the stack slots of the function, each of
/// its size and alignment; one import for each of `functions`; and the
/// instructions of the function, in order, and no other.
pub open spec fn built_as(
    view: FunctionView,
    draft: DraftView,
    functions: Seq<FuncId>,
    pointer_bits: int,
    entry: Block,
    env: Seq<Value>,
    slots: Seq<StackSlot>,
    imports: Seq<FuncRef>,
) -> bool {
    &&& view.blocks == seq![entry]
    &&& env.len() == defined_before(draft, draft.body.len() as int)
    &&& view.params == bound_params(draft.signature, env, pointer_bits)
    &&& slots_read(view, draft, slots)
    &&& imports_read(view, functions, imports)
    &&& view.insts == emitted_body(
        draft,
        draft.body.len() as int,
        env,
        slots,
        imports,
        pointer_bits,
    )
}

/// Whether the stack slots that Cranelift holds are those of `draft`.
pub open spec fn slots_read(view: FunctionView, draft: DraftView, slots: Seq<StackSlot>) -> bool {
    &&& slots.len() == draft.slots.len()
    &&& view.slots.len() == draft.slots.len()
    &&& forall|i: int|
        0 <= i < slots.len() ==> {
            &&& (#[trigger] view.slots[i]).0 == slots[i]
            &&& view.slots[i].1.explicit
            &&& view.slots[i].1.size == draft.slots[i].size
            &&& pow2(view.slots[i].1.align_shift as nat) == draft.slots[i].align
        }
}

/// Whether the imports that Cranelift holds are `functions`, in order.
pub open spec fn imports_read(view: FunctionView, functions: Seq<FuncId>, imports: Seq<FuncRef>) -> bool {
    &&& imports.len() == functions.len()
    &&& view.imports.len() == functions.len()
    &&& forall|i: int|
        0 <= i < imports.len() ==> #[trigger] view.imports[i] == (
            imports[i],
            Some((0u32, function_number(functions[i]))),
        )
}

/// Whether what Cranelift holds is the function `draft`, named `name`,
/// which calls `functions`.
pub open spec fn holds(
    view: FunctionView,
    draft: DraftView,
    functions: Seq<FuncId>,
    name: Seq<char>,
    pointer_bits: int,
) -> bool {
    &&& view.name == name
    &&& view.signature == lowered(draft.signature, pointer_bits)
    &&& readable(view, draft, functions, pointer_bits)
}

/// Whether what Cranelift holds is the function `draft` under some
/// handles.
pub open spec fn readable(
    view: FunctionView,
    draft: DraftView,
    functions: Seq<FuncId>,
    pointer_bits: int,
) -> bool {
    exists|entry: Block, env: Seq<Value>, slots: Seq<StackSlot>, imports: Seq<FuncRef>|
        #[trigger] built_as(view, draft, functions, pointer_bits, entry, env, slots, imports)
}

/// Whether two functions differ in name and signature at most.
pub open spec fn same_body(view: FunctionView, outcome: FunctionView) -> bool {
    view == (FunctionView { name: view.name, signature: view.signature, ..outcome })
}

/// What a builder builds is the function that was handed to it: where
/// the builder has the block, the parameters, the stack slots, the imports
/// and the instructions of `draft` under the given handles, what it has
/// built is `draft` under those handles, whatever its name and signature.
pub proof fn lemma_built_as(
    view: FunctionView,
    outcome: FunctionView,
    state: BuilderState,
    draft: DraftView,
    functions: Seq<FuncId>,
    pointer_bits: int,
    entry: Block,
    given: Seq<Value>,
    env: Seq<Value>,
    slots: Seq<StackSlot>,
    imports: Seq<FuncRef>,
)
    requires
        built(outcome, state),
        same_body(view, outcome),
        draft.body.len() > 0,
        state.entry == Some(entry),
        given.len() == draft.signature.params.len(),
        given.len() <= env.len(),
        env.take(given.len() as int) == given,
        env.len() == defined_before(draft, draft.body.len() as int),
        state.params == bound_params(draft.signature, given, pointer_bits),
        state.insts == emitted_body(
            draft,
            draft.body.len() as int,
            env,
            slots,
            imports,
            pointer_bits,
        ),
        state.slot_order == slots,
        slots_created(state, slots, draft.slots),
        state.import_order == imports,
        imports.len() == functions.len(),
        forall|i: int|
            0 <= i < imports.len() ==> (#[trigger] state.imports[imports[i]]).function
                == functions[i],
    ensures
        built_as(view, draft, functions, pointer_bits, entry, env, slots, imports),
{
    assert(view.params =~= bound_params(draft.signature, env, pointer_bits)) by {
        assert forall|i: int| 0 <= i < given.len() implies given[i] == env[i] by {
            assert(env.take(given.len() as int)[i] == env[i]);
        }
    }
    assert(slots_read(view, draft, slots));
    assert(imports_read(view, functions, imports));
}

/// The handles under which a function is read, where it can be read.
pub open spec fn witness(
    view: FunctionView,
    draft: DraftView,
    functions: Seq<FuncId>,
    pointer_bits: int,
) -> (Block, Seq<Value>, Seq<StackSlot>, Seq<FuncRef>) {
    choose|entry: Block, env: Seq<Value>, slots: Seq<StackSlot>, imports: Seq<FuncRef>|
        #[trigger] built_as(view, draft, functions, pointer_bits, entry, env, slots, imports)
}

/// Where a function can be read, it is read under the handles of
/// `witness`.
pub proof fn lemma_witness(
    view: FunctionView,
    draft: DraftView,
    functions: Seq<FuncId>,
    pointer_bits: int,
)
    requires
        readable(view, draft, functions, pointer_bits),
    ensures
        ({
            let w = witness(view, draft, functions, pointer_bits);
            built_as(view, draft, functions, pointer_bits, w.0, w.1, w.2, w.3)
        }),
{
}

/// Whether `all` are handles under which the instructions that Cranelift
/// holds are those of `draft`, and begin with the handles `given`.
pub open spec fn insts_read(
    view: FunctionView,
    draft: DraftView,
    all: Seq<Value>,
    given: Seq<Value>,
    slots: Seq<StackSlot>,
    imports: Seq<FuncRef>,
    pointer_bits: int,
) -> bool {
    &&& all.len() == defined_before(draft, draft.body.len() as int)
    &&& all.len() >= given.len()
    &&& all.take(given.len() as int) == given
    &&& view.insts == emitted_body(
        draft,
        draft.body.len() as int,
        all,
        slots,
        imports,
        pointer_bits,
    )
}

/// Reads the instructions that Cranelift holds and holds each against the
/// instruction of `draft` at its place. The handles of the values that the
/// instructions define are added to `env`.
fn read_insts(
    context: &Context,
    draft: &FunctionDraft,
    env: &mut Vec<Value>,
    slots: &Vec<StackSlot>,
    imports: &Vec<FuncRef>,
    pointer: Type,
) -> (r: bool)
    requires
        well_scoped(draft@, imports@.len()),
        all_encodable(draft@.body),
        old(env)@.len() == draft@.params.len(),
        slots@.len() == draft@.slots.len(),
    ensures
        r ==> insts_read(
            context_function(*context),
            draft@,
            final(env)@,
            old(env)@,
            slots@,
            imports@,
            type_bits(pointer),
        ),
        !r ==> forall|all: Seq<Value>|
            !#[trigger] insts_read(
                context_function(*context),
                draft@,
                all,
                old(env)@,
                slots@,
                imports@,
                type_bits(pointer),
            ),
{
    let n = draft.len();
    let ghost view = context_function(*context);
    let ghost bits = type_bits(pointer);
    let ghost given = env@;
    if built_inst_count(context) != n {
        return false;
    }
    let pointer_bits = bits_of_type(pointer);
    let mut k: usize = 0;
    proof {
        assert(env@.take(given.len() as int) =~= given);
    }
    while k < n
        invariant
            k <= n == draft@.body.len(),
            view == context_function(*context),
            view.insts.len() == n,
            given == old(env)@,
            bits == type_bits(pointer),
            pointer_bits == bits,
            well_scoped(draft@, imports@.len()),
            all_encodable(draft@.body),
            slots@.len() == draft@.slots.len(),
            given.len() == draft@.params.len(),
            env@.len() == defined_before(draft@, k as int),
            env@.len() >= given.len(),
            env@.take(given.len() as int) == given,
            forall|j: int|
                0 <= j < k ==> #[trigger] view.insts[j] == emitted_for(
                    draft@.body[j],
                    env@,
                    slots@,
                    imports@,
                    bits,
                ),
            forall|all: Seq<Value>| #[trigger]
                insts_read(view, draft@, all, given, slots@, imports@, bits) ==> all.len()
                    >= env@.len() && all.take(env@.len() as int) == env@,
        decreases n - k,
    {
        let ghost short = env@;
        proof {
            assert forall|all: Seq<Value>| #[trigger]
                insts_read(view, draft@, all, given, slots@, imports@, bits) implies view.insts[k as int]
                == emitted_for(draft@.body[k as int], all, slots@, imports@, bits) && (forall|
                i: int,
            | 0 <= i < short.len() ==> all[i] == short[i]) by {
                assert(emitted_body(draft@, n as int, all, slots@, imports@, bits)[k as int]
                    == emitted_for(draft@.body[k as int], all, slots@, imports@, bits));
                assert forall|i: int| 0 <= i < short.len() implies all[i] == short[i] by {
                    assert(all.take(short.len() as int)[i] == all[i]);
                }
            }
        }
        proof {
            assert(scoped(
                draft@.body[k as int],
                defined_before(draft@, k as int),
                draft@.slots.len(),
                imports@.len(),
            ));
            assert(encodable(draft@.body[k as int]));
            lemma_defined_grows(draft@, 0, k as int);
        }
        let inst = draft.inst(k);
        let ok = match inst {
            Inst::Iconst { result, ty, bits } => {
                match built_iconst(context, k) {
                    Some((handle, width, imm)) => {
                        if width == ty.bits() as u32 && imm == immediate_of(*bits) {
                            env.push(handle);
                            true
                        } else {
                            false
                        }
                    },
                    None => false,
                }
            },
            Inst::StackStore { value, slot, offset } => {
                match built_stack_store(context, k) {
                    Some((handle, place, at)) => same_value(handle, env[value.0 as usize])
                        && same_slot(place, slots[slot.0 as usize]) && at == *offset as i32,
                    None => false,
                }
            },
            Inst::StackAddr { result, slot, offset } => {
                match built_stack_addr(context, k) {
                    Some((handle, width, place, at)) => {
                        if width == pointer_bits && same_slot(place, slots[slot.0 as usize]) && at
                            == *offset as i32 {
                            env.push(handle);
                            true
                        } else {
                            false
                        }
                    },
                    None => false,
                }
            },
            Inst::Load { result, ty, address, offset } => {
                match built_load(context, k) {
                    Some((handle, width, from, at, notrap, aligned)) => {
                        if width == ty.bits() as u32 && same_value(from, env[address.0 as usize])
                            && at == *offset as i32 && notrap && aligned {
                            env.push(handle);
                            true
                        } else {
                            false
                        }
                    },
                    None => false,
                }
            },
            Inst::Call { callee, arguments, results } => {
                assert(inst@ == InstView::Call {
                    callee: *callee,
                    arguments: arguments@,
                    results: results@,
                });
                match built_call(context, k) {
                    Some((function, passed, given_back)) => {
                        if same_import(function, imports[callee.0 as usize]) && arguments_read(
                            env,
                            arguments,
                            &passed,
                        ) && given_back.len() == results.len() {
                            let mut i: usize = 0;
                            while i < given_back.len()
                                invariant
                                    i <= given_back@.len(),
                                    env@ == short + given_back@.take(i as int),
                                decreases given_back.len() - i,
                            {
                                env.push(given_back[i]);
                                i += 1;
                                proof {
                                    assert(env@ =~= short + given_back@.take(i as int));
                                }
                            }
                            proof {
                                assert(given_back@.take(given_back@.len() as int) =~= given_back@);
                                assert(handles(env@, argument_values(arguments@)) =~= passed@);
                                assert(handles(env@, results@) =~= given_back@) by {
                                    assert forall|j: int| 0 <= j < results@.len() implies env@[results@[j].0 as int]
                                        == given_back@[j] by {
                                        assert(results@[j] == fresh_values(
                                            short.len() as int,
                                            results@.len() as int,
                                        )[j]);
                                    }
                                }
                            }
                            true
                        } else {
                            false
                        }
                    },
                    None => false,
                }
            },
            Inst::Return { values } => {
                assert(inst@ == InstView::Return { values: values@ });
                match built_return(context, k) {
                    Some(returned) => {
                        let ok = values_read(env, values, &returned);
                        proof {
                            if ok {
                                assert(handles(env@, values@) =~= returned@);
                            }
                        }
                        ok
                    },
                    None => false,
                }
            },
        };
        proof {
            assert forall|all: Seq<Value>| #[trigger]
                insts_read(view, draft@, all, given, slots@, imports@, bits) implies ok
                && all.len() >= env@.len() && all.take(env@.len() as int) =~= env@ by {
                let e = emitted_for(draft@.body[k as int], all, slots@, imports@, bits);
                assert(view.insts[k as int] == e);
                lemma_defined_grows(draft@, k as int + 1, n as int);
                assert(all.len() >= short.len() + defines(draft@.body[k as int]));
                match draft@.body[k as int] {
                    InstView::Call { callee, arguments, results } => {
                        assert(e->Call_arguments == handles(all, argument_values(arguments)));
                        assert(e->Call_results == handles(all, results));
                        assert forall|j: int| 0 <= j < arguments.len() implies handles(
                            all,
                            argument_values(arguments),
                        )[j] == short[argument_value(arguments[j]).0 as int] by {
                            assert(argument_value(arguments[j]).0 < short.len());
                        }
                        assert(handles(all, argument_values(arguments)) =~= handles(
                            short,
                            argument_values(arguments),
                        ));
                        assert forall|j: int| 0 <= j < results.len() implies handles(all, results)[j]
                            == all[short.len() + j] by {
                            assert(results[j] == fresh_values(
                                short.len() as int,
                                results.len() as int,
                            )[j]);
                        }
                    },
                    InstView::Return { values } => {
                        assert(e->Return_values == handles(all, values));
                        assert forall|j: int| 0 <= j < values.len() implies handles(all, values)[j]
                            == short[values[j].0 as int] by {
                            assert(values[j].0 < short.len());
                        }
                        assert(handles(all, values) =~= handles(short, values));
                    },
                    _ => {},
                }
            }
        }
        if !ok {
            return false;
        }
        proof {
            let long = env@;
            assert(long.len() >= short.len());
            assert(long.take(short.len() as int) =~= short);
            assert(long.take(given.len() as int) =~= given) by {
                assert forall|i: int| 0 <= i < given.len() implies long[i] == given[i] by {
                    assert(long.take(short.len() as int)[i] == long[i]);
                    assert(short.take(given.len() as int)[i] == short[i]);
                }
            }
            assert forall|j: int| 0 <= j < k implies #[trigger] view.insts[j] == emitted_for(
                draft@.body[j],
                long,
                slots@,
                imports@,
                bits,
            ) by {
                lemma_defined_grows(draft@, j + 1, k as int);
                assert(scoped(
                    draft@.body[j],
                    defined_before(draft@, j),
                    draft@.slots.len(),
                    imports@.len(),
                ));
                lemma_emitted_stable(
                    draft@.body[j],
                    defined_before(draft@, j),
                    draft@.slots.len(),
                    imports@.len(),
                    short,
                    long,
                    slots@,
                    imports@,
                    bits,
                );
            }
        }
        k += 1;
    }
    proof {
        assert(view.insts =~= emitted_body(draft@, n as int, env@, slots@, imports@, bits));
    }
    true
}

/// Whether `passed` are the handles of the values that `arguments` name.
fn arguments_read(env: &Vec<Value>, arguments: &Vec<CallArgument>, passed: &Vec<Value>) -> (r: bool)
    requires
        crate::program::arguments_defined(arguments@, env@.len()),
    ensures
        r == (passed@ == handles(env@, argument_values(arguments@))),
{
    if passed.len() != arguments.len() {
        return false;
    }
    let mut i: usize = 0;
    while i < arguments.len()
        invariant
            i <= arguments@.len() == passed@.len(),
            crate::program::arguments_defined(arguments@, env@.len()),
            forall|j: int|
                0 <= j < i ==> #[trigger] passed@[j] == env@[argument_value(arguments@[j]).0 as int],
        decreases arguments.len() - i,
    {
        let v = match arguments[i] {
            CallArgument::Plain(v) => v,
            CallArgument::StructPointer { address, .. } => address,
        };
        assert(argument_value(arguments@[i as int]).0 < env@.len());
        if !same_value(passed[i], env[v.0 as usize]) {
            assert(handles(env@, argument_values(arguments@))[i as int] != passed@[i as int]);
            return false;
        }
        i += 1;
    }
    proof {
        assert(passed@ =~= handles(env@, argument_values(arguments@)));
    }
    true
}

/// Whether `read` are the handles of `values`.
fn values_read(env: &Vec<Value>, values: &Vec<ValueId>, read: &Vec<Value>) -> (r: bool)
    requires
        crate::program::values_defined(values@, env@.len()),
    ensures
        r == (read@ == handles(env@, values@)),
{
    if read.len() != values.len() {
        return false;
    }
    let mut i: usize = 0;
    while i < values.len()
        invariant
            i <= values@.len() == read@.len(),
            crate::program::values_defined(values@, env@.len()),
            forall|j: int| 0 <= j < i ==> #[trigger] read@[j] == env@[values@[j].0 as int],
        decreases values.len() - i,
    {
        assert(values@[i as int].0 < env@.len());
        if !same_value(read[i], env[values[i].0 as usize]) {
            assert(handles(env@, values@)[i as int] != read@[i as int]);
            return false;
        }
        i += 1;
    }
    proof {
        assert(read@ =~= handles(env@, values@));
    }
    true
}

/// Reads back the function that a context holds and holds it against
/// `draft`: its block, the parameters of the block, its stack slots, its
/// imports against `functions`, and its instructions. Where `draft` can
/// be built and all is as `draft` has it, the handles under which
/// Cranelift holds it are returned.
pub fn read_back(context: &Context, draft: &FunctionDraft, functions: &Vec<FuncId>, pointer: Type) -> (r:
    Option<Handles>)
    ensures
        r is Some <==> (definable(draft@, functions@.len()) && readable(
            context_function(*context),
            draft@,
            functions@,
            type_bits(pointer),
        )),
        r matches Some(h) ==> built_as(
            context_function(*context),
            draft@,
            functions@,
            type_bits(pointer),
            h.entry,
            h.values@,
            h.slots@,
            h.imports@,
        ),
{
    if !is_definable(draft, functions.len()) {
        return None;
    }
    let ghost view = context_function(*context);
    let ghost bits = type_bits(pointer);
    let ghost told = witness(view, draft@, functions@, bits);
    proof {
        if readable(view, draft@, functions@, bits) {
            lemma_witness(view, draft@, functions@, bits);
            lemma_defined_grows(draft@, 0, draft@.body.len() as int);
        }
    }
    let blocks = built_blocks(context);
    if blocks.len() != 1 {
        return None;
    }
    let entry = blocks[0];
    proof {
        assert(view.blocks =~= seq![entry]);
    }
    let signature = draft.signature();
    let params = built_params(context);
    let count = signature.param_count();
    if params.len() != count {
        return None;
    }
    let mut env: Vec<Value> = Vec::new();
    let mut p: usize = 0;
    while p < count
        invariant
            p <= count == signature@.params.len(),
            params@.len() == count,
            view == context_function(*context),
            view.params.len() == count,
            bits == type_bits(pointer),
            readable(view, draft@, functions@, bits) ==> view.params == bound_params(
                signature@,
                told.1,
                bits,
            ),
            env@.len() == p,
            forall|i: int| 0 <= i < params@.len() ==> (#[trigger] params@[i]).0 == view.params[i].0
                && params@[i].1 == view.params[i].1,
            forall|i: int|
                0 <= i < p ==> #[trigger] view.params[i] == (
                    env@[i],
                    lowered_param(signature@.params[i], bits).bits,
                ),
        decreases count - p,
    {
        let wanted = bits_of_type(lower_class(signature.param(p), pointer));
        let ghost before = env@;
        assert(params@[p as int].0 == view.params[p as int].0);
        if params[p].1 != wanted {
            proof {
                if readable(view, draft@, functions@, bits) {
                    assert(view.params[p as int] == bound_params(signature@, told.1, bits)[p as int]);
                }
            }
            return None;
        }
        env.push(params[p].0);
        p += 1;
    }
    let ghost bound = env@;

    let read_slots = built_slots(context);
    let slot_count = draft.slot_count();
    if read_slots.len() != slot_count {
        return None;
    }
    let mut slots: Vec<StackSlot> = Vec::new();
    let mut s: usize = 0;
    while s < slot_count
        invariant
            s <= slot_count == draft@.slots.len(),
            read_slots@.len() == slot_count,
            view == context_function(*context),
            view.slots.len() == slot_count,
            crate::emit::slots_aligned(draft@.slots),
            bits == type_bits(pointer),
            readable(view, draft@, functions@, bits) ==> slots_read(view, draft@, told.2),
            slots@.len() == s,
            forall|i: int|
                0 <= i < read_slots@.len() ==> view.slots[i] == ((#[trigger] read_slots@[i]).0, crate::backend::SlotData {
                    explicit: read_slots@[i].1,
                    size: read_slots@[i].2,
                    align_shift: read_slots@[i].3,
                }),
            forall|i: int|
                0 <= i < s ==> {
                    &&& (#[trigger] view.slots[i]).0 == slots@[i]
                    &&& view.slots[i].1.explicit
                    &&& view.slots[i].1.size == draft@.slots[i].size
                    &&& pow2(view.slots[i].1.align_shift as nat) == draft@.slots[i].align
                },
        decreases slot_count - s,
    {
        let wanted = draft.slot(s);
        let read = read_slots[s];
        assert(view.slots[s as int] == (read.0, crate::backend::SlotData {
            explicit: read.1,
            size: read.2,
            align_shift: read.3,
        }));
        let shift = match align_shift(wanted.align) {
            Some(shift) => shift,
            None => {
                return None;
            },
        };
        if !read.1 || read.2 != wanted.size || read.3 != shift {
            proof {
                if readable(view, draft@, functions@, bits) {
                    let held = view.slots[s as int].1.align_shift as nat;
                    assert(view.slots[s as int].0 == told.2[s as int]);
                    let wide = shift as nat;
                    if held < wide {
                        lemma_pow2_strictly_increases(held, wide);
                    } else {
                        lemma_pow2_strictly_increases(wide, held);
                    }
                }
            }
            return None;
        }
        let ghost before = slots@;
        slots.push(read.0);
        s += 1;
    }

    let read_imports = built_imports(context);
    if read_imports.len() != functions.len() {
        return None;
    }
    let mut imports: Vec<FuncRef> = Vec::new();
    let mut f: usize = 0;
    while f < functions.len()
        invariant
            f <= functions@.len() == read_imports@.len(),
            view == context_function(*context),
            read_imports@ == view.imports,
            bits == type_bits(pointer),
            readable(view, draft@, functions@, bits) ==> imports_read(view, functions@, told.3),
            imports@.len() == f,
            forall|i: int|
                0 <= i < f ==> #[trigger] view.imports[i] == (
                    imports@[i],
                    Some((0u32, function_number(functions@[i]))),
                ),
        decreases functions.len() - f,
    {
        let read = read_imports[f];
        let named = match read.1 {
            Some((namespace, index)) => namespace == 0 && index == number_of_function(
                functions[f],
            ),
            None => false,
        };
        if !named {
            proof {
                if readable(view, draft@, functions@, bits) {
                    assert(view.imports[f as int] == (
                        told.3[f as int],
                        Some((0u32, function_number(functions@[f as int]))),
                    ));
                }
            }
            return None;
        }
        imports.push(read.0);
        f += 1;
    }

    if !read_insts(context, draft, &mut env, &slots, &imports, pointer) {
        proof {
            if readable(view, draft@, functions@, bits) {
                let all = told.1;
                assert(told.2 =~= slots@) by {
                    assert forall|i: int| 0 <= i < slots@.len() implies told.2[i] == slots@[i] by {
                        assert(view.slots[i].0 == told.2[i]);
                    }
                }
                assert(told.3 =~= imports@) by {
                    assert forall|i: int| 0 <= i < imports@.len() implies told.3[i] == imports@[i] by {
                        assert(view.imports[i] == (
                            told.3[i],
                            Some((0u32, function_number(functions@[i]))),
                        ));
                    }
                }
                assert(all.take(bound.len() as int) =~= bound) by {
                    assert forall|i: int| 0 <= i < bound.len() implies all[i] == bound[i] by {
                        assert(view.params[i] == bound_params(signature@, all, bits)[i]);
                    }
                }
                assert(insts_read(view, draft@, all, bound, slots@, imports@, bits));
            }
        }
        return None;
    }
    proof {
        let all = env@;
        assert(all.take(bound.len() as int) == bound);
        assert(view.params =~= bound_params(draft@.signature, all, bits)) by {
            assert forall|i: int| 0 <= i < count implies view.params[i] == bound_params(
                draft@.signature,
                all,
                bits,
            )[i] by {
                assert(all.take(bound.len() as int)[i] == all[i]);
            }
        }
    }
    proof {
        assert(built_as(view, draft@, functions@, bits, entry, env@, slots@, imports@));
    }
    Some(Handles { entry, values: env, slots, imports })
}

} // verus!
