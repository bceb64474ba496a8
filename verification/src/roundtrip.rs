//! A struct of one 32-bit field, passed by pointer and read back: the
//! callee, the caller and the program of both.

use vstd::prelude::*;
use vstd::pervasive::unreached;
use crate::eval::{
    accepts, all_agree, argument_values, encode, fits, gather, invoke_spec, lemma_decode_encode,
    lemma_read_after_write, overwrite, run_body, run_function, step, typed, zeroed, EvalError,
    Word,
};
use crate::ir::{
    fresh_values, BuildState, CallArgument, DraftView, FrameSlot, FunctionDraft, FunctionId,
    InstView, SlotId, ValueId,
};
use crate::layout::{
    field_offset, fields_align, fields_end, layout, round_up, struct_size, ScalarType,
    StructLayout,
};
use crate::lower::{load_field, lower_call, materialize, passed};
use crate::program::{
    arguments_defined, defined_before, scoped, values_defined, well_formed, Program, ProgramView,
};
use crate::signature::{
    aggregate_padded_size, make_parameter_class, CallConv, CallSignature, CallSignatureModel,
    ParameterClass, ParameterType,
};

verus! {

/// The bits of a 32-bit integer, as an unsigned number below 2^32.
pub open spec fn bits_of_i32(v: i32) -> u64 {
    if v >= 0 {
        v as u64
    } else {
        (v + 0x1_0000_0000) as u64
    }
}

/// The bits of a 32-bit integer.
pub fn i32_bits(v: i32) -> (r: u64)
    ensures
        r == bits_of_i32(v),
        fits(ScalarType::I32, r),
{
    let r = (v as u32) as u64;
    assert(r == (if v >= 0 {
        v as u64
    } else {
        (v + 0x1_0000_0000) as u64
    }) && r <= 0xffff_ffff) by (bit_vector)
        requires
            r == (v as u32) as u64,
    ;
    r
}

/// The 32-bit integer of given bits, where they are below 2^32.
pub fn bits_i32(bits: u64) -> (r: Option<i32>)
    ensures
        r is Some <==> bits <= 0xffff_ffff,
        r matches Some(v) ==> bits_of_i32(v) == bits,
{
    if bits > 0xffff_ffff {
        return None;
    }
    let v = (bits as u32) as i32;
    assert((if v >= 0 {
        v as u64
    } else {
        (v + 0x1_0000_0000) as u64
    }) == bits) by (bit_vector)
        requires
            v == (bits as u32) as i32,
            bits <= 0xffff_ffff,
    ;
    Some(v)
}

/// The padded size of the struct: its four bytes take one granule.
pub const STRUCT_PADDED_SIZE: u32 = 16;

/// The signature of the callee: the struct by pointer, a 32-bit result.
pub open spec fn callee_signature_view(call_conv: CallConv) -> CallSignatureModel {
    CallSignatureModel {
        params: seq![ParameterClass::StructByPointer(STRUCT_PADDED_SIZE)],
        results: seq![ScalarType::I32],
        call_conv,
    }
}

/// The signature of the caller: nothing taken, a 32-bit result.
pub open spec fn caller_signature_view(call_conv: CallConv) -> CallSignatureModel {
    CallSignatureModel { params: seq![], results: seq![ScalarType::I32], call_conv }
}

/// The callee: it loads the field through the pointer and returns it.
pub open spec fn callee_view(call_conv: CallConv) -> DraftView {
    DraftView {
        signature: callee_signature_view(call_conv),
        state: BuildState::Sealed,
        params: seq![ValueId(0)],
        slots: seq![],
        body: seq![
            InstView::Load { result: ValueId(1), ty: ScalarType::I32, address: ValueId(0), offset: 0 },
            InstView::Return { values: seq![ValueId(1)] },
        ],
        values: 2,
    }
}

/// The caller: it materializes the struct with `bits` in its field, calls
/// `callee` with its address and returns what the call gives.
pub open spec fn caller_view(bits: u64, callee: FunctionId, call_conv: CallConv) -> DraftView {
    DraftView {
        signature: caller_signature_view(call_conv),
        state: BuildState::Sealed,
        params: seq![],
        slots: seq![FrameSlot { size: 4, align: 4 }],
        body: seq![
            InstView::Iconst { result: ValueId(0), ty: ScalarType::I32, bits },
            InstView::StackStore { value: ValueId(0), slot: SlotId(0), offset: 0 },
            InstView::StackAddr { result: ValueId(1), slot: SlotId(0), offset: 0 },
            InstView::Call {
                callee,
                arguments: seq![
                    CallArgument::StructPointer { address: ValueId(1), padded_size: STRUCT_PADDED_SIZE },
                ],
                results: seq![ValueId(2)],
            },
            InstView::Return { values: seq![ValueId(2)] },
        ],
        values: 3,
    }
}

/// The program of both, finalized: the callee is function 0 and the
/// caller function 1.
pub open spec fn program_view(bits: u64, call_conv: CallConv) -> ProgramView {
    ProgramView {
        functions: seq![
            DraftView { state: BuildState::Defined, ..callee_view(call_conv) },
            DraftView { state: BuildState::Defined, ..caller_view(bits, FunctionId(0), call_conv) },
        ],
        finalized: true,
    }
}

/// The layout of the struct: one 32-bit field at offset 0, four bytes,
/// aligned to four.
pub fn struct_layout() -> (r: StructLayout)
    ensures
        r.wf(),
        r.fields_spec() == seq![ScalarType::I32],
        r.offsets_spec() == seq![0u32],
        r.aggregate_spec().size_spec() == 4,
        r.aggregate_spec().align_spec() == 4,
{
    let mut fields: Vec<ScalarType> = Vec::new();
    fields.push(ScalarType::I32);
    proof {
        let f = fields@;
        assert(f =~= seq![ScalarType::I32]);
        assert(f[0] == ScalarType::I32);
        assert(f[0].bytes_spec() == 4);
        assert(fields_end(f, 0) == 0);
        assert(round_up(0, 4) == 0);
        assert(fields_end(f, 1) == round_up(fields_end(f, 0), 4) + 4);
        assert(fields_end(f, 1) == 4);
        assert(fields_align(f, 0) == 1);
        assert(fields_align(f, 1) == 4);
        assert(field_offset(f, 0) == 0);
        assert(f.len() == 1);
        assert(round_up(4, 4) == 4);
        assert(struct_size(f) == 4);
    }
    match layout(&fields) {
        Ok(l) => {
            proof {
                assert(l.offsets_spec()[0] == field_offset(l.fields_spec(), 0));
                assert(l.offsets_spec() =~= seq![0u32]);
            }
            l
        },
        Err(_) => unreached(),
    }
}

/// The signature of the callee.
pub fn callee_signature(call_conv: CallConv) -> (r: CallSignature)
    ensures
        r@ == callee_signature_view(call_conv),
{
    let aggregate = struct_layout().aggregate();
    proof {
        assert(aggregate_padded_size(4) == 16) by {
            assert(round_up(4, 16) == 16);
        }
    }
    let class = match make_parameter_class(ParameterType::Aggregate(aggregate)) {
        Ok(c) => c,
        Err(_) => unreached(),
    };
    let mut params: Vec<ParameterClass> = Vec::new();
    params.push(class);
    let mut results: Vec<ScalarType> = Vec::new();
    results.push(ScalarType::I32);
    let r = CallSignature::new(params, results, call_conv);
    proof {
        assert(r@.params =~= callee_signature_view(call_conv).params);
        assert(r@.results =~= callee_signature_view(call_conv).results);
    }
    r
}

/// The signature of the caller.
pub fn caller_signature(call_conv: CallConv) -> (r: CallSignature)
    ensures
        r@ == caller_signature_view(call_conv),
{
    let mut results: Vec<ScalarType> = Vec::new();
    results.push(ScalarType::I32);
    let r = CallSignature::new(Vec::new(), results, call_conv);
    proof {
        assert(r@.params =~= caller_signature_view(call_conv).params);
        assert(r@.results =~= caller_signature_view(call_conv).results);
    }
    r
}

/// Builds the callee.
pub fn callee_draft(call_conv: CallConv) -> (r: FunctionDraft)
    ensures
        r@ == callee_view(call_conv),
{
    let shape = struct_layout();
    let mut draft = FunctionDraft::declare(callee_signature(call_conv));
    let bound = match draft.lower_entry() {
        Ok(b) => b,
        Err(_) => unreached(),
    };
    let field = match load_field(&mut draft, &shape, bound[0], 0) {
        Ok(v) => v,
        Err(_) => unreached(),
    };
    let mut values: Vec<ValueId> = Vec::new();
    values.push(field);
    proof {
        assert(values@ =~= seq![ValueId(1)]);
    }
    match draft.ret(values) {
        Ok(_) => {},
        Err(_) => unreached(),
    }
    match draft.seal() {
        Ok(_) => {},
        Err(_) => unreached(),
    }
    proof {
        assert(draft@.params =~= callee_view(call_conv).params);
        assert(draft@.slots =~= callee_view(call_conv).slots);
        assert(draft@.body =~= callee_view(call_conv).body);
    }
    draft
}

/// Emits the body of the caller, up to the call, into an open function:
/// the constant, the struct that holds it, and the call of `callee` with
/// the address of the struct. What the call gives back is returned.
pub(crate) fn caller_body(draft: &mut FunctionDraft, bits: u64, callee: FunctionId, signature: &CallSignature) -> (r:
    ValueId)
    requires
        old(draft)@.open(),
        old(draft)@.values == 0,
        old(draft)@.slots.len() == 0,
        old(draft)@.body.len() == 0,
        signature@.params == seq![ParameterClass::StructByPointer(STRUCT_PADDED_SIZE)],
        signature@.results.len() == 1,
    ensures
        r == ValueId(2),
        final(draft)@ == (DraftView {
            slots: seq![FrameSlot { size: 4, align: 4 }],
            body: seq![
                InstView::Iconst { result: ValueId(0), ty: ScalarType::I32, bits },
                InstView::StackStore { value: ValueId(0), slot: SlotId(0), offset: 0 },
                InstView::StackAddr { result: ValueId(1), slot: SlotId(0), offset: 0 },
                InstView::Call {
                    callee,
                    arguments: seq![
                        CallArgument::StructPointer {
                            address: ValueId(1),
                            padded_size: STRUCT_PADDED_SIZE,
                        },
                    ],
                    results: seq![ValueId(2)],
                },
            ],
            values: 3,
            ..old(draft)@
        }),
{
    let shape = struct_layout();
    let member = match draft.iconst(ScalarType::I32, bits) {
        Ok(v) => v,
        Err(_) => unreached(),
    };
    let mut fields: Vec<ValueId> = Vec::new();
    fields.push(member);
    proof {
        assert(draft@.body.last() is Iconst);
    }
    let address = match materialize(draft, &shape, &fields) {
        Ok(a) => a,
        Err(_) => unreached(),
    };
    let mut arguments: Vec<ValueId> = Vec::new();
    arguments.push(address);
    proof {
        assert(draft@.body.last() is StackAddr);
    }
    let given = match lower_call(draft, callee, signature, &arguments) {
        Ok(g) => g,
        Err(_) => unreached(),
    };
    proof {
        assert(given@ =~= seq![ValueId(2)]);
        assert(passed(signature@.params, arguments@) =~= seq![
            CallArgument::StructPointer { address: ValueId(1), padded_size: STRUCT_PADDED_SIZE },
        ]);
        assert(draft@.slots =~= seq![FrameSlot { size: 4, align: 4 }]);
        assert(draft@.body =~= seq![
            InstView::Iconst { result: ValueId(0), ty: ScalarType::I32, bits },
            InstView::StackStore { value: ValueId(0), slot: SlotId(0), offset: 0 },
            InstView::StackAddr { result: ValueId(1), slot: SlotId(0), offset: 0 },
            InstView::Call {
                callee,
                arguments: seq![
                    CallArgument::StructPointer {
                        address: ValueId(1),
                        padded_size: STRUCT_PADDED_SIZE,
                    },
                ],
                results: seq![ValueId(2)],
            },
        ]);
    }
    given[0]
}

/// Builds the caller, which stores `value` in the struct and calls `callee`.
pub fn caller_draft(value: i32, callee: FunctionId, call_conv: CallConv) -> (r: FunctionDraft)
    ensures
        r@ == caller_view(bits_of_i32(value), callee, call_conv),
{
    let mut draft = FunctionDraft::declare(caller_signature(call_conv));
    match draft.lower_entry() {
        Ok(_) => {},
        Err(_) => unreached(),
    }
    let signature = callee_signature(call_conv);
    let result = caller_body(&mut draft, i32_bits(value), callee, &signature);
    let mut values: Vec<ValueId> = Vec::new();
    values.push(result);
    proof {
        assert(values@ =~= seq![ValueId(2)]);
        assert(draft@.body.last() is Call);
    }
    match draft.ret(values) {
        Ok(_) => {},
        Err(_) => unreached(),
    }
    match draft.seal() {
        Ok(_) => {},
        Err(_) => unreached(),
    }
    proof {
        let want = caller_view(bits_of_i32(value), callee, call_conv);
        assert(draft@.params =~= want.params);
        assert(draft@.body =~= want.body);
    }
    draft
}

/// The callee can be defined as function 0.
pub proof fn lemma_callee_well_formed(call_conv: CallConv)
    ensures
        well_formed(callee_view(call_conv), 0),
{
    let d = callee_view(call_conv);
    assert(d.params =~= fresh_values(0, 1));
    assert(defined_before(d, 0) == 1);
    assert(defined_before(d, 1) == 2);
    assert(values_defined(seq![ValueId(1)], 2));
    assert(d.body.last() == d.body[1]);
    assert forall|k: int| 0 <= k < d.body.len() implies #[trigger] scoped(
        d.body[k],
        defined_before(d, k),
        d.slots.len(),
        0,
    ) by {
        if k == 0 {
        } else {
            assert(k == 1);
        }
    }
}

/// The instructions of the caller up to the call, as `caller_body` emits
/// them.
pub open spec fn caller_body_view(bits: u64, callee: FunctionId) -> Seq<InstView> {
    seq![
        InstView::Iconst { result: ValueId(0), ty: ScalarType::I32, bits },
        InstView::StackStore { value: ValueId(0), slot: SlotId(0), offset: 0 },
        InstView::StackAddr { result: ValueId(1), slot: SlotId(0), offset: 0 },
        InstView::Call {
            callee,
            arguments: seq![
                CallArgument::StructPointer { address: ValueId(1), padded_size: STRUCT_PADDED_SIZE },
            ],
            results: seq![ValueId(2)],
        },
    ]
}

/// The instructions of the caller up to the call are scoped, in a
/// function without parameters and with one stack slot that begins with
/// them; they define three values.
pub proof fn lemma_caller_body_scoped(d: DraftView, bits: u64, callee: FunctionId, functions: nat)
    requires
        callee.0 < functions,
        d.params.len() == 0,
        d.slots.len() == 1,
        d.body.len() >= 4,
        forall|k: int| 0 <= k < 4 ==> #[trigger] d.body[k] == caller_body_view(bits, callee)[k],
    ensures
        defined_before(d, 4) == 3,
        forall|k: int|
            0 <= k < 4 ==> #[trigger] scoped(d.body[k], defined_before(d, k), 1, functions),
{
    let body = caller_body_view(bits, callee);
    assert(d.body[0] == body[0]);
    assert(d.body[1] == body[1]);
    assert(d.body[2] == body[2]);
    assert(d.body[3] == body[3]);
    assert(defined_before(d, 0) == 0);
    assert(defined_before(d, 1) == 1);
    assert(defined_before(d, 2) == 1);
    assert(defined_before(d, 3) == 2);
    assert(defined_before(d, 4) == 3);
    let arguments = seq![
        CallArgument::StructPointer { address: ValueId(1), padded_size: STRUCT_PADDED_SIZE },
    ];
    assert(arguments_defined(arguments, 2));
    assert(seq![ValueId(2)] =~= fresh_values(2, 1));
    assert forall|k: int| 0 <= k < 4 implies #[trigger] scoped(
        d.body[k],
        defined_before(d, k),
        1,
        functions,
    ) by {
        if k == 0 {
        } else if k == 1 {
        } else if k == 2 {
        } else {
            assert(k == 3);
        }
    }
}

/// The caller can be defined as any function after the callee.
pub proof fn lemma_caller_well_formed(bits: u64, callee: FunctionId, call_conv: CallConv, id: nat)
    requires
        callee.0 < id,
    ensures
        well_formed(caller_view(bits, callee, call_conv), id),
{
    let d = caller_view(bits, callee, call_conv);
    assert(d.params =~= fresh_values(0, 0));
    lemma_caller_body_scoped(d, bits, callee, id);
    assert(values_defined(seq![ValueId(2)], 3));
    assert(d.body.last() == d.body[4]);
    assert forall|k: int| 0 <= k < d.body.len() implies #[trigger] scoped(
        d.body[k],
        defined_before(d, k),
        d.slots.len(),
        id,
    ) by {
        if k < 4 {
        } else {
            assert(k == 4);
        }
    }
}

/// Builds the program of both functions and finalizes it: the callee is
/// function 0, and the caller, which stores `value`, is function 1.
pub fn build_program(value: i32, call_conv: CallConv) -> (r: Program)
    ensures
        built_for(r@, value, call_conv),
{
    let mut program = Program::new();
    let foo = match program.declare(callee_signature(call_conv)) {
        Ok(id) => id,
        Err(_) => unreached(),
    };
    proof {
        lemma_callee_well_formed(call_conv);
    }
    match program.define(foo, callee_draft(call_conv)) {
        Ok(_) => {},
        Err(_) => unreached(),
    }
    let main = match program.declare(caller_signature(call_conv)) {
        Ok(id) => id,
        Err(_) => unreached(),
    };
    proof {
        lemma_caller_well_formed(bits_of_i32(value), foo, call_conv, 1);
    }
    match program.define(main, caller_draft(value, foo, call_conv)) {
        Ok(_) => {},
        Err(_) => unreached(),
    }
    match program.finalize() {
        Ok(_) => {},
        Err(_) => unreached(),
    }
    proof {
        assert(program@.functions =~= program_view(bits_of_i32(value), call_conv).functions);
    }
    program
}

/// The round trip: the caller stores a 32-bit value in the struct and
/// passes the address of the struct under the struct-by-pointer class; the
/// callee reads the field through that address; and what the caller
/// returns is that value, whatever value it is.
pub proof fn lemma_round_trip(value: i32, call_conv: CallConv)
    ensures
        invoke_spec(program_view(bits_of_i32(value), call_conv), FunctionId(1), Seq::empty()) == Ok::<
            Seq<Word>,
            EvalError,
        >(seq![Word::Int { ty: ScalarType::I32, bits: bits_of_i32(value) }]),
{
    let bits = bits_of_i32(value);
    let p = program_view(bits, call_conv);
    let member = Word::Int { ty: ScalarType::I32, bits };
    let pointer = Word::Address { region: 0, offset: 0 };
    let blank = Seq::new(4, |j: int| 0u8);
    let stored = overwrite(blank, 0, encode(ScalarType::I32, bits));
    let memory0: Seq<Seq<u8>> = seq![blank];
    let memory1: Seq<Seq<u8>> = seq![stored];
    let empty_memory: Seq<Seq<u8>> = Seq::empty();
    let no_words: Seq<Word> = Seq::empty();
    let answer: Seq<Word> = seq![member];

    assert(fits(ScalarType::I32, bits));
    lemma_decode_encode(ScalarType::I32, bits);
    lemma_read_after_write(blank, 0, encode(ScalarType::I32, bits));

    // The callee, called with the address of the struct.
    let callee_env0: Seq<Word> = seq![pointer];
    let callee_env1: Seq<Word> = seq![pointer, member];
    assert(memory1 + zeroed(p.functions[0].slots) =~= memory1);
    assert(step(p.functions[0].body[0], callee_env0, memory1, 1, 0) == Ok::<
        (Seq<Word>, Seq<Seq<u8>>),
        EvalError,
    >((callee_env1, memory1))) by {
        assert(stored.subrange(0, 4) =~= encode(ScalarType::I32, bits));
        assert(callee_env0.push(member) =~= callee_env1);
    }
    assert(gather(callee_env1, seq![ValueId(1)]) == Some(answer)) by {
        assert(values_defined(seq![ValueId(1)], 2));
        assert(Seq::new(1, |i: int| callee_env1[seq![ValueId(1)][i].0 as int]) =~= answer);
    }
    assert(typed(answer, p.functions[0].signature.results));
    assert(run_body(p, 0, 1, callee_env1, memory1, 1) == Ok::<Seq<Word>, EvalError>(answer));
    assert(run_body(p, 0, 0, callee_env0, memory1, 1) == Ok::<Seq<Word>, EvalError>(answer));
    assert(accepts(p.functions[0].signature.params, callee_env0));
    assert(run_function(p, 0, callee_env0, memory1) == Ok::<Seq<Word>, EvalError>(answer));

    // The caller.
    let env1: Seq<Word> = seq![member];
    let env2: Seq<Word> = seq![member, pointer];
    let env3: Seq<Word> = seq![member, pointer, member];
    assert(gather(env3, seq![ValueId(2)]) == Some(answer)) by {
        assert(values_defined(seq![ValueId(2)], 3));
        assert(Seq::new(1, |i: int| env3[seq![ValueId(2)][i].0 as int]) =~= answer);
    }
    assert(typed(answer, p.functions[1].signature.results));
    assert(run_body(p, 1, 4, env3, memory1, 0) == Ok::<Seq<Word>, EvalError>(answer));

    let arguments = seq![
        CallArgument::StructPointer { address: ValueId(1), padded_size: STRUCT_PADDED_SIZE },
    ];
    assert(all_agree(p.functions[0].signature.params, arguments));
    assert(gather(env2, argument_values(arguments)) == Some(callee_env0)) by {
        assert(argument_values(arguments) =~= seq![ValueId(1)]);
        assert(values_defined(seq![ValueId(1)], 2));
        assert(Seq::new(1, |i: int| env2[seq![ValueId(1)][i].0 as int]) =~= callee_env0);
    }
    assert(seq![ValueId(2)] =~= fresh_values(2, 1));
    assert(env2 + answer =~= env3);
    assert(run_body(p, 1, 3, env2, memory1, 0) == Ok::<Seq<Word>, EvalError>(answer));

    assert(step(p.functions[1].body[2], env1, memory1, 0, 1) == Ok::<
        (Seq<Word>, Seq<Seq<u8>>),
        EvalError,
    >((env2, memory1))) by {
        assert(env1.push(pointer) =~= env2);
    }
    assert(run_body(p, 1, 2, env1, memory1, 0) == Ok::<Seq<Word>, EvalError>(answer));

    assert(step(p.functions[1].body[1], env1, memory0, 0, 1) == Ok::<
        (Seq<Word>, Seq<Seq<u8>>),
        EvalError,
    >((env1, memory1))) by {
        assert(memory0.update(0, stored) =~= memory1);
    }
    assert(run_body(p, 1, 1, env1, memory0, 0) == Ok::<Seq<Word>, EvalError>(answer));

    assert(step(p.functions[1].body[0], no_words, memory0, 0, 1) == Ok::<
        (Seq<Word>, Seq<Seq<u8>>),
        EvalError,
    >((env1, memory0))) by {
        assert(no_words.push(member) =~= env1);
    }
    assert(run_body(p, 1, 0, no_words, memory0, 0) == Ok::<Seq<Word>, EvalError>(answer));

    assert(empty_memory + zeroed(p.functions[1].slots) =~= memory0) by {
        assert(zeroed(p.functions[1].slots)[0] =~= blank);
    }
    assert(accepts(p.functions[1].signature.params, no_words));
    assert(run_function(p, 1, no_words, empty_memory) == Ok::<Seq<Word>, EvalError>(answer));
}

/// Whether a program is what `build_program` gives for a value and a
/// convention.
pub open spec fn built_for(program: ProgramView, value: i32, call_conv: CallConv) -> bool {
    program.wf() && program == program_view(bits_of_i32(value), call_conv)
}

/// Building twice gives the same: two results of `build_program` for the
/// same value and convention give identical results for every function and
/// every list of arguments, and the caller gives the value.
pub proof fn lemma_rebuild_identical(
    first: ProgramView,
    second: ProgramView,
    value: i32,
    call_conv: CallConv,
    f: FunctionId,
    arguments: Seq<Word>,
)
    requires
        built_for(first, value, call_conv),
        built_for(second, value, call_conv),
    ensures
        invoke_spec(first, f, arguments) == invoke_spec(second, f, arguments),
        invoke_spec(first, FunctionId(1), Seq::empty()) == Ok::<Seq<Word>, EvalError>(
            seq![Word::Int { ty: ScalarType::I32, bits: bits_of_i32(value) }],
        ),
{
    lemma_round_trip(value, call_conv);
}

} // verus!
