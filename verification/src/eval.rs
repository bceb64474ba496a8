//! What the instructions mean: a reference evaluator for programs.

use vstd::prelude::*;
use crate::ir::{
    fresh_values, BuildState, CallArgument, FrameSlot, FunctionId, Inst, InstView, SlotId,
    ValueId,
};
use crate::layout::{
    field_offset, fields_align, fields_end, lemma_fields_align, lemma_fields_disjoint,
    lemma_fields_end_grows, lemma_round_up, struct_size, ScalarType,
};
use crate::lower::store_insts;
use crate::program::{argument_value, values_defined, values_fresh, Program, ProgramView};
use crate::signature::{CallSignature, ParameterClass};

verus! {

/// What a value holds when a program runs.
#[derive(Clone, Copy, Debug, PartialEq, Eq, Structural)]
pub enum Word {
    /// An integer of type `ty`; `bits` has no bit set above its width.
    Int { ty: ScalarType, bits: u64 },
    /// The address of the byte at `offset` in the memory region `region`.
    Address { region: usize, offset: u32 },
}

/// Why a program could not be run to its end.
#[derive(Clone, Copy, Debug, PartialEq, Eq, Structural)]
pub enum EvalError {
    /// The program is not finalized.
    NotFinalized,
    /// The function is not defined.
    UnknownFunction,
    /// Arguments or results are not what a signature declares: their
    /// number, their kind or type, or the padded size of an aggregate.
    AbiMismatch,
    /// An instruction uses what is not defined, numbers its result out of
    /// order, or a block ends without `Return`.
    Malformed,
    /// An integer stands where an address is needed, or the reverse, or a
    /// constant does not fit its type.
    IllTyped,
    /// A load or store reaches outside its memory region.
    OutOfBounds,
}

/// Whether `bits` has no bit set above the width of `ty`.
pub open spec fn fits(ty: ScalarType, bits: u64) -> bool {
    match ty {
        ScalarType::I8 => bits <= 0xff,
        ScalarType::I16 => bits <= 0xffff,
        ScalarType::I32 => bits <= 0xffff_ffff,
        ScalarType::I64 => true,
    }
}

/// Byte `k` of `bits`, the lowest byte being byte 0.
pub open spec fn byte_of(bits: u64, k: u64) -> u8 {
    ((bits >> ((8 * k) as u64)) & 0xff) as u8
}

/// The bytes of a value of type `ty` in memory, lowest byte first.
pub open spec fn encode(ty: ScalarType, bits: u64) -> Seq<u8> {
    Seq::new(ty.bytes_spec(), |k: int| byte_of(bits, k as u64))
}

/// Byte `k` of a sequence, and zero past its end.
pub open spec fn byte_at(bytes: Seq<u8>, k: int) -> u64 {
    if 0 <= k < bytes.len() {
        bytes[k] as u64
    } else {
        0
    }
}

/// The value that up to eight bytes in memory stand for, lowest byte first.
pub open spec fn decode(bytes: Seq<u8>) -> u64 {
    byte_at(bytes, 0) | (byte_at(bytes, 1) << 8) | (byte_at(bytes, 2) << 16) | (byte_at(bytes, 3)
        << 24) | (byte_at(bytes, 4) << 32) | (byte_at(bytes, 5) << 40) | (byte_at(bytes, 6) << 48)
        | (byte_at(bytes, 7) << 56)
}

/// A memory region with `bytes` written from `start` on.
pub open spec fn overwrite(region: Seq<u8>, start: int, bytes: Seq<u8>) -> Seq<u8> {
    Seq::new(
        region.len(),
        |j: int|
            if start <= j < start + bytes.len() {
                bytes[j - start]
            } else {
                region[j]
            },
    )
}

/// What is read back from where a value was written is that value.
pub proof fn lemma_decode_encode(ty: ScalarType, bits: u64)
    requires
        fits(ty, bits),
    ensures
        decode(encode(ty, bits)) == bits,
{
    let b = encode(ty, bits);
    let b0 = byte_at(b, 0);
    let b1 = byte_at(b, 1);
    let b2 = byte_at(b, 2);
    let b3 = byte_at(b, 3);
    let b4 = byte_at(b, 4);
    let b5 = byte_at(b, 5);
    let b6 = byte_at(b, 6);
    let b7 = byte_at(b, 7);
    match ty {
        ScalarType::I8 => {
            assert(b0 | (0u64 << 8) | (0u64 << 16) | (0u64 << 24) | (0u64 << 32) | (0u64 << 40)
                | (0u64 << 48) | (0u64 << 56) == bits) by (bit_vector)
                requires
                    bits <= 0xff,
                    b0 == (((bits >> ((8 * 0u64) as u64)) & 0xff) as u8) as u64,
            ;
        },
        ScalarType::I16 => {
            assert(b0 | (b1 << 8) | (0u64 << 16) | (0u64 << 24) | (0u64 << 32) | (0u64 << 40) | (
            0u64 << 48) | (0u64 << 56) == bits) by (bit_vector)
                requires
                    bits <= 0xffff,
                    b0 == (((bits >> ((8 * 0u64) as u64)) & 0xff) as u8) as u64,
                    b1 == (((bits >> ((8 * 1u64) as u64)) & 0xff) as u8) as u64,
            ;
        },
        ScalarType::I32 => {
            assert(b0 | (b1 << 8) | (b2 << 16) | (b3 << 24) | (0u64 << 32) | (0u64 << 40) | (0u64
                << 48) | (0u64 << 56) == bits) by (bit_vector)
                requires
                    bits <= 0xffff_ffff,
                    b0 == (((bits >> ((8 * 0u64) as u64)) & 0xff) as u8) as u64,
                    b1 == (((bits >> ((8 * 1u64) as u64)) & 0xff) as u8) as u64,
                    b2 == (((bits >> ((8 * 2u64) as u64)) & 0xff) as u8) as u64,
                    b3 == (((bits >> ((8 * 3u64) as u64)) & 0xff) as u8) as u64,
            ;
        },
        ScalarType::I64 => {
            assert(b0 | (b1 << 8) | (b2 << 16) | (b3 << 24) | (b4 << 32) | (b5 << 40) | (b6 << 48)
                | (b7 << 56) == bits) by (bit_vector)
                requires
                    b0 == (((bits >> ((8 * 0u64) as u64)) & 0xff) as u8) as u64,
                    b1 == (((bits >> ((8 * 1u64) as u64)) & 0xff) as u8) as u64,
                    b2 == (((bits >> ((8 * 2u64) as u64)) & 0xff) as u8) as u64,
                    b3 == (((bits >> ((8 * 3u64) as u64)) & 0xff) as u8) as u64,
                    b4 == (((bits >> ((8 * 4u64) as u64)) & 0xff) as u8) as u64,
                    b5 == (((bits >> ((8 * 5u64) as u64)) & 0xff) as u8) as u64,
                    b6 == (((bits >> ((8 * 6u64) as u64)) & 0xff) as u8) as u64,
                    b7 == (((bits >> ((8 * 7u64) as u64)) & 0xff) as u8) as u64,
            ;
        },
    }
}

/// What is read at the place of a write, in the length of the write, is
/// what was written.
pub proof fn lemma_read_after_write(region: Seq<u8>, start: int, bytes: Seq<u8>)
    requires
        0 <= start,
        start + bytes.len() <= region.len(),
    ensures
        overwrite(region, start, bytes).subrange(start, start + bytes.len()) == bytes,
        overwrite(region, start, bytes).len() == region.len(),
{
    assert(overwrite(region, start, bytes).subrange(start, start + bytes.len()) =~= bytes);
}

/// A memory region after the first `n` fields of a struct are stored in
/// it, each at its offset: what materializing the struct writes.
pub open spec fn stored(region: Seq<u8>, fields: Seq<ScalarType>, values: Seq<u64>, n: int) -> Seq<u8>
    decreases n,
{
    if n <= 0 {
        region
    } else {
        overwrite(
            stored(region, fields, values, n - 1),
            field_offset(fields, n - 1),
            encode(fields[n - 1], values[n - 1]),
        )
    }
}

/// The bytes of field `i` in a region that holds a struct.
pub open spec fn field_bytes(region: Seq<u8>, fields: Seq<ScalarType>, i: int) -> Seq<u8> {
    region.subrange(field_offset(fields, i), field_offset(fields, i) + fields[i].bytes_spec())
}

/// Every field lies inside the struct.
pub proof fn lemma_field_inside(fields: Seq<ScalarType>, i: int)
    requires
        0 <= i < fields.len(),
    ensures
        0 <= field_offset(fields, i),
        field_offset(fields, i) + fields[i].bytes_spec() <= struct_size(fields),
{
    lemma_fields_end_grows(fields, 0, i);
    lemma_round_up(fields_end(fields, i), fields[i].bytes_spec() as int);
    assert(fields_end(fields, i + 1) == field_offset(fields, i) + fields[i].bytes_spec());
    lemma_fields_end_grows(fields, i + 1, fields.len() as int);
    lemma_fields_end_grows(fields, 0, fields.len() as int);
    lemma_fields_align(fields, fields.len() as int);
    lemma_round_up(fields_end(fields, fields.len() as int), fields_align(fields, fields.len() as int));
}

/// The callee observes what the caller wrote: after the fields of a
/// struct are stored in a region that has room for the struct, each field
/// reads back as the value that was stored in it. The fields do not
/// overlap, so no store disturbs another field.
pub proof fn lemma_fields_read_back(
    region: Seq<u8>,
    fields: Seq<ScalarType>,
    values: Seq<u64>,
    n: int,
    i: int,
)
    requires
        0 <= i < n <= fields.len() == values.len(),
        struct_size(fields) <= region.len(),
        forall|j: int| 0 <= j < fields.len() ==> fits(#[trigger] fields[j], values[j]),
    ensures
        stored(region, fields, values, n).len() == region.len(),
        decode(field_bytes(stored(region, fields, values, n), fields, i)) == values[i],
    decreases n,
{
    lemma_stored_len(region, fields, values, n - 1);
    lemma_field_inside(fields, n - 1);
    lemma_field_inside(fields, i);
    let before = stored(region, fields, values, n - 1);
    let bytes = encode(fields[n - 1], values[n - 1]);
    let start = field_offset(fields, n - 1);
    lemma_read_after_write(before, start, bytes);
    if i == n - 1 {
        assert(fits(fields[i], values[i]));
        lemma_decode_encode(fields[i], values[i]);
    } else {
        lemma_fields_read_back(region, fields, values, n - 1, i);
        lemma_fields_disjoint(fields, i, n - 1);
        assert(field_bytes(overwrite(before, start, bytes), fields, i) =~= field_bytes(
            before,
            fields,
            i,
        ));
    }
}

/// Storing fields keeps the length of the region.
pub proof fn lemma_stored_len(region: Seq<u8>, fields: Seq<ScalarType>, values: Seq<u64>, n: int)
    ensures
        stored(region, fields, values, n).len() == region.len(),
    decreases n,
{
    if n > 0 {
        lemma_stored_len(region, fields, values, n - 1);
    }
}

/// The value of `v`, where it is defined.
pub open spec fn lookup(env: Seq<Word>, v: ValueId) -> Option<Word> {
    if v.0 < env.len() {
        Some(env[v.0 as int])
    } else {
        None
    }
}

/// The values of `values`, where all are defined.
pub open spec fn gather(env: Seq<Word>, values: Seq<ValueId>) -> Option<Seq<Word>> {
    if values_defined(values, env.len()) {
        Some(Seq::new(values.len(), |i: int| env[values[i].0 as int]))
    } else {
        None
    }
}

/// Whether a word is an integer of type `ty`.
pub open spec fn is_int_of(word: Word, ty: ScalarType) -> bool {
    word matches Word::Int { ty: t, .. } && t == ty
}

/// Whether the words are integers of the given types, one for one.
pub open spec fn typed(words: Seq<Word>, types: Seq<ScalarType>) -> bool {
    &&& words.len() == types.len()
    &&& forall|i: int| 0 <= i < words.len() ==> is_int_of(#[trigger] words[i], types[i])
}

/// Whether a word can be bound to a parameter of class `class`: an integer
/// of its type to a plain one, an address to one that goes by pointer.
pub open spec fn binds(class: ParameterClass, word: Word) -> bool {
    match class {
        ParameterClass::Plain(ty) => is_int_of(word, ty),
        ParameterClass::StructByPointer(_) => word is Address,
    }
}

/// Whether the words can be bound to the parameters, one for one.
pub open spec fn accepts(classes: Seq<ParameterClass>, words: Seq<Word>) -> bool {
    &&& words.len() == classes.len()
    &&& forall|i: int| 0 <= i < words.len() ==> binds(classes[i], #[trigger] words[i])
}

/// Whether an argument travels as the class says, with the padded size that
/// the class declares.
pub open spec fn agrees(class: ParameterClass, argument: CallArgument) -> bool {
    match class {
        ParameterClass::Plain(_) => argument is Plain,
        ParameterClass::StructByPointer(declared) => argument matches CallArgument::StructPointer {
            padded_size,
            ..
        } && padded_size == declared,
    }
}

/// Whether the arguments of a call travel as the callee declares, one for one.
pub open spec fn all_agree(classes: Seq<ParameterClass>, arguments: Seq<CallArgument>) -> bool {
    &&& arguments.len() == classes.len()
    &&& forall|i: int| 0 <= i < arguments.len() ==> agrees(classes[i], #[trigger] arguments[i])
}

/// The values that the arguments of a call name.
pub open spec fn argument_values(arguments: Seq<CallArgument>) -> Seq<ValueId> {
    Seq::new(arguments.len(), |i: int| argument_value(arguments[i]))
}

/// The memory regions of a frame when it is entered: one for each slot,
/// of its size, filled with zeros.
pub open spec fn zeroed(slots: Seq<FrameSlot>) -> Seq<Seq<u8>> {
    Seq::new(slots.len(), |i: int| Seq::new(slots[i].size as nat, |j: int| 0u8))
}

/// What one instruction other than a call or a return does to the values
/// and the memory of a frame whose regions start at `base`.
pub open spec fn step(
    inst: InstView,
    env: Seq<Word>,
    memory: Seq<Seq<u8>>,
    base: nat,
    slots: nat,
) -> Result<(Seq<Word>, Seq<Seq<u8>>), EvalError> {
    match inst {
        InstView::Iconst { result, ty, bits } => {
            if result.0 != env.len() {
                Err(EvalError::Malformed)
            } else if !fits(ty, bits) {
                Err(EvalError::IllTyped)
            } else {
                Ok((env.push(Word::Int { ty, bits }), memory))
            }
        },
        InstView::StackStore { value, slot, offset } => {
            match lookup(env, value) {
                None => Err(EvalError::Malformed),
                Some(Word::Address { .. }) => Err(EvalError::IllTyped),
                Some(Word::Int { ty, bits }) => {
                    if slot.0 >= slots || base + slot.0 >= memory.len() {
                        Err(EvalError::Malformed)
                    } else if offset + ty.bytes_spec() > memory[base + slot.0].len() {
                        Err(EvalError::OutOfBounds)
                    } else {
                        Ok(
                            (
                                env,
                                memory.update(
                                    base + slot.0,
                                    overwrite(memory[base + slot.0], offset as int, encode(ty, bits)),
                                ),
                            ),
                        )
                    }
                },
            }
        },
        InstView::StackAddr { result, slot, offset } => {
            if result.0 != env.len() || slot.0 >= slots || base + slot.0 > usize::MAX {
                Err(EvalError::Malformed)
            } else {
                Ok(
                    (
                        env.push(Word::Address { region: (base + slot.0) as usize, offset }),
                        memory,
                    ),
                )
            }
        },
        InstView::Load { result, ty, address, offset } => {
            if result.0 != env.len() {
                Err(EvalError::Malformed)
            } else {
                match lookup(env, address) {
                    None => Err(EvalError::Malformed),
                    Some(Word::Int { .. }) => Err(EvalError::IllTyped),
                    Some(Word::Address { region, offset: start }) => {
                        if region >= memory.len() || start + offset + ty.bytes_spec()
                            > memory[region as int].len() {
                            Err(EvalError::OutOfBounds)
                        } else {
                            Ok(
                                (
                                    env.push(
                                        Word::Int {
                                            ty,
                                            bits: decode(
                                                memory[region as int].subrange(
                                                    start + offset,
                                                    start + offset + ty.bytes_spec(),
                                                ),
                                            ),
                                        },
                                    ),
                                    memory,
                                ),
                            )
                        }
                    },
                }
            }
        },
        InstView::Call { .. } => Err(EvalError::Malformed),
        InstView::Return { .. } => Err(EvalError::Malformed),
    }
}

/// What the first `n` of a list of instructions, none of them a call or
/// a return, do one after the other.
pub open spec fn run_steps(
    insts: Seq<InstView>,
    n: int,
    env: Seq<Word>,
    memory: Seq<Seq<u8>>,
    base: nat,
    slots: nat,
) -> Result<(Seq<Word>, Seq<Seq<u8>>), EvalError>
    decreases n,
{
    if n <= 0 {
        Ok((env, memory))
    } else {
        match run_steps(insts, n - 1, env, memory, base, slots) {
            Err(e) => Err(e),
            Ok((env1, memory1)) => step(insts[n - 1], env1, memory1, base, slots),
        }
    }
}

/// Whether `values` hold integers of the types `fields` with the bits
/// `bits`, one for one.
pub open spec fn holds_fields(
    env: Seq<Word>,
    values: Seq<ValueId>,
    fields: Seq<ScalarType>,
    bits: Seq<u64>,
) -> bool {
    &&& values.len() == fields.len() == bits.len()
    &&& forall|i: int|
        0 <= i < values.len() ==> lookup(env, #[trigger] values[i]) == Some(
            Word::Int { ty: fields[i], bits: bits[i] },
        )
}

/// Whether `offsets` are the offsets of `fields`.
pub open spec fn offsets_of(offsets: Seq<u32>, fields: Seq<ScalarType>) -> bool {
    &&& offsets.len() == fields.len()
    &&& forall|i: int| 0 <= i < offsets.len() ==> #[trigger] offsets[i] == field_offset(fields, i)
}

/// The stores that materialize a struct run without fault in a slot that
/// has room for the struct, and leave in the slot the fields, each at its
/// offset; they change no value and no other region.
pub proof fn lemma_stores_run(
    fields: Seq<ScalarType>,
    values: Seq<ValueId>,
    offsets: Seq<u32>,
    bits: Seq<u64>,
    slot: SlotId,
    env: Seq<Word>,
    memory: Seq<Seq<u8>>,
    base: nat,
    slots: nat,
    n: int,
)
    requires
        0 <= n <= fields.len(),
        holds_fields(env, values, fields, bits),
        offsets_of(offsets, fields),
        slot.0 < slots,
        base + slot.0 < memory.len(),
        struct_size(fields) <= memory[base + slot.0].len(),
    ensures
        run_steps(
            store_insts(values, offsets, slot, fields.len() as int),
            n,
            env,
            memory,
            base,
            slots,
        ) == Ok::<(Seq<Word>, Seq<Seq<u8>>), EvalError>(
            (
                env,
                memory.update(base + slot.0, stored(memory[base + slot.0], fields, bits, n)),
            ),
        ),
    decreases n,
{
    let region = base + slot.0;
    if n <= 0 {
        assert(memory.update(region, stored(memory[region], fields, bits, 0)) =~= memory);
    } else {
        lemma_stores_run(fields, values, offsets, bits, slot, env, memory, base, slots, n - 1);
        lemma_stored_len(memory[region], fields, bits, n - 1);
        lemma_field_inside(fields, n - 1);
        let before = memory.update(region, stored(memory[region], fields, bits, n - 1));
        let inst = store_insts(values, offsets, slot, fields.len() as int)[n - 1];
        assert(inst == InstView::StackStore {
            value: values[n - 1],
            slot,
            offset: offsets[n - 1],
        });
        assert(lookup(env, values[n - 1]) == Some(
            Word::Int { ty: fields[n - 1], bits: bits[n - 1] },
        ));
        assert(before.update(
            region,
            overwrite(before[region], offsets[n - 1] as int, encode(fields[n - 1], bits[n - 1])),
        ) =~= memory.update(region, stored(memory[region], fields, bits, n)));
    }
}

/// What running function `f` gives from instruction `k` on, with the
/// values `env` defined and the memory `memory`, of which the regions from
/// `base` on belong to this activation.
pub open spec fn run_body(
    program: ProgramView,
    f: nat,
    k: nat,
    env: Seq<Word>,
    memory: Seq<Seq<u8>>,
    base: nat,
) -> Result<Seq<Word>, EvalError>
    decreases f, program.functions[f as int].body.len() - k,
{
    let draft = program.functions[f as int];
    if k >= draft.body.len() {
        Err(EvalError::Malformed)
    } else {
        match draft.body[k as int] {
            InstView::Return { values } => {
                match gather(env, values) {
                    None => Err(EvalError::Malformed),
                    Some(words) => if typed(words, draft.signature.results) {
                        Ok(words)
                    } else {
                        Err(EvalError::AbiMismatch)
                    },
                }
            },
            InstView::Call { callee, arguments, results } => {
                if callee.0 >= f {
                    Err(EvalError::Malformed)
                } else if !all_agree(
                    program.functions[callee.0 as int].signature.params,
                    arguments,
                ) {
                    Err(EvalError::AbiMismatch)
                } else {
                    match gather(env, argument_values(arguments)) {
                        None => Err(EvalError::Malformed),
                        Some(words) => match run_function(program, callee.0 as nat, words, memory) {
                            Err(e) => Err(e),
                            Ok(given) => if env.len() + given.len() > u32::MAX || results
                                != fresh_values(env.len() as int, given.len() as int) {
                                Err(EvalError::Malformed)
                            } else {
                                run_body(program, f, k + 1, env + given, memory, base)
                            },
                        },
                    }
                }
            },
            inst => match step(inst, env, memory, base, draft.slots.len()) {
                Err(e) => Err(e),
                Ok((env2, memory2)) => run_body(program, f, k + 1, env2, memory2, base),
            },
        }
    }
}

/// What calling function `f` with `arguments` gives. Its stack slots are
/// new memory regions after those of `memory`, and they end with the call.
pub open spec fn run_function(
    program: ProgramView,
    f: nat,
    arguments: Seq<Word>,
    memory: Seq<Seq<u8>>,
) -> Result<Seq<Word>, EvalError>
    decreases f, program.functions[f as int].body.len() + 1,
{
    if f >= program.functions.len() || program.functions[f as int].state != BuildState::Defined {
        Err(EvalError::UnknownFunction)
    } else if !accepts(program.functions[f as int].signature.params, arguments) {
        Err(EvalError::AbiMismatch)
    } else {
        run_body(
            program,
            f,
            0,
            arguments,
            memory + zeroed(program.functions[f as int].slots),
            memory.len(),
        )
    }
}

/// Running a function from instruction `k` on does what its next `n`
/// instructions do one after the other, where none of them is a call or a
/// return, and goes on from instruction `k + n`.
pub proof fn lemma_run_body_steps(
    program: ProgramView,
    f: nat,
    k: nat,
    n: nat,
    env: Seq<Word>,
    memory: Seq<Seq<u8>>,
    base: nat,
)
    requires
        k + n <= program.functions[f as int].body.len(),
        forall|j: int|
            k <= j < k + n ==> !(#[trigger] program.functions[f as int].body[j] is Call)
                && !(program.functions[f as int].body[j] is Return),
    ensures
        run_body(program, f, k, env, memory, base) == (match run_steps(
            program.functions[f as int].body.subrange(k as int, (k + n) as int),
            n as int,
            env,
            memory,
            base,
            program.functions[f as int].slots.len(),
        ) {
            Err(e) => Err(e),
            Ok((env1, memory1)) => run_body(program, f, k + n, env1, memory1, base),
        }),
    decreases n,
{
    let draft = program.functions[f as int];
    let chunk = draft.body.subrange(k as int, (k + n) as int);
    if n > 0 {
        let shorter = draft.body.subrange(k as int, k + n - 1);
        lemma_run_body_steps(program, f, k, (n - 1) as nat, env, memory, base);
        lemma_run_steps_prefix(chunk, shorter, n - 1, env, memory, base, draft.slots.len());
        assert(chunk[n - 1] == draft.body[k + n - 1]);
        assert(!(draft.body[k + n - 1] is Call) && !(draft.body[k + n - 1] is Return));
    }
}

/// What the first `n` instructions of a list do does not depend on the
/// instructions after them.
pub proof fn lemma_run_steps_prefix(
    long: Seq<InstView>,
    short: Seq<InstView>,
    n: int,
    env: Seq<Word>,
    memory: Seq<Seq<u8>>,
    base: nat,
    slots: nat,
)
    requires
        0 <= n <= short.len() <= long.len(),
        forall|j: int| 0 <= j < n ==> short[j] == long[j],
    ensures
        run_steps(long, n, env, memory, base, slots) == run_steps(
            short,
            n,
            env,
            memory,
            base,
            slots,
        ),
    decreases n,
{
    if n > 0 {
        lemma_run_steps_prefix(long, short, n - 1, env, memory, base, slots);
    }
}

/// What invoking function `f` of a program gives.
pub open spec fn invoke_spec(program: ProgramView, f: FunctionId, arguments: Seq<Word>) -> Result<
    Seq<Word>,
    EvalError,
> {
    if !program.finalized {
        Err(EvalError::NotFinalized)
    } else {
        run_function(program, f.0 as nat, arguments, Seq::empty())
    }
}

/// The memory regions of a stack, each as a sequence of bytes.
pub open spec fn regions(stack: Seq<Vec<u8>>) -> Seq<Seq<u8>> {
    Seq::new(stack.len(), |i: int| stack[i]@)
}

/// What an evaluation gave, as a mathematical value.
pub open spec fn outcome(r: Result<Vec<Word>, EvalError>) -> Result<Seq<Word>, EvalError> {
    match r {
        Ok(words) => Ok(words@),
        Err(e) => Err(e),
    }
}

/// Whether `bits` has no bit set above the width of `ty`.
pub fn fits_type(ty: ScalarType, bits: u64) -> (r: bool)
    ensures
        r == fits(ty, bits),
{
    match ty {
        ScalarType::I8 => bits <= 0xff,
        ScalarType::I16 => bits <= 0xffff,
        ScalarType::I32 => bits <= 0xffff_ffff,
        ScalarType::I64 => true,
    }
}

/// Byte `k` of the `n` bytes of a region from `start` on, and zero past them.
fn read_byte(region: &Vec<u8>, start: usize, n: usize, k: usize) -> (r: u64)
    requires
        start + n <= region@.len(),
    ensures
        r == byte_at(region@.subrange(start as int, start + n), k as int),
{
    let len = region.len();
    if k < n {
        assert(start + k < len);
        region[start + k] as u64
    } else {
        0
    }
}

/// The value that the `n` bytes of a region from `start` on stand for.
fn read_word(region: &Vec<u8>, start: usize, n: usize) -> (r: u64)
    requires
        start + n <= region@.len(),
    ensures
        r == decode(region@.subrange(start as int, start + n)),
{
    read_byte(region, start, n, 0) | (read_byte(region, start, n, 1) << 8) | (read_byte(
        region,
        start,
        n,
        2,
    ) << 16) | (read_byte(region, start, n, 3) << 24) | (read_byte(region, start, n, 4) << 32) | (
    read_byte(region, start, n, 5) << 40) | (read_byte(region, start, n, 6) << 48) | (read_byte(
        region,
        start,
        n,
        7,
    ) << 56)
}

/// A copy of a region with a value of type `ty` written from `start` on.
fn write_word(region: &Vec<u8>, start: usize, ty: ScalarType, bits: u64) -> (r: Vec<u8>)
    requires
        start + ty.bytes_spec() <= region@.len(),
    ensures
        r@ == overwrite(region@, start as int, encode(ty, bits)),
{
    let n = ty.bytes() as usize;
    let mut out: Vec<u8> = Vec::new();
    let mut j: usize = 0;
    while j < region.len()
        invariant
            j <= region@.len(),
            n == ty.bytes_spec(),
            n <= 8,
            start + n <= region@.len(),
            out@.len() == j,
            forall|i: int|
                0 <= i < j ==> #[trigger] out@[i] == overwrite(
                    region@,
                    start as int,
                    encode(ty, bits),
                )[i],
        decreases region.len() - j,
    {
        if start <= j && j - start < n {
            let k: u64 = (j - start) as u64;
            out.push(((bits >> (8 * k)) & 0xff) as u8);
        } else {
            out.push(region[j]);
        }
        j += 1;
    }
    proof {
        assert(out@ =~= overwrite(region@, start as int, encode(ty, bits)));
    }
    out
}

/// The values of `values`, where all are defined.
fn gather_values(env: &Vec<Word>, values: &Vec<ValueId>) -> (r: Option<Vec<Word>>)
    ensures
        match r {
            Some(words) => gather(env@, values@) == Some(words@),
            None => gather(env@, values@) is None,
        },
{
    let mut words: Vec<Word> = Vec::new();
    let mut i: usize = 0;
    while i < values.len()
        invariant
            i <= values@.len(),
            words@.len() == i,
            forall|j: int| 0 <= j < i ==> (#[trigger] values@[j]).0 < env@.len(),
            forall|j: int| 0 <= j < i ==> #[trigger] words@[j] == env@[values@[j].0 as int],
        decreases values.len() - i,
    {
        let index = values[i].0 as usize;
        if index >= env.len() {
            return None;
        }
        words.push(env[index]);
        i += 1;
    }
    proof {
        assert(words@ =~= Seq::new(values@.len(), |i: int| env@[values@[i].0 as int]));
    }
    Some(words)
}

/// The values that the arguments of a call name.
fn argument_list(arguments: &Vec<CallArgument>) -> (r: Vec<ValueId>)
    ensures
        r@ == argument_values(arguments@),
{
    let mut values: Vec<ValueId> = Vec::new();
    let mut i: usize = 0;
    while i < arguments.len()
        invariant
            i <= arguments@.len(),
            values@.len() == i,
            forall|j: int| 0 <= j < i ==> #[trigger] values@[j] == argument_value(arguments@[j]),
        decreases arguments.len() - i,
    {
        let v = match arguments[i] {
            CallArgument::Plain(v) => v,
            CallArgument::StructPointer { address, .. } => address,
        };
        values.push(v);
        i += 1;
    }
    proof {
        assert(values@ =~= argument_values(arguments@));
    }
    values
}

/// Whether a word is an integer of type `ty`.
fn word_is_int_of(word: Word, ty: ScalarType) -> (r: bool)
    ensures
        r == is_int_of(word, ty),
{
    match word {
        Word::Int { ty: t, .. } => t == ty,
        Word::Address { .. } => false,
    }
}

/// Whether the words are integers of the types of the results of a signature.
fn results_typed(words: &Vec<Word>, signature: &CallSignature) -> (r: bool)
    ensures
        r == typed(words@, signature@.results),
{
    if words.len() != signature.result_count() {
        return false;
    }
    let mut i: usize = 0;
    while i < words.len()
        invariant
            i <= words@.len(),
            words@.len() == signature@.results.len(),
            forall|j: int| 0 <= j < i ==> is_int_of(#[trigger] words@[j], signature@.results[j]),
        decreases words.len() - i,
    {
        if !word_is_int_of(words[i], signature.result_type(i)) {
            return false;
        }
        i += 1;
    }
    true
}

/// Whether the words can be bound to the parameters of a signature.
fn parameters_accept(signature: &CallSignature, words: &Vec<Word>) -> (r: bool)
    ensures
        r == accepts(signature@.params, words@),
{
    if words.len() != signature.param_count() {
        return false;
    }
    let mut i: usize = 0;
    while i < words.len()
        invariant
            i <= words@.len(),
            words@.len() == signature@.params.len(),
            forall|j: int| 0 <= j < i ==> binds(signature@.params[j], #[trigger] words@[j]),
        decreases words.len() - i,
    {
        let ok = match signature.param(i) {
            ParameterClass::Plain(ty) => word_is_int_of(words[i], ty),
            ParameterClass::StructByPointer(_) => match words[i] {
                Word::Address { .. } => true,
                Word::Int { .. } => false,
            },
        };
        if !ok {
            return false;
        }
        i += 1;
    }
    true
}

/// Whether the arguments of a call travel as a signature declares.
fn arguments_agree(signature: &CallSignature, arguments: &Vec<CallArgument>) -> (r: bool)
    ensures
        r == all_agree(signature@.params, arguments@),
{
    if arguments.len() != signature.param_count() {
        return false;
    }
    let mut i: usize = 0;
    while i < arguments.len()
        invariant
            i <= arguments@.len(),
            arguments@.len() == signature@.params.len(),
            forall|j: int| 0 <= j < i ==> agrees(signature@.params[j], #[trigger] arguments@[j]),
        decreases arguments.len() - i,
    {
        let ok = match signature.param(i) {
            ParameterClass::Plain(_) => match arguments[i] {
                CallArgument::Plain(_) => true,
                CallArgument::StructPointer { .. } => false,
            },
            ParameterClass::StructByPointer(declared) => match arguments[i] {
                CallArgument::Plain(_) => false,
                CallArgument::StructPointer { padded_size, .. } => padded_size == declared,
            },
        };
        if !ok {
            return false;
        }
        i += 1;
    }
    true
}

/// Runs one instruction other than a call or a return.
fn step_inst(
    inst: &Inst,
    env: &mut Vec<Word>,
    stack: &mut Vec<Vec<u8>>,
    base: usize,
    slots: usize,
) -> (r: Result<(), EvalError>)
    ensures
        match r {
            Ok(_) => step(inst@, old(env)@, regions(old(stack)@), base as nat, slots as nat) == Ok::<
                (Seq<Word>, Seq<Seq<u8>>),
                EvalError,
            >((final(env)@, regions(final(stack)@))) && final(stack)@.len() == old(stack)@.len()
                && forall|i: int|
                0 <= i < base && i < old(stack)@.len() ==> #[trigger] final(stack)@[i] == old(
                    stack,
                )@[i],
            Err(e) => step(inst@, old(env)@, regions(old(stack)@), base as nat, slots as nat)
                == Err::<(Seq<Word>, Seq<Seq<u8>>), EvalError>(e) && *final(stack) == *old(stack),
        },
{
    match inst {
        Inst::Iconst { result, ty, bits } => {
            if result.0 as usize != env.len() {
                return Err(EvalError::Malformed);
            }
            if !fits_type(*ty, *bits) {
                return Err(EvalError::IllTyped);
            }
            env.push(Word::Int { ty: *ty, bits: *bits });
            Ok(())
        },
        Inst::StackStore { value, slot, offset } => {
            let index = value.0 as usize;
            if index >= env.len() {
                return Err(EvalError::Malformed);
            }
            match env[index] {
                Word::Address { .. } => Err(EvalError::IllTyped),
                Word::Int { ty, bits } => {
                    if slot.0 as usize >= slots || slot.0 as usize >= stack.len() || base
                        >= stack.len() - slot.0 as usize {
                        return Err(EvalError::Malformed);
                    }
                    let region = base + slot.0 as usize;
                    if *offset as u64 + ty.bytes() as u64 > stack[region].len() as u64 {
                        return Err(EvalError::OutOfBounds);
                    }
                    let updated = write_word(&stack[region], *offset as usize, ty, bits);
                    let ghost before = stack@;
                    stack.set(region, updated);
                    proof {
                        assert(regions(stack@) =~= regions(before).update(
                            region as int,
                            updated@,
                        ));
                    }
                    Ok(())
                },
            }
        },
        Inst::StackAddr { result, slot, offset } => {
            if result.0 as usize != env.len() || slot.0 as usize >= slots || slot.0 as usize
                > usize::MAX - base {
                return Err(EvalError::Malformed);
            }
            env.push(Word::Address { region: base + slot.0 as usize, offset: *offset });
            Ok(())
        },
        Inst::Load { result, ty, address, offset } => {
            if result.0 as usize != env.len() {
                return Err(EvalError::Malformed);
            }
            let index = address.0 as usize;
            if index >= env.len() {
                return Err(EvalError::Malformed);
            }
            match env[index] {
                Word::Int { .. } => Err(EvalError::IllTyped),
                Word::Address { region, offset: start } => {
                    if region >= stack.len() {
                        return Err(EvalError::OutOfBounds);
                    }
                    let from: u64 = start as u64 + *offset as u64;
                    if from + ty.bytes() as u64 > stack[region].len() as u64 {
                        return Err(EvalError::OutOfBounds);
                    }
                    let bits = read_word(&stack[region], from as usize, ty.bytes() as usize);
                    env.push(Word::Int { ty: *ty, bits });
                    Ok(())
                },
            }
        },
        Inst::Call { .. } => Err(EvalError::Malformed),
        Inst::Return { .. } => Err(EvalError::Malformed),
    }
}

/// Runs the body of function `f` in a frame whose memory regions are
/// those of `stack` from `base` on.
fn run_frame(
    program: &Program,
    f: usize,
    arguments: Vec<Word>,
    stack: &mut Vec<Vec<u8>>,
    base: usize,
) -> (r: Result<Vec<Word>, EvalError>)
    requires
        f < program@.functions.len(),
        base <= old(stack)@.len(),
    ensures
        outcome(r) == run_body(
            program@,
            f as nat,
            0,
            arguments@,
            regions(old(stack)@),
            base as nat,
        ),
        final(stack)@.len() == old(stack)@.len(),
        forall|i: int| 0 <= i < base ==> #[trigger] final(stack)@[i] == old(stack)@[i],
    decreases f, 0nat,
{
    let draft = program.function(f);
    let n = draft.len();
    let ghost target = run_body(
        program@,
        f as nat,
        0,
        arguments@,
        regions(old(stack)@),
        base as nat,
    );
    let mut env = arguments;
    let mut k: usize = 0;
    while k < n
        invariant
            k <= n == draft@.body.len(),
            f < program@.functions.len(),
            draft@ == program@.functions[f as int],
            run_body(program@, f as nat, k as nat, env@, regions(stack@), base as nat) == target,
            target == run_body(
                program@,
                f as nat,
                0,
                arguments@,
                regions(old(stack)@),
                base as nat,
            ),
            stack@.len() == old(stack)@.len(),
            base <= stack@.len(),
            forall|i: int| 0 <= i < base ==> #[trigger] stack@[i] == old(stack)@[i],
        decreases n - k,
    {
        let inst = draft.inst(k);
        match inst {
            Inst::Return { values } => {
                return match gather_values(&env, values) {
                    None => Err(EvalError::Malformed),
                    Some(words) => if results_typed(&words, draft.signature()) {
                        Ok(words)
                    } else {
                        Err(EvalError::AbiMismatch)
                    },
                };
            },
            Inst::Call { callee, arguments, results } => {
                if callee.0 as usize >= f {
                    return Err(EvalError::Malformed);
                }
                if !arguments_agree(program.function(callee.0 as usize).signature(), arguments) {
                    return Err(EvalError::AbiMismatch);
                }
                let list = argument_list(arguments);
                let words = match gather_values(&env, &list) {
                    None => {
                        return Err(EvalError::Malformed);
                    },
                    Some(words) => words,
                };
                let ghost before = stack@;
                let given = match run_function_in(program, callee.0 as usize, words, stack) {
                    Err(e) => {
                        return Err(e);
                    },
                    Ok(given) => given,
                };
                proof {
                    assert(regions(stack@) =~= regions(before));
                }
                if results.len() != given.len() || !values_fresh(results, env.len() as u64) {
                    proof {
                        if results@.len() != given@.len() {
                            assert(results@.len() != fresh_values(
                                env@.len() as int,
                                given@.len() as int,
                            ).len());
                        }
                    }
                    return Err(EvalError::Malformed);
                }
                let ghost joined = env@ + given@;
                let mut i: usize = 0;
                while i < given.len()
                    invariant
                        i <= given@.len(),
                        env@ == joined.take(joined.len() - given@.len() + i),
                        joined.len() >= given@.len(),
                        forall|j: int|
                            0 <= j < given@.len() ==> #[trigger] joined[joined.len()
                                - given@.len() + j] == given@[j],
                    decreases given.len() - i,
                {
                    env.push(given[i]);
                    i += 1;
                    proof {
                        assert(env@ =~= joined.take(joined.len() - given@.len() + i));
                    }
                }
                proof {
                    assert(env@ =~= joined);
                }
            },
            _ => {
                match step_inst(inst, &mut env, stack, base, draft.slot_count()) {
                    Err(e) => {
                        return Err(e);
                    },
                    Ok(_) => {},
                }
            },
        }
        k += 1;
    }
    Err(EvalError::Malformed)
}

/// Calls function `f` with `arguments`, its frame on top of `stack`. The
/// frame is gone when the call ends.
pub fn run_function_in(
    program: &Program,
    f: usize,
    arguments: Vec<Word>,
    stack: &mut Vec<Vec<u8>>,
) -> (r: Result<Vec<Word>, EvalError>)
    ensures
        outcome(r) == run_function(program@, f as nat, arguments@, regions(old(stack)@)),
        final(stack)@ == old(stack)@,
    decreases f, 1nat,
{
    if f >= program.len() {
        return Err(EvalError::UnknownFunction);
    }
    let draft = program.function(f);
    if draft.state() != BuildState::Defined {
        return Err(EvalError::UnknownFunction);
    }
    if !parameters_accept(draft.signature(), &arguments) {
        return Err(EvalError::AbiMismatch);
    }
    let base = stack.len();
    let count = draft.slot_count();
    let mut i: usize = 0;
    while i < count
        invariant
            i <= count == draft@.slots.len(),
            stack@.len() == base + i,
            base == old(stack)@.len(),
            forall|j: int| 0 <= j < base ==> #[trigger] stack@[j] == old(stack)@[j],
            forall|j: int|
                base <= j < base + i ==> (#[trigger] stack@[j])@ == zeroed(draft@.slots)[j - base],
        decreases count - i,
    {
        let size = draft.slot(i).size;
        let mut region: Vec<u8> = Vec::new();
        let mut b: u32 = 0;
        while b < size
            invariant
                b <= size,
                region@.len() == b,
                forall|j: int| 0 <= j < b ==> #[trigger] region@[j] == 0u8,
            decreases size - b,
        {
            region.push(0u8);
            b += 1;
        }
        proof {
            assert(region@ =~= zeroed(draft@.slots)[i as int]);
        }
        stack.push(region);
        i += 1;
    }
    proof {
        assert(regions(stack@) =~= regions(old(stack)@) + zeroed(draft@.slots));
    }
    let r = run_frame(program, f, arguments, stack, base);
    stack.truncate(base);
    proof {
        assert(stack@ =~= old(stack)@);
    }
    r
}

/// Invokes function `f` of a finalized program with `arguments`.
pub fn invoke(program: &Program, f: FunctionId, arguments: Vec<Word>) -> (r: Result<
    Vec<Word>,
    EvalError,
>)
    ensures
        outcome(r) == invoke_spec(program@, f, arguments@),
{
    if !program.is_finalized() {
        return Err(EvalError::NotFinalized);
    }
    let mut stack: Vec<Vec<u8>> = Vec::new();
    proof {
        assert(regions(stack@) =~= Seq::empty());
    }
    run_function_in(program, f.0 as usize, arguments, &mut stack)
}

} // verus!
