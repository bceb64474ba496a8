//! Sizes, alignments and the rounding that the calling convention asks for.

use vstd::prelude::*;
use vstd::arithmetic::div_mod::{lemma_fundamental_div_mod, lemma_mod_bound};
use vstd::arithmetic::power::{lemma_pow_positive, pow};
use vstd::arithmetic::power2::{
    is_pow2, is_pow2_equiv, is_pow2_exists, lemma2_to64, lemma_pow2_strictly_increases, pow2,
};
use vstd::bits::{lemma_u64_low_bits_mask_is_mod, low_bits_mask};

verus! {

/// The granularity, in bytes, of the stack-argument area.
pub const STACK_ARGUMENT_GRANULARITY: u32 = 16;

/// Why a size could not be computed.
#[derive(Clone, Copy, Debug, PartialEq, Eq, Structural)]
pub enum LayoutError {
    /// The granularity or alignment is not a power of two.
    NotPowerOfTwo,
    /// The result does not fit in 32 bits.
    Overflow,
}

/// The least multiple of `g` that is not below `s`, for positive `g`.
pub open spec fn round_up(s: int, g: int) -> int {
    (s + g - 1) / g * g
}

/// The padded size of an aggregate of `s` bytes: `s` rounded up to the
/// granularity `g`, and one whole granule for an aggregate without bytes.
pub open spec fn padded_size_spec(s: int, g: int) -> int {
    if s == 0 {
        g
    } else {
        round_up(s, g)
    }
}

/// A 32-bit number is a power of two exactly when it is two to some
/// exponent below 32.
pub proof fn lemma_pow2_exponent(g: u32)
    ensures
        is_pow2(g as int) <==> exists|k: nat| k < 32 && pow2(k) == g,
{
    is_pow2_equiv(g as int);
    if is_pow2(g as int) {
        let i = choose|i: nat| pow(2, i) == g as int;
        assert(pow2(i) == g);
        if i >= 32 {
            lemma2_to64();
            if i > 32 {
                lemma_pow2_strictly_increases(32, i);
            }
        }
        assert(i < 32 && pow2(i) == g);
    }
    if exists|k: nat| k < 32 && pow2(k) == g {
        let k = choose|k: nat| k < 32 && pow2(k) == g;
        lemma_pow_positive(2, k);
        assert(pow(2, k) == g as int);
        assert(is_pow2_exists(g as int));
    }
}

/// A 32-bit number is a power of two exactly when one bit of it is set.
pub proof fn lemma_pow2_single_bit(g: u32)
    ensures
        is_pow2(g as int) <==> (g != 0 && g & ((g - 1) as u32) == 0),
{
    lemma_pow2_exponent(g);
    lemma2_to64();
    let single = g != 0 && g & ((g - 1) as u32) == 0;
    let listed = g == 0x1 || g == 0x2 || g == 0x4 || g == 0x8 || g == 0x10 || g == 0x20 || g
        == 0x40 || g == 0x80 || g == 0x100 || g == 0x200 || g == 0x400 || g == 0x800 || g
        == 0x1000 || g == 0x2000 || g == 0x4000 || g == 0x8000 || g == 0x10000 || g == 0x20000
        || g == 0x40000 || g == 0x80000 || g == 0x100000 || g == 0x200000 || g == 0x400000 || g
        == 0x800000 || g == 0x1000000 || g == 0x2000000 || g == 0x4000000 || g == 0x8000000 || g
        == 0x10000000 || g == 0x20000000 || g == 0x40000000 || g == 0x80000000;
    assert(single <==> listed) by (bit_vector)
        requires
            single == (g != 0 && g & ((g - 1) as u32) == 0),
            listed == (g == 0x1 || g == 0x2 || g == 0x4 || g == 0x8 || g == 0x10 || g == 0x20
                || g == 0x40 || g == 0x80 || g == 0x100 || g == 0x200 || g == 0x400 || g == 0x800
                || g == 0x1000 || g == 0x2000 || g == 0x4000 || g == 0x8000 || g == 0x10000 || g
                == 0x20000 || g == 0x40000 || g == 0x80000 || g == 0x100000 || g == 0x200000 || g
                == 0x400000 || g == 0x800000 || g == 0x1000000 || g == 0x2000000 || g
                == 0x4000000 || g == 0x8000000 || g == 0x10000000 || g == 0x20000000 || g
                == 0x40000000 || g == 0x80000000),
    ;
    if listed {
        let k: nat = if g == 0x1 { 0 } else if g == 0x2 { 1 } else if g == 0x4 { 2 } else if g == 0x8 { 3 }
            else if g == 0x10 { 4 } else if g == 0x20 { 5 } else if g == 0x40 { 6 } else if g == 0x80 { 7 }
            else if g == 0x100 { 8 } else if g == 0x200 { 9 } else if g == 0x400 { 10 } else if g == 0x800 { 11 }
            else if g == 0x1000 { 12 } else if g == 0x2000 { 13 } else if g == 0x4000 { 14 } else if g == 0x8000 { 15 }
            else if g == 0x10000 { 16 } else if g == 0x20000 { 17 } else if g == 0x40000 { 18 } else if g == 0x80000 { 19 }
            else if g == 0x100000 { 20 } else if g == 0x200000 { 21 } else if g == 0x400000 { 22 } else if g == 0x800000 { 23 }
            else if g == 0x1000000 { 24 } else if g == 0x2000000 { 25 } else if g == 0x4000000 { 26 } else if g == 0x8000000 { 27 }
            else if g == 0x10000000 { 28 } else if g == 0x20000000 { 29 } else if g == 0x40000000 { 30 } else { 31 };
        assert(k < 32 && pow2(k) == g);
    }
    if is_pow2(g as int) {
        let k = choose|k: nat| k < 32 && pow2(k) == g;
        assert(listed);
    }
}

/// Rounding up to a positive granularity gives the one multiple of it that
/// lies in `s .. s + g`.
pub proof fn lemma_round_up(s: int, g: int)
    requires
        0 <= s,
        0 < g,
    ensures
        round_up(s, g) >= s,
        round_up(s, g) % g == 0,
        round_up(s, g) - s < g,
{
    let x = s + g - 1;
    lemma_fundamental_div_mod(x, g);
    lemma_mod_bound(x, g);
    assert(g * (x / g) == (x / g) * g) by (nonlinear_arith);
    vstd::arithmetic::div_mod::lemma_mod_multiples_basic(x / g, g);
}

/// Clearing the bits below a power of two rounds down to a multiple of it.
pub proof fn lemma_mask_rounds_down(x: u64, g: u32)
    requires
        is_pow2(g as int),
    ensures
        x & !((g - 1) as u64) == (x as int) / (g as int) * (g as int),
{
    lemma_pow2_exponent(g);
    let k = choose|k: nat| k < 32 && pow2(k) == g;
    vstd::arithmetic::power2::lemma_pow2_pos(k);
    let m = (g - 1) as u64;
    assert(m == low_bits_mask(k));
    lemma_u64_low_bits_mask_is_mod(x, k);
    assert(x & m == x % (g as u64));
    assert((x & !m) + (x & m) == x) by (bit_vector);
    lemma_fundamental_div_mod(x as int, g as int);
    assert((g as int) * ((x as int) / (g as int)) == (x as int) / (g as int) * (g as int))
        by (nonlinear_arith);
}

/// The rounding of the calling convention, `(s + g - 1) & !(g - 1)`, is
/// `round_up(s, g)` for a power of two `g`: it is not below `s`, it is a
/// multiple of `g`, and it exceeds `s` by less than `g`.
pub proof fn lemma_pad(s: u32, g: u32)
    requires
        is_pow2(g as int),
    ensures
        ((s + (g - 1)) as u64) & !((g - 1) as u64) == round_up(s as int, g as int),
        round_up(s as int, g as int) >= s,
        round_up(s as int, g as int) % (g as int) == 0,
        round_up(s as int, g as int) - s < g,
{
    lemma_pow2_single_bit(g);
    lemma_mask_rounds_down((s + (g - 1)) as u64, g);
    lemma_round_up(s as int, g as int);
}

/// The padded size is never below the granularity, nor below the size, and
/// it is a multiple of the granularity; this holds of an aggregate without
/// bytes too.
pub proof fn lemma_padded_size_floor(s: int, g: int)
    requires
        0 <= s,
        0 < g,
    ensures
        padded_size_spec(s, g) >= g,
        padded_size_spec(s, g) >= s,
        padded_size_spec(s, g) % g == 0,
        padded_size_spec(s, g) - s <= g,
{
    if s == 0 {
        vstd::arithmetic::div_mod::lemma_mod_multiples_basic(1, g);
    } else {
        lemma_round_up(s, g);
        let r = round_up(s, g);
        let q = (s + g - 1) / g;
        if q <= 0 {
            assert(q * g <= 0) by (nonlinear_arith)
                requires
                    q <= 0,
                    g > 0,
            ;
        } else {
            assert(q * g >= g) by (nonlinear_arith)
                requires
                    q >= 1,
                    g > 0,
            ;
        }
    }
}

/// Whether `g` is a power of two.
pub fn is_power_of_two(g: u32) -> (r: bool)
    ensures
        r == is_pow2(g as int),
{
    proof {
        lemma_pow2_single_bit(g);
    }
    g != 0 && g & (g - 1) == 0
}

/// Rounds `size` up to a multiple of `granularity`.
pub fn pad(size: u32, granularity: u32) -> (r: Result<u32, LayoutError>)
    ensures
        match r {
            Ok(p) => is_pow2(granularity as int) && p == round_up(
                size as int,
                granularity as int,
            ),
            Err(LayoutError::NotPowerOfTwo) => !is_pow2(granularity as int),
            Err(LayoutError::Overflow) => is_pow2(granularity as int) && round_up(
                size as int,
                granularity as int,
            ) > u32::MAX,
        },
{
    if !is_power_of_two(granularity) {
        return Err(LayoutError::NotPowerOfTwo);
    }
    proof {
        lemma_pow2_single_bit(granularity);
    }
    let mask: u64 = (granularity - 1) as u64;
    let padded: u64 = (size as u64 + mask) & !mask;
    proof {
        lemma_pad(size, granularity);
    }
    if padded > u32::MAX as u64 {
        Err(LayoutError::Overflow)
    } else {
        Ok(padded as u32)
    }
}

/// The size that the calling convention records for an aggregate of `size`
/// bytes. An aggregate without bytes still takes one granule, so that the
/// result is never below the granularity.
pub fn padded_size(size: u32, granularity: u32) -> (r: Result<u32, LayoutError>)
    ensures
        match r {
            Ok(p) => is_pow2(granularity as int) && p == padded_size_spec(
                size as int,
                granularity as int,
            ),
            Err(LayoutError::NotPowerOfTwo) => !is_pow2(granularity as int),
            Err(LayoutError::Overflow) => is_pow2(granularity as int) && padded_size_spec(
                size as int,
                granularity as int,
            ) > u32::MAX,
        },
{
    if size == 0 {
        if is_power_of_two(granularity) {
            Ok(granularity)
        } else {
            Err(LayoutError::NotPowerOfTwo)
        }
    } else {
        pad(size, granularity)
    }
}

/// A scalar that a value or a field can have; its alignment is its size.
#[derive(Clone, Copy, Debug, PartialEq, Eq, Structural)]
pub enum ScalarType {
    I8,
    I16,
    I32,
    I64,
}

impl ScalarType {
    /// The size in bytes.
    pub open spec fn bytes_spec(self) -> nat {
        match self {
            ScalarType::I8 => 1,
            ScalarType::I16 => 2,
            ScalarType::I32 => 4,
            ScalarType::I64 => 8,
        }
    }

    /// The size in bytes.
    pub fn bytes(self) -> (r: u32)
        ensures
            r == self.bytes_spec(),
    {
        match self {
            ScalarType::I8 => 1,
            ScalarType::I16 => 2,
            ScalarType::I32 => 4,
            ScalarType::I64 => 8,
        }
    }

    /// The size in bits.
    pub open spec fn bits_spec(self) -> int {
        8 * (self.bytes_spec() as int)
    }

    /// The size in bits.
    pub fn bits(self) -> (r: u16)
        ensures
            r == self.bits_spec(),
    {
        match self {
            ScalarType::I8 => 8,
            ScalarType::I16 => 16,
            ScalarType::I32 => 32,
            ScalarType::I64 => 64,
        }
    }
}

/// The size of every scalar is a power of two.
pub proof fn lemma_scalar_bytes_pow2(ty: ScalarType)
    ensures
        is_pow2(ty.bytes_spec() as int),
{
    lemma_pow2_single_bit(ty.bytes_spec() as u32);
    let g = ty.bytes_spec() as u32;
    assert(g == 1 || g == 2 || g == 4 || g == 8);
    assert((g == 1 || g == 2 || g == 4 || g == 8) ==> (g != 0 && g & ((g - 1) as u32) == 0))
        by (bit_vector);
}

/// The size and alignment of an aggregate.
#[derive(Clone, Copy, Debug, PartialEq, Eq, Structural)]
pub struct AggregateType {
    size: u32,
    align: u32,
}

impl AggregateType {
    /// The alignment is a power of two and divides the size.
    pub open spec fn wf(self) -> bool {
        is_pow2(self.align_spec() as int) && self.size_spec() % self.align_spec() == 0
    }

    /// The size in bytes.
    pub closed spec fn size_spec(&self) -> u32 {
        self.size
    }

    /// The alignment in bytes.
    pub closed spec fn align_spec(&self) -> u32 {
        self.align
    }

    /// An aggregate of `size` bytes aligned to `align`, where `align` is a
    /// power of two that divides `size`.
    pub fn new(size: u32, align: u32) -> (r: Option<Self>)
        ensures
            r is Some <==> (is_pow2(align as int) && size % align == 0),
            r matches Some(a) ==> a.wf() && a.size_spec() == size && a.align_spec() == align,
    {
        if !is_power_of_two(align) {
            return None;
        }
        proof {
            lemma_pow2_single_bit(align);
        }
        if size % align != 0 {
            return None;
        }
        Some(AggregateType { size, align })
    }

    /// The size in bytes.
    #[verifier::when_used_as_spec(size_spec)]
    pub fn size(&self) -> (r: u32)
        ensures
            r == self.size_spec(),
    {
        self.size
    }

    /// The alignment in bytes.
    #[verifier::when_used_as_spec(align_spec)]
    pub fn align(&self) -> (r: u32)
        ensures
            r == self.align_spec(),
    {
        self.align
    }
}

/// Where the first `n` fields end when each is placed at the next offset
/// that its alignment allows.
pub open spec fn fields_end(fields: Seq<ScalarType>, n: int) -> int
    decreases n,
{
    if n <= 0 {
        0
    } else {
        round_up(fields_end(fields, n - 1), fields[n - 1].bytes_spec() as int) + fields[n
            - 1].bytes_spec()
    }
}

/// The offset of field `i`.
pub open spec fn field_offset(fields: Seq<ScalarType>, i: int) -> int {
    round_up(fields_end(fields, i), fields[i].bytes_spec() as int)
}

/// The largest alignment among the first `n` fields; one where there is none.
pub open spec fn fields_align(fields: Seq<ScalarType>, n: int) -> int
    decreases n,
{
    if n <= 0 {
        1
    } else if fields_align(fields, n - 1) >= fields[n - 1].bytes_spec() {
        fields_align(fields, n - 1)
    } else {
        fields[n - 1].bytes_spec() as int
    }
}

/// The size of a struct of these fields: the end of the last field, rounded
/// up to the alignment of the struct.
pub open spec fn struct_size(fields: Seq<ScalarType>) -> int {
    round_up(fields_end(fields, fields.len() as int), fields_align(fields, fields.len() as int))
}

/// The alignment of a struct is one of 1, 2, 4 and 8, and every field's
/// alignment divides it.
pub proof fn lemma_fields_align(fields: Seq<ScalarType>, n: int)
    requires
        0 <= n <= fields.len(),
    ensures
        fields_align(fields, n) == 1 || fields_align(fields, n) == 2 || fields_align(fields, n)
            == 4 || fields_align(fields, n) == 8,
        forall|i: int|
            0 <= i < n ==> fields_align(fields, n) % (#[trigger] fields[i].bytes_spec() as int)
                == 0,
    decreases n,
{
    if n > 0 {
        lemma_fields_align(fields, n - 1);
    }
}

/// Fields follow one another without overlap: each starts at a multiple of
/// its alignment, at or after the end of the one before, and the next one
/// starts at or after its end.
pub proof fn lemma_fields_disjoint(fields: Seq<ScalarType>, i: int, j: int)
    requires
        0 <= i < j < fields.len(),
    ensures
        0 <= field_offset(fields, i),
        field_offset(fields, i) % (fields[i].bytes_spec() as int) == 0,
        field_offset(fields, i) + fields[i].bytes_spec() <= field_offset(fields, j),
        field_offset(fields, j) + fields[j].bytes_spec() <= struct_size(fields),
    decreases j - i,
{
    lemma_fields_end_grows(fields, i, j);
    lemma_fields_end_grows(fields, j + 1, fields.len() as int);
    lemma_fields_end_grows(fields, 0, i);
    lemma_fields_end_grows(fields, 0, j);
    lemma_round_up(fields_end(fields, i), fields[i].bytes_spec() as int);
    lemma_round_up(fields_end(fields, j), fields[j].bytes_spec() as int);
    lemma_fields_end_grows(fields, 0, fields.len() as int);
    lemma_fields_align(fields, fields.len() as int);
    lemma_round_up(fields_end(fields, fields.len() as int), fields_align(fields, fields.len() as int));
    assert(fields_end(fields, i + 1) == field_offset(fields, i) + fields[i].bytes_spec());
    assert(fields_end(fields, j + 1) == field_offset(fields, j) + fields[j].bytes_spec());
    lemma_fields_end_grows(fields, i + 1, j);
}

/// The end of a longer prefix of the fields is not before the end of a
/// shorter one.
pub proof fn lemma_fields_end_grows(fields: Seq<ScalarType>, m: int, n: int)
    requires
        0 <= m <= n <= fields.len(),
    ensures
        0 <= fields_end(fields, m) <= fields_end(fields, n),
    decreases n,
{
    if n > 0 {
        if m < n {
            lemma_fields_end_grows(fields, m, n - 1);
        } else {
            lemma_fields_end_grows(fields, m - 1, n - 1);
        }
        lemma_round_up(fields_end(fields, n - 1), fields[n - 1].bytes_spec() as int);
    }
}

/// A struct laid out: its size and alignment, and the offset of each field.
#[derive(Debug)]
pub struct StructLayout {
    aggregate: AggregateType,
    fields: Vec<ScalarType>,
    offsets: Vec<u32>,
}

impl StructLayout {
    /// The fields, in order.
    pub closed spec fn fields_spec(self) -> Seq<ScalarType> {
        self.fields@
    }

    /// The offsets of the fields, in order.
    pub closed spec fn offsets_spec(self) -> Seq<u32> {
        self.offsets@
    }

    /// The size and alignment of the whole.
    pub closed spec fn aggregate_spec(self) -> AggregateType {
        self.aggregate
    }

    /// The offsets, the size and the alignment are those of the fields.
    pub open spec fn wf(self) -> bool {
        &&& self.offsets_spec().len() == self.fields_spec().len()
        &&& forall|i: int|
            0 <= i < self.fields_spec().len() ==> #[trigger] self.offsets_spec()[i]
                == field_offset(self.fields_spec(), i)
        &&& self.aggregate_spec().wf()
        &&& self.aggregate_spec().size_spec() == struct_size(self.fields_spec())
        &&& self.aggregate_spec().align_spec() == fields_align(
            self.fields_spec(),
            self.fields_spec().len() as int,
        )
    }

    /// The size and alignment of the whole.
    pub fn aggregate(&self) -> (r: AggregateType)
        ensures
            r == self.aggregate_spec(),
    {
        self.aggregate
    }

    /// How many fields there are.
    pub fn field_count(&self) -> (r: usize)
        ensures
            r == self.fields_spec().len(),
    {
        self.fields.len()
    }

    /// The type of field `i`.
    pub fn field_type(&self, i: usize) -> (r: ScalarType)
        requires
            i < self.fields_spec().len(),
        ensures
            r == self.fields_spec()[i as int],
    {
        self.fields[i]
    }

    /// The offset of field `i`.
    pub fn field_offset(&self, i: usize) -> (r: u32)
        requires
            self.wf(),
            i < self.fields_spec().len(),
        ensures
            r == self.offsets_spec()[i as int],
            r == field_offset(self.fields_spec(), i as int),
    {
        self.offsets[i]
    }
}

/// Lays out a struct of the given fields, in order, each at the next offset
/// that its alignment allows.
pub fn layout(fields: &Vec<ScalarType>) -> (r: Result<StructLayout, LayoutError>)
    ensures
        match r {
            Ok(l) => l.wf() && l.fields_spec() == fields@,
            Err(e) => e == LayoutError::Overflow && struct_size(fields@) > u32::MAX,
        },
{
    let mut offsets: Vec<u32> = Vec::new();
    let mut kept: Vec<ScalarType> = Vec::new();
    let mut end: u32 = 0;
    let mut align: u32 = 1;
    let mut i: usize = 0;
    while i < fields.len()
        invariant
            0 <= i <= fields.len(),
            offsets@.len() == i,
            kept@ == fields@.take(i as int),
            end == fields_end(fields@, i as int),
            align == fields_align(fields@, i as int),
            forall|k: int| 0 <= k < i ==> #[trigger] offsets@[k] == field_offset(fields@, k),
        decreases fields.len() - i,
    {
        let ty = fields[i];
        proof {
            lemma_scalar_bytes_pow2(ty);
            lemma_fields_end_grows(fields@, i as int + 1, fields@.len() as int);
            lemma_fields_end_grows(fields@, 0, fields@.len() as int);
            lemma_fields_align(fields@, fields@.len() as int);
            lemma_round_up(
                fields_end(fields@, fields@.len() as int),
                fields_align(fields@, fields@.len() as int),
            );
            lemma_round_up(end as int, ty.bytes_spec() as int);
        }
        let offset = match pad(end, ty.bytes()) {
            Ok(o) => o,
            Err(_) => {
                return Err(LayoutError::Overflow);
            },
        };
        if offset > u32::MAX - ty.bytes() {
            return Err(LayoutError::Overflow);
        }
        offsets.push(offset);
        kept.push(ty);
        end = offset + ty.bytes();
        if ty.bytes() > align {
            align = ty.bytes();
        }
        i += 1;
        proof {
            assert(fields@.take(i as int) == fields@.take(i as int - 1).push(ty));
        }
    }
    proof {
        lemma_fields_align(fields@, fields@.len() as int);
        lemma_pow2_single_bit(align);
        assert((align == 1 || align == 2 || align == 4 || align == 8) ==> (align != 0 && align & (
        (align - 1) as u32) == 0)) by (bit_vector);
        lemma_round_up(end as int, align as int);
        assert(fields@.take(i as int) == fields@);
    }
    let size = match pad(end, align) {
        Ok(s) => s,
        Err(_) => {
            return Err(LayoutError::Overflow);
        },
    };
    Ok(StructLayout { aggregate: AggregateType { size, align }, fields: kept, offsets })
}

/// The exponent of an alignment, where it is a power of two.
pub fn align_shift(align: u32) -> (r: Option<u8>)
    ensures
        r is Some <==> is_pow2(align as int),
        r matches Some(shift) ==> shift < 32 && pow2(shift as nat) == align,
{
    if !is_power_of_two(align) {
        return None;
    }
    proof {
        lemma_pow2_exponent(align);
        lemma2_to64();
    }
    let ghost j = choose|k: nat| k < 32 && pow2(k) == align;
    let mut shift: u8 = 0;
    let mut power: u32 = 1;
    while power < align
        invariant
            power == pow2(shift as nat),
            shift <= j,
            j < 32,
            pow2(j) == align,
        decreases j - shift,
    {
        proof {
            if shift == j {
                assert(false);
            }
            if shift + 1 < j {
                lemma_pow2_strictly_increases((shift + 1) as nat, j);
            }
            vstd::arithmetic::power2::lemma_pow2_unfold((shift + 1) as nat);
        }
        power = power * 2;
        shift = shift + 1;
    }
    proof {
        if shift < j {
            lemma_pow2_strictly_increases(shift as nat, j);
        }
    }
    Some(shift)
}

} // verus!
