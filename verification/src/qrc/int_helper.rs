//! Bit-level helpers of the QRC DES variant.
//!
//! Tables address the bits of a `u64` by an index: indices `0..32` name the
//! bits of the low word from its top bit down, indices `32..64` those of the
//! high word from its top bit down.
use vstd::prelude::*;

verus! {

pub open spec fn pow32() -> int {
    0x1_0000_0000
}

/// The bit position that a table index designates (indices wrap modulo 64).
pub open spec fn idx_shift(idx: u8) -> u64 {
    ((287 - idx as int) % 64) as u64
}

/// The one-bit mask that a table index designates.
pub open spec fn idx_mask(idx: u8) -> u64 {
    1u64 << idx_shift(idx)
}

/// Whether the bit that `idx` designates is set in `x`.
pub open spec fn idx_bit(x: u64, idx: u8) -> bool {
    x & idx_mask(idx) != 0
}

pub open spec fn spec_make_u64(hi32: u32, lo32: u32) -> u64 {
    (hi32 as int * pow32() + lo32 as int) as u64
}

pub open spec fn spec_lo32(value: u64) -> u32 {
    (value as int % pow32()) as u32
}

pub open spec fn spec_hi32(value: u64) -> u32 {
    (value as int / pow32()) as u32
}

/// Exchanges the two 32-bit halves.
pub open spec fn spec_swap_u64_side(value: u64) -> u64 {
    spec_make_u64(spec_lo32(value), spec_hi32(value))
}

pub open spec fn spec_map_bit(result: u64, src: u64, check: u8, set: u8) -> u64 {
    if idx_bit(src, check) {
        result | idx_mask(set)
    } else {
        result
    }
}

/// The value built from the first `k` entries of `table`: entry `i` copies the
/// bit of `src` that it designates to the bit designated by index `i`.
pub open spec fn map_fold(src: u64, table: Seq<u8>, k: int) -> u64
    decreases k,
{
    if k <= 0 {
        0
    } else {
        spec_map_bit(map_fold(src, table, k - 1), src, table[k - 1], (k - 1) as u8)
    }
}

pub open spec fn spec_map_u32_bits(src: u32, table: Seq<u8>) -> u32 {
    map_fold(src as u64, table, table.len() as int) as u32
}

/// The first half of `table` fills the low word, the second half the high word.
pub open spec fn spec_map_u64(src: u64, table: Seq<u8>) -> u64 {
    let n = table.len() / 2;
    let lo = map_fold(src, table.take(n as int), n as int);
    let hi = map_fold(src, table.skip(n as int), n as int);
    spec_make_u64(hi as u32, lo as u32)
}

pub fn make_u64(hi32: u32, lo32: u32) -> (r: u64)
    ensures
        r == spec_make_u64(hi32, lo32),
        r as int == hi32 as int * pow32() + lo32 as int,
{
    assert(((hi32 as u64) << 32u64) | (lo32 as u64) == hi32 as int * 0x1_0000_0000 + lo32 as int)
        by (bit_vector);
    ((hi32 as u64) << 32u64) | (lo32 as u64)
}

pub fn swap_u64_side(value: u64) -> (r: u64)
    ensures
        r == spec_swap_u64_side(value),
{
    let r = value.wrapping_shr(32) | value.wrapping_shl(32);
    assert((value >> 32u64) | (value << 32u64) == (value as int % 0x1_0000_0000) * 0x1_0000_0000
        + value as int / 0x1_0000_0000) by (bit_vector);
    r
}

pub fn u64_get_lo32(value: u64) -> (r: u32)
    ensures
        r == spec_lo32(value),
{
    assert(value as u32 == value as int % 0x1_0000_0000) by (bit_vector);
    value as u32
}

pub fn u64_get_hi32(value: u64) -> (r: u32)
    ensures
        r == spec_hi32(value),
{
    assert((value >> 32u64) as u32 == value as int / 0x1_0000_0000) by (bit_vector);
    value.wrapping_shr(32) as u32
}

/// The one-bit mask for a table index.
pub fn get_u64_by_shift_idx(value: u8) -> (r: u64)
    ensures
        r == idx_mask(value),
        r == 1u64 << idx_shift(value),
{
    let shift = 31u32.wrapping_sub(value as u32);
    assert(shift % 64 == (287 - value as int) % 64) by {
        if value <= 31 {
            assert(shift == 31 - value);
        } else {
            assert(shift == 31 - value + 0x1_0000_0000);
        }
    }
    1u64.wrapping_shl(shift)
}

/// Copies the bit that `check` designates in `src` onto the bit that `set`
/// designates in `result`, when it is set.
pub fn map_bit(result: &mut u64, src: u64, check: u8, set: u8)
    ensures
        *final(result) == spec_map_bit(*old(result), src, check, set),
{
    if get_u64_by_shift_idx(check) & src != 0 {
        *result = *result | get_u64_by_shift_idx(set);
    }
    proof {
        let m = idx_mask(check);
        assert(m & src == src & m) by (bit_vector);
    }
}

pub fn map_u32_bits(src_value: u32, table: &[u8]) -> (r: u32)
    ensures
        r == spec_map_u32_bits(src_value, table@),
{
    let mut result = 0u64;
    let mut i: usize = 0;
    while i < table.len()
        invariant
            i <= table.len(),
            result == map_fold(src_value as u64, table@, i as int),
        decreases table.len() - i,
    {
        map_bit(&mut result, src_value as u64, table[i], i as u8);
        i = i + 1;
    }
    result as u32
}

/// Maps the bits of `src_value` through `table`, the first half of the
/// table for the low word and the second for the high word; a table of odd
/// length cannot be split so.
pub fn map_u64(src_value: u64, table: &[u8]) -> (r: u64)
    requires
        table.len() % 2 == 0,
    ensures
        r == spec_map_u64(src_value, table@),
{
    let n = table.len() / 2;
    let ghost lo_t = table@.take(n as int);
    let ghost hi_t = table@.skip(n as int);
    let mut lo32 = 0u64;
    let mut hi32 = 0u64;
    let mut i: usize = 0;
    while i < n
        invariant
            n == table.len() / 2,
            i <= n,
            lo_t == table@.take(n as int),
            hi_t == table@.skip(n as int),
            lo32 == map_fold(src_value, lo_t, i as int),
            hi32 == map_fold(src_value, hi_t, i as int),
        decreases n - i,
    {
        assert(lo_t[i as int] == table@[i as int]);
        assert(hi_t[i as int] == table@[(n + i) as int]);
        map_bit(&mut lo32, src_value, table[i], i as u8);
        map_bit(&mut hi32, src_value, table[n + i], i as u8);
        i = i + 1;
    }
    make_u64(hi32 as u32, lo32 as u32)
}


/// Two words that agree on every indexed bit are equal.
pub proof fn lemma_idx_bits_ext(a: u64, b: u64)
    requires
        forall|j: u8| j < 64 ==> #[trigger] idx_bit(a, j) == idx_bit(b, j),
    ensures
        a == b,
{
    assert(a & (1u64 << 0u64) == b & (1u64 << 0u64)) by { lemma_bit_same(a, b, 0u64, 31u8); }
    assert(a & (1u64 << 1u64) == b & (1u64 << 1u64)) by { lemma_bit_same(a, b, 1u64, 30u8); }
    assert(a & (1u64 << 2u64) == b & (1u64 << 2u64)) by { lemma_bit_same(a, b, 2u64, 29u8); }
    assert(a & (1u64 << 3u64) == b & (1u64 << 3u64)) by { lemma_bit_same(a, b, 3u64, 28u8); }
    assert(a & (1u64 << 4u64) == b & (1u64 << 4u64)) by { lemma_bit_same(a, b, 4u64, 27u8); }
    assert(a & (1u64 << 5u64) == b & (1u64 << 5u64)) by { lemma_bit_same(a, b, 5u64, 26u8); }
    assert(a & (1u64 << 6u64) == b & (1u64 << 6u64)) by { lemma_bit_same(a, b, 6u64, 25u8); }
    assert(a & (1u64 << 7u64) == b & (1u64 << 7u64)) by { lemma_bit_same(a, b, 7u64, 24u8); }
    assert(a & (1u64 << 8u64) == b & (1u64 << 8u64)) by { lemma_bit_same(a, b, 8u64, 23u8); }
    assert(a & (1u64 << 9u64) == b & (1u64 << 9u64)) by { lemma_bit_same(a, b, 9u64, 22u8); }
    assert(a & (1u64 << 10u64) == b & (1u64 << 10u64)) by { lemma_bit_same(a, b, 10u64, 21u8); }
    assert(a & (1u64 << 11u64) == b & (1u64 << 11u64)) by { lemma_bit_same(a, b, 11u64, 20u8); }
    assert(a & (1u64 << 12u64) == b & (1u64 << 12u64)) by { lemma_bit_same(a, b, 12u64, 19u8); }
    assert(a & (1u64 << 13u64) == b & (1u64 << 13u64)) by { lemma_bit_same(a, b, 13u64, 18u8); }
    assert(a & (1u64 << 14u64) == b & (1u64 << 14u64)) by { lemma_bit_same(a, b, 14u64, 17u8); }
    assert(a & (1u64 << 15u64) == b & (1u64 << 15u64)) by { lemma_bit_same(a, b, 15u64, 16u8); }
    assert(a & (1u64 << 16u64) == b & (1u64 << 16u64)) by { lemma_bit_same(a, b, 16u64, 15u8); }
    assert(a & (1u64 << 17u64) == b & (1u64 << 17u64)) by { lemma_bit_same(a, b, 17u64, 14u8); }
    assert(a & (1u64 << 18u64) == b & (1u64 << 18u64)) by { lemma_bit_same(a, b, 18u64, 13u8); }
    assert(a & (1u64 << 19u64) == b & (1u64 << 19u64)) by { lemma_bit_same(a, b, 19u64, 12u8); }
    assert(a & (1u64 << 20u64) == b & (1u64 << 20u64)) by { lemma_bit_same(a, b, 20u64, 11u8); }
    assert(a & (1u64 << 21u64) == b & (1u64 << 21u64)) by { lemma_bit_same(a, b, 21u64, 10u8); }
    assert(a & (1u64 << 22u64) == b & (1u64 << 22u64)) by { lemma_bit_same(a, b, 22u64, 9u8); }
    assert(a & (1u64 << 23u64) == b & (1u64 << 23u64)) by { lemma_bit_same(a, b, 23u64, 8u8); }
    assert(a & (1u64 << 24u64) == b & (1u64 << 24u64)) by { lemma_bit_same(a, b, 24u64, 7u8); }
    assert(a & (1u64 << 25u64) == b & (1u64 << 25u64)) by { lemma_bit_same(a, b, 25u64, 6u8); }
    assert(a & (1u64 << 26u64) == b & (1u64 << 26u64)) by { lemma_bit_same(a, b, 26u64, 5u8); }
    assert(a & (1u64 << 27u64) == b & (1u64 << 27u64)) by { lemma_bit_same(a, b, 27u64, 4u8); }
    assert(a & (1u64 << 28u64) == b & (1u64 << 28u64)) by { lemma_bit_same(a, b, 28u64, 3u8); }
    assert(a & (1u64 << 29u64) == b & (1u64 << 29u64)) by { lemma_bit_same(a, b, 29u64, 2u8); }
    assert(a & (1u64 << 30u64) == b & (1u64 << 30u64)) by { lemma_bit_same(a, b, 30u64, 1u8); }
    assert(a & (1u64 << 31u64) == b & (1u64 << 31u64)) by { lemma_bit_same(a, b, 31u64, 0u8); }
    assert(a & (1u64 << 32u64) == b & (1u64 << 32u64)) by { lemma_bit_same(a, b, 32u64, 63u8); }
    assert(a & (1u64 << 33u64) == b & (1u64 << 33u64)) by { lemma_bit_same(a, b, 33u64, 62u8); }
    assert(a & (1u64 << 34u64) == b & (1u64 << 34u64)) by { lemma_bit_same(a, b, 34u64, 61u8); }
    assert(a & (1u64 << 35u64) == b & (1u64 << 35u64)) by { lemma_bit_same(a, b, 35u64, 60u8); }
    assert(a & (1u64 << 36u64) == b & (1u64 << 36u64)) by { lemma_bit_same(a, b, 36u64, 59u8); }
    assert(a & (1u64 << 37u64) == b & (1u64 << 37u64)) by { lemma_bit_same(a, b, 37u64, 58u8); }
    assert(a & (1u64 << 38u64) == b & (1u64 << 38u64)) by { lemma_bit_same(a, b, 38u64, 57u8); }
    assert(a & (1u64 << 39u64) == b & (1u64 << 39u64)) by { lemma_bit_same(a, b, 39u64, 56u8); }
    assert(a & (1u64 << 40u64) == b & (1u64 << 40u64)) by { lemma_bit_same(a, b, 40u64, 55u8); }
    assert(a & (1u64 << 41u64) == b & (1u64 << 41u64)) by { lemma_bit_same(a, b, 41u64, 54u8); }
    assert(a & (1u64 << 42u64) == b & (1u64 << 42u64)) by { lemma_bit_same(a, b, 42u64, 53u8); }
    assert(a & (1u64 << 43u64) == b & (1u64 << 43u64)) by { lemma_bit_same(a, b, 43u64, 52u8); }
    assert(a & (1u64 << 44u64) == b & (1u64 << 44u64)) by { lemma_bit_same(a, b, 44u64, 51u8); }
    assert(a & (1u64 << 45u64) == b & (1u64 << 45u64)) by { lemma_bit_same(a, b, 45u64, 50u8); }
    assert(a & (1u64 << 46u64) == b & (1u64 << 46u64)) by { lemma_bit_same(a, b, 46u64, 49u8); }
    assert(a & (1u64 << 47u64) == b & (1u64 << 47u64)) by { lemma_bit_same(a, b, 47u64, 48u8); }
    assert(a & (1u64 << 48u64) == b & (1u64 << 48u64)) by { lemma_bit_same(a, b, 48u64, 47u8); }
    assert(a & (1u64 << 49u64) == b & (1u64 << 49u64)) by { lemma_bit_same(a, b, 49u64, 46u8); }
    assert(a & (1u64 << 50u64) == b & (1u64 << 50u64)) by { lemma_bit_same(a, b, 50u64, 45u8); }
    assert(a & (1u64 << 51u64) == b & (1u64 << 51u64)) by { lemma_bit_same(a, b, 51u64, 44u8); }
    assert(a & (1u64 << 52u64) == b & (1u64 << 52u64)) by { lemma_bit_same(a, b, 52u64, 43u8); }
    assert(a & (1u64 << 53u64) == b & (1u64 << 53u64)) by { lemma_bit_same(a, b, 53u64, 42u8); }
    assert(a & (1u64 << 54u64) == b & (1u64 << 54u64)) by { lemma_bit_same(a, b, 54u64, 41u8); }
    assert(a & (1u64 << 55u64) == b & (1u64 << 55u64)) by { lemma_bit_same(a, b, 55u64, 40u8); }
    assert(a & (1u64 << 56u64) == b & (1u64 << 56u64)) by { lemma_bit_same(a, b, 56u64, 39u8); }
    assert(a & (1u64 << 57u64) == b & (1u64 << 57u64)) by { lemma_bit_same(a, b, 57u64, 38u8); }
    assert(a & (1u64 << 58u64) == b & (1u64 << 58u64)) by { lemma_bit_same(a, b, 58u64, 37u8); }
    assert(a & (1u64 << 59u64) == b & (1u64 << 59u64)) by { lemma_bit_same(a, b, 59u64, 36u8); }
    assert(a & (1u64 << 60u64) == b & (1u64 << 60u64)) by { lemma_bit_same(a, b, 60u64, 35u8); }
    assert(a & (1u64 << 61u64) == b & (1u64 << 61u64)) by { lemma_bit_same(a, b, 61u64, 34u8); }
    assert(a & (1u64 << 62u64) == b & (1u64 << 62u64)) by { lemma_bit_same(a, b, 62u64, 33u8); }
    assert(a & (1u64 << 63u64) == b & (1u64 << 63u64)) by { lemma_bit_same(a, b, 63u64, 32u8); }
    assert(a == b) by (bit_vector)
        requires
            a & (1u64 << 0u64) == b & (1u64 << 0u64),
            a & (1u64 << 1u64) == b & (1u64 << 1u64),
            a & (1u64 << 2u64) == b & (1u64 << 2u64),
            a & (1u64 << 3u64) == b & (1u64 << 3u64),
            a & (1u64 << 4u64) == b & (1u64 << 4u64),
            a & (1u64 << 5u64) == b & (1u64 << 5u64),
            a & (1u64 << 6u64) == b & (1u64 << 6u64),
            a & (1u64 << 7u64) == b & (1u64 << 7u64),
            a & (1u64 << 8u64) == b & (1u64 << 8u64),
            a & (1u64 << 9u64) == b & (1u64 << 9u64),
            a & (1u64 << 10u64) == b & (1u64 << 10u64),
            a & (1u64 << 11u64) == b & (1u64 << 11u64),
            a & (1u64 << 12u64) == b & (1u64 << 12u64),
            a & (1u64 << 13u64) == b & (1u64 << 13u64),
            a & (1u64 << 14u64) == b & (1u64 << 14u64),
            a & (1u64 << 15u64) == b & (1u64 << 15u64),
            a & (1u64 << 16u64) == b & (1u64 << 16u64),
            a & (1u64 << 17u64) == b & (1u64 << 17u64),
            a & (1u64 << 18u64) == b & (1u64 << 18u64),
            a & (1u64 << 19u64) == b & (1u64 << 19u64),
            a & (1u64 << 20u64) == b & (1u64 << 20u64),
            a & (1u64 << 21u64) == b & (1u64 << 21u64),
            a & (1u64 << 22u64) == b & (1u64 << 22u64),
            a & (1u64 << 23u64) == b & (1u64 << 23u64),
            a & (1u64 << 24u64) == b & (1u64 << 24u64),
            a & (1u64 << 25u64) == b & (1u64 << 25u64),
            a & (1u64 << 26u64) == b & (1u64 << 26u64),
            a & (1u64 << 27u64) == b & (1u64 << 27u64),
            a & (1u64 << 28u64) == b & (1u64 << 28u64),
            a & (1u64 << 29u64) == b & (1u64 << 29u64),
            a & (1u64 << 30u64) == b & (1u64 << 30u64),
            a & (1u64 << 31u64) == b & (1u64 << 31u64),
            a & (1u64 << 32u64) == b & (1u64 << 32u64),
            a & (1u64 << 33u64) == b & (1u64 << 33u64),
            a & (1u64 << 34u64) == b & (1u64 << 34u64),
            a & (1u64 << 35u64) == b & (1u64 << 35u64),
            a & (1u64 << 36u64) == b & (1u64 << 36u64),
            a & (1u64 << 37u64) == b & (1u64 << 37u64),
            a & (1u64 << 38u64) == b & (1u64 << 38u64),
            a & (1u64 << 39u64) == b & (1u64 << 39u64),
            a & (1u64 << 40u64) == b & (1u64 << 40u64),
            a & (1u64 << 41u64) == b & (1u64 << 41u64),
            a & (1u64 << 42u64) == b & (1u64 << 42u64),
            a & (1u64 << 43u64) == b & (1u64 << 43u64),
            a & (1u64 << 44u64) == b & (1u64 << 44u64),
            a & (1u64 << 45u64) == b & (1u64 << 45u64),
            a & (1u64 << 46u64) == b & (1u64 << 46u64),
            a & (1u64 << 47u64) == b & (1u64 << 47u64),
            a & (1u64 << 48u64) == b & (1u64 << 48u64),
            a & (1u64 << 49u64) == b & (1u64 << 49u64),
            a & (1u64 << 50u64) == b & (1u64 << 50u64),
            a & (1u64 << 51u64) == b & (1u64 << 51u64),
            a & (1u64 << 52u64) == b & (1u64 << 52u64),
            a & (1u64 << 53u64) == b & (1u64 << 53u64),
            a & (1u64 << 54u64) == b & (1u64 << 54u64),
            a & (1u64 << 55u64) == b & (1u64 << 55u64),
            a & (1u64 << 56u64) == b & (1u64 << 56u64),
            a & (1u64 << 57u64) == b & (1u64 << 57u64),
            a & (1u64 << 58u64) == b & (1u64 << 58u64),
            a & (1u64 << 59u64) == b & (1u64 << 59u64),
            a & (1u64 << 60u64) == b & (1u64 << 60u64),
            a & (1u64 << 61u64) == b & (1u64 << 61u64),
            a & (1u64 << 62u64) == b & (1u64 << 62u64),
            a & (1u64 << 63u64) == b & (1u64 << 63u64),
    ;
}

proof fn lemma_bit_same(a: u64, b: u64, s: u64, j: u8)
    requires
        s < 64,
        j < 64,
        idx_shift(j) == s,
        idx_bit(a, j) == idx_bit(b, j),
    ensures
        a & (1u64 << s) == b & (1u64 << s),
{
    assert((a & (1u64 << s) != 0) == (b & (1u64 << s) != 0) ==> a & (1u64 << s) == b & (1u64 << s))
        by (bit_vector)
        requires s < 64;
}


proof fn lemma_or_one_bit(x: u64, s: u64, t: u64)
    requires
        s < 64,
        t < 64,
    ensures
        ((x | (1u64 << s)) & (1u64 << t) != 0) == (x & (1u64 << t) != 0 || s == t),
{
    assert(((x | (1u64 << s)) & (1u64 << t) != 0) == (x & (1u64 << t) != 0 || s == t))
        by (bit_vector)
        requires s < 64, t < 64;
}

proof fn lemma_or_low_bit_bound(x: u64, s: u64)
    requires
        s < 32,
        x < 0x1_0000_0000,
    ensures
        x | (1u64 << s) < 0x1_0000_0000,
{
    assert(x | (1u64 << s) < 0x1_0000_0000) by (bit_vector)
        requires s < 32, x < 0x1_0000_0000;
}

/// The bit position of an index below 64, written out.
pub proof fn lemma_idx_shift(j: u8)
    requires
        j < 64,
    ensures
        j < 32 ==> idx_shift(j) == 31 - j,
        j >= 32 ==> idx_shift(j) == 95 - j,
{
    if j < 32 {
        assert((287 - j as int) % 64 == 31 - j) by (nonlinear_arith)
            requires j < 32;
    } else {
        assert((287 - j as int) % 64 == 95 - j) by (nonlinear_arith)
            requires 32 <= j < 64;
    }
}

proof fn lemma_zero_has_no_bits(t: u64)
    requires
        t < 64,
    ensures
        0u64 & (1u64 << t) == 0,
{
    assert(0u64 & (1u64 << t) == 0) by (bit_vector);
}

/// Bit by bit, the first `k` entries of a table of at most 32 entries.
pub proof fn lemma_map_fold_bits(src: u64, table: Seq<u8>, k: int)
    requires
        0 <= k <= table.len(),
        k <= 32,
    ensures
        map_fold(src, table, k) < pow32(),
        forall|j: u8|
            j < 32 ==> #[trigger] idx_bit(map_fold(src, table, k), j) == ((j as int) < k
                && idx_bit(src, table[j as int])),
    decreases k,
{
    if k == 0 {
        assert forall|j: u8| j < 32 implies !#[trigger] idx_bit(map_fold(src, table, k), j) by {
            lemma_idx_shift(j);
            lemma_zero_has_no_bits(idx_shift(j));
        }
    } else {
        lemma_map_fold_bits(src, table, k - 1);
        let prev = map_fold(src, table, k - 1);
        let set = (k - 1) as u8;
        lemma_idx_shift(set);
        if idx_bit(src, table[k - 1]) {
            lemma_or_low_bit_bound(prev, idx_shift(set));
            let cur = map_fold(src, table, k);
            assert(cur == prev | (1u64 << idx_shift(set)));
            assert forall|j: u8| j < 32 implies #[trigger] idx_bit(map_fold(src, table, k), j) == (
            (j as int) < k && idx_bit(src, table[j as int])) by {
                lemma_idx_shift(j);
                lemma_or_one_bit(prev, idx_shift(set), idx_shift(j));
                assert(idx_bit(cur, j) == (idx_bit(prev, j) || idx_shift(set) == idx_shift(j)));
                assert((idx_shift(set) == idx_shift(j)) == (j as int == k - 1));
            }
        } else {
            assert forall|j: u8| j < 32 implies #[trigger] idx_bit(map_fold(src, table, k), j) == (
            (j as int) < k && idx_bit(src, table[j as int])) by {
                assert(idx_bit(prev, j) == ((j as int) < k - 1 && idx_bit(src, table[j as int])));
            }
        }
    }
}

proof fn lemma_make_bits(hi: u32, lo: u32, s: u64)
    requires
        s < 32,
    ensures
        (spec_make_u64(hi, lo) & (1u64 << s) != 0) == ((lo as u64) & (1u64 << s) != 0),
        (spec_make_u64(hi, lo) & (1u64 << (s + 32) as u64) != 0) == ((hi as u64) & (1u64 << s)
            != 0),
{
    assert(((hi as u64) << 32u64) | (lo as u64) == hi as int * 0x1_0000_0000 + lo as int)
        by (bit_vector);
    let m = ((hi as u64) << 32u64) | (lo as u64);
    assert((m & (1u64 << s) != 0) == ((lo as u64) & (1u64 << s) != 0)) by (bit_vector)
        requires s < 32, m == ((hi as u64) << 32u64) | (lo as u64);
    assert((m & (1u64 << (s + 32) as u64) != 0) == ((hi as u64) & (1u64 << s) != 0))
        by (bit_vector)
        requires s < 32, m == ((hi as u64) << 32u64) | (lo as u64);
}

/// Bit by bit, a full 64-entry table: the bit at index `j` of the result is
/// the bit of `src` that entry `j` designates.
pub proof fn lemma_map_u64_bits(src: u64, table: Seq<u8>)
    requires
        table.len() == 64,
    ensures
        forall|j: u8|
            j < 64 ==> #[trigger] idx_bit(spec_map_u64(src, table), j) == idx_bit(
                src,
                table[j as int],
            ),
{
    let lo_t = table.take(32);
    let hi_t = table.skip(32);
    lemma_map_fold_bits(src, lo_t, 32);
    lemma_map_fold_bits(src, hi_t, 32);
    let lo = map_fold(src, lo_t, 32);
    let hi = map_fold(src, hi_t, 32);
    assert(lo as u32 as u64 == lo);
    assert(hi as u32 as u64 == hi);
    assert forall|j: u8| j < 64 implies #[trigger] idx_bit(spec_map_u64(src, table), j) == idx_bit(
        src,
        table[j as int],
    ) by {
        if j < 32 {
            lemma_idx_shift(j);
            lemma_make_bits(hi as u32, lo as u32, idx_shift(j));
            assert(idx_bit(lo, j) == idx_bit(src, lo_t[j as int]));
        } else {
            let j2 = (j - 32) as u8;
            lemma_idx_shift(j);
            lemma_idx_shift(j2);
            lemma_make_bits(hi as u32, lo as u32, idx_shift(j2));
            assert(idx_bit(hi, j2) == idx_bit(src, hi_t[j2 as int]));
        }
    }
}

/// The mask of every index below 64 is the cached table entry.
pub proof fn lemma_shift_table_cache()
    ensures
        forall|i: u8| i < 64 ==> #[trigger] idx_mask(i) == super::data::U64_SHIFT_TABLE_CACHE@[i as int],
{
    vstd::arithmetic::power2::lemma2_to64();
    vstd::arithmetic::power2::lemma2_to64_rest();
    assert forall|i: u8| i < 64 implies #[trigger] idx_mask(i) == super::data::U64_SHIFT_TABLE_CACHE@[i as int] by {
        lemma_idx_shift(i);
        vstd::bits::lemma_u64_shl_is_mul(1u64, idx_shift(i));
        assert(i == 0 || i == 1 || i == 2 || i == 3 || i == 4 || i == 5 || i == 6 || i == 7 || i == 8 || i == 9 || i == 10 || i == 11 || i == 12 || i == 13 || i == 14 || i == 15 || i == 16 || i == 17 || i == 18 || i == 19 || i == 20 || i == 21 || i == 22 || i == 23 || i == 24 || i == 25 || i == 26 || i == 27 || i == 28 || i == 29 || i == 30 || i == 31 || i == 32 || i == 33 || i == 34 || i == 35 || i == 36 || i == 37 || i == 38 || i == 39 || i == 40 || i == 41 || i == 42 || i == 43 || i == 44 || i == 45 || i == 46 || i == 47 || i == 48 || i == 49 || i == 50 || i == 51 || i == 52 || i == 53 || i == 54 || i == 55 || i == 56 || i == 57 || i == 58 || i == 59 || i == 60 || i == 61 || i == 62 || i == 63);
    }
}

} // verus!
