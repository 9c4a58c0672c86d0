//! What the QRC DES keeps across calls: decryption undoes encryption.
use vstd::prelude::*;

use super::data::{IP, IP_INV};
use super::des_impl::{
    sbox_fold, sbox_input, spec_sbox_transform, LARGE_STATE_SHIFTS,
    crypt_bytes_at, spec_crypt_bytes, spec_des_crypt, spec_des_crypt_proc, spec_des_ip,
    spec_des_ip_inv, spec_rounds,
};
use super::int_helper::{
    idx_bit, lemma_idx_bits_ext, lemma_map_u64_bits, pow32, spec_hi32, spec_lo32, spec_make_u64,
    spec_swap_u64_side,
};
use crate::bytes::{
    lemma_bytes_of_le_u64, lemma_le_u64_of_bytes, spec_le_u64, spec_u64_le_bytes,
};

verus! {

proof fn lemma_make_halves(hi: u32, lo: u32)
    ensures
        spec_lo32(spec_make_u64(hi, lo)) == lo,
        spec_hi32(spec_make_u64(hi, lo)) == hi,
{
    let v = hi as int * pow32() + lo as int;
    assert(0 <= v < 0x1_0000_0000_0000_0000) by (nonlinear_arith)
        requires v == hi as int * 0x1_0000_0000 + lo as int, hi < 0x1_0000_0000, lo < 0x1_0000_0000;
    assert(v % 0x1_0000_0000 == lo as int && v / 0x1_0000_0000 == hi as int) by (nonlinear_arith)
        requires v == hi as int * 0x1_0000_0000 + lo as int, hi < 0x1_0000_0000, lo < 0x1_0000_0000;
}

proof fn lemma_split_make(x: u64)
    ensures
        spec_make_u64(spec_hi32(x), spec_lo32(x)) == x,
{
    let v = x as int;
    assert(v / 0x1_0000_0000 * 0x1_0000_0000 + v % 0x1_0000_0000 == v
        && v / 0x1_0000_0000 < 0x1_0000_0000 && 0 <= v % 0x1_0000_0000 < 0x1_0000_0000)
        by (nonlinear_arith)
        requires 0 <= v < 0x1_0000_0000_0000_0000;
}

proof fn lemma_swap_swap(x: u64)
    ensures
        spec_swap_u64_side(spec_swap_u64_side(x)) == x,
{
    lemma_make_halves(spec_lo32(x), spec_hi32(x));
    lemma_split_make(x);
}

proof fn lemma_xor_cancel(a: u32, b: u32)
    ensures
        a ^ (a ^ b) == b,
{
    assert(a ^ (a ^ b) == b) by (bit_vector);
}

/// One Feistel round: the right half of the input becomes the left half of
/// the result, and the same round key applied to the swapped result gives
/// the swapped input back.
pub proof fn lemma_round_undone(s: u64, key: u64)
    ensures
        spec_lo32(spec_des_crypt_proc(s, key)) == spec_hi32(s),
        spec_des_crypt_proc(spec_swap_u64_side(spec_des_crypt_proc(s, key)), key)
            == spec_swap_u64_side(s),
{
    let r = spec_hi32(s);
    let l = spec_lo32(s);
    let f = super::des_impl::spec_round_f(r, key);
    let t = spec_des_crypt_proc(s, key);
    lemma_make_halves(f ^ l, r);
    let u = spec_swap_u64_side(t);
    lemma_make_halves(r, f ^ l);
    lemma_xor_cancel(f, l);
}

proof fn lemma_rounds_single(s: u64, k: u64)
    ensures
        spec_rounds(s, seq![k]) == spec_des_crypt_proc(s, k),
{
    assert(seq![k].drop_last() =~= Seq::<u64>::empty());
    assert(spec_rounds(s, Seq::<u64>::empty()) == s);
}

/// Rounds over a concatenation are the rounds of each part in turn.
proof fn lemma_rounds_concat(s: u64, a: Seq<u64>, b: Seq<u64>)
    ensures
        spec_rounds(s, a + b) == spec_rounds(spec_rounds(s, a), b),
    decreases b.len(),
{
    if b.len() == 0 {
        assert(a + b =~= a);
    } else {
        assert((a + b).drop_last() =~= a + b.drop_last());
        assert((a + b).last() == b.last());
        lemma_rounds_concat(s, a, b.drop_last());
    }
}

/// The rounds with reversed keys, undone by the rounds with the keys in order.
pub proof fn lemma_rounds_reversed_undone(s: u64, keys: Seq<u64>)
    ensures
        spec_rounds(spec_swap_u64_side(spec_rounds(s, keys.reverse())), keys)
            == spec_swap_u64_side(s),
    decreases keys.len(),
{
    if keys.len() == 0 {
        assert(keys.reverse() =~= keys);
    } else {
        let k = keys[0];
        let rest = keys.drop_first();
        assert(keys.reverse() =~= rest.reverse() + seq![k]);
        assert(keys =~= seq![k] + rest);
        let a = spec_rounds(s, rest.reverse());
        lemma_rounds_concat(s, rest.reverse(), seq![k]);
        lemma_rounds_single(a, k);
        let t = spec_swap_u64_side(spec_des_crypt_proc(a, k));
        lemma_rounds_concat(t, seq![k], rest);
        lemma_rounds_single(t, k);
        lemma_round_undone(a, k);
        lemma_rounds_reversed_undone(s, rest);
    }
}

/// The rounds with keys in order, undone by the rounds with reversed keys.
pub proof fn lemma_rounds_undone_reversed(s: u64, keys: Seq<u64>)
    ensures
        spec_rounds(spec_swap_u64_side(spec_rounds(s, keys)), keys.reverse())
            == spec_swap_u64_side(s),
{
    assert(keys.reverse().reverse() =~= keys);
    lemma_rounds_reversed_undone(s, keys.reverse());
}

/// The final permutation undoes the initial one, and the other way round.
pub proof fn lemma_ip_inverse(x: u64)
    ensures
        spec_des_ip_inv(spec_des_ip(x)) == x,
        spec_des_ip(spec_des_ip_inv(x)) == x,
{
    assert forall|j: int| 0 <= j < 64 implies IP@[IP_INV@[j] as int] == j && IP_INV@[IP@[j] as int]
        == j && IP@[j] < 64 && IP_INV@[j] < 64 by {
        assert(j == 0 || j == 1 || j == 2 || j == 3 || j == 4 || j == 5 || j == 6 || j == 7 || j
            == 8 || j == 9 || j == 10 || j == 11 || j == 12 || j == 13 || j == 14 || j == 15 || j
            == 16 || j == 17 || j == 18 || j == 19 || j == 20 || j == 21 || j == 22 || j == 23 || j
            == 24 || j == 25 || j == 26 || j == 27 || j == 28 || j == 29 || j == 30 || j == 31 || j
            == 32 || j == 33 || j == 34 || j == 35 || j == 36 || j == 37 || j == 38 || j == 39 || j
            == 40 || j == 41 || j == 42 || j == 43 || j == 44 || j == 45 || j == 46 || j == 47 || j
            == 48 || j == 49 || j == 50 || j == 51 || j == 52 || j == 53 || j == 54 || j == 55 || j
            == 56 || j == 57 || j == 58 || j == 59 || j == 60 || j == 61 || j == 62 || j == 63);
    }
    let y = spec_des_ip(x);
    lemma_map_u64_bits(x, IP@);
    lemma_map_u64_bits(y, IP_INV@);
    assert forall|j: u8| j < 64 implies #[trigger] idx_bit(spec_des_ip_inv(y), j) == idx_bit(x, j) by {
        assert(idx_bit(spec_des_ip_inv(y), j) == idx_bit(y, IP_INV@[j as int]));
        assert(idx_bit(y, IP_INV@[j as int]) == idx_bit(x, IP@[IP_INV@[j as int] as int]));
    }
    lemma_idx_bits_ext(spec_des_ip_inv(y), x);

    let z = spec_des_ip_inv(x);
    lemma_map_u64_bits(x, IP_INV@);
    lemma_map_u64_bits(z, IP@);
    assert forall|j: u8| j < 64 implies #[trigger] idx_bit(spec_des_ip(z), j) == idx_bit(x, j) by {
        assert(idx_bit(spec_des_ip(z), j) == idx_bit(z, IP@[j as int]));
        assert(idx_bit(z, IP@[j as int]) == idx_bit(x, IP_INV@[IP@[j as int] as int]));
    }
    lemma_idx_bits_ext(spec_des_ip(z), x);
}

/// Decrypting a block that was encrypted with the same round keys gives the block back.
pub proof fn lemma_des_decrypt_encrypt(subkeys: Seq<u64>, data: u64)
    ensures
        spec_des_crypt(subkeys, spec_des_crypt(subkeys, data, true), false) == data,
{
    let s = spec_des_ip(data);
    let z = spec_swap_u64_side(spec_rounds(s, subkeys.reverse()));
    lemma_ip_inverse(data);
    lemma_ip_inverse(z);
    lemma_rounds_reversed_undone(s, subkeys);
    lemma_swap_swap(s);
}

/// Encrypting a block that was decrypted with the same round keys gives the block back.
pub proof fn lemma_des_encrypt_decrypt(subkeys: Seq<u64>, data: u64)
    ensures
        spec_des_crypt(subkeys, spec_des_crypt(subkeys, data, false), true) == data,
{
    let s = spec_des_ip(data);
    let z = spec_swap_u64_side(spec_rounds(s, subkeys));
    lemma_ip_inverse(data);
    lemma_ip_inverse(z);
    lemma_rounds_undone_reversed(s, subkeys);
    lemma_swap_swap(s);
}

proof fn lemma_block_of_crypt_bytes(subkeys: Seq<u64>, data: Seq<u8>, enc: bool, start: int)
    requires
        data.len() % 8 == 0,
        0 <= start,
        start % 8 == 0,
        start + 8 <= data.len(),
    ensures
        spec_crypt_bytes(subkeys, data, enc).subrange(start, start + 8) == spec_u64_le_bytes(
            spec_des_crypt(subkeys, spec_le_u64(data.subrange(start, start + 8)), enc),
        ),
{
    let out = spec_crypt_bytes(subkeys, data, enc);
    assert forall|k: int| 0 <= k < 8 implies #[trigger] out.subrange(start, start + 8)[k] == spec_u64_le_bytes(
        spec_des_crypt(subkeys, spec_le_u64(data.subrange(start, start + 8)), enc),
    )[k] by {
        let i = start + k;
        assert(i / 8 * 8 == start && i % 8 == k) by (nonlinear_arith)
            requires i == start + k, start % 8 == 0, 0 <= k < 8, 0 <= start;
        assert(out[i] == crypt_bytes_at(subkeys, data, enc, i));
    }
    assert(out.subrange(start, start + 8) =~= spec_u64_le_bytes(
        spec_des_crypt(subkeys, spec_le_u64(data.subrange(start, start + 8)), enc),
    ));
}

/// Decrypting bytes that were encrypted with the same key gives them back.
#[verifier::spinoff_prover]
#[verifier::rlimit(40)]
pub proof fn lemma_des_bytes_decrypt_encrypt(subkeys: Seq<u64>, data: Seq<u8>)
    requires
        data.len() % 8 == 0,
    ensures
        spec_crypt_bytes(subkeys, spec_crypt_bytes(subkeys, data, true), false) == data,
{
    let enc = spec_crypt_bytes(subkeys, data, true);
    let dec = spec_crypt_bytes(subkeys, enc, false);
    assert forall|i: int| 0 <= i < data.len() implies dec[i] == data[i] by {
        let start = i / 8 * 8;
        assert(start % 8 == 0 && 0 <= start && start <= i < start + 8 && start + 8 <= data.len())
            by (nonlinear_arith)
            requires start == i / 8 * 8, 0 <= i < data.len(), data.len() % 8 == 0;
        let block = data.subrange(start, start + 8);
        let c = spec_des_crypt(subkeys, spec_le_u64(block), true);
        lemma_block_of_crypt_bytes(subkeys, data, true, start);
        lemma_le_u64_of_bytes(c);
        lemma_des_decrypt_encrypt(subkeys, spec_le_u64(block));
        lemma_bytes_of_le_u64(block);
        assert(dec[i] == crypt_bytes_at(subkeys, enc, false, i));
        assert(block[i % 8] == data[i]);
    }
    assert(dec =~= data);
}

/// Encrypting bytes that were decrypted with the same key gives them back.
#[verifier::spinoff_prover]
#[verifier::rlimit(40)]
pub proof fn lemma_des_bytes_encrypt_decrypt(subkeys: Seq<u64>, data: Seq<u8>)
    requires
        data.len() % 8 == 0,
    ensures
        spec_crypt_bytes(subkeys, spec_crypt_bytes(subkeys, data, false), true) == data,
{
    let dec = spec_crypt_bytes(subkeys, data, false);
    let enc = spec_crypt_bytes(subkeys, dec, true);
    assert forall|i: int| 0 <= i < data.len() implies enc[i] == data[i] by {
        let start = i / 8 * 8;
        assert(start % 8 == 0 && 0 <= start && start <= i < start + 8 && start + 8 <= data.len())
            by (nonlinear_arith)
            requires start == i / 8 * 8, 0 <= i < data.len(), data.len() % 8 == 0;
        let block = data.subrange(start, start + 8);
        let c = spec_des_crypt(subkeys, spec_le_u64(block), false);
        lemma_block_of_crypt_bytes(subkeys, data, false, start);
        lemma_le_u64_of_bytes(c);
        lemma_des_encrypt_decrypt(subkeys, spec_le_u64(block));
        lemma_bytes_of_le_u64(block);
        assert(enc[i] == crypt_bytes_at(subkeys, dec, true, i));
        assert(block[i % 8] == data[i]);
    }
    assert(enc =~= data);
}

/// The blocks of a block-aligned stretch of data go through the cipher as
/// they do within the whole data.
pub proof fn lemma_crypt_bytes_subrange(subkeys: Seq<u64>, data: Seq<u8>, enc: bool, p: int, q: int)
    requires
        0 <= p <= q <= data.len(),
        p % 8 == 0,
        q % 8 == 0,
    ensures
        spec_crypt_bytes(subkeys, data.subrange(p, q), enc) == spec_crypt_bytes(subkeys, data, enc).subrange(p, q),
{
    let sub = data.subrange(p, q);
    let a = spec_crypt_bytes(subkeys, sub, enc);
    let b = spec_crypt_bytes(subkeys, data, enc).subrange(p, q);
    assert forall|i: int| 0 <= i < q - p implies a[i] == b[i] by {
        let st = i / 8 * 8;
        assert((p + i) / 8 * 8 == p + st && (p + i) % 8 == i % 8 && 0 <= st && st + 8 <= q - p)
            by (nonlinear_arith)
            requires st == i / 8 * 8, p % 8 == 0, q % 8 == 0, 0 <= i < q - p, 0 <= p;
        assert(sub.subrange(st, st + 8) =~= data.subrange(p + st, p + st + 8));
        assert(a[i] == crypt_bytes_at(subkeys, sub, enc, i));
        assert(b[i] == crypt_bytes_at(subkeys, data, enc, p + i));
    }
    assert(a =~= b);
}

/// The S-boxes read only the six-bit fields at shifts 8 to 26 and 40 to 58
/// of the expanded state: bits 0 to 7 and 32 to 39 never change the result.
pub proof fn lemma_sbox_ignores_low_bytes(state: u64)
    ensures
        spec_sbox_transform(state) == spec_sbox_transform(state & 0xFFFF_FF00_FFFF_FF00u64),
{
    let m = state & 0xFFFF_FF00_FFFF_FF00u64;
    assert forall|i: int| 0 <= i < 8 implies #[trigger] sbox_input(state, i) == sbox_input(m, i) by {
        let sh = LARGE_STATE_SHIFTS@[i];
        assert(sh == 26 || sh == 20 || sh == 14 || sh == 8 || sh == 58 || sh == 52 || sh == 46
            || sh == 40);
        assert(((state >> sh) & 0x3f) == ((m >> sh) & 0x3f)) by (bit_vector)
            requires
                m == state & 0xFFFF_FF00_FFFF_FF00u64,
                sh == 26 || sh == 20 || sh == 14 || sh == 8 || sh == 58 || sh == 52 || sh == 46
                    || sh == 40;
    }
    lemma_sbox_fold_same(state, m, 8);
}

proof fn lemma_sbox_fold_same(a: u64, b: u64, k: int)
    requires
        0 <= k <= 8,
        forall|i: int| 0 <= i < 8 ==> #[trigger] sbox_input(a, i) == sbox_input(b, i),
    ensures
        sbox_fold(a, k) == sbox_fold(b, k),
    decreases k,
{
    if k > 0 {
        lemma_sbox_fold_same(a, b, k - 1);
        assert(sbox_input(a, k - 1) == sbox_input(b, k - 1));
    }
}

} // verus!
