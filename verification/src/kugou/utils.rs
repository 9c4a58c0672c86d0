//! Key derivation helpers of Kugou's format.
use md5::{Digest, Md5};
use vstd::prelude::*;

use crate::bytes::spec_u32_le_bytes;

verus! {

/// The MD5 digest of `data`.
pub uninterp spec fn spec_md5(data: Seq<u8>) -> Seq<u8>;

/// Calls `md5::Md5::digest` (RustCrypto's `md-5`): the result is the
/// digest of `data`, a function of `data` alone. Nothing more is stated of
/// it; the sixteen bytes come from the array type.
#[verifier::external_body]
fn md5_digest(data: &[u8]) -> (r: [u8; 16])
    ensures
        r@ == spec_md5(data@),
{
    let digest = Md5::digest(data);
    let mut result = [0u8; 16];
    result.copy_from_slice(&digest);
    result
}

/// The digest with the order of its sixteen-bit words reversed.
pub open spec fn spec_md5_kugou(data: Seq<u8>) -> Seq<u8> {
    let d = spec_md5(data);
    Seq::new(16, |i: int| if i % 2 == 0 { d[14 - i] } else { d[16 - i] })
}

pub fn md5_kugou(buffer: &[u8]) -> (r: [u8; 16])
    ensures
        r@ == spec_md5_kugou(buffer@),
{
    let digest = md5_digest(buffer);
    let mut result = [0u8; 16];
    let mut i: usize = 0;
    while i < 16
        invariant
            i <= 16,
            i % 2 == 0,
            digest@ == spec_md5(buffer@),
            forall|j: int| 0 <= j < i ==> result@[j] == spec_md5_kugou(buffer@)[j],
        decreases 16 - i,
    {
        result[i] = digest[14 - i];
        result[i + 1] = digest[14 - i + 1];
        i = i + 2;
    }
    assert(result@ =~= spec_md5_kugou(buffer@));
    result
}

/// The exclusive-or of the four little-endian bytes of the low 32 bits of `offset`.
pub open spec fn offset_xor(offset: u64) -> u8 {
    let b = spec_u32_le_bytes(offset as u32);
    b[0] ^ b[1] ^ b[2] ^ b[3]
}

/// The step shared by every Kugou mode: a byte XORed with itself shifted
/// up by four bits. Applying it twice gives the byte back.
pub open spec fn spec_mix(t: u8) -> u8 {
    t ^ (t << 4u8)
}

pub proof fn lemma_mix_involution(t: u8)
    ensures
        spec_mix(spec_mix(t)) == t,
{
    assert((t ^ (t << 4u8)) ^ ((t ^ (t << 4u8)) << 4u8) == t) by (bit_vector);
}

/// The offset byte is the exclusive-or of the four bytes of the offset's low
/// 32 bits: the low byte of `x ^ x >> 8 ^ x >> 16 ^ x >> 24` for `x` those
/// bits.
pub proof fn lemma_offset_xor_bytes(offset: u64)
    ensures
        offset_xor(offset) as u32 == ((offset as u32) ^ ((offset as u32) >> 8u32) ^ ((offset as u32)
            >> 16u32) ^ ((offset as u32) >> 24u32)) & 0xffu32,
{
    let x = offset as u32;
    let b = spec_u32_le_bytes(x);
    assert(b[0] == (x % 0x100) as u8 && b[1] == ((x / 0x100) % 0x100) as u8 && b[2] == ((x
        / 0x10000) % 0x100) as u8 && b[3] == ((x / 0x1000000) % 0x100) as u8);
    assert((((x % 0x100) as u8 ^ ((x / 0x100) % 0x100) as u8 ^ ((x / 0x10000) % 0x100) as u8 ^ ((x
        / 0x1000000) % 0x100) as u8) as u32) == (x ^ (x >> 8u32) ^ (x >> 16u32) ^ (x >> 24u32))
        & 0xffu32) by (bit_vector);
}

/// The offset byte of two offsets XORed together is the XOR of their offset
/// bytes: each offset bit flips the offset byte the same way wherever it
/// stands.
pub proof fn lemma_offset_xor_linear(o1: u64, o2: u64)
    ensures
        offset_xor(o1) ^ offset_xor(o2) == offset_xor(o1 ^ o2),
{
    lemma_offset_xor_bytes(o1);
    lemma_offset_xor_bytes(o2);
    lemma_offset_xor_bytes(o1 ^ o2);
    let a = o1 as u32;
    let b = o2 as u32;
    let c = (o1 ^ o2) as u32;
    assert(c == a ^ b) by (bit_vector)
        requires a == o1 as u32, b == o2 as u32, c == (o1 ^ o2) as u32;
    let fa = offset_xor(o1);
    let fb = offset_xor(o2);
    let fc = offset_xor(o1 ^ o2);
    assert(fa ^ fb == fc) by (bit_vector)
        requires
            fa as u32 == (a ^ (a >> 8u32) ^ (a >> 16u32) ^ (a >> 24u32)) & 0xffu32,
            fb as u32 == (b ^ (b >> 8u32) ^ (b >> 16u32) ^ (b >> 24u32)) & 0xffu32,
            fc as u32 == (c ^ (c >> 8u32) ^ (c >> 16u32) ^ (c >> 24u32)) & 0xffu32,
            c == a ^ b;
}

} // verus!
