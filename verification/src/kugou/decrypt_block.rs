//! The byte transform of Kugou's third mode, on keys of any length.
use vstd::prelude::*;

use super::utils::{offset_xor, spec_mix};
use crate::bytes::u32_to_le_bytes;

verus! {

/// A byte at stream offset `offset`, decrypted.
pub open spec fn kgm3_decrypt_byte(b: u8, key1: Seq<u8>, key2: Seq<u8>, offset: u64) -> u8 {
    let idx = offset as usize as int;
    let t = spec_mix(b ^ key2[idx % key2.len() as int]) ^ key1[idx % key1.len() as int];
    t ^ offset_xor(offset)
}

/// A byte at stream offset `offset`, encrypted.
pub open spec fn kgm3_encrypt_byte(b: u8, key1: Seq<u8>, key2: Seq<u8>, offset: u64) -> u8 {
    let idx = offset as usize as int;
    let t = b ^ offset_xor(offset) ^ key1[idx % key1.len() as int];
    spec_mix(t) ^ key2[idx % key2.len() as int]
}

/// Bytes starting at stream offset `offset`, decrypted.
pub open spec fn spec_kgm3_decrypt(key1: Seq<u8>, key2: Seq<u8>, offset: u64, data: Seq<u8>) -> Seq<u8> {
    Seq::new(data.len(), |i: int| kgm3_decrypt_byte(data[i], key1, key2, (offset + i) as u64))
}

/// Bytes starting at stream offset `offset`, encrypted.
pub open spec fn spec_kgm3_encrypt(key1: Seq<u8>, key2: Seq<u8>, offset: u64, data: Seq<u8>) -> Seq<u8> {
    Seq::new(data.len(), |i: int| kgm3_encrypt_byte(data[i], key1, key2, (offset + i) as u64))
}

pub fn offset_xor_byte(offset: u64) -> (r: u8)
    ensures
        r == offset_xor(offset),
{
    let off_bytes = u32_to_le_bytes(offset as u32);
    off_bytes[0] ^ off_bytes[1] ^ off_bytes[2] ^ off_bytes[3]
}

/// Decrypts `buffer`, which starts at stream offset `offset`.
pub fn decrypt_block(offset: u64, buffer: &mut [u8], key1: &[u8], key2: &[u8])
    requires
        offset + old(buffer)@.len() <= u64::MAX,
        old(buffer)@.len() > 0 ==> key1@.len() > 0 && key2@.len() > 0,
    ensures
        final(buffer)@ == spec_kgm3_decrypt(key1@, key2@, offset, old(buffer)@),
{
    let ghost orig = buffer@;
    let mut offset = offset;
    let ghost start = offset;
    let mut i: usize = 0;
    while i < buffer.len()
        invariant
            buffer@.len() == orig.len(),
            i <= orig.len(),
            offset == start + i,
            start + orig.len() <= u64::MAX,
            orig.len() > 0 ==> key1@.len() > 0 && key2@.len() > 0,
            forall|j: int| 0 <= j < i ==> buffer@[j] == kgm3_decrypt_byte(orig[j], key1@, key2@, (start + j) as u64),
            forall|j: int| i <= j < orig.len() ==> buffer@[j] == orig[j],
        decreases orig.len() - i,
    {
        let off_usize = offset as usize;
        let item = buffer[i];
        let temp = item ^ key2[off_usize % key2.len()];
        let temp = temp ^ (temp << 4u8) ^ key1[off_usize % key1.len()];
        let temp = temp ^ offset_xor_byte(offset);
        buffer[i] = temp;
        offset = offset + 1;
        i = i + 1;
    }
    assert(buffer@ =~= spec_kgm3_decrypt(key1@, key2@, start, orig));
}

/// Decrypting bytes that were encrypted at the same offset with the same keys
/// gives them back.
pub proof fn lemma_kgm3_decrypt_encrypt(key1: Seq<u8>, key2: Seq<u8>, offset: u64, data: Seq<u8>)
    requires
        key1.len() > 0,
        key2.len() > 0,
    ensures
        spec_kgm3_decrypt(key1, key2, offset, spec_kgm3_encrypt(key1, key2, offset, data)) == data,
{
    let e = spec_kgm3_encrypt(key1, key2, offset, data);
    let d = spec_kgm3_decrypt(key1, key2, offset, e);
    assert forall|i: int| 0 <= i < data.len() implies d[i] == data[i] by {
        let o = (offset + i) as u64;
        let idx = o as usize as int;
        let k1 = key1[idx % key1.len() as int];
        let k2 = key2[idx % key2.len() as int];
        let x = offset_xor(o);
        let b = data[i];
        super::utils::lemma_mix_involution(b ^ x ^ k1);
        assert(spec_mix(b ^ x ^ k1) ^ k2 ^ k2 == spec_mix(b ^ x ^ k1)) by (bit_vector);
        assert(((b ^ x ^ k1) ^ k1) ^ x == b) by (bit_vector);
    }
    assert(d =~= data);
}

/// Encrypting bytes that were decrypted at the same offset with the same keys
/// gives them back.
pub proof fn lemma_kgm3_encrypt_decrypt(key1: Seq<u8>, key2: Seq<u8>, offset: u64, data: Seq<u8>)
    requires
        key1.len() > 0,
        key2.len() > 0,
    ensures
        spec_kgm3_encrypt(key1, key2, offset, spec_kgm3_decrypt(key1, key2, offset, data)) == data,
{
    let d = spec_kgm3_decrypt(key1, key2, offset, data);
    let e = spec_kgm3_encrypt(key1, key2, offset, d);
    assert forall|i: int| 0 <= i < data.len() implies e[i] == data[i] by {
        let o = (offset + i) as u64;
        let idx = o as usize as int;
        let k1 = key1[idx % key1.len() as int];
        let k2 = key2[idx % key2.len() as int];
        let x = offset_xor(o);
        let b = data[i];
        super::utils::lemma_mix_involution(b ^ k2);
        assert(((spec_mix(b ^ k2) ^ k1 ^ x) ^ x ^ k1) == spec_mix(b ^ k2)) by (bit_vector);
        assert((b ^ k2) ^ k2 == b) by (bit_vector);
    }
    assert(e =~= data);
}

} // verus!
