//! Kugou's second mode: a repeating key and the shift mix.
use vstd::prelude::*;

use super::kgm_crypto::KGMCrypto;
use super::utils::{lemma_mix_involution, spec_mix};

verus! {

/// A byte at key index `idx`, decrypted.
pub open spec fn kgm2_decrypt_byte(b: u8, key: Seq<u8>, idx: int) -> u8 {
    spec_mix(b) ^ key[idx % key.len() as int]
}

/// A byte at key index `idx`, encrypted.
pub open spec fn kgm2_encrypt_byte(b: u8, key: Seq<u8>, idx: int) -> u8 {
    spec_mix(b ^ key[idx % key.len() as int])
}

/// Bytes whose first byte sits at key index `start`, decrypted.
pub open spec fn spec_kgm2_decrypt(key: Seq<u8>, start: int, data: Seq<u8>) -> Seq<u8> {
    Seq::new(data.len(), |i: int| kgm2_decrypt_byte(data[i], key, start + i))
}

/// Bytes whose first byte sits at key index `start`, encrypted.
pub open spec fn spec_kgm2_encrypt(key: Seq<u8>, start: int, data: Seq<u8>) -> Seq<u8> {
    Seq::new(data.len(), |i: int| kgm2_encrypt_byte(data[i], key, start + i))
}

pub struct KGMCryptoType2 {
    key: Vec<u8>,
}

impl KGMCryptoType2 {
    /// The file key in use.
    pub closed spec fn key(&self) -> Seq<u8> {
        self.key@
    }

    pub fn new() -> (r: Self)
        ensures
            r.key() == Seq::<u8>::empty(),
    {
        Self { key: Vec::new() }
    }

    /// Encrypts `buffer`, which starts at stream offset `offset`.
    pub fn encipher(&self, offset: u64, buffer: &mut [u8])
        requires
            offset as usize + old(buffer)@.len() <= usize::MAX,
            old(buffer)@.len() > 0 ==> self.key().len() > 0,
        ensures
            final(buffer)@ == spec_kgm2_encrypt(self.key(), offset as usize as int, old(buffer)@),
    {
        let ghost orig = buffer@;
        let ghost start = offset as usize;
        let mut offset = offset as usize;
        let mut i: usize = 0;
        while i < buffer.len()
            invariant
                buffer@.len() == orig.len(),
                i <= orig.len(),
                offset == start + i,
                start + orig.len() <= usize::MAX,
                orig.len() > 0 ==> self.key@.len() > 0,
                forall|j: int| 0 <= j < i ==> buffer@[j] == kgm2_encrypt_byte(orig[j], self.key@, start + j),
                forall|j: int| i <= j < orig.len() ==> buffer@[j] == orig[j],
            decreases orig.len() - i,
        {
            let mut temp = buffer[i];
            temp = temp ^ self.key[offset % self.key.len()];
            temp = temp ^ (temp << 4u8);
            buffer[i] = temp;
            offset = offset + 1;
            i = i + 1;
        }
        assert(buffer@ =~= spec_kgm2_encrypt(self.key@, start as int, orig));
    }

    /// Decrypts `buffer`, which starts at stream offset `offset`.
    pub fn decipher(&self, offset: u64, buffer: &mut [u8])
        requires
            offset as usize + old(buffer)@.len() <= usize::MAX,
            old(buffer)@.len() > 0 ==> self.key().len() > 0,
        ensures
            final(buffer)@ == spec_kgm2_decrypt(self.key(), offset as usize as int, old(buffer)@),
    {
        let ghost orig = buffer@;
        let ghost start = offset as usize;
        let mut offset = offset as usize;
        let mut i: usize = 0;
        while i < buffer.len()
            invariant
                buffer@.len() == orig.len(),
                i <= orig.len(),
                offset == start + i,
                start + orig.len() <= usize::MAX,
                orig.len() > 0 ==> self.key@.len() > 0,
                forall|j: int| 0 <= j < i ==> buffer@[j] == kgm2_decrypt_byte(orig[j], self.key@, start + j),
                forall|j: int| i <= j < orig.len() ==> buffer@[j] == orig[j],
            decreases orig.len() - i,
        {
            let mut temp = buffer[i];
            temp = temp ^ (temp << 4u8);
            temp = temp ^ self.key[offset % self.key.len()];
            buffer[i] = temp;
            offset = offset + 1;
            i = i + 1;
        }
        assert(buffer@ =~= spec_kgm2_decrypt(self.key@, start as int, orig));
    }
}

impl KGMCrypto for KGMCryptoType2 {
    open spec fn can_crypt(&self, offset: u64, len: nat) -> bool {
        &&& offset as usize + len <= usize::MAX
        &&& len > 0 ==> self.key().len() > 0
    }

    /// The slot key plays no part in this mode.
    fn expand_slot_key(&mut self, _slot_key: &[u8])
        ensures
            final(self).key() == old(self).key(),
    {
    }

    fn expand_file_key(&mut self, key: &[u8])
        ensures
            final(self).key() == key@,
    {
        self.key = vstd::slice::slice_to_vec(key);
    }

    fn encrypt(&mut self, offset: u64, buffer: &mut [u8])
        ensures
            final(self).key() == old(self).key(),
            final(buffer)@ == spec_kgm2_encrypt(old(self).key(), offset as usize as int, old(buffer)@),
    {
        self.encipher(offset, buffer)
    }

    fn decrypt(&mut self, offset: u64, buffer: &mut [u8])
        ensures
            final(self).key() == old(self).key(),
            final(buffer)@ == spec_kgm2_decrypt(old(self).key(), offset as usize as int, old(buffer)@),
    {
        self.decipher(offset, buffer)
    }
}

/// Decrypting bytes that were encrypted at the same key index gives them back.
pub proof fn lemma_kgm2_decrypt_encrypt(key: Seq<u8>, start: int, data: Seq<u8>)
    requires
        key.len() > 0,
    ensures
        spec_kgm2_decrypt(key, start, spec_kgm2_encrypt(key, start, data)) == data,
{
    let e = spec_kgm2_encrypt(key, start, data);
    let d = spec_kgm2_decrypt(key, start, e);
    assert forall|i: int| 0 <= i < data.len() implies d[i] == data[i] by {
        let k = key[(start + i) % key.len() as int];
        let b = data[i];
        lemma_mix_involution(b ^ k);
        assert((b ^ k) ^ k == b) by (bit_vector);
    }
    assert(d =~= data);
}

/// Encrypting bytes that were decrypted at the same key index gives them back.
pub proof fn lemma_kgm2_encrypt_decrypt(key: Seq<u8>, start: int, data: Seq<u8>)
    requires
        key.len() > 0,
    ensures
        spec_kgm2_encrypt(key, start, spec_kgm2_decrypt(key, start, data)) == data,
{
    let d = spec_kgm2_decrypt(key, start, data);
    let e = spec_kgm2_encrypt(key, start, d);
    assert forall|i: int| 0 <= i < data.len() implies e[i] == data[i] by {
        let k = key[(start + i) % key.len() as int];
        let b = data[i];
        lemma_mix_involution(b);
        assert((spec_mix(b) ^ k) ^ k == spec_mix(b)) by (bit_vector);
    }
    assert(e =~= data);
}

} // verus!
