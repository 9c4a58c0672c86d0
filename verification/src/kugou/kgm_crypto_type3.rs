//! Kugou's third mode: two MD5-derived keys, the shift mix and the offset.
use vstd::prelude::*;

use super::decrypt_block::{
    kgm3_decrypt_byte, kgm3_encrypt_byte, offset_xor_byte, spec_kgm3_decrypt, spec_kgm3_encrypt,
};
use super::kgm_crypto::KGMCrypto;
use super::utils::{md5_kugou, spec_md5_kugou};

verus! {

pub struct KGMCryptoType3 {
    key1: [u8; 16],
    key2: [u8; 17],
}

impl KGMCryptoType3 {
    /// The key derived from the slot key.
    pub closed spec fn key1(&self) -> Seq<u8> {
        self.key1@
    }

    /// The key derived from the file key.
    pub closed spec fn key2(&self) -> Seq<u8> {
        self.key2@
    }

    pub fn new() -> (r: Self)
        ensures
            r.key1() == Seq::new(16, |i: int| 0u8),
            r.key2() == Seq::new(17, |i: int| 0u8),
    {
        let r = Self { key1: [0; 16], key2: [0; 17] };
        assert(r.key1() =~= Seq::new(16, |i: int| 0u8));
        assert(r.key2() =~= Seq::new(17, |i: int| 0u8));
        r
    }

    pub proof fn lemma_key_lengths(&self)
        ensures
            self.key1().len() == 16,
            self.key2().len() == 17,
    {
    }

    /// Decrypts `buffer`, which starts at stream offset `offset`.
    pub fn decipher(&self, offset: u64, buffer: &mut [u8])
        requires
            offset + old(buffer)@.len() <= u64::MAX,
        ensures
            final(buffer)@ == spec_kgm3_decrypt(self.key1(), self.key2(), offset, old(buffer)@),
    {
        let key1 = self.key1;
        let key2 = self.key2;
        let ghost orig = buffer@;
        let ghost start = offset;
        let mut offset = offset;
        let mut i: usize = 0;
        while i < buffer.len()
            invariant
                buffer@.len() == orig.len(),
                i <= orig.len(),
                offset == start + i,
                start + orig.len() <= u64::MAX,
                key1@ == self.key1@,
                key2@ == self.key2@,
                forall|j: int| 0 <= j < i ==> buffer@[j] == kgm3_decrypt_byte(orig[j], key1@, key2@, (start + j) as u64),
                forall|j: int| i <= j < orig.len() ==> buffer@[j] == orig[j],
            decreases orig.len() - i,
        {
            let off_usize = offset as usize;
            let mut temp = buffer[i];
            temp = temp ^ key2[off_usize % 17];
            temp = temp ^ (temp << 4u8);
            temp = temp ^ key1[off_usize % 16];
            temp = temp ^ offset_xor_byte(offset);
            buffer[i] = temp;
            offset = offset + 1;
            i = i + 1;
        }
        assert(buffer@ =~= spec_kgm3_decrypt(key1@, key2@, start, orig));
    }

    /// Encrypts `buffer`, which starts at stream offset `offset`.
    pub fn encipher(&self, offset: u64, buffer: &mut [u8])
        requires
            offset + old(buffer)@.len() <= u64::MAX,
        ensures
            final(buffer)@ == spec_kgm3_encrypt(self.key1(), self.key2(), offset, old(buffer)@),
    {
        let key1 = self.key1;
        let key2 = self.key2;
        let ghost orig = buffer@;
        let ghost start = offset;
        let mut offset = offset;
        let mut i: usize = 0;
        while i < buffer.len()
            invariant
                buffer@.len() == orig.len(),
                i <= orig.len(),
                offset == start + i,
                start + orig.len() <= u64::MAX,
                key1@ == self.key1@,
                key2@ == self.key2@,
                forall|j: int| 0 <= j < i ==> buffer@[j] == kgm3_encrypt_byte(orig[j], key1@, key2@, (start + j) as u64),
                forall|j: int| i <= j < orig.len() ==> buffer@[j] == orig[j],
            decreases orig.len() - i,
        {
            let off_usize = offset as usize;
            let mut temp = buffer[i];
            temp = temp ^ offset_xor_byte(offset);
            temp = temp ^ key1[off_usize % 16];
            temp = temp ^ (temp << 4u8);
            temp = temp ^ key2[off_usize % 17];
            buffer[i] = temp;
            offset = offset + 1;
            i = i + 1;
        }
        assert(buffer@ =~= spec_kgm3_encrypt(key1@, key2@, start, orig));
    }
}

impl KGMCrypto for KGMCryptoType3 {
    open spec fn can_crypt(&self, offset: u64, len: nat) -> bool {
        offset + len <= u64::MAX
    }

    fn expand_slot_key(&mut self, input: &[u8])
        ensures
            final(self).key1() == spec_md5_kugou(input@),
            final(self).key2() == old(self).key2(),
    {
        self.key1 = md5_kugou(input);
    }

    /// The second key is the reordered digest of the file key followed by `0x6b`.
    fn expand_file_key(&mut self, input: &[u8])
        ensures
            final(self).key1() == old(self).key1(),
            final(self).key2() == spec_md5_kugou(input@).push(0x6bu8),
    {
        let digest = md5_kugou(input);
        let mut i: usize = 0;
        while i < 16
            invariant
                i <= 16,
                self.key1@ == old(self).key1@,
                forall|j: int| 0 <= j < i ==> self.key2@[j] == digest@[j],
            decreases 16 - i,
        {
            self.key2[i] = digest[i];
            i = i + 1;
        }
        self.key2[16] = 0x6b;
        assert(self.key2@ =~= spec_md5_kugou(input@).push(0x6bu8));
    }

    fn decrypt(&mut self, offset: u64, buffer: &mut [u8])
        ensures
            final(self).key1() == old(self).key1(),
            final(self).key2() == old(self).key2(),
            final(buffer)@ == spec_kgm3_decrypt(old(self).key1(), old(self).key2(), offset, old(buffer)@),
    {
        self.decipher(offset, buffer)
    }

    fn encrypt(&mut self, offset: u64, buffer: &mut [u8])
        ensures
            final(self).key1() == old(self).key1(),
            final(self).key2() == old(self).key2(),
            final(buffer)@ == spec_kgm3_encrypt(old(self).key1(), old(self).key2(), offset, old(buffer)@),
    {
        self.encipher(offset, buffer)
    }
}

} // verus!
