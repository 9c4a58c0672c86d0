//! Picking and checking the cipher of a Kugou file.
use std::collections::HashMap;
use vstd::prelude::*;

use super::decrypt_block::spec_kgm3_decrypt;
use super::kgm_crypto::KGMCrypto;
use super::decrypt_block::{lemma_kgm3_decrypt_encrypt, lemma_kgm3_encrypt_decrypt};
use super::kgm_crypto_type2::{
    lemma_kgm2_decrypt_encrypt, lemma_kgm2_encrypt_decrypt, spec_kgm2_decrypt, spec_kgm2_encrypt,
    KGMCryptoType2,
};
use super::kgm_crypto_type3::KGMCryptoType3;
use super::kgm_header::{spec_challenge, KGMHeader, KGMHeaderView};
use super::utils::spec_md5_kugou;
use super::decrypt_block::spec_kgm3_encrypt;
use crate::bytes::bytes_eq;

verus! {

/// The cipher of a file, by its crypto version.
pub enum CipherModes {
    Mode2(KGMCryptoType2),
    Mode3(KGMCryptoType3),
}

/// Why no cipher could be set up.
#[derive(Debug)]
pub enum CipherError {
    ParseHeaderFail,
    CouldNotGenerateChallenge,
    SlotKeyMissing(u32),
    UnsupportedCipherVersion(u32),
    ChallengeValidationFail(Vec<u8>, Vec<u8>),
    NotEnoughData(usize),
}

/// Bytes of a file with header `hdr` at stream offset 0, decrypted with the
/// cipher its version names, keyed from `slot_key` (and, in the third mode,
/// the header's file key).
pub open spec fn spec_kgm_decipher(hdr: KGMHeaderView, slot_key: Seq<u8>, data: Seq<u8>) -> Seq<u8> {
    if hdr.crypto_version == 2 {
        spec_kgm2_decrypt(slot_key, 0, data)
    } else {
        spec_kgm3_decrypt(
            spec_md5_kugou(slot_key),
            spec_md5_kugou(hdr.file_key).push(0x6bu8),
            0,
            data,
        )
    }
}

/// Bytes at stream offset 0, encrypted with the cipher the header names.
pub open spec fn spec_kgm_encipher(hdr: KGMHeaderView, slot_key: Seq<u8>, data: Seq<u8>) -> Seq<u8> {
    if hdr.crypto_version == 2 {
        spec_kgm2_encrypt(slot_key, 0, data)
    } else {
        spec_kgm3_encrypt(
            spec_md5_kugou(slot_key),
            spec_md5_kugou(hdr.file_key).push(0x6bu8),
            0,
            data,
        )
    }
}

/// The test data of a header decrypted with the cipher its version names.
pub open spec fn spec_test_decrypt(hdr: KGMHeaderView, slot_key: Seq<u8>) -> Seq<u8> {
    spec_kgm_decipher(hdr, slot_key, hdr.test_data)
}

/// Whether a cipher can be set up for `hdr`: its magic is known, its slot key
/// is there, its version is the second or third mode, and its test data
/// decrypts to what the magic calls for.
pub open spec fn cipher_accepts(hdr: KGMHeaderView, slot_keys: Map<u32, Vec<u8>>) -> bool {
    &&& spec_challenge(hdr.magic) is Some
    &&& slot_keys.contains_key(hdr.key_slot)
    &&& (hdr.crypto_version == 2 || hdr.crypto_version == 3)
    &&& spec_test_decrypt(hdr, slot_keys[hdr.key_slot]@) == spec_challenge(hdr.magic).unwrap()
}

/// The error that setting up a cipher for `hdr` gives, checked in this order:
/// an unknown magic, a missing slot key, an unsupported version, test data
/// that does not decrypt to the challenge (with both).
pub open spec fn cipher_error_for(e: CipherError, hdr: KGMHeaderView, slot_keys: Map<u32, Vec<u8>>) -> bool {
    match spec_challenge(hdr.magic) {
        None => e is CouldNotGenerateChallenge,
        Some(challenge) => if !slot_keys.contains_key(hdr.key_slot) {
            e == CipherError::SlotKeyMissing(hdr.key_slot)
        } else if hdr.crypto_version != 2 && hdr.crypto_version != 3 {
            e == CipherError::UnsupportedCipherVersion(hdr.crypto_version)
        } else {
            e matches CipherError::ChallengeValidationFail(a, b) && a@ == challenge && b@
                == spec_test_decrypt(hdr, slot_keys[hdr.key_slot]@)
        },
    }
}

/// Whether a set-up cipher is the one the header names, keyed from `slot_key`.
pub open spec fn keyed_for(c: CipherModes, hdr: KGMHeaderView, slot_key: Seq<u8>) -> bool {
    match c {
        CipherModes::Mode2(m) => hdr.crypto_version == 2 && m.key() == slot_key,
        CipherModes::Mode3(m) => {
            &&& hdr.crypto_version == 3
            &&& m.key1() == spec_md5_kugou(slot_key)
            &&& m.key2() == spec_md5_kugou(hdr.file_key).push(0x6bu8)
        },
    }
}

/// Whether setting up the cipher for `hdr` stays within what this library
/// covers: once the magic is known and the slot key is there, the header
/// names no fourth-mode cipher (whose code is not part of this library),
/// and a second-mode cipher is not keyed with an empty slot key, which it
/// cannot run with.
pub open spec fn cipher_setup_ok(hdr: KGMHeaderView, slot_keys: Map<u32, Vec<u8>>) -> bool {
    (spec_challenge(hdr.magic) is Some && slot_keys.contains_key(hdr.key_slot)) ==> {
        &&& hdr.crypto_version != 4
        &&& hdr.crypto_version == 2 ==> slot_keys[hdr.key_slot]@.len() > 0
    }
}

impl CipherModes {
    /// Sets up the cipher that the header names (the second or third mode)
    /// and checks it on the header's test data. Headers that name the fourth
    /// mode are left out by `cipher_setup_ok`: its code is not part of this
    /// library.
    pub fn new(hdr: &KGMHeader, slot_keys: &HashMap<u32, Vec<u8>>) -> (r: Result<Self, CipherError>)
        requires
            cipher_setup_ok(hdr@, slot_keys@),
        ensures
            r is Ok <==> cipher_accepts(hdr@, slot_keys@),
            r matches Ok(c) ==> keyed_for(c, hdr@, slot_keys@[hdr.key_slot]@),
            r matches Err(e) ==> cipher_error_for(e, hdr@, slot_keys@),
    {
        let challenge = match hdr.get_challenge() {
            Some(c) => c,
            None => return Err(CipherError::CouldNotGenerateChallenge),
        };
        let slot_key = match slot_keys.get(&hdr.key_slot) {
            Some(k) => k,
            None => return Err(CipherError::SlotKeyMissing(hdr.key_slot)),
        };

        let cipher = if hdr.crypto_version == 2 {
            let mut m = KGMCryptoType2::new();
            m.expand_file_key(slot_key.as_slice());
            CipherModes::Mode2(m)
        } else if hdr.crypto_version == 3 {
            let mut m = KGMCryptoType3::new();
            m.expand_slot_key(slot_key.as_slice());
            m.expand_file_key(&hdr.file_key);
            CipherModes::Mode3(m)
        } else {
            return Err(CipherError::UnsupportedCipherVersion(hdr.crypto_version));
        };

        let mut decrypted = hdr.decryptor_test_data;
        cipher.decipher_buffer(0, &mut decrypted);
        if !bytes_eq(&challenge, &decrypted) {
            let challenge_vec = vstd::slice::slice_to_vec(&challenge);
            let decrypted_vec = vstd::slice::slice_to_vec(&decrypted);
            return Err(CipherError::ChallengeValidationFail(challenge_vec, decrypted_vec));
        }

        Ok(cipher)
    }

    /// Whether `len` bytes at stream offset `offset` can go through the cipher.
    pub open spec fn can_crypt(&self, offset: u64, len: nat) -> bool {
        match self {
            CipherModes::Mode2(m) => m.can_crypt(offset, len),
            CipherModes::Mode3(m) => m.can_crypt(offset, len),
        }
    }

    /// Bytes at stream offset `offset`, decrypted.
    pub open spec fn spec_decipher(&self, offset: u64, data: Seq<u8>) -> Seq<u8> {
        match self {
            CipherModes::Mode2(m) => spec_kgm2_decrypt(m.key(), offset as usize as int, data),
            CipherModes::Mode3(m) => spec_kgm3_decrypt(m.key1(), m.key2(), offset, data),
        }
    }

    /// Bytes at stream offset `offset`, encrypted.
    pub open spec fn spec_encipher(&self, offset: u64, data: Seq<u8>) -> Seq<u8> {
        match self {
            CipherModes::Mode2(m) => spec_kgm2_encrypt(m.key(), offset as usize as int, data),
            CipherModes::Mode3(m) => spec_kgm3_encrypt(m.key1(), m.key2(), offset, data),
        }
    }

    /// One byte at stream offset `offset`, decrypted.
    pub fn decipher_byte(&self, offset: u64, datum: u8) -> (r: u8)
        requires
            self.can_crypt(offset, 1),
        ensures
            r == self.spec_decipher(offset, seq![datum])[0],
    {
        let mut buf = [datum];
        self.decipher_buffer(offset, &mut buf);
        buf[0]
    }

    /// One byte at stream offset `offset`, encrypted.
    pub fn encipher_byte(&self, offset: u64, datum: u8) -> (r: u8)
        requires
            self.can_crypt(offset, 1),
        ensures
            r == self.spec_encipher(offset, seq![datum])[0],
    {
        let mut buf = [datum];
        self.encipher_buffer(offset, &mut buf);
        buf[0]
    }

    pub fn decipher_buffer(&self, offset: u64, buffer: &mut [u8])
        requires
            self.can_crypt(offset, old(buffer)@.len()),
        ensures
            final(buffer)@ == self.spec_decipher(offset, old(buffer)@),
    {
        match self {
            CipherModes::Mode2(m) => m.decipher(offset, buffer),
            CipherModes::Mode3(m) => m.decipher(offset, buffer),
        }
    }

    pub fn encipher_buffer(&self, offset: u64, buffer: &mut [u8])
        requires
            self.can_crypt(offset, old(buffer)@.len()),
        ensures
            final(buffer)@ == self.spec_encipher(offset, old(buffer)@),
    {
        match self {
            CipherModes::Mode2(m) => m.encipher(offset, buffer),
            CipherModes::Mode3(m) => m.encipher(offset, buffer),
        }
    }
}

/// Decrypting bytes that the same cipher encrypted at the same offset gives them back.
pub proof fn lemma_cipher_decipher_encipher(c: CipherModes, offset: u64, data: Seq<u8>)
    requires
        c.can_crypt(offset, data.len()),
    ensures
        c.spec_decipher(offset, c.spec_encipher(offset, data)) == data,
{
    match c {
        CipherModes::Mode2(m) => {
            if data.len() == 0 {
                assert(c.spec_decipher(offset, c.spec_encipher(offset, data)) =~= data);
            } else {
                lemma_kgm2_decrypt_encrypt(m.key(), offset as usize as int, data);
            }
        },
        CipherModes::Mode3(m) => {
            m.lemma_key_lengths();
            lemma_kgm3_decrypt_encrypt(m.key1(), m.key2(), offset, data);
        },
    }
}

/// Encrypting bytes that the same cipher decrypted at the same offset gives them back.
pub proof fn lemma_cipher_encipher_decipher(c: CipherModes, offset: u64, data: Seq<u8>)
    requires
        c.can_crypt(offset, data.len()),
    ensures
        c.spec_encipher(offset, c.spec_decipher(offset, data)) == data,
{
    match c {
        CipherModes::Mode2(m) => {
            if data.len() == 0 {
                assert(c.spec_encipher(offset, c.spec_decipher(offset, data)) =~= data);
            } else {
                lemma_kgm2_encrypt_decrypt(m.key(), offset as usize as int, data);
            }
        },
        CipherModes::Mode3(m) => {
            m.lemma_key_lengths();
            lemma_kgm3_encrypt_decrypt(m.key1(), m.key2(), offset, data);
        },
    }
}


/// Decrypting what the cipher a header names encrypted, keyed the same way,
/// gives the data back.
pub proof fn lemma_kgm_decipher_encipher(hdr: KGMHeaderView, slot_key: Seq<u8>, data: Seq<u8>)
    requires
        hdr.crypto_version == 2 || hdr.crypto_version == 3,
        hdr.crypto_version == 2 ==> slot_key.len() > 0,
    ensures
        spec_kgm_decipher(hdr, slot_key, spec_kgm_encipher(hdr, slot_key, data)) == data,
{
    if hdr.crypto_version == 2 {
        lemma_kgm2_decrypt_encrypt(slot_key, 0, data);
    } else {
        lemma_kgm3_decrypt_encrypt(
            spec_md5_kugou(slot_key),
            spec_md5_kugou(hdr.file_key).push(0x6bu8),
            0,
            data,
        );
    }
}

/// Encrypting what the cipher a header names decrypted, keyed the same way,
/// gives the data back.
pub proof fn lemma_kgm_encipher_decipher(hdr: KGMHeaderView, slot_key: Seq<u8>, data: Seq<u8>)
    requires
        hdr.crypto_version == 2 || hdr.crypto_version == 3,
        hdr.crypto_version == 2 ==> slot_key.len() > 0,
    ensures
        spec_kgm_encipher(hdr, slot_key, spec_kgm_decipher(hdr, slot_key, data)) == data,
{
    if hdr.crypto_version == 2 {
        lemma_kgm2_encrypt_decrypt(slot_key, 0, data);
    } else {
        lemma_kgm3_encrypt_decrypt(
            spec_md5_kugou(slot_key),
            spec_md5_kugou(hdr.file_key).push(0x6bu8),
            0,
            data,
        );
    }
}

} // verus!
