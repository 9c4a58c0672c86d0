//! Kugou files: the slot keys, and the cipher a file's header calls for.
use std::collections::HashMap;
use vstd::prelude::*;

use super::kgm_header::{spec_header, KGMHeader, KGM_HEADER_LEN};
use super::modes::{
    cipher_accepts, cipher_error_for, cipher_setup_ok, keyed_for, spec_kgm_decipher,
    spec_kgm_encipher, CipherError, CipherModes,
};

verus! {

/// Whether decrypting the file `file` stays within what this library covers
/// (see `cipher_setup_ok`), for the header the file holds.
pub open spec fn file_setup_ok(file: Seq<u8>, slot_keys: Map<u32, Vec<u8>>) -> bool {
    file.len() >= KGM_HEADER_LEN ==> cipher_setup_ok(spec_header(file), slot_keys)
}

pub struct KGM {
    slot_keys: HashMap<u32, Vec<u8>>,
}

impl KGM {
    /// The slot keys by slot number.
    pub closed spec fn slot_keys(&self) -> Map<u32, Vec<u8>> {
        self.slot_keys@
    }

    pub fn new(slot_keys: &HashMap<u32, Vec<u8>>) -> (r: Self)
        ensures
            r.slot_keys() == slot_keys@,
    {
        Self { slot_keys: slot_keys.clone() }
    }

    /// The checked cipher for a file with header `header`.
    pub fn create_cipher(&self, header: &KGMHeader) -> (r: Result<CipherModes, CipherError>)
        requires
            cipher_setup_ok(header@, self.slot_keys()),
        ensures
            r is Ok <==> cipher_accepts(header@, self.slot_keys()),
            r matches Ok(c) ==> keyed_for(c, header@, self.slot_keys()[header.key_slot]@),
            r matches Err(e) ==> cipher_error_for(e, header@, self.slot_keys()),
    {
        CipherModes::new(header, &self.slot_keys)
    }

    /// Whether a file with header `header` can be decrypted with these slot keys.
    pub fn check(&self, header: &KGMHeader) -> (r: Result<bool, CipherError>)
        requires
            cipher_setup_ok(header@, self.slot_keys()),
        ensures
            r is Ok <==> cipher_accepts(header@, self.slot_keys()),
            r is Ok ==> r == Ok::<bool, CipherError>(true),
            r matches Err(e) ==> cipher_error_for(e, header@, self.slot_keys()),
    {
        match self.create_cipher(header) {
            Ok(_) => Ok(true),
            Err(e) => Err(e),
        }
    }

    /// The audio of a file with header `header` whose data (the bytes from
    /// the header's data offset on) is `data`.
    pub fn decrypt(&self, header: &KGMHeader, data: &[u8]) -> (r: Result<Vec<u8>, CipherError>)
        requires
            cipher_setup_ok(header@, self.slot_keys()),
        ensures
            r is Ok <==> cipher_accepts(header@, self.slot_keys()),
            r matches Ok(v) ==> v@ == spec_kgm_decipher(
                header@,
                self.slot_keys()[header.key_slot]@,
                data@,
            ),
            r matches Err(e) ==> cipher_error_for(e, header@, self.slot_keys()),
    {
        let cipher = match self.create_cipher(header) {
            Ok(c) => c,
            Err(e) => return Err(e),
        };
        let mut out = vstd::slice::slice_to_vec(data);
        let n = out.len();
        proof {
            assert(n as int <= u64::MAX);
        }
        cipher.decipher_buffer(0, out.as_mut_slice());
        Ok(out)
    }

    /// The data of a file with header `header` holding the audio `audio`.
    pub fn encrypt(&self, header: &KGMHeader, audio: &[u8]) -> (r: Result<Vec<u8>, CipherError>)
        requires
            cipher_setup_ok(header@, self.slot_keys()),
        ensures
            r is Ok <==> cipher_accepts(header@, self.slot_keys()),
            r matches Ok(v) ==> v@ == spec_kgm_encipher(
                header@,
                self.slot_keys()[header.key_slot]@,
                audio@,
            ),
            r matches Err(e) ==> cipher_error_for(e, header@, self.slot_keys()),
    {
        let cipher = match self.create_cipher(header) {
            Ok(c) => c,
            Err(e) => return Err(e),
        };
        let mut out = vstd::slice::slice_to_vec(audio);
        let n = out.len();
        proof {
            assert(n as int <= u64::MAX);
        }
        cipher.encipher_buffer(0, out.as_mut_slice());
        Ok(out)
    }

    /// The audio of a whole Kugou file: the header read from its first
    /// sixty bytes, the cipher the header names set up and checked, and the
    /// bytes from the header's data offset on decrypted. A file shorter than
    /// a header is refused with `ParseHeaderFail`; one whose data offset lies
    /// past its end with `NotEnoughData` and that offset.
    pub fn decrypt_file(&self, file: &[u8]) -> (r: Result<Vec<u8>, CipherError>)
        requires
            file_setup_ok(file@, self.slot_keys()),
        ensures
            file@.len() < KGM_HEADER_LEN ==> r matches Err(CipherError::ParseHeaderFail),
            file@.len() >= KGM_HEADER_LEN ==> ({
                let h = spec_header(file@);
                if !cipher_accepts(h, self.slot_keys()) {
                    r matches Err(e) && cipher_error_for(e, h, self.slot_keys())
                } else if h.offset_to_data > file@.len() {
                    r matches Err(CipherError::NotEnoughData(n)) && n == h.offset_to_data
                } else {
                    r matches Ok(v) && v@ == spec_kgm_decipher(
                        h,
                        self.slot_keys()[h.key_slot]@,
                        file@.skip(h.offset_to_data as int),
                    )
                }
            }),
    {
        let header = match KGMHeader::from_bytes(file) {
            Some(h) => h,
            None => return Err(CipherError::ParseHeaderFail),
        };
        let cipher = match self.create_cipher(&header) {
            Ok(c) => c,
            Err(e) => return Err(e),
        };
        let offset = header.offset_to_data as usize;
        if offset > file.len() {
            return Err(CipherError::NotEnoughData(offset));
        }
        let data = vstd::slice::slice_subrange(file, offset, file.len());
        let mut out = vstd::slice::slice_to_vec(data);
        let n = out.len();
        proof {
            assert(n as int <= u64::MAX);
            assert(data@ =~= file@.skip(offset as int));
        }
        cipher.decipher_buffer(0, out.as_mut_slice());
        Ok(out)
    }
}

} // verus!
