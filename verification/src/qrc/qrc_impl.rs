//! QRC lyrics: a file tag, then a body run through three passes of QRC's DES
//! and compressed with zlib.
use std::io::Read;
use vstd::prelude::*;

use super::des_impl::{spec_crypt_bytes, spec_des_subkeys, Des};
use crate::interfaces::DecryptorError;

verus! {

/// The length of the tag that starts a QRC file, before its body.
pub const QRC_TAG_LEN: usize = 11;

/// What zlib decompression of `data` gives: `None` for a stream that is
/// corrupt or ends early.
pub uninterp spec fn spec_zlib_decompress(data: Seq<u8>) -> Option<Seq<u8>>;

/// An optional byte vector seen as an optional sequence.
pub open spec fn bytes_option_view(r: Option<Vec<u8>>) -> Option<Seq<u8>> {
    match r {
        Some(v) => Some(v@),
        None => None,
    }
}

/// Decompresses the zlib stream `data` with `flate2::read::ZlibDecoder`,
/// read to its end. Trusted: what comes back is named, a function of the
/// bytes alone; a decoder error (a corrupt or incomplete stream) gives `None`.
#[verifier::external_body]
fn zlib_decompress(data: &[u8]) -> (r: Option<Vec<u8>>)
    ensures
        bytes_option_view(r) == spec_zlib_decompress(data@),
{
    let mut decoder = flate2::read::ZlibDecoder::new(data);
    let mut out = Vec::new();
    match decoder.read_to_end(&mut out) {
        Ok(_) => Some(out),
        Err(_) => None,
    }
}

/// A body with the three DES passes undone: decrypted with the first key
/// schedule, encrypted with the second, decrypted with the third.
pub open spec fn spec_qrc_unscramble(k1: Seq<u64>, k2: Seq<u64>, k3: Seq<u64>, body: Seq<u8>) -> Seq<u8> {
    spec_crypt_bytes(k3, spec_crypt_bytes(k2, spec_crypt_bytes(k1, body, false), true), false)
}

/// The lyrics, from what decompressing the unscrambled body gave: a stream
/// that did not decompress is a read error.
pub fn inflated_lyrics(inflated: Option<Vec<u8>>) -> (r: Result<Vec<u8>, DecryptorError>)
    ensures
        match inflated {
            Some(v) => r == Ok::<Vec<u8>, DecryptorError>(v),
            None => r == Err::<Vec<u8>, DecryptorError>(DecryptorError::IOError),
        },
{
    match inflated {
        Some(v) => Ok(v),
        None => Err(DecryptorError::IOError),
    }
}

/// A QRC decoder: the key schedules of its three DES passes.
pub struct Qrc {
    des1: Des,
    des2: Des,
    des3: Des,
}

impl Qrc {
    pub closed spec fn schedule1(&self) -> Seq<u64> {
        self.des1@
    }

    pub closed spec fn schedule2(&self) -> Seq<u64> {
        self.des2@
    }

    pub closed spec fn schedule3(&self) -> Seq<u64> {
        self.des3@
    }

    pub fn new(key1: &[u8; 8], key2: &[u8; 8], key3: &[u8; 8]) -> (r: Qrc)
        ensures
            r.schedule1() == spec_des_subkeys(key1@),
            r.schedule2() == spec_des_subkeys(key2@),
            r.schedule3() == spec_des_subkeys(key3@),
    {
        Qrc { des1: Des::new(key1), des2: Des::new(key2), des3: Des::new(key3) }
    }

    /// The body with the three DES passes undone; a body that is not a whole
    /// number of eight-byte blocks is refused.
    pub fn unscramble(&self, body: &[u8]) -> (r: Result<Vec<u8>, DecryptorError>)
        ensures
            r is Ok <==> body@.len() % 8 == 0,
            r matches Ok(v) ==> v@ == spec_qrc_unscramble(
                self.schedule1(),
                self.schedule2(),
                self.schedule3(),
                body@,
            ),
            r is Err ==> r == Err::<Vec<u8>, DecryptorError>(DecryptorError::QrcDesblockAlignment),
    {
        if body.len() % 8 != 0 {
            return Err(DecryptorError::QrcDesblockAlignment);
        }
        let mut data = vstd::slice::slice_to_vec(body);
        let _ = self.des1.decrypt_bytes(data.as_mut_slice());
        let _ = self.des2.encrypt_bytes(data.as_mut_slice());
        let _ = self.des3.decrypt_bytes(data.as_mut_slice());
        Ok(data)
    }

    /// The lyrics in the body of a QRC file (the bytes after its tag).
    pub fn decode(&self, body: &[u8]) -> (r: Result<Vec<u8>, DecryptorError>)
        ensures
            body@.len() % 8 != 0 ==> r == Err::<Vec<u8>, DecryptorError>(
                DecryptorError::QrcDesblockAlignment,
            ),
            body@.len() % 8 == 0 ==> match spec_zlib_decompress(
                spec_qrc_unscramble(self.schedule1(), self.schedule2(), self.schedule3(), body@),
            ) {
                Some(v) => r matches Ok(o) && o@ == v,
                None => r == Err::<Vec<u8>, DecryptorError>(DecryptorError::IOError),
            },
    {
        let data = match self.unscramble(body) {
            Ok(d) => d,
            Err(e) => return Err(e),
        };
        inflated_lyrics(zlib_decompress(data.as_slice()))
    }
}

} // verus!
