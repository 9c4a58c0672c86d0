//! QMCv2 files: the footer gives the key, and the key length picks the cipher.
use vstd::prelude::*;

use super::qmc2_map::{decrypt_map, spec_map_stream, QMC2Map};
use super::qmc_footer_parser::{
    spec_decode_text, spec_decrypt_key_v1, spec_decrypt_key_v2, spec_footer,
    spec_parse, QMCFooterParser,
};
use super::codecs::spec_tc_tea_decrypt;
use crate::interfaces::DecryptorError;

verus! {

/// Whether decrypting the file `input` stays within what this library
/// covers: parsing its footer is defined (see `parse_defined`), and a key it
/// yields has at most 300 bytes. Longer keys call for the RC4 cipher, whose
/// code is not part of this library.
pub open spec fn spec_decrypt_defined(
    stage1: Seq<u8>,
    stage2: Seq<u8>,
    simple_key: Seq<u8>,
    input: Seq<u8>,
) -> bool {
    &&& spec_parse(stage1, stage2, simple_key, input) is Some
    &&& (spec_parse(stage1, stage2, simple_key, input).unwrap() matches Ok((_, key)) ==> key.len()
        <= 300)
}

/// What decrypting the file `input` gives, where that is defined: the parse
/// error, or the data before the footer run through the map cipher of the
/// embedded key.
pub open spec fn spec_decrypt(
    stage1: Seq<u8>,
    stage2: Seq<u8>,
    simple_key: Seq<u8>,
    input: Seq<u8>,
) -> Result<Seq<u8>, DecryptorError> {
    match spec_parse(stage1, stage2, simple_key, input).unwrap() {
        Err(e) => Err(e),
        Ok((trim_right, key)) => Ok(spec_map_stream(key, 0, input.take(input.len() - trim_right))),
    }
}

/// A key unwrapped, either way, keeps its eight-byte header.
proof fn lemma_key_len(stage1: Seq<u8>, stage2: Seq<u8>, simple_key: Seq<u8>, embed_key: Seq<u8>)
    ensures
        spec_decrypt_key_v1(simple_key, embed_key) matches Some(Ok(k)) ==> k.len() >= 8,
        spec_decrypt_key_v2(stage1, stage2, simple_key, embed_key) matches Some(Ok(k)) ==> k.len()
            >= 8,
{
    if embed_key.len() != 16 {
        if let Some(k1) = spec_tc_tea_decrypt(embed_key, stage1) {
            if k1.len() != 16 {
                if let Some(k2) = spec_tc_tea_decrypt(k1, stage2) {
                    if let Ok(k) = spec_decode_text(k2) {
                        assert(spec_decrypt_key_v1(simple_key, k) matches Some(Ok(v)) ==> v.len() >= 8);
                    }
                }
            }
        }
    }
}

/// A footer that parses leaves the bytes to trim within the file, and a key
/// of at least eight bytes.
pub proof fn lemma_parse_ok_shape(stage1: Seq<u8>, stage2: Seq<u8>, simple_key: Seq<u8>, input: Seq<u8>)
    ensures
        spec_parse(stage1, stage2, simple_key, input) matches Some(Ok((trim_right, key))) ==> 0
            <= trim_right <= input.len() && key.len() >= 8,
{
    if let Ok((t, raw)) = spec_footer(input) {
        if let Ok(embed_key) = spec_decode_text(raw) {
            lemma_key_len(stage1, stage2, simple_key, embed_key);
            lemma_key_len(stage1, stage2, simple_key, embed_key.skip(18));
        }
    }
}

pub struct QMC2 {
    parser: QMCFooterParser,
}

impl QMC2 {
    pub closed spec fn parser(&self) -> QMCFooterParser {
        self.parser
    }

    pub fn new(parser: QMCFooterParser) -> (r: QMC2)
        ensures
            r.parser() == parser,
    {
        QMC2 { parser }
    }

    pub fn get_parser(&self) -> (r: &QMCFooterParser)
        ensures
            *r == self.parser(),
    {
        &self.parser
    }

    /// Whether the file `input` has a footer this decryptor accepts.
    pub fn check(&self, input: &[u8], simple_key: &[u8; 8]) -> (r: Result<bool, DecryptorError>)
        requires
            self.parser().parse_defined(input@, simple_key@),
        ensures
            ({
                let parsed = spec_parse(
                    self.parser().stage1(),
                    self.parser().stage2(),
                    simple_key@,
                    input@,
                ).unwrap();
                match parsed {
                    Ok(_) => r == Ok::<bool, DecryptorError>(true),
                    Err(e) => r == Err::<bool, DecryptorError>(e),
                }
            }),
    {
        match self.parser.parse(input, simple_key) {
            Ok(_) => Ok(true),
            Err(e) => Err(e),
        }
    }

    /// `check` where parsing the footer is defined; `None` on the files left out.
    pub fn try_check(&self, input: &[u8], simple_key: &[u8; 8]) -> (r: Option<Result<bool, DecryptorError>>)
        ensures
            r is None <==> !self.parser().parse_defined(input@, simple_key@),
            r matches Some(res) ==> match spec_parse(
                self.parser().stage1(),
                self.parser().stage2(),
                simple_key@,
                input@,
            ).unwrap() {
                Ok(_) => res == Ok::<bool, DecryptorError>(true),
                Err(e) => res == Err::<bool, DecryptorError>(e),
            },
    {
        match self.parser.try_parse(input, simple_key) {
            None => None,
            Some(_) => Some(self.check(input, simple_key)),
        }
    }

    /// Whether decrypting `input` stays within what this library covers
    /// (see `spec_decrypt_defined`).
    pub open spec fn decrypt_defined(&self, input: Seq<u8>, simple_key: Seq<u8>) -> bool {
        spec_decrypt_defined(self.parser().stage1(), self.parser().stage2(), simple_key, input)
    }

    /// The audio of the file `input`: the data before the footer, run through
    /// the map cipher of the embedded key. Files whose key has more than 300
    /// bytes (the RC4 cipher, whose code is not part of this library) are
    /// left out by the `requires`, as are footers that parsing leaves out.
    pub fn decrypt(&self, input: &[u8], simple_key: &[u8; 8]) -> (r: Result<Vec<u8>, DecryptorError>)
        requires
            self.decrypt_defined(input@, simple_key@),
        ensures
            match spec_decrypt(self.parser().stage1(), self.parser().stage2(), simple_key@, input@) {
                Err(e) => r == Err::<Vec<u8>, DecryptorError>(e),
                Ok(out) => r matches Ok(v) && v@ == out,
            },
    {
        proof {
            lemma_parse_ok_shape(self.parser().stage1(), self.parser().stage2(), simple_key@, input@);
        }
        let (trim_right, key) = match self.parser.parse(input, simple_key) {
            Ok(parsed) => parsed,
            Err(e) => return Err(e),
        };
        let mut data = vstd::slice::slice_to_vec(input);
        data.truncate(input.len() - trim_right);
        decrypt_map(key.as_slice(), data.as_mut_slice());
        Ok(data)
    }

    /// `decrypt` where it is defined; `None` on the files left out (a footer
    /// that parsing leaves out, or a key of more than 300 bytes).
    pub fn try_decrypt(&self, input: &[u8], simple_key: &[u8; 8]) -> (r: Option<Result<Vec<u8>, DecryptorError>>)
        ensures
            r is None <==> !self.decrypt_defined(input@, simple_key@),
            r matches Some(res) ==> match spec_decrypt(
                self.parser().stage1(),
                self.parser().stage2(),
                simple_key@,
                input@,
            ) {
                Err(e) => res == Err::<Vec<u8>, DecryptorError>(e),
                Ok(out) => res matches Ok(v) && v@ == out,
            },
    {
        match self.parser.try_parse(input, simple_key) {
            None => None,
            Some(Err(_)) => Some(self.decrypt(input, simple_key)),
            Some(Ok((_, key))) => if key.len() > 300 {
                None
            } else {
                Some(self.decrypt(input, simple_key))
            },
        }
    }

    /// The map cipher of a key of 1 to 300 bytes, built from the key as it
    /// is. Longer keys call for the RC4 cipher, whose code is not part of this
    /// library, and are left out by the `requires`; so is the empty key,
    /// which only the QMCv1 static map (not part of this library either)
    /// could take, padded to 256 bytes.
    pub fn new_stream_decryptor(key: &[u8]) -> (r: QMC2Map)
        requires
            0 < key@.len() <= 300,
        ensures
            r.key() == key@,
    {
        QMC2Map::new(key)
    }
}

} // verus!
