//! The footer of a QMCv2 file: where the embedded key sits, and how it is
//! unwrapped.
use vstd::prelude::*;

use super::codecs::{
    base64_decode, is_valid_utf8, spec_base64_decode, spec_tc_tea_decrypt, tc_tea_decrypt,
};
use crate::bytes::{read_u32_be, read_u32_le, spec_be_u32, spec_le_u32};
use crate::interfaces::DecryptorError;

verus! {

/// `u32::from_le_bytes(*b"STag")`.
pub const MAGIC_ANDROID_S_TAG: u32 = 0x67615453;

/// `u32::from_le_bytes(*b"QTag")`.
pub const MAGIC_ANDROID_Q_TAG: u32 = 0x67615451;

/// `b"QQMusic EncV2,Key:"`.
pub const ENC_V2_PREFIX_TAG: [u8; 18] = [
    0x51, 0x51, 0x4d, 0x75, 0x73, 0x69, 0x63, 0x20, 0x45, 0x6e, 0x63, 0x56, 0x32, 0x2c, 0x4b, 0x65,
    0x79, 0x3a,
];

/// The index of the first comma, if any.
pub open spec fn spec_first_comma(b: Seq<u8>) -> Option<int> {
    if exists|i: int| 0 <= i < b.len() && b[i] == 0x2c {
        Some(
            choose|i: int|
                0 <= i < b.len() && b[i] == 0x2c && forall|j: int| 0 <= j < i ==> b[j] != 0x2c,
        )
    } else {
        None
    }
}

/// The footer of an Android "QTag" file: a big-endian size before the tag,
/// and before that the metadata, whose part up to the first comma is the key.
pub open spec fn spec_footer_q_tag(input: Seq<u8>) -> Result<(int, Seq<u8>), DecryptorError> {
    let len = input.len() as int;
    if len < 8 {
        Err(DecryptorError::IOError)
    } else {
        let meta_size = spec_be_u32(input.subrange(len - 8, len - 4)) as int;
        if meta_size + 8 > len {
            Err(DecryptorError::IOError)
        } else {
            let buffer = input.subrange(len - 8 - meta_size, len - 8);
            match spec_first_comma(buffer) {
                Some(p) => Ok((meta_size + 8, buffer.take(p))),
                None => Err(DecryptorError::QMCAndroidQTagInvalid),
            }
        }
    }
}

/// The bytes to trim off the end of a file and the raw embedded key, as the
/// footer at the end of `input` gives them: the last four bytes are either a
/// tag or the little-endian size of the key stored just before them.
pub open spec fn spec_footer(input: Seq<u8>) -> Result<(int, Seq<u8>), DecryptorError> {
    let len = input.len() as int;
    if len < 4 {
        Err(DecryptorError::IOError)
    } else {
        let magic = spec_le_u32(input.subrange(len - 4, len));
        if magic == MAGIC_ANDROID_S_TAG {
            Err(DecryptorError::QMCAndroidSTag)
        } else if magic == MAGIC_ANDROID_Q_TAG {
            spec_footer_q_tag(input)
        } else if magic <= 0x400 {
            if magic + 4 > len {
                Err(DecryptorError::IOError)
            } else {
                Ok((magic + 4, input.subrange(len - 4 - magic, len - 4)))
            }
        } else {
            Err(DecryptorError::QMCInvalidFooter(magic))
        }
    }
}

/// Text that must be UTF-8, decoded from base64.
pub open spec fn spec_decode_text(raw: Seq<u8>) -> Result<Seq<u8>, DecryptorError> {
    if !vstd::utf8::valid_utf8(raw) {
        Err(DecryptorError::StringEncodeError)
    } else {
        match spec_base64_decode(raw) {
            Some(k) => Ok(k),
            None => Err(DecryptorError::Base64DecodeError),
        }
    }
}

/// The TEA key of a v1 key: the simple key and the key's first eight bytes, interleaved.
pub open spec fn spec_tea_key_v1(simple_key: Seq<u8>, header: Seq<u8>) -> Seq<u8> {
    Seq::new(16, |i: int| if i % 2 == 0 { simple_key[i / 2] } else { header[i / 2] })
}

/// A v1 key unwrapped: its first eight bytes, then the rest TEA-decrypted.
/// `None` marks the inputs left out: keys under eight bytes, on which the
/// split panics, and a 16-byte rest, which TEA may panic on.
pub open spec fn spec_decrypt_key_v1(simple_key: Seq<u8>, embed_key: Seq<u8>) -> Option<
    Result<Seq<u8>, DecryptorError>,
> {
    if embed_key.len() < 8 || embed_key.len() == 24 {
        None
    } else {
        let header = embed_key.take(8);
        let body = embed_key.skip(8);
        match spec_tc_tea_decrypt(body, spec_tea_key_v1(simple_key, header)) {
            Some(k) => Some(Ok(header + k)),
            None => Some(Err(DecryptorError::TEADecryptError)),
        }
    }
}

/// An EncV2 key unwrapped: two TEA layers, then base64 text holding a v1 key.
pub open spec fn spec_decrypt_key_v2(
    stage1: Seq<u8>,
    stage2: Seq<u8>,
    simple_key: Seq<u8>,
    embed_key: Seq<u8>,
) -> Option<Result<Seq<u8>, DecryptorError>> {
    if embed_key.len() == 16 {
        None
    } else {
        match spec_tc_tea_decrypt(embed_key, stage1) {
            None => Some(Err(DecryptorError::TEADecryptError)),
            Some(k1) => if k1.len() == 16 {
                None
            } else {
                match spec_tc_tea_decrypt(k1, stage2) {
                    None => Some(Err(DecryptorError::TEADecryptError)),
                    Some(k2) => match spec_decode_text(k2) {
                        Err(e) => Some(Err(e)),
                        Ok(k) => spec_decrypt_key_v1(simple_key, k),
                    },
                }
            },
        }
    }
}

/// Whether the decoded key starts with the EncV2 tag.
pub open spec fn has_enc_v2_prefix(key: Seq<u8>) -> bool {
    key.len() >= 18 && key.take(18) == ENC_V2_PREFIX_TAG@
}

/// The bytes to trim and the key, as the footer of a file gives them;
/// `None` marks the files left out (see the two unwrapping steps).
pub open spec fn spec_parse(
    stage1: Seq<u8>,
    stage2: Seq<u8>,
    simple_key: Seq<u8>,
    input: Seq<u8>,
) -> Option<Result<(int, Seq<u8>), DecryptorError>> {
    match spec_footer(input) {
        Err(e) => Some(Err(e)),
        Ok((trim_right, raw)) => match spec_decode_text(raw) {
            Err(e) => Some(Err(e)),
            Ok(embed_key) => {
                let key = if has_enc_v2_prefix(embed_key) {
                    spec_decrypt_key_v2(stage1, stage2, simple_key, embed_key.skip(18))
                } else {
                    spec_decrypt_key_v1(simple_key, embed_key)
                };
                match key {
                    None => None,
                    Some(Err(e)) => Some(Err(e)),
                    Some(Ok(k)) => Some(Ok((trim_right, k))),
                }
            },
        },
    }
}

/// An exec result seen as values.
pub open spec fn parse_result_view(r: Result<(usize, Vec<u8>), DecryptorError>) -> Result<
    (int, Seq<u8>),
    DecryptorError,
> {
    match r {
        Ok((t, k)) => Ok((t as int, k@)),
        Err(e) => Err(e),
    }
}

pub open spec fn key_result_view(r: Result<Vec<u8>, DecryptorError>) -> Result<Seq<u8>, DecryptorError> {
    match r {
        Ok(k) => Ok(k@),
        Err(e) => Err(e),
    }
}

fn copy_range(data: &[u8], start: usize, end: usize) -> (r: Vec<u8>)
    requires
        start <= end <= data@.len(),
    ensures
        r@ == data@.subrange(start as int, end as int),
{
    let mut r: Vec<u8> = Vec::new();
    let mut i = start;
    while i < end
        invariant
            start <= i <= end,
            end <= data@.len(),
            r@ == data@.subrange(start as int, i as int),
        decreases end - i,
    {
        r.push(data[i]);
        i = i + 1;
    }
    r
}

fn first_comma(b: &[u8]) -> (r: Option<usize>)
    ensures
        match r {
            Some(p) => p < b@.len() && spec_first_comma(b@) == Some(p as int),
            None => spec_first_comma(b@) is None,
        },
{
    let mut i: usize = 0;
    while i < b.len()
        invariant
            i <= b@.len(),
            forall|j: int| 0 <= j < i ==> b@[j] != 0x2c,
        decreases b@.len() - i,
    {
        if b[i] == 0x2c {
            assert(exists|k: int| 0 <= k < b@.len() && b@[k] == 0x2c);
            let ghost c = choose|k: int|
                0 <= k < b@.len() && b@[k] == 0x2c && forall|j: int| 0 <= j < k ==> b@[j] != 0x2c;
            assert(c == i as int) by {
                if c < i as int {
                    assert(b@[c] != 0x2c);
                }
                if c > i as int {
                    assert(b@[i as int] != 0x2c);
                }
            }
            return Some(i);
        }
        i = i + 1;
    }
    None
}

fn read_footer_q_tag(input: &[u8]) -> (r: Result<(usize, Vec<u8>), DecryptorError>)
    ensures
        parse_result_view(r) == spec_footer_q_tag(input@),
        r matches Ok((t, k)) ==> k@.len() + 4 <= input.len(),
{
    let len = input.len();
    if len < 8 {
        return Err(DecryptorError::IOError);
    }
    let meta_size = read_u32_be(input, len - 8);
    if meta_size as u64 + 8 > len as u64 {
        return Err(DecryptorError::IOError);
    }
    let meta = meta_size as usize;
    let trim_right = meta + 8;
    let buffer = copy_range(input, len - 8 - meta, len - 8);
    match first_comma(buffer.as_slice()) {
        Some(p) => {
            let key = copy_range(buffer.as_slice(), 0, p);
            assert(key@ =~= buffer@.take(p as int));
            Ok((trim_right, key))
        },
        None => Err(DecryptorError::QMCAndroidQTagInvalid),
    }
}

/// Locates the footer and copies out the raw key.
fn read_footer(input: &[u8]) -> (r: Result<(usize, Vec<u8>), DecryptorError>)
    ensures
        parse_result_view(r) == spec_footer(input@),
        r matches Ok((t, k)) ==> k@.len() + 4 <= input.len(),
{
    let len = input.len();
    if len < 4 {
        return Err(DecryptorError::IOError);
    }
    let magic = read_u32_le(input, len - 4);
    if magic == MAGIC_ANDROID_S_TAG {
        Err(DecryptorError::QMCAndroidSTag)
    } else if magic == MAGIC_ANDROID_Q_TAG {
        read_footer_q_tag(input)
    } else if magic <= 0x400 {
        let size = magic as usize;
        if size + 4 > len {
            return Err(DecryptorError::IOError);
        }
        let buffer = copy_range(input, len - 4 - size, len - 4);
        Ok((size + 4, buffer))
    } else {
        Err(DecryptorError::QMCInvalidFooter(magic))
    }
}

/// UTF-8 text decoded from base64.
fn decode_text(raw: &[u8]) -> (r: Result<Vec<u8>, DecryptorError>)
    requires
        raw@.len() <= usize::MAX - 3,
    ensures
        key_result_view(r) == spec_decode_text(raw@),
{
    if !is_valid_utf8(raw) {
        return Err(DecryptorError::StringEncodeError);
    }
    match base64_decode(raw) {
        Ok(k) => Ok(k),
        Err(_) => Err(DecryptorError::Base64DecodeError),
    }
}

pub struct QMCFooterParser {
    seed: u8,
    enc_v2_key_stage1: [u8; 16],
    enc_v2_key_stage2: [u8; 16],
}

impl QMCFooterParser {
    /// The seed of the simple key (see `make_key`).
    pub closed spec fn seed(&self) -> u8 {
        self.seed
    }

    pub closed spec fn stage1(&self) -> Seq<u8> {
        self.enc_v2_key_stage1@
    }

    pub closed spec fn stage2(&self) -> Seq<u8> {
        self.enc_v2_key_stage2@
    }

    pub fn get_seed(&self) -> (r: u8)
        ensures
            r == self.seed(),
    {
        self.seed
    }

    pub fn new(seed: u8) -> (r: QMCFooterParser)
        ensures
            r.seed() == seed,
            r.stage1() == Seq::new(16, |i: int| 0u8),
            r.stage2() == Seq::new(16, |i: int| 0u8),
    {
        let r = QMCFooterParser {
            seed,
            enc_v2_key_stage1: [0u8; 16],
            enc_v2_key_stage2: [0u8; 16],
        };
        assert(r.stage1() =~= Seq::new(16, |i: int| 0u8));
        assert(r.stage2() =~= Seq::new(16, |i: int| 0u8));
        r
    }

    pub fn new_enc_v2(seed: u8, enc_v2_key_stage1: [u8; 16], enc_v2_key_stage2: [u8; 16]) -> (r:
        QMCFooterParser)
        ensures
            r.seed() == seed,
            r.stage1() == enc_v2_key_stage1@,
            r.stage2() == enc_v2_key_stage2@,
    {
        QMCFooterParser { seed, enc_v2_key_stage1, enc_v2_key_stage2 }
    }

    /// Unwraps a v1 key with the simple key made from the seed.
    fn decrypt_key_v1(&self, embed_key: &[u8], simple_key: &[u8; 8]) -> (r: Result<
        Vec<u8>,
        DecryptorError,
    >)
        requires
            embed_key@.len() >= 8,
            embed_key@.len() != 24,
        ensures
            spec_decrypt_key_v1(simple_key@, embed_key@) == Some(key_result_view(r)),
    {
        let header = copy_range(embed_key, 0, 8);
        let body = copy_range(embed_key, 8, embed_key.len());
        let mut tea_key = [0u8; 16];
        let mut i: usize = 0;
        while i < 16
            invariant
                i <= 16,
                i % 2 == 0,
                header@.len() == 8,
                forall|j: int| 0 <= j < i ==> tea_key@[j] == spec_tea_key_v1(simple_key@, header@)[j],
            decreases 16 - i,
        {
            tea_key[i] = simple_key[i / 2];
            tea_key[i + 1] = header[i / 2];
            i = i + 2;
        }
        assert(tea_key@ =~= spec_tea_key_v1(simple_key@, header@));
        assert(header@ =~= embed_key@.take(8));
        assert(body@ =~= embed_key@.skip(8));
        match tc_tea_decrypt(body.as_slice(), &tea_key) {
            Some(final_key) => {
                let mut key = header;
                let mut tail = final_key;
                key.append(&mut tail);
                Ok(key)
            },
            None => Err(DecryptorError::TEADecryptError),
        }
    }

    /// Unwraps an EncV2 key; `None` where the unwrapping is left out.
    fn decrypt_key_v2(&self, embed_key: &[u8], simple_key: &[u8; 8]) -> (r: Option<
        Result<Vec<u8>, DecryptorError>,
    >)
        ensures
            match r {
                Some(k) => spec_decrypt_key_v2(
                    self.stage1(),
                    self.stage2(),
                    simple_key@,
                    embed_key@,
                ) == Some(key_result_view(k)),
                None => spec_decrypt_key_v2(
                    self.stage1(),
                    self.stage2(),
                    simple_key@,
                    embed_key@,
                ) is None,
            },
    {
        if embed_key.len() == 16 {
            return None;
        }
        let k1 = match tc_tea_decrypt(embed_key, &self.enc_v2_key_stage1) {
            Some(k) => k,
            None => return Some(Err(DecryptorError::TEADecryptError)),
        };
        if k1.len() == 16 {
            return None;
        }
        let k2 = match tc_tea_decrypt(k1.as_slice(), &self.enc_v2_key_stage2) {
            Some(k) => k,
            None => return Some(Err(DecryptorError::TEADecryptError)),
        };
        let key = match decode_text(k2.as_slice()) {
            Ok(k) => k,
            Err(e) => return Some(Err(e)),
        };
        if key.len() < 8 || key.len() == 24 {
            return None;
        }
        Some(self.decrypt_key_v1(key.as_slice(), simple_key))
    }

    fn parse_inner(&self, input: &[u8], simple_key: &[u8; 8]) -> (r: Option<
        Result<(usize, Vec<u8>), DecryptorError>,
    >)
        ensures
            match r {
                Some(res) => spec_parse(self.stage1(), self.stage2(), simple_key@, input@) == Some(
                    parse_result_view(res),
                ),
                None => spec_parse(self.stage1(), self.stage2(), simple_key@, input@) is None,
            },
    {
        let (trim_right, raw) = match read_footer(input) {
            Ok(f) => f,
            Err(e) => return Some(Err(e)),
        };
        let embed_key = match decode_text(raw.as_slice()) {
            Ok(k) => k,
            Err(e) => return Some(Err(e)),
        };
        let has_prefix = if embed_key.len() >= 18 {
            let head = copy_range(embed_key.as_slice(), 0, 18);
            assert(head@ =~= embed_key@.take(18));
            crate::bytes::bytes_eq(head.as_slice(), &ENC_V2_PREFIX_TAG)
        } else {
            false
        };
        let key = if has_prefix {
            let rest = copy_range(embed_key.as_slice(), 18, embed_key.len());
            assert(rest@ =~= embed_key@.skip(18));
            self.decrypt_key_v2(rest.as_slice(), simple_key)
        } else {
            if embed_key.len() < 8 || embed_key.len() == 24 {
                None
            } else {
                Some(self.decrypt_key_v1(embed_key.as_slice(), simple_key))
            }
        };
        match key {
            None => None,
            Some(Err(e)) => Some(Err(e)),
            Some(Ok(k)) => Some(Ok((trim_right, k))),
        }
    }

    /// Whether parsing `input` stays clear of the inputs left out: a v1 key
    /// under eight bytes, on which the split panics, and TEA data of sixteen
    /// bytes. Only some of the latter make `tc_tea::decrypt` panic (those
    /// whose decrypted padding length reads 7), but nothing short of
    /// decrypting tells them apart, so all of them are left out.
    pub open spec fn parse_defined(&self, input: Seq<u8>, simple_key: Seq<u8>) -> bool {
        spec_parse(self.stage1(), self.stage2(), simple_key, input) is Some
    }

    /// The bytes to trim off the end of the file `input` and its embedded key.
    /// `simple_key` is `make_key(seed, 8)` for this parser's seed.
    pub fn parse(&self, input: &[u8], simple_key: &[u8; 8]) -> (r: Result<
        (usize, Vec<u8>),
        DecryptorError,
    >)
        requires
            self.parse_defined(input@, simple_key@),
        ensures
            spec_parse(self.stage1(), self.stage2(), simple_key@, input@) == Some(
                parse_result_view(r),
            ),
    {
        match self.parse_inner(input, simple_key) {
            Some(r) => r,
            None => Err(DecryptorError::IOError),
        }
    }

    /// `parse` where it is defined; `None` on the inputs it leaves out.
    pub fn try_parse(&self, input: &[u8], simple_key: &[u8; 8]) -> (r: Option<
        Result<(usize, Vec<u8>), DecryptorError>,
    >)
        ensures
            r is None <==> !self.parse_defined(input@, simple_key@),
            r matches Some(res) ==> spec_parse(self.stage1(), self.stage2(), simple_key@, input@)
                == Some(parse_result_view(res)),
    {
        match self.parse_inner(input, simple_key) {
            Some(_) => Some(self.parse(input, simple_key)),
            None => None,
        }
    }
}

/// The last `n` bytes of a file are the last `n` bytes of the file with
/// bytes put before it.
proof fn lemma_tail_of_prefixed(prefix: Seq<u8>, file: Seq<u8>, from_end: int, to_end: int)
    requires
        0 <= to_end <= from_end <= file.len(),
    ensures
        (prefix + file).subrange(
            (prefix + file).len() - from_end,
            (prefix + file).len() - to_end,
        ) == file.subrange(file.len() - from_end, file.len() - to_end),
{
    assert((prefix + file).subrange(
        (prefix + file).len() - from_end,
        (prefix + file).len() - to_end,
    ) =~= file.subrange(file.len() - from_end, file.len() - to_end));
}

#[verifier::spinoff_prover]
#[verifier::rlimit(60)]
proof fn lemma_q_tag_prefix(prefix: Seq<u8>, file: Seq<u8>)
    requires
        spec_footer_q_tag(file) is Ok,
    ensures
        spec_footer_q_tag(prefix + file) == spec_footer_q_tag(file),
{
    let w = prefix + file;
    let wl = w.len() as int;
    let len = file.len() as int;
    assert(len >= 8);
    assert(wl >= 8);
    lemma_tail_of_prefixed(prefix, file, 8, 4);
    let meta_size = spec_be_u32(file.subrange(len - 8, len - 4)) as int;
    assert(spec_be_u32(w.subrange(wl - 8, wl - 4)) as int == meta_size);
    assert(meta_size + 8 <= len);
    lemma_tail_of_prefixed(prefix, file, 8 + meta_size, 8);
    let buffer = file.subrange(len - 8 - meta_size, len - 8);
    assert(w.subrange(wl - 8 - meta_size, wl - 8) == buffer);
}

/// The footer sits at the end of a file: bytes before a footer that reads
/// (audio, say) change neither the key it gives nor how much it trims.
pub proof fn lemma_footer_prefix(prefix: Seq<u8>, file: Seq<u8>)
    requires
        spec_footer(file) is Ok,
    ensures
        spec_footer(prefix + file) == spec_footer(file),
{
    let len = file.len() as int;
    lemma_tail_of_prefixed(prefix, file, 4, 0);
    let magic = spec_le_u32(file.subrange(len - 4, len));
    if magic == MAGIC_ANDROID_Q_TAG {
        lemma_q_tag_prefix(prefix, file);
    } else if magic <= 0x400 {
        lemma_tail_of_prefixed(prefix, file, 4 + magic, 4);
    }
}

/// Parsing a file whose footer reads gives the same key and trim length
/// whatever bytes come before the footer.
pub proof fn lemma_parse_prefix(
    stage1: Seq<u8>,
    stage2: Seq<u8>,
    simple_key: Seq<u8>,
    prefix: Seq<u8>,
    file: Seq<u8>,
)
    requires
        spec_footer(file) is Ok,
    ensures
        spec_parse(stage1, stage2, simple_key, prefix + file) == spec_parse(
            stage1,
            stage2,
            simple_key,
            file,
        ),
{
    lemma_footer_prefix(prefix, file);
}

} // verus!
