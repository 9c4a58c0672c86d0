//! The header of a Kugou file.
use vstd::prelude::*;

use crate::bytes::{bytes_eq, read_u32_le, spec_le_u32};

verus! {

/// The length of the header as stored.
pub const KGM_HEADER_LEN: usize = 60;

/// The magic of a `.kgm` file.
pub const KGM_MAGIC: [u8; 16] = [
    0x7C, 0xD5, 0x32, 0xEB, 0x86, 0x02, 0x7F, 0x4B, 0xA8, 0xAF, 0xA6, 0x8E, 0x0F, 0xFF, 0x99, 0x14,
];

/// The magic of a `.vpr` file.
pub const VPR_MAGIC: [u8; 16] = [
    0x05, 0x28, 0xBC, 0x96, 0xE9, 0xE4, 0x5A, 0x43, 0x91, 0xAA, 0xBD, 0xD0, 0x7A, 0xF5, 0x36, 0x31,
];

/// What the test data of a `.kgm` file decrypts to.
pub const KGM_TEST_DATA: [u8; 16] = [
    0x38, 0x85, 0xED, 0x92, 0x79, 0x5F, 0xF8, 0x4C, 0xB3, 0x03, 0x61, 0x41, 0x16, 0xA0, 0x1D, 0x47,
];

/// What the test data of a `.vpr` file decrypts to.
pub const VPR_TEST_DATA: [u8; 16] = [
    0x1D, 0x5A, 0x05, 0x34, 0x0C, 0x41, 0x8D, 0x42, 0x9C, 0x83, 0x92, 0x6C, 0xAE, 0x16, 0xFE, 0x56,
];

pub struct KGMHeader {
    pub magic: [u8; 16],
    pub offset_to_data: u32,
    pub crypto_version: u32,
    pub key_slot: u32,
    pub decryptor_test_data: [u8; 16],
    pub file_key: [u8; 16],
}

/// A header as values.
pub struct KGMHeaderView {
    pub magic: Seq<u8>,
    pub offset_to_data: u32,
    pub crypto_version: u32,
    pub key_slot: u32,
    pub test_data: Seq<u8>,
    pub file_key: Seq<u8>,
}

impl View for KGMHeader {
    type V = KGMHeaderView;

    open spec fn view(&self) -> KGMHeaderView {
        KGMHeaderView {
            magic: self.magic@,
            offset_to_data: self.offset_to_data,
            crypto_version: self.crypto_version,
            key_slot: self.key_slot,
            test_data: self.decryptor_test_data@,
            file_key: self.file_key@,
        }
    }
}

/// The header that the first sixty bytes of `data` hold: the magic, three
/// little-endian words (data offset, crypto version, key slot), the test
/// data and the file key.
pub open spec fn spec_header(data: Seq<u8>) -> KGMHeaderView {
    KGMHeaderView {
        magic: data.subrange(0, 16),
        offset_to_data: spec_le_u32(data.subrange(16, 20)),
        crypto_version: spec_le_u32(data.subrange(20, 24)),
        key_slot: spec_le_u32(data.subrange(24, 28)),
        test_data: data.subrange(28, 44),
        file_key: data.subrange(44, 60),
    }
}

/// What the test data must decrypt to, by the magic; none for an unknown magic.
pub open spec fn spec_challenge(magic: Seq<u8>) -> Option<Seq<u8>> {
    if magic == KGM_MAGIC@ {
        Some(KGM_TEST_DATA@)
    } else if magic == VPR_MAGIC@ {
        Some(VPR_TEST_DATA@)
    } else {
        None
    }
}

fn copy16(data: &[u8], off: usize) -> (r: [u8; 16])
    requires
        off + 16 <= data@.len(),
    ensures
        r@ == data@.subrange(off as int, off + 16),
{
    let mut r = [0u8; 16];
    let mut i: usize = 0;
    while i < 16
        invariant
            i <= 16,
            off + 16 <= data.len(),
            forall|j: int| 0 <= j < i ==> r@[j] == data@[off + j],
        decreases 16 - i,
    {
        r[i] = data[off + i];
        i = i + 1;
    }
    assert(r@ =~= data@.subrange(off as int, off + 16));
    r
}

impl KGMHeader {
    /// Reads the header from the first sixty bytes; fewer are refused.
    pub fn from_bytes(data: &[u8]) -> (r: Option<KGMHeader>)
        ensures
            r is Some <==> data@.len() >= KGM_HEADER_LEN,
            r matches Some(h) ==> h@ == spec_header(data@),
            r matches Some(h) ==> {
                &&& h.magic@ == data@.subrange(0, 16)
                &&& h.offset_to_data == spec_le_u32(data@.subrange(16, 20))
                &&& h.crypto_version == spec_le_u32(data@.subrange(20, 24))
                &&& h.key_slot == spec_le_u32(data@.subrange(24, 28))
                &&& h.decryptor_test_data@ == data@.subrange(28, 44)
                &&& h.file_key@ == data@.subrange(44, 60)
            },
    {
        if data.len() < KGM_HEADER_LEN {
            return None;
        }
        Some(KGMHeader {
            magic: copy16(data, 0),
            offset_to_data: read_u32_le(data, 16),
            crypto_version: read_u32_le(data, 20),
            key_slot: read_u32_le(data, 24),
            decryptor_test_data: copy16(data, 28),
            file_key: copy16(data, 44),
        })
    }

    /// What the test data must decrypt to; none when the magic is unknown.
    pub fn get_challenge(&self) -> (r: Option<[u8; 16]>)
        ensures
            match r {
                Some(c) => spec_challenge(self.magic@) == Some(c@),
                None => spec_challenge(self.magic@) is None,
            },
    {
        if bytes_eq(&self.magic, &KGM_MAGIC) {
            Some(KGM_TEST_DATA)
        } else if bytes_eq(&self.magic, &VPR_MAGIC) {
            Some(VPR_TEST_DATA)
        } else {
            None
        }
    }
}

} // verus!
