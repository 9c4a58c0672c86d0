//! Fixed-width integers read from and written to bytes.
use vstd::prelude::*;

verus! {

/// The little-endian value of eight bytes.
pub open spec fn spec_le_u64(b: Seq<u8>) -> u64 {
    (b[0] as int + b[1] as int * 0x100 + b[2] as int * 0x10000 + b[3] as int * 0x1000000
        + b[4] as int * 0x100000000 + b[5] as int * 0x10000000000 + b[6] as int
        * 0x1000000000000 + b[7] as int * 0x100000000000000) as u64
}

/// The eight little-endian bytes of a value.
pub open spec fn spec_u64_le_bytes(x: u64) -> Seq<u8> {
    seq![
        (x % 0x100) as u8,
        ((x / 0x100) % 0x100) as u8,
        ((x / 0x10000) % 0x100) as u8,
        ((x / 0x1000000) % 0x100) as u8,
        ((x / 0x100000000) % 0x100) as u8,
        ((x / 0x10000000000) % 0x100) as u8,
        ((x / 0x1000000000000) % 0x100) as u8,
        ((x / 0x100000000000000) % 0x100) as u8,
    ]
}

/// The little-endian value of four bytes.
pub open spec fn spec_le_u32(b: Seq<u8>) -> u32 {
    (b[0] as int + b[1] as int * 0x100 + b[2] as int * 0x10000 + b[3] as int * 0x1000000) as u32
}

/// The big-endian value of four bytes.
pub open spec fn spec_be_u32(b: Seq<u8>) -> u32 {
    (b[3] as int + b[2] as int * 0x100 + b[1] as int * 0x10000 + b[0] as int * 0x1000000) as u32
}

/// The four little-endian bytes of a value.
pub open spec fn spec_u32_le_bytes(x: u32) -> Seq<u8> {
    seq![
        (x % 0x100) as u8,
        ((x / 0x100) % 0x100) as u8,
        ((x / 0x10000) % 0x100) as u8,
        ((x / 0x1000000) % 0x100) as u8,
    ]
}

/// Reads eight little-endian bytes at `off`.
pub fn read_u64_le(b: &[u8], off: usize) -> (r: u64)
    requires
        off + 8 <= b@.len(),
    ensures
        r == spec_le_u64(b@.subrange(off as int, off + 8)),
{
    let b0 = b[off];
    let b1 = b[off + 1];
    let b2 = b[off + 2];
    let b3 = b[off + 3];
    let b4 = b[off + 4];
    let b5 = b[off + 5];
    let b6 = b[off + 6];
    let b7 = b[off + 7];
    let r = (b0 as u64) | ((b1 as u64) << 8u64) | ((b2 as u64) << 16u64) | ((b3 as u64) << 24u64)
        | ((b4 as u64) << 32u64) | ((b5 as u64) << 40u64) | ((b6 as u64) << 48u64) | ((b7 as u64)
        << 56u64);
    assert(r == b0 as int + b1 as int * 0x100 + b2 as int * 0x10000 + b3 as int * 0x1000000
        + b4 as int * 0x100000000 + b5 as int * 0x10000000000 + b6 as int * 0x1000000000000
        + b7 as int * 0x100000000000000) by (bit_vector)
        requires
            r == (b0 as u64) | ((b1 as u64) << 8u64) | ((b2 as u64) << 16u64) | ((b3 as u64)
                << 24u64) | ((b4 as u64) << 32u64) | ((b5 as u64) << 40u64) | ((b6 as u64)
                << 48u64) | ((b7 as u64) << 56u64),
    ;
    r
}

/// The eight little-endian bytes of a value.
pub fn u64_to_le_bytes(x: u64) -> (r: [u8; 8])
    ensures
        r@ == spec_u64_le_bytes(x),
{
    let r = [
        x as u8,
        (x >> 8u64) as u8,
        (x >> 16u64) as u8,
        (x >> 24u64) as u8,
        (x >> 32u64) as u8,
        (x >> 40u64) as u8,
        (x >> 48u64) as u8,
        (x >> 56u64) as u8,
    ];
    assert(x as u8 == x % 0x100 && (x >> 8u64) as u8 == (x / 0x100) % 0x100 && (x >> 16u64) as u8
        == (x / 0x10000) % 0x100 && (x >> 24u64) as u8 == (x / 0x1000000) % 0x100 && (x
        >> 32u64) as u8 == (x / 0x100000000) % 0x100 && (x >> 40u64) as u8 == (x
        / 0x10000000000) % 0x100 && (x >> 48u64) as u8 == (x / 0x1000000000000) % 0x100 && (x
        >> 56u64) as u8 == (x / 0x100000000000000) % 0x100) by (bit_vector);
    assert(r@ =~= spec_u64_le_bytes(x));
    r
}

/// Reads four little-endian bytes at `off`.
pub fn read_u32_le(b: &[u8], off: usize) -> (r: u32)
    requires
        off + 4 <= b@.len(),
    ensures
        r == spec_le_u32(b@.subrange(off as int, off + 4)),
{
    let b0 = b[off];
    let b1 = b[off + 1];
    let b2 = b[off + 2];
    let b3 = b[off + 3];
    let r = (b0 as u32) | ((b1 as u32) << 8u32) | ((b2 as u32) << 16u32) | ((b3 as u32) << 24u32);
    assert(r == b0 as int + b1 as int * 0x100 + b2 as int * 0x10000 + b3 as int * 0x1000000)
        by (bit_vector)
        requires
            r == (b0 as u32) | ((b1 as u32) << 8u32) | ((b2 as u32) << 16u32) | ((b3 as u32)
                << 24u32),
    ;
    r
}

/// Reads four big-endian bytes at `off`.
pub fn read_u32_be(b: &[u8], off: usize) -> (r: u32)
    requires
        off + 4 <= b@.len(),
    ensures
        r == spec_be_u32(b@.subrange(off as int, off + 4)),
{
    let b0 = b[off];
    let b1 = b[off + 1];
    let b2 = b[off + 2];
    let b3 = b[off + 3];
    let r = (b3 as u32) | ((b2 as u32) << 8u32) | ((b1 as u32) << 16u32) | ((b0 as u32) << 24u32);
    assert(r == b3 as int + b2 as int * 0x100 + b1 as int * 0x10000 + b0 as int * 0x1000000)
        by (bit_vector)
        requires
            r == (b3 as u32) | ((b2 as u32) << 8u32) | ((b1 as u32) << 16u32) | ((b0 as u32)
                << 24u32),
    ;
    r
}

/// The four little-endian bytes of a value.
pub fn u32_to_le_bytes(x: u32) -> (r: [u8; 4])
    ensures
        r@ == spec_u32_le_bytes(x),
{
    let r = [x as u8, (x >> 8u32) as u8, (x >> 16u32) as u8, (x >> 24u32) as u8];
    assert(x as u8 == x % 0x100 && (x >> 8u32) as u8 == (x / 0x100) % 0x100 && (x >> 16u32) as u8
        == (x / 0x10000) % 0x100 && (x >> 24u32) as u8 == (x / 0x1000000) % 0x100)
        by (bit_vector);
    assert(r@ =~= spec_u32_le_bytes(x));
    r
}

/// Whether two byte strings are equal.
pub fn bytes_eq(a: &[u8], b: &[u8]) -> (r: bool)
    ensures
        r == (a@ == b@),
{
    if a.len() != b.len() {
        return false;
    }
    let mut i: usize = 0;
    while i < a.len()
        invariant
            a@.len() == b@.len(),
            i <= a@.len(),
            forall|j: int| 0 <= j < i ==> a@[j] == b@[j],
        decreases a@.len() - i,
    {
        if a[i] != b[i] {
            return false;
        }
        i = i + 1;
    }
    assert(a@ =~= b@);
    true
}

/// Reading back the bytes of a value gives the value.
pub proof fn lemma_le_u64_of_bytes(x: u64)
    ensures
        spec_le_u64(spec_u64_le_bytes(x)) == x,
{
    let b = spec_u64_le_bytes(x);
    assert(((x % 0x100) as u8) as int + (((x / 0x100) % 0x100) as u8) as int * 0x100 + (((x
        / 0x10000) % 0x100) as u8) as int * 0x10000 + (((x / 0x1000000) % 0x100) as u8) as int
        * 0x1000000 + (((x / 0x100000000) % 0x100) as u8) as int * 0x100000000 + (((x
        / 0x10000000000) % 0x100) as u8) as int * 0x10000000000 + (((x / 0x1000000000000)
        % 0x100) as u8) as int * 0x1000000000000 + (((x / 0x100000000000000) % 0x100) as u8) as int
        * 0x100000000000000 == x) by (bit_vector);
}

/// The bytes of the value of eight bytes are those bytes.
pub proof fn lemma_bytes_of_le_u64(b: Seq<u8>)
    requires
        b.len() == 8,
    ensures
        spec_u64_le_bytes(spec_le_u64(b)) == b,
{
    let (b0, b1, b2, b3, b4, b5, b6, b7) = (b[0], b[1], b[2], b[3], b[4], b[5], b[6], b[7]);
    let x = spec_le_u64(b);
    assert(x == b0 as int + b1 as int * 0x100 + b2 as int * 0x10000 + b3 as int * 0x1000000
        + b4 as int * 0x100000000 + b5 as int * 0x10000000000 + b6 as int * 0x1000000000000
        + b7 as int * 0x100000000000000) by (bit_vector)
        requires
            x == (b0 as int + b1 as int * 0x100 + b2 as int * 0x10000 + b3 as int * 0x1000000
                + b4 as int * 0x100000000 + b5 as int * 0x10000000000 + b6 as int
                * 0x1000000000000 + b7 as int * 0x100000000000000) as u64,
    ;
    assert((x % 0x100) as u8 == b0 && ((x / 0x100) % 0x100) as u8 == b1 && ((x / 0x10000)
        % 0x100) as u8 == b2 && ((x / 0x1000000) % 0x100) as u8 == b3 && ((x / 0x100000000)
        % 0x100) as u8 == b4 && ((x / 0x10000000000) % 0x100) as u8 == b5 && ((x
        / 0x1000000000000) % 0x100) as u8 == b6 && ((x / 0x100000000000000) % 0x100) as u8 == b7)
        by (bit_vector)
        requires
            x == b0 as int + b1 as int * 0x100 + b2 as int * 0x10000 + b3 as int * 0x1000000
                + b4 as int * 0x100000000 + b5 as int * 0x10000000000 + b6 as int
                * 0x1000000000000 + b7 as int * 0x100000000000000,
    ;
    assert(spec_u64_le_bytes(x) =~= b);
}

} // verus!
