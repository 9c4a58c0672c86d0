//! QMCv2's map cipher: a keystream of period 0x7fff derived from the key.
use vstd::prelude::*;

verus! {

/// The key index for table offset `offset`: `(offset² + 71214) mod len`,
/// with the length taken as a `u32` and the index as a byte.
pub open spec fn spec_key_index(offset: int, key_len: nat) -> u8 {
    ((offset * offset + 71214) % (key_len as u32) as int) as u8
}

/// The keystream byte for table offset `offset`: the key byte at its index,
/// shifted both ways by `(index mod 8 + 4) mod 8` and the two ORed.
pub open spec fn spec_xor_value(key: Seq<u8>, offset: int) -> u8 {
    let idx = spec_key_index(offset, key.len());
    let xor_key = key[idx as int];
    let rotation = (((idx & 7u8) + 4) % 8) as u8;
    (xor_key << rotation) | (xor_key >> rotation)
}

/// The table offset of stream position `pos`: positions up to 0x7fff map to
/// themselves, later ones repeat with period 0x7fff.
pub open spec fn spec_map_offset(pos: int) -> int {
    if pos <= 0x7fff {
        pos
    } else {
        pos % 0x7fff
    }
}

/// Bytes at table offsets `offset..`, run through the keystream.
pub open spec fn spec_map_block(key: Seq<u8>, offset: int, data: Seq<u8>) -> Seq<u8> {
    Seq::new(data.len(), |i: int| data[i] ^ spec_xor_value(key, offset + i))
}

/// Bytes at stream positions `pos..`, run through the keystream.
pub open spec fn spec_map_stream(key: Seq<u8>, pos: int, data: Seq<u8>) -> Seq<u8> {
    Seq::new(data.len(), |i: int| data[i] ^ spec_xor_value(key, spec_map_offset(pos + i)))
}

pub struct QMC2Map {
    key: Vec<u8>,
    table: [u8; 0x8000],
}

impl QMC2Map {
    #[verifier::type_invariant]
    spec fn inv(self) -> bool {
        &&& (self.key@.len() as u32) != 0
        &&& forall|i: int| 0 <= i < 0x8000 ==> #[trigger] self.table@[i] == spec_key_index(i, self.key@.len())
    }

    pub closed spec fn key(&self) -> Seq<u8> {
        self.key@
    }

    pub fn new(key: &[u8]) -> (r: QMC2Map)
        requires
            (key@.len() as u32) != 0,
        ensures
            r.key() == key@,
    {
        let key_len = key.len() as u32;
        let mut table = [0u8; 0x8000];
        let mut i: usize = 0;
        while i < 0x8000
            invariant
                i <= 0x8000,
                key_len == key@.len() as u32,
                key_len != 0,
                forall|j: int| 0 <= j < i ==> #[trigger] table@[j] == spec_key_index(j, key@.len()),
            decreases 0x8000 - i,
        {
            let offset = i as u32;
            assert(offset * offset + 71214 <= u32::MAX) by (nonlinear_arith)
                requires offset < 0x8000;
            let v = offset.wrapping_mul(offset).wrapping_add(71214) % key_len;
            table[i] = v as u8;
            i = i + 1;
        }
        QMC2Map { key: vstd::slice::slice_to_vec(key), table }
    }

    /// The keystream byte for table offset `offset`.
    pub fn get_xor_value(&self, offset: usize) -> (r: u8)
        requires
            offset < 0x8000,
        ensures
            r == spec_xor_value(self.key(), offset as int),
    {
        proof {
            use_type_invariant(self);
        }
        let key = self.table[offset];
        assert(key < self.key@.len()) by {
            let len = self.key@.len();
            let vi = (offset * offset + 71214) % (len as u32) as int;
            assert(0 <= vi < (len as u32) as int);
            assert((len as u32) as int <= len);
            let v = vi as u32;
            assert(v as u8 <= v) by (bit_vector);
        }
        let xor_key = self.key[key as usize];
        assert(key & 0b0111 <= 7) by (bit_vector);
        let rotation = ((key & 0b0111) + 4) % 8;
        (xor_key << rotation) | (xor_key >> rotation)
    }

    /// Runs a block at table offsets `offset..` through the keystream.
    pub fn decrypt_block(&self, block: &mut [u8], offset: usize)
        requires
            offset + old(block)@.len() <= 0x8000,
        ensures
            final(block)@ == spec_map_block(self.key(), offset as int, old(block)@),
    {
        let ghost orig = block@;
        let mut i: usize = 0;
        while i < block.len()
            invariant
                block@.len() == orig.len(),
                offset + orig.len() <= 0x8000,
                i <= orig.len(),
                forall|j: int| 0 <= j < i ==> block@[j] == orig[j] ^ spec_xor_value(self.key(), offset + j),
                forall|j: int| i <= j < orig.len() ==> block@[j] == orig[j],
            decreases orig.len() - i,
        {
            block[i] = block[i] ^ self.get_xor_value(i + offset);
            i = i + 1;
        }
        assert(block@ =~= spec_map_block(self.key(), offset as int, orig));
    }

    /// The table offset of a stream position.
    pub fn map_offset(pos: usize) -> (r: usize)
        ensures
            r == spec_map_offset(pos as int),
            r < 0x8000,
    {
        if pos <= 0x7fff {
            pos
        } else {
            pos % 0x7fff
        }
    }

    /// Runs bytes at stream positions `pos..` through the keystream, the way
    /// a file is processed: one 0x7fff-byte block, then one byte at offset
    /// 0x7fff, then a block of 0x7ffe bytes from offset 1, then 0x7fff-byte
    /// blocks from offset 0.
    pub fn decrypt_stream(&self, pos: usize, data: &mut [u8])
        requires
            pos + old(data)@.len() <= usize::MAX,
        ensures
            final(data)@ == spec_map_stream(self.key(), pos as int, old(data)@),
    {
        let ghost orig = data@;
        let mut i: usize = 0;
        while i < data.len()
            invariant
                data@.len() == orig.len(),
                pos + orig.len() <= usize::MAX,
                i <= orig.len(),
                forall|j: int| 0 <= j < i ==> data@[j] == orig[j] ^ spec_xor_value(self.key(), spec_map_offset(pos + j)),
                forall|j: int| i <= j < orig.len() ==> data@[j] == orig[j],
            decreases orig.len() - i,
        {
            let offset = Self::map_offset(pos + i);
            data[i] = data[i] ^ self.get_xor_value(offset);
            i = i + 1;
        }
        assert(data@ =~= spec_map_stream(self.key(), pos as int, orig));
    }

    /// Runs the `count` bytes of `data` at `start` through the keystream from
    /// table offset `offset`; the other bytes stay.
    fn xor_range(&self, data: &mut [u8], start: usize, count: usize, offset: usize)
        requires
            start + count <= old(data)@.len(),
            offset + count <= 0x8000,
        ensures
            final(data)@.len() == old(data)@.len(),
            forall|j: int|
                start <= j < start + count ==> #[trigger] final(data)@[j] == old(data)@[j]
                    ^ spec_xor_value(self.key(), offset + (j - start)),
            forall|j: int|
                0 <= j < old(data)@.len() && !(start <= j < start + count)
                    ==> #[trigger] final(data)@[j] == old(data)@[j],
    {
        let ghost orig = data@;
        let n = data.len();
        let mut i: usize = 0;
        while i < count
            invariant
                data@.len() == orig.len(),
                n == orig.len(),
                start + count <= n,
                offset + count <= 0x8000,
                i <= count,
                forall|j: int|
                    start <= j < start + i ==> #[trigger] data@[j] == orig[j] ^ spec_xor_value(
                        self.key(),
                        offset + (j - start),
                    ),
                forall|j: int|
                    0 <= j < orig.len() && !(start <= j < start + i) ==> #[trigger] data@[j]
                        == orig[j],
            decreases count - i,
        {
            data[start + i] = data[start + i] ^ self.get_xor_value(offset + i);
            i = i + 1;
        }
    }
}

proof fn lemma_offset_in_block(k: int, t: int)
    requires
        k >= 2,
        0 <= t < 0x7fff,
    ensures
        spec_map_offset(k * 0x7fff + t) == t,
{
    assert((k * 0x7fff + t) % 0x7fff == t) by (nonlinear_arith)
        requires
            k >= 2,
            0 <= t < 0x7fff,
    {
        vstd::arithmetic::div_mod::lemma_fundamental_div_mod_converse(k * 0x7fff + t, 0x7fff, k, t);
    }
}

/// Decrypts the data part of a QMCv2 map file, block by block as the file is
/// laid out: 0x7fff bytes from table offset 0, one byte at offset 0x7fff,
/// 0x7ffe bytes from offset 1, then blocks of 0x7fff bytes from offset 0.
/// This is the keystream taken at each stream position.
pub fn decrypt_map(embed_key: &[u8], data: &mut [u8])
    requires
        (embed_key@.len() as u32) != 0,
    ensures
        final(data)@ == spec_map_stream(embed_key@, 0, old(data)@),
{
    let map = QMC2Map::new(embed_key);
    let ghost key = embed_key@;
    let ghost orig = data@;
    let len = data.len();
    let mut pos: usize = 0;

    let first = if len < 0x7fff { len } else { 0x7fff };
    map.xor_range(data, pos, first, 0);
    pos = first;

    if pos < len {
        map.xor_range(data, pos, 1, 0x7fff);
        pos = pos + 1;
    }
    if pos < len {
        let third = if len - pos < 0x7ffe { len - pos } else { 0x7ffe };
        map.xor_range(data, pos, third, 1);
        pos = pos + third;
    }
    assert(forall|j: int| 0 <= j < pos ==> #[trigger] data@[j] == orig[j] ^ spec_xor_value(key, spec_map_offset(j)));

    let ghost mut k: int = 2;
    while pos < len
        invariant
            data@.len() == orig.len(),
            len == orig.len(),
            pos <= len,
            map.key() == key,
            pos < len ==> pos == k * 0x7fff,
            k >= 2,
            forall|j: int| 0 <= j < pos ==> #[trigger] data@[j] == orig[j] ^ spec_xor_value(key, spec_map_offset(j)),
            forall|j: int| pos <= j < orig.len() ==> #[trigger] data@[j] == orig[j],
        decreases len - pos,
    {
        let count = if len - pos < 0x7fff { len - pos } else { 0x7fff };
        map.xor_range(data, pos, count, 0);
        proof {
            assert forall|j: int| pos <= j < pos + count implies spec_map_offset(j) == j - pos by {
                lemma_offset_in_block(k, j - pos);
            }
            k = k + 1;
        }
        pos = pos + count;
    }
    assert(data@ =~= spec_map_stream(key, 0, orig));
}

/// Running bytes through the map keystream twice at the same offsets gives them back.
pub proof fn lemma_map_block_twice(key: Seq<u8>, offset: int, data: Seq<u8>)
    ensures
        spec_map_block(key, offset, spec_map_block(key, offset, data)) == data,
{
    let once = spec_map_block(key, offset, data);
    let twice = spec_map_block(key, offset, once);
    assert forall|i: int| 0 <= i < data.len() implies twice[i] == data[i] by {
        let x = spec_xor_value(key, offset + i);
        let b = data[i];
        assert((b ^ x) ^ x == b) by (bit_vector);
    }
    assert(twice =~= data);
}

/// Running bytes through the map keystream twice at the same stream positions gives them back.
pub proof fn lemma_map_stream_twice(key: Seq<u8>, pos: int, data: Seq<u8>)
    ensures
        spec_map_stream(key, pos, spec_map_stream(key, pos, data)) == data,
{
    let once = spec_map_stream(key, pos, data);
    let twice = spec_map_stream(key, pos, once);
    assert forall|i: int| 0 <= i < data.len() implies twice[i] == data[i] by {
        let x = spec_xor_value(key, spec_map_offset(pos + i));
        let b = data[i];
        assert((b ^ x) ^ x == b) by (bit_vector);
    }
    assert(twice =~= data);
}

/// The key index of table offset `offset` is `offset² + 71214` modulo the
/// whole length of the key (1 to 300 bytes), kept to its low byte.
pub proof fn lemma_key_index(offset: int, key_len: nat)
    requires
        0 <= offset < 0x8000,
        0 < key_len <= 300,
    ensures
        spec_key_index(offset, key_len) as int == ((offset * offset + 71214) % (key_len as int))
            % 256,
{
    let len32 = key_len as u32;
    assert(len32 as int == key_len);
    let v = (offset * offset + 71214) % (len32 as int);
    assert(0 <= v < 300);
    let v32 = v as u32;
    assert(v32 as int == v);
    assert((v32 as u8) as int == (v32 as int) % 256) by {
        assert((v32 as u8) as u32 == v32 % 256) by (bit_vector);
    }
}

/// Decrypting a stream in two chunks, the second at the stream position
/// where the first ends, gives what decrypting it whole does.
pub proof fn lemma_map_stream_chunks(key: Seq<u8>, pos: int, a: Seq<u8>, b: Seq<u8>)
    ensures
        spec_map_stream(key, pos, a + b) == spec_map_stream(key, pos, a) + spec_map_stream(
            key,
            pos + a.len(),
            b,
        ),
{
    let whole = spec_map_stream(key, pos, a + b);
    let parts = spec_map_stream(key, pos, a) + spec_map_stream(key, pos + a.len(), b);
    assert forall|i: int| 0 <= i < whole.len() implies whole[i] == parts[i] by {
        if i >= a.len() {
            assert(pos + a.len() + (i - a.len()) == pos + i);
        }
    }
    assert(whole =~= parts);
}

} // verus!
