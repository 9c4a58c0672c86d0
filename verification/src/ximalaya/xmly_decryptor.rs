//! Ximalaya's header XOR in place, for a key of `KEY_SIZE` bytes.
use vstd::prelude::*;

use super::xmly_crypto::{header_of, with_header};
use crate::interfaces::DecryptorError;

verus! {

/// The header after the first `k` steps: step `i` XORs the byte at
/// `table[i]` of the original header with key byte `i % KEY_SIZE`.
pub open spec fn xmly_xor_steps(key: Seq<u8>, table: Seq<usize>, buffer: Seq<u8>, k: int) -> Seq<u8>
    decreases k,
{
    if k <= 0 {
        buffer
    } else {
        xmly_xor_steps(key, table, buffer, k - 1).update(
            table[k - 1] as int,
            buffer[table[k - 1] as int] ^ key[(k - 1) % key.len() as int],
        )
    }
}

#[derive(Debug, Clone, Copy)]
pub struct XmlyCrypto<const KEY_SIZE: usize> {
    content_key: [u8; KEY_SIZE],
    scramble_table: [usize; 1024],
}

impl<const KEY_SIZE: usize> XmlyCrypto<KEY_SIZE> {
    pub closed spec fn content_key(&self) -> Seq<u8> {
        self.content_key@
    }

    pub closed spec fn scramble_table(&self) -> Seq<usize> {
        self.scramble_table@
    }

    pub fn new(content_key: &[u8; KEY_SIZE], scramble_table: &[usize; 1024]) -> (r: Self)
        ensures
            r.content_key() == content_key@,
            r.scramble_table() == scramble_table@,
    {
        Self { content_key: *content_key, scramble_table: *scramble_table }
    }

    pub fn decrypt_header(&self, buffer: &[u8; 1024]) -> (r: [u8; 1024])
        requires
            KEY_SIZE > 0,
            forall|i: int| 0 <= i < 1024 ==> #[trigger] self.scramble_table()[i] < 1024,
        ensures
            r@ == xmly_xor_steps(self.content_key(), self.scramble_table(), buffer@, 1024),
    {
        let mut result = *buffer;
        let mut key_index: usize = 0;
        while key_index < 1024
            invariant
                key_index <= 1024,
                KEY_SIZE > 0,
                self.content_key@.len() == KEY_SIZE,
                forall|i: int| 0 <= i < 1024 ==> #[trigger] self.scramble_table()[i] < 1024,
                result@ == xmly_xor_steps(self.content_key@, self.scramble_table@, buffer@, key_index as int),
            decreases 1024 - key_index,
        {
            let i = self.scramble_table[key_index];
            assert(self.scramble_table()[key_index as int] < 1024);
            result[i] = buffer[i] ^ self.content_key[key_index % KEY_SIZE];
            key_index = key_index + 1;
        }
        result
    }

    /// A whole file decrypted: its header run through the key, the rest as it
    /// is. A file shorter than the header is refused.
    pub fn decrypt(&self, file: &[u8]) -> (r: Result<Vec<u8>, DecryptorError>)
        requires
            KEY_SIZE > 0,
            forall|i: int| 0 <= i < 1024 ==> #[trigger] self.scramble_table()[i] < 1024,
        ensures
            r is Ok <==> file@.len() >= 1024,
            r matches Ok(v) ==> v@ == xmly_xor_steps(
                self.content_key(),
                self.scramble_table(),
                file@.take(1024),
                1024,
            ) + file@.skip(1024),
            r is Err ==> r == Err::<Vec<u8>, DecryptorError>(DecryptorError::IOError),
    {
        if file.len() < 1024 {
            return Err(DecryptorError::IOError);
        }
        let header = self.decrypt_header(&header_of(file));
        Ok(with_header(&header, file))
    }
}

/// The last of the first `k` steps that writes position `p`; -1 for none.
pub open spec fn last_hit(table: Seq<usize>, p: int, k: int) -> int
    decreases k,
{
    if k <= 0 {
        -1
    } else if table[k - 1] as int == p {
        k - 1
    } else {
        last_hit(table, p, k - 1)
    }
}

/// After `k` steps a position holds its original byte XORed with the key
/// byte of the last step that wrote it, or its original byte if none did.
proof fn lemma_xor_steps(key: Seq<u8>, table: Seq<usize>, buffer: Seq<u8>, k: int)
    requires
        key.len() > 0,
        buffer.len() == 1024,
        table.len() == 1024,
        forall|i: int| 0 <= i < 1024 ==> #[trigger] table[i] < 1024,
        0 <= k <= 1024,
    ensures
        xmly_xor_steps(key, table, buffer, k).len() == 1024,
        forall|p: int|
            0 <= p < 1024 ==> #[trigger] xmly_xor_steps(key, table, buffer, k)[p] == if last_hit(
                table,
                p,
                k,
            ) >= 0 {
                buffer[p] ^ key[last_hit(table, p, k) % key.len() as int]
            } else {
                buffer[p]
            },
    decreases k,
{
    if k > 0 {
        lemma_xor_steps(key, table, buffer, k - 1);
        assert(table[k - 1] < 1024);
    }
}

/// Decrypting a header twice gives it back, for any table whose entries
/// address the header: each position is XORed with the same key byte both
/// times, and positions no entry names stay as they were.
pub proof fn lemma_xmly_xor_twice(key: Seq<u8>, table: Seq<usize>, buffer: Seq<u8>)
    requires
        key.len() > 0,
        buffer.len() == 1024,
        table.len() == 1024,
        forall|i: int| 0 <= i < 1024 ==> #[trigger] table[i] < 1024,
    ensures
        xmly_xor_steps(key, table, xmly_xor_steps(key, table, buffer, 1024), 1024) == buffer,
        forall|p: int|
            0 <= p < 1024 && (forall|i: int| 0 <= i < 1024 ==> table[i] != p) ==> #[trigger] xmly_xor_steps(
                key,
                table,
                buffer,
                1024,
            )[p] == buffer[p],
{
    let once = xmly_xor_steps(key, table, buffer, 1024);
    lemma_xor_steps(key, table, buffer, 1024);
    lemma_xor_steps(key, table, once, 1024);
    let twice = xmly_xor_steps(key, table, once, 1024);
    assert forall|p: int| 0 <= p < 1024 implies twice[p] == buffer[p] by {
        let h = last_hit(table, p, 1024);
        if h >= 0 {
            let k = key[h % key.len() as int];
            let b = buffer[p];
            assert(once[p] == b ^ k);
            assert((b ^ k) ^ k == b) by (bit_vector);
        }
    }
    assert(twice =~= buffer);
    assert forall|p: int|
        0 <= p < 1024 && (forall|i: int| 0 <= i < 1024 ==> table[i] != p) implies #[trigger] once[p]
            == buffer[p] by {
        lemma_no_hit(table, p, 1024);
    }
}

proof fn lemma_no_hit(table: Seq<usize>, p: int, k: int)
    requires
        0 <= k <= table.len(),
        forall|i: int| 0 <= i < table.len() ==> table[i] != p,
    ensures
        last_hit(table, p, k) == -1,
    decreases k,
{
    if k > 0 {
        lemma_no_hit(table, p, k - 1);
    }
}

} // verus!
