//! Ximalaya's header scrambling: the first 1024 bytes are permuted by a
//! table and XORed with a 32-byte key.
use vstd::prelude::*;

verus! {

/// Whether every entry of the table addresses the header.
pub open spec fn table_in_range(table: Seq<usize>) -> bool {
    table.len() == 1024 && forall|i: int| 0 <= i < 1024 ==> #[trigger] table[i] < 1024
}

/// Whether some entry of the table addresses position `p`.
pub open spec fn table_hits(table: Seq<usize>, p: int) -> bool {
    exists|i: int| 0 <= i < 1024 && table[i] == p
}

/// Whether the table is a permutation of the header positions.
pub open spec fn table_is_permutation(table: Seq<usize>) -> bool {
    &&& table_in_range(table)
    &&& forall|i: int, j: int| 0 <= i < 1024 && 0 <= j < 1024 && i != j ==> table[i] != table[j]
    &&& forall|p: int| 0 <= p < 1024 ==> #[trigger] table_hits(table, p)
}

/// The header decrypted: byte `i` is the scrambled byte at `table[i]`, XORed
/// with the key byte of position `i`.
pub open spec fn spec_xmly_decrypt(key: Seq<u8>, table: Seq<usize>, encrypted: Seq<u8>) -> Seq<u8> {
    Seq::new(1024, |i: int| encrypted[table[i] as int] ^ key[i % key.len() as int])
}

/// The header after the first `k` scatter steps of encryption: step `i`
/// writes the plain byte `i`, XORed with its key byte, to `table[i]`.
pub open spec fn xmly_encrypt_steps(key: Seq<u8>, table: Seq<usize>, decrypted: Seq<u8>, k: int) -> Seq<u8>
    decreases k,
{
    if k <= 0 {
        decrypted
    } else {
        xmly_encrypt_steps(key, table, decrypted, k - 1).update(
            table[k - 1] as int,
            decrypted[k - 1] ^ key[(k - 1) % key.len() as int],
        )
    }
}

pub open spec fn spec_xmly_encrypt(key: Seq<u8>, table: Seq<usize>, decrypted: Seq<u8>) -> Seq<u8> {
    xmly_encrypt_steps(key, table, decrypted, 1024)
}

/// The scramble table as it is stored: 1024 little-endian 16-bit entries.
pub fn scramble_table_from_bytes(bytes: &[u8; 2048]) -> (r: [usize; 1024])
    ensures
        forall|i: int|
            0 <= i < 1024 ==> #[trigger] r@[i] == bytes@[2 * i] as int + bytes@[2 * i + 1] as int
                * 256,
{
    let mut table = [0usize; 1024];
    let mut i: usize = 0;
    while i < 1024
        invariant
            i <= 1024,
            forall|j: int|
                0 <= j < i ==> #[trigger] table@[j] == bytes@[2 * j] as int + bytes@[2 * j + 1] as int
                    * 256,
        decreases 1024 - i,
    {
        let lo = bytes[2 * i] as usize;
        let hi = bytes[2 * i + 1] as usize;
        table[i] = lo + hi * 256;
        i = i + 1;
    }
    table
}

/// Whether every entry of the table addresses the header.
pub fn table_fits(table: &[usize; 1024]) -> (r: bool)
    ensures
        r == table_in_range(table@),
{
    let mut i: usize = 0;
    while i < 1024
        invariant
            i <= 1024,
            forall|j: int| 0 <= j < i ==> #[trigger] table@[j] < 1024,
        decreases 1024 - i,
    {
        if table[i] >= 1024 {
            return false;
        }
        i = i + 1;
    }
    true
}

/// The first 1024 bytes of a file: its scrambled header.
pub fn header_of(file: &[u8]) -> (r: [u8; 1024])
    requires
        file@.len() >= 1024,
    ensures
        r@ == file@.take(1024),
{
    let mut header = [0u8; 1024];
    let mut i: usize = 0;
    while i < 1024
        invariant
            i <= 1024,
            file@.len() >= 1024,
            forall|j: int| 0 <= j < i ==> header@[j] == file@[j],
        decreases 1024 - i,
    {
        header[i] = file[i];
        i = i + 1;
    }
    assert(header@ =~= file@.take(1024));
    header
}

/// `file` with its first 1024 bytes replaced by `header`.
pub fn with_header(header: &[u8; 1024], file: &[u8]) -> (r: Vec<u8>)
    requires
        file@.len() >= 1024,
    ensures
        r@ == header@ + file@.skip(1024),
{
    let mut out = vstd::slice::slice_to_vec(header);
    let n = file.len();
    let mut i: usize = 1024;
    while i < n
        invariant
            1024 <= i <= n,
            n == file@.len(),
            out@ == header@ + file@.subrange(1024, i as int),
        decreases n - i,
    {
        out.push(file[i]);
        i = i + 1;
        assert(out@ =~= header@ + file@.subrange(1024, i as int));
    }
    assert(file@.subrange(1024, n as int) =~= file@.skip(1024));
    out
}

#[derive(Debug, Clone, Copy)]
pub struct XimalayaCrypto {
    content_key: [u8; 32],
    scramble_table: [usize; 1024],
}

impl XimalayaCrypto {
    pub closed spec fn content_key(&self) -> Seq<u8> {
        self.content_key@
    }

    pub closed spec fn scramble_table(&self) -> Seq<usize> {
        self.scramble_table@
    }

    pub fn new(content_key: &[u8; 32], scramble_table: &[usize; 1024]) -> (r: Self)
        ensures
            r.content_key() == content_key@,
            r.scramble_table() == scramble_table@,
    {
        Self { content_key: *content_key, scramble_table: *scramble_table }
    }

    pub fn decrypt_header(&self, encrypted: &[u8; 1024]) -> (r: [u8; 1024])
        requires
            table_in_range(self.scramble_table()),
        ensures
            r@ == spec_xmly_decrypt(self.content_key(), self.scramble_table(), encrypted@),
    {
        let mut decrypted = *encrypted;
        let mut di: usize = 0;
        while di < 1024
            invariant
                di <= 1024,
                table_in_range(self.scramble_table@),
                forall|j: int| 0 <= j < di ==> decrypted@[j] == spec_xmly_decrypt(self.content_key@, self.scramble_table@, encrypted@)[j],
            decreases 1024 - di,
        {
            let ei = self.scramble_table[di];
            let key = self.content_key[di % 32];
            decrypted[di] = encrypted[ei] ^ key;
            di = di + 1;
        }
        assert(decrypted@ =~= spec_xmly_decrypt(self.content_key@, self.scramble_table@, encrypted@));
        decrypted
    }

    pub fn encrypt_header(&self, decrypted: &[u8; 1024]) -> (r: [u8; 1024])
        requires
            table_in_range(self.scramble_table()),
        ensures
            r@ == spec_xmly_encrypt(self.content_key(), self.scramble_table(), decrypted@),
    {
        let mut encrypted = *decrypted;
        let reverse_scramble_table = self.scramble_table;
        let mut di: usize = 0;
        while di < 1024
            invariant
                di <= 1024,
                reverse_scramble_table@ == self.scramble_table@,
                table_in_range(self.scramble_table@),
                encrypted@ == xmly_encrypt_steps(self.content_key@, self.scramble_table@, decrypted@, di as int),
            decreases 1024 - di,
        {
            let ei = reverse_scramble_table[di];
            let key = self.content_key[di % 32];
            encrypted[ei] = decrypted[di] ^ key;
            di = di + 1;
        }
        encrypted
    }
}

/// With a permutation table, after `k` steps the position written by step
/// `i < k` holds its byte, and positions no step wrote keep the plain byte.
proof fn lemma_encrypt_steps(key: Seq<u8>, table: Seq<usize>, plain: Seq<u8>, k: int)
    requires
        table_is_permutation(table),
        key.len() > 0,
        plain.len() == 1024,
        0 <= k <= 1024,
    ensures
        xmly_encrypt_steps(key, table, plain, k).len() == 1024,
        forall|i: int|
            0 <= i < k ==> #[trigger] xmly_encrypt_steps(key, table, plain, k)[table[i] as int]
                == plain[i] ^ key[i % key.len() as int],
    decreases k,
{
    if k > 0 {
        lemma_encrypt_steps(key, table, plain, k - 1);
        assert forall|i: int| 0 <= i < k implies #[trigger] xmly_encrypt_steps(
            key,
            table,
            plain,
            k,
        )[table[i] as int] == plain[i] ^ key[i % key.len() as int] by {
            if i < k - 1 {
                assert(table[i] != table[k - 1]);
            }
        }
    }
}

/// With a permutation table, decrypting an encrypted header gives it back.
pub proof fn lemma_xmly_decrypt_encrypt(key: Seq<u8>, table: Seq<usize>, header: Seq<u8>)
    requires
        table_is_permutation(table),
        key.len() > 0,
        header.len() == 1024,
    ensures
        spec_xmly_decrypt(key, table, spec_xmly_encrypt(key, table, header)) == header,
{
    lemma_encrypt_steps(key, table, header, 1024);
    let e = spec_xmly_encrypt(key, table, header);
    let d = spec_xmly_decrypt(key, table, e);
    assert forall|i: int| 0 <= i < 1024 implies d[i] == header[i] by {
        let k = key[i % key.len() as int];
        let b = header[i];
        assert(e[table[i] as int] == b ^ k);
        assert((b ^ k) ^ k == b) by (bit_vector);
    }
    assert(d =~= header);
}

/// With a permutation table, encrypting a decrypted header gives it back.
pub proof fn lemma_xmly_encrypt_decrypt(key: Seq<u8>, table: Seq<usize>, header: Seq<u8>)
    requires
        table_is_permutation(table),
        key.len() > 0,
        header.len() == 1024,
    ensures
        spec_xmly_encrypt(key, table, spec_xmly_decrypt(key, table, header)) == header,
{
    let d = spec_xmly_decrypt(key, table, header);
    lemma_encrypt_steps(key, table, d, 1024);
    let e = spec_xmly_encrypt(key, table, d);
    assert forall|p: int| 0 <= p < 1024 implies e[p] == header[p] by {
        assert(table_hits(table, p));
        let i = choose|i: int| 0 <= i < 1024 && table[i] == p;
        let k = key[i % key.len() as int];
        let b = header[p];
        assert(e[table[i] as int] == d[i] ^ k);
        assert((b ^ k) ^ k == b) by (bit_vector);
    }
    assert(e =~= header);
}

} // verus!
