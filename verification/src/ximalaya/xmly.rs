//! A Ximalaya decryptor from a 4- or 32-byte key.
use vstd::prelude::*;

use super::xmly_crypto::{header_of, spec_xmly_decrypt, table_in_range, with_header, XimalayaCrypto};
use crate::interfaces::DecryptorError;

verus! {

#[derive(Debug, Clone, Copy)]
pub struct XimalayaDecryptor {
    crypto: XimalayaCrypto,
}

/// The 32-byte content key made from a 4-byte key (repeated) or a 32-byte key.
pub open spec fn spec_content_key(key: Seq<u8>) -> Seq<u8> {
    if key.len() == 4 {
        Seq::new(32, |i: int| key[i % 4])
    } else {
        key
    }
}

impl XimalayaDecryptor {
    pub closed spec fn crypto(&self) -> XimalayaCrypto {
        self.crypto
    }

    pub fn new(content_key: &[u8; 32], scramble_table: &[usize; 1024]) -> (r: Self)
        ensures
            r.crypto().content_key() == content_key@,
            r.crypto().scramble_table() == scramble_table@,
    {
        Self { crypto: XimalayaCrypto::new(content_key, scramble_table) }
    }

    /// The first 1024 bytes of a file, decrypted; the rest of a file is plain.
    pub fn decrypt_header(&self, header: &[u8; 1024]) -> (r: [u8; 1024])
        requires
            table_in_range(self.crypto().scramble_table()),
        ensures
            r@ == spec_xmly_decrypt(
                self.crypto().content_key(),
                self.crypto().scramble_table(),
                header@,
            ),
    {
        self.crypto.decrypt_header(header)
    }

    /// A whole file decrypted: its header unscrambled, the rest as it is. A
    /// file shorter than the header is refused.
    pub fn decrypt(&self, file: &[u8]) -> (r: Result<Vec<u8>, DecryptorError>)
        requires
            table_in_range(self.crypto().scramble_table()),
        ensures
            r is Ok <==> file@.len() >= 1024,
            r matches Ok(v) ==> v@ == spec_xmly_decrypt(
                self.crypto().content_key(),
                self.crypto().scramble_table(),
                file@.take(1024),
            ) + file@.skip(1024),
            r is Err ==> r == Err::<Vec<u8>, DecryptorError>(DecryptorError::IOError),
    {
        if file.len() < 1024 {
            return Err(DecryptorError::IOError);
        }
        let header = self.decrypt_header(&header_of(file));
        Ok(with_header(&header, file))
    }
}

/// A decryptor for a 4-byte (X2M) or 32-byte (X3M) key; other lengths are refused.
pub fn new_from_key(key: &[u8], scramble_table: &[usize; 1024]) -> (r: Result<
    XimalayaDecryptor,
    DecryptorError,
>)
    ensures
        r is Ok <==> (key@.len() == 4 || key@.len() == 32),
        r matches Ok(d) ==> d.crypto().content_key() == spec_content_key(key@)
            && d.crypto().scramble_table() == scramble_table@,
        r matches Ok(d) ==> d.crypto().content_key().len() == 32 && forall|i: int|
            0 <= i < 32 ==> #[trigger] d.crypto().content_key()[i] == key@[i % key@.len() as int],
        key@.len() == 32 ==> (r matches Ok(d) && d.crypto().content_key() == key@),
        r is Err ==> r == Err::<XimalayaDecryptor, DecryptorError>(
            DecryptorError::XimalayaCountNotFindImplementation,
        ),
{
    let mut key_final = [0u8; 32];

    if key.len() == 4 {
        let mut i: usize = 0;
        while i < 32
            invariant
                i <= 32,
                i % 4 == 0,
                key@.len() == 4,
                forall|j: int| 0 <= j < i ==> key_final@[j] == key@[j % 4],
            decreases 32 - i,
        {
            let mut j: usize = 0;
            while j < 4
                invariant
                    j <= 4,
                    i < 32,
                    i % 4 == 0,
                    key@.len() == 4,
                    forall|m: int| 0 <= m < i + j ==> key_final@[m] == key@[m % 4],
                decreases 4 - j,
            {
                key_final[i + j] = key[j];
                proof {
                    assert((i + j) as int % 4 == j as int) by (nonlinear_arith)
                        requires i % 4 == 0, j < 4;
                }
                j = j + 1;
            }
            i = i + 4;
        }
    } else if key.len() == 32 {
        let mut i: usize = 0;
        while i < 32
            invariant
                i <= 32,
                key@.len() == 32,
                forall|j: int| 0 <= j < i ==> key_final@[j] == key@[j],
            decreases 32 - i,
        {
            key_final[i] = key[i];
            i = i + 1;
        }
    } else {
        return Err(DecryptorError::XimalayaCountNotFindImplementation);
    }
    assert(key_final@ =~= spec_content_key(key@));
    Ok(XimalayaDecryptor::new(&key_final, scramble_table))
}

/// The content key repeats the given key to 32 bytes: a 4-byte key eight
/// times, a 32-byte key once, as it is.
pub proof fn lemma_content_key(key: Seq<u8>)
    requires
        key.len() == 4 || key.len() == 32,
    ensures
        spec_content_key(key).len() == 32,
        forall|i: int| 0 <= i < 32 ==> #[trigger] spec_content_key(key)[i] == key[i % key.len() as int],
        key.len() == 32 ==> spec_content_key(key) == key,
{
    if key.len() == 32 {
        assert forall|i: int| 0 <= i < 32 implies #[trigger] spec_content_key(key)[i] == key[i
            % key.len() as int] by {
            assert(i % 32 == i);
        }
    }
}

} // verus!
