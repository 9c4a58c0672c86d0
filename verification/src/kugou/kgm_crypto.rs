//! The interface of Kugou's byte ciphers.
use vstd::prelude::*;

verus! {

/// A Kugou cipher: keyed from a slot key and a file key, then run over the
/// audio bytes by stream offset.
pub trait KGMCrypto {
    /// Whether `len` bytes starting at stream offset `offset` can be run
    /// through the cipher in its current state.
    spec fn can_crypt(&self, offset: u64, len: nat) -> bool;

    fn expand_slot_key(&mut self, input: &[u8]);

    fn expand_file_key(&mut self, input: &[u8]);

    fn decrypt(&mut self, offset: u64, buffer: &mut [u8])
        requires
            old(self).can_crypt(offset, old(buffer)@.len()),
    ;

    fn encrypt(&mut self, offset: u64, buffer: &mut [u8])
        requires
            old(self).can_crypt(offset, old(buffer)@.len()),
    ;
}

} // verus!
