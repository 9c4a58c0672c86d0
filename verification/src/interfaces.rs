//! Errors shared by the decryptors.
use vstd::prelude::*;

verus! {

/// Why a decryptor gave up.
#[derive(Debug, PartialEq, Eq)]
pub enum DecryptorError {
    IOError,
    NotImplementedError(String),
    QMCInvalidFooter(u32),
    QMCAndroidSTag,
    QMCAndroidQTagInvalid,
    StringEncodeError,
    Base64DecodeError,
    TEADecryptError,
    XimalayaCountNotFindImplementation,
    QrcDesblockAlignment,
    KGMv4ExpansionTableRequired,
}

} // verus!
