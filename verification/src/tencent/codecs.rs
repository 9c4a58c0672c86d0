//! The outside decoders that the QMC key handling calls.
use vstd::prelude::*;

verus! {

#[verifier::external_type_specification]
#[verifier::external_body]
pub struct ExDecodeError(base64::DecodeError);

/// What `base64::decode` (standard alphabet, padded) makes of `input`:
/// `None` where it reports an error.
pub uninterp spec fn spec_base64_decode(input: Seq<u8>) -> Option<Seq<u8>>;

/// What `tc_tea::decrypt` makes of `data` under `key`: `None` where it
/// reports a failure.
pub uninterp spec fn spec_tc_tea_decrypt(data: Seq<u8>, key: Seq<u8>) -> Option<Seq<u8>>;

/// Calls `std::str::from_utf8`: the bytes are accepted exactly when they
/// are valid UTF-8, which is what its documentation states.
#[verifier::external_body]
pub(crate) fn is_valid_utf8(bytes: &[u8]) -> (r: bool)
    ensures
        r == vstd::utf8::valid_utf8(bytes@),
{
    std::str::from_utf8(bytes).is_ok()
}

/// Calls `base64::decode` (0.13): the outcome is named by
/// `spec_base64_decode` of the input; nothing else is claimed of it. The
/// crate panics when the input length plus three overflows, which the
/// `requires` leaves out.
#[verifier::external_body]
pub(crate) fn base64_decode(input: &[u8]) -> (r: Result<Vec<u8>, base64::DecodeError>)
    requires
        input@.len() <= usize::MAX - 3,
    ensures
        r is Ok <==> spec_base64_decode(input@) is Some,
        r matches Ok(v) ==> spec_base64_decode(input@) == Some(v@),
{
    base64::decode(input)
}

/// Calls `tc_tea::decrypt` (0.1): the outcome is named by
/// `spec_tc_tea_decrypt` of its arguments. Its source shows that it fails
/// on a key shorter than 16 bytes and on data whose length is below 10 or
/// not a multiple of 8, and that what it returns is at least 10 bytes
/// shorter than the data. On 16 bytes of data whose padding length reads 7
/// it slices out of bounds and panics; the `requires` leaves out all 16-byte
/// data, as nothing short of decrypting tells those inputs apart.
#[verifier::external_body]
pub(crate) fn tc_tea_decrypt(data: &[u8], key: &[u8]) -> (r: Option<Vec<u8>>)
    requires
        data@.len() != 16,
    ensures
        r is Some <==> spec_tc_tea_decrypt(data@, key@) is Some,
        r matches Some(v) ==> spec_tc_tea_decrypt(data@, key@) == Some(v@),
        (key@.len() < 16 || data@.len() < 10 || data@.len() % 8 != 0) ==> r is None,
        r matches Some(v) ==> v@.len() + 10 <= data@.len(),
{
    match tc_tea::decrypt(data, key) {
        Some(v) => Some(v.into_vec()),
        None => None,
    }
}

} // verus!
