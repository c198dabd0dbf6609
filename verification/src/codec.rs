//! Base64 decoding, through the `base64` crate.

use base64::Engine as _;
use vstd::prelude::*;

verus! {

/// What the `base64` crate's `general_purpose::STANDARD` engine decodes the
/// UTF-8 bytes of `input` to; nothing when the engine rejects them.
pub uninterp spec fn base64_standard_decoding(input: Seq<char>) -> Option<Seq<u8>>;

/// `base64::engine::general_purpose::STANDARD.decode(input)`, with the error
/// dropped. The contract claims only that the result is a function of the
/// input text (`base64_standard_decoding`); which function that is (RFC 4648
/// with canonical padding) is the crate's.
#[verifier::external_body]
pub(crate) fn decode_base64(input: &str) -> (r: Option<Vec<u8>>)
    ensures
        match r {
            Some(bytes) => base64_standard_decoding(input@) == Some(bytes@),
            None => base64_standard_decoding(input@).is_none(),
        },
{
    base64::engine::general_purpose::STANDARD.decode(input).ok()
}

} // verus!
