//! URL-safe base64 without padding, the text form of each token segment.

use base64::engine::general_purpose::URL_SAFE_NO_PAD;
use base64::{DecodeError, Engine};
use vstd::prelude::*;

verus! {

/// The outside error type of a failed base64 decoding.
#[verifier::external_type_specification]
#[verifier::external_body]
pub struct ExDecodeError(DecodeError);

/// True of the 64 bytes of the URL-safe alphabet: letters, digits, `-`, `_`.
pub open spec fn is_base64url_byte(b: u8) -> bool {
    ||| 0x41 <= b <= 0x5A
    ||| 0x61 <= b <= 0x7A
    ||| 0x30 <= b <= 0x39
    ||| b == 0x2D
    ||| b == 0x5F
}

/// The unpadded URL-safe base64 text of `data`, as bytes.
pub uninterp spec fn base64url(data: Seq<u8>) -> Seq<u8>;

/// What unpadded URL-safe base64 `text` decodes to, `None` where it is not
/// such text.
pub uninterp spec fn base64url_decoded(text: Seq<u8>) -> Option<Seq<u8>>;

/// Encodes with `base64::Engine::encode` on `URL_SAFE_NO_PAD`. Trusted: the
/// text depends on the data alone, holds only bytes of the URL-safe alphabet,
/// and decodes back to the data. The bound keeps the outside length
/// computation within `usize`.
#[verifier::external_body]
pub(crate) fn encode_base64url(data: &[u8]) -> (text: Vec<u8>)
    requires
        data@.len() <= usize::MAX / 2,
    ensures
        text@ == base64url(data@),
        forall|i: int| 0 <= i < text@.len() ==> is_base64url_byte(#[trigger] text@[i]),
        base64url_decoded(text@) == Some(data@),
{
    URL_SAFE_NO_PAD.encode(data).into_bytes()
}

/// Decodes with `base64::Engine::decode` on `URL_SAFE_NO_PAD`. Trusted: the
/// outcome depends on the text alone.
#[verifier::external_body]
pub(crate) fn decode_base64url(text: &[u8]) -> (data: Result<Vec<u8>, DecodeError>)
    ensures
        match data {
            Ok(bytes) => base64url_decoded(text@) == Some(bytes@),
            Err(_) => base64url_decoded(text@) is None,
        },
{
    URL_SAFE_NO_PAD.decode(text)
}

} // verus!
