//! Byte encodings: base64 (the `base64` crate), hexadecimal (the `hex` crate)
//! and lossy UTF-8 decoding (std).

use vstd::prelude::*;
use base64::Engine;

verus! {

/// What the standard base64 engine (`+/` alphabet, padded) encodes `bytes` as.
pub uninterp spec fn base64_standard_encoding(bytes: Seq<u8>) -> Seq<char>;

/// What the standard engine (`+/` alphabet, padded) decodes `text` to; `None`
/// when it refuses the text.
pub uninterp spec fn base64_standard_decoding(text: Seq<char>) -> Option<Seq<u8>>;

/// What the standard-alphabet engine without padding decodes `text` to;
/// `None` when it refuses the text.
pub uninterp spec fn base64_standard_no_pad_decoding(text: Seq<char>) -> Option<Seq<u8>>;

/// What the URL-safe engine (`-_` alphabet) without padding decodes `text` to;
/// `None` when it refuses the text.
pub uninterp spec fn base64_url_safe_no_pad_decoding(text: Seq<char>) -> Option<Seq<u8>>;

/// What `String::from_utf8_lossy` makes of `bytes`.
pub uninterp spec fn utf8_lossy(bytes: Seq<u8>) -> Seq<char>;

/// `bytes`, base64-encoded with the standard alphabet and padding.
///
/// Trusted: calls `base64::engine::general_purpose::STANDARD.encode`; the
/// contract only names the result.
#[verifier::external_body]
pub(crate) fn base64_encode(bytes: &[u8]) -> (r: String)
    ensures
        r@ == base64_standard_encoding(bytes@),
{
    base64::engine::general_purpose::STANDARD.encode(bytes)
}

/// `text` decoded as padded standard-alphabet base64, or the engine's reason
/// for refusing it.
///
/// Trusted: calls `base64::engine::general_purpose::STANDARD.decode`; the
/// error becomes its `Display` text, which is not stated. Beside the name, the
/// one fact stated is the engine's round trip: what `STANDARD.encode` wrote
/// decodes back to the same bytes.
#[verifier::external_body]
pub(crate) fn base64_decode_padded(text: &str) -> (r: Result<Vec<u8>, String>)
    ensures
        r is Err <==> base64_standard_decoding(text@) is None,
        r matches Ok(b) ==> base64_standard_decoding(text@) == Some(b@),
        r is Err ==> forall|bytes: Seq<u8>| text@ != #[trigger] base64_standard_encoding(bytes),
        r matches Ok(b) ==> forall|bytes: Seq<u8>| text@ == #[trigger] base64_standard_encoding(bytes) ==> b@ == bytes,
{
    base64::engine::general_purpose::STANDARD.decode(text).map_err(|e| e.to_string())
}

/// `text` decoded as unpadded standard-alphabet base64.
///
/// Trusted: calls `base64::engine::general_purpose::STANDARD_NO_PAD.decode`;
/// an error becomes `None`. The contract only names the result.
#[verifier::external_body]
pub(crate) fn base64_decode_standard(text: &str) -> (r: Option<Vec<u8>>)
    ensures
        r is None <==> base64_standard_no_pad_decoding(text@) is None,
        r matches Some(b) ==> base64_standard_no_pad_decoding(text@) == Some(b@),
{
    base64::engine::general_purpose::STANDARD_NO_PAD.decode(text).ok()
}

/// `text` decoded as unpadded URL-safe base64.
///
/// Trusted: calls `base64::engine::general_purpose::URL_SAFE_NO_PAD.decode`;
/// an error becomes `None`. The contract only names the result.
#[verifier::external_body]
pub(crate) fn base64_decode_url_safe(text: &str) -> (r: Option<Vec<u8>>)
    ensures
        r is None <==> base64_url_safe_no_pad_decoding(text@) is None,
        r matches Some(b) ==> base64_url_safe_no_pad_decoding(text@) == Some(b@),
{
    base64::engine::general_purpose::URL_SAFE_NO_PAD.decode(text).ok()
}

/// The lower-case hexadecimal digit for `n` (below 16).
pub open spec fn hex_digit(n: int) -> char {
    if n < 10 {
        (('0' as int) + n) as char
    } else {
        (('a' as int) + n - 10) as char
    }
}

/// Lower-case hexadecimal, two digits per byte, high nibble first.
pub open spec fn hex_lower(bytes: Seq<u8>) -> Seq<char>
    decreases bytes.len(),
{
    if bytes.len() == 0 {
        Seq::empty()
    } else {
        hex_lower(bytes.drop_last()) + seq![
            hex_digit(bytes.last() as int / 16),
            hex_digit(bytes.last() as int % 16),
        ]
    }
}

/// `bytes` in lower-case hexadecimal.
///
/// Trusted: calls `hex::encode`, which maps each byte to two characters of
/// `0123456789abcdef`, high nibble first.
#[verifier::external_body]
pub(crate) fn hex_encode(bytes: &[u8]) -> (r: String)
    ensures
        r@ == hex_lower(bytes@),
{
    hex::encode(bytes)
}

/// `bytes` read as UTF-8, with each invalid sequence replaced by U+FFFD.
///
/// Trusted: calls std's `String::from_utf8_lossy`. The result is named; the
/// one fact stated is the documented one, that valid UTF-8 comes back as it is.
#[verifier::external_body]
pub(crate) fn from_utf8_lossy(bytes: &[u8]) -> (r: String)
    ensures
        r@ == utf8_lossy(bytes@),
        vstd::utf8::valid_utf8(bytes@) ==> r@ == vstd::utf8::decode_utf8(bytes@),
{
    String::from_utf8_lossy(bytes).into_owned()
}

} // verus!
