//! MD5 digests, through the `md-5` crate.

use vstd::prelude::*;
use md5::Digest;

verus! {

/// The MD5 digest of `bytes`.
pub uninterp spec fn md5_digest(bytes: Seq<u8>) -> Seq<u8>;

/// The MD5 digest of `bytes`: sixteen bytes.
///
/// Trusted: calls `<md5::Md5 as Digest>::digest`, whose output type is a
/// 16-byte array.
#[verifier::external_body]
pub(crate) fn md5(bytes: &[u8]) -> (r: Vec<u8>)
    ensures
        r@ == md5_digest(bytes@),
        r.len() == 16,
{
    md5::Md5::digest(bytes).to_vec()
}

/// The MD5 digest of `bytes` in lower-case hexadecimal, as the analyst reads it.
pub fn md5_hex(bytes: &[u8]) -> (r: String)
    ensures
        r@ == crate::encoding::hex_lower(md5_digest(bytes@)),
{
    let d = md5(bytes);
    crate::encoding::hex_encode(d.as_slice())
}

} // verus!
