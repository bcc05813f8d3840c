//! Content digests for sealed artifacts.

use sha2::Digest;
use vstd::prelude::*;

verus! {

/// The lowercase hexadecimal rendering of the SHA-256 digest of `bytes`, as
/// the `sha2` crate computes it.
pub uninterp spec fn sha256_hex_of(bytes: Seq<u8>) -> Seq<char>;

/// `sha2::Sha256::digest` over `bytes`, rendered with `{:x}`. Trusted: the
/// result is the named digest of exactly these bytes, so equal byte strings
/// seal equally; nothing is claimed about collisions or the length.
#[verifier::external_body]
pub(crate) fn sha256_hex(bytes: &[u8]) -> (r: String)
    ensures
        r@ == sha256_hex_of(bytes@),
{
    format!("{:x}", sha2::Sha256::digest(bytes))
}

} // verus!
