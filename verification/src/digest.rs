//! Content addresses: SHA-256 digests written as hexadecimal text.

use vstd::prelude::*;
use sha2::{Digest, Sha256};

verus! {

/// The SHA-256 digest of `bytes`, written as lower-case hexadecimal digits.
pub uninterp spec fn sha256_hex(bytes: Seq<u8>) -> Seq<char>;

/// Calls `Digest::digest` of `sha2::Sha256` and writes the digest in lower-case
/// hexadecimal. The result depends on the bytes alone and is known to contracts as
/// [`sha256_hex`].
#[verifier::external_body]
pub(crate) fn sha256_hex_of(bytes: &[u8]) -> (r: String)
    ensures
        r@ == sha256_hex(bytes@),
{
    format!("{:x}", Sha256::digest(bytes))
}

/// The blob id of a content.
pub fn content_address(bytes: &[u8]) -> (r: String)
    ensures
        r@ == sha256_hex(bytes@),
{
    sha256_hex_of(bytes)
}

} // verus!
