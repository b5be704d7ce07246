use vstd::prelude::*;
use crate::types::{Digest, DigestAlgo, DigestType};

verus! {

/// The lowercase hexadecimal SHA-256 of a byte string.
pub uninterp spec fn sha256_hex(data: Seq<u8>) -> Seq<char>;

/// Relies on `sha256::digest` on a byte slice, which returns
/// `hex::encode(Sha256::digest(data))`: two hex digits per byte of the 32-byte hash.
#[verifier::external_body]
fn sha256_digest(data: &[u8]) -> (r: String)
    ensures
        r@ == sha256_hex(data@),
        r@.len() == 64,
{
    sha256::digest(data)
}

/// The digest that names a blob with these bytes.
pub fn digest_of(content: &[u8]) -> (r: Digest)
    ensures
        r@.algo == DigestAlgo::SHA256,
        r@.digest_type == DigestType::Uncompressed,
        r@.value == sha256_hex(content@),
{
    Digest {
        algo: DigestAlgo::SHA256,
        digest_type: DigestType::Uncompressed,
        value: sha256_digest(content),
    }
}

} // verus!
