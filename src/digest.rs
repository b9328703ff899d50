use vstd::prelude::*;

verus! {

/// The lowercase hexadecimal SHA-256 digest of a byte sequence.
pub uninterp spec fn sha256_hex(bytes: Seq<u8>) -> Seq<char>;

/// Relies on `sha2::Sha256` (through `Digest::digest`) for the 32-byte hash and on
/// generic-array's `LowerHex`, which writes two lowercase hex digits per byte.
#[verifier::external_body]
pub fn sha256_digest(input: &[u8]) -> (r: String)
    ensures
        r@ == sha256_hex(input@),
        r@.len() == 64,
{
    format!("{:x}", <sha2::Sha256 as sha2::Digest>::digest(input))
}

} // verus!
