//! Digest and comparison primitives supplied by the `ring` crate.

use vstd::prelude::*;

verus! {

/// The SHA-256 digest of a byte sequence. The digest is a function of the
/// input alone; nothing further is assumed about its value.
pub uninterp spec fn sha256_of(data: Seq<u8>) -> Seq<u8>;

/// The longest input SHA-256 is defined for: one byte under 2^61.
pub const SHA256_MAX_INPUT: u64 = 0x1fff_ffff_ffff_ffff;

/// Relies on `ring::digest::digest` with `ring::digest::SHA256`: returns the
/// 32-byte SHA-256 digest of `data`. Inputs beyond the algorithm's limit are
/// excluded, as `ring` does not return on them.
#[verifier::external_body]
pub(crate) fn sha256(data: &[u8]) -> (r: Vec<u8>)
    requires
        data@.len() <= SHA256_MAX_INPUT,
    ensures
        r@ == sha256_of(data@),
        r@.len() == 32,
{
    ring::digest::digest(&ring::digest::SHA256, data).as_ref().to_vec()
}

/// Relies on `ring::constant_time::verify_slices_are_equal`: returns `Ok`
/// exactly when the two slices have the same length and contents, comparing
/// in constant time.
#[verifier::external_body]
pub(crate) fn verify_eq(a: &[u8], b: &[u8]) -> (r: bool)
    ensures
        r <==> a@ == b@,
{
    ring::constant_time::verify_slices_are_equal(a, b).is_ok()
}

} // verus!
