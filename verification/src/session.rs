//! RRDP session identifiers: UUIDs carried as their 128-bit value, parsed
//! and rendered by the `uuid` crate.

use vstd::prelude::*;

verus! {

/// The 128-bit value the `uuid` parser accepts a byte string as, if any.
/// A function of the input alone.
pub uninterp spec fn uuid_of(s: Seq<u8>) -> Option<u128>;

/// The canonical hyphenated lowercase rendering of a 128-bit UUID value.
/// A function of the value alone.
pub uninterp spec fn uuid_bytes_of(u: u128) -> Seq<u8>;

/// A byte that can appear in a hyphenated lowercase UUID rendering.
pub open spec fn is_uuid_byte(b: u8) -> bool {
    (48 <= b <= 57) || (97 <= b <= 102) || b == 45
}

/// Relies on `uuid::Uuid::try_parse_ascii`: parses a UUID from ASCII bytes,
/// accepting the usual hexadecimal encodings with optional hyphens.
#[verifier::external_body]
pub(crate) fn parse_session(s: &[u8]) -> (r: Option<u128>)
    ensures
        r == uuid_of(s@),
{
    match uuid::Uuid::try_parse_ascii(s) {
        Ok(u) => Some(u.as_u128()),
        Err(_) => None,
    }
}

/// Relies on `uuid::Uuid::from_u128` and the `Display` rendering of `Uuid`:
/// the result is the 36-byte hyphenated lowercase form, which the parser
/// maps back to the same value.
#[verifier::external_body]
pub(crate) fn format_session(u: u128) -> (r: Vec<u8>)
    ensures
        r@ == uuid_bytes_of(u),
        uuid_of(r@) == Some(u),
        r@.len() == 36,
        forall|i: int| 0 <= i < r@.len() ==> is_uuid_byte(#[trigger] r@[i]),
{
    uuid::Uuid::from_u128(u).to_string().into_bytes()
}

} // verus!
