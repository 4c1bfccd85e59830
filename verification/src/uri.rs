//! URIs as the cache sees them: HTTPS notification URIs, validated by the
//! `rpki` crate, and rsync object URIs broken into authority, module and
//! path components.

use vstd::prelude::*;

verus! {

/// Whether the `rpki` crate accepts a byte string as an HTTPS URI.
/// A function of the input alone.
pub uninterp spec fn https_ok(s: Seq<u8>) -> bool;

/// A byte allowed in an `rpki` URI: visible ASCII with a few exclusions,
/// and in particular no whitespace of any kind.
pub open spec fn is_uri_byte(b: u8) -> bool {
    b == 33 || (36 <= b <= 59) || b == 61 || (65 <= b <= 90) || b == 95 || (97 <= b <= 122)
        || b == 126
}

/// Relies on `rpki::uri::Https::from_slice`: accepts exactly the byte
/// strings made of URI-allowed ASCII bytes that start with an `https`
/// scheme, so an accepted URI is at least `https://` long and holds no
/// whitespace.
#[verifier::external_body]
pub(crate) fn is_https_uri(s: &[u8]) -> (r: bool)
    ensures
        r == https_ok(s@),
        r ==> s@.len() >= 8,
        r ==> forall|i: int| 0 <= i < s@.len() ==> is_uri_byte(#[trigger] s@[i]),
{
    rpki::uri::Https::from_slice(s).is_ok()
}

/// An rsync URI `rsync://authority/module/path`, reduced to the three
/// components the cache maps onto its directory layout.
pub struct RsyncUri {
    /// The authority (host) part.
    pub authority: Vec<u8>,
    /// The module name directly under the authority.
    pub module: Vec<u8>,
    /// The path below the module; may contain `/` separators.
    pub path: Vec<u8>,
}

} // verus!
