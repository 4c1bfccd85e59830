//! A local, per-publisher synchronization cache for the RPKI Repository
//! Delta Protocol (RRDP).
//!
//! The crate models the per-server update engine: given a publication
//! point's notification data and the local cache state, it decides between
//! an incremental delta walk and a full snapshot, fingerprints the on-disk
//! tree with a deterministic digest, and keeps the persisted server state
//! consistent with the live data.

use vstd::prelude::*;

pub mod crypto;
pub mod tree;
pub mod dir;
pub mod hexnum;
pub mod server;
pub mod session;
pub mod state;
pub mod uri;

verus! {

/// The one error the cache reports at its boundary: the data for a server
/// is unusable or an update step failed.
#[derive(Clone, Copy, Debug, PartialEq, Eq, Structural)]
pub struct Error;

} // verus!
