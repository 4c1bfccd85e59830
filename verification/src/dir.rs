//! The local directory of one RRDP server: path algebra from the cache
//! base to the state file, the data root, and per-URI object paths.
//!
//! Paths are byte strings with `/` separators, as the filesystem sees them.

use vstd::prelude::*;
use crate::uri::RsyncUri;

verus! {

/// The path separator.
pub open spec fn sep() -> Seq<u8> {
    seq![47u8]
}

/// `/state.txt`, the state file's name under the server directory.
pub open spec fn state_suffix() -> Seq<u8> {
    seq![47u8, 115u8, 116u8, 97u8, 116u8, 101u8, 46u8, 116u8, 120u8, 116u8]
}

/// `/data`, the data root's name under the server directory.
pub open spec fn data_suffix() -> Seq<u8> {
    seq![47u8, 100u8, 97u8, 116u8, 97u8]
}

/// The state file path derived from a base path.
pub open spec fn spec_state_path(base: Seq<u8>) -> Seq<u8> {
    base + state_suffix()
}

/// The data root path derived from a base path.
pub open spec fn spec_data_path(base: Seq<u8>) -> Seq<u8> {
    base + data_suffix()
}

/// The module directory for an rsync authority and module.
pub open spec fn spec_module_dir(base: Seq<u8>, authority: Seq<u8>, module: Seq<u8>) -> Seq<u8> {
    spec_data_path(base) + sep() + authority + sep() + module
}

/// The local path an rsync URI maps to.
pub open spec fn spec_uri_path(base: Seq<u8>, authority: Seq<u8>, module: Seq<u8>, path: Seq<u8>) -> Seq<u8> {
    spec_module_dir(base, authority, module) + sep() + path
}

/// The handle on one server's local directory.
pub struct ServerDir {
    /// The base path; empty for the broken sentinel.
    pub base: Vec<u8>,
}

impl ServerDir {
    /// Adopts a base path.
    pub fn new(base: Vec<u8>) -> (r: ServerDir)
        ensures
            r.base@ == base@,
    {
        ServerDir { base }
    }

    /// The sentinel for a directory that could not be allocated: all its
    /// paths are empty.
    pub fn broken() -> (r: ServerDir)
        ensures
            r.base@ == Seq::<u8>::empty(),
    {
        ServerDir { base: Vec::new() }
    }

    /// Takes the result of the unique-directory allocator: a fresh path on
    /// success gives a live handle, failure gives the broken sentinel.
    pub fn create(allocated: Option<Vec<u8>>) -> (r: Result<ServerDir, ServerDir>)
        ensures
            allocated matches Some(p) ==> (r matches Ok(d) && d.base@ == p@),
            allocated is None ==> (r matches Err(d) && d.base@ == Seq::<u8>::empty()),
    {
        match allocated {
            Some(path) => Ok(ServerDir::new(path)),
            None => Err(ServerDir::broken()),
        }
    }

    /// The base path.
    pub fn base(&self) -> (r: &Vec<u8>)
        ensures
            r@ == self.base@,
    {
        &self.base
    }

    /// The path of the state file under the base.
    pub fn state_path(&self) -> (r: Vec<u8>)
        ensures
            r@ == spec_state_path(self.base@),
    {
        let mut out = self.base.clone();
        out.push(47);
        out.push(115);
        out.push(116);
        out.push(97);
        out.push(116);
        out.push(101);
        out.push(46);
        out.push(116);
        out.push(120);
        out.push(116);
        proof {
            assert(out@ =~= spec_state_path(self.base@));
        }
        out
    }

    /// The path of the data root under the base.
    pub fn data_path(&self) -> (r: Vec<u8>)
        ensures
            r@ == spec_data_path(self.base@),
    {
        let mut out = self.base.clone();
        out.push(47);
        out.push(100);
        out.push(97);
        out.push(116);
        out.push(97);
        proof {
            assert(out@ =~= spec_data_path(self.base@));
        }
        out
    }

    /// The module directory for an rsync URI's authority and module.
    pub fn module_dir(&self, uri: &RsyncUri) -> (r: Vec<u8>)
        ensures
            r@ == spec_module_dir(self.base@, uri.authority@, uri.module@),
    {
        let mut out = self.data_path();
        out.push(47);
        let mut i: usize = 0;
        while i < uri.authority.len()
            invariant
                0 <= i <= uri.authority@.len(),
                out@ =~= spec_data_path(self.base@) + sep() + uri.authority@.take(i as int),
            decreases uri.authority@.len() - i,
        {
            out.push(uri.authority[i]);
            i += 1;
        }
        proof {
            assert(uri.authority@.take(uri.authority@.len() as int) =~= uri.authority@);
        }
        out.push(47);
        let mut j: usize = 0;
        while j < uri.module.len()
            invariant
                0 <= j <= uri.module@.len(),
                out@ =~= spec_data_path(self.base@) + sep() + uri.authority@ + sep()
                    + uri.module@.take(j as int),
            decreases uri.module@.len() - j,
        {
            out.push(uri.module[j]);
            j += 1;
        }
        proof {
            assert(uri.module@.take(uri.module@.len() as int) =~= uri.module@);
            assert(out@ =~= spec_module_dir(self.base@, uri.authority@, uri.module@));
        }
        out
    }

    /// The local path an rsync URI maps to: data root, authority, module,
    /// then the URI's own path.
    pub fn uri_path(&self, uri: &RsyncUri) -> (r: Vec<u8>)
        ensures
            r@ == spec_uri_path(self.base@, uri.authority@, uri.module@, uri.path@),
    {
        let mut out = self.module_dir(uri);
        out.push(47);
        let mut i: usize = 0;
        while i < uri.path.len()
            invariant
                0 <= i <= uri.path@.len(),
                out@ =~= spec_module_dir(self.base@, uri.authority@, uri.module@) + sep()
                    + uri.path@.take(i as int),
            decreases uri.path@.len() - i,
        {
            out.push(uri.path[i]);
            i += 1;
        }
        proof {
            assert(uri.path@.take(uri.path@.len() as int) =~= uri.path@);
            assert(out@ =~= spec_uri_path(self.base@, uri.authority@, uri.module@, uri.path@));
        }
        out
    }
}

} // verus!
