//! The per-server update engine.
//!
//! A `Server` couples a notification URI with a local directory and two
//! monotonic flags: `updated` once an update attempt has completed this
//! run, `broken` once the local data is known unusable. The decisions of
//! an update — which deltas to walk, when to fall back to a snapshot, when
//! to declare the server broken — are functions of the server's state and
//! of what the fetcher and the filesystem report, and they live here; the
//! fetching, locking and file shuffling around them stay with the caller.

use vstd::prelude::*;
use crate::crypto;
use crate::dir::{ServerDir, spec_uri_path, spec_state_path};
use crate::state::ServerState;
use crate::uri::RsyncUri;
use crate::Error;

verus! {

/// An rsync URI and the RRDP hash the publisher advertises for it.
pub struct UriAndHash {
    /// Where the document lives.
    pub uri: Vec<u8>,
    /// Its advertised SHA-256, raw bytes.
    pub hash: Vec<u8>,
}

/// One delta the notification file lists.
pub struct DeltaEntry {
    /// The serial this delta leads to.
    pub serial: u64,
    /// Where the delta document lives.
    pub uri: Vec<u8>,
    /// Its advertised SHA-256, raw bytes.
    pub hash: Vec<u8>,
}

/// The fields of a parsed notification file the engine consumes.
pub struct NotificationFile {
    /// The publisher's session identifier.
    pub session: u128,
    /// The publisher's current serial.
    pub serial: u64,
    /// The current snapshot document.
    pub snapshot: UriAndHash,
    /// The deltas on offer, in the file's order.
    pub deltas: Vec<DeltaEntry>,
}

/// What `calc_deltas` decides: fall back to a snapshot, do nothing beyond
/// re-verifying the tree, or walk the deltas from index `first` on.
#[derive(Debug, PartialEq, Eq, Structural)]
pub enum DeltaCommand {
    /// No delta walk can reach the notification's serial.
    NeedSnapshot,
    /// The local serial is current; only the digest is re-verified.
    NoOp,
    /// Walk `deltas[first..]`, in the notification's order.
    Apply { first: usize },
}

/// How many leading deltas fall below the serial the walk must start at.
pub open spec fn skip_count(s: Seq<DeltaEntry>, target: u64) -> int
    decreases s.len(),
{
    if s.len() == 0 {
        0
    } else if s[0].serial < target {
        1 + skip_count(s.drop_first(), target)
    } else {
        0
    }
}

/// `skip_count` finds the first entry at or above the target.
pub proof fn lemma_skip_count_at(s: Seq<DeltaEntry>, target: u64, k: int)
    requires
        0 <= k <= s.len(),
        forall|j: int| 0 <= j < k ==> s[j].serial < target,
        k < s.len() ==> s[k as int].serial >= target,
    ensures
        skip_count(s, target) == k,
    decreases k,
{
    if k > 0 {
        lemma_skip_count_at(s.drop_first(), target, k - 1);
    }
}

/// The delta-selection rule, as a function of the notification and the
/// loaded state alone:
/// a changed session, an empty delta list, a final delta that does not
/// reach the notification's serial, a serial with no successor, or a gap
/// before the first needed delta all force a snapshot; an equal serial
/// needs no walk; otherwise the walk starts at the first delta past the
/// local serial, which must be the immediate successor.
pub open spec fn spec_calc_deltas(n: NotificationFile, s: ServerState) -> DeltaCommand {
    if n.session != s.session {
        DeltaCommand::NeedSnapshot
    } else if n.serial == s.serial {
        DeltaCommand::NoOp
    } else if n.deltas@.len() == 0 {
        DeltaCommand::NeedSnapshot
    } else if n.deltas@.last().serial != n.serial {
        DeltaCommand::NeedSnapshot
    } else if s.serial == u64::MAX {
        DeltaCommand::NeedSnapshot
    } else {
        let target = (s.serial + 1) as u64;
        let k = skip_count(n.deltas@, target);
        if k == n.deltas@.len() {
            DeltaCommand::NeedSnapshot
        } else if n.deltas@[k].serial == target {
            DeltaCommand::Apply { first: k as usize }
        } else {
            DeltaCommand::NeedSnapshot
        }
    }
}

/// The local cache of one RRDP server.
pub struct Server {
    /// The notification URI of the server.
    pub notify_uri: Vec<u8>,
    /// The local location of the server's data.
    pub server_dir: ServerDir,
    /// Whether an update attempt has completed during this run.
    pub updated: bool,
    /// Whether the local data is known unusable.
    pub broken: bool,
}

/// What a successful delta walk persists, over the state's value.
pub open spec fn spec_delta_complete(
    s: crate::state::StateView,
    n: NotificationFile,
    dg: Seq<u8>,
) -> crate::state::StateView {
    crate::state::StateView { notify_uri: s.notify_uri, session: s.session, serial: n.serial, hash: dg }
}

/// What a successful snapshot update persists, over plain values.
pub open spec fn spec_snapshot_complete(
    uri: Seq<u8>,
    n: NotificationFile,
    dg: Seq<u8>,
) -> crate::state::StateView {
    crate::state::StateView { notify_uri: uri, session: n.session, serial: n.serial, hash: dg }
}

/// The update transition: once `updated` is set nothing changes; before
/// that, one attempt sets `updated` and sets `broken` exactly when the
/// attempt failed and the broken check confirmed the damage.
pub open spec fn spec_apply_update(s: Server, try_ok: bool, confirmed_broken: bool) -> Server {
    if s.updated {
        s
    } else {
        Server {
            notify_uri: s.notify_uri,
            server_dir: s.server_dir,
            updated: true,
            broken: s.broken || (!try_ok && confirmed_broken),
        }
    }
}

impl Server {
    /// Creates a server over a directory handle; a broken one starts both
    /// updated and broken, so it is never touched again.
    fn new(notify_uri: Vec<u8>, server_dir: ServerDir, broken: bool) -> (r: Server)
        ensures
            r.notify_uri@ == notify_uri@,
            r.server_dir.base@ == server_dir.base@,
            r.updated == broken,
            r.broken == broken,
    {
        Server { notify_uri, server_dir, updated: broken, broken }
    }

    /// Adopts a pre-existing server directory: not yet updated, not broken.
    pub fn existing(notify_uri: Vec<u8>, server_dir: Vec<u8>) -> (r: Server)
        ensures
            r.notify_uri@ == notify_uri@,
            r.server_dir.base@ == server_dir@,
            !r.updated,
            !r.broken,
    {
        Server::new(notify_uri, ServerDir::new(server_dir), false)
    }

    /// Creates a server over a freshly allocated directory. `allocated` is
    /// what the unique-directory allocator returned; failure leaves the
    /// server broken and already updated.
    pub fn create(notify_uri: Vec<u8>, allocated: Option<Vec<u8>>) -> (r: Server)
        ensures
            r.notify_uri@ == notify_uri@,
            allocated matches Some(p) ==> (r.server_dir.base@ == p@ && !r.updated && !r.broken),
            allocated is None ==> (r.server_dir.base@ == Seq::<u8>::empty() && r.updated
                && r.broken),
    {
        match ServerDir::create(allocated) {
            Ok(dir) => Server::new(notify_uri, dir, false),
            Err(dir) => Server::new(notify_uri, dir, true),
        }
    }

    /// The base path of the server directory.
    pub fn server_dir(&self) -> (r: &Vec<u8>)
        ensures
            r@ == self.server_dir.base@,
    {
        &self.server_dir.base
    }

    /// Gives up the server for its directory's base path.
    pub fn into_server_dir(self) -> (r: Vec<u8>)
        ensures
            r@ == self.server_dir.base@,
    {
        self.server_dir.base
    }

    /// The server's notification URI.
    pub fn notify_uri(&self) -> (r: &Vec<u8>)
        ensures
            r@ == self.notify_uri@,
    {
        &self.notify_uri
    }

    /// Whether an update must still run: the entry check of the update protocol.
    /// Once it answers `false` it answers `false` forever.
    pub fn update_wanted(&self) -> (r: bool)
        ensures
            r == !self.updated,
    {
        !self.updated
    }

    /// Completes an update attempt: records the outcome in the flags and
    /// says whether the caller must remove the server directory. Does
    /// nothing when the server was already updated.
    pub fn finish_update(&mut self, try_ok: bool, confirmed_broken: bool) -> (remove_dir: bool)
        ensures
            *final(self) == spec_apply_update(*old(self), try_ok, confirmed_broken),
            remove_dir == (!old(self).updated && !try_ok && confirmed_broken),
    {
        if self.updated {
            return false;
        }
        let remove_dir = !try_ok && confirmed_broken;
        if remove_dir {
            self.broken = true;
        }
        self.updated = true;
        remove_dir
    }

    /// The delta-selection rule. Pure: the command is a function of the
    /// two arguments and of nothing else.
    pub fn calc_deltas(notify: &NotificationFile, state: &ServerState) -> (r: DeltaCommand)
        ensures
            r == spec_calc_deltas(*notify, *state),
    {
        if notify.session != state.session {
            return DeltaCommand::NeedSnapshot;
        }
        if notify.serial == state.serial {
            return DeltaCommand::NoOp;
        }
        if notify.deltas.len() == 0 {
            return DeltaCommand::NeedSnapshot;
        }
        if notify.deltas[notify.deltas.len() - 1].serial != notify.serial {
            return DeltaCommand::NeedSnapshot;
        }
        let target = match state.serial.checked_add(1) {
            Some(t) => t,
            None => {
                return DeltaCommand::NeedSnapshot;
            }
        };
        let mut k: usize = 0;
        loop
            invariant
                0 <= k <= notify.deltas@.len(),
                forall|j: int| 0 <= j < k ==> notify.deltas@[j].serial < target,
            ensures
                0 <= k <= notify.deltas@.len(),
                forall|j: int| 0 <= j < k ==> notify.deltas@[j].serial < target,
                k < notify.deltas@.len() ==> notify.deltas@[k as int].serial >= target,
            decreases notify.deltas@.len() - k,
        {
            if k >= notify.deltas.len() {
                break;
            }
            if notify.deltas[k].serial >= target {
                break;
            }
            k += 1;
        }
        proof {
            lemma_skip_count_at(notify.deltas@, target, k as int);
        }
        if k == notify.deltas.len() {
            DeltaCommand::NeedSnapshot
        } else if notify.deltas[k].serial == target {
            DeltaCommand::Apply { first: k }
        } else {
            DeltaCommand::NeedSnapshot
        }
    }

    /// The decision core of a delta update: no loadable state aborts the
    /// delta path; otherwise the command is the delta-selection rule's.
    pub fn delta_plan(state: Option<&ServerState>, notify: &NotificationFile) -> (r: Option<
        DeltaCommand,
    >)
        ensures
            state matches Some(st) ==> r == Some(spec_calc_deltas(*notify, *st)),
            state is None ==> r is None,
    {
        match state {
            Some(st) => Some(Server::calc_deltas(notify, st)),
            None => None,
        }
    }

    /// The state a successful delta walk persists: the session stays, the
    /// serial becomes the notification's, the hash the freshly recomputed
    /// digest of the live tree.
    pub fn delta_complete(state: &ServerState, notify: &NotificationFile, new_digest: Vec<u8>) -> (r:
        ServerState)
        ensures
            r@ == spec_delta_complete(state@, *notify, new_digest@),
    {
        ServerState {
            notify_uri: clone_bytes(&state.notify_uri),
            session: state.session,
            serial: notify.serial,
            hash: new_digest,
        }
    }

    /// The state a successful snapshot update persists: the notification's
    /// session and serial, and the digest of the freshly built tree.
    pub fn snapshot_complete(notify_uri: &Vec<u8>, notify: &NotificationFile, digest: Vec<u8>) -> (r:
        ServerState)
        ensures
            r@ == spec_snapshot_complete(notify_uri@, *notify, digest@),
    {
        ServerState {
            notify_uri: clone_bytes(notify_uri),
            session: notify.session,
            serial: notify.serial,
            hash: digest,
        }
    }

    /// The broken check run after a failed update: the server is broken
    /// when its state cannot be read, its tree cannot be digested, or the
    /// digest does not match the stored hash (compared in constant time).
    /// Sets the flag accordingly and reports it.
    pub fn check_broken(&mut self, state: Option<&ServerState>, digest: Option<&Vec<u8>>) -> (r:
        bool)
        ensures
            r == !(state matches Some(st) && digest matches Some(dg) && st.hash@ == dg@),
            final(self).broken == (old(self).broken || r),
            final(self).updated == old(self).updated,
            final(self).notify_uri@ == old(self).notify_uri@,
            final(self).server_dir.base@ == old(self).server_dir.base@,
    {
        let fishy = match (state, digest) {
            (Some(st), Some(dg)) => !crypto::verify_eq(st.hash.as_slice(), dg.as_slice()),
            _ => true,
        };
        if fishy {
            self.broken = true;
        }
        fishy
    }

    /// The read path: a broken server is unusable; otherwise the caller
    /// reads the returned path, treating a missing file as no file.
    pub fn load_file_path(&self, uri: &RsyncUri) -> (r: Result<Vec<u8>, Error>)
        ensures
            self.broken ==> r is Err,
            !self.broken ==> (r matches Ok(p) && p@ == spec_uri_path(
                self.server_dir.base@,
                uri.authority@,
                uri.module@,
                uri.path@,
            )),
    {
        if self.broken {
            return Err(Error);
        }
        Ok(self.server_dir.uri_path(uri))
    }

    /// Whether the server's directory is unused and must be removed: it
    /// was never updated, or it ended up broken.
    pub fn remove_unused(&self) -> (r: bool)
        ensures
            r == !(self.updated && !self.broken),
    {
        !(self.updated && !self.broken)
    }

    /// The path of this server's state file.
    pub fn state_path(&self) -> (r: Vec<u8>)
        ensures
            r@ == spec_state_path(self.server_dir.base@),
    {
        self.server_dir.state_path()
    }
}

/// A copy of a byte string.
fn clone_bytes(b: &Vec<u8>) -> (r: Vec<u8>)
    ensures
        r@ == b@,
{
    let mut out: Vec<u8> = Vec::new();
    let mut i: usize = 0;
    while i < b.len()
        invariant
            0 <= i <= b@.len(),
            out@ =~= b@.take(i as int),
        decreases b@.len() - i,
    {
        out.push(b[i]);
        i += 1;
    }
    proof {
        assert(b@.take(b@.len() as int) =~= b@);
    }
    out
}

/// A session change forces the snapshot path.
pub proof fn lemma_session_change_snapshot(n: NotificationFile, s: ServerState)
    requires
        n.session != s.session,
    ensures
        spec_calc_deltas(n, s) == DeltaCommand::NeedSnapshot,
{
}

/// An equal serial asks for no fetch beyond the notification: the command
/// is `NoOp`, under which the engine only re-verifies the tree digest.
pub proof fn lemma_serial_equal_noop(n: NotificationFile, s: ServerState)
    requires
        n.session == s.session,
        n.serial == s.serial,
    ensures
        spec_calc_deltas(n, s) == DeltaCommand::NoOp,
{
}

/// A gap before the first needed delta forces the snapshot path: when no
/// listed delta has the serial right after the local one, no walk starts.
pub proof fn lemma_delta_gap_snapshot(n: NotificationFile, s: ServerState)
    requires
        s.serial < u64::MAX,
        forall|j: int| 0 <= j < n.deltas@.len() ==> (#[trigger] n.deltas@[j].serial) != s.serial + 1,
    ensures
        spec_calc_deltas(n, s) is NeedSnapshot || spec_calc_deltas(n, s) is NoOp,
        n.serial != s.serial ==> spec_calc_deltas(n, s) == DeltaCommand::NeedSnapshot,
{
    let target = (s.serial + 1) as u64;
    let k = skip_count(n.deltas@, target);
    lemma_skip_count_bounds(n.deltas@, target);
}

/// `skip_count` stays within the list and stops below an entry at or
/// above the target.
pub proof fn lemma_skip_count_bounds(s: Seq<DeltaEntry>, target: u64)
    ensures
        0 <= skip_count(s, target) <= s.len(),
        skip_count(s, target) < s.len() ==> s[skip_count(s, target)].serial >= target,
    decreases s.len(),
{
    if s.len() > 0 && s[0].serial < target {
        lemma_skip_count_bounds(s.drop_first(), target);
    }
}

/// A final delta that does not carry the notification's serial forces the
/// snapshot path, as does an empty delta list.
pub proof fn lemma_missing_final_snapshot(n: NotificationFile, s: ServerState)
    requires
        n.session == s.session,
        n.serial != s.serial,
        n.deltas@.len() == 0 || n.deltas@.last().serial != n.serial,
    ensures
        spec_calc_deltas(n, s) == DeltaCommand::NeedSnapshot,
{
}

/// A local serial with no successor forces the snapshot path.
pub proof fn lemma_serial_max_snapshot(n: NotificationFile, s: ServerState)
    requires
        n.session == s.session,
        n.serial != s.serial,
        s.serial == u64::MAX,
    ensures
        spec_calc_deltas(n, s) == DeltaCommand::NeedSnapshot,
{
}

/// What an update persists is what a later run reads back: a well-formed
/// completed state survives the trip through its file, so the state on
/// disk after a successful update describes exactly the promoted tree.
/// The hypotheses are the state's well-formedness and what the session
/// renderer promises of every value it renders.
pub proof fn lemma_update_state_persists(
    v: crate::state::StateView,
    uri: Seq<u8>,
    n: NotificationFile,
    dg: Seq<u8>,
)
    ensures
        crate::state::state_view_wf(spec_snapshot_complete(uri, n, dg))
            && crate::state::session_render_ok(n.session) ==> crate::state::spec_parse_state(
            crate::state::spec_state_bytes(spec_snapshot_complete(uri, n, dg)),
        ) == Some(spec_snapshot_complete(uri, n, dg)),
        crate::state::state_view_wf(spec_delta_complete(v, n, dg))
            && crate::state::session_render_ok(v.session) ==> crate::state::spec_parse_state(
            crate::state::spec_state_bytes(spec_delta_complete(v, n, dg)),
        ) == Some(spec_delta_complete(v, n, dg)),
{
    crate::state::lemma_state_round_trip(spec_snapshot_complete(uri, n, dg));
    crate::state::lemma_state_round_trip(spec_delta_complete(v, n, dg));
}

/// Updating twice is updating once: after one completed attempt the entry
/// check stays shut and any further attempt leaves the server — flags, URI and
/// directory — exactly as it was. With every flag transition under the
/// caller's one update lock, at most one attempt per run touches the
/// fetcher or the directory.
pub proof fn lemma_update_idempotent(s: Server, a1: bool, b1: bool, a2: bool, b2: bool)
    ensures
        spec_apply_update(spec_apply_update(s, a1, b1), a2, b2) == spec_apply_update(s, a1, b1),
        spec_apply_update(s, a1, b1).updated,
{
}

/// Of concurrent callers, only the first past the entry check runs an attempt:
/// a server that went through one transition wants no further update, so
/// every later caller returns without fetching.
pub proof fn lemma_single_update(s: Server, a: bool, b: bool)
    ensures
        spec_apply_update(s, a, b).updated,
        s.updated ==> spec_apply_update(s, a, b) == s,
{
}

/// A whole run of update transitions, one per caller, in the order the
/// callers took the lock.
pub open spec fn spec_apply_updates(s: Server, outcomes: Seq<(bool, bool)>) -> Server
    decreases outcomes.len(),
{
    if outcomes.len() == 0 {
        s
    } else {
        spec_apply_updates(
            spec_apply_update(s, outcomes[0].0, outcomes[0].1),
            outcomes.drop_first(),
        )
    }
}

/// However many callers line up, the run is decided by the first of them:
/// all transitions after the first leave the server untouched.
pub proof fn lemma_updates_collapse(s: Server, outcomes: Seq<(bool, bool)>)
    ensures
        outcomes.len() > 0 ==> spec_apply_updates(s, outcomes) == spec_apply_update(
            s,
            outcomes[0].0,
            outcomes[0].1,
        ),
    decreases outcomes.len(),
{
    if outcomes.len() > 0 {
        let first = spec_apply_update(s, outcomes[0].0, outcomes[0].1);
        lemma_updates_stay(first, outcomes.drop_first());
    }
}

/// An updated server is a fixed point of every further transition.
pub proof fn lemma_updates_stay(s: Server, outcomes: Seq<(bool, bool)>)
    requires
        s.updated,
    ensures
        spec_apply_updates(s, outcomes) == s,
    decreases outcomes.len(),
{
    if outcomes.len() > 0 {
        lemma_updates_stay(spec_apply_update(s, outcomes[0].0, outcomes[0].1), outcomes.drop_first());
    }
}

/// After a successful update, the persisted hash is the digest of the
/// live tree, on either path: both completions store the digest that was
/// just recomputed from that tree, so a digest check of the unchanged
/// tree against the persisted state passes.
pub proof fn lemma_post_update_consistency(
    v: crate::state::StateView,
    uri: Seq<u8>,
    n: NotificationFile,
    t: crate::tree::DirTree,
)
    requires
        crate::tree::tree_stream(t).len() <= crypto::SHA256_MAX_INPUT,
    ensures
        spec_delta_complete(v, n, crate::tree::spec_tree_digest(t)).hash
            == crate::tree::spec_tree_digest(t),
        spec_snapshot_complete(uri, n, crate::tree::spec_tree_digest(t)).hash
            == crate::tree::spec_tree_digest(t),
        crate::tree::spec_check_digest(
            t,
            spec_delta_complete(v, n, crate::tree::spec_tree_digest(t)).hash,
        ),
        crate::tree::spec_check_digest(
            t,
            spec_snapshot_complete(uri, n, crate::tree::spec_tree_digest(t)).hash,
        ),
{
}

} // verus!

