//! The update engine around one server: gating, broken detection, the
//! read path, and the end-to-end update scenarios at the model level.

use rrdp_cache::dir::ServerDir;
use rrdp_cache::server::{DeltaCommand, DeltaEntry, NotificationFile, Server, UriAndHash};
use rrdp_cache::state::ServerState;
use rrdp_cache::tree::{insert_entry, DirEntry, DirTree};
use rrdp_cache::uri::RsyncUri;

fn session_a() -> u128 {
    0x67e5_5044_10b1_426f_9247_bb68_0e5f_e0c8
}

fn session_b() -> u128 {
    0x550e_8400_e29b_41d4_a716_4466_5544_0000
}

fn notification(session: u128, serial: u64, deltas: Vec<DeltaEntry>) -> NotificationFile {
    NotificationFile {
        session,
        serial,
        snapshot: UriAndHash { uri: b"https://r.example/snap.xml".to_vec(), hash: vec![0; 32] },
        deltas,
    }
}

fn delta(serial: u64) -> DeltaEntry {
    DeltaEntry { serial, uri: b"https://r.example/d.xml".to_vec(), hash: vec![0; 32] }
}

fn file(name: &[u8], size: u64) -> DirEntry {
    DirEntry::File { name: name.to_vec(), size }
}

fn tree_of(entries: Vec<DirEntry>) -> DirTree {
    let mut t = DirTree { entries: Vec::new() };
    for e in entries {
        insert_entry(&mut t, e);
    }
    t
}

fn rsync(path: &[u8]) -> RsyncUri {
    RsyncUri { authority: b"r".to_vec(), module: b"m".to_vec(), path: path.to_vec() }
}

#[test]
fn constructors_set_the_flags() {
    let s = Server::existing(b"https://r.example/n.xml".to_vec(), b"/cache/s1".to_vec());
    assert!(s.update_wanted());
    assert!(s.remove_unused());
    let ok = Server::create(b"https://r.example/n.xml".to_vec(), Some(b"/cache/s2".to_vec()));
    assert!(ok.update_wanted());
    assert_eq!(ok.server_dir(), &b"/cache/s2".to_vec());
    let broken = Server::create(b"https://r.example/n.xml".to_vec(), None);
    assert!(!broken.update_wanted());
    assert!(broken.remove_unused());
    assert!(broken.load_file_path(&rsync(b"a")).is_err());
}

#[test]
fn update_runs_once() {
    let mut s = Server::existing(b"https://r.example/n.xml".to_vec(), b"/cache/s1".to_vec());
    assert!(s.update_wanted());
    let removed = s.finish_update(true, false);
    assert!(!removed);
    // A second caller sees the update recorded and changes nothing.
    assert!(!s.update_wanted());
    let removed_again = s.finish_update(false, true);
    assert!(!removed_again);
    assert!(!s.remove_unused());
}

#[test]
fn failed_update_with_confirmed_damage_removes_and_breaks() {
    let mut s = Server::existing(b"https://r.example/n.xml".to_vec(), b"/cache/s1".to_vec());
    let removed = s.finish_update(false, true);
    assert!(removed);
    assert!(s.load_file_path(&rsync(b"a")).is_err());
    assert!(s.remove_unused());
}

#[test]
fn failed_update_with_intact_data_stays_usable() {
    let mut s = Server::existing(b"https://r.example/n.xml".to_vec(), b"/cache/s1".to_vec());
    let removed = s.finish_update(false, false);
    assert!(!removed);
    assert!(s.load_file_path(&rsync(b"a")).is_ok());
}

#[test]
fn check_broken_cases() {
    let d = ServerDir::new(b"/cache/s1".to_vec());
    let t = tree_of(vec![file(b"a", 1)]);
    let h = d.digest(&t).unwrap();
    let st = ServerState {
        notify_uri: b"https://r.example/n.xml".to_vec(),
        session: session_a(),
        serial: 3,
        hash: h.clone(),
    };

    let mut s = Server::existing(b"https://r.example/n.xml".to_vec(), b"/cache/s1".to_vec());
    assert!(!s.check_broken(Some(&st), Some(&h)));
    assert!(s.load_file_path(&rsync(b"a")).is_ok());

    assert!(s.check_broken(None, Some(&h)));
    assert!(s.load_file_path(&rsync(b"a")).is_err());

    let mut s2 = Server::existing(b"https://r.example/n.xml".to_vec(), b"/cache/s2".to_vec());
    assert!(s2.check_broken(Some(&st), None));

    let mut s3 = Server::existing(b"https://r.example/n.xml".to_vec(), b"/cache/s3".to_vec());
    let mut wrong = h.clone();
    wrong[31] ^= 0xff;
    assert!(s3.check_broken(Some(&st), Some(&wrong)));
}

#[test]
fn paths_follow_the_layout() {
    let s = Server::existing(b"https://r.example/n.xml".to_vec(), b"/cache/s1".to_vec());
    assert_eq!(s.state_path(), b"/cache/s1/state.txt".to_vec());
    let p = s.load_file_path(&rsync(b"x/y.cer")).unwrap();
    assert_eq!(p, b"/cache/s1/data/r/m/x/y.cer".to_vec());
    let d = ServerDir::new(b"/cache/s1".to_vec());
    assert_eq!(d.data_path(), b"/cache/s1/data".to_vec());
    assert_eq!(d.base(), &b"/cache/s1".to_vec());
}

/// Fresh server, snapshot only: an empty cache is filled from the
/// snapshot and the persisted state describes the new tree exactly.
#[test]
fn scenario_fresh_snapshot() {
    let notify_uri = b"https://r.example/n.xml".to_vec();
    let mut s = Server::create(notify_uri.clone(), Some(b"/cache/s1".to_vec()));
    assert!(s.update_wanted());
    let n = notification(session_a(), 3, vec![]);

    // No state file yet: the delta path aborts at once.
    assert!(Server::delta_plan(None, &n).is_none());

    // Snapshot publishes a="x" (1 byte) and b="yy" (2 bytes).
    let t = tree_of(vec![file(b"a", 1), file(b"b", 2)]);
    let d = ServerDir::new(b"/cache/s1".to_vec());
    let h = d.digest(&t).unwrap();
    let st = Server::snapshot_complete(&notify_uri, &n, h.clone());
    assert_eq!(st.session, session_a());
    assert_eq!(st.serial, 3);
    assert_eq!(st.hash, h);

    // The persisted state round-trips and matches the tree.
    let back = ServerState::load(&st.save()).unwrap();
    assert_eq!(back.hash, d.digest(&t).unwrap());
    assert!(d.check_digest(&t, &back.hash).is_ok());

    s.finish_update(true, false);
    let p = s.load_file_path(&rsync(b"a")).unwrap();
    assert_eq!(p, b"/cache/s1/data/r/m/a".to_vec());
}

/// Clean delta update: the walk applies, the session stays, the serial
/// and hash move to the notification's serial and the new tree's digest.
#[test]
fn scenario_clean_delta() {
    let d = ServerDir::new(b"/cache/s1".to_vec());
    let t0 = tree_of(vec![file(b"a", 1), file(b"b", 2)]);
    let h0 = d.digest(&t0).unwrap();
    let st = ServerState {
        notify_uri: b"https://r.example/n.xml".to_vec(),
        session: session_a(),
        serial: 3,
        hash: h0.clone(),
    };
    let n = notification(session_a(), 5, vec![delta(4), delta(5)]);

    assert_eq!(Server::delta_plan(Some(&st), &n), Some(DeltaCommand::Apply { first: 0 }));
    // The live tree still matches the stored hash before and after staging.
    assert!(d.check_digest(&t0, &st.hash).is_ok());

    // The deltas publish c="zzz" and withdraw a.
    let t1 = tree_of(vec![file(b"b", 2), file(b"c", 3)]);
    let h1 = d.digest(&t1).unwrap();
    let st1 = Server::delta_complete(&st, &n, h1.clone());
    assert_eq!(st1.session, session_a());
    assert_eq!(st1.serial, 5);
    assert_eq!(st1.hash, h1);
    assert!(d.check_digest(&t1, &st1.hash).is_ok());
    let back = ServerState::load(&st1.save()).unwrap();
    assert_eq!(back.serial, 5);
}

/// A delta gap forces the snapshot path; the snapshot state carries the
/// notification's serial and the new tree's digest.
#[test]
fn scenario_gap_snapshot_fallback() {
    let st = ServerState {
        notify_uri: b"https://r.example/n.xml".to_vec(),
        session: session_a(),
        serial: 3,
        hash: vec![0; 32],
    };
    let n = notification(session_a(), 7, vec![delta(6), delta(7)]);
    assert_eq!(Server::delta_plan(Some(&st), &n), Some(DeltaCommand::NeedSnapshot));

    let d = ServerDir::new(b"/tmp/t1".to_vec());
    let t = tree_of(vec![file(b"a", 4)]);
    let h = d.digest(&t).unwrap();
    let st1 = Server::snapshot_complete(&st.notify_uri, &n, h);
    assert_eq!(st1.session, session_a());
    assert_eq!(st1.serial, 7);
}

/// A session change forces the snapshot path; the new state carries the
/// new session.
#[test]
fn scenario_session_change() {
    let st = ServerState {
        notify_uri: b"https://r.example/n.xml".to_vec(),
        session: session_a(),
        serial: 3,
        hash: vec![0; 32],
    };
    let n = notification(session_b(), 9, vec![delta(9)]);
    assert_eq!(Server::delta_plan(Some(&st), &n), Some(DeltaCommand::NeedSnapshot));
    let st1 = Server::snapshot_complete(&st.notify_uri, &n, vec![7; 32]);
    assert_eq!(st1.session, session_b());
    assert_eq!(st1.serial, 9);
}

/// A corrupted local tree: the serials match, so only the digest check
/// stands between the delta path and the data — and it fails, forcing the
/// snapshot; if the snapshot fails too, the broken check condemns the
/// server and the read path reports it unusable.
#[test]
fn scenario_corrupted_tree() {
    let d = ServerDir::new(b"/cache/s1".to_vec());
    let t0 = tree_of(vec![file(b"a", 1), file(b"b", 2)]);
    let h0 = d.digest(&t0).unwrap();
    let st = ServerState {
        notify_uri: b"https://r.example/n.xml".to_vec(),
        session: session_a(),
        serial: 3,
        hash: h0.clone(),
    };
    // Someone truncated "b": the live tree digests differently.
    let live = tree_of(vec![file(b"a", 1), file(b"b", 0)]);
    let n = notification(session_a(), 3, vec![]);
    assert_eq!(Server::delta_plan(Some(&st), &n), Some(DeltaCommand::NoOp));
    assert!(d.check_digest(&live, &st.hash).is_err());

    // The snapshot also failed: broken detection confirms the damage.
    let live_digest = d.digest(&live).unwrap();
    let mut s = Server::existing(st.notify_uri.clone(), b"/cache/s1".to_vec());
    assert!(s.check_broken(Some(&st), Some(&live_digest)));
    let removed = s.finish_update(false, true);
    assert!(removed);
    assert!(s.load_file_path(&rsync(b"a")).is_err());
    assert!(s.remove_unused());
}
