//! The delta-selection rule: every boundary that forces a snapshot, the
//! no-op case, and the clean walks.

use rrdp_cache::server::{DeltaCommand, DeltaEntry, NotificationFile, Server, UriAndHash};
use rrdp_cache::state::ServerState;

fn delta(serial: u64) -> DeltaEntry {
    DeltaEntry { serial, uri: b"https://r.example/d.xml".to_vec(), hash: vec![0; 32] }
}

fn notification(session: u128, serial: u64, deltas: Vec<DeltaEntry>) -> NotificationFile {
    NotificationFile {
        session,
        serial,
        snapshot: UriAndHash { uri: b"https://r.example/snap.xml".to_vec(), hash: vec![0; 32] },
        deltas,
    }
}

fn state(session: u128, serial: u64) -> ServerState {
    ServerState {
        notify_uri: b"https://r.example/n.xml".to_vec(),
        session,
        serial,
        hash: vec![0; 32],
    }
}

#[test]
fn session_change_needs_snapshot() {
    let n = notification(2, 5, vec![delta(4), delta(5)]);
    let s = state(1, 3);
    assert_eq!(Server::calc_deltas(&n, &s), DeltaCommand::NeedSnapshot);
}

#[test]
fn equal_serial_is_noop() {
    let n = notification(1, 3, vec![delta(2), delta(3)]);
    let s = state(1, 3);
    assert_eq!(Server::calc_deltas(&n, &s), DeltaCommand::NoOp);
}

#[test]
fn clean_walk_from_first_delta() {
    let n = notification(1, 5, vec![delta(4), delta(5)]);
    let s = state(1, 3);
    assert_eq!(Server::calc_deltas(&n, &s), DeltaCommand::Apply { first: 0 });
}

#[test]
fn clean_walk_discards_stale_deltas() {
    let n = notification(1, 5, vec![delta(2), delta(3), delta(4), delta(5)]);
    let s = state(1, 3);
    assert_eq!(Server::calc_deltas(&n, &s), DeltaCommand::Apply { first: 2 });
}

#[test]
fn gap_needs_snapshot() {
    // Serials 4 and 5 are missing: the walk cannot start.
    let n = notification(1, 7, vec![delta(6), delta(7)]);
    let s = state(1, 3);
    assert_eq!(Server::calc_deltas(&n, &s), DeltaCommand::NeedSnapshot);
}

#[test]
fn empty_delta_list_needs_snapshot() {
    let n = notification(1, 5, vec![]);
    let s = state(1, 3);
    assert_eq!(Server::calc_deltas(&n, &s), DeltaCommand::NeedSnapshot);
}

#[test]
fn final_delta_short_of_serial_needs_snapshot() {
    let n = notification(1, 5, vec![delta(4)]);
    let s = state(1, 3);
    assert_eq!(Server::calc_deltas(&n, &s), DeltaCommand::NeedSnapshot);
}

#[test]
fn serial_at_max_needs_snapshot() {
    let n = notification(1, 5, vec![delta(4), delta(5)]);
    let s = state(1, u64::MAX);
    assert_eq!(Server::calc_deltas(&n, &s), DeltaCommand::NeedSnapshot);
}

#[test]
fn all_deltas_stale_needs_snapshot() {
    // Nothing at or past serial 4 — the list was exhausted.
    let n = notification(1, 3, vec![delta(2), delta(3)]);
    let s = state(1, 7);
    assert_eq!(Server::calc_deltas(&n, &s), DeltaCommand::NeedSnapshot);
}

#[test]
fn calc_deltas_is_pure() {
    let n = notification(1, 5, vec![delta(4), delta(5)]);
    let s = state(1, 3);
    let a = Server::calc_deltas(&n, &s);
    let b = Server::calc_deltas(&n, &s);
    assert_eq!(a, b);
}

#[test]
fn delta_plan_aborts_without_state() {
    let n = notification(1, 5, vec![delta(4), delta(5)]);
    assert!(Server::delta_plan(None, &n).is_none());
    let s = state(1, 3);
    assert_eq!(Server::delta_plan(Some(&s), &n), Some(DeltaCommand::Apply { first: 0 }));
}
