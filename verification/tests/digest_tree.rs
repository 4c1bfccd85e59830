//! The directory fingerprint: exact stream definition, readdir-order
//! invariance, and the digest comparisons.

use rrdp_cache::dir::ServerDir;
use rrdp_cache::tree::{insert_entry, remove_entry, DirEntry, DirTree};

fn file(name: &[u8], size: u64) -> DirEntry {
    DirEntry::File { name: name.to_vec(), size }
}

fn dir(name: &[u8], tree: DirTree) -> DirEntry {
    DirEntry::Dir { name: name.to_vec(), tree }
}

fn tree_of(entries: Vec<DirEntry>) -> DirTree {
    let mut t = DirTree { entries: Vec::new() };
    for e in entries {
        insert_entry(&mut t, e);
    }
    t
}

fn sha256(data: &[u8]) -> Vec<u8> {
    ring::digest::digest(&ring::digest::SHA256, data).as_ref().to_vec()
}

#[test]
fn digest_matches_defined_stream() {
    // Two files: names in sorted order, each name followed by the length
    // as eight little-endian bytes.
    let t = tree_of(vec![file(b"b", 2), file(b"a", 1)]);
    let mut stream = Vec::new();
    stream.extend_from_slice(b"a");
    stream.extend_from_slice(&1u64.to_le_bytes());
    stream.extend_from_slice(b"b");
    stream.extend_from_slice(&2u64.to_le_bytes());
    let d = ServerDir::new(b"/cache/s1".to_vec());
    assert_eq!(d.digest(&t).unwrap(), sha256(&stream));
}

#[test]
fn digest_walks_subdirectories_last_first() {
    // Root: dir "a" { file "c": 1 }, file "b": 3, dir "z" { }.
    // Headers in sorted order, then subdirectory listings, last one first.
    let sub_a = tree_of(vec![file(b"c", 1)]);
    let sub_z = DirTree { entries: Vec::new() };
    let t = tree_of(vec![dir(b"z", sub_z), file(b"b", 3), dir(b"a", sub_a)]);
    let mut stream = Vec::new();
    stream.extend_from_slice(b"a");
    stream.extend_from_slice(b"b");
    stream.extend_from_slice(&3u64.to_le_bytes());
    stream.extend_from_slice(b"z");
    // "z" is empty and contributes nothing; then "a"'s listing.
    stream.extend_from_slice(b"c");
    stream.extend_from_slice(&1u64.to_le_bytes());
    let d = ServerDir::new(b"/cache/s1".to_vec());
    assert_eq!(d.digest(&t).unwrap(), sha256(&stream));
}

#[test]
fn digest_invariant_under_readdir_order() {
    let orders: Vec<Vec<DirEntry>> = vec![
        vec![file(b"a", 1), file(b"bb", 2), file(b"c", 0)],
        vec![file(b"c", 0), file(b"a", 1), file(b"bb", 2)],
        vec![file(b"bb", 2), file(b"c", 0), file(b"a", 1)],
    ];
    let d = ServerDir::new(b"/cache/s1".to_vec());
    let digests: Vec<Vec<u8>> = orders.into_iter().map(|o| d.digest(&tree_of(o)).unwrap()).collect();
    assert_eq!(digests[0], digests[1]);
    assert_eq!(digests[1], digests[2]);
}

#[test]
fn digest_stable_over_repeated_calls() {
    let t = tree_of(vec![file(b"a", 7)]);
    let d = ServerDir::new(b"/cache/s1".to_vec());
    assert_eq!(d.digest(&t).unwrap(), d.digest(&t).unwrap());
}

#[test]
fn digest_depends_on_sizes_and_names() {
    let d = ServerDir::new(b"/cache/s1".to_vec());
    let t1 = tree_of(vec![file(b"a", 1)]);
    let t2 = tree_of(vec![file(b"a", 2)]);
    let t3 = tree_of(vec![file(b"b", 1)]);
    assert_ne!(d.digest(&t1).unwrap(), d.digest(&t2).unwrap());
    assert_ne!(d.digest(&t1).unwrap(), d.digest(&t3).unwrap());
}

#[test]
fn check_digest_accepts_match_and_rejects_mismatch() {
    let d = ServerDir::new(b"/cache/s1".to_vec());
    let t = tree_of(vec![file(b"a", 1), file(b"b", 2)]);
    let h = d.digest(&t).unwrap();
    assert!(d.check_digest(&t, &h).is_ok());
    let mut wrong = h.clone();
    wrong[0] ^= 1;
    assert!(d.check_digest(&t, &wrong).is_err());
    assert!(d.check_digest(&t, &h[..31]).is_err());
}

#[test]
fn digest_invariant_under_transient_files() {
    let d = ServerDir::new(b"/cache/s1".to_vec());
    let mut t = tree_of(vec![file(b"a", 1), file(b"c", 2)]);
    let before = d.digest(&t).unwrap();
    insert_entry(&mut t, file(b"b", 9));
    assert_ne!(d.digest(&t).unwrap(), before);
    assert!(remove_entry(&mut t, b"b").is_some());
    assert_eq!(d.digest(&t).unwrap(), before);
    assert!(remove_entry(&mut t, b"missing").is_none());
    assert_eq!(d.digest(&t).unwrap(), before);
}

#[test]
fn empty_tree_digest_is_sha256_of_nothing() {
    let d = ServerDir::new(b"/cache/s1".to_vec());
    let t = DirTree { entries: Vec::new() };
    assert_eq!(d.digest(&t).unwrap(), sha256(b""));
}
