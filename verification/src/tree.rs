//! The deterministic fingerprint of a server's data tree.
//!
//! The cache does not hash file contents; it fingerprints the tree's
//! structure and file sizes. A directory listing is kept in byte-wise
//! lexicographic name order, and the digest is the SHA-256 of a byte
//! stream that walks the tree: for each entry in order, the name bytes,
//! then the file length as eight little-endian bytes for files; directory
//! entries contribute their name here and their own listing later, last
//! directory first (the walk keeps a stack).

use vstd::prelude::*;
use crate::crypto;
use crate::dir::ServerDir;
use crate::Error;

verus! {

/// Byte-wise lexicographic strict order on names.
pub open spec fn lex_lt(a: Seq<u8>, b: Seq<u8>) -> bool
    decreases a.len(),
{
    if b.len() == 0 {
        false
    } else if a.len() == 0 {
        true
    } else if a[0] < b[0] {
        true
    } else if a[0] > b[0] {
        false
    } else {
        lex_lt(a.drop_first(), b.drop_first())
    }
}

/// The order is irreflexive and asymmetric.
pub proof fn lemma_lex_lt_asym(a: Seq<u8>, b: Seq<u8>)
    ensures
        lex_lt(a, b) ==> !lex_lt(b, a),
    decreases a.len(),
{
    if a.len() > 0 && b.len() > 0 && a[0] == b[0] {
        lemma_lex_lt_asym(a.drop_first(), b.drop_first());
    }
}

/// Any two names are ordered or equal.
pub proof fn lemma_lex_lt_connected(a: Seq<u8>, b: Seq<u8>)
    ensures
        !lex_lt(a, b) && !lex_lt(b, a) ==> a =~= b,
    decreases a.len(),
{
    if a.len() > 0 && b.len() > 0 && a[0] == b[0] {
        lemma_lex_lt_connected(a.drop_first(), b.drop_first());
        if !lex_lt(a, b) && !lex_lt(b, a) {
            assert(a =~= seq![a[0]] + a.drop_first());
            assert(b =~= seq![b[0]] + b.drop_first());
        }
    }
}

/// The order is transitive.
pub proof fn lemma_lex_lt_trans(a: Seq<u8>, b: Seq<u8>, c: Seq<u8>)
    ensures
        lex_lt(a, b) && lex_lt(b, c) ==> lex_lt(a, c),
    decreases a.len(),
{
    if a.len() > 0 && b.len() > 0 && c.len() > 0 {
        lemma_lex_lt_trans(a.drop_first(), b.drop_first(), c.drop_first());
    }
}

/// Compares two names in byte-wise lexicographic order.
pub fn lex_lt_bytes(a: &[u8], b: &[u8]) -> (r: bool)
    ensures
        r == lex_lt(a@, b@),
{
    let mut i: usize = 0;
    proof {
        assert(a@.skip(0) =~= a@);
        assert(b@.skip(0) =~= b@);
    }
    loop
        invariant
            0 <= i <= a@.len(),
            0 <= i <= b@.len(),
            lex_lt(a@, b@) == lex_lt(a@.skip(i as int), b@.skip(i as int)),
        decreases a@.len() - i,
    {
        proof {
            if i < a@.len() {
                assert(a@.skip(i as int).drop_first() =~= a@.skip(i + 1));
            }
            if i < b@.len() {
                assert(b@.skip(i as int).drop_first() =~= b@.skip(i + 1));
            }
        }
        if i >= b.len() {
            return false;
        }
        if i >= a.len() {
            return true;
        }
        if a[i] < b[i] {
            return true;
        }
        if a[i] > b[i] {
            return false;
        }
        i += 1;
    }
}

/// One entry of a directory listing: a regular file with its byte length,
/// or a subdirectory with its own listing. Other entry kinds (symlinks,
/// devices) are not part of the fingerprint and are never entered.
pub enum DirEntry {
    /// A regular file and its length in bytes.
    File { name: Vec<u8>, size: u64 },
    /// A subdirectory and its listing.
    Dir { name: Vec<u8>, tree: DirTree },
}

/// A directory listing, kept sorted by name.
pub struct DirTree {
    /// The entries, in byte-wise lexicographic name order when well formed.
    pub entries: Vec<DirEntry>,
}

/// The name of an entry.
pub open spec fn entry_name(e: DirEntry) -> Seq<u8> {
    match e {
        DirEntry::File { name, .. } => name@,
        DirEntry::Dir { name, .. } => name@,
    }
}

/// Strictly increasing names: sorted, and no name twice.
pub open spec fn names_sorted(s: Seq<DirEntry>) -> bool {
    forall|i: int, j: int|
        0 <= i < j < s.len() ==> lex_lt(entry_name(#[trigger] s[i]), entry_name(#[trigger] s[j]))
}

/// A listing holds no entry with the given name.
pub open spec fn name_free(s: Seq<DirEntry>, name: Seq<u8>) -> bool {
    forall|i: int| 0 <= i < s.len() ==> entry_name(#[trigger] s[i]) != name
}

/// A well-formed tree: every listing is strictly sorted by name.
pub open spec fn tree_wf(d: DirTree) -> bool
    decreases d, 1int, 0int,
{
    names_sorted(d.entries@) && subdirs_wf(d, d.entries@.len() as int)
}

/// The first `i` entries' subdirectories are well formed.
pub open spec fn subdirs_wf(d: DirTree, i: int) -> bool
    decreases d, 0int, i,
    via subdirs_wf_dec
{
    if i <= 0 || i > d.entries@.len() {
        true
    } else {
        (match d.entries@[i - 1] {
            DirEntry::Dir { tree, .. } => tree_wf(tree),
            DirEntry::File { .. } => true,
        }) && subdirs_wf(d, i - 1)
    }
}

#[via_fn]
proof fn subdirs_wf_dec(d: DirTree, i: int) {
    if 0 < i <= d.entries@.len() {
        let e = d.entries@[i - 1];
        assert(decreases_to!(d => d.entries));
        assert(decreases_to!(d.entries => d.entries@));
        assert(decreases_to!(d.entries@ => d.entries@[i - 1]));
        if e is Dir {
            assert(decreases_to!(e => e->Dir_tree));
        }
    }
}

/// A single entry's subtree, if any, is well formed.
pub open spec fn entry_wf(e: DirEntry) -> bool
    decreases e, 1int, 0int,
    via entry_wf_dec
{
    match e {
        DirEntry::Dir { tree, .. } => tree_wf(tree),
        DirEntry::File { .. } => true,
    }
}

#[via_fn]
proof fn entry_wf_dec(e: DirEntry) {
    if e is Dir {
        assert(decreases_to!(e => e->Dir_tree));
    }
}

/// Well-formedness of a listing prefix, entry by entry.
pub proof fn lemma_subdirs_wf_at(d: DirTree, i: int, k: int)
    requires
        subdirs_wf(d, i),
        i <= d.entries@.len(),
        0 <= k < i,
    ensures
        entry_wf(d.entries@[k]),
    decreases i,
{
    if k < i - 1 {
        lemma_subdirs_wf_at(d, i - 1, k);
    }
}

/// A listing whose entries are all well formed has well-formed prefixes.
pub proof fn lemma_subdirs_wf_build(d: DirTree, i: int)
    requires
        forall|k: int| 0 <= k < i ==> entry_wf(#[trigger] d.entries@[k]),
        i <= d.entries@.len(),
    ensures
        subdirs_wf(d, i),
    decreases i,
{
    if i > 0 {
        lemma_subdirs_wf_build(d, i - 1);
    }
}

/// A file length as eight little-endian bytes.
pub open spec fn u64le(n: u64) -> Seq<u8> {
    seq![
        (n & 0xff) as u8,
        ((n >> 8) & 0xff) as u8,
        ((n >> 16) & 0xff) as u8,
        ((n >> 24) & 0xff) as u8,
        ((n >> 32) & 0xff) as u8,
        ((n >> 40) & 0xff) as u8,
        ((n >> 48) & 0xff) as u8,
        ((n >> 56) & 0xff) as u8,
    ]
}

/// What one entry feeds into the digest at its parent's level: its name,
/// then its length for a file.
pub open spec fn entry_header(e: DirEntry) -> Seq<u8> {
    match e {
        DirEntry::File { name, size } => name@ + u64le(size),
        DirEntry::Dir { name, .. } => name@,
    }
}

/// The headers of a listing, in listing order.
pub open spec fn headers(s: Seq<DirEntry>) -> Seq<u8>
    decreases s.len(),
{
    if s.len() == 0 {
        Seq::empty()
    } else {
        headers(s.drop_last()) + entry_header(s.last())
    }
}

/// The whole byte stream the digest hashes for a tree: this level's
/// headers, then the subdirectories' streams, last directory first.
pub open spec fn tree_stream(d: DirTree) -> Seq<u8>
    decreases d, 1int, 0int,
{
    headers(d.entries@) + rev_streams(d, d.entries@.len() as int)
}

/// The streams of the first `i` entries' subdirectories, in reverse
/// listing order.
pub open spec fn rev_streams(d: DirTree, i: int) -> Seq<u8>
    decreases d, 0int, i,
    via rev_streams_dec
{
    if i <= 0 || i > d.entries@.len() {
        Seq::empty()
    } else {
        (match d.entries@[i - 1] {
            DirEntry::Dir { tree, .. } => tree_stream(tree),
            DirEntry::File { .. } => Seq::empty(),
        }) + rev_streams(d, i - 1)
    }
}

#[via_fn]
proof fn rev_streams_dec(d: DirTree, i: int) {
    if 0 < i <= d.entries@.len() {
        let e = d.entries@[i - 1];
        assert(decreases_to!(d => d.entries));
        assert(decreases_to!(d.entries => d.entries@));
        assert(decreases_to!(d.entries@ => d.entries@[i - 1]));
        if e is Dir {
            assert(decreases_to!(e => e->Dir_tree));
        }
    }
}

/// The digest of a tree: SHA-256 over its stream.
pub open spec fn spec_tree_digest(d: DirTree) -> Seq<u8> {
    crypto::sha256_of(tree_stream(d))
}

/// When a digest check of a tree against an expected digest passes: the
/// tree is digestible and its digest is the expected one.
pub open spec fn spec_check_digest(d: DirTree, expected: Seq<u8>) -> bool {
    tree_stream(d).len() <= crypto::SHA256_MAX_INPUT && spec_tree_digest(d) == expected
}

/// Appends a name to the stream under construction.
fn append_bytes(out: &mut Vec<u8>, b: &Vec<u8>)
    ensures
        final(out)@ == old(out)@ + b@,
{
    let mut i: usize = 0;
    while i < b.len()
        invariant
            0 <= i <= b@.len(),
            out@ =~= old(out)@ + b@.take(i as int),
        decreases b@.len() - i,
    {
        out.push(b[i]);
        i += 1;
    }
    proof {
        assert(b@.take(b@.len() as int) =~= b@);
    }
}

/// Appends a tree's stream to `out`.
fn append_stream(tree: &DirTree, out: &mut Vec<u8>)
    ensures
        final(out)@ == old(out)@ + tree_stream(*tree),
    decreases *tree,
{
    let ghost base = out@;
    let n = tree.entries.len();
    let mut i: usize = 0;
    while i < n
        invariant
            n == tree.entries@.len(),
            0 <= i <= n,
            out@ =~= base + headers(tree.entries@.take(i as int)),
        decreases n - i,
    {
        proof {
            assert(tree.entries@.take(i + 1).drop_last() =~= tree.entries@.take(i as int));
            assert(tree.entries@.take(i + 1).last() == tree.entries@[i as int]);
        }
        match &tree.entries[i] {
            DirEntry::File { name, size } => {
                append_bytes(out, name);
                let s: u64 = *size;
                out.push((s & 0xff) as u8);
                out.push(((s >> 8) & 0xff) as u8);
                out.push(((s >> 16) & 0xff) as u8);
                out.push(((s >> 24) & 0xff) as u8);
                out.push(((s >> 32) & 0xff) as u8);
                out.push(((s >> 40) & 0xff) as u8);
                out.push(((s >> 48) & 0xff) as u8);
                out.push(((s >> 56) & 0xff) as u8);
                proof {
                    assert(out@ =~= base + headers(tree.entries@.take(i + 1)));
                }
            }
            DirEntry::Dir { name, .. } => {
                append_bytes(out, name);
                proof {
                    assert(out@ =~= base + headers(tree.entries@.take(i + 1)));
                }
            }
        }
        i += 1;
    }
    proof {
        assert(tree.entries@.take(n as int) =~= tree.entries@);
    }
    let mut j: usize = n;
    while j > 0
        invariant
            n == tree.entries@.len(),
            0 <= j <= n,
            out@ + rev_streams(*tree, j as int) =~= base + headers(tree.entries@) + rev_streams(
                *tree,
                n as int,
            ),
        decreases j,
    {
        j -= 1;
        match &tree.entries[j] {
            DirEntry::Dir { tree: sub, .. } => {
                proof {
                    let e = tree.entries@[j as int];
                    assert(decreases_to!(*tree => tree.entries));
                    assert(decreases_to!(tree.entries => tree.entries@));
                    assert(decreases_to!(tree.entries@ => tree.entries@[j as int]));
                    assert(e is Dir);
                    assert(decreases_to!(e => e->Dir_tree));
                    assert(e->Dir_tree == *sub);
                }
                append_stream(sub, out);
            }
            DirEntry::File { .. } => {}
        }
        proof {
            assert(out@ + rev_streams(*tree, j as int) =~= base + headers(tree.entries@)
                + rev_streams(*tree, n as int));
        }
    }
    proof {
        assert(rev_streams(*tree, 0) =~= Seq::<u8>::empty());
        assert(out@ =~= base + tree_stream(*tree));
    }
}

impl ServerDir {
    /// The deterministic fingerprint of a data tree: the SHA-256 digest of
    /// the tree's stream. Fails only when the stream outgrows the digest
    /// algorithm's input limit.
    pub fn digest(&self, tree: &DirTree) -> (r: Result<Vec<u8>, Error>)
        ensures
            r is Ok <==> tree_stream(*tree).len() <= crypto::SHA256_MAX_INPUT,
            r matches Ok(v) ==> v@ == spec_tree_digest(*tree) && v@.len() == 32,
    {
        let mut stream: Vec<u8> = Vec::new();
        append_stream(tree, &mut stream);
        if stream.len() as u64 <= crypto::SHA256_MAX_INPUT {
            Ok(crypto::sha256(stream.as_slice()))
        } else {
            Err(Error)
        }
    }

    /// Recomputes the tree's digest and compares it with an expected one,
    /// in constant time. `Ok` exactly when the digest is computable and
    /// equal to `expected`.
    pub fn check_digest(&self, tree: &DirTree, expected: &[u8]) -> (r: Result<(), Error>)
        ensures
            r is Ok <==> spec_check_digest(*tree, expected@),
    {
        match self.digest(tree) {
            Ok(d) => {
                if crypto::verify_eq(d.as_slice(), expected) {
                    Ok(())
                } else {
                    Err(Error)
                }
            }
            Err(e) => Err(e),
        }
    }
}

/// Inserts an entry into a sorted listing, keeping it sorted. Returns the
/// position the entry went to.
pub fn insert_entry(tree: &mut DirTree, e: DirEntry) -> (k: usize)
    requires
        names_sorted(old(tree).entries@),
        name_free(old(tree).entries@, entry_name(e)),
    ensures
        0 <= k <= old(tree).entries@.len(),
        final(tree).entries@ == old(tree).entries@.insert(k as int, e),
        names_sorted(final(tree).entries@),
        final(tree).entries@.to_multiset() == old(tree).entries@.to_multiset().insert(e),
        tree_wf(*old(tree)) && entry_wf(e) ==> tree_wf(*final(tree)),
{
    let name: &Vec<u8> = match &e {
        DirEntry::File { name, .. } => name,
        DirEntry::Dir { name, .. } => name,
    };
    let mut k: usize = 0;
    loop
        invariant
            0 <= k <= tree.entries@.len(),
            name@ == entry_name(e),
            forall|j: int| 0 <= j < k ==> lex_lt(entry_name(#[trigger] tree.entries@[j]), entry_name(e)),
        ensures
            0 <= k <= tree.entries@.len(),
            forall|j: int| 0 <= j < k ==> lex_lt(entry_name(#[trigger] tree.entries@[j]), entry_name(e)),
            k < tree.entries@.len() ==> !lex_lt(entry_name(tree.entries@[k as int]), entry_name(e)),
        decreases tree.entries@.len() - k,
    {
        if k >= tree.entries.len() {
            break;
        }
        let cur: &Vec<u8> = match &tree.entries[k] {
            DirEntry::File { name, .. } => name,
            DirEntry::Dir { name, .. } => name,
        };
        if !lex_lt_bytes(cur.as_slice(), name.as_slice()) {
            break;
        }
        k += 1;
    }
    proof {
        let s = tree.entries@;
        let sn = s.insert(k as int, e);
        if k < s.len() {
            lemma_lex_lt_connected(entry_name(s[k as int]), entry_name(e));
            assert(lex_lt(entry_name(e), entry_name(s[k as int])));
        }
        assert forall|i: int, j: int| 0 <= i < j < sn.len() implies lex_lt(
            entry_name(#[trigger] sn[i]),
            entry_name(#[trigger] sn[j]),
        ) by {
            if j < k {
                assert(sn[i] == s[i]);
                assert(sn[j] == s[j]);
            } else if j == k {
                assert(sn[i] == s[i]);
                assert(sn[j] == e);
            } else if i == k {
                assert(sn[i] == e);
                assert(sn[j] == s[j - 1]);
                if j - 1 > k {
                    lemma_lex_lt_trans(
                        entry_name(e),
                        entry_name(s[k as int]),
                        entry_name(s[j - 1]),
                    );
                }
            } else if i < k {
                assert(sn[i] == s[i]);
                assert(sn[j] == s[j - 1]);
                assert(i < j - 1);
            } else {
                assert(sn[i] == s[i - 1]);
                assert(sn[j] == s[j - 1]);
            }
        }
        // Multiset view of the insertion.
        assert(sn =~= s.take(k as int).push(e) + s.skip(k as int));
        assert(s =~= s.take(k as int) + s.skip(k as int));
        vstd::seq_lib::lemma_multiset_commutative(s.take(k as int).push(e), s.skip(k as int));
        vstd::seq_lib::lemma_multiset_commutative(s.take(k as int), s.skip(k as int));
        broadcast use vstd::seq_lib::group_to_multiset_ensures;
        assert(s.take(k as int).push(e).to_multiset() == s.take(k as int).to_multiset().insert(e));
        assert(sn.to_multiset() =~= s.to_multiset().insert(e));
    }
    tree.entries.insert(k, e);
    proof {
        if tree_wf(*old(tree)) && entry_wf(e) {
            assert forall|t: int| 0 <= t < tree.entries@.len() implies entry_wf(
                #[trigger] tree.entries@[t],
            ) by {
                if t < k {
                    lemma_subdirs_wf_at(*old(tree), old(tree).entries@.len() as int, t);
                } else if t > k {
                    lemma_subdirs_wf_at(*old(tree), old(tree).entries@.len() as int, t - 1);
                }
            }
            lemma_subdirs_wf_build(*tree, tree.entries@.len() as int);
        }
    }
    k
}

/// Removes the entry with the given name from a listing, if present.
/// Returns the removed entry.
pub fn remove_entry(tree: &mut DirTree, name: &[u8]) -> (r: Option<DirEntry>)
    ensures
        name_free(old(tree).entries@, name@) ==> (r is None && final(tree).entries@ == old(
            tree,
        ).entries@),
        r matches Some(e) ==> (exists|k: int|
            0 <= k < old(tree).entries@.len() && old(tree).entries@[k] == e && entry_name(e)
                == name@ && final(tree).entries@ == old(tree).entries@.remove(k)),
{
    let mut k: usize = 0;
    while k < tree.entries.len()
        invariant
            0 <= k <= tree.entries@.len(),
            tree.entries@ == old(tree).entries@,
            forall|j: int| 0 <= j < k ==> entry_name(#[trigger] tree.entries@[j]) != name@,
        decreases tree.entries@.len() - k,
    {
        let cur: &Vec<u8> = match &tree.entries[k] {
            DirEntry::File { name, .. } => name,
            DirEntry::Dir { name, .. } => name,
        };
        if bytes_eq(cur.as_slice(), name) {
            proof {
                assert(entry_name(tree.entries@[k as int]) == name@);
                assert(!name_free(tree.entries@, name@));
            }
            let e = tree.entries.remove(k);
            proof {
                assert(old(tree).entries@[k as int] == e);
                assert(entry_name(e) == name@);
                assert(tree.entries@ == old(tree).entries@.remove(k as int));
            }
            return Some(e);
        }
        k += 1;
    }
    proof {
        assert(name_free(tree.entries@, name@));
    }
    None
}

/// Whether two byte strings are equal.
fn bytes_eq(a: &[u8], b: &[u8]) -> (r: bool)
    ensures
        r == (a@ == b@),
{
    if a.len() != b.len() {
        proof {
            assert(a@ != b@);
        }
        return false;
    }
    let mut i: usize = 0;
    while i < a.len()
        invariant
            0 <= i <= a@.len(),
            a@.len() == b@.len(),
            forall|j: int| 0 <= j < i ==> a@[j] == b@[j],
        decreases a@.len() - i,
    {
        if a[i] != b[i] {
            proof {
                assert(a@ != b@);
            }
            return false;
        }
        i += 1;
    }
    proof {
        assert(a@ =~= b@);
    }
    true
}

/// Creating and then deleting a transient entry leaves the listing — and
/// with it the fingerprint — exactly as it was.
pub proof fn lemma_insert_then_remove(s: Seq<DirEntry>, e: DirEntry, k: int)
    requires
        0 <= k <= s.len(),
    ensures
        s.insert(k, e).remove(k) =~= s,
{
}

/// The stream of a tree depends only on its listing.
pub proof fn lemma_stream_congruent(a: DirTree, b: DirTree)
    requires
        a.entries@ == b.entries@,
    ensures
        tree_stream(a) == tree_stream(b),
{
    lemma_rev_streams_congruent(a, b, a.entries@.len() as int);
}

proof fn lemma_rev_streams_congruent(a: DirTree, b: DirTree, i: int)
    requires
        a.entries@ == b.entries@,
    ensures
        rev_streams(a, i) == rev_streams(b, i),
    decreases i,
{
    if i > 0 {
        lemma_rev_streams_congruent(a, b, i - 1);
    }
}

/// The fingerprint is invariant under readdir order: two listings of the
/// same entries, each kept sorted, are the same listing, so they stream
/// and digest identically. Order of discovery never reaches the digest.
pub proof fn lemma_digest_readdir_invariant(a: DirTree, b: DirTree)
    requires
        names_sorted(a.entries@),
        names_sorted(b.entries@),
        a.entries@.to_multiset() == b.entries@.to_multiset(),
    ensures
        spec_tree_digest(a) == spec_tree_digest(b),
{
    lemma_sorted_listing_unique(a.entries@, b.entries@);
    lemma_stream_congruent(a, b);
}

/// A sorted listing is determined by what it holds: two well-formed
/// listings of the same entries are the same listing, whatever order the
/// entries were found in. With the digest a function of the listing, the
/// fingerprint is invariant under readdir order.
pub proof fn lemma_sorted_listing_unique(a: Seq<DirEntry>, b: Seq<DirEntry>)
    requires
        names_sorted(a),
        names_sorted(b),
        a.to_multiset() == b.to_multiset(),
    ensures
        a =~= b,
    decreases a.len(),
{
    broadcast use vstd::seq_lib::group_to_multiset_ensures;

    if a.len() == 0 {
        assert(b.to_multiset().len() == 0);
    } else {
        assert(a.to_multiset().contains(a[0]));
        assert(b.to_multiset().contains(b[0]));
        assert(b.contains(a[0]));
        assert(a.contains(b[0]));
        let ka = choose|i: int| 0 <= i < a.len() && a[i] == b[0];
        let kb = choose|i: int| 0 <= i < b.len() && b[i] == a[0];
        if ka > 0 && kb > 0 {
            lemma_lex_lt_asym(entry_name(a[0]), entry_name(b[0]));
            assert(lex_lt(entry_name(a[0]), entry_name(a[ka])));
            assert(lex_lt(entry_name(b[0]), entry_name(b[kb])));
            assert(false);
        }
        assert(a[0] == b[0]);
        let ra = a.remove(0);
        let rb = b.remove(0);
        assert(ra.to_multiset() =~= a.to_multiset().remove(a[0]));
        assert(rb.to_multiset() =~= b.to_multiset().remove(b[0]));
        assert(ra =~= a.drop_first());
        assert(rb =~= b.drop_first());
        lemma_sorted_listing_unique(ra, rb);
        assert(a =~= seq![a[0]] + ra);
        assert(b =~= seq![b[0]] + rb);
    }
}

} // verus!
