//! The persisted metadata of one server: notification URI, session,
//! serial, and the expected digest of the data tree.
//!
//! The on-disk format is four lines, each `key: value`, in a fixed order:
//! `notify-uri`, `session`, `serial`, `hash`. Anything else — extra or
//! missing lines, reordered or unknown keys, malformed values, trailing
//! bytes — fails the load.

use vstd::prelude::*;
use crate::hexnum;
use crate::session;
use crate::uri;

verus! {

/// The metadata of one server, as persisted in its state file.
pub struct ServerState {
    /// The notification URI the data was fetched from.
    pub notify_uri: Vec<u8>,
    /// The publisher's session identifier, as a 128-bit UUID value.
    pub session: u128,
    /// The serial the local data corresponds to.
    pub serial: u64,
    /// The expected SHA-256 fingerprint of the data tree.
    pub hash: Vec<u8>,
}

/// The mathematical value of a `ServerState`.
pub struct StateView {
    pub notify_uri: Seq<u8>,
    pub session: u128,
    pub serial: u64,
    pub hash: Seq<u8>,
}

impl View for ServerState {
    type V = StateView;

    open spec fn view(&self) -> StateView {
        StateView {
            notify_uri: self.notify_uri@,
            session: self.session,
            serial: self.serial,
            hash: self.hash@,
        }
    }
}

/// A state that can round-trip through its file: the URI is one the
/// `rpki` crate accepts (so it holds no whitespace), and the hash is a
/// SHA-256 digest.
pub open spec fn state_view_wf(v: StateView) -> bool {
    &&& uri::https_ok(v.notify_uri)
    &&& v.notify_uri.len() > 0
    &&& forall|i: int| 0 <= i < v.notify_uri.len() ==> uri::is_uri_byte(#[trigger] v.notify_uri[i])
    &&& v.hash.len() == 32
}

/// What the session rendering promises of a value: parsing the rendering
/// gives the value back, and the rendering is hexadecimal and hyphens.
/// Every call of the renderer establishes this of its session.
pub open spec fn session_render_ok(u: u128) -> bool {
    &&& session::uuid_of(session::uuid_bytes_of(u)) == Some(u)
    &&& session::uuid_bytes_of(u).len() == 36
    &&& forall|i: int|
        0 <= i < session::uuid_bytes_of(u).len() ==> session::is_uuid_byte(
            #[trigger] session::uuid_bytes_of(u)[i],
        )
}

/// `notify-uri: `, the first line's key.
pub open spec fn key_uri() -> Seq<u8> {
    seq![110u8, 111u8, 116u8, 105u8, 102u8, 121u8, 45u8, 117u8, 114u8, 105u8, 58u8, 32u8]
}

/// `session: `, the second line's key.
pub open spec fn key_session() -> Seq<u8> {
    seq![115u8, 101u8, 115u8, 115u8, 105u8, 111u8, 110u8, 58u8, 32u8]
}

/// `serial: `, the third line's key.
pub open spec fn key_serial() -> Seq<u8> {
    seq![115u8, 101u8, 114u8, 105u8, 97u8, 108u8, 58u8, 32u8]
}

/// `hash: `, the fourth line's key.
pub open spec fn key_hash() -> Seq<u8> {
    seq![104u8, 97u8, 115u8, 104u8, 58u8, 32u8]
}

/// The file a state is saved as.
pub open spec fn spec_state_bytes(v: StateView) -> Seq<u8> {
    key_uri() + v.notify_uri + seq![10u8] + key_session() + session::uuid_bytes_of(v.session)
        + seq![10u8] + key_serial() + hexnum::dec_of(v.serial) + seq![10u8] + key_hash()
        + hexnum::hex_of(v.hash) + seq![10u8]
}

/// Index of the first newline, or the length if there is none.
pub open spec fn first_nl(s: Seq<u8>) -> int
    decreases s.len(),
{
    if s.len() == 0 {
        0
    } else if s[0] == 10 {
        0
    } else {
        1 + first_nl(s.drop_first())
    }
}

/// The first line and the rest behind its newline, if any newline exists.
pub open spec fn split_line(s: Seq<u8>) -> Option<(Seq<u8>, Seq<u8>)> {
    let l = first_nl(s);
    if l >= s.len() {
        None
    } else {
        Some((s.take(l), s.skip(l + 1)))
    }
}

/// The value of a line under an expected key, if the line has that key
/// and a non-empty value.
pub open spec fn line_value(line: Seq<u8>, key: Seq<u8>) -> Option<Seq<u8>> {
    if line.len() > key.len() && line.take(key.len() as int) == key {
        Some(line.skip(key.len() as int))
    } else {
        None
    }
}

/// The state a file denotes, if it is exactly four well-formed lines in
/// the fixed order with valid values and nothing after them.
pub open spec fn spec_parse_state(c: Seq<u8>) -> Option<StateView> {
    match split_line(c) {
        None => None,
        Some((line1, r1)) => match line_value(line1, key_uri()) {
            None => None,
            Some(uri_v) => if !uri::https_ok(uri_v) {
                None
            } else {
                match split_line(r1) {
                    None => None,
                    Some((line2, r2)) => match line_value(line2, key_session()) {
                        None => None,
                        Some(sess_v) => match session::uuid_of(sess_v) {
                            None => None,
                            Some(sess) => match split_line(r2) {
                                None => None,
                                Some((line3, r3)) => match line_value(line3, key_serial()) {
                                    None => None,
                                    Some(ser_v) => if !(hexnum::is_dec_seq(ser_v) && hexnum::dec_val(
                                        ser_v,
                                    ) <= u64::MAX) {
                                        None
                                    } else {
                                        match split_line(r3) {
                                            None => None,
                                            Some((line4, r4)) => match line_value(
                                                line4,
                                                key_hash(),
                                            ) {
                                                None => None,
                                                Some(hash_v) => if hash_v.len() == 64
                                                    && hexnum::is_hex_seq(hash_v) && r4.len() == 0 {
                                                    Some(
                                                        StateView {
                                                            notify_uri: uri_v,
                                                            session: sess,
                                                            serial: hexnum::dec_val(ser_v) as u64,
                                                            hash: hexnum::hex_val_bytes(hash_v),
                                                        },
                                                    )
                                                } else {
                                                    None
                                                },
                                            },
                                        }
                                    },
                                },
                            },
                        },
                    },
                }
            },
        },
    }
}

/// `first_nl` finds the newline that is there.
pub proof fn lemma_first_nl_at(s: Seq<u8>, i: int)
    requires
        0 <= i < s.len(),
        s[i] == 10,
        forall|j: int| 0 <= j < i ==> s[j] != 10,
    ensures
        first_nl(s) == i,
    decreases i,
{
    if i > 0 {
        lemma_first_nl_at(s.drop_first(), i - 1);
    }
}

/// Without a newline, `first_nl` runs to the end.
pub proof fn lemma_first_nl_none(s: Seq<u8>)
    requires
        forall|j: int| 0 <= j < s.len() ==> s[j] != 10,
    ensures
        first_nl(s) == s.len(),
    decreases s.len(),
{
    if s.len() > 0 {
        lemma_first_nl_none(s.drop_first());
    }
}

/// Finds the first newline at or after `from`.
fn find_nl(s: &[u8], from: usize) -> (r: Option<usize>)
    requires
        from <= s@.len(),
    ensures
        r matches Some(i) ==> from <= i < s@.len() && s@[i as int] == 10 && (forall|j: int|
            from <= j < i ==> s@[j] != 10),
        r is None ==> forall|j: int| from <= j < s@.len() ==> s@[j] != 10,
{
    let mut i = from;
    while i < s.len()
        invariant
            from <= i <= s@.len(),
            forall|j: int| from <= j < i ==> s@[j] != 10,
        decreases s@.len() - i,
    {
        if s[i] == 10 {
            return Some(i);
        }
        i += 1;
    }
    None
}

/// Checks a line for its key and hands out the value: the line must start
/// with the key and have at least one byte behind it.
pub fn process_line(content: &[u8], start: usize, end: usize, key: &[u8]) -> (r: Option<Vec<u8>>)
    requires
        start <= end <= content@.len(),
    ensures
        r matches Some(v) ==> line_value(content@.subrange(start as int, end as int), key@)
            == Some(v@),
        r is None ==> line_value(content@.subrange(start as int, end as int), key@) is None,
{
    let ghost line = content@.subrange(start as int, end as int);
    if end - start <= key.len() {
        return None;
    }
    let mut j: usize = 0;
    while j < key.len()
        invariant
            start <= end <= content@.len(),
            end - start > key@.len(),
            0 <= j <= key@.len(),
            line == content@.subrange(start as int, end as int),
            forall|t: int| 0 <= t < j ==> line[t] == key@[t],
        decreases key@.len() - j,
    {
        if content[start + j] != key[j] {
            proof {
                assert(line[j as int] != key@[j as int]);
                assert(line.take(key@.len() as int) != key@);
            }
            return None;
        }
        j += 1;
    }
    proof {
        assert(line.take(key@.len() as int) =~= key@);
    }
    let mut v: Vec<u8> = Vec::new();
    let mut t = start + key.len();
    while t < end
        invariant
            start + key@.len() <= t <= end <= content@.len(),
            line == content@.subrange(start as int, end as int),
            v@ =~= line.skip(key@.len() as int).take(t - start - key@.len()),
        decreases end - t,
    {
        v.push(content[t]);
        t += 1;
    }
    proof {
        assert(v@ =~= line.skip(key@.len() as int));
    }
    Some(v)
}

/// The four keys as runtime values.
fn key_uri_vec() -> (r: Vec<u8>)
    ensures
        r@ == key_uri(),
{
    let mut v: Vec<u8> = Vec::new();
    v.push(110);
    v.push(111);
    v.push(116);
    v.push(105);
    v.push(102);
    v.push(121);
    v.push(45);
    v.push(117);
    v.push(114);
    v.push(105);
    v.push(58);
    v.push(32);
    proof {
        assert(v@ =~= key_uri());
    }
    v
}

fn key_session_vec() -> (r: Vec<u8>)
    ensures
        r@ == key_session(),
{
    let mut v: Vec<u8> = Vec::new();
    v.push(115);
    v.push(101);
    v.push(115);
    v.push(115);
    v.push(105);
    v.push(111);
    v.push(110);
    v.push(58);
    v.push(32);
    proof {
        assert(v@ =~= key_session());
    }
    v
}

fn key_serial_vec() -> (r: Vec<u8>)
    ensures
        r@ == key_serial(),
{
    let mut v: Vec<u8> = Vec::new();
    v.push(115);
    v.push(101);
    v.push(114);
    v.push(105);
    v.push(97);
    v.push(108);
    v.push(58);
    v.push(32);
    proof {
        assert(v@ =~= key_serial());
    }
    v
}

fn key_hash_vec() -> (r: Vec<u8>)
    ensures
        r@ == key_hash(),
{
    let mut v: Vec<u8> = Vec::new();
    v.push(104);
    v.push(97);
    v.push(115);
    v.push(104);
    v.push(58);
    v.push(32);
    proof {
        assert(v@ =~= key_hash());
    }
    v
}

/// Appends a byte string to the buffer under construction.
fn push_all(out: &mut Vec<u8>, b: &[u8])
    ensures
        final(out)@ == old(out)@ + b@,
{
    let mut i: usize = 0;
    while i < b.len()
        invariant
            0 <= i <= b@.len(),
            out@ =~= old(out)@ + b@.take(i as int),
        decreases b@.len() - i,
    {
        out.push(b[i]);
        i += 1;
    }
    proof {
        assert(b@.take(b@.len() as int) =~= b@);
    }
}

impl ServerState {
    /// Reads a state from the bytes of its file. Returns the state the
    /// file denotes, or `None` for any file that is not exactly a saved
    /// state: extra, missing or reordered lines, unknown keys, malformed
    /// or trailing bytes.
    #[verifier::rlimit(60)]
    pub fn load(content: &[u8]) -> (r: Option<ServerState>)
        ensures
            r matches Some(st) ==> spec_parse_state(content@) == Some(st@),
            r is None ==> spec_parse_state(content@) is None,
    {
        let ghost c = content@;
        let clen = content.len();
        proof {
            assert(c.len() == clen);
        }
        let n1 = match find_nl(content, 0) {
            Some(i) => i,
            None => {
                proof {
                    lemma_first_nl_none(c);
                }
                return None;
            }
        };
        proof {
            lemma_first_nl_at(c, n1 as int);
            assert(c.take(n1 as int) =~= c.subrange(0, n1 as int));
        }
        let key1 = key_uri_vec();
        let uri_v = match process_line(content, 0, n1, key1.as_slice()) {
            Some(v) => v,
            None => {
                return None;
            }
        };
        if !uri::is_https_uri(uri_v.as_slice()) {
            return None;
        }
        let ghost r1 = c.skip(n1 + 1);
        let n2 = match find_nl(content, n1 + 1) {
            Some(i) => i,
            None => {
                proof {
                    assert forall|j: int| 0 <= j < r1.len() implies r1[j] != 10 by {
                        assert(r1[j] == c[n1 + 1 + j]);
                    }
                    lemma_first_nl_none(r1);
                }
                return None;
            }
        };
        proof {
            assert forall|j: int| 0 <= j < n2 - (n1 + 1) implies r1[j] != 10 by {
                assert(r1[j] == c[n1 + 1 + j]);
            }
            assert(r1[n2 - (n1 + 1)] == c[n2 as int]);
            lemma_first_nl_at(r1, n2 - (n1 + 1));
            assert(r1.take(n2 - (n1 + 1)) =~= c.subrange(n1 + 1, n2 as int));
        }
        let key2 = key_session_vec();
        let sess_v = match process_line(content, n1 + 1, n2, key2.as_slice()) {
            Some(v) => v,
            None => {
                return None;
            }
        };
        let sess = match session::parse_session(sess_v.as_slice()) {
            Some(u) => u,
            None => {
                return None;
            }
        };
        let ghost r2 = r1.skip(n2 - (n1 + 1) + 1);
        proof {
            assert(r2 =~= c.skip(n2 + 1));
        }
        let n3 = match find_nl(content, n2 + 1) {
            Some(i) => i,
            None => {
                proof {
                    assert forall|j: int| 0 <= j < r2.len() implies r2[j] != 10 by {
                        assert(r2[j] == c[n2 + 1 + j]);
                    }
                    lemma_first_nl_none(r2);
                }
                return None;
            }
        };
        proof {
            assert forall|j: int| 0 <= j < n3 - (n2 + 1) implies r2[j] != 10 by {
                assert(r2[j] == c[n2 + 1 + j]);
            }
            assert(r2[n3 - (n2 + 1)] == c[n3 as int]);
            lemma_first_nl_at(r2, n3 - (n2 + 1));
            assert(r2.take(n3 - (n2 + 1)) =~= c.subrange(n2 + 1, n3 as int));
        }
        let key3 = key_serial_vec();
        let ser_v = match process_line(content, n2 + 1, n3, key3.as_slice()) {
            Some(v) => v,
            None => {
                return None;
            }
        };
        let serial = match hexnum::parse_u64(ser_v.as_slice()) {
            Some(n) => n,
            None => {
                return None;
            }
        };
        let ghost r3 = r2.skip(n3 - (n2 + 1) + 1);
        proof {
            assert(r3 =~= c.skip(n3 + 1));
        }
        let n4 = match find_nl(content, n3 + 1) {
            Some(i) => i,
            None => {
                proof {
                    assert forall|j: int| 0 <= j < r3.len() implies r3[j] != 10 by {
                        assert(r3[j] == c[n3 + 1 + j]);
                    }
                    lemma_first_nl_none(r3);
                }
                return None;
            }
        };
        proof {
            assert forall|j: int| 0 <= j < n4 - (n3 + 1) implies r3[j] != 10 by {
                assert(r3[j] == c[n3 + 1 + j]);
            }
            assert(r3[n4 - (n3 + 1)] == c[n4 as int]);
            lemma_first_nl_at(r3, n4 - (n3 + 1));
            assert(r3.take(n4 - (n3 + 1)) =~= c.subrange(n3 + 1, n4 as int));
        }
        let key4 = key_hash_vec();
        let hash_v = match process_line(content, n3 + 1, n4, key4.as_slice()) {
            Some(v) => v,
            None => {
                return None;
            }
        };
        let ghost r4 = r3.skip(n4 - (n3 + 1) + 1);
        proof {
            assert(r4 =~= c.skip(n4 + 1));
        }
        if hash_v.len() != 64 {
            return None;
        }
        let hash = match hexnum::hex_decode(hash_v.as_slice()) {
            Some(h) => h,
            None => {
                return None;
            }
        };
        if n4 + 1 != content.len() {
            return None;
        }
        proof {
            assert(r4.len() == 0);
        }
        Some(ServerState { notify_uri: uri_v, session: sess, serial, hash })
    }

    /// Renders the state as the bytes of its file: the four lines, each
    /// `key: value`, each ended by a newline.
    pub fn save(&self) -> (r: Vec<u8>)
        ensures
            r@ == spec_state_bytes(self@),
            session_render_ok(self.session),
    {
        let mut out = key_uri_vec();
        push_all(&mut out, self.notify_uri.as_slice());
        out.push(10);
        let key2 = key_session_vec();
        push_all(&mut out, key2.as_slice());
        let sess = session::format_session(self.session);
        push_all(&mut out, sess.as_slice());
        out.push(10);
        let key3 = key_serial_vec();
        push_all(&mut out, key3.as_slice());
        let ser = hexnum::format_u64(self.serial);
        push_all(&mut out, ser.as_slice());
        out.push(10);
        let key4 = key_hash_vec();
        push_all(&mut out, key4.as_slice());
        let hash = hexnum::hex_encode(self.hash.as_slice());
        push_all(&mut out, hash.as_slice());
        out.push(10);
        proof {
            assert(out@ =~= spec_state_bytes(self@));
        }
        out
    }
}

/// Saving then loading gives the state back: the file of a well-formed
/// state parses to exactly that state. The session hypothesis is what the
/// session renderer promises of every value it renders.
#[verifier::rlimit(100)]
pub proof fn lemma_state_round_trip(v: StateView)
    ensures
        state_view_wf(v) && session_render_ok(v.session) ==> spec_parse_state(spec_state_bytes(v))
            == Some(v),
{
    if state_view_wf(v) && session_render_ok(v.session) {
        let c = spec_state_bytes(v);
        let sess_b = session::uuid_bytes_of(v.session);
        let ser_b = hexnum::dec_of(v.serial);
        let hash_b = hexnum::hex_of(v.hash);
        hexnum::lemma_dec_of(v.serial);
        hexnum::lemma_hex_of_index(v.hash);
        hexnum::lemma_hex_round_trip(v.hash);
        let line1 = key_uri() + v.notify_uri;
        let line2 = key_session() + sess_b;
        let line3 = key_serial() + ser_b;
        let line4 = key_hash() + hash_b;
        let n1 = line1.len() as int;
        let n2 = line2.len() as int;
        let n3 = line3.len() as int;
        let n4 = line4.len() as int;
        assert(c =~= line1 + seq![10u8] + (line2 + seq![10u8] + (line3 + seq![10u8] + (line4
            + seq![10u8]))));
        let r1 = line2 + seq![10u8] + (line3 + seq![10u8] + (line4 + seq![10u8]));
        let r2 = line3 + seq![10u8] + (line4 + seq![10u8]);
        let r3 = line4 + seq![10u8];
        let r4 = Seq::<u8>::empty();
        assert forall|j: int| 0 <= j < n1 implies c[j] != 10 by {
            if j < key_uri().len() {
                assert(c[j] == key_uri()[j]);
            } else {
                assert(c[j] == v.notify_uri[j - key_uri().len()]);
                assert(uri::is_uri_byte(v.notify_uri[j - key_uri().len()]));
            }
        }
        lemma_first_nl_at(c, n1);
        assert(split_line(c) == Some((c.take(n1), c.skip(n1 + 1))));
        assert(c.take(n1) =~= line1);
        assert(c.skip(n1 + 1) =~= r1);
        assert(line1.take(key_uri().len() as int) =~= key_uri());
        assert(line1.skip(key_uri().len() as int) =~= v.notify_uri);
        assert(line_value(line1, key_uri()) == Some(v.notify_uri));

        assert forall|j: int| 0 <= j < n2 implies r1[j] != 10 by {
            if j < key_session().len() {
                assert(r1[j] == key_session()[j]);
            } else {
                assert(r1[j] == sess_b[j - key_session().len()]);
                assert(session::is_uuid_byte(sess_b[j - key_session().len()]));
            }
        }
        assert(r1[n2] == 10);
        lemma_first_nl_at(r1, n2);
        assert(r1.take(n2) =~= line2);
        assert(r1.skip(n2 + 1) =~= r2);
        assert(line2.take(key_session().len() as int) =~= key_session());
        assert(line2.skip(key_session().len() as int) =~= sess_b);
        assert(line_value(line2, key_session()) == Some(sess_b));
        assert(session::uuid_of(sess_b) == Some(v.session));

        assert forall|j: int| 0 <= j < n3 implies r2[j] != 10 by {
            if j < key_serial().len() {
                assert(r2[j] == key_serial()[j]);
            } else {
                assert(r2[j] == ser_b[j - key_serial().len()]);
                assert(hexnum::is_dec_digit(ser_b[j - key_serial().len()]));
            }
        }
        assert(r2[n3] == 10);
        lemma_first_nl_at(r2, n3);
        assert(r2.take(n3) =~= line3);
        assert(r2.skip(n3 + 1) =~= r3);
        assert(line3.take(key_serial().len() as int) =~= key_serial());
        assert(line3.skip(key_serial().len() as int) =~= ser_b);
        assert(line_value(line3, key_serial()) == Some(ser_b));
        assert(hexnum::dec_val(ser_b) == v.serial as nat);

        assert forall|j: int| 0 <= j < n4 implies r3[j] != 10 by {
            if j < key_hash().len() {
                assert(r3[j] == key_hash()[j]);
            } else {
                assert(r3[j] == hash_b[j - key_hash().len()]);
                assert(hexnum::is_hex_digit(hash_b[j - key_hash().len()]));
            }
        }
        assert(r3[n4] == 10);
        lemma_first_nl_at(r3, n4);
        assert(r3.take(n4) =~= line4);
        assert(r3.skip(n4 + 1) =~= r4);
        assert(line4.take(key_hash().len() as int) =~= key_hash());
        assert(line4.skip(key_hash().len() as int) =~= hash_b);
        assert(line_value(line4, key_hash()) == Some(hash_b));
        assert(hash_b.len() == 64);
        assert(hexnum::hex_val_bytes(hash_b) =~= v.hash);
        assert(spec_parse_state(c) == Some(
            StateView {
                notify_uri: v.notify_uri,
                session: v.session,
                serial: (hexnum::dec_val(ser_b) as u64),
                hash: hexnum::hex_val_bytes(hash_b),
            },
        ));
    }
}

} // verus!
