//! Byte-level codecs for the plain-text state file: decimal unsigned
//! integers and lowercase hexadecimal byte strings.

use vstd::prelude::*;

verus! {

/// A decimal digit byte, `'0'` through `'9'`.
pub open spec fn is_dec_digit(b: u8) -> bool {
    48 <= b <= 57
}

/// Numeric value of a decimal digit byte.
pub open spec fn dec_digit_val(b: u8) -> nat
    recommends
        is_dec_digit(b),
{
    (b - 48) as nat
}

/// A non-empty, all-digit byte sequence.
pub open spec fn is_dec_seq(s: Seq<u8>) -> bool {
    s.len() > 0 && forall|i: int| 0 <= i < s.len() ==> is_dec_digit(#[trigger] s[i])
}

/// The number a digit sequence denotes, most significant digit first.
pub open spec fn dec_val(s: Seq<u8>) -> nat
    decreases s.len(),
{
    if s.len() == 0 {
        0
    } else {
        dec_val(s.drop_last()) * 10 + dec_digit_val(s.last())
    }
}

/// Prefixes of a digit sequence denote no more than the whole.
pub proof fn lemma_dec_val_mono(s: Seq<u8>, i: int)
    requires
        0 <= i <= s.len(),
    ensures
        dec_val(s.take(i)) <= dec_val(s),
    decreases s.len() - i,
{
    if i < s.len() {
        lemma_dec_val_mono(s, i + 1);
        assert(s.take(i + 1).drop_last() =~= s.take(i));
        assert(dec_val(s.take(i + 1)) == dec_val(s.take(i)) * 10 + dec_digit_val(s.take(i + 1).last()));
    } else {
        assert(s.take(i) =~= s);
    }
}

/// Parses a decimal unsigned integer, rejecting empty input, non-digit
/// bytes, and values that do not fit in a `u64`.
pub fn parse_u64(s: &[u8]) -> (r: Option<u64>)
    ensures
        r is Some <==> is_dec_seq(s@) && dec_val(s@) <= u64::MAX,
        r matches Some(v) ==> v as nat == dec_val(s@),
{
    if s.len() == 0 {
        return None;
    }
    let mut acc: u64 = 0;
    let mut i: usize = 0;
    while i < s.len()
        invariant
            0 <= i <= s@.len(),
            forall|j: int| 0 <= j < i ==> is_dec_digit(#[trigger] s@[j]),
            acc as nat == dec_val(s@.take(i as int)),
        decreases s@.len() - i,
    {
        let b = s[i];
        if b < 48 || b > 57 {
            return None;
        }
        let d: u64 = (b - 48) as u64;
        let step = match acc.checked_mul(10) {
            Some(m) => m.checked_add(d),
            None => None,
        };
        proof {
            assert(s@.take(i + 1).drop_last() =~= s@.take(i as int));
            assert(dec_val(s@.take(i + 1)) == acc as nat * 10 + d as nat);
        }
        match step {
            Some(next) => {
                acc = next;
            }
            None => {
                proof {
                    lemma_dec_val_mono(s@, i + 1);
                }
                return None;
            }
        }
        i += 1;
    }
    proof {
        assert(s@.take(s@.len() as int) =~= s@);
    }
    Some(acc)
}

/// The canonical decimal rendering of `n`: no leading zeros.
pub open spec fn dec_of(n: u64) -> Seq<u8>
    decreases n,
{
    if n < 10 {
        seq![(48 + n) as u8]
    } else {
        dec_of(n / 10).push((48 + n % 10) as u8)
    }
}

/// The canonical rendering is all digits and denotes its number.
pub proof fn lemma_dec_of(n: u64)
    ensures
        is_dec_seq(dec_of(n)),
        dec_val(dec_of(n)) == n as nat,
    decreases n,
{
    if n < 10 {
        assert(dec_of(n).drop_last() =~= Seq::<u8>::empty());
        assert(dec_val(dec_of(n)) == dec_val(dec_of(n).drop_last()) * 10 + dec_digit_val(
            dec_of(n).last(),
        ));
    } else {
        lemma_dec_of(n / 10);
        assert(dec_of(n).drop_last() =~= dec_of(n / 10));
        assert(dec_of(n).last() == (48 + n % 10) as u8);
        assert(dec_val(dec_of(n)) == dec_val(dec_of(n).drop_last()) * 10 + dec_digit_val(
            dec_of(n).last(),
        ));
        assert(dec_val(dec_of(n)) == (n / 10) as nat * 10 + (n % 10) as nat);
    }
}

/// Renders `n` in decimal, without leading zeros.
pub fn format_u64(n: u64) -> (r: Vec<u8>)
    ensures
        r@ == dec_of(n),
        is_dec_seq(r@),
        dec_val(r@) == n as nat,
        r@[0] == 48 <==> n == 0,
    decreases n,
{
    if n < 10 {
        let mut out: Vec<u8> = Vec::new();
        out.push((48 + n) as u8);
        proof {
            assert(out@.drop_last() =~= Seq::<u8>::empty());
            assert(dec_val(Seq::<u8>::empty()) == 0);
            assert(dec_val(out@) == dec_val(out@.drop_last()) * 10 + dec_digit_val(out@.last()));
            assert(out@ =~= dec_of(n));
        }
        out
    } else {
        let mut out = format_u64(n / 10);
        let d = (48 + n % 10) as u8;
        let ghost prev = out@;
        out.push(d);
        proof {
            assert(out@.drop_last() =~= prev);
        }
        out
    }
}

/// A lowercase hexadecimal digit byte.
pub open spec fn is_hex_digit(b: u8) -> bool {
    (48 <= b <= 57) || (97 <= b <= 102)
}

/// Numeric value of a lowercase hexadecimal digit byte.
pub open spec fn hex_digit_val(b: u8) -> nat
    recommends
        is_hex_digit(b),
{
    if 48 <= b <= 57 {
        (b - 48) as nat
    } else {
        (b - 87) as nat
    }
}

/// The lowercase digit byte for a value below sixteen.
pub open spec fn hex_digit_of(v: nat) -> u8
    recommends
        v < 16,
{
    if v < 10 {
        (48 + v) as u8
    } else {
        (87 + v) as u8
    }
}

/// Lowercase hexadecimal rendering of a byte sequence, two digits a byte.
pub open spec fn hex_of(b: Seq<u8>) -> Seq<u8>
    decreases b.len(),
{
    if b.len() == 0 {
        Seq::empty()
    } else {
        hex_of(b.drop_last()) + seq![
            hex_digit_of(b.last() as nat / 16),
            hex_digit_of(b.last() as nat % 16),
        ]
    }
}

/// The bytes a hexadecimal digit sequence denotes, pairwise.
pub open spec fn hex_val_bytes(s: Seq<u8>) -> Seq<u8> {
    Seq::new(s.len() / 2, |i: int| (hex_digit_val(s[2 * i]) * 16 + hex_digit_val(s[2 * i + 1])) as u8)
}

/// An all-hexadecimal byte sequence.
pub open spec fn is_hex_seq(s: Seq<u8>) -> bool {
    forall|i: int| 0 <= i < s.len() ==> is_hex_digit(#[trigger] s[i])
}

/// Shape of a hexadecimal rendering: twice the length, digits throughout,
/// and each digit pair denoting its source byte.
pub proof fn lemma_hex_of_index(b: Seq<u8>)
    ensures
        hex_of(b).len() == 2 * b.len(),
        is_hex_seq(hex_of(b)),
        forall|i: int| 0 <= i < b.len() ==> #[trigger] hex_of(b)[2 * i] == hex_digit_of(b[i] as nat / 16),
        forall|i: int| 0 <= i < b.len() ==> #[trigger] hex_of(b)[2 * i + 1] == hex_digit_of(b[i] as nat % 16),
    decreases b.len(),
{
    if b.len() > 0 {
        lemma_hex_of_index(b.drop_last());
        assert forall|i: int| 0 <= i < b.len() implies #[trigger] hex_of(b)[2 * i]
            == hex_digit_of(b[i] as nat / 16) && hex_of(b)[2 * i + 1] == hex_digit_of(b[i] as nat % 16) by {
            if i < b.len() - 1 {
                assert(b.drop_last()[i] == b[i]);
            }
        }
    }
}

/// Decoding inverts encoding.
pub proof fn lemma_hex_round_trip(b: Seq<u8>)
    ensures
        hex_val_bytes(hex_of(b)) =~= b,
{
    lemma_hex_of_index(b);
}

/// Renders a byte string in lowercase hexadecimal.
pub fn hex_encode(b: &[u8]) -> (r: Vec<u8>)
    ensures
        r@ == hex_of(b@),
{
    let mut out: Vec<u8> = Vec::new();
    let mut i: usize = 0;
    while i < b.len()
        invariant
            0 <= i <= b@.len(),
            out@ =~= hex_of(b@.take(i as int)),
        decreases b@.len() - i,
    {
        let v = b[i];
        let hi = v / 16;
        let lo = v % 16;
        out.push(if hi < 10 { (48 + hi) as u8 } else { (97 + (hi - 10)) as u8 });
        out.push(if lo < 10 { (48 + lo) as u8 } else { (97 + (lo - 10)) as u8 });
        proof {
            assert(b@.take(i + 1).drop_last() =~= b@.take(i as int));
            assert(b@.take(i + 1).last() == b@[i as int]);
        }
        i += 1;
    }
    proof {
        assert(b@.take(b@.len() as int) =~= b@);
    }
    out
}

/// Parses a lowercase hexadecimal byte string; rejects odd length and
/// any byte that is not a lowercase hexadecimal digit.
pub fn hex_decode(s: &[u8]) -> (r: Option<Vec<u8>>)
    ensures
        r is Some <==> s@.len() % 2 == 0 && is_hex_seq(s@),
        r matches Some(v) ==> v@ == hex_val_bytes(s@),
{
    if s.len() % 2 != 0 {
        return None;
    }
    let mut out: Vec<u8> = Vec::new();
    let mut i: usize = 0;
    while i < s.len()
        invariant
            0 <= i <= s@.len(),
            i % 2 == 0,
            s@.len() % 2 == 0,
            forall|j: int| 0 <= j < i ==> is_hex_digit(#[trigger] s@[j]),
            out@ =~= hex_val_bytes(s@).take(i as int / 2),
        decreases s@.len() - i,
    {
        proof {
            assert(i + 1 < s@.len());
        }
        let hi = s[i];
        let lo = s[i + 1];
        let hv = if 48 <= hi && hi <= 57 {
            hi - 48
        } else if 97 <= hi && hi <= 102 {
            hi - 87
        } else {
            return None;
        };
        let lv = if 48 <= lo && lo <= 57 {
            lo - 48
        } else if 97 <= lo && lo <= 102 {
            lo - 87
        } else {
            return None;
        };
        out.push(hv * 16 + lv);
        proof {
            assert(hex_val_bytes(s@).take(i as int / 2 + 1)
                =~= hex_val_bytes(s@).take(i as int / 2).push(hex_val_bytes(s@)[i as int / 2]));
        }
        i += 2;
    }
    proof {
        assert(hex_val_bytes(s@).take(s@.len() as int / 2) =~= hex_val_bytes(s@));
    }
    Some(out)
}

} // verus!
