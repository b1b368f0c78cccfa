//! Splitting a command line into tokens, and reading the numeric fields.
//!
//! A numeric field is a one-byte tag followed by a decimal literal: an
//! optional sign, digits, and at most one point followed by at most six
//! fractional digits. Its value is kept in millionths.
use vstd::prelude::*;
use crate::geometry::{in_range, SCALE};

verus! {

/// ASCII whitespace: space, tab, line feed, vertical tab, form feed, return.
pub open spec fn is_space(b: u8) -> bool {
    b == 32 || (9 <= b && b <= 13)
}

/// The whitespace-separated tokens of `s`, in order.
pub open spec fn tokens(s: Seq<u8>) -> Seq<Seq<u8>>
    decreases s.len(),
{
    if s.len() == 0 {
        seq![]
    } else {
        let p = s.drop_last();
        let c = s.last();
        let t = tokens(p);
        if is_space(c) {
            t
        } else if p.len() > 0 && !is_space(p.last()) {
            t.update(t.len() - 1, t.last().push(c))
        } else {
            t.push(seq![c])
        }
    }
}

fn space(b: u8) -> (r: bool)
    ensures
        r == is_space(b),
{
    b == 32 || (9 <= b && b <= 13)
}

/// Splits a line into its whitespace-separated tokens.
pub fn split_tokens(s: &[u8]) -> (r: Vec<Vec<u8>>)
    ensures
        r@.map_values(|t: Vec<u8>| t@) == tokens(s@),
{
    let mut out: Vec<Vec<u8>> = Vec::new();
    let mut cur: Vec<u8> = Vec::new();
    let mut inside = false;
    let mut i: usize = 0;
    while i < s.len()
        invariant
            i <= s@.len(),
            inside == (i > 0 && !is_space(s@[i - 1])),
            inside ==> tokens(s@.subrange(0, i as int)) == out@.map_values(|t: Vec<u8>| t@).push(
                cur@,
            ),
            !inside ==> tokens(s@.subrange(0, i as int)) == out@.map_values(|t: Vec<u8>| t@),
        decreases s@.len() - i,
    {
        let c = s[i];
        let ghost p = s@.subrange(0, i as int);
        assert(s@.subrange(0, i + 1).drop_last() =~= p);
        assert(s@.subrange(0, i + 1).last() == c);
        if space(c) {
            if inside {
                let ghost before = out@.map_values(|t: Vec<u8>| t@);
                let ghost cv = cur@;
                let done = cur;
                cur = Vec::new();
                out.push(done);
                assert(out@.map_values(|t: Vec<u8>| t@) =~= before.push(cv));
            }
            inside = false;
        } else {
            if inside {
                cur.push(c);
                proof {
                    let t = tokens(p);
                    assert(t.update(t.len() - 1, t.last().push(c)) =~= out@.map_values(
                        |t: Vec<u8>| t@,
                    ).push(cur@));
                }
            } else {
                cur = Vec::new();
                cur.push(c);
                assert(tokens(p).push(seq![c]) =~= out@.map_values(|t: Vec<u8>| t@).push(cur@));
            }
            inside = true;
        }
        i = i + 1;
    }
    assert(s@.subrange(0, s@.len() as int) =~= s@);
    if inside {
        let ghost before = out@.map_values(|t: Vec<u8>| t@);
        let ghost cv = cur@;
        out.push(cur);
        assert(out@.map_values(|t: Vec<u8>| t@) =~= before.push(cv));
    }
    out
}

pub open spec fn is_digit(b: u8) -> bool {
    48 <= b && b <= 57
}

pub open spec fn all_digits(s: Seq<u8>) -> bool {
    forall|k: int| 0 <= k < s.len() ==> is_digit(#[trigger] s[k])
}

/// Value of a string of decimal digits.
pub open spec fn digits_value(s: Seq<u8>) -> int
    decreases s.len(),
{
    if s.len() == 0 {
        0
    } else {
        digits_value(s.drop_last()) * 10 + (s.last() - 48)
    }
}

/// Number of digits at the front of `s`.
pub open spec fn leading_digits(s: Seq<u8>) -> nat
    decreases s.len(),
{
    if s.len() > 0 && is_digit(s[0]) {
        1 + leading_digits(s.drop_first())
    } else {
        0
    }
}

pub open spec fn pow10(n: nat) -> int
    decreases n,
{
    if n == 0 { 1 } else { 10 * pow10((n - 1) as nat) }
}

/// Value in millionths of an unsigned literal: digits, optionally followed
/// by a point and at most six digits, with at least one digit in all.
pub open spec fn unsigned_micros(b: Seq<u8>) -> Option<int> {
    let n = leading_digits(b) as int;
    let ip = b.subrange(0, n);
    if n == b.len() {
        if n >= 1 { Some(digits_value(ip) * SCALE) } else { None }
    } else if b[n] == 46 {
        let fp = b.subrange(n + 1, b.len() as int);
        if all_digits(fp) && fp.len() <= 6 && n + fp.len() >= 1 {
            Some(digits_value(ip) * SCALE + digits_value(fp) * pow10((6 - fp.len()) as nat))
        } else {
            None
        }
    } else {
        None
    }
}

/// Value in millionths of a literal with an optional sign.
pub open spec fn literal_micros(s: Seq<u8>) -> Option<int> {
    if s.len() > 0 && s[0] == 45 {
        match unsigned_micros(s.drop_first()) {
            Some(v) => Some(-v),
            None => None,
        }
    } else if s.len() > 0 && s[0] == 43 {
        unsigned_micros(s.drop_first())
    } else {
        unsigned_micros(s)
    }
}

/// Value of a tagged numeric field: the literal after its one-byte tag, when
/// it is well formed and within the model's range.
pub open spec fn field_micros(t: Seq<u8>) -> Option<int> {
    if t.len() >= 1 {
        match literal_micros(t.drop_first()) {
            Some(v) => if in_range(v) { Some(v) } else { None },
            None => None,
        }
    } else {
        None
    }
}

/// A field's value from its unsigned literal and its sign.
spec fn signed_of(u: Option<int>, neg: bool) -> Option<int> {
    match u {
        Some(v) => {
            let w = if neg { -v } else { v };
            if in_range(w) { Some(w) } else { None }
        },
        None => None,
    }
}

proof fn lemma_leading_digits(s: Seq<u8>, n: int)
    requires
        0 <= n <= s.len(),
        forall|k: int| 0 <= k < n ==> is_digit(#[trigger] s[k]),
        n == s.len() || !is_digit(s[n]),
    ensures
        leading_digits(s) == n,
    decreases n,
{
    if n > 0 {
        assert(forall|k: int| 0 <= k < n - 1 ==> s.drop_first()[k] == s[k + 1]);
        lemma_leading_digits(s.drop_first(), n - 1);
    }
}

spec fn pow10_table() -> bool {
    &&& pow10(0) == 1
    &&& pow10(1) == 10
    &&& pow10(2) == 100
    &&& pow10(3) == 1_000
    &&& pow10(4) == 10_000
    &&& pow10(5) == 100_000
    &&& pow10(6) == 1_000_000
}

proof fn lemma_pow10_table()
    ensures
        pow10_table(),
{
    reveal_with_fuel(pow10, 7);
}

/// Cap above which the whole part of a literal is out of range.
const WHOLE_CAP: u64 = 1_000_001;

/// Reads the numeric field `t` (tag byte first): its value in millionths,
/// or `None` when the literal is malformed or out of range.
pub fn parse_field(t: &[u8]) -> (r: Option<i64>)
    ensures
        match field_micros(t@) {
            Some(v) => r == Some(v as i64),
            None => r is None,
        },
{
    let len = t.len();
    if len < 1 {
        return None;
    }
    let ghost s = t@.drop_first();
    let mut i: usize = 1;
    let mut neg = false;
    if i < len && t[i] == 45 {
        neg = true;
        i = i + 1;
    } else if i < len && t[i] == 43 {
        i = i + 1;
    }
    let b0 = i;
    let ghost b = t@.subrange(b0 as int, len as int);
    proof {
        lemma_pow10_table();
        if neg {
            assert(b =~= s.drop_first());
        } else if b0 == 2 {
            assert(b =~= s.drop_first());
        } else {
            assert(b =~= s);
        }
        assert(field_micros(t@) == signed_of(unsigned_micros(b), neg));
    }
    // whole part, capped
    let mut whole: u64 = 0;
    while i < len && 48 <= t[i] && t[i] <= 57
        invariant
            b0 <= i <= len,
            len == t@.len(),
            b == t@.subrange(b0 as int, len as int),
            forall|k: int| b0 <= k < i ==> is_digit(#[trigger] t@[k]),
            whole == if digits_value(t@.subrange(b0 as int, i as int)) < WHOLE_CAP {
                digits_value(t@.subrange(b0 as int, i as int))
            } else {
                WHOLE_CAP as int
            },
        decreases len - i,
    {
        let ghost pre = t@.subrange(b0 as int, i as int);
        assert(t@.subrange(b0 as int, i + 1).drop_last() =~= pre);
        let d = (t[i] - 48) as u64;
        if whole < WHOLE_CAP {
            let w = whole * 10 + d;
            whole = if w < WHOLE_CAP { w } else { WHOLE_CAP };
        }
        i = i + 1;
    }
    let n = i - b0;
    proof {
        assert forall|k: int| 0 <= k < n implies is_digit(#[trigger] b[k]) by {
            assert(b[k] == t@[b0 + k]);
        }
        lemma_leading_digits(b, n as int);
        assert(b.subrange(0, n as int) =~= t@.subrange(b0 as int, i as int));
    }
    let mut frac: u64 = 0;
    if i == len {
        if n == 0 {
            return None;
        }
    } else if t[i] == 46 {
        i = i + 1;
        let f0 = i;
        assert(b[n as int] == 46);
        assert(b.subrange(n + 1, b.len() as int) =~= t@.subrange(f0 as int, len as int));
        while i < len
            invariant
                f0 <= i <= len,
                len == t@.len(),
                i - f0 <= 6,
                forall|k: int| f0 <= k < i ==> is_digit(#[trigger] t@[k]),
                frac == digits_value(t@.subrange(f0 as int, i as int)),
                frac < pow10((i - f0) as nat),
                pow10_table(),
                b == t@.subrange(b0 as int, len as int),
                f0 == b0 + n + 1,
                leading_digits(b) == n,
                n < b.len(),
                b[n as int] == 46,
                field_micros(t@) == signed_of(unsigned_micros(b), neg),
            decreases len - i,
        {
            if !(48 <= t[i] && t[i] <= 57) {
                proof {
                    let fp = b.subrange(n + 1, b.len() as int);
                    assert(fp[i - f0] == t@[i as int]);
                    assert(!all_digits(fp));
                }
                return None;
            }
            if i - f0 == 6 {
                assert(b.subrange(n + 1, b.len() as int).len() > 6);
                return None;
            }
            let ghost pre = t@.subrange(f0 as int, i as int);
            assert(t@.subrange(f0 as int, i + 1).drop_last() =~= pre);
            assert(pow10((i + 1 - f0) as nat) == 10 * pow10((i - f0) as nat));
            frac = frac * 10 + (t[i] - 48) as u64;
            i = i + 1;
        }
        let fd = i - f0;
        let mut k: usize = fd;
        proof {
            let fp = t@.subrange(f0 as int, len as int);
            assert forall|j: int| 0 <= j < fp.len() implies is_digit(#[trigger] fp[j]) by {
                assert(fp[j] == t@[f0 + j]);
            }
            assert(t@.subrange(f0 as int, i as int) =~= fp);
        }
        if n + fd == 0 {
            return None;
        }
        let ghost fv = frac as int;
        while k < 6
            invariant
                fd <= k <= 6,
                frac == fv * pow10((k - fd) as nat),
                frac < pow10(k as nat),
                pow10_table(),
            decreases 6 - k,
        {
            let ghost p = pow10((k - fd) as nat);
            assert(pow10((k + 1 - fd) as nat) == 10 * p);
            assert(pow10((k + 1) as nat) == 10 * pow10(k as nat));
            assert(frac * 10 == fv * pow10((k + 1 - fd) as nat)) by (nonlinear_arith)
                requires frac == fv * p, pow10((k + 1 - fd) as nat) == 10 * p;
            frac = frac * 10;
            k = k + 1;
        }
    } else {
        return None;
    }
    if whole >= WHOLE_CAP {
        return None;
    }
    let mag: i64 = (whole as i64) * SCALE + (frac as i64);
    if mag > 1_000_000_000_000 {
        return None;
    }
    if neg { Some(-mag) } else { Some(mag) }
}

} // verus!
