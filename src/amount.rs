//! Fixed-point amounts: text such as `1.5` read as a count of
//! ten-thousandths of a unit, and counts split back into whole units and
//! ten-thousandths for display.
use vstd::prelude::*;

verus! {

/// Ten-thousandths in one unit.
pub const SCALE: u64 = 10000;

/// The largest number of whole units that a count of ten-thousandths in an
/// `i64` can hold.
pub const MAX_WHOLE: u64 = 922337203685477;

pub open spec fn is_digit(b: u8) -> bool {
    48 <= b <= 57
}

pub open spec fn all_digits(s: Seq<u8>) -> bool {
    forall|i: int| 0 <= i < s.len() ==> is_digit(#[trigger] s[i])
}

/// The number that the decimal digits of `s` denote, most significant first.
pub open spec fn digits_value(s: Seq<u8>) -> nat
    decreases s.len(),
{
    if s.len() == 0 {
        0
    } else {
        digits_value(s.drop_last()) * 10 + (s.last() - 48) as nat
    }
}

pub open spec fn pow10(n: nat) -> nat
    decreases n,
{
    if n == 0 {
        1
    } else {
        10 * pow10((n - 1) as nat)
    }
}

/// `s` is `D.F` with the point at `k`: `D` one digit or more, `F` one to
/// four digits.
pub open spec fn point_at(s: Seq<u8>, k: int) -> bool {
    &&& 0 < k
    &&& k + 1 < s.len() <= k + 5
    &&& s[k] == 46
    &&& all_digits(s.take(k))
    &&& all_digits(s.skip(k + 1))
}

/// The count of ten-thousandths that text `s` denotes, where `s` is a
/// decimal number: one digit or more, then optionally a point and one to
/// four digits.
pub open spec fn amount_of(s: Seq<u8>) -> Option<int> {
    if s.len() > 0 && all_digits(s) {
        Some(digits_value(s) * SCALE)
    } else if exists|k: int| point_at(s, k) {
        let k = choose|k: int| point_at(s, k);
        Some(
            digits_value(s.take(k)) * SCALE + digits_value(s.skip(k + 1)) * pow10(
                (4 - (s.len() - k - 1)) as nat,
            ),
        )
    } else {
        None
    }
}

proof fn lemma_digits_value_grows(s: Seq<u8>, j: int)
    requires
        0 <= j <= s.len(),
        all_digits(s),
    ensures
        digits_value(s.take(j)) <= digits_value(s),
    decreases s.len(),
{
    if j < s.len() {
        assert(s.drop_last().take(j) == s.take(j));
        lemma_digits_value_grows(s.drop_last(), j);
    } else {
        assert(s.take(j) == s);
    }
}

/// The number that the bytes `s[lo..hi]` denote, where they are all decimal
/// digits and that number is at most `MAX_WHOLE`.
fn digits_in(s: &[u8], lo: usize, hi: usize) -> (r: Option<u64>)
    requires
        lo <= hi <= s@.len(),
    ensures
        r == (if all_digits(s@.subrange(lo as int, hi as int)) && digits_value(
            s@.subrange(lo as int, hi as int),
        ) <= MAX_WHOLE {
            Some(digits_value(s@.subrange(lo as int, hi as int)) as u64)
        } else {
            None
        }),
{
    let ghost t = s@.subrange(lo as int, hi as int);
    let mut v: u64 = 0;
    let mut i: usize = lo;
    while i < hi
        invariant
            lo <= i <= hi <= s@.len(),
            t == s@.subrange(lo as int, hi as int),
            all_digits(t.take(i - lo)),
            v == digits_value(t.take(i - lo)),
            v <= MAX_WHOLE,
        decreases hi - i,
    {
        let b = s[i];
        assert(t[i - lo] == b);
        if b < 48 || b > 57 {
            return None;
        }
        let d = (b - 48) as u64;
        assert(t.take(i - lo + 1).drop_last() == t.take(i - lo));
        assert(digits_value(t.take(i - lo + 1)) == v * 10 + d);
        if v > (MAX_WHOLE - d) / 10 {
            proof {
                assert(all_digits(t.take(i - lo + 1)));
                if all_digits(t) {
                    lemma_digits_value_grows(t, i - lo + 1);
                }
            }
            return None;
        }
        v = v * 10 + d;
        i = i + 1;
    }
    assert(t.take(i - lo) == t);
    Some(v)
}

/// Reads decimal text such as `3`, `1.5` or `0.0001` as a count of
/// ten-thousandths of a unit. Text of another shape, with more than four
/// digits after the point, or beyond what an `i64` holds gives `None`.
pub fn parse_amount(s: &[u8]) -> (r: Option<i64>)
    ensures
        r == (match amount_of(s@) {
            Some(v) => if v <= i64::MAX {
                Some(v as i64)
            } else {
                None
            },
            None => None,
        }),
{
    let n = s.len();
    let mut k: usize = 0;
    while k < n && s[k] != 46
        invariant
            k <= n == s@.len(),
            forall|j: int| 0 <= j < k ==> s@[j] != 46,
        decreases n - k,
    {
        k = k + 1;
    }
    if k == n {
        assert(forall|k2: int| !point_at(s@, k2)) by {
            assert forall|k2: int| point_at(s@, k2) implies false by {
                assert(s@[k2] == 46);
            }
        }
        if n == 0 {
            return None;
        }
        assert(s@.subrange(0, n as int) == s@);
        return match digits_in(s, 0, n) {
            Some(w) => Some((w * SCALE) as i64),
            None => None,
        };
    }
    assert(!is_digit(s@[k as int]));
    assert(!all_digits(s@));
    assert forall|k2: int| #[trigger] point_at(s@, k2) implies k2 == k by {
        if k2 < k {
            assert(s@[k2] == 46);
        } else if k2 > k {
            assert(s@.take(k2)[k as int] == 46);
            assert(!is_digit(s@.take(k2)[k as int]));
        }
    }
    if k == 0 || k + 1 >= n || n - k > 5 {
        return None;
    }
    assert(s@.subrange(0, k as int) == s@.take(k as int));
    assert(s@.subrange(k + 1, n as int) == s@.skip(k + 1));
    let w = match digits_in(s, 0, k) {
        Some(w) => w,
        None => {
            proof {
                if point_at(s@, k as int) {
                    assert(digits_value(s@.take(k as int)) > MAX_WHOLE);
                }
            }
            return None;
        },
    };
    let ghost fs = s@.skip(k + 1);
    let f = match digits_in(s, k + 1, n) {
        Some(f) => f,
        None => {
            proof {
                if all_digits(fs) {
                    lemma_digits_bound(fs);
                    assert(pow10(fs.len()) <= 10000) by {
                        reveal_with_fuel(pow10, 5);
                    }
                }
            }
            return None;
        },
    };
    assert(point_at(s@, k as int));
    let len = n - k - 1;
    let scale: u64 = if len == 1 {
        1000
    } else if len == 2 {
        100
    } else if len == 3 {
        10
    } else {
        1
    };
    assert(pow10(0) == 1 && pow10(1) == 10 && pow10(2) == 100 && pow10(3) == 1000 && pow10(4)
        == 10000) by {
        reveal_with_fuel(pow10, 5);
    }
    assert(scale == pow10((4 - len) as nat));
    proof {
        lemma_digits_bound(fs);
    }
    assert(fs.len() == len);
    assert(pow10(len as nat) * scale == 10000) by {
        if len == 1 {
        } else if len == 2 {
        } else if len == 3 {
        } else {
            assert(len == 4);
        }
    }
    assert(f * scale <= 9999) by (nonlinear_arith)
        requires
            f < pow10(len as nat),
            pow10(len as nat) * scale == 10000,
    ;
    let whole = (w * SCALE) as i64;
    whole.checked_add((f * scale) as i64)
}

/// Digits denote less than ten to the power of their count.
proof fn lemma_digits_bound(s: Seq<u8>)
    requires
        all_digits(s),
    ensures
        digits_value(s) < pow10(s.len()),
    decreases s.len(),
{
    if s.len() > 0 {
        assert(all_digits(s.drop_last()));
        lemma_digits_bound(s.drop_last());
        assert(pow10(s.len()) == 10 * pow10(s.drop_last().len()));
    }
}

/// Splits a count of ten-thousandths into its sign, its whole units and the
/// ten-thousandths left over, for display with four fractional digits:
/// `(true, 1, 5000)` stands for `-1.5000`.
pub fn amount_parts(a: i64) -> (r: (bool, u64, u64))
    ensures
        r.0 == (a < 0),
        r.2 < SCALE,
        (if r.0 {
            -(r.1 * SCALE + r.2)
        } else {
            r.1 * SCALE + r.2
        }) == a,
{
    let m: u64 = if a < 0 {
        (-(a as i128)) as u64
    } else {
        a as u64
    };
    (a < 0, m / SCALE, m % SCALE)
}

} // verus!
