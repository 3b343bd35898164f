//! Decimal text: unsigned integer ids and fixed-point amounts.
use vstd::prelude::*;

verus! {

pub open spec fn is_digit(c: char) -> bool {
    '0' <= c && c <= '9'
}

pub open spec fn all_digits(s: Seq<char>) -> bool {
    forall|i: int| 0 <= i < s.len() ==> is_digit(#[trigger] s[i])
}

/// The number that a string of decimal digits denotes.
pub open spec fn digits_value(s: Seq<char>) -> int
    decreases s.len(),
{
    if s.len() == 0 {
        0
    } else {
        digits_value(s.drop_last()) * 10 + (s.last() as int - '0' as int)
    }
}

/// `v`, or `cap + 1` when `v` exceeds `cap`.
pub open spec fn capped(v: int, cap: int) -> int {
    if v > cap {
        cap + 1
    } else {
        v
    }
}

/// The digits of an unsigned integer's text, after an optional leading `+`.
pub open spec fn unsigned_digits(s: Seq<char>) -> Seq<char> {
    if s.len() > 0 && s[0] == '+' {
        s.drop_first()
    } else {
        s
    }
}

/// The value of `s` read as an unsigned integer no larger than `max`.
pub open spec fn unsigned_value(s: Seq<char>, max: int) -> Option<int> {
    let d = unsigned_digits(s);
    if d.len() > 0 && all_digits(d) && digits_value(d) <= max {
        Some(digits_value(d))
    } else {
        None
    }
}

/// Index of the last `.` in `s`, or -1 where there is none.
pub open spec fn last_dot(s: Seq<char>) -> int
    decreases s.len(),
{
    if s.len() == 0 {
        -1
    } else if s.last() == '.' {
        s.len() - 1
    } else {
        last_dot(s.drop_last())
    }
}

pub open spec fn whole_part(s: Seq<char>) -> Seq<char> {
    if last_dot(s) < 0 {
        s
    } else {
        s.take(last_dot(s))
    }
}

pub open spec fn fraction_part(s: Seq<char>) -> Seq<char> {
    if last_dot(s) < 0 {
        Seq::empty()
    } else {
        s.skip(last_dot(s) + 1)
    }
}

/// Units that one step of the last written fraction digit is worth.
pub open spec fn fraction_scale(len: int) -> int {
    if len == 0 {
        10000
    } else if len == 1 {
        1000
    } else if len == 2 {
        100
    } else if len == 3 {
        10
    } else {
        1
    }
}

/// The fraction digits that count: the first four. Later digits are
/// dropped, so an amount is truncated to four decimal places.
pub open spec fn kept_fraction(f: Seq<char>) -> Seq<char> {
    if f.len() > 4 {
        f.take(4)
    } else {
        f
    }
}

/// The amount, in units of 1/10000, that `s` denotes: an optional `+`, then
/// digits with at most one `.`, at least one digit in all, and a value that
/// fits in an `i64` once truncated to four decimal places. A sign `-` is
/// not accepted: amounts are never negative.
pub open spec fn amount_value(s: Seq<char>) -> Option<i64> {
    let b = unsigned_digits(s);
    let w = whole_part(b);
    let f = fraction_part(b);
    let k = kept_fraction(f);
    let v = digits_value(w) * 10000 + digits_value(k) * fraction_scale(k.len() as int);
    if all_digits(w) && all_digits(f) && w.len() + f.len() > 0 && v <= i64::MAX {
        Some(v as i64)
    } else {
        None
    }
}

proof fn lemma_last_dot_range(s: Seq<char>)
    ensures
        -1 <= last_dot(s) < s.len(),
    decreases s.len(),
{
    if s.len() > 0 {
        lemma_last_dot_range(s.drop_last());
    }
}

proof fn lemma_digits_value_nonneg(s: Seq<char>)
    requires
        all_digits(s),
    ensures
        digits_value(s) >= 0,
    decreases s.len(),
{
    if s.len() > 0 {
        assert(all_digits(s.drop_last()));
        lemma_digits_value_nonneg(s.drop_last());
    }
}

proof fn lemma_digits_value_bound(s: Seq<char>)
    requires
        all_digits(s),
        s.len() <= 4,
    ensures
        digits_value(s) * fraction_scale(s.len() as int) <= 9999,
    decreases s.len(),
{
    if s.len() > 0 {
        let p = s.drop_last();
        assert(all_digits(p));
        lemma_digits_value_bound(p);
        lemma_digits_value_nonneg(p);
        assert(is_digit(s[s.len() - 1]));
        let d = s.last() as int - '0' as int;
        assert(0 <= d <= 9);
        assert(digits_value(s) == digits_value(p) * 10 + d);
        if s.len() == 1 {
            assert(digits_value(p) == 0);
        } else if s.len() == 2 {
            assert(digits_value(p) * 1000 <= 9999);
            assert(digits_value(p) <= 9);
        } else if s.len() == 3 {
            assert(digits_value(p) * 100 <= 9999);
            assert(digits_value(p) <= 99);
        } else {
            assert(digits_value(p) * 10 <= 9999);
            assert(digits_value(p) <= 999);
        }
    }
}

/// Reads the digits of `s` in `[from, to)`: `None` where one of them is not
/// a digit, else their value capped at `cap + 1`.
fn capped_digits(s: &str, from: usize, to: usize, cap: u64) -> (r: Option<u64>)
    requires
        from <= to <= s@.len(),
        cap < 1_000_000_000_000_000_000,
    ensures
        r is Some <==> all_digits(s@.subrange(from as int, to as int)),
        r matches Some(v) ==> v == capped(digits_value(s@.subrange(from as int, to as int)), cap as int),
{
    let mut acc: u64 = 0;
    let mut i: usize = from;
    while i < to
        invariant
            from <= i <= to,
            to <= s@.len(),
            cap < 1_000_000_000_000_000_000,
            all_digits(s@.subrange(from as int, i as int)),
            acc == capped(digits_value(s@.subrange(from as int, i as int)), cap as int),
        decreases to - i,
    {
        let c = s.get_char(i);
        if !('0' <= c && c <= '9') {
            assert(s@.subrange(from as int, to as int)[i - from] == c);
            return None;
        }
        let d: u64 = (c as u32 - '0' as u32) as u64;
        let ghost prev = s@.subrange(from as int, i as int);
        let ghost next = s@.subrange(from as int, i + 1);
        proof {
            assert(next.drop_last() =~= prev);
            assert(next.last() == c);
            lemma_digits_value_nonneg(prev);
        }
        if acc > cap {
            assert(digits_value(next) == digits_value(prev) * 10 + d) by (nonlinear_arith)
                requires
                    next.drop_last() == prev,
                    digits_value(next) == digits_value(next.drop_last()) * 10 + d,
            ;
            assert(digits_value(next) >= digits_value(prev)) by (nonlinear_arith)
                requires
                    digits_value(next) == digits_value(prev) * 10 + d,
                    digits_value(prev) >= 0,
                    d >= 0,
            ;
        } else {
            let n: u64 = acc * 10 + d;
            acc = if n > cap {
                cap + 1
            } else {
                n
            };
        }
        i = i + 1;
    }
    Some(acc)
}

/// Reads an unsigned integer no larger than `max`: an optional `+`, then
/// one or more decimal digits.
pub fn parse_unsigned(s: &str, max: u64) -> (r: Option<u64>)
    requires
        max < 1_000_000_000_000_000_000,
    ensures
        r is Some <==> unsigned_value(s@, max as int) is Some,
        r matches Some(v) ==> v as int == unsigned_value(s@, max as int)->0,
{
    let n = s.unicode_len();
    let mut from: usize = 0;
    if n > 0 && s.get_char(0) == '+' {
        from = 1;
    }
    assert(s@.subrange(from as int, n as int) =~= unsigned_digits(s@));
    if from == n {
        return None;
    }
    match capped_digits(s, from, n, max) {
        Some(v) => {
            if v > max {
                None
            } else {
                Some(v)
            }
        },
        None => None,
    }
}

/// Reads an amount in units of 1/10000: see `amount_value`.
#[verifier::rlimit(40)]
pub fn parse_amount(s: &str) -> (r: Option<i64>)
    ensures
        r == amount_value(s@),
{
    let n = s.unicode_len();
    let mut from: usize = 0;
    if n > 0 && s.get_char(0) == '+' {
        from = 1;
    }
    let ghost b = s@.subrange(from as int, n as int);
    assert(b =~= unsigned_digits(s@));
    let mut has_dot = false;
    let mut dot: usize = 0;
    let mut i: usize = from;
    while i < n
        invariant
            from <= i <= n,
            n == s@.len(),
            has_dot == (last_dot(s@.subrange(from as int, i as int)) >= 0),
            has_dot ==> dot == from + last_dot(s@.subrange(from as int, i as int)),
        decreases n - i,
    {
        assert(s@.subrange(from as int, i + 1).drop_last() =~= s@.subrange(from as int, i as int));
        proof {
            lemma_last_dot_range(s@.subrange(from as int, i as int));
        }
        if s.get_char(i) == '.' {
            has_dot = true;
            dot = i;
        }
        i = i + 1;
    }
    proof {
        lemma_last_dot_range(b);
    }
    let whole_end: usize = if has_dot {
        dot
    } else {
        n
    };
    let frac_start: usize = if has_dot {
        dot + 1
    } else {
        n
    };
    let ghost w = whole_part(b);
    let ghost f = fraction_part(b);
    let ghost k = kept_fraction(f);
    assert(s@.subrange(from as int, whole_end as int) =~= w);
    assert(s@.subrange(frac_start as int, n as int) =~= f);
    if (whole_end - from) + (n - frac_start) == 0 {
        return None;
    }
    let kept_end: usize = if n - frac_start > 4 {
        frac_start + 4
    } else {
        n
    };
    assert(s@.subrange(frac_start as int, kept_end as int) =~= k);
    if capped_digits(s, frac_start, n, 0).is_none() {
        return None;
    }
    assert(all_digits(k)) by {
        assert forall|j: int| 0 <= j < k.len() implies is_digit(#[trigger] k[j]) by {
            assert(k[j] == f[j]);
        }
    }
    // the largest whole part whose value in units fits in an i64
    let whole_cap: u64 = 922_337_203_685_477;
    let whole = match capped_digits(s, from, whole_end, whole_cap) {
        Some(v) => v,
        None => {
            return None;
        },
    };
    let frac = match capped_digits(s, frac_start, kept_end, 9999) {
        Some(v) => v,
        None => {
            return None;
        },
    };
    proof {
        lemma_digits_value_nonneg(w);
        lemma_digits_value_nonneg(k);
        lemma_digits_value_bound(k);
    }
    if whole > whole_cap {
        assert(digits_value(w) * 10000 + digits_value(k) * fraction_scale(k.len() as int)
            > i64::MAX) by (nonlinear_arith)
            requires
                digits_value(w) >= 922_337_203_685_478,
                digits_value(k) * fraction_scale(k.len() as int) >= 0,
        ;
        return None;
    }
    let flen: usize = kept_end - frac_start;
    let scale: u64 = if flen == 0 {
        10000
    } else if flen == 1 {
        1000
    } else if flen == 2 {
        100
    } else if flen == 3 {
        10
    } else {
        1
    };
    assert(k.len() == flen);
    assert(scale == fraction_scale(k.len() as int));
    assert(digits_value(k) <= 9999) by (nonlinear_arith)
        requires
            digits_value(k) * fraction_scale(k.len() as int) <= 9999,
            fraction_scale(k.len() as int) >= 1,
            digits_value(k) >= 0,
    ;
    assert(frac == digits_value(k));
    assert(frac as int * scale as int <= 9999);
    let v: u64 = whole * 10000 + frac * scale;
    if v > 9_223_372_036_854_775_807 {
        None
    } else {
        Some(v as i64)
    }
}

/// Splits an amount in units of 1/10000 into its sign, whole part and
/// four-digit fraction, for rendering as `[-]whole.ffff`.
pub fn decimal_parts(v: i64) -> (r: (bool, u64, u64))
    ensures
        r.0 == (v < 0),
        r.2 < 10000,
        r.1 * 10000 + r.2 == if v < 0 {
            -v
        } else {
            v as int
        },
{
    let m: u64 = if v < 0 {
        (-(v as i128)) as u64
    } else {
        v as u64
    };
    (v < 0, m / 10000, m % 10000)
}

} // verus!
