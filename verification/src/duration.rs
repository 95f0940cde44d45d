//! Rounded-up remaining-time labels ("7d", "5h", "3m", "42s", "Expired").

use vstd::prelude::*;
use crate::text::{decimal, push_char, push_decimal};

verus! {

/// Seconds in a day, an hour and a minute.
pub const SECS_PER_DAY: i64 = 86400;
pub const SECS_PER_HOUR: i64 = 3600;
pub const SECS_PER_MINUTE: i64 = 60;

/// `a / b` rounded towards positive infinity, for a positive divisor.
pub open spec fn ceil_div(a: int, b: int) -> int
    recommends
        b > 0,
{
    if a % b == 0 { a / b } else { a / b + 1 }
}

/// The unit a positive remaining duration is shown in, and its size in seconds:
/// days while at least a day remains, then hours, then minutes, then seconds.
pub open spec fn duration_unit(r: int) -> (char, int) {
    if r >= 86400 {
        ('d', 86400)
    } else if r >= 3600 {
        ('h', 3600)
    } else if r >= 60 {
        ('m', 60)
    } else {
        ('s', 1)
    }
}

/// The number shown for a positive remaining duration: the count of whole
/// units, rounded up.
pub open spec fn duration_amount(r: int) -> int {
    ceil_div(r, duration_unit(r).1)
}

/// The word shown for a duration that has run out.
pub open spec fn expired_word() -> Seq<char> {
    seq!['E', 'x', 'p', 'i', 'r', 'e', 'd']
}

/// The label `round_up_duration` gives for `r` remaining seconds.
pub open spec fn duration_label(r: int) -> Seq<char> {
    if r <= 0 {
        expired_word()
    } else {
        decimal(duration_amount(r) as nat).push(duration_unit(r).0)
    }
}

/// Formats a remaining duration (in seconds) as a single rounded-up unit:
/// days while >= 1 day, then hours while >= 1 hour, then minutes while >= 1
/// minute, then seconds; "Expired" when nothing remains.
pub fn round_up_duration(remaining_secs: i64) -> (label: String)
    ensures
        label@ == duration_label(remaining_secs as int),
{
    if remaining_secs <= 0 {
        let s = String::from_str("Expired");
        proof {
            reveal_strlit("Expired");
        }
        return s;
    }
    let (unit, size): (char, i64) = if remaining_secs >= SECS_PER_DAY {
        ('d', SECS_PER_DAY)
    } else if remaining_secs >= SECS_PER_HOUR {
        ('h', SECS_PER_HOUR)
    } else if remaining_secs >= SECS_PER_MINUTE {
        ('m', SECS_PER_MINUTE)
    } else {
        ('s', 1)
    };
    let whole: i64 = remaining_secs / size;
    let amount: i64 = if remaining_secs % size == 0 { whole } else { whole + 1 };
    assert(amount == duration_amount(remaining_secs as int));
    let mut s = String::new();
    push_decimal(&mut s, amount as u64);
    push_char(&mut s, unit);
    assert(s@ == decimal(amount as nat).push(unit));
    s
}

/// The shown amount never understates the time left: `amount` units cover the
/// remaining seconds, and one unit fewer would not.
pub proof fn lemma_rounded_duration_covers(r: int)
    requires
        r > 0,
    ensures
        duration_amount(r) * duration_unit(r).1 >= r,
        (duration_amount(r) - 1) * duration_unit(r).1 < r,
        duration_amount(r) >= 1,
{
    let b = duration_unit(r).1;
    assert(b > 0);
    vstd::arithmetic::div_mod::lemma_fundamental_div_mod(r, b);
    assert(r == b * (r / b) + r % b);
    assert(0 <= r % b < b) by {
        vstd::arithmetic::div_mod::lemma_mod_bound(r, b);
    }
    assert(r / b >= 0) by {
        vstd::arithmetic::div_mod::lemma_div_pos_is_pos(r, b);
    }
    if r % b == 0 {
        assert(duration_amount(r) == r / b);
        assert(r / b >= 1) by (nonlinear_arith)
            requires r == b * (r / b) + r % b, r % b == 0, r > 0, r / b >= 0, b > 0;
        assert(duration_amount(r) * b == r) by (nonlinear_arith)
            requires r == b * (r / b) + r % b, r % b == 0, duration_amount(r) == r / b;
        assert((duration_amount(r) - 1) * b == r - b) by (nonlinear_arith)
            requires duration_amount(r) * b == r;
    } else {
        assert(duration_amount(r) == r / b + 1);
        assert(duration_amount(r) * b == b * (r / b) + b) by (nonlinear_arith)
            requires duration_amount(r) == r / b + 1;
        assert((duration_amount(r) - 1) * b == b * (r / b)) by (nonlinear_arith)
            requires duration_amount(r) == r / b + 1;
    }
}

/// The time a label for `r` remaining seconds stands for: its amount of units.
pub open spec fn duration_covered(r: int) -> int {
    duration_amount(r) * duration_unit(r).1
}

proof fn lemma_ceil_div_at_most(a: int, s: int, k: int)
    requires
        s > 0,
        a > 0,
        k >= 0,
        a <= k * s,
    ensures
        ceil_div(a, s) <= k,
{
    vstd::arithmetic::div_mod::lemma_fundamental_div_mod(a, s);
    vstd::arithmetic::div_mod::lemma_mod_bound(a, s);
    let q = a / s;
    if a % s == 0 {
        assert(q * s == a) by (nonlinear_arith)
            requires a == s * q + a % s, a % s == 0;
        assert(q <= k) by (nonlinear_arith)
            requires q * s == a, a <= k * s, s > 0;
    } else {
        assert(q * s < a) by (nonlinear_arith)
            requires a == s * q + a % s, a % s > 0;
        assert(q < k) by (nonlinear_arith)
            requires q * s < a, a <= k * s, s > 0;
    }
}

/// A longer time left is never shown as less time than a shorter one: the
/// time a label stands for grows with the time left.
pub proof fn lemma_rounded_duration_monotone(r1: int, r2: int)
    requires
        0 < r1 <= r2,
    ensures
        duration_covered(r1) <= duration_covered(r2),
{
    lemma_rounded_duration_covers(r1);
    lemma_rounded_duration_covers(r2);
    let s1 = duration_unit(r1).1;
    let s2 = duration_unit(r2).1;
    let a1 = duration_amount(r1);
    let a2 = duration_amount(r2);
    if s1 == s2 {
        lemma_ceil_div_at_most(r1, s1, a2);
        assert(a1 * s1 <= a2 * s1) by (nonlinear_arith)
            requires a1 <= a2, s1 > 0;
    } else {
        assert(r1 < s2 && s2 % s1 == 0 && s1 < s2);
        let k = s2 / s1;
        vstd::arithmetic::div_mod::lemma_fundamental_div_mod(s2, s1);
        assert(k * s1 == s2) by (nonlinear_arith)
            requires s2 == s1 * (s2 / s1) + s2 % s1, s2 % s1 == 0, k == s2 / s1;
        assert(k >= 0) by (nonlinear_arith)
            requires k * s1 == s2, s1 > 0, s2 > 0;
        lemma_ceil_div_at_most(r1, s1, k);
        assert(a1 * s1 <= k * s1) by (nonlinear_arith)
            requires a1 <= k, s1 > 0;
    }
}

} // verus!
