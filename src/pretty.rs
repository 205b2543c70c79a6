//! Short human-readable renderings of numbers.
use vstd::prelude::*;
use crate::text::{decimal, push_char, push_decimal};

verus! {

/// The integer percentage of `value` in `max`, truncated toward zero, or
/// `??` when `max` is zero.
pub open spec fn percentage_text(value: nat, max: nat) -> Seq<char> {
    if max == 0 {
        seq!['?', '?']
    } else {
        decimal(value * 100 / max)
    }
}

/// Renders `value` as a whole percentage of `max`; `??` when `max` is zero.
pub fn pct(value: usize, max: usize) -> (r: String)
    ensures
        r@ == percentage_text(value as nat, max as nat),
{
    let mut r = String::new();
    if max == 0 {
        push_char(&mut r, '?');
        push_char(&mut r, '?');
    } else {
        assert(value as u128 * 100 <= u128::MAX) by (nonlinear_arith)
            requires
                value <= usize::MAX,
                usize::MAX <= u64::MAX,
        ;
        let scaled: u128 = value as u128 * 100;
        push_decimal(&mut r, scaled / max as u128);
    }
    assert(r@ =~= percentage_text(value as nat, max as nat));
    r
}

/// How many times `v` is divided by 1000 before it is shown: the least number
/// of divisions that brings it under 1000, and at most three.
pub open spec fn magnitude_tier(v: nat) -> nat {
    if v < 1000 {
        0
    } else if v / 1000 < 1000 {
        1
    } else if v / 1000 / 1000 < 1000 {
        2
    } else {
        3
    }
}

/// `v` divided by 1000 as many times as its tier says.
pub open spec fn magnitude_scaled(v: nat) -> nat {
    let t = magnitude_tier(v);
    if t == 0 {
        v
    } else if t == 1 {
        v / 1000
    } else if t == 2 {
        v / 1000 / 1000
    } else {
        v / 1000 / 1000 / 1000
    }
}

/// The unit label of a count at a tier.
pub open spec fn count_suffix(tier: nat) -> Seq<char> {
    if tier == 0 {
        seq![]
    } else if tier == 1 {
        seq!['k']
    } else if tier == 2 {
        seq!['m']
    } else {
        seq!['b']
    }
}

/// The unit label of a byte size at a tier.
pub open spec fn size_suffix(tier: nat) -> Seq<char> {
    if tier == 0 {
        seq![]
    } else if tier == 1 {
        seq!['k', 'b']
    } else if tier == 2 {
        seq!['m', 'b']
    } else {
        seq!['g', 'b']
    }
}

/// A count as shown: the scaled value and the label of its tier.
pub open spec fn count_text(v: nat) -> Seq<char> {
    decimal(magnitude_scaled(v)) + count_suffix(magnitude_tier(v))
}

/// A byte size as shown: the scaled value and the label of its tier.
pub open spec fn size_text(v: nat) -> Seq<char> {
    decimal(magnitude_scaled(v)) + size_suffix(magnitude_tier(v))
}

/// Divides by 1000 until the value is under 1000, at most three times, and
/// returns the tier and the scaled value.
fn tier_of(value: u64) -> (r: (u8, u64))
    ensures
        r.0 as nat == magnitude_tier(value as nat),
        r.1 as nat == magnitude_scaled(value as nat),
{
    if value < 1000 {
        return (0, value);
    }
    let v1 = value / 1000;
    if v1 < 1000 {
        return (1, v1);
    }
    let v2 = v1 / 1000;
    if v2 < 1000 {
        return (2, v2);
    }
    (3, v2 / 1000)
}

/// Renders a count with a thousands-based unit: none, `k`, `m` or `b`.
pub fn pretty_value(value: usize) -> (r: String)
    ensures
        r@ == count_text(value as nat),
{
    let (tier, scaled) = tier_of(value as u64);
    let mut r = String::new();
    push_decimal(&mut r, scaled as u128);
    if tier == 1 {
        push_char(&mut r, 'k');
    } else if tier == 2 {
        push_char(&mut r, 'm');
    } else if tier == 3 {
        push_char(&mut r, 'b');
    }
    assert(r@ =~= count_text(value as nat));
    r
}

/// Renders a byte size with a thousands-based unit: none, `kb`, `mb` or `gb`.
pub fn pretty_size(value: u64) -> (r: String)
    ensures
        r@ == size_text(value as nat),
{
    let (tier, scaled) = tier_of(value);
    let mut r = String::new();
    push_decimal(&mut r, scaled as u128);
    if tier == 1 {
        push_char(&mut r, 'k');
    } else if tier == 2 {
        push_char(&mut r, 'm');
    } else if tier == 3 {
        push_char(&mut r, 'g');
    }
    if tier != 0 {
        push_char(&mut r, 'b');
    }
    assert(r@ =~= size_text(value as nat));
    r
}

/// A larger value never gets a lower tier.
pub proof fn lemma_magnitude_tier_monotonic(a: nat, b: nat)
    requires
        a <= b,
    ensures
        magnitude_tier(a) <= magnitude_tier(b),
{
    assert(a / 1000 <= b / 1000) by (nonlinear_arith)
        requires
            a <= b,
    ;
    assert(a / 1000 / 1000 <= b / 1000 / 1000) by (nonlinear_arith)
        requires
            a / 1000 <= b / 1000,
    ;
}

/// Tiering takes one pass and depends on the value alone: the shown value is
/// under 1000 at every tier but the top one, and each lower tier would have
/// left it at 1000 or more.
pub proof fn lemma_magnitude_tier_least(v: nat)
    ensures
        magnitude_tier(v) <= 3,
        magnitude_tier(v) < 3 ==> magnitude_scaled(v) < 1000,
        magnitude_tier(v) >= 1 ==> v >= 1000,
        magnitude_tier(v) >= 2 ==> v / 1000 >= 1000,
        magnitude_tier(v) >= 3 ==> v / 1000 / 1000 >= 1000,
{
}

/// The parts of a duration in whole seconds: days, hours, minutes, seconds.
pub open spec fn duration_parts(secs: nat) -> (nat, nat, nat, nat) {
    let d = secs / 86400;
    let rest = secs % 86400;
    (d, rest / 3600, rest % 3600 / 60, rest % 3600 % 60)
}

/// A duration as shown: from its most significant non-zero part down to the
/// seconds, which are always shown, e.g. `1d 0h 0m 5s`, `2m 0s`, `0s`.
pub open spec fn duration_text(secs: nat) -> Seq<char> {
    let (d, h, m, s) = duration_parts(secs);
    let sec = decimal(s) + seq!['s'];
    let min = decimal(m) + seq!['m', ' '] + sec;
    let hour = decimal(h) + seq!['h', ' '] + min;
    if d > 0 {
        decimal(d) + seq!['d', ' '] + hour
    } else if h > 0 {
        hour
    } else if m > 0 {
        min
    } else {
        sec
    }
}

/// Renders a number of seconds as days, hours, minutes and seconds. A
/// negative count is taken as zero.
pub fn pretty_duration(seconds: i64) -> (r: String)
    ensures
        r@ == duration_text(if seconds < 0 { 0 } else { seconds as nat }),
{
    let total: u64 = if seconds < 0 { 0 } else { seconds as u64 };
    let d = total / 86400;
    let rest = total % 86400;
    let h = rest / 3600;
    let m = rest % 3600 / 60;
    let s = rest % 3600 % 60;
    let mut r = String::new();
    if d > 0 {
        push_decimal(&mut r, d as u128);
        push_char(&mut r, 'd');
        push_char(&mut r, ' ');
    }
    if d > 0 || h > 0 {
        push_decimal(&mut r, h as u128);
        push_char(&mut r, 'h');
        push_char(&mut r, ' ');
    }
    if d > 0 || h > 0 || m > 0 {
        push_decimal(&mut r, m as u128);
        push_char(&mut r, 'm');
        push_char(&mut r, ' ');
    }
    push_decimal(&mut r, s as u128);
    push_char(&mut r, 's');
    assert(r@ =~= duration_text(total as nat));
    r
}

} // verus!
