use vstd::prelude::*;

use crate::severity::{UsageRatio, ratio_num, ratio_den};
use crate::text::{decimal, fixed2, push_char, push_decimal, push_fixed2, round_half_even};

verus! {

/// Bytes in one gigabyte as the reports count it (`2^30`).
pub const BYTES_PER_GB: u64 = 1_073_741_824;

/// A byte count in gigabytes, in hundredths, rounded half to even.
pub open spec fn gb_hundredths(bytes: nat) -> nat {
    round_half_even(bytes * 100, BYTES_PER_GB as nat)
}

/// A byte count written as gigabytes with two decimals, such as `12.50 GB`.
pub open spec fn gb_text(bytes: nat) -> Seq<char> {
    fixed2(gb_hundredths(bytes)) + " GB"@
}

/// Appends a byte count written as gigabytes with two decimals.
pub fn push_gb(s: &mut String, bytes: u64)
    ensures
        final(s)@ == old(s)@ + gb_text(bytes as nat),
{
    push_fixed2(s, bytes as u128 * 100, BYTES_PER_GB as u128);
    s.append(" GB");
    assert(s@ =~= old(s)@ + gb_text(bytes as nat));
}

/// A growth in bytes written as signed gigabytes (`+12.00 GB`,
/// `-0.50 GB`), or `N/A` when unknown.
pub open spec fn growth_text(value: Option<i64>) -> Seq<char> {
    match value {
        Some(bytes) => if bytes >= 0 {
            seq!['+'] + gb_text(bytes as nat)
        } else {
            seq!['-'] + gb_text((-bytes) as nat)
        },
        None => "N/A"@,
    }
}

/// A growth written as signed gigabytes, or `N/A`.
pub fn format_growth(value: Option<i64>) -> (r: String)
    ensures
        r@ == growth_text(value),
{
    match value {
        Some(bytes) => {
            let mut s = String::new();
            if bytes >= 0 {
                push_char(&mut s, '+');
                push_gb(&mut s, bytes as u64);
            } else {
                push_char(&mut s, '-');
                let magnitude: i128 = -(bytes as i128);
                push_gb(&mut s, magnitude as u64);
            }
            assert(s@ =~= growth_text(value));
            s
        },
        None => String::from_str("N/A"),
    }
}

/// A usage in hundredths of a percent, rounded half to even; 0 when the
/// total is 0.
pub open spec fn percent_hundredths(r: UsageRatio) -> nat {
    round_half_even(ratio_num(r) as nat, ratio_den(r) as nat)
}

/// A usage written as a percentage with two decimals, without the `%` sign.
pub open spec fn percent_text(r: UsageRatio) -> Seq<char> {
    fixed2(percent_hundredths(r))
}

/// Appends a usage as a percentage with two decimals.
pub fn push_percent(s: &mut String, r: UsageRatio)
    ensures
        final(s)@ == old(s)@ + percent_text(r),
{
    if r.total == 0 {
        push_fixed2(s, 0, 1);
    } else {
        push_fixed2(s, r.used as u128 * 10000, r.total as u128);
    }
}

/// A threshold in hundredths of a percent written with two decimals.
pub open spec fn threshold_text(t: i64) -> Seq<char> {
    if t >= 0 {
        fixed2(t as nat)
    } else {
        seq!['-'] + fixed2((-t) as nat)
    }
}

/// Appends a threshold in hundredths of a percent with two decimals.
pub fn push_threshold(s: &mut String, t: i64)
    ensures
        final(s)@ == old(s)@ + threshold_text(t),
{
    if t >= 0 {
        push_fixed2(s, t as u128, 1);
    } else {
        push_char(s, '-');
        let magnitude: i128 = -(t as i128);
        push_fixed2(s, magnitude as u128, 1);
    }
    proof {
        let h: nat = if t >= 0 { t as nat } else { (-t) as nat };
        assert(round_half_even(h, 1) == h);
    }
    assert(s@ =~= old(s)@ + threshold_text(t));
}

/// `a / b` rounded up.
pub open spec fn ceil_div(a: nat, b: nat) -> nat {
    ((a + b - 1) as nat) / b
}

/// Time until full, written in days from two days up, else in hours from
/// two hours up, else in minutes (at least one); `acum` when it is not in
/// the future, `N/A` when unknown.
pub open spec fn time_to_full_text(seconds: Option<i64>) -> Seq<char> {
    match seconds {
        Some(s) => if s <= 0 {
            "acum"@
        } else if s >= 172_800 {
            decimal(ceil_div(s as nat, 86_400)) + " zile"@
        } else if s >= 7_200 {
            decimal(ceil_div(s as nat, 3_600)) + " ore"@
        } else {
            decimal(ceil_div(s as nat, 60)) + " minute"@
        },
        None => "N/A"@,
    }
}

/// Time until full, in words.
pub fn format_time_to_full(seconds: Option<i64>) -> (r: String)
    ensures
        r@ == time_to_full_text(seconds),
{
    match seconds {
        Some(sec) => {
            if sec <= 0 {
                return String::from_str("acum");
            }
            let v = sec as u128;
            let mut s = String::new();
            if sec >= 172_800 {
                push_decimal(&mut s, (v + 86_399) / 86_400);
                s.append(" zile");
            } else if sec >= 7_200 {
                push_decimal(&mut s, (v + 3_599) / 3_600);
                s.append(" ore");
            } else {
                push_decimal(&mut s, (v + 59) / 60);
                s.append(" minute");
            }
            assert(s@ =~= time_to_full_text(seconds));
            s
        },
        None => String::from_str("N/A"),
    }
}

/// A usage written as a percentage with two decimals, without the `%` sign.
pub fn percent_string(r: UsageRatio) -> (s: String)
    ensures
        s@ == percent_text(r),
{
    let mut s = String::new();
    push_percent(&mut s, r);
    assert(s@ =~= percent_text(r));
    s
}

/// A byte count written as gigabytes with two decimals.
pub fn gb_string(bytes: u64) -> (s: String)
    ensures
        s@ == gb_text(bytes as nat),
{
    let mut s = String::new();
    push_gb(&mut s, bytes);
    assert(s@ =~= gb_text(bytes as nat));
    s
}

/// A threshold in hundredths of a percent written with two decimals.
pub fn threshold_string(t: i64) -> (s: String)
    ensures
        s@ == threshold_text(t),
{
    let mut s = String::new();
    push_threshold(&mut s, t);
    assert(s@ =~= threshold_text(t));
    s
}

} // verus!
