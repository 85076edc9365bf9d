//! Human-readable formatting of elapsed solving time.
//!
//! A duration renders as its non-zero hour and minute components followed,
//! always, by seconds with three millisecond digits, each unit pluralized,
//! the parts joined with commas and a final " and ".

use vstd::prelude::*;

verus! {

/// The decimal digit character for `d` (`d < 10`).
pub open spec fn digit_char(d: nat) -> char {
    if d == 0 { '0' }
    else if d == 1 { '1' }
    else if d == 2 { '2' }
    else if d == 3 { '3' }
    else if d == 4 { '4' }
    else if d == 5 { '5' }
    else if d == 6 { '6' }
    else if d == 7 { '7' }
    else if d == 8 { '8' }
    else { '9' }
}

/// Decimal digits of `n`, most significant first, with no leading zeros
/// (a lone zero for `n == 0`).
pub open spec fn spec_digits(n: nat) -> Seq<char>
    decreases n,
{
    if n < 10 { seq![digit_char(n)] } else { spec_digits(n / 10).push(digit_char(n % 10)) }
}

/// Decimal digits of `n < 1000`, padded with zeros on the left to width 3.
pub open spec fn spec_pad3(n: nat) -> Seq<char> {
    if n < 10 { "00"@ + spec_digits(n) } else if n < 100 { "0"@ + spec_digits(n) } else {
        spec_digits(n)
    }
}

/// The plural suffix for a count: empty exactly when the count is one.
pub open spec fn spec_plural(n: nat) -> Seq<char> {
    if n == 1 { Seq::<char>::empty() } else { "s"@ }
}

/// `"H hour"` or `"H hours"`.
pub open spec fn spec_hours_part(h: nat) -> Seq<char> {
    spec_digits(h) + " hour"@ + spec_plural(h)
}

/// `"M minute"` or `"M minutes"`.
pub open spec fn spec_minutes_part(m: nat) -> Seq<char> {
    spec_digits(m) + " minute"@ + spec_plural(m)
}

/// `"S.mmm second(s)"`, seconds pluralized by the whole-second count.
pub open spec fn spec_seconds_part(s: nat, ms: nat) -> Seq<char> {
    spec_digits(s) + "."@ + spec_pad3(ms) + " second"@ + spec_plural(s)
}

/// The full rendering: hours and minutes only when non-zero, seconds and
/// milliseconds always, joined with ", " and a final " and ".
pub open spec fn spec_format_duration(h: nat, m: nat, s: nat, ms: nat) -> Seq<char> {
    if h == 0 && m == 0 {
        spec_seconds_part(s, ms)
    } else if h > 0 && m > 0 {
        spec_hours_part(h) + ", "@ + spec_minutes_part(m) + " and "@ + spec_seconds_part(s, ms)
    } else if h > 0 {
        spec_hours_part(h) + " and "@ + spec_seconds_part(s, ms)
    } else {
        spec_minutes_part(m) + " and "@ + spec_seconds_part(s, ms)
    }
}

/// The single-character string for one decimal digit.
fn digit_str(d: u64) -> (r: &'static str)
    requires
        d < 10,
    ensures
        r@ == seq![digit_char(d as nat)],
{
    proof {
        reveal_strlit("0");
        reveal_strlit("1");
        reveal_strlit("2");
        reveal_strlit("3");
        reveal_strlit("4");
        reveal_strlit("5");
        reveal_strlit("6");
        reveal_strlit("7");
        reveal_strlit("8");
        reveal_strlit("9");
    }
    let r: &'static str = match d {
        0 => "0",
        1 => "1",
        2 => "2",
        3 => "3",
        4 => "4",
        5 => "5",
        6 => "6",
        7 => "7",
        8 => "8",
        _ => "9",
    };
    proof {
        assert(r@ =~= seq![digit_char(d as nat)]);
    }
    r
}

/// Renders `n` in decimal, most significant digit first.
pub fn u64_to_string(n: u64) -> (r: String)
    ensures
        r@ == spec_digits(n as nat),
    decreases n,
{
    if n < 10 {
        let r = String::from_str(digit_str(n));
        proof {
            assert(r@ =~= spec_digits(n as nat));
        }
        r
    } else {
        proof {
            assert(n / 10 < n) by (nonlinear_arith)
                requires
                    n >= 10,
            ;
        }
        let prefix = u64_to_string(n / 10);
        let r = prefix.concat(digit_str(n % 10));
        proof {
            assert(r@ =~= spec_digits(n as nat));
        }
        r
    }
}

/// Renders `n < 1000` as exactly three decimal digits.
fn pad3_string(n: u64) -> (r: String)
    requires
        n < 1000,
    ensures
        r@ == spec_pad3(n as nat),
{
    let digits = u64_to_string(n);
    if n < 10 {
        String::from_str("00").concat(digits.as_str())
    } else if n < 100 {
        String::from_str("0").concat(digits.as_str())
    } else {
        digits
    }
}

/// Formats a duration given as split components: hours, minutes, seconds
/// and milliseconds. Hours and minutes appear only when non-zero; seconds
/// and milliseconds always appear as `"S.mmm second(s)"`.
pub fn format_duration_parts(hours: u64, minutes: u64, seconds: u64, millis: u64) -> (r: String)
    requires
        minutes < 60,
        seconds < 60,
        millis < 1000,
    ensures
        r@ == spec_format_duration(hours as nat, minutes as nat, seconds as nat, millis as nat),
{
    let mut sec_part = u64_to_string(seconds);
    sec_part.append(".");
    sec_part.append(pad3_string(millis).as_str());
    sec_part.append(" second");
    if seconds != 1 {
        sec_part.append("s");
    }
    proof {
        assert(sec_part@ =~= spec_seconds_part(seconds as nat, millis as nat));
    }
    if hours == 0 && minutes == 0 {
        return sec_part;
    }
    if hours > 0 {
        let mut r = u64_to_string(hours);
        r.append(" hour");
        if hours != 1 {
            r.append("s");
        }
        proof {
            assert(r@ =~= spec_hours_part(hours as nat));
        }
        if minutes > 0 {
            r.append(", ");
            r.append(u64_to_string(minutes).as_str());
            r.append(" minute");
            if minutes != 1 {
                r.append("s");
            }
            proof {
                assert(r@ =~= spec_hours_part(hours as nat) + ", "@ + spec_minutes_part(
                    minutes as nat,
                ));
            }
        }
        r.append(" and ");
        r.append(sec_part.as_str());
        proof {
            assert(r@ =~= spec_format_duration(
                hours as nat,
                minutes as nat,
                seconds as nat,
                millis as nat,
            ));
        }
        r
    } else {
        let mut r = u64_to_string(minutes);
        r.append(" minute");
        if minutes != 1 {
            r.append("s");
        }
        r.append(" and ");
        r.append(sec_part.as_str());
        proof {
            assert(r@ =~= spec_format_duration(
                hours as nat,
                minutes as nat,
                seconds as nat,
                millis as nat,
            ));
        }
        r
    }
}

/// Formats a duration given in whole milliseconds, splitting it into
/// hours, minutes, seconds and leftover milliseconds first.
pub fn format_duration(total_millis: u64) -> (r: String)
    ensures
        r@ == spec_format_duration(
            ((total_millis / 1000) / 3600) as nat,
            (((total_millis / 1000) % 3600) / 60) as nat,
            (((total_millis / 1000) % 3600) % 60) as nat,
            (total_millis % 1000) as nat,
        ),
{
    let total_seconds = total_millis / 1000;
    let hours = total_seconds / 3600;
    let remaining = total_seconds % 3600;
    let minutes = remaining / 60;
    let seconds = remaining % 60;
    let millis = total_millis % 1000;
    proof {
        assert(remaining / 60 < 60 && remaining % 60 < 60) by (nonlinear_arith)
            requires
                0 <= remaining < 3600,
        ;
    }
    format_duration_parts(hours, minutes, seconds, millis)
}

} // verus!
