use vstd::prelude::*;
use crate::text::{digit_char, nat_digits, push_digits, string_of};

verus! {

// ---------------------------------------------------------------------------
// The Gregorian calendar

/// Whether `y` is a leap year of the Gregorian calendar.
pub open spec fn is_leap(y: int) -> bool {
    (y % 4 == 0 && y % 100 != 0) || y % 400 == 0
}

/// Days in year `y`.
pub open spec fn year_len(y: int) -> nat {
    if is_leap(y) {
        366
    } else {
        365
    }
}

/// Days in month `m` (1 to 12) of year `y`.
pub open spec fn month_len(y: int, m: int) -> nat {
    if m == 2 {
        if is_leap(y) {
            29
        } else {
            28
        }
    } else if m == 4 || m == 6 || m == 9 || m == 11 {
        30
    } else {
        31
    }
}

/// The date `days` days after the first of month `m` of year `y`, when that
/// falls in year `y`: `(year, month, day of month)`.
pub open spec fn month_from(y: int, m: int, days: int) -> (int, int, int)
    decreases 12 - m,
{
    if m >= 12 || days < month_len(y, m) {
        (y, m, days + 1)
    } else {
        month_from(y, m + 1, days - month_len(y, m))
    }
}

/// The date `days` days after the first of January of year `y`:
/// `(year, month, day of month)`.
pub open spec fn date_from(y: int, days: nat) -> (int, int, int)
    decreases days,
{
    if days < year_len(y) {
        month_from(y, 1, days as int)
    } else {
        date_from(y + 1, (days - year_len(y)) as nat)
    }
}

/// Days in the months of year `y` before month `m`.
pub open spec fn months_before(y: int, m: int) -> nat
    decreases m,
{
    if m <= 1 {
        0
    } else {
        months_before(y, m - 1) + month_len(y, m - 1)
    }
}

/// Days in the `n` years from year `y` on.
pub open spec fn years_len(y: int, n: nat) -> nat
    decreases n,
{
    if n == 0 {
        0
    } else {
        year_len(y) + years_len(y + 1, (n - 1) as nat)
    }
}

/// Leap years up to year `x`, counted from a fixed point.
spec fn leap_count(x: int) -> int {
    x / 4 - x / 100 + x / 400
}

proof fn lemma_leap_step(y: int)
    ensures
        year_len(y) == 365 + leap_count(y) - leap_count(y - 1),
{
    assert(y / 4 - (y - 1) / 4 == if y % 4 == 0 { 1int } else { 0int });
    assert(y / 100 - (y - 1) / 100 == if y % 100 == 0 { 1int } else { 0int });
    assert(y / 400 - (y - 1) / 400 == if y % 400 == 0 { 1int } else { 0int });
    assert(y % 400 == 0 ==> y % 100 == 0);
    assert(y % 100 == 0 ==> y % 4 == 0);
}

proof fn lemma_years_len(y: int, n: nat)
    ensures
        years_len(y, n) == 365 * n + leap_count(y + n - 1) - leap_count(y - 1),
    decreases n,
{
    if n > 0 {
        lemma_years_len(y + 1, (n - 1) as nat);
        lemma_leap_step(y);
    }
}

/// Any 400 consecutive years hold 146097 days.
proof fn lemma_four_centuries(y: int)
    ensures
        years_len(y, 400) == 146097,
{
    lemma_years_len(y, 400);
    let x = y - 1;
    assert((x + 400) / 4 == x / 4 + 100);
    assert((x + 400) / 100 == x / 100 + 4);
    assert((x + 400) / 400 == x / 400 + 1);
}

proof fn lemma_skip_years(y: int, n: nat, d: nat)
    ensures
        date_from(y, d + years_len(y, n)) == date_from(y + n, d),
    decreases n,
{
    if n > 0 {
        lemma_skip_years(y + 1, (n - 1) as nat, d);
    }
}

proof fn lemma_skip_cycles(q: nat, r: nat)
    ensures
        date_from(1970, 146097 * q + r) == date_from(1970 + 400 * q as int, r),
    decreases q,
{
    if q > 0 {
        let y = 1970 + 400 * (q - 1);
        lemma_four_centuries(y);
        lemma_skip_years(y, 400, r);
        assert(146097 * q + r == 146097 * (q - 1) + (r + 146097)) by (nonlinear_arith);
        lemma_skip_cycles((q - 1) as nat, r + 146097);
    }
}

// ---------------------------------------------------------------------------
// ISO 8601 timestamps

/// A number below 100 as two decimal digits.
pub open spec fn two_digits(v: int) -> Seq<char> {
    seq![digit_char(v / 10), digit_char(v % 10)]
}

/// The UTC date and time `secs` seconds after the Unix epoch in ISO 8601
/// form, `YYYY-MM-DDTHH:MM:SSZ`.
pub open spec fn iso_timestamp(secs: u64) -> Seq<char> {
    let date = date_from(1970, (secs / 86400) as nat);
    let t = (secs % 86400) as int;
    nat_digits(date.0 as nat) + seq!['-'] + two_digits(date.1) + seq!['-'] + two_digits(date.2) + seq!['T']
        + two_digits(t / 3600) + seq![':'] + two_digits((t % 3600) / 60) + seq![':'] + two_digits(t % 60)
        + seq!['Z']
}

fn year_len_exec(y: u64) -> (r: u64)
    ensures
        r == year_len(y as int),
{
    if (y % 4 == 0 && y % 100 != 0) || y % 400 == 0 {
        366
    } else {
        365
    }
}

fn month_len_exec(y: u64, m: u64) -> (r: u64)
    ensures
        r == month_len(y as int, m as int),
{
    if m == 2 {
        if (y % 4 == 0 && y % 100 != 0) || y % 400 == 0 {
            29
        } else {
            28
        }
    } else if m == 4 || m == 6 || m == 9 || m == 11 {
        30
    } else {
        31
    }
}

/// The date `days` days after 1970-01-01 (see `date_from`).
fn civil_date(days: u64) -> (r: (u64, u64, u64))
    ensures
        (r.0 as int, r.1 as int, r.2 as int) == date_from(1970, days as nat),
        1 <= r.1 <= 12,
        1 <= r.2 <= 31,
{
    let q = days / 146097;
    let mut rem = days % 146097;
    proof {
        lemma_skip_cycles(q as nat, rem as nat);
    }
    let mut year: u64 = 1970 + 400 * q;
    while rem >= year_len_exec(year)
        invariant
            date_from(1970, days as nat) == date_from(year as int, rem as nat),
            rem < 146097,
            year + rem <= 1970 + 400 * q + 146097,
            q <= u64::MAX / 146097,
        decreases rem,
    {
        rem = rem - year_len_exec(year);
        year = year + 1;
    }
    let mut m: u64 = 1;
    let ghost start = rem;
    while m < 12 && rem >= month_len_exec(year, m)
        invariant
            1 <= m <= 12,
            start < year_len(year as int),
            rem + months_before(year as int, m as int) == start,
            month_from(year as int, 1, start as int) == month_from(year as int, m as int, rem as int),
        decreases 12 - m,
    {
        rem = rem - month_len_exec(year, m);
        m = m + 1;
    }
    proof {
        reveal_with_fuel(months_before, 12);
        if m == 12 {
            assert(months_before(year as int, 12) + 31 == year_len(year as int));
        }
    }
    (year, m, rem + 1)
}

fn push_two_digits(out: &mut Vec<char>, v: u64)
    requires
        v < 100,
    ensures
        final(out)@ == old(out)@ + two_digits(v as int),
{
    let hi: u8 = (48 + v / 10) as u8;
    let lo: u8 = (48 + v % 10) as u8;
    assert(hi == 48 + v / 10);
    assert(lo == 48 + v % 10);
    out.push(hi as char);
    out.push(lo as char);
    assert(out@ =~= old(out)@ + two_digits(v as int));
}

/// The ISO 8601 UTC text of a number of seconds since the Unix epoch (see
/// `iso_timestamp`).
pub fn iso_timestamp_at(secs: u64) -> (r: String)
    ensures
        r@ == iso_timestamp(secs),
{
    let (y, m, d) = civil_date(secs / 86400);
    let t = secs % 86400;
    let mut cs: Vec<char> = Vec::new();
    push_digits(&mut cs, y as u128);
    cs.push('-');
    push_two_digits(&mut cs, m);
    cs.push('-');
    push_two_digits(&mut cs, d);
    cs.push('T');
    push_two_digits(&mut cs, t / 3600);
    cs.push(':');
    push_two_digits(&mut cs, (t % 3600) / 60);
    cs.push(':');
    push_two_digits(&mut cs, t % 60);
    cs.push('Z');
    assert(cs@ =~= iso_timestamp(secs));
    string_of(&cs)
}

} // verus!
