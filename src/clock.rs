use chrono::TimeZone;
use vstd::prelude::*;
use vstd::arithmetic::div_mod::{
    lemma_div_multiples_vanish_fancy, lemma_fundamental_div_mod, lemma_mod_multiples_vanish, lemma_small_mod,
};

use crate::text::{chars_of, decimal, decimal_chars, digit_char, push_text, text_of};

verus! {

/// A leap year of the proleptic Gregorian calendar.
pub open spec fn is_leap(y: int) -> bool {
    (y % 4 == 0 && y % 100 != 0) || y % 400 == 0
}

pub open spec fn year_days(y: int) -> int {
    if is_leap(y) {
        366
    } else {
        365
    }
}

/// The days of month `m` (1 to 12) of year `y`.
pub open spec fn month_days(y: int, m: int) -> int {
    if m == 2 {
        if is_leap(y) {
            29
        } else {
            28
        }
    } else if m == 4 || m == 6 || m == 9 || m == 11 {
        30
    } else {
        31
    }
}

/// The days of year `y` before month `m`.
pub open spec fn days_before_month(y: int, m: int) -> int
    decreases m,
{
    if m <= 1 {
        0
    } else {
        days_before_month(y, m - 1) + month_days(y, m - 1)
    }
}

/// Day `d` counted from the first of January of year `y`, as a year and a day of
/// that year counted from zero.
pub open spec fn year_and_day(y: int, d: int) -> (int, int)
    decreases (if d < 0 {
        -d
    } else {
        0
    }), (if d < 0 {
        0
    } else {
        d
    }),
{
    if d < 0 {
        year_and_day(y - 1, d + year_days(y - 1))
    } else if d >= year_days(y) {
        year_and_day(y + 1, d - year_days(y))
    } else {
        (y, d)
    }
}

/// Day `d` of year `y`, counted from month `m` on, as a month and a day of that
/// month counted from zero.
pub open spec fn month_and_day(y: int, m: int, d: int) -> (int, int)
    decreases (if d < 0 {
        0
    } else {
        d
    }),
{
    if d >= 0 && m < 12 && d >= month_days(y, m) {
        month_and_day(y, m + 1, d - month_days(y, m))
    } else {
        (m, d)
    }
}

/// The calendar date, as year, month and day of month, of day `days` after the
/// first of January 1970.
pub open spec fn civil(days: int) -> (int, int, int) {
    let (y, yd) = year_and_day(1970, days);
    let (m, md) = month_and_day(y, 1, yd);
    (y, m, md + 1)
}

/// `n`, below a hundred, with two digits.
pub open spec fn two_digits(n: int) -> Seq<char> {
    seq![digit_char(n / 10), digit_char(n % 10)]
}

/// `n`, below ten thousand, with four digits.
pub open spec fn four_digits(n: int) -> Seq<char> {
    two_digits(n / 100) + two_digits(n % 100)
}

/// A year as chrono's `%Y` writes it: four digits from 0 to 9999, else a sign and
/// at least four digits.
pub open spec fn year_text(y: int) -> Seq<char> {
    if 0 <= y <= 9999 {
        four_digits(y)
    } else if y > 9999 {
        seq!['+'] + decimal(y as nat)
    } else if -y <= 9999 {
        seq!['-'] + four_digits(-y)
    } else {
        seq!['-'] + decimal((-y) as nat)
    }
}

/// The seconds that `clock` labels can place, either side of 1970: a hundred million
/// days, beyond the roughly 262 000 years either side that chrono can place.
pub const LABEL_LIMIT: i64 = 8_640_000_000_000;

/// Time `secs` (local seconds since 1970) as `%m/%d %H:%M`.
pub open spec fn month_day_text(secs: int) -> Seq<char> {
    let days = secs / 86400;
    let sod = secs % 86400;
    let (y, m, d) = civil(days);
    two_digits(m) + seq!['/'] + two_digits(d) + seq![' '] + two_digits(sod / 3600) + seq![':']
        + two_digits((sod % 3600) / 60)
}

/// Time `secs` (local seconds since 1970) as `%Y-%m-%d %H:%M`.
pub open spec fn full_minute_text(secs: int) -> Seq<char> {
    let days = secs / 86400;
    let sod = secs % 86400;
    let (y, m, d) = civil(days);
    year_text(y) + seq!['-'] + two_digits(m) + seq!['-'] + two_digits(d) + seq![' '] + two_digits(
        sod / 3600,
    ) + seq![':'] + two_digits((sod % 3600) / 60)
}

proof fn lemma_days_before_year_end(y: int)
    ensures
        days_before_month(y, 13) == year_days(y),
        forall|m: int| 1 <= m <= 12 ==> month_days(y, m) >= 28,
{
    assert(days_before_month(y, 13) == days_before_month(y, 12) + month_days(y, 12));
    assert(days_before_month(y, 1) == 0);
    assert(days_before_month(y, 2) == 31);
    assert(days_before_month(y, 3) == days_before_month(y, 2) + month_days(y, 2));
    assert(days_before_month(y, 4) == days_before_month(y, 3) + 31);
    assert(days_before_month(y, 5) == days_before_month(y, 4) + 30);
    assert(days_before_month(y, 6) == days_before_month(y, 5) + 31);
    assert(days_before_month(y, 7) == days_before_month(y, 6) + 30);
    assert(days_before_month(y, 8) == days_before_month(y, 7) + 31);
    assert(days_before_month(y, 9) == days_before_month(y, 8) + 31);
    assert(days_before_month(y, 10) == days_before_month(y, 9) + 30);
    assert(days_before_month(y, 11) == days_before_month(y, 10) + 31);
    assert(days_before_month(y, 12) == days_before_month(y, 11) + 30);
}

fn leap(y: i64) -> (r: bool)
    ensures
        r == is_leap(y as int),
{
    (y % 4 == 0 && y % 100 != 0) || y % 400 == 0
}

fn days_of_year(y: i64) -> (r: i64)
    ensures
        r == year_days(y as int),
{
    if leap(y) {
        366
    } else {
        365
    }
}

fn days_of_month(y: i64, m: i64) -> (r: i64)
    ensures
        r == month_days(y as int, m as int),
{
    if m == 2 {
        if leap(y) {
            29
        } else {
            28
        }
    } else if m == 4 || m == 6 || m == 9 || m == 11 {
        30
    } else {
        31
    }
}

/// The calendar date of day `days` after the first of January 1970.
pub fn civil_date(days: i64) -> (r: (i64, i64, i64))
    requires
        -100_000_000 <= days <= 100_000_000,
    ensures
        (r.0 as int, r.1 as int, r.2 as int) == civil(days as int),
        -300_000 <= r.0 <= 300_000,
        1 <= r.1 <= 12,
        1 <= r.2 <= 31,
{
    let mut y: i64 = 1970;
    let mut d: i64 = days;
    while d < 0
        invariant
            year_and_day(1970, days as int) == year_and_day(y as int, d as int),
            -100_000_000 <= days <= 100_000_000,
            y <= 1970,
            y >= -300_000,
            d >= days + 365 * (1970 - y),
            d <= 100_000_000,
        decreases (if d < 0 {
            -d
        } else {
            0
        }),
    {
        y = y - 1;
        d = d + days_of_year(y);
    }
    let ghost y0 = y;
    let ghost d0 = d;
    while d >= days_of_year(y)
        invariant
            year_and_day(1970, days as int) == year_and_day(y as int, d as int),
            0 <= d <= d0,
            d0 <= 100_000_000,
            -300_000 <= y0 <= 1970,
            y >= y0,
            y <= 300_000,
            d <= d0 - 365 * (y - y0),
        decreases d,
    {
        d = d - days_of_year(y);
        y = y + 1;
    }
    let ghost yd = d;
    proof {
        lemma_days_before_year_end(y as int);
    }
    let mut m: i64 = 1;
    while m < 12 && d >= days_of_month(y, m)
        invariant
            1 <= m <= 12,
            0 <= d,
            -300_000 <= y <= 300_000,
            month_and_day(y as int, 1, yd as int) == month_and_day(y as int, m as int, d as int),
            d + days_before_month(y as int, m as int) == yd,
            yd < year_days(y as int),
            days_before_month(y as int, 13) == year_days(y as int),
        decreases 12 - m,
    {
        d = d - days_of_month(y, m);
        m = m + 1;
    }
    proof {
        if m == 12 {
            assert(days_before_month(y as int, 13) == days_before_month(y as int, 12) + month_days(
                y as int,
                12,
            ));
        }
    }
    (y, m, d + 1)
}

fn two(n: i64) -> (r: Vec<char>)
    requires
        0 <= n < 100,
    ensures
        r@ == two_digits(n as int),
{
    let digits = chars_of("0123456789");
    proof {
        reveal_strlit("0123456789");
    }
    let mut r: Vec<char> = Vec::new();
    r.push(digits[(n / 10) as usize]);
    r.push(digits[(n % 10) as usize]);
    assert(r@ =~= two_digits(n as int));
    r
}

/// Splits local seconds into days since 1970 and the second of that day.
fn day_and_second(secs: i64) -> (r: (i64, i64))
    requires
        -LABEL_LIMIT <= secs <= LABEL_LIMIT,
    ensures
        r.0 as int == secs as int / 86400,
        r.1 as int == secs as int % 86400,
        -100_000_000 <= r.0 <= 100_000_000,
        0 <= r.1 < 86400,
{
    let shifted = (secs + LABEL_LIMIT) as u64;
    let days = (shifted / 86400) as i64 - 100_000_000;
    let sod = (shifted % 86400) as i64;
    proof {
        let q = secs as int / 86400;
        let r = secs as int % 86400;
        lemma_fundamental_div_mod(secs as int, 86400);
        lemma_div_multiples_vanish_fancy(q + 100_000_000, r, 86400);
        lemma_mod_multiples_vanish(q + 100_000_000, r, 86400);
        lemma_small_mod(r as nat, 86400);
        assert(secs + LABEL_LIMIT == 86400 * (q + 100_000_000) + r);
    }
    (days, sod)
}

/// Local time `secs` as `%m/%d %H:%M`.
pub fn month_day_label(secs: i64) -> (r: String)
    requires
        -LABEL_LIMIT <= secs <= LABEL_LIMIT,
    ensures
        r@ == month_day_text(secs as int),
{
    let (days, sod) = day_and_second(secs);
    let (_, m, d) = civil_date(days);
    let mut v = two(m);
    v.push('/');
    push_text(&mut v, two(d).as_slice());
    v.push(' ');
    push_text(&mut v, two(sod / 3600).as_slice());
    v.push(':');
    push_text(&mut v, two((sod % 3600) / 60).as_slice());
    text_of(v.as_slice())
}

fn year_chars(y: i64) -> (r: Vec<char>)
    requires
        -400_000 <= y <= 400_000,
    ensures
        r@ == year_text(y as int),
{
    if 0 <= y && y <= 9999 {
        let mut v = two(y / 100);
        push_text(&mut v, two(y % 100).as_slice());
        v
    } else if y > 9999 {
        let mut v: Vec<char> = Vec::new();
        v.push('+');
        push_text(&mut v, decimal_chars(y as u64).as_slice());
        v
    } else if -y <= 9999 {
        let mut v: Vec<char> = Vec::new();
        v.push('-');
        push_text(&mut v, two(-y / 100).as_slice());
        push_text(&mut v, two(-y % 100).as_slice());
        v
    } else {
        let mut v: Vec<char> = Vec::new();
        v.push('-');
        push_text(&mut v, decimal_chars((-y) as u64).as_slice());
        v
    }
}

/// Local time `secs` as `%Y-%m-%d %H:%M`.
pub fn full_minute_label(secs: i64) -> (r: String)
    requires
        -LABEL_LIMIT <= secs <= LABEL_LIMIT,
    ensures
        r@ == full_minute_text(secs as int),
{
    let (days, sod) = day_and_second(secs);
    let (y, m, d) = civil_date(days);
    let mut v = year_chars(y);
    v.push('-');
    push_text(&mut v, two(m).as_slice());
    v.push('-');
    push_text(&mut v, two(d).as_slice());
    v.push(' ');
    push_text(&mut v, two(sod / 3600).as_slice());
    v.push(':');
    push_text(&mut v, two((sod % 3600) / 60).as_slice());
    text_of(v.as_slice())
}

/// Relies on chrono's `Local.timestamp_opt(secs, 0).single()` and
/// `FixedOffset::local_minus_utc`: the machine's offset from UTC at that instant,
/// if chrono can place it; a `FixedOffset` lies within a day either way.
#[verifier::external_body]
fn local_offset(secs: i64) -> (r: Option<i32>)
    ensures
        r matches Some(o) ==> -86_400 < o < 86_400,
{
    chrono::Local.timestamp_opt(secs, 0).single().map(|d| d.offset().local_minus_utc())
}

/// Relies on chrono's `Local::now().timestamp()`: the time now in seconds since the
/// Unix epoch. It depends on the clock, so nothing is stated of it.
#[verifier::external_body]
pub(crate) fn unix_now() -> (r: i64) {
    chrono::Local::now().timestamp()
}

/// The local time of instant `secs`, given the machine's offset from UTC at it, if
/// that is known and the time can be labelled.
pub open spec fn local_secs(secs: i64, offset: Option<i32>) -> Option<int> {
    match offset {
        Some(o) => if -LABEL_LIMIT <= secs + o <= LABEL_LIMIT {
            Some(secs + o)
        } else {
            None
        },
        None => None,
    }
}

/// The local `%m/%d %H:%M` label of instant `secs`, given the offset from UTC
/// there; see `local_secs`.
pub fn local_month_day(secs: i64, offset: Option<i32>) -> (r: Option<String>)
    ensures
        match local_secs(secs, offset) {
            Some(t) => r matches Some(s) && s@ == month_day_text(t),
            None => r is None,
        },
{
    match offset {
        Some(o) => {
            if secs >= -LABEL_LIMIT - (o as i64) && secs <= LABEL_LIMIT - (o as i64) {
                Some(month_day_label(secs + o as i64))
            } else {
                None
            }
        },
        None => None,
    }
}

/// The local `%Y-%m-%d %H:%M` label of instant `secs`, given the offset from UTC
/// there; see `local_secs`.
pub fn local_full_minute(secs: i64, offset: Option<i32>) -> (r: Option<String>)
    ensures
        match local_secs(secs, offset) {
            Some(t) => r matches Some(s) && s@ == full_minute_text(t),
            None => r is None,
        },
{
    match offset {
        Some(o) => {
            if secs >= -LABEL_LIMIT - (o as i64) && secs <= LABEL_LIMIT - (o as i64) {
                Some(full_minute_label(secs + o as i64))
            } else {
                None
            }
        },
        None => None,
    }
}

/// The local `%m/%d %H:%M` label of instant `secs` on this machine, or of the
/// instant `now` where `secs` cannot be placed, or `--` where neither can. The
/// label is of a local time less than a day from the instant it stands for.
pub fn transaction_date(secs: i64, now: i64) -> (r: String)
    ensures
        r@ == "--"@ || exists|t: int|
            (-86_400 < t - secs < 86_400 || -86_400 < t - now < 86_400) && #[trigger] month_day_text(
                t,
            ) == r@,
{
    match local_month_day(secs, local_offset(secs)) {
        Some(s) => s,
        None => {
            match local_month_day(now, local_offset(now)) {
                Some(s) => s,
                None => text_of(chars_of("--").as_slice()),
            }
        },
    }
}

/// The local `%Y-%m-%d %H:%M` label of instant `secs` on this machine, if it can
/// be placed.
pub fn ban_date(secs: i64) -> (r: Option<String>)
    ensures
        r matches Some(s) ==> exists|t: int|
            -86_400 < t - secs < 86_400 && #[trigger] full_minute_text(t) == s@,
{
    local_full_minute(secs, local_offset(secs))
}

} // verus!
