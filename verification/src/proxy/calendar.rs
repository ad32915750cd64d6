//! The proleptic Gregorian calendar and the text of dates and times of day.

use crate::number::{padded_decimal, padded_signed, push_padded, push_padded_signed};
use vstd::prelude::*;

verus! {

/// Microseconds in a day.
pub const DAY_MICROS: i64 = 86_400_000_000;

/// Whether a year has a 29th of February.
pub open spec fn is_leap(y: int) -> bool {
    y % 4 == 0 && (y % 100 != 0 || y % 400 == 0)
}

/// The number of days of a month.
pub open spec fn month_length(y: int, m: int) -> int {
    if m == 2 {
        if is_leap(y) { 29 } else { 28 }
    } else if m == 4 || m == 6 || m == 9 || m == 11 {
        30
    } else {
        31
    }
}

/// Whether year, month and day name a date.
pub open spec fn is_date(y: int, m: int, d: int) -> bool {
    1 <= m <= 12 && 1 <= d <= month_length(y, m)
}

/// The number of days of the months of a year before month `m`.
pub open spec fn days_before_month(y: int, m: int) -> int
    decreases m,
{
    if m <= 1 {
        0
    } else {
        days_before_month(y, m - 1) + month_length(y, m - 1)
    }
}

/// The number of days from 2000-01-01 to the first of January of a year: 365
/// for each year and one for each leap year between.
pub open spec fn days_before_year(y: int) -> int {
    365 * (y - 2000) + ((y - 1) / 4 - 499) - ((y - 1) / 100 - 19) + ((y - 1) / 400 - 4)
}

/// The number of days from 2000-01-01 to a date.
pub open spec fn day_number(y: int, m: int, d: int) -> int {
    days_before_year(y) + days_before_month(y, m) + d - 1
}

/// The date that lies `days` days after 2000-01-01.
pub open spec fn date_of(days: int) -> (int, int, int) {
    choose|t: (int, int, int)| is_date(t.0, t.1, t.2) && #[trigger] day_number(t.0, t.1, t.2) == days
}

/// A year has 366 days if it is a leap year, else 365.
pub proof fn law_year_length(y: int)
    ensures
        days_before_year(y + 1) - days_before_year(y) == (if is_leap(y) { 366int } else { 365int }),
        days_before_month(y, 13) == (if is_leap(y) { 366int } else { 365int }),
{
    reveal_with_fuel(days_before_month, 13);
}

proof fn lemma_years_apart(y: int, z: int)
    requires
        y < z,
    ensures
        days_before_year(y) + days_before_month(y, 13) <= days_before_year(z),
    decreases z - y,
{
    law_year_length(y);
    if y + 1 < z {
        law_year_length(y + 1);
        lemma_years_apart(y + 1, z);
    }
}

proof fn lemma_months_apart(y: int, m: int, n: int)
    requires
        1 <= m < n <= 13,
    ensures
        days_before_month(y, m) + month_length(y, m) <= days_before_month(y, n),
    decreases n - m,
{
    if m + 1 < n {
        lemma_months_apart(y, m, n - 1);
    }
}

proof fn lemma_before(y: int, m: int, d: int, z: int, n: int, e: int)
    requires
        is_date(y, m, d),
        is_date(z, n, e),
        y < z || (y == z && m < n) || (y == z && m == n && d < e),
    ensures
        day_number(y, m, d) < day_number(z, n, e),
{
    if y < z {
        lemma_years_apart(y, z);
        lemma_months_apart(y, m, 13);
        if n > 1 {
            lemma_months_apart(z, 1, n);
        }
    } else if m < n {
        lemma_months_apart(y, m, n);
    }
}

/// No two dates lie the same number of days after 2000-01-01.
pub proof fn law_day_number_unique(y: int, m: int, d: int, z: int, n: int, e: int)
    requires
        is_date(y, m, d),
        is_date(z, n, e),
        day_number(y, m, d) == day_number(z, n, e),
    ensures
        y == z && m == n && d == e,
{
    if y < z || (y == z && m < n) || (y == z && m == n && d < e) {
        lemma_before(y, m, d, z, n, e);
    } else if y != z || m != n || d != e {
        lemma_before(z, n, e, y, m, d);
    }
}

proof fn lemma_month_starts(y: int)
    ensures
        days_before_month(y, 1) == 0,
        days_before_month(y, 2) == 31,
        ({
            let march = if is_leap(y) { 60int } else { 59int };
            &&& days_before_month(y, 3) == march
            &&& days_before_month(y, 4) == march + 31
            &&& days_before_month(y, 5) == march + 61
            &&& days_before_month(y, 6) == march + 92
            &&& days_before_month(y, 7) == march + 122
            &&& days_before_month(y, 8) == march + 153
            &&& days_before_month(y, 9) == march + 184
            &&& days_before_month(y, 10) == march + 214
            &&& days_before_month(y, 11) == march + 245
            &&& days_before_month(y, 12) == march + 275
        }),
{
    reveal_with_fuel(days_before_month, 13);
}

/// Where a year that begins in March starts, and that its last day is a leap
/// day only if the next January belongs to a leap year.
proof fn lemma_march_year(era: int, century: int, quad: int, yq: int, doy: int)
    requires
        0 <= century <= 3,
        0 <= quad <= 24,
        0 <= yq <= 3,
        0 <= doy <= 365,
        doy == 365 ==> yq == 3,
        doy == 365 && quad == 24 ==> century == 3,
    ensures
        ({
            let my = era * 400 + century * 100 + quad * 4 + yq;
            &&& days_before_year(my + 1) == era * 146_097 + century * 36_524 + quad * 1461 + yq * 365 - 730_119
            &&& doy == 365 ==> is_leap(my + 1)
        }),
{
    let my = era * 400 + century * 100 + quad * 4 + yq;
    assert(my / 4 == era * 100 + century * 25 + quad);
    assert(my / 100 == era * 4 + century);
    assert(my / 400 == era);
    if doy == 365 {
        assert(my + 1 == 4 * (era * 100 + century * 25 + quad + 1));
        if quad == 24 {
            assert(my + 1 == 400 * (era + 1));
        } else {
            assert((my + 1) / 100 == era * 4 + century);
            assert((my + 1) % 100 == quad * 4 + 4);
        }
    }
}

/// The date of day `doy` of the year that begins in March of `my`.
proof fn lemma_march_date(my: int, doy: int, y: int, m: int, first: int)
    requires
        0 <= doy <= 365,
        doy == 365 ==> is_leap(my + 1),
        y == (if m <= 2 { my + 1 } else { my }),
        ({
            ||| m == 3 && first == 0 && 0 <= doy < 31
            ||| m == 4 && first == 31 && 31 <= doy < 61
            ||| m == 5 && first == 61 && 61 <= doy < 92
            ||| m == 6 && first == 92 && 92 <= doy < 122
            ||| m == 7 && first == 122 && 122 <= doy < 153
            ||| m == 8 && first == 153 && 153 <= doy < 184
            ||| m == 9 && first == 184 && 184 <= doy < 214
            ||| m == 10 && first == 214 && 214 <= doy < 245
            ||| m == 11 && first == 245 && 245 <= doy < 275
            ||| m == 12 && first == 275 && 275 <= doy < 306
            ||| m == 1 && first == 306 && 306 <= doy < 337
            ||| m == 2 && first == 337 && 337 <= doy
        }),
    ensures
        is_date(y, m, doy - first + 1),
        day_number(y, m, doy - first + 1) == days_before_year(my + 1) - 306 + doy,
{
    lemma_month_starts(y);
    law_year_length(my);
}

/// The month, and the first day of it, of day `doy` of a year that begins in
/// March.
spec fn march_month(doy: int) -> (int, int) {
    if doy < 31 {
        (3, 0)
    } else if doy < 61 {
        (4, 31)
    } else if doy < 92 {
        (5, 61)
    } else if doy < 122 {
        (6, 92)
    } else if doy < 153 {
        (7, 122)
    } else if doy < 184 {
        (8, 153)
    } else if doy < 214 {
        (9, 184)
    } else if doy < 245 {
        (10, 214)
    } else if doy < 275 {
        (11, 245)
    } else if doy < 306 {
        (12, 275)
    } else if doy < 337 {
        (1, 306)
    } else {
        (2, 337)
    }
}

/// Every number of days leads to a date.
pub proof fn law_every_day_has_a_date(days: int)
    ensures
        ({
            let (y, m, d) = date_of(days);
            is_date(y, m, d) && day_number(y, m, d) == days
        }),
{
    let z = days + DAYS_TO_2000;
    let era = z / 146_097;
    let doe = z % 146_097;
    let century = if doe >= 109_572 { 3 } else { doe / 36_524 };
    let doc = doe - century * 36_524;
    let quad = doc / 1461;
    let doq = doc - quad * 1461;
    let yq = if doq >= 1095 { 3 } else { doq / 365 };
    let doy = doq - yq * 365;
    let my = era * 400 + century * 100 + quad * 4 + yq;
    let (m, first) = march_month(doy);
    let y = if m <= 2 { my + 1 } else { my };
    lemma_march_year(era, century, quad, yq, doy);
    lemma_march_date(my, doy, y, m, first);
    let u = (y, m, doy - first + 1);
    assert(is_date(u.0, u.1, u.2) && day_number(u.0, u.1, u.2) == days);
}

/// The date right after a date.
pub open spec fn next_date(y: int, m: int, d: int) -> (int, int, int) {
    if d < month_length(y, m) {
        (y, m, d + 1)
    } else if m < 12 {
        (y, m + 1, 1)
    } else {
        (y + 1, 1, 1)
    }
}

/// One day more is the next date of the calendar.
pub proof fn law_next_day(days: int)
    ensures
        ({
            let (y, m, d) = date_of(days);
            date_of(days + 1) == next_date(y, m, d)
        }),
{
    law_every_day_has_a_date(days);
    law_every_day_has_a_date(days + 1);
    let (y, m, d) = date_of(days);
    let (z, n, e) = next_date(y, m, d);
    let t = date_of(days + 1);
    law_year_length(y);
    lemma_month_starts(y);
    assert(days_before_month(y, 13) == days_before_month(y, 12) + month_length(y, 12));
    assert(m < 12 ==> days_before_month(y, m + 1) == days_before_month(y, m) + month_length(y, m));
    assert(days_before_month(z, 1) == 0);
    assert(is_date(z, n, e));
    assert(day_number(z, n, e) == days + 1);
    law_day_number_unique(z, n, e, t.0, t.1, t.2);
}

/// The days from 0000-03-01 to 2000-01-01.
pub const DAYS_TO_2000: i64 = 730_425;

/// The count of days begins with 0000-03-01, and 2000-01-01 is behind it by
/// that many.
pub proof fn law_count_begins_in_march_of_year_zero()
    ensures
        date_of(-DAYS_TO_2000) == (0int, 3int, 1int),
        date_of(0) == (2000int, 1int, 1int),
{
    law_every_day_has_a_date(-DAYS_TO_2000);
    law_every_day_has_a_date(0);
    lemma_month_starts(0);
    lemma_month_starts(2000);
    let t = date_of(-DAYS_TO_2000);
    let u = date_of(0);
    law_day_number_unique(0, 3, 1, t.0, t.1, t.2);
    law_day_number_unique(2000, 1, 1, u.0, u.1, u.2);
}

/// Days since 0000-03-01 to year, month and day.
pub fn civil_from_days(z: i64) -> (r: (i64, u32, u32))
    ensures
        is_date(r.0 as int, r.1 as int, r.2 as int),
        day_number(r.0 as int, r.1 as int, r.2 as int) == z - DAYS_TO_2000,
        (r.0 as int, r.1 as int, r.2 as int) == date_of(z - DAYS_TO_2000),
{
    // Years are counted from March, so that the leap day comes last.
    let era: i64 = if z >= 0 { z / 146_097 } else { -1 - (-(z + 1)) / 146_097 };
    let doe: i64 = if z >= 0 { z % 146_097 } else { 146_096 - (-(z + 1)) % 146_097 };
    proof {
        assert(z == era * 146_097 + doe && 0 <= doe < 146_097);
    }
    let century: i64 = if doe >= 109_572 { 3 } else { doe / 36_524 };
    let doc: i64 = doe - century * 36_524;
    let quad: i64 = doc / 1461;
    let doq: i64 = doc - quad * 1461;
    let yq: i64 = if doq >= 1095 { 3 } else { doq / 365 };
    let doy: i64 = doq - yq * 365;
    let march_year: i64 = era * 400 + century * 100 + quad * 4 + yq;
    let (m, first): (u32, i64) = if doy < 31 {
        (3, 0)
    } else if doy < 61 {
        (4, 31)
    } else if doy < 92 {
        (5, 61)
    } else if doy < 122 {
        (6, 92)
    } else if doy < 153 {
        (7, 122)
    } else if doy < 184 {
        (8, 153)
    } else if doy < 214 {
        (9, 184)
    } else if doy < 245 {
        (10, 214)
    } else if doy < 275 {
        (11, 245)
    } else if doy < 306 {
        (12, 275)
    } else if doy < 337 {
        (1, 306)
    } else {
        (2, 337)
    };
    let d: u32 = (doy - first + 1) as u32;
    let y: i64 = if m <= 2 { march_year + 1 } else { march_year };
    proof {
        let t = date_of(z - DAYS_TO_2000);
        lemma_march_year(era as int, century as int, quad as int, yq as int, doy as int);
        lemma_march_date(march_year as int, doy as int, y as int, m as int, first as int);
        let u = (y as int, m as int, d as int);
        assert(is_date(u.0, u.1, u.2) && day_number(u.0, u.1, u.2) == z - DAYS_TO_2000);
        law_day_number_unique(u.0, u.1, u.2, t.0, t.1, t.2);
    }
    (y, m, d)
}

/// The text `YYYY-MM-DD` of a date.
pub open spec fn date_text(days: int) -> Seq<char> {
    let (y, m, d) = date_of(days);
    padded_signed(y, 4) + seq!['-'] + padded_decimal(m as nat, 2) + seq!['-'] + padded_decimal(d as nat, 2)
}

/// Appends the text of the date that lies `days` days after 2000-01-01.
pub fn push_date(out: &mut String, days: i32)
    ensures
        final(out)@ == old(out)@ + date_text(days as int),
{
    let ghost before = out@;
    let (y, m, d) = civil_from_days(days as i64 + DAYS_TO_2000);
    push_padded_signed(out, y, 4);
    out.push('-');
    push_padded(out, m as u64, 2);
    out.push('-');
    push_padded(out, d as u64, 2);
    proof {
        assert(out@ =~= before + date_text(days as int));
    }
}

/// Hours, minutes and seconds as `HH:MM:SS`, with six digits of microseconds
/// behind a point unless they are zero. Hours take as many digits as they need.
pub open spec fn clock_text(micros: nat) -> Seq<char> {
    let s = micros / 1_000_000;
    let us = micros % 1_000_000;
    let hms = padded_decimal(s / 3600, 2) + seq![':'] + padded_decimal((s / 60) % 60, 2) + seq![':']
        + padded_decimal(s % 60, 2);
    if us == 0 {
        hms
    } else {
        hms + seq!['.'] + padded_decimal(us, 6)
    }
}

/// Appends a span of time as `HH:MM:SS[.ffffff]`.
pub fn push_clock(out: &mut String, micros: u64)
    ensures
        final(out)@ == old(out)@ + clock_text(micros as nat),
{
    let ghost before = out@;
    let s: u64 = micros / 1_000_000;
    let us: u64 = micros % 1_000_000;
    push_padded(out, s / 3600, 2);
    out.push(':');
    push_padded(out, (s / 60) % 60, 2);
    out.push(':');
    push_padded(out, s % 60, 2);
    if us != 0 {
        out.push('.');
        push_padded(out, us, 6);
    }
    proof {
        assert(out@ =~= before + clock_text(micros as nat));
    }
}

/// The text of the point in time `micros` microseconds after 2000-01-01
/// 00:00:00.
pub open spec fn timestamp_text(micros: int) -> Seq<char> {
    date_text(micros / (DAY_MICROS as int)) + seq![' '] + clock_text((micros % (DAY_MICROS as int)) as nat)
}

/// Appends the text of a point in time.
pub fn push_timestamp(out: &mut String, micros: i64)
    ensures
        final(out)@ == old(out)@ + timestamp_text(micros as int),
{
    let ghost before = out@;
    let days: i64 = if micros >= 0 {
        micros / DAY_MICROS
    } else {
        -1 - (-1 - micros) / DAY_MICROS
    };
    let tod: i64 = if micros >= 0 {
        micros % DAY_MICROS
    } else {
        DAY_MICROS - 1 - (-1 - micros) % DAY_MICROS
    };
    proof {
        assert(days == micros as int / 86_400_000_000);
        assert(tod == micros as int % 86_400_000_000);
    }
    push_date(out, days as i32);
    out.push(' ');
    push_clock(out, tod as u64);
    proof {
        assert(out@ =~= before + timestamp_text(micros as int));
    }
}

} // verus!
