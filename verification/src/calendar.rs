//! Calendar dates and timestamps for the app's log.
//!
//! The date of a day count is computed with Howard Hinnant's civil-from-days
//! algorithm and proved against a direct count of days in the proleptic
//! Gregorian calendar.
use vstd::prelude::*;

use crate::text::{extend_chars, string_of, zero_padded, zero_padded_chars};

verus! {

// ---------------------------------------------------------------------------
// The proleptic Gregorian calendar
// ---------------------------------------------------------------------------

/// Leap years are the multiples of 4, except the multiples of 100 that are
/// not multiples of 400.
pub open spec fn is_leap(y: int) -> bool {
    (y % 4 == 0 && y % 100 != 0) || y % 400 == 0
}

pub open spec fn days_in_month(y: int, m: int) -> int {
    if m == 2 {
        if is_leap(y) {
            29
        } else {
            28
        }
    } else if m == 4 || m == 6 || m == 9 || m == 11 {
        30
    } else {
        31
    }
}

/// `(y, m, d)` names a day that exists.
pub open spec fn valid_date(y: int, m: int, d: int) -> bool {
    1 <= m <= 12 && 1 <= d <= days_in_month(y, m)
}

/// How many leap years lie in `1..=n` (counted negatively for `n < 0`, so
/// that differences count the leap years of any span).
pub open spec fn leaps_through(n: int) -> int {
    n / 4 - n / 100 + n / 400
}

/// Days from 0001-01-01 to the first day of year `y`.
pub open spec fn days_before_year(y: int) -> int {
    365 * (y - 1) + leaps_through(y - 1)
}

/// Days from the first of January to the first day of month `m` in a
/// common (non-leap) year.
pub open spec fn common_days_before_month(m: int) -> int {
    if m == 1 {
        0
    } else if m == 2 {
        31
    } else if m == 3 {
        59
    } else if m == 4 {
        90
    } else if m == 5 {
        120
    } else if m == 6 {
        151
    } else if m == 7 {
        181
    } else if m == 8 {
        212
    } else if m == 9 {
        243
    } else if m == 10 {
        273
    } else if m == 11 {
        304
    } else {
        334
    }
}

/// Days from the first of January to the first day of month `m` of year `y`.
pub open spec fn days_before_month(y: int, m: int) -> int {
    if m > 2 && is_leap(y) {
        common_days_before_month(m) + 1
    } else {
        common_days_before_month(m)
    }
}

/// Days from 1970-01-01 to `(y, m, d)`; negative before it.
pub open spec fn days_from_civil(y: int, m: int, d: int) -> int {
    days_before_year(y) + days_before_month(y, m) + (d - 1) - days_before_year(1970)
}

// ---------------------------------------------------------------------------
// Facts about the algorithm's intermediate values
// ---------------------------------------------------------------------------

/// First day of year-of-era `yoe` within a 400-year era starting on 1 March.
pub open spec fn era_year_start(yoe: int) -> int {
    365 * yoe + yoe / 4 - yoe / 100
}

proof fn lemma_year_of_era_bound(doe: u32, yoe: u32)
    by (bit_vector)
    requires
        doe < 146097,
        yoe == ((doe - doe / 1460 + doe / 36524 - doe / 146096) / 365) as u32,
    ensures
        yoe <= 399,
{
}

proof fn lemma_year_of_era_span(doe: u32, yoe: u32, n: u32, s: u32, s1: u32)
    by (bit_vector)
    requires
        doe < 146097,
        yoe == ((doe - doe / 1460 + doe / 36524 - doe / 146096) / 365) as u32,
        n == (yoe + 1) as u32,
        s == (((365 * yoe) as u32 + yoe / 4) as u32 - yoe / 100) as u32,
        s1 == ((((365 * n) as u32 + n / 4) as u32 - n / 100) as u32 + n / 400) as u32,
    ensures
        s <= doe,
        doe < s1,
{
}

proof fn lemma_month_of_year(doy: u32, mp: u32, b: u32, b1: u32)
    by (bit_vector)
    requires
        doy <= 365,
        mp == (((5 * doy) as u32 + 2) as u32 / 153) as u32,
        b == (((153 * mp) as u32 + 2) as u32 / 5) as u32,
        b1 == (((153 * (mp + 1) as u32) as u32 + 2) as u32 / 5) as u32,
    ensures
        mp <= 11,
        b <= doy,
        doy < b1,
{
}

proof fn lemma_era_year_length(yoe: int)
    requires
        0 <= yoe <= 399,
    ensures
        era_year_start(yoe + 1) + (yoe + 1) / 400 - era_year_start(yoe) == 365 + (if is_leap(
            yoe + 1,
        ) {
            1int
        } else {
            0int
        }),
{
    let n = yoe + 1;
    assert(n / 4 - yoe / 4 == (if n % 4 == 0 {
        1int
    } else {
        0int
    })) by (nonlinear_arith)
        requires
            n == yoe + 1,
            0 <= yoe,
    ;
    assert(n / 100 - yoe / 100 == (if n % 100 == 0 {
        1int
    } else {
        0int
    })) by (nonlinear_arith)
        requires
            n == yoe + 1,
            0 <= yoe,
    ;
    assert(n / 400 == (if n % 400 == 0 {
        1int
    } else {
        0int
    })) by (nonlinear_arith)
        requires
            1 <= n <= 400,
    ;
    assert(n % 400 == 0 ==> n % 4 == 0 && n % 100 == 0) by (nonlinear_arith)
        requires
            1 <= n <= 400,
    ;
}

proof fn lemma_leaps_in_era(era: int, yoe: int)
    requires
        0 <= yoe <= 399,
    ensures
        leaps_through(400 * era + yoe) == 97 * era + yoe / 4 - yoe / 100,
{
    let n = 400 * era + yoe;
    assert(n / 4 == 100 * era + yoe / 4) by (nonlinear_arith)
        requires
            n == 400 * era + yoe,
            0 <= yoe,
    ;
    assert(n / 100 == 4 * era + yoe / 100) by (nonlinear_arith)
        requires
            n == 400 * era + yoe,
            0 <= yoe,
    ;
    assert(n / 400 == era) by (nonlinear_arith)
        requires
            n == 400 * era + yoe,
            0 <= yoe < 400,
    ;
}

proof fn lemma_leaps_step(y: int)
    ensures
        leaps_through(y) == leaps_through(y - 1) + (if is_leap(y) {
            1int
        } else {
            0int
        }),
{
    let p = y - 1;
    assert(y / 4 - p / 4 == (if y % 4 == 0 {
        1int
    } else {
        0int
    })) by (nonlinear_arith)
        requires
            p == y - 1,
    ;
    assert(y / 100 - p / 100 == (if y % 100 == 0 {
        1int
    } else {
        0int
    })) by (nonlinear_arith)
        requires
            p == y - 1,
    ;
    assert(y / 400 - p / 400 == (if y % 400 == 0 {
        1int
    } else {
        0int
    })) by (nonlinear_arith)
        requires
            p == y - 1,
    ;
    assert(y % 400 == 0 ==> y % 4 == 0 && y % 100 == 0) by (nonlinear_arith);
}

proof fn lemma_leap_mod_era(era: int, n: int)
    ensures
        is_leap(400 * era + n) == is_leap(n),
{
    assert((400 * era + n) % 4 == n % 4) by (nonlinear_arith);
    assert((400 * era + n) % 100 == n % 100) by (nonlinear_arith);
    assert((400 * era + n) % 400 == n % 400) by (nonlinear_arith);
}


/// Days from 1 March to the first day of the `mp`-th month counted from March.
pub open spec fn march_offset(mp: int) -> int {
    (153 * mp + 2) / 5
}

/// The calendar month of the `mp`-th month counted from March.
pub open spec fn month_of_march_index(mp: int) -> int {
    if mp < 10 {
        mp + 3
    } else {
        mp - 9
    }
}

proof fn lemma_march_table(mp: int)
    requires
        0 <= mp <= 11,
    ensures
        1 <= month_of_march_index(mp) <= 12,
        mp < 10 ==> common_days_before_month(month_of_march_index(mp)) == 59 + march_offset(mp),
        mp >= 10 ==> common_days_before_month(month_of_march_index(mp)) == march_offset(mp) - 306,
        mp != 11 ==> march_offset(mp + 1) - march_offset(mp) == days_in_month(
            1,
            month_of_march_index(mp),
        ),
        mp == 11 ==> march_offset(mp) == 337,
{
    if mp == 0 {
    } else if mp == 1 {
    } else if mp == 2 {
    } else if mp == 3 {
    } else if mp == 4 {
    } else if mp == 5 {
    } else if mp == 6 {
    } else if mp == 7 {
    } else if mp == 8 {
    } else if mp == 9 {
    } else if mp == 10 {
    } else {
    }
}

/// The date that Hinnant's intermediate values denote, and its day count.
proof fn lemma_civil(era: int, yoe: int, doy: int, mp: int)
    requires
        0 <= yoe <= 399,
        0 <= doy <= 365,
        doy == 365 ==> is_leap(yoe + 1),
        0 <= mp <= 11,
        march_offset(mp) <= doy < march_offset(mp + 1),
    ensures
        ({
            let y = 400 * era + yoe;
            let m = month_of_march_index(mp);
            let d = doy - march_offset(mp) + 1;
            let year = if m <= 2 {
                y + 1
            } else {
                y
            };
            &&& valid_date(year, m, d)
            &&& days_from_civil(year, m, d) == era * 146097 + era_year_start(yoe) + doy - 719468
        }),
{
    let y = 400 * era + yoe;
    let m = month_of_march_index(mp);
    let d = doy - march_offset(mp) + 1;
    let year = if m <= 2 {
        y + 1
    } else {
        y
    };
    lemma_march_table(mp);
    lemma_leap_mod_era(era, yoe + 1);
    lemma_leap_mod_era(era, yoe);
    lemma_leaps_in_era(era, yoe);
    assert(days_before_year(1970) == 719162);
    if mp == 11 {
        assert(m == 2 && year == y + 1);
        assert(d <= days_in_month(year, m));
    } else {
        assert(days_in_month(year, m) == days_in_month(1, m));
    }
    if m <= 2 {
        assert(days_before_year(year) == 365 * y + leaps_through(y));
    } else {
        lemma_leaps_step(y);
    }
}

// ---------------------------------------------------------------------------
// Days to dates
// ---------------------------------------------------------------------------

/// Howard Hinnant's civil-from-days: days since 1970-01-01 to `(y, m, d)`.
///
/// The result is the one valid date that lies `days` days after
/// 1970-01-01 (before it, for a negative count).
#[verifier::rlimit(60)]
pub fn civil_from_days(days: i64) -> (r: (i64, u32, u32))
    requires
        days <= i64::MAX - 719_468,
    ensures
        valid_date(r.0 as int, r.1 as int, r.2 as int),
        days_from_civil(r.0 as int, r.1 as int, r.2 as int) == days,
        r.0 > i64::MIN,
{
    let z: i64 = days + 719_468;
    let (era, doe): (i64, u64) = if z >= 0 {
        let q: u64 = (z as u64) / 146_097;
        let r: u64 = (z as u64) % 146_097;
        assert(q * 146_097 + r == z) by (nonlinear_arith)
            requires
                q == (z as u64) / 146_097,
                r == (z as u64) % 146_097,
                z >= 0,
        ;
        assert(q <= i64::MAX) by (nonlinear_arith)
            requires
                q == (z as u64) / 146_097,
                z >= 0,
        ;
        (q as i64, r)
    } else {
        let w: u64 = (-(z + 1)) as u64;
        let q: u64 = w / 146_097;
        let r: u64 = w % 146_097;
        assert(q * 146_097 + r == w && r < 146_097 && q * 146_097 <= w) by (nonlinear_arith)
            requires
                q == w / 146_097,
                r == w % 146_097,
        ;
        let doe: u64 = 146_096 - r;
        let era: i64 = -(q as i64) - 1;
        assert(era * 146_097 + doe == z) by (nonlinear_arith)
            requires
                era == -(q as int) - 1,
                doe == 146_096 - r,
                q * 146_097 + r == -(z + 1),
        ;
        (era, doe)
    };
    assert(era * 146_097 + doe == z && doe < 146_097);
    let doe32: u32 = doe as u32;
    assert(doe32 / 1460 <= doe32 && doe32 / 146_096 <= doe32 / 36_524) by (bit_vector)
        requires
            doe32 < 146097,
    ;
    let yoe32: u32 = (doe32 - doe32 / 1460 + doe32 / 36_524 - doe32 / 146_096) / 365;
    proof {
        lemma_year_of_era_bound(doe32, yoe32);
    }
    let n32: u32 = yoe32 + 1;
    let start32: u32 = 365 * yoe32 + yoe32 / 4 - yoe32 / 100;
    let next32: u32 = 365 * n32 + n32 / 4 - n32 / 100 + n32 / 400;
    proof {
        lemma_year_of_era_span(doe32, yoe32, n32, start32, next32);
        lemma_era_year_length(yoe32 as int);
    }
    let yoe: u64 = yoe32 as u64;
    assert(start32 == era_year_start(yoe as int));
    let doy: u64 = doe - start32 as u64;
    assert(doy <= 365);
    assert(doy == 365 ==> is_leap(yoe + 1));
    let doy32: u32 = doy as u32;
    let mp32: u32 = (5 * doy32 + 2) / 153;
    assert(mp32 <= 11) by (bit_vector)
        requires
            doy32 <= 365,
            mp32 == (((5 * doy32) as u32 + 2) as u32 / 153) as u32,
    ;
    let base32: u32 = (153 * mp32 + 2) / 5;
    let next_base32: u32 = (153 * (mp32 + 1) + 2) / 5;
    proof {
        lemma_month_of_year(doy32, mp32, base32, next_base32);
    }
    let mp: u64 = mp32 as u64;
    let base: u64 = base32 as u64;
    let next: u64 = next_base32 as u64;
    let d: u32 = (doy - base + 1) as u32;
    let m: u32 = if mp < 10 {
        (mp + 3) as u32
    } else {
        (mp - 9) as u32
    };
    assert(era * 400 <= i64::MAX - 400 && era * 400 >= i64::MIN + 400) by (nonlinear_arith)
        requires
            era * 146_097 + doe == z,
            doe < 146_097,
            z <= i64::MAX,
            z >= i64::MIN + 719_468,
    ;
    let y: i64 = yoe as i64 + era * 400;
    let year: i64 = if m <= 2 {
        y + 1
    } else {
        y
    };
    proof {
        assert(base32 == march_offset(mp as int));
        assert(next_base32 == march_offset(mp + 1));
        lemma_civil(era as int, yoe as int, doy as int, mp as int);
    }
    (year, m, d)
}


// ---------------------------------------------------------------------------
// One date per day
// ---------------------------------------------------------------------------

pub open spec fn year_length(y: int) -> int {
    if is_leap(y) {
        366
    } else {
        365
    }
}

proof fn lemma_month_step(y: int, m: int)
    requires
        1 <= m <= 11,
    ensures
        days_before_month(y, m + 1) == days_before_month(y, m) + days_in_month(y, m),
        days_before_month(y, 12) + days_in_month(y, 12) == year_length(y),
{
}

proof fn lemma_months_ordered(y: int, m1: int, m2: int)
    requires
        1 <= m1 < m2 <= 12,
    ensures
        days_before_month(y, m1) + days_in_month(y, m1) <= days_before_month(y, m2),
    decreases m2 - m1,
{
    lemma_month_step(y, m1);
    if m1 + 1 < m2 {
        lemma_months_ordered(y, m1 + 1, m2);
    }
}

proof fn lemma_year_step(y: int)
    ensures
        days_before_year(y + 1) == days_before_year(y) + year_length(y),
{
    lemma_leaps_step(y);
}

proof fn lemma_years_ordered(y1: int, y2: int)
    requires
        y1 < y2,
    ensures
        days_before_year(y1) + year_length(y1) <= days_before_year(y2),
    decreases y2 - y1,
{
    lemma_year_step(y1);
    if y1 + 1 < y2 {
        lemma_years_ordered(y1 + 1, y2);
    }
}

proof fn lemma_day_of_year_bound(y: int, m: int, d: int)
    requires
        valid_date(y, m, d),
    ensures
        0 <= days_before_month(y, m) + d - 1 < year_length(y),
{
    if m < 12 {
        lemma_months_ordered(y, m, 12);
    }
    lemma_month_step(y, 1);
}

/// Each day count names exactly one date: two valid dates with the same
/// count of days since 1970-01-01 are the same date. So the contract of
/// `civil_from_days` determines its result.
pub proof fn law_one_date_per_day(y1: int, m1: int, d1: int, y2: int, m2: int, d2: int)
    requires
        valid_date(y1, m1, d1),
        valid_date(y2, m2, d2),
        days_from_civil(y1, m1, d1) == days_from_civil(y2, m2, d2),
    ensures
        y1 == y2,
        m1 == m2,
        d1 == d2,
{
    lemma_day_of_year_bound(y1, m1, d1);
    lemma_day_of_year_bound(y2, m2, d2);
    if y1 < y2 {
        lemma_years_ordered(y1, y2);
    } else if y2 < y1 {
        lemma_years_ordered(y2, y1);
    }
    if m1 < m2 {
        lemma_months_ordered(y1, m1, m2);
    } else if m2 < m1 {
        lemma_months_ordered(y1, m2, m1);
    }
}

/// The date after `(y, m, d)`: the next day of the month, else the first
/// of the next month, else New Year's Day of the next year.
pub open spec fn next_day(y: int, m: int, d: int) -> (int, int, int) {
    if d < days_in_month(y, m) {
        (y, m, d + 1)
    } else if m < 12 {
        (y, m + 1, 1)
    } else {
        (y + 1, 1, 1)
    }
}

/// The date after a valid date is valid, and it is one day later.
pub proof fn law_next_day(y: int, m: int, d: int)
    requires
        valid_date(y, m, d),
    ensures
        ({
            let (y2, m2, d2) = next_day(y, m, d);
            valid_date(y2, m2, d2) && days_from_civil(y2, m2, d2) == days_from_civil(y, m, d) + 1
        }),
{
    if d < days_in_month(y, m) {
    } else if m < 12 {
        lemma_month_step(y, m);
    } else {
        lemma_month_step(y, 1);
        lemma_year_step(y);
    }
}

/// Successive day counts name successive dates: the date of day `n + 1` is
/// the date after the date of day `n`. With the contract of
/// `civil_from_days`, `civil_from_days(n + 1)` is the day after
/// `civil_from_days(n)`.
pub proof fn law_successive_days(y1: int, m1: int, d1: int, y2: int, m2: int, d2: int)
    requires
        valid_date(y1, m1, d1),
        valid_date(y2, m2, d2),
        days_from_civil(y2, m2, d2) == days_from_civil(y1, m1, d1) + 1,
    ensures
        (y2, m2, d2) == next_day(y1, m1, d1),
{
    law_next_day(y1, m1, d1);
    let (y3, m3, d3) = next_day(y1, m1, d1);
    law_one_date_per_day(y2, m2, d2, y3, m3, d3);
}

// ---------------------------------------------------------------------------
// Timestamps
// ---------------------------------------------------------------------------

/// `format!("{n:0width$}")` for a signed `n`: the sign, then the magnitude
/// zero-padded so that the whole is at least `width` characters.
pub open spec fn signed_padded(n: int, width: nat) -> Seq<char> {
    if n < 0 {
        seq!['-'] + zero_padded((-n) as nat, if width > 0 {
            (width - 1) as nat
        } else {
            0
        })
    } else {
        zero_padded(n as nat, width)
    }
}

/// `YYYY-MM-DD HH:MM:SS` for the date `(y, m, d)` and `time` seconds into it.
pub open spec fn stamp_text(y: int, m: int, d: int, time: int) -> Seq<char> {
    signed_padded(y, 4) + seq!['-'] + zero_padded(m as nat, 2) + seq!['-'] + zero_padded(
        d as nat,
        2,
    ) + seq![' '] + zero_padded((time / 3600) as nat, 2) + seq![':'] + zero_padded(
        ((time % 3600) / 60) as nat,
        2,
    ) + seq![':'] + zero_padded((time % 60) as nat, 2)
}

fn signed_padded_chars(n: i64, width: usize) -> (r: Vec<char>)
    requires
        n > i64::MIN,
    ensures
        r@ == signed_padded(n as int, width as nat),
{
    if n < 0 {
        let mut r = Vec::new();
        r.push('-');
        let mag = zero_padded_chars((-n) as u64, if width > 0 {
            width - 1
        } else {
            0
        });
        extend_chars(&mut r, &mag);
        assert(r@ =~= signed_padded(n as int, width as nat));
        r
    } else {
        zero_padded_chars(n as u64, width)
    }
}

/// The UTC timestamp of `secs` seconds after the epoch, as
/// `YYYY-MM-DD HH:MM:SS`. The date is the one valid date lying
/// `secs / 86400` (rounded down) days after 1970-01-01.
pub fn format_stamp(secs: i64) -> (r: String)
    ensures
        exists|y: int, m: int, d: int|
            #![trigger days_from_civil(y, m, d)]
            valid_date(y, m, d) && days_from_civil(y, m, d) == (secs as int) / 86400 && r@
                == stamp_text(y, m, d, (secs as int) % 86400),
{
    let (days, time): (i64, i64) = if secs >= 0 {
        (secs / 86_400, secs % 86_400)
    } else {
        let w: i64 = -(secs + 1);
        let q: i64 = w / 86_400;
        let rem: i64 = w % 86_400;
        assert(q * 86_400 + rem == w && 0 <= rem < 86_400) by (nonlinear_arith)
            requires
                q == w / 86_400,
                rem == w % 86_400,
                w >= 0,
        ;
        (-q - 1, 86_399 - rem)
    };
    assert(days == (secs as int) / 86400 && time == (secs as int) % 86400) by (nonlinear_arith)
        requires
            days * 86400 + time == secs,
            0 <= time < 86400,
    ;
    assert(days <= i64::MAX / 86_400 && days >= i64::MIN / 86_400 - 1) by (nonlinear_arith)
        requires
            days * 86400 + time == secs,
            0 <= time < 86400,
    ;
    let (year, month, day) = civil_from_days(days);
    let mut out = signed_padded_chars(year, 4);
    out.push('-');
    extend_chars(&mut out, &zero_padded_chars(month as u64, 2));
    out.push('-');
    extend_chars(&mut out, &zero_padded_chars(day as u64, 2));
    out.push(' ');
    extend_chars(&mut out, &zero_padded_chars((time / 3600) as u64, 2));
    out.push(':');
    extend_chars(&mut out, &zero_padded_chars(((time % 3600) / 60) as u64, 2));
    out.push(':');
    extend_chars(&mut out, &zero_padded_chars((time % 60) as u64, 2));
    assert(out@ =~= stamp_text(year as int, month as int, day as int, time as int));
    string_of(&out)
}

} // verus!
