//! Model of the proleptic Gregorian calendar read at a fixed UTC+8 offset,
//! together with the trusted bridge to the chrono crate.
//!
//! A civil instant is a count of leap-second-naive seconds since the epoch.
//! `days_from_civil` is the classic closed form for the Gregorian day number
//! of a calendar date; `civil_timestamp` shifts it to seconds and applies the
//! fixed eastern offset of eight hours.

use vstd::prelude::*;
use chrono::{Datelike, Timelike, TimeZone};

verus! {

/// Earliest timestamp chrono's `NaiveDateTime` can hold (start of year -262143).
pub const CIVIL_MIN_TIMESTAMP: i64 = -8334601228800;
/// Latest timestamp chrono's `NaiveDateTime` can hold (end of year 262142).
pub const CIVIL_MAX_TIMESTAMP: i64 = 8210266876799;

/// Timestamps handed to the field decomposition must stay well inside
/// chrono's range, so that shifting by the civil offset cannot leave it.
pub const SAFE_MIN_TIMESTAMP: i64 = -8000000000000;
pub const SAFE_MAX_TIMESTAMP: i64 = 8000000000000;

/// Smallest calendar year chrono accepts.
pub const MIN_CIVIL_YEAR: i32 = -262143;
/// Largest calendar year chrono accepts.
pub const MAX_CIVIL_YEAR: i32 = 262142;

pub open spec fn is_leap_year(y: int) -> bool {
    (y % 4 == 0 && y % 100 != 0) || y % 400 == 0
}

pub open spec fn days_in_month(y: int, m: int) -> int {
    if m == 2 {
        if is_leap_year(y) {
            29
        } else {
            28
        }
    } else if m == 4 || m == 6 || m == 9 || m == 11 {
        30
    } else {
        31
    }
}

/// Day number of a calendar date, with day 0 at 1970-01-01.
pub open spec fn days_from_civil(y: int, m: int, d: int) -> int {
    let yy = if m <= 2 { y - 1 } else { y };
    let era = yy / 400;
    let yoe = yy - era * 400;
    let mp = if m > 2 { m - 3 } else { m + 9 };
    let doy = (153 * mp + 2) / 5 + d - 1;
    let doe = yoe * 365 + yoe / 4 - yoe / 100 + doy;
    era * 146097 + doe - 719468
}

pub open spec fn valid_date(y: int, m: int, d: int) -> bool {
    &&& MIN_CIVIL_YEAR <= y <= MAX_CIVIL_YEAR
    &&& 1 <= m <= 12
    &&& 1 <= d <= days_in_month(y, m)
}

pub open spec fn valid_hms(h: int, mi: int, s: int) -> bool {
    &&& 0 <= h < 24
    &&& 0 <= mi < 60
    &&& 0 <= s < 60
}

/// Timestamp of the civil date-and-time read at the fixed UTC+8 offset.
pub open spec fn civil_timestamp(y: int, m: int, d: int, h: int, mi: int, s: int) -> int {
    days_from_civil(y, m, d) * 86400 + h * 3600 + mi * 60 + s - 28800
}

/// The field combinations that denote exactly one civil instant at UTC+8:
/// a real calendar date, a real time of day, and an instant chrono can hold.
pub open spec fn valid_civil(y: int, m: int, d: int, h: int, mi: int, s: int) -> bool {
    &&& valid_date(y, m, d)
    &&& valid_hms(h, mi, s)
    &&& CIVIL_MIN_TIMESTAMP <= civil_timestamp(y, m, d, h, mi, s) <= CIVIL_MAX_TIMESTAMP
}

/// Day-number bounds for dates from 2024 up to the last supported year:
/// no earlier than 2024-01-01 (day 19723) and no later than the last
/// supported day (95026236).
pub proof fn lemma_days_bounds_from_2024(y: int, m: int, d: int)
    requires
        2024 <= y <= MAX_CIVIL_YEAR,
        1 <= m <= 12,
        1 <= d <= 31,
    ensures
        19723 <= days_from_civil(y, m, d) <= 95026236,
{
    let yy = if m <= 2 { y - 1 } else { y };
    let era = yy / 400;
    let yoe = yy - era * 400;
    let mp = if m > 2 { m - 3 } else { m + 9 };
    let doy = (153 * mp + 2) / 5 + d - 1;
    let doe = yoe * 365 + yoe / 4 - yoe / 100 + doy;
    vstd::arithmetic::div_mod::lemma_fundamental_div_mod(yy, 400);
    vstd::arithmetic::div_mod::lemma_mod_bound(yy, 400);
    assert(0 <= yoe < 400);
    vstd::arithmetic::div_mod::lemma_fundamental_div_mod(yoe, 4);
    vstd::arithmetic::div_mod::lemma_mod_bound(yoe, 4);
    vstd::arithmetic::div_mod::lemma_fundamental_div_mod(yoe, 100);
    vstd::arithmetic::div_mod::lemma_mod_bound(yoe, 100);
    vstd::arithmetic::div_mod::lemma_fundamental_div_mod(153 * mp + 2, 5);
    vstd::arithmetic::div_mod::lemma_mod_bound(153 * mp + 2, 5);
    assert(2023 <= yy <= 262142);
    assert(5 <= era <= 655);
    assert(0 <= yoe / 4 <= 99);
    assert(0 <= yoe / 100 <= 3);
    assert(if m > 2 { 0 <= mp <= 9 } else { 10 <= mp <= 11 });
    assert(mp <= 9 ==> (153 * mp + 2) / 5 <= 275);
    assert(mp <= 11 ==> (153 * mp + 2) / 5 <= 337);
    assert(mp >= 10 ==> (153 * mp + 2) / 5 >= 306);
    assert((153 * mp + 2) / 5 >= 0);
    // Upper bound.
    if era <= 654 {
        assert(doe <= 399 * 365 + 99 + 367 + 30);
        assert(days_from_civil(y, m, d) <= 654 * 146097 + 146101 - 719468);
    } else {
        assert(yy >= 262000);
        if m > 2 {
            assert(yoe <= 142);
            if yoe >= 100 {
                assert(yoe / 100 >= 1);
                assert(doe <= 142 * 365 + 35 - 1 + 305);
            } else {
                assert(doe <= 99 * 365 + 24 + 305);
            }
        } else {
            assert(yoe <= 141);
            if yoe >= 100 {
                assert(yoe / 100 >= 1);
                assert(doe <= 141 * 365 + 35 - 1 + 367);
            } else {
                assert(doe <= 99 * 365 + 24 + 367);
            }
        }
        assert(days_from_civil(y, m, d) <= 655 * 146097 + 52169 - 719468);
    }
    // Lower bound.
    if era >= 6 {
        assert(doe >= 0 - 3);
        assert(days_from_civil(y, m, d) >= 6 * 146097 - 3 - 719468);
    } else {
        assert(era == 5);
        assert(yy == 2000 + yoe);
        if m > 2 {
            assert(yoe >= 24);
            if yoe <= 99 {
                assert(yoe / 100 == 0);
                assert(yoe / 4 >= 6);
                assert(doe >= 24 * 365 + 6);
            } else {
                assert(doe >= 100 * 365 + 25 - 3);
            }
        } else {
            assert(yoe >= 23);
            assert(doy >= 306);
            if yoe <= 99 {
                assert(yoe / 100 == 0);
                assert(yoe / 4 >= 5);
                assert(doe >= 23 * 365 + 5 + 306);
            } else {
                assert(doe >= 100 * 365 + 25 - 3);
            }
        }
        assert(days_from_civil(y, m, d) >= 5 * 146097 + 8706 - 719468);
    }
}

/// Every date of a year up to 2023 has a day number at most 19722, the day
/// before 2024-01-01.
pub proof fn lemma_days_bound_before_2024(y: int, m: int, d: int)
    requires
        y <= 2023,
        1 <= m <= 12,
        1 <= d <= 31,
    ensures
        days_from_civil(y, m, d) <= 19722,
{
    let yy = if m <= 2 { y - 1 } else { y };
    let era = yy / 400;
    let yoe = yy - era * 400;
    let mp = if m > 2 { m - 3 } else { m + 9 };
    let doy = (153 * mp + 2) / 5 + d - 1;
    let doe = yoe * 365 + yoe / 4 - yoe / 100 + doy;
    vstd::arithmetic::div_mod::lemma_fundamental_div_mod(yy, 400);
    vstd::arithmetic::div_mod::lemma_mod_bound(yy, 400);
    assert(0 <= yoe < 400);
    vstd::arithmetic::div_mod::lemma_fundamental_div_mod(yoe, 4);
    vstd::arithmetic::div_mod::lemma_mod_bound(yoe, 4);
    vstd::arithmetic::div_mod::lemma_fundamental_div_mod(153 * mp + 2, 5);
    vstd::arithmetic::div_mod::lemma_mod_bound(153 * mp + 2, 5);
    assert(yy <= 2023);
    assert(era <= 5);
    assert(0 <= yoe / 4 <= 99);
    assert(yoe / 100 >= 0);
    assert(if m > 2 { 0 <= mp <= 9 } else { 10 <= mp <= 11 });
    assert(mp <= 9 ==> (153 * mp + 2) / 5 <= 275);
    assert(mp <= 11 ==> (153 * mp + 2) / 5 <= 337);
    if era <= 4 {
        assert(doe <= 399 * 365 + 99 + 367 + 30);
        assert(days_from_civil(y, m, d) <= 4 * 146097 + 146101 - 719468);
    } else {
        assert(yy == 2000 + yoe);
        if m > 2 {
            assert(yoe <= 23);
            assert(yoe / 4 <= 5);
            assert(doe <= 23 * 365 + 5 + 305);
        } else {
            assert(yoe <= 22);
            assert(yoe / 4 <= 5);
            assert(doe <= 22 * 365 + 5 + 367);
        }
        assert(days_from_civil(y, m, d) <= 5 * 146097 + 8705 - 719468);
    }
}

/// Every date of a year from 2025 on has a day number at least 20089, the
/// day number of 2025-01-01.
pub proof fn lemma_days_bound_from_2025(y: int, m: int, d: int)
    requires
        y >= 2025,
        1 <= m <= 12,
        1 <= d <= 31,
    ensures
        days_from_civil(y, m, d) >= 20089,
{
    let yy = if m <= 2 { y - 1 } else { y };
    let era = yy / 400;
    let yoe = yy - era * 400;
    let mp = if m > 2 { m - 3 } else { m + 9 };
    let doy = (153 * mp + 2) / 5 + d - 1;
    let doe = yoe * 365 + yoe / 4 - yoe / 100 + doy;
    vstd::arithmetic::div_mod::lemma_fundamental_div_mod(yy, 400);
    vstd::arithmetic::div_mod::lemma_mod_bound(yy, 400);
    assert(0 <= yoe < 400);
    vstd::arithmetic::div_mod::lemma_fundamental_div_mod(yoe, 4);
    vstd::arithmetic::div_mod::lemma_mod_bound(yoe, 4);
    vstd::arithmetic::div_mod::lemma_fundamental_div_mod(yoe, 100);
    vstd::arithmetic::div_mod::lemma_mod_bound(yoe, 100);
    vstd::arithmetic::div_mod::lemma_fundamental_div_mod(153 * mp + 2, 5);
    vstd::arithmetic::div_mod::lemma_mod_bound(153 * mp + 2, 5);
    assert(yy >= 2024);
    assert(era >= 5);
    assert(yoe / 100 <= 3);
    assert(if m > 2 { 0 <= mp <= 9 } else { 10 <= mp <= 11 });
    assert(mp >= 10 ==> (153 * mp + 2) / 5 >= 306);
    assert((153 * mp + 2) / 5 >= 0);
    if era >= 6 {
        assert(doe >= 0 - 3);
        assert(days_from_civil(y, m, d) >= 6 * 146097 - 3 - 719468);
    } else {
        assert(era == 5);
        assert(yy == 2000 + yoe);
        if m > 2 {
            assert(yoe >= 25);
            if yoe <= 99 {
                assert(yoe / 100 == 0);
                assert(yoe / 4 >= 6);
                assert(doe >= 25 * 365 + 6);
            } else {
                assert(doe >= 100 * 365 + 25 - 3);
            }
        } else {
            assert(yoe >= 24);
            assert(doy >= 306);
            if yoe <= 99 {
                assert(yoe / 100 == 0);
                assert(yoe / 4 >= 6);
                assert(doe >= 24 * 365 + 6 + 306);
            } else {
                assert(doe >= 100 * 365 + 25 - 3);
            }
        }
        assert(days_from_civil(y, m, d) >= 5 * 146097 + 9072 - 719468);
    }
}

/// Any real date-and-time of a year from 2024 up to the last supported year
/// denotes an instant chrono can hold, no earlier than the start of 2024.
pub proof fn lemma_valid_civil_from_2024(y: int, m: int, d: int, h: int, mi: int, s: int)
    requires
        2024 <= y <= MAX_CIVIL_YEAR,
        1 <= m <= 12,
        1 <= d <= days_in_month(y, m),
        valid_hms(h, mi, s),
    ensures
        valid_civil(y, m, d, h, mi, s),
        civil_timestamp(y, m, d, h, mi, s) >= 1704038400,
{
    assert(d <= 31);
    lemma_days_bounds_from_2024(y, m, d);
}

/// A valid date-and-time whose instant falls within civil year 2024 at UTC+8
/// carries year 2024: earlier years end before that window and later years
/// start after it.
pub proof fn lemma_year_of_2024_window(y: int, m: int, d: int, h: int, mi: int, s: int)
    requires
        valid_date(y, m, d),
        valid_hms(h, mi, s),
        1704038400 <= civil_timestamp(y, m, d, h, mi, s) < 1735660800,
    ensures
        y == 2024,
{
    assert(1 <= d <= 31);
    if y <= 2023 {
        lemma_days_bound_before_2024(y, m, d);
        assert(civil_timestamp(y, m, d, h, mi, s) <= 19722 * 86400 + 86399 - 28800);
        assert(false);
    }
    if y >= 2025 {
        lemma_days_bound_from_2025(y, m, d);
        assert(civil_timestamp(y, m, d, h, mi, s) >= 20089 * 86400 - 28800);
        assert(false);
    }
}

/// Relies on chrono `FixedOffset::east_opt`, `TimeZone::with_ymd_and_hms` and
/// `DateTime::timestamp`: at a fixed eastern offset of eight hours the result
/// is `Single` exactly when the fields form a real proleptic-Gregorian date
/// and time whose instant chrono can hold, and the timestamp of that instant
/// is the local second count shifted back by the offset.
#[verifier::external_body]
pub(crate) fn timestamp_from_civil_east8(y: i32, m: u32, d: u32, h: u32, mi: u32, s: u32) -> (r:
    Option<i64>)
    ensures
        r is Some <==> valid_civil(y as int, m as int, d as int, h as int, mi as int, s as int),
        r matches Some(t) ==> t == civil_timestamp(
            y as int,
            m as int,
            d as int,
            h as int,
            mi as int,
            s as int,
        ),
{
    let offset = chrono::FixedOffset::east_opt(28800).unwrap();
    match offset.with_ymd_and_hms(y, m, d, h, mi, s) {
        chrono::LocalResult::Single(dt) => Some(dt.timestamp()),
        _ => None,
    }
}

/// Relies on chrono `DateTime::from_timestamp`, `DateTime::with_timezone` and
/// the `Datelike`/`Timelike` getters: a timestamp well inside chrono's range
/// converts to the UTC+8 civil fields of the same instant, and those fields
/// map back to the identical timestamp.
#[verifier::external_body]
pub(crate) fn civil_fields_east8(ts: i64) -> (r: (i32, u32, u32, u32, u32, u32))
    requires
        SAFE_MIN_TIMESTAMP <= ts <= SAFE_MAX_TIMESTAMP,
    ensures
        valid_civil(r.0 as int, r.1 as int, r.2 as int, r.3 as int, r.4 as int, r.5 as int),
        civil_timestamp(r.0 as int, r.1 as int, r.2 as int, r.3 as int, r.4 as int, r.5 as int)
            == ts,
{
    let offset = chrono::FixedOffset::east_opt(28800).unwrap();
    let utc = chrono::DateTime::from_timestamp(ts, 0).unwrap();
    let local = utc.with_timezone(&offset);
    (local.year(), local.month(), local.day(), local.hour(), local.minute(), local.second())
}

} // verus!
