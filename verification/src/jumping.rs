//! The alternate-calendar engine: epoch constants, the value type, the
//! forward decomposition of a civil instant into alternate-calendar fields,
//! and the inverse construction of a timestamp from such fields.

use vstd::prelude::*;
use vstd::pervasive::unreached;
use vstd::arithmetic::div_mod::lemma_fundamental_div_mod_converse;
use crate::civil::{
    civil_timestamp, civil_fields_east8, days_from_civil, lemma_valid_civil_from_2024,
    lemma_year_of_2024_window, timestamp_from_civil_east8, valid_civil, valid_date, valid_hms,
    MAX_CIVIL_YEAR, MIN_CIVIL_YEAR, SAFE_MAX_TIMESTAMP, SAFE_MIN_TIMESTAMP,
};

verus! {

/// Timestamp of the cycle-start point: 2024-11-04 00:00:00 at UTC+8, the
/// first instant at which the first intercalary block has completed.
pub const JUMPING_POINT: i64 = 1730649600;

/// Timestamp of the cycle-start eve: 2024-11-03 00:00:00 at UTC+8.
pub const JUMPING_EVE_POINT: i64 = 1730563200;

/// Timestamp of the singularity point: 2024-09-01 00:00:00 at UTC+8, the
/// instant at which the alternate calendar's rules begin to apply.
pub const JUMPING_SINGULARITY: i64 = 1725120000;

/// Length of the intercalary block, in seconds: 64 whole days.
pub const BLOCK_SECONDS: i64 = 5529600;

/// Timestamp of 2025-01-01 00:00:00 at UTC+8: the first instant after the
/// base year, used to classify instants that fall back into it.
pub const YEAR_2025_POINT: i64 = 1735660800;

/// A cycle year receives the 64-day block in its eighth month.
pub open spec fn is_cycle_year(y: int) -> bool {
    y >= 2024 && (y - 2024) % 17 == 0
}

/// Days added past 07-31 of the target year by the synthesis formula: 64 per
/// completed cycle, plus the whole extended month for later months of a cycle
/// year, plus the day position itself inside the extended eighth month.
pub open spec fn synthesis_delta_days(y: int, m: int, d: int) -> int {
    let base = 64 * ((y - 2024) / 17);
    if is_cycle_year(y) {
        if m > 8 {
            base + 96
        } else if m == 8 {
            base + d
        } else {
            base
        }
    } else {
        base
    }
}

/// The field combinations from which a value can be constructed: ordinary
/// civil validity, except that the eighth month of a cycle year runs from
/// day 1 to day 95 over a valid first-of-month anchor.
pub open spec fn compose_valid(y: int, m: int, d: int, h: int, mi: int, s: int) -> bool {
    if !is_cycle_year(y) {
        valid_civil(y, m, d, h, mi, s)
    } else if m != 8 {
        valid_civil(y, m, d, h, mi, s)
    } else {
        1 <= d <= 95 && valid_civil(y, 8, 1, h, mi, s)
    }
}

/// The timestamp the construction assigns to a field combination: the plain
/// civil timestamp outside cycle years, and the synthesis formula over the
/// 07-31 anchor inside them.
pub open spec fn compose_timestamp(y: int, m: int, d: int, h: int, mi: int, s: int) -> int {
    if !is_cycle_year(y) {
        civil_timestamp(y, m, d, h, mi, s)
    } else {
        civil_timestamp(y, 7, 31, h, mi, s) + synthesis_delta_days(y, m, d) * 86400
    }
}

/// An alternate-calendar value: a civil timestamp together with its six
/// decomposed alternate-calendar fields.
#[derive(Clone, Copy, Debug)]
pub struct JumpingDateTime {
    pub timestamp: i64,
    pub year: i32,
    pub month: u32,
    pub day: u32,
    pub hour: u32,
    pub minute: u32,
    pub second: u32,
}

impl JumpingDateTime {
    /// Basic shape of a well-formed value: real field ranges, with days past
    /// 31 only inside the extended eighth month.
    pub open spec fn wf(self) -> bool {
        &&& MIN_CIVIL_YEAR <= self.year <= MAX_CIVIL_YEAR
        &&& 1 <= self.month <= 12
        &&& 1 <= self.day <= 95
        &&& (self.month == 8 || self.day <= 31)
        &&& self.hour < 24
        &&& self.minute < 60
        &&& self.second < 60
    }

    /// The civil timestamp denoted by the six fields alone.
    pub open spec fn fields_timestamp(self) -> int {
        civil_timestamp(
            self.year as int,
            self.month as int,
            self.day as int,
            self.hour as int,
            self.minute as int,
            self.second as int,
        )
    }

    /// The fields agree with `t` as a plain civil decomposition.
    pub open spec fn civil_consistent(self, t: int) -> bool {
        &&& valid_civil(
            self.year as int,
            self.month as int,
            self.day as int,
            self.hour as int,
            self.minute as int,
            self.second as int,
        )
        &&& self.fields_timestamp() == t
    }

    /// The value the construction would assign to these very fields.
    pub open spec fn compose_of_fields(self) -> int {
        compose_timestamp(
            self.year as int,
            self.month as int,
            self.day as int,
            self.hour as int,
            self.minute as int,
            self.second as int,
        )
    }

    /// Whether the construction accepts these very fields.
    pub open spec fn compose_valid_fields(self) -> bool {
        compose_valid(
            self.year as int,
            self.month as int,
            self.day as int,
            self.hour as int,
            self.minute as int,
            self.second as int,
        )
    }

    /// The fields read the shifted instant `t` as a position inside the
    /// extended eighth month of their year: day 31 plus whole days past the
    /// 08-31 anchor of that year.
    pub open spec fn block_shape(self, t: int) -> bool {
        &&& self.month == 8
        &&& 31 <= self.day <= 95
        &&& valid_date(self.year as int, 8, 31)
        &&& valid_hms(self.hour as int, self.minute as int, self.second as int)
        &&& civil_timestamp(
            self.year as int,
            8,
            31,
            self.hour as int,
            self.minute as int,
            self.second as int,
        ) + (self.day - 31) * 86400 == t
    }

    /// After `k` whole block subtractions the fields read the shifted instant
    /// either as a plain civil decomposition or as a position inside the
    /// block of their own year.
    pub open spec fn walk_result(self, ts: int, k: int) -> bool {
        self.civil_consistent(ts - k * 5529600) || self.block_shape(ts - k * 5529600)
    }

    /// The cycle-start point in the alternate calendar: the first day of the
    /// month that follows the completed block of the base year.
    pub fn new() -> (r: Self)
        ensures
            r.timestamp == JUMPING_POINT,
            r.year == 2024 && r.month == 9 && r.day == 1,
            r.hour == 0 && r.minute == 0 && r.second == 0,
            r.wf(),
    {
        JumpingDateTime {
            timestamp: JUMPING_POINT,
            year: 2024,
            month: 9,
            day: 1,
            hour: 0,
            minute: 0,
            second: 0,
        }
    }

    /// Builds a value from six alternate-calendar fields.  Succeeds exactly
    /// on the combinations `compose_valid` accepts, keeps the fields, and
    /// assigns the timestamp of the synthesis formula `compose_timestamp`.
    pub fn with_ymd_and_hms(year: i32, month: u32, day: u32, hour: u32, min: u32, sec: u32) -> (r:
        Option<Self>)
        ensures
            r is Some <==> compose_valid(
                year as int,
                month as int,
                day as int,
                hour as int,
                min as int,
                sec as int,
            ),
            r matches Some(v) ==> {
                &&& v.year == year
                &&& v.month == month
                &&& v.day == day
                &&& v.hour == hour
                &&& v.minute == min
                &&& v.second == sec
                &&& v.timestamp == compose_timestamp(
                    year as int,
                    month as int,
                    day as int,
                    hour as int,
                    min as int,
                    sec as int,
                )
                &&& v.wf()
            },
    {
        let cycle: bool = year >= 2024 && ((year - 2024) as u32) % 17 == 0;
        if !cycle {
            match timestamp_from_civil_east8(year, month, day, hour, min, sec) {
                Some(ts) => Some(
                    JumpingDateTime {
                        timestamp: ts,
                        year,
                        month,
                        day,
                        hour,
                        minute: min,
                        second: sec,
                    },
                ),
                None => None,
            }
        } else if month != 8 {
            match timestamp_from_civil_east8(year, month, day, hour, min, sec) {
                Some(_) => Some(Self::calc_timestamp(year, month, day, hour, min, sec)),
                None => None,
            }
        } else {
            if day < 1 || 95 < day {
                return None;
            }
            match timestamp_from_civil_east8(year, 8, 1, hour, min, sec) {
                Some(_) => Some(Self::calc_timestamp(year, month, day, hour, min, sec)),
                None => None,
            }
        }
    }

    /// Timestamp synthesis for cycle years: the civil timestamp of 07-31 of
    /// the year, advanced by the block days the formula prescribes.
    fn calc_timestamp(year: i32, month: u32, day: u32, hour: u32, min: u32, sec: u32) -> (r: Self)
        requires
            is_cycle_year(year as int),
            valid_hms(hour as int, min as int, sec as int),
            year <= MAX_CIVIL_YEAR,
            month != 8 ==> valid_civil(
                year as int,
                month as int,
                day as int,
                hour as int,
                min as int,
                sec as int,
            ),
            month == 8 ==> 1 <= day <= 95,
        ensures
            r.year == year && r.month == month && r.day == day,
            r.hour == hour && r.minute == min && r.second == sec,
            r.timestamp == compose_timestamp(
                year as int,
                month as int,
                day as int,
                hour as int,
                min as int,
                sec as int,
            ),
            r.wf(),
    {
        let cycles: u32 = ((year - 2024) as u32) / 17;
        proof {
            let off = year as int - 2024;
            assert(17 * (off / 17) <= off < 17 * (off / 17) + 17);
            assert(cycles as int <= off);
        }
        let mut delta_day: i64 = (cycles as i64) * 64;
        if month > 8 {
            delta_day = delta_day + 96;
        } else if month == 8 {
            delta_day = delta_day + day as i64;
        }
        proof {
            lemma_valid_civil_from_2024(year as int, 7, 31, hour as int, min as int, sec as int);
        }
        let anchor: i64 = match timestamp_from_civil_east8(year, 7, 31, hour, min, sec) {
            Some(t) => t,
            None => unreached(),
        };
        let timestamp: i64 = anchor + delta_day * 86400;
        JumpingDateTime { timestamp, year, month, day, hour, minute: min, second: sec }
    }

    /// Decomposes a civil instant into alternate-calendar fields.  The stored
    /// timestamp is always the input instant itself; only the field reading
    /// is remapped.  Before the singularity point the fields are the plain
    /// civil decomposition; inside the first intercalary block the eighth
    /// month keeps counting past its civil length from day 32; from the
    /// cycle-start point on, one block is subtracted and, past the base year,
    /// further cycle boundaries are walked, one block per elapsed cycle.
    /// The last four conditions state where construction from the returned
    /// fields reproduces the instant exactly.
    pub fn from_gregorian(ts: i64) -> (r: JumpingDateTime)
        requires
            SAFE_MIN_TIMESTAMP <= ts <= SAFE_MAX_TIMESTAMP,
        ensures
            r.timestamp == ts,
            r.wf(),
            ts < JUMPING_SINGULARITY ==> r.civil_consistent(ts as int),
            JUMPING_SINGULARITY <= ts < JUMPING_POINT ==> {
                &&& r.year == 2024
                &&& r.month == 8
                &&& r.day == 32 + (ts - JUMPING_SINGULARITY) / 86400
                &&& r.hour * 3600 + r.minute * 60 + r.second == (ts - JUMPING_SINGULARITY) % 86400
            },
            JUMPING_POINT <= ts && ts - BLOCK_SECONDS < YEAR_2025_POINT ==> r.civil_consistent(
                ts - BLOCK_SECONDS,
            ),
            JUMPING_POINT <= ts && ts - BLOCK_SECONDS >= YEAR_2025_POINT ==> exists|k: int|
                1 <= k && #[trigger] r.walk_result(ts as int, k),
            ts < JUMPING_SINGULARITY && r.year < 2024 ==> r.compose_valid_fields()
                && r.compose_of_fields() == ts,
            ts < JUMPING_SINGULARITY && r.year == 2024 && r.month == 8 ==> r.compose_valid_fields()
                && r.compose_of_fields() == ts,
            JUMPING_SINGULARITY <= ts < JUMPING_POINT ==> r.compose_valid_fields()
                && r.compose_of_fields() == ts,
            JUMPING_POINT <= ts && ts - BLOCK_SECONDS < YEAR_2025_POINT && r.year == 2024
                && r.month == 9 && r.day == 1 ==> r.compose_valid_fields() && r.compose_of_fields()
                == ts,
            JUMPING_POINT <= ts && ts - BLOCK_SECONDS >= YEAR_2025_POINT && r.month == 8 && r.day
                >= 32 ==> r.compose_valid_fields() && r.compose_of_fields() == ts,
    {
        let f0: (i32, u32, u32, u32, u32, u32) = civil_fields_east8(ts);
        if ts < JUMPING_SINGULARITY {
            let r = JumpingDateTime {
                timestamp: ts,
                year: f0.0,
                month: f0.1,
                day: f0.2,
                hour: f0.3,
                minute: f0.4,
                second: f0.5,
            };
            proof {
                if r.year == 2024 && r.month == 8 {
                    assert(days_from_civil(2024, 8, r.day as int) == 19935 + r.day);
                    assert(days_from_civil(2024, 7, 31) == 19935);
                    assert(days_from_civil(2024, 8, 1) == 19936);
                }
            }
            return r;
        }
        if ts < JUMPING_POINT {
            let sub: u64 = ((ts - JUMPING_SINGULARITY) as u64) / 86400;
            proof {
                lemma_year_of_2024_window(
                    f0.0 as int,
                    f0.1 as int,
                    f0.2 as int,
                    f0.3 as int,
                    f0.4 as int,
                    f0.5 as int,
                );
                assert(f0.0 == 2024);
                let delta = ts - JUMPING_SINGULARITY;
                let dd = days_from_civil(2024, f0.1 as int, f0.2 as int) - 19967;
                let hms = f0.3 * 3600 + f0.4 * 60 + f0.5;
                assert(days_from_civil(2024, 9, 1) == 19967);
                assert(delta == dd * 86400 + hms);
                lemma_fundamental_div_mod_converse(delta as int, 86400, dd, hms as int);
                assert(sub as int == dd);
                assert(dd <= 63);
                assert(days_from_civil(2024, 7, 31) == 19935);
                assert(days_from_civil(2024, 8, 1) == 19936);
                assert(days_from_civil(2024, 8, (32 + dd) as int) == 19967 + dd);
            }
            return JumpingDateTime {
                timestamp: ts,
                year: f0.0,
                month: 8,
                day: 32 + sub as u32,
                hour: f0.3,
                minute: f0.4,
                second: f0.5,
            };
        }
        let cur0: i64 = ts - BLOCK_SECONDS;
        let f1: (i32, u32, u32, u32, u32, u32) = civil_fields_east8(cur0);
        if cur0 < YEAR_2025_POINT {
            // cur0 is at least the singularity point here, so its civil year
            // is 2024: the single subtraction resolves the first cycle.
            let r = JumpingDateTime {
                timestamp: ts,
                year: f1.0,
                month: f1.1,
                day: f1.2,
                hour: f1.3,
                minute: f1.4,
                second: f1.5,
            };
            proof {
                if r.year == 2024 && r.month == 9 && r.day == 1 {
                    assert(days_from_civil(2024, 9, 1) == 19967);
                    assert(days_from_civil(2024, 7, 31) == 19935);
                }
            }
            return r;
        }
        let mut cur: i64 = cur0;
        let mut yc: i32 = f1.0;
        let mut mc: u32 = f1.1;
        let mut dc: u32 = f1.2;
        let mut hc: u32 = f1.3;
        let mut mic: u32 = f1.4;
        let mut sc: u32 = f1.5;
        let mut jy: i32 = 2024;
        let ghost mut k: int = 1;
        loop
            invariant_except_break
                jy == 2024 + 17 * (k - 1),
            invariant
                SAFE_MIN_TIMESTAMP <= cur <= SAFE_MAX_TIMESTAMP,
                JUMPING_POINT <= ts <= SAFE_MAX_TIMESTAMP,
                ts - BLOCK_SECONDS >= YEAR_2025_POINT,
                1 <= k,
                cur == ts - k * 5529600,
                valid_civil(yc as int, mc as int, dc as int, hc as int, mic as int, sc as int),
                civil_timestamp(yc as int, mc as int, dc as int, hc as int, mic as int, sc as int)
                    == cur as int,
                2024 <= jy <= MAX_CIVIL_YEAR,
            ensures
                JUMPING_POINT <= ts <= SAFE_MAX_TIMESTAMP,
                ts - BLOCK_SECONDS >= YEAR_2025_POINT,
                1 <= k,
                cur == ts - k * 5529600,
                valid_civil(yc as int, mc as int, dc as int, hc as int, mic as int, sc as int),
                civil_timestamp(yc as int, mc as int, dc as int, hc as int, mic as int, sc as int)
                    == cur as int,
            decreases cur - SAFE_MIN_TIMESTAMP,
        {
            if yc - jy == 17 {
                proof {
                    lemma_valid_civil_from_2024(yc as int, 11, 4, 0, 0, 0);
                    lemma_valid_civil_from_2024(yc as int, 8, 31, 0, 0, 0);
                }
                let p1: i64 = match timestamp_from_civil_east8(yc, 11, 4, 0, 0, 0) {
                    Some(t) => t,
                    None => unreached(),
                };
                let p2: i64 = match timestamp_from_civil_east8(yc, 8, 31, 0, 0, 0) {
                    Some(t) => t,
                    None => unreached(),
                };
                if cur >= p1 {
                    if cur < SAFE_MIN_TIMESTAMP + BLOCK_SECONDS {
                        break ;
                    }
                    cur = cur - BLOCK_SECONDS;
                    proof {
                        k = k + 1;
                    }
                    let f: (i32, u32, u32, u32, u32, u32) = civil_fields_east8(cur);
                    yc = f.0;
                    mc = f.1;
                    dc = f.2;
                    hc = f.3;
                    mic = f.4;
                    sc = f.5;
                    jy = jy + 17;
                } else if cur >= p2 {
                    let subq: u64 = ((cur - p2) as u64) / 86400;
                    proof {
                        assert(days_from_civil(yc as int, 11, 4) - days_from_civil(yc as int, 8, 31)
                            == 65);
                        let ddv = days_from_civil(yc as int, mc as int, dc as int)
                            - days_from_civil(yc as int, 8, 31);
                        let hms = hc * 3600 + mic * 60 + sc;
                        assert(cur - p2 == ddv * 86400 + hms);
                        lemma_fundamental_div_mod_converse((cur - p2) as int, 86400, ddv, hms as int);
                        assert(subq as int == ddv);
                        assert(0 <= ddv <= 64);
                    }
                    let r = JumpingDateTime {
                        timestamp: ts,
                        year: yc,
                        month: 8,
                        day: 31 + subq as u32,
                        hour: hc,
                        minute: mic,
                        second: sc,
                    };
                    proof {
                        assert(r.block_shape(ts - k * 5529600));
                        assert(r.walk_result(ts as int, k));
                        // The walk has shed one block per elapsed cycle, so
                        // this year is the k-th cycle year and the synthesis
                        // formula reproduces the instant.
                        assert(yc as int == 2024 + 17 * k);
                        lemma_fundamental_div_mod_converse(17 * k, 17, k, 0);
                        assert((yc as int - 2024) / 17 == k);
                        assert(is_cycle_year(yc as int));
                        lemma_valid_civil_from_2024(yc as int, 8, 1, hc as int, mic as int, sc as int);
                        assert(days_from_civil(yc as int, 8, 31) - days_from_civil(yc as int, 7, 31)
                            == 31);
                        assert(r.compose_valid_fields());
                        assert(r.compose_of_fields() == ts);
                    }
                    return r;
                } else {
                    break ;
                }
            } else if yc - jy > 17 {
                if cur < SAFE_MIN_TIMESTAMP + BLOCK_SECONDS {
                    break ;
                }
                cur = cur - BLOCK_SECONDS;
                proof {
                    k = k + 1;
                }
                let f: (i32, u32, u32, u32, u32, u32) = civil_fields_east8(cur);
                yc = f.0;
                mc = f.1;
                dc = f.2;
                hc = f.3;
                mic = f.4;
                sc = f.5;
                if yc - jy == 17 {
                    break ;
                }
                jy = jy + 17;
            } else {
                break ;
            }
        }
        let r = JumpingDateTime {
            timestamp: ts,
            year: yc,
            month: mc,
            day: dc,
            hour: hc,
            minute: mic,
            second: sc,
        };
        proof {
            assert(r.civil_consistent(ts - k * 5529600));
            assert(r.walk_result(ts as int, k));
        }
        r
    }

    /// The held instant in its UTC representation.
    pub fn to_utc(&self) -> (r: i64)
        ensures
            r == self.timestamp,
    {
        self.timestamp
    }

    /// The held instant in its UTC+8 civil representation; the same
    /// timestamp, read at the fixed offset by consumers.
    pub fn to_gregorian(&self) -> (r: i64)
        ensures
            r == self.timestamp,
    {
        self.to_utc()
    }
}

/// The cycle-start point, derived from its calendar definition.
pub fn get_jumping_s_day() -> (r: i64)
    ensures
        r == JUMPING_POINT,
        r == civil_timestamp(2024, 11, 4, 0, 0, 0),
{
    proof {
        assert(civil_timestamp(2024, 11, 4, 0, 0, 0) == 1730649600);
    }
    match timestamp_from_civil_east8(2024, 11, 4, 0, 0, 0) {
        Some(t) => t,
        None => unreached(),
    }
}

/// The cycle-start point, taken from its stored timestamp.
pub fn get_jumping_s_day_utc() -> (r: i64)
    ensures
        r == JUMPING_POINT,
        r == civil_timestamp(2024, 11, 4, 0, 0, 0),
{
    proof {
        assert(civil_timestamp(2024, 11, 4, 0, 0, 0) == 1730649600);
    }
    JUMPING_POINT
}

/// The cycle-start eve, derived from its calendar definition.
pub fn get_jumping_eve() -> (r: i64)
    ensures
        r == JUMPING_EVE_POINT,
        r == civil_timestamp(2024, 11, 3, 0, 0, 0),
{
    proof {
        assert(civil_timestamp(2024, 11, 3, 0, 0, 0) == 1730563200);
    }
    match timestamp_from_civil_east8(2024, 11, 3, 0, 0, 0) {
        Some(t) => t,
        None => unreached(),
    }
}

/// The cycle-start eve, taken from its stored timestamp.
pub fn get_jumping_eve_utc() -> (r: i64)
    ensures
        r == JUMPING_EVE_POINT,
        r == civil_timestamp(2024, 11, 3, 0, 0, 0),
{
    proof {
        assert(civil_timestamp(2024, 11, 3, 0, 0, 0) == 1730563200);
    }
    JUMPING_EVE_POINT
}

/// The singularity point, derived from its calendar definition.
pub fn get_singularity() -> (r: i64)
    ensures
        r == JUMPING_SINGULARITY,
        r == civil_timestamp(2024, 9, 1, 0, 0, 0),
{
    proof {
        assert(civil_timestamp(2024, 9, 1, 0, 0, 0) == 1725120000);
    }
    match timestamp_from_civil_east8(2024, 9, 1, 0, 0, 0) {
        Some(t) => t,
        None => unreached(),
    }
}

} // verus!
