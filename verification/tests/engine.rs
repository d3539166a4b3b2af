use chrono::TimeZone;
use jumping_calendar::{
    get_jumping_eve, get_jumping_eve_utc, get_jumping_s_day, get_jumping_s_day_utc,
    get_singularity, JumpingDateTime, JUMPING_EVE_POINT, JUMPING_POINT, JUMPING_SINGULARITY,
};

fn east8() -> chrono::FixedOffset {
    chrono::FixedOffset::east_opt(8 * 3600).unwrap()
}

fn east8_ts(y: i32, m: u32, d: u32, h: u32, mi: u32, s: u32) -> i64 {
    east8().with_ymd_and_hms(y, m, d, h, mi, s).unwrap().timestamp()
}

fn fields(v: &JumpingDateTime) -> (i32, u32, u32, u32, u32, u32) {
    (v.year, v.month, v.day, v.hour, v.minute, v.second)
}

#[test]
fn epoch_points_match_their_definitions() {
    assert_eq!(get_jumping_s_day(), 1730649600);
    assert_eq!(get_jumping_s_day_utc(), JUMPING_POINT);
    assert_eq!(get_jumping_s_day(), east8_ts(2024, 11, 4, 0, 0, 0));
    assert_eq!(get_jumping_eve(), 1730563200);
    assert_eq!(get_jumping_eve_utc(), JUMPING_EVE_POINT);
    assert_eq!(get_jumping_eve(), east8_ts(2024, 11, 3, 0, 0, 0));
    assert_eq!(get_singularity(), JUMPING_SINGULARITY);
    assert_eq!(get_singularity(), east8_ts(2024, 9, 1, 0, 0, 0));
}

#[test]
fn new_is_the_cycle_start_value() {
    let v = JumpingDateTime::new();
    assert_eq!(v.timestamp, JUMPING_POINT);
    assert_eq!(fields(&v), (2024, 9, 1, 0, 0, 0));
}

#[test]
fn identity_region_keeps_civil_fields() {
    let ts = east8_ts(2020, 5, 17, 13, 14, 15);
    let v = JumpingDateTime::from_gregorian(ts);
    assert_eq!(v.timestamp, ts);
    assert_eq!(fields(&v), (2020, 5, 17, 13, 14, 15));

    let leap = east8_ts(1960, 2, 29, 23, 59, 59);
    let w = JumpingDateTime::from_gregorian(leap);
    assert_eq!(w.timestamp, leap);
    assert_eq!(fields(&w), (1960, 2, 29, 23, 59, 59));
}

#[test]
fn block_region_counts_past_day_31() {
    // Fourteen whole days after the singularity point.
    let ts = JUMPING_SINGULARITY + 14 * 86400;
    let v = JumpingDateTime::from_gregorian(ts);
    assert_eq!(v.timestamp, ts);
    assert_eq!(fields(&v), (2024, 8, 46, 0, 0, 0));

    let first = JumpingDateTime::from_gregorian(JUMPING_SINGULARITY);
    assert_eq!(fields(&first), (2024, 8, 32, 0, 0, 0));

    let last = JumpingDateTime::from_gregorian(JUMPING_POINT - 1);
    assert_eq!(fields(&last), (2024, 8, 95, 23, 59, 59));
}

#[test]
fn cycle_start_resolves_to_first_day_after_the_block() {
    let v = JumpingDateTime::from_gregorian(JUMPING_POINT);
    assert_eq!(v.timestamp, JUMPING_POINT);
    assert_eq!(fields(&v), (2024, 9, 1, 0, 0, 0));
}

#[test]
fn decomposition_never_alters_the_timestamp() {
    let samples = [
        east8_ts(1970, 1, 1, 0, 0, 0),
        east8_ts(2024, 8, 31, 12, 0, 0),
        JUMPING_SINGULARITY,
        JUMPING_POINT - 1,
        JUMPING_POINT,
        east8_ts(2024, 12, 31, 23, 59, 59),
        east8_ts(2041, 12, 1, 0, 0, 0),
        east8_ts(2100, 6, 1, 6, 7, 8),
    ];
    for &ts in samples.iter() {
        let v = JumpingDateTime::from_gregorian(ts);
        assert_eq!(v.to_utc(), ts);
        assert_eq!(v.to_gregorian(), ts);
    }
}

#[test]
fn construction_follows_the_synthesis_formula() {
    // Year 2041 is a cycle year; day 59 of its extended eighth month lands
    // 64 + 59 days past the 07-31 anchor.
    let v = JumpingDateTime::with_ymd_and_hms(2041, 8, 59, 0, 0, 0).unwrap();
    assert_eq!(fields(&v), (2041, 8, 59, 0, 0, 0));
    assert_eq!(v.to_gregorian(), east8_ts(2041, 7, 31, 0, 0, 0) + 123 * 86400);
    assert_eq!(v.to_gregorian(), 2269440000);

    // A later month of a cycle year consumes the whole extended month.
    let w = JumpingDateTime::with_ymd_and_hms(2024, 9, 1, 0, 0, 0).unwrap();
    assert_eq!(w.timestamp, east8_ts(2024, 7, 31, 0, 0, 0) + 96 * 86400);
    assert_eq!(w.timestamp, JUMPING_POINT);

    // Outside cycle years the timestamp is the plain civil one.
    let p = JumpingDateTime::with_ymd_and_hms(1999, 12, 31, 23, 59, 59).unwrap();
    assert_eq!(p.timestamp, east8_ts(1999, 12, 31, 23, 59, 59));
}

#[test]
fn construction_rejects_bad_field_combinations() {
    // Cycle-year eighth month: day must lie in 1..=95.
    assert!(JumpingDateTime::with_ymd_and_hms(2041, 8, 0, 0, 0, 0).is_none());
    assert!(JumpingDateTime::with_ymd_and_hms(2041, 8, 96, 0, 0, 0).is_none());
    assert!(JumpingDateTime::with_ymd_and_hms(2041, 8, 1, 0, 0, 0).is_some());
    assert!(JumpingDateTime::with_ymd_and_hms(2041, 8, 95, 0, 0, 0).is_some());
    // Cycle year, other months: ordinary civil rules.
    assert!(JumpingDateTime::with_ymd_and_hms(2041, 9, 31, 0, 0, 0).is_none());
    assert!(JumpingDateTime::with_ymd_and_hms(2024, 2, 30, 0, 0, 0).is_none());
    // Ordinary years: ordinary civil rules.
    assert!(JumpingDateTime::with_ymd_and_hms(2025, 2, 29, 0, 0, 0).is_none());
    assert!(JumpingDateTime::with_ymd_and_hms(1999, 13, 1, 0, 0, 0).is_none());
    assert!(JumpingDateTime::with_ymd_and_hms(1999, 4, 31, 12, 30, 30).is_none());
    assert!(JumpingDateTime::with_ymd_and_hms(2000, 2, 29, 0, 0, 0).is_some());
}

#[test]
fn round_trip_reconstructs_compatible_instants() {
    // Identity region, year before the base year.
    let a = east8_ts(2015, 3, 3, 4, 5, 6);
    let va = JumpingDateTime::from_gregorian(a);
    let ra = JumpingDateTime::with_ymd_and_hms(va.year, va.month, va.day, va.hour, va.minute,
        va.second).unwrap();
    assert_eq!(ra.timestamp, a);

    // Eighth month of the base year, before the singularity point.
    let b = east8_ts(2024, 8, 20, 7, 8, 9);
    let vb = JumpingDateTime::from_gregorian(b);
    let rb = JumpingDateTime::with_ymd_and_hms(vb.year, vb.month, vb.day, vb.hour, vb.minute,
        vb.second).unwrap();
    assert_eq!(rb.timestamp, b);

    // Inside the first intercalary block.
    let c = JUMPING_SINGULARITY + 14 * 86400;
    let vc = JumpingDateTime::from_gregorian(c);
    let rc = JumpingDateTime::with_ymd_and_hms(vc.year, vc.month, vc.day, vc.hour, vc.minute,
        vc.second).unwrap();
    assert_eq!(rc.timestamp, c);

    // At the cycle-start point itself.
    let d = JUMPING_POINT;
    let vd = JumpingDateTime::from_gregorian(d);
    let rd = JumpingDateTime::with_ymd_and_hms(vd.year, vd.month, vd.day, vd.hour, vd.minute,
        vd.second).unwrap();
    assert_eq!(rd.timestamp, d);
}

#[test]
fn later_cycle_block_is_walked_from_its_own_anchor() {
    // 2041-12-01 lies past the second block: one subtraction lands inside
    // the 2041 block, twenty-eight days past its 08-31 anchor.
    let ts = east8_ts(2041, 12, 1, 0, 0, 0);
    let v = JumpingDateTime::from_gregorian(ts);
    assert_eq!(v.timestamp, ts);
    assert_eq!(fields(&v), (2041, 8, 59, 0, 0, 0));
    // For this instant the walk and the synthesis formula agree.
    let r = JumpingDateTime::with_ymd_and_hms(2041, 8, 59, 0, 0, 0).unwrap();
    assert_eq!(r.timestamp, ts);
}

#[test]
fn third_cycle_boundary_keeps_walk_and_synthesis_aligned() {
    // 2058 is two cycles past the base year.  An instant past its block
    // resolves inside it, and the synthesis formula reproduces the instant.
    let inside = east8_ts(2059, 1, 15, 0, 0, 0);
    let v = JumpingDateTime::from_gregorian(inside);
    assert_eq!(v.timestamp, inside);
    assert_eq!(fields(&v), (2058, 8, 40, 0, 0, 0));
    let r = JumpingDateTime::with_ymd_and_hms(2058, 8, 40, 0, 0, 0).unwrap();
    assert_eq!(r.timestamp, inside);

    // An instant of late 2058 resolves to the eighth month below day 32 and
    // still reconstructs, two blocks short of the raw civil reading.
    let late = east8_ts(2058, 12, 25, 1, 2, 3);
    let w = JumpingDateTime::from_gregorian(late);
    assert_eq!(w.timestamp, late);
    assert_eq!(fields(&w), (2058, 8, 19, 1, 2, 3));
    assert_eq!(late - 2 * 64 * 86400, east8_ts(2058, 8, 19, 1, 2, 3));
    let s = JumpingDateTime::with_ymd_and_hms(2058, 8, 19, 1, 2, 3).unwrap();
    assert_eq!(s.timestamp, late);
}

#[test]
fn far_instants_shed_one_block_per_elapsed_cycle() {
    // 2056-05-02 03:04:56 UTC is 11:04:56 at UTC+8; two full blocks lie
    // between it and its alternate-calendar reading.
    let ts = chrono::Utc.with_ymd_and_hms(2056, 5, 2, 3, 4, 56).unwrap().timestamp();
    let v = JumpingDateTime::from_gregorian(ts);
    assert_eq!(v.timestamp, ts);
    assert_eq!(fields(&v), (2055, 12, 26, 11, 4, 56));
    assert_eq!(ts - 2 * 64 * 86400, east8_ts(2055, 12, 26, 11, 4, 56));
}
