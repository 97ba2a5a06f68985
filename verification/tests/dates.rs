use chrono::Datelike;
use rowproj::datetime::{civil_from_days, decode, render_civil, render_legacy, LegacyDateTime};

fn iso(days: i32, fragments: u32) -> String {
    render_legacy(&LegacyDateTime { days, fragments })
}

#[test]
fn epoch_renders_as_1900() {
    assert_eq!(iso(0, 0), "1900-01-01T00:00:00Z");
}

#[test]
fn half_second_renders_trimmed() {
    // 150 fragments are half a second.
    assert_eq!(iso(1, 150), "1900-01-02T00:00:00.5Z");
}

#[test]
fn small_fraction_keeps_leading_zero() {
    // 3 fragments are 0.01 s.
    assert_eq!(iso(0, 3), "1900-01-01T00:00:00.01Z");
}

#[test]
fn last_fragment_of_day() {
    assert_eq!(iso(0, 25_919_999), "1900-01-01T23:59:59.996666667Z");
}

#[test]
fn negative_days_go_before_epoch() {
    assert_eq!(iso(-1, 0), "1899-12-31T00:00:00Z");
    assert_eq!(iso(-365, 0), "1899-01-01T00:00:00Z");
}

#[test]
fn leap_years_are_respected() {
    // 1900 is not a leap year: day 59 is March 1st.
    assert_eq!(iso(59, 0), "1900-03-01T00:00:00Z");
    // 2000 is a leap year: 2000-02-29 exists, 36583 days after 1900-01-01.
    assert_eq!(iso(36_583, 0), "2000-02-29T00:00:00Z");
}

#[test]
fn time_of_day_decomposes() {
    // 45296 s = 12:34:56, as fragments.
    let c = decode(&LegacyDateTime { days: 41_273, fragments: 45_296 * 300 });
    assert_eq!((c.hour, c.minute, c.second, c.nanos), (12, 34, 56, 0));
    assert_eq!(render_civil(&c), "2013-01-01T12:34:56Z");
}

#[test]
fn civil_matches_chrono() {
    let base = chrono::NaiveDate::from_ymd_opt(1900, 1, 1).unwrap();
    for days in [
        -400_000i32, -36_524, -365, -59, -1, 0, 1, 58, 59, 60, 364, 365, 36_523, 36_524, 36_584,
        43_921, 45_000, 2_900_000,
    ] {
        let (y, m, d) = civil_from_days(days);
        let expect = base + chrono::Duration::days(days as i64);
        assert_eq!(
            (y, m as u32, d as u32),
            (expect.year() as i64, expect.month(), expect.day()),
            "day offset {days}"
        );
    }
}

#[test]
fn round_trip_recovers_raw_values() {
    for (days, fragments) in [
        (0i32, 0u32),
        (1, 150),
        (0, 3),
        (45_000, 12_345_678),
        (12, 25_919_999),
        (700, 299),
    ] {
        let c = decode(&LegacyDateTime { days, fragments });
        let seconds = c.hour as u64 * 3600 + c.minute as u64 * 60 + c.second as u64;
        let refrag = seconds * 300 + (c.nanos as u64 * 6 + 10_000_000) / 20_000_000;
        assert_eq!(refrag, fragments as u64, "fragments for {days}/{fragments}");
    }
}
