use lumen::{civil_from_days, log_line, timestamp};

fn at(unix_secs: u64, millis: u32) -> String {
    timestamp(unix_secs, millis)
}

#[test]
fn the_line_matches_the_contract() {
    assert_eq!(
        log_line("2026-08-14T07:45:02.113Z", "set", true, 12),
        "{\"ts\":\"2026-08-14T07:45:02.113Z\",\"cmd\":\"set\",\"src\":\"cli\",\"ok\":true,\"ms\":12}\n"
    );
    assert!(log_line("t", "probe", false, 0).contains("\"ok\":false"));
}

#[test]
fn timestamps_are_utc_iso_8601() {
    assert_eq!(at(0, 0), "1970-01-01T00:00:00.000Z");
    assert_eq!(at(1_755_000_000, 113), "2025-08-12T12:00:00.113Z");
}

/// The month arithmetic is the part that goes wrong, so check the seams:
/// a leap day, the day after it, and both ends of a year.
#[test]
fn dates_survive_leap_years_and_year_boundaries() {
    assert_eq!(at(1_709_164_800, 0), "2024-02-29T00:00:00.000Z");
    assert_eq!(at(1_709_251_200, 0), "2024-03-01T00:00:00.000Z");
    assert_eq!(at(1_735_689_599, 999), "2024-12-31T23:59:59.999Z");
    assert_eq!(at(1_735_689_600, 0), "2025-01-01T00:00:00.000Z");
    // 2000 was a leap year, 1900 and 2100 are not.
    assert_eq!(at(951_782_400, 0), "2000-02-29T00:00:00.000Z");
}

#[test]
fn civil_dates_of_known_days() {
    assert_eq!(civil_from_days(0), (1970, 1, 1));
    assert_eq!(civil_from_days(-1), (1969, 12, 31));
    assert_eq!(civil_from_days(11016), (2000, 2, 29));
    // 1900 and 2100 have no 29 February.
    assert_eq!(civil_from_days(-25508), (1900, 3, 1));
    assert_eq!(civil_from_days(47541), (2100, 3, 1));
}

#[test]
fn a_log_line_carries_large_durations_in_full() {
    assert_eq!(
        log_line("x", "list", true, 1_000_000_000_000),
        "{\"ts\":\"x\",\"cmd\":\"list\",\"src\":\"cli\",\"ok\":true,\"ms\":1000000000000}\n"
    );
}

/// Counting day by day walks the calendar one date at a time, across month
/// ends, leap days and year ends.
#[test]
fn each_day_count_is_the_day_after_the_one_before() {
    let days_in = |y: i64, m: u32| -> u32 {
        match m {
            2 if (y % 4 == 0 && y % 100 != 0) || y % 400 == 0 => 29,
            2 => 28,
            4 | 6 | 9 | 11 => 30,
            _ => 31,
        }
    };
    let mut prev = civil_from_days(-800_000);
    for d in -799_999i64..=800_000 {
        let (y, m, day) = prev;
        let expected = if day < days_in(y, m) {
            (y, m, day + 1)
        } else if m < 12 {
            (y, m + 1, 1)
        } else {
            (y + 1, 1, 1)
        };
        let now = civil_from_days(d);
        assert_eq!(now, expected, "day {d}");
        prev = now;
    }
    assert_eq!(civil_from_days(0), (1970, 1, 1));
}
