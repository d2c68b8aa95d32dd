//! One JSON line per command that reached an answer.
//!
//! ```json
//! {"ts":"2026-08-16T07:45:02.113Z","cmd":"set","src":"cli","ok":true,"ms":12}
//! ```
//!
//! `cmd` is always one of lumen's own fixed names, never anything the user
//! typed, so the line needs no JSON escaping. Timestamps are UTC in the
//! proleptic Gregorian calendar.
use crate::text::{
    dec, digit_char, digit_value, lemma_digit_roundtrip, pad_int, push_dec, push_int, push_str,
    zero_pad,
};
use vstd::prelude::*;

verus! {

/// The log line for one command.
pub open spec fn line_spec(ts: Seq<char>, cmd: Seq<char>, ok: bool, ms: u128) -> Seq<char> {
    "{\"ts\":\""@ + ts + "\",\"cmd\":\""@ + cmd + "\",\"src\":\"cli\",\"ok\":"@ + (if ok {
        "true"@
    } else {
        "false"@
    }) + ",\"ms\":"@ + dec(ms as nat) + "}\n"@
}

pub fn log_line(ts: &str, cmd: &str, ok: bool, ms: u128) -> (s: String)
    ensures
        s@ == line_spec(ts@, cmd@, ok, ms),
{
    let mut s = String::new();
    push_str(&mut s, "{\"ts\":\"");
    push_str(&mut s, ts);
    push_str(&mut s, "\",\"cmd\":\"");
    push_str(&mut s, cmd);
    push_str(&mut s, "\",\"src\":\"cli\",\"ok\":");
    if ok {
        push_str(&mut s, "true");
    } else {
        push_str(&mut s, "false");
    }
    push_str(&mut s, ",\"ms\":");
    push_dec(&mut s, ms, 0);
    assert(zero_pad(dec(ms as nat), 0) == dec(ms as nat));
    push_str(&mut s, "}\n");
    s
}

// ---------------------------------------------------------------------------
// The calendar
// ---------------------------------------------------------------------------

pub open spec fn is_leap(y: int) -> bool {
    (y % 4 == 0 && y % 100 != 0) || y % 400 == 0
}

pub open spec fn days_in_month(y: int, m: int) -> int {
    if m == 2 {
        if is_leap(y) {
            29
        } else {
            28
        }
    } else if m == 4 || m == 6 || m == 9 || m == 11 {
        30
    } else {
        31
    }
}

/// Days in the months of year `y` before month `m`.
pub open spec fn days_before_month(y: int, m: int) -> int
    decreases m,
{
    if m <= 1 {
        0
    } else {
        days_before_month(y, m - 1) + days_in_month(y, m - 1)
    }
}

/// Leap years among the years up to and including `y` (counted from an
/// arbitrary origin; only differences matter).
pub open spec fn leaps_through(y: int) -> int {
    y / 4 - y / 100 + y / 400
}

/// Days from 1970-01-01 to the first of January of year `y`.
pub open spec fn days_before_year(y: int) -> int {
    365 * (y - 1970) + leaps_through(y - 1) - leaps_through(1969)
}

/// A real date: the month is 1 to 12 and the day exists in that month.
pub open spec fn valid_date(y: int, m: int, d: int) -> bool {
    1 <= m <= 12 && 1 <= d <= days_in_month(y, m)
}

/// Days from 1970-01-01 to `y-m-d`.
pub open spec fn days_from_civil(y: int, m: int, d: int) -> int {
    days_before_year(y) + days_before_month(y, m) + d - 1
}

/// The date `days` days after 1970-01-01 (before it, when negative).
pub open spec fn is_civil_of(days: int, y: int, m: int, d: int) -> bool {
    valid_date(y, m, d) && days_from_civil(y, m, d) == days
}

/// Days from 0000-03-01 to the first of March of year `n` of a 400-year era.
pub open spec fn march_years(n: int) -> int {
    365 * n + n / 4 - n / 100 + n / 400
}

#[verifier::rlimit(100)]
proof fn lemma_year_of_era(doe: int)
    requires
        0 <= doe < 146097,
    ensures
        ({
            let yoe = (doe - doe / 1460 + doe / 36524 - doe / 146096) / 365;
            &&& 0 <= yoe <= 399
            &&& march_years(yoe) <= doe < march_years(yoe + 1)
        }),
{
}

proof fn lemma_div_step(y: int, k: int)
    requires
        k == 4 || k == 100 || k == 400,
    ensures
        y / k - (y - 1) / k == if y % k == 0 {
            1int
        } else {
            0int
        },
{
    if k == 4 {
        assert(y / 4 - (y - 1) / 4 == if y % 4 == 0 {
            1int
        } else {
            0int
        });
    } else if k == 100 {
        assert(y / 100 - (y - 1) / 100 == if y % 100 == 0 {
            1int
        } else {
            0int
        });
    } else {
        assert(y / 400 - (y - 1) / 400 == if y % 400 == 0 {
            1int
        } else {
            0int
        });
    }
}

proof fn lemma_leap_step(y: int)
    ensures
        leaps_through(y) - leaps_through(y - 1) == if is_leap(y) {
            1int
        } else {
            0int
        },
{
    lemma_div_step(y, 4);
    lemma_div_step(y, 100);
    lemma_div_step(y, 400);
    if y % 400 == 0 {
        assert(y % 100 == 0);
        assert(y % 4 == 0);
    } else if y % 100 == 0 {
        assert(y % 4 == 0);
    }
}

proof fn lemma_days_before_month(y: int)
    ensures
        days_before_month(y, 1) == 0,
        days_before_month(y, 2) == 31,
        days_before_month(y, 3) == 59 + if is_leap(y) {
            1int
        } else {
            0int
        },
        days_before_month(y, 4) == days_before_month(y, 3) + 31,
        days_before_month(y, 5) == days_before_month(y, 3) + 61,
        days_before_month(y, 6) == days_before_month(y, 3) + 92,
        days_before_month(y, 7) == days_before_month(y, 3) + 122,
        days_before_month(y, 8) == days_before_month(y, 3) + 153,
        days_before_month(y, 9) == days_before_month(y, 3) + 184,
        days_before_month(y, 10) == days_before_month(y, 3) + 214,
        days_before_month(y, 11) == days_before_month(y, 3) + 245,
        days_before_month(y, 12) == days_before_month(y, 3) + 275,
{
    reveal_with_fuel(days_before_month, 13);
}

/// The first of March of year `y` is `march_years(y) - 719468` days after
/// 1970-01-01.
proof fn lemma_march_first(y: int)
    ensures
        days_from_civil(y, 3, 1) == march_years(y) - 719468,
{
    lemma_leap_step(y);
    lemma_days_before_month(y);
}

/// Whole 400-year eras add 146097 days each.
proof fn lemma_era(era: int, yoe: int)
    requires
        0 <= yoe < 400,
    ensures
        march_years(400 * era + yoe) == 146097 * era + march_years(yoe),
        march_years(400 * era + yoe + 1) == 146097 * era + march_years(yoe + 1),
{
    assert((400 * era + yoe) / 4 == 100 * era + yoe / 4);
    assert((400 * era + yoe) / 100 == 4 * era + yoe / 100);
    assert((400 * era + yoe) / 400 == era + yoe / 400);
    assert((400 * era + yoe + 1) / 4 == 100 * era + (yoe + 1) / 4);
    assert((400 * era + yoe + 1) / 100 == 4 * era + (yoe + 1) / 100);
    assert((400 * era + yoe + 1) / 400 == era + (yoe + 1) / 400);
}

/// A day of a March-based year, 0 for the first of March, as a month and day
/// of the calendar: `mp` counts months from March.
proof fn lemma_month_of_year(y: int, doy: int)
    requires
        0 <= doy < march_years(y + 1) - march_years(y),
    ensures
        ({
            let mp = (5 * doy + 2) / 153;
            let d = doy - (153 * mp + 2) / 5 + 1;
            let m = if mp < 10 {
                mp + 3
            } else {
                mp - 9
            };
            let year = if m <= 2 {
                y + 1
            } else {
                y
            };
            &&& 0 <= mp <= 11
            &&& valid_date(year, m, d)
            &&& days_from_civil(year, m, d) == march_years(y) - 719468 + doy
        }),
{
    lemma_march_first(y);
    lemma_march_first(y + 1);
    lemma_leap_step(y + 1);
    lemma_days_before_month(y);
    lemma_days_before_month(y + 1);
    let mp = (5 * doy + 2) / 153;
    assert(0 <= mp <= 11);
    assert(days_before_year(y + 1) == days_from_civil(y, 3, 1) + 306) by {
        assert(days_before_year(y + 1) - days_before_year(y) == 365 + if is_leap(y) {
            1int
        } else {
            0int
        }) by {
            lemma_leap_step(y);
        }
    }
}

proof fn lemma_leaps_monotone(a: int, b: int)
    requires
        b <= a,
    ensures
        leaps_through(b) <= leaps_through(a),
    decreases a - b,
{
    if b < a {
        lemma_leap_step(a);
        lemma_leaps_monotone(a - 1, b);
    }
}

proof fn lemma_within_year(y: int, m: int, d: int)
    requires
        valid_date(y, m, d),
    ensures
        days_before_year(y) <= days_from_civil(y, m, d) < days_before_year(y + 1),
        forall|m2: int| m < m2 <= 12 ==> days_before_month(y, m) + d <= #[trigger] days_before_month(y, m2),
{
    lemma_days_before_month(y);
    lemma_leap_step(y);
}

/// Every day count is exactly one date: two valid dates the same number of
/// days after 1970-01-01 are the same date.
pub proof fn lemma_civil_unique(days: int, y1: int, m1: int, d1: int, y2: int, m2: int, d2: int)
    requires
        is_civil_of(days, y1, m1, d1),
        is_civil_of(days, y2, m2, d2),
    ensures
        y1 == y2 && m1 == m2 && d1 == d2,
{
    lemma_within_year(y1, m1, d1);
    lemma_within_year(y2, m2, d2);
    if y1 < y2 {
        lemma_leaps_monotone(y2 - 1, y1);
    } else if y2 < y1 {
        lemma_leaps_monotone(y1 - 1, y2);
    }
    assert(y1 == y2);
    if m1 < m2 {
        assert(days_before_month(y1, m1) + d1 <= days_before_month(y1, m2));
    } else if m2 < m1 {
        assert(days_before_month(y1, m2) + d2 <= days_before_month(y1, m1));
    }
}

/// The day after `y-m-d`: the next day of the month, else the first of the
/// next month, else New Year's Day.
pub open spec fn next_day(y: int, m: int, d: int) -> (int, int, int) {
    if d < days_in_month(y, m) {
        (y, m, d + 1)
    } else if m < 12 {
        (y, m + 1, 1)
    } else {
        (y + 1, 1, 1)
    }
}

/// Counting days goes through the proleptic Gregorian calendar one day at a
/// time: the day after the date of `days` is the date of `days + 1`.
pub proof fn lemma_civil_next_day(days: int, y: int, m: int, d: int)
    requires
        is_civil_of(days, y, m, d),
    ensures
        is_civil_of(days + 1, next_day(y, m, d).0, next_day(y, m, d).1, next_day(y, m, d).2),
{
    if d < days_in_month(y, m) {
    } else if m < 12 {
        assert(days_before_month(y, m + 1) == days_before_month(y, m) + days_in_month(y, m));
    } else {
        lemma_days_before_month(y);
        lemma_leap_step(y);
        assert(days_before_year(y + 1) == days_before_year(y) + 365 + leaps_through(y)
            - leaps_through(y - 1));
    }
}

/// Whatever dates two consecutive day counts have, the second is the day
/// after the first.
pub proof fn lemma_civil_successor(days: int, y: int, m: int, d: int, y2: int, m2: int, d2: int)
    requires
        is_civil_of(days, y, m, d),
        is_civil_of(days + 1, y2, m2, d2),
    ensures
        (y2, m2, d2) == next_day(y, m, d),
{
    lemma_civil_next_day(days, y, m, d);
    let n = next_day(y, m, d);
    lemma_civil_unique(days + 1, y2, m2, d2, n.0, n.1, n.2);
}

/// Day 0 is 1970-01-01, and no other date.
pub proof fn lemma_civil_epoch(y: int, m: int, d: int)
    requires
        is_civil_of(0, y, m, d),
    ensures
        is_civil_of(0, 1970, 1, 1),
        y == 1970 && m == 1 && d == 1,
{
    assert(is_civil_of(0, 1970, 1, 1));
    lemma_civil_unique(0, y, m, d, 1970, 1, 1);
}

/// Days since 1970-01-01 to a civil date, by Howard Hinnant's algorithm: shift
/// the year to start in March so a leap day falls at the end of it and every
/// other month length becomes a formula.
#[verifier::rlimit(40)]
pub fn civil_from_days(days: i64) -> (r: (i64, u32, u32))
    requires
        days <= i64::MAX - 719_468,
    ensures
        is_civil_of(days as int, r.0 as int, r.1 as int, r.2 as int),
        -0x2000_0000_0000_0000 < r.0 < 0x2000_0000_0000_0000,
{
    let z: i64 = days + 719_468;
    let era: i64 = if z >= 0 {
        z / 146_097
    } else {
        let back: i64 = (146_096 - z) / 146_097;
        assert(-back == (z as int) / 146_097);
        -back
    };
    assert(146_097 * era <= z < 146_097 * era + 146_097) by (nonlinear_arith)
        requires
            era == (z as int) / 146_097,
    ;
    let day_of_era: i64 = z - era * 146_097;
    let year_of_era: i64 = (day_of_era - day_of_era / 1460 + day_of_era / 36_524 - day_of_era
        / 146_096) / 365;
    proof {
        lemma_year_of_era(day_of_era as int);
        lemma_era(era as int, year_of_era as int);
    }
    let day_of_year: i64 = day_of_era - (365 * year_of_era + year_of_era / 4 - year_of_era / 100);
    let shifted_month: i64 = (5 * day_of_year + 2) / 153;
    let day: u32 = (day_of_year - (153 * shifted_month + 2) / 5 + 1) as u32;
    let month: u32 = if shifted_month < 10 {
        shifted_month + 3
    } else {
        shifted_month - 9
    } as u32;
    let ghost y = year_of_era + era * 400;
    proof {
        lemma_month_of_year(y, day_of_year as int);
    }
    assert(-0x10_0000_0000_0000 <= era <= 0x10_0000_0000_0000) by (nonlinear_arith)
        requires
            146_097 * era <= z < 146_097 * era + 146_097,
            z >= i64::MIN + 719_468,
            z <= i64::MAX,
    ;
    let year: i64 = year_of_era + era * 400 + if month <= 2 {
        1
    } else {
        0
    };
    assert(-0x2000_0000_0000_0000 < year < 0x2000_0000_0000_0000) by (nonlinear_arith)
        requires
            -0x10_0000_0000_0000 <= era <= 0x10_0000_0000_0000,
            0 <= year_of_era <= 399,
            year == year_of_era + era * 400 + if month <= 2 {
                1int
            } else {
                0int
            },
    ;
    (year, month, day)
}

/// UTC as `2026-08-14T07:45:02.113Z`, from its parts.
pub open spec fn render_timestamp(y: int, m: int, d: int, tod: int, millis: u32) -> Seq<char> {
    pad_int(y, 4) + "-"@ + zero_pad(dec(m as nat), 2) + "-"@ + zero_pad(dec(d as nat), 2) + "T"@
        + zero_pad(dec((tod / 3600) as nat), 2) + ":"@ + zero_pad(dec(((tod % 3600) / 60) as nat), 2)
        + ":"@ + zero_pad(dec((tod % 60) as nat), 2) + "."@ + zero_pad(dec(millis as nat), 3)
        + "Z"@
}

/// The number written by the digits at positions `k` and `k + 1`.
pub open spec fn two_digits(s: Seq<char>, k: int) -> int {
    10 * digit_value(s[k]) + digit_value(s[k + 1])
}

/// The number written by the digits at positions `k` to `k + 2`.
pub open spec fn three_digits(s: Seq<char>, k: int) -> int {
    100 * digit_value(s[k]) + 10 * digit_value(s[k + 1]) + digit_value(s[k + 2])
}

proof fn lemma_two_digits(v: int)
    requires
        0 <= v < 100,
    ensures
        zero_pad(dec(v as nat), 2) == seq![digit_char(v / 10), digit_char(v % 10)],
{
    reveal_with_fuel(dec, 2);
    if v < 10 {
        assert(zero_pad(dec(v as nat), 2) =~= seq![digit_char(v / 10), digit_char(v % 10)]);
    } else {
        assert(dec((v / 10) as nat) == seq![digit_char(v / 10)]);
        assert(zero_pad(dec(v as nat), 2) =~= seq![digit_char(v / 10), digit_char(v % 10)]);
    }
    lemma_digit_roundtrip(v / 10);
    lemma_digit_roundtrip(v % 10);
}

proof fn lemma_three_digits(v: int)
    requires
        0 <= v < 1000,
    ensures
        zero_pad(dec(v as nat), 3) == seq![
            digit_char(v / 100),
            digit_char((v / 10) % 10),
            digit_char(v % 10),
        ],
{
    reveal_with_fuel(dec, 3);
    let want = seq![digit_char(v / 100), digit_char((v / 10) % 10), digit_char(v % 10)];
    if v < 10 {
        assert(zero_pad(dec(v as nat), 3) =~= want);
    } else if v < 100 {
        assert(dec((v / 10) as nat) == seq![digit_char(v / 10)]);
        assert(zero_pad(dec(v as nat), 3) =~= want);
    } else {
        assert(dec((v / 100) as nat) == seq![digit_char(v / 100)]);
        assert((v / 10) / 10 == v / 100);
        assert(dec((v / 10) as nat) == seq![digit_char(v / 100), digit_char((v / 10) % 10)]);
        assert(zero_pad(dec(v as nat), 3) =~= want);
    }
}

proof fn lemma_within_day(x: int)
    requires
        0 <= x,
    ensures
        (x % 86400) % 3600 == x % 3600,
        (x % 86400) % 60 == x % 60,
{
    let q = x / 86400;
    let r = x % 86400;
    assert(x == 86400 * q + r);
    assert(x == 3600 * (24 * q + r / 3600) + r % 3600);
    assert(x == 60 * (1440 * q + r / 60) + r % 60);
}

/// A timestamp ends in its clock reading, `HH:MM:SS.mmmZ`: the hours, the
/// minutes and the seconds of the time of day in that order, then the
/// milliseconds. Reading them back gives the time of day.
pub proof fn lemma_timestamp_reads_back(y: int, m: int, d: int, tod: int, millis: u32)
    requires
        0 <= tod < 86400,
        millis < 1000,
    ensures
        ({
            let s = render_timestamp(y, m, d, tod, millis);
            let n = s.len() as int;
            &&& n >= 13
            &&& s[n - 11] == ':' && s[n - 8] == ':' && s[n - 5] == '.' && s[n - 1] == 'Z'
            &&& two_digits(s, n - 13) == tod / 3600
            &&& two_digits(s, n - 10) == (tod % 3600) / 60
            &&& two_digits(s, n - 7) == tod % 60
            &&& two_digits(s, n - 10) < 60 && two_digits(s, n - 7) < 60
            &&& 3600 * two_digits(s, n - 13) + 60 * two_digits(s, n - 10) + two_digits(s, n - 7)
                == tod
            &&& three_digits(s, n - 4) == millis
        }),
{
    reveal_strlit(":");
    reveal_strlit(".");
    reveal_strlit("Z");
    let h = tod / 3600;
    let mi = (tod % 3600) / 60;
    let se = tod % 60;
    lemma_two_digits(h);
    lemma_two_digits(mi);
    lemma_two_digits(se);
    lemma_three_digits(millis as int);
    lemma_digit_roundtrip(millis as int / 100);
    lemma_digit_roundtrip((millis as int / 10) % 10);
    lemma_digit_roundtrip(millis as int % 10);
    let head = pad_int(y, 4) + "-"@ + zero_pad(dec(m as nat), 2) + "-"@ + zero_pad(dec(d as nat), 2)
        + "T"@;
    let tail = zero_pad(dec(h as nat), 2) + ":"@ + zero_pad(dec(mi as nat), 2) + ":"@ + zero_pad(
        dec(se as nat),
        2,
    ) + "."@ + zero_pad(dec(millis as nat), 3) + "Z"@;
    let s = render_timestamp(y, m, d, tod, millis);
    assert(s =~= head + tail);
    assert(tail.len() == 13);
    let n = s.len() as int;
    assert forall|i: int| 0 <= i < 13 implies s[n - 13 + i] == #[trigger] tail[i] by {}
    assert(tail[0] == digit_char(h / 10));
    assert(tail[1] == digit_char(h % 10));
    assert(tail[3] == digit_char(mi / 10));
    assert(tail[4] == digit_char(mi % 10));
    assert(tail[6] == digit_char(se / 10));
    assert(tail[7] == digit_char(se % 10));
    assert(s[n - 13] == tail[0] && s[n - 12] == tail[1]);
    assert(s[n - 10] == tail[3] && s[n - 9] == tail[4]);
    assert(s[n - 7] == tail[6] && s[n - 6] == tail[7]);
    assert(s[n - 4] == tail[9] && s[n - 3] == tail[10] && s[n - 2] == tail[11]);
    assert(s[n - 11] == tail[2] && s[n - 8] == tail[5] && s[n - 5] == tail[8] && s[n - 1] == tail[12]);
}

/// UTC, in the shape of `2026-08-14T07:45:02.113Z`, for a time `secs`
/// seconds and `millis` milliseconds after the Unix epoch.
pub fn timestamp(secs: u64, millis: u32) -> (s: String)
    ensures
        exists|y: int, m: int, d: int|
            #[trigger] is_civil_of((secs / 86400) as int, y, m, d) && s@ == render_timestamp(
                y,
                m,
                d,
                (secs % 86400) as int,
                millis,
            ),
        millis < 1000 ==> ({
            let n = s@.len() as int;
            &&& n >= 13
            &&& s@[n - 11] == ':' && s@[n - 8] == ':' && s@[n - 5] == '.' && s@[n - 1] == 'Z'
            &&& two_digits(s@, n - 13) == (secs % 86400) / 3600
            &&& two_digits(s@, n - 10) == (secs % 3600) / 60
            &&& two_digits(s@, n - 7) == secs % 60
            &&& 3600 * two_digits(s@, n - 13) + 60 * two_digits(s@, n - 10) + two_digits(s@, n - 7)
                == secs % 86400
            &&& three_digits(s@, n - 4) == millis
        }),
{
    let days: i64 = (secs / 86_400) as i64;
    let (y, m, d) = civil_from_days(days);
    let time_of_day: u64 = secs % 86_400;
    let mut s = String::new();
    push_int(&mut s, y, 4);
    push_str(&mut s, "-");
    push_dec(&mut s, m as u128, 2);
    push_str(&mut s, "-");
    push_dec(&mut s, d as u128, 2);
    push_str(&mut s, "T");
    push_dec(&mut s, (time_of_day / 3600) as u128, 2);
    push_str(&mut s, ":");
    push_dec(&mut s, ((time_of_day % 3600) / 60) as u128, 2);
    push_str(&mut s, ":");
    push_dec(&mut s, (time_of_day % 60) as u128, 2);
    push_str(&mut s, ".");
    push_dec(&mut s, millis as u128, 3);
    push_str(&mut s, "Z");
    assert(s@ =~= render_timestamp(y as int, m as int, d as int, (secs % 86400) as int, millis));
    proof {
        if millis < 1000 {
            lemma_timestamp_reads_back(y as int, m as int, d as int, (secs % 86400) as int, millis);
            lemma_within_day(secs as int);
        }
    }
    s
}

} // verus!
