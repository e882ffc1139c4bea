//! Dates and ISO-8601 UTC time stamps of the proleptic Gregorian calendar.
use vstd::prelude::*;
use crate::text::{decimal, push_char, push_decimal, zero_pad};

verus! {

/// `y` is a leap year of the Gregorian calendar.
pub open spec fn is_leap_year(y: int) -> bool {
    y % 4 == 0 && (y % 100 != 0 || y % 400 == 0)
}

/// Number of days of month `m` (1 = January) of year `y`.
pub open spec fn days_in_month(y: int, m: int) -> int {
    if m == 2 {
        if is_leap_year(y) {
            29
        } else {
            28
        }
    } else if m == 4 || m == 6 || m == 9 || m == 11 {
        30
    } else {
        31
    }
}

/// Days of year `y` before the first day of month `m`.
pub open spec fn days_before_month(y: int, m: int) -> int
    decreases m,
{
    if m <= 1 {
        0
    } else {
        days_before_month(y, m - 1) + days_in_month(y, m - 1)
    }
}

/// Number of leap years among the years before `y` (counted from any fixed
/// origin; only differences matter).
pub open spec fn leap_years_before(y: int) -> int {
    (y - 1) / 4 - (y - 1) / 100 + (y - 1) / 400
}

/// Days from 1970-01-01 to the first day of year `y`.
pub open spec fn days_before_year(y: int) -> int {
    365 * (y - 1970) + leap_years_before(y) - leap_years_before(1970)
}

/// Days from 1970-01-01 to the date `y-m-d`.
pub open spec fn days_from_civil(y: int, m: int, d: int) -> int {
    days_before_year(y) + days_before_month(y, m) + d - 1
}

/// `y-m-d` is a date of the calendar.
pub open spec fn valid_date(y: int, m: int, d: int) -> bool {
    1 <= m <= 12 && 1 <= d <= days_in_month(y, m)
}

/// Leap status of the year that ends with the February after March of
/// year `400 * era + yoe` (the same for every era).
spec fn march_year_len(yoe: int) -> int {
    if is_leap_year(yoe + 1) {
        366
    } else {
        365
    }
}

proof fn lemma_year_of_era(doe: int)
    requires
        0 <= doe <= 146096,
    ensures
        ({
            let yoe = (doe - doe / 1460 + doe / 36524 - doe / 146096) / 365;
            let doy = doe - (365 * yoe + yoe / 4 - yoe / 100);
            &&& 0 <= yoe <= 399
            &&& 0 <= doy < march_year_len(yoe)
        }),
{
}

/// Days from 0000-03-01 to the first of March of year `y`.
spec fn days_to_march(y: int) -> int {
    365 * y + y / 4 - y / 100 + y / 400
}

proof fn lemma_era_start(era: int, yoe: int)
    requires
        0 <= yoe <= 399,
    ensures
        days_to_march(400 * era + yoe) == era * 146097 + 365 * yoe + yoe / 4 - yoe / 100,
{
    let y = 400 * era + yoe;
    assert(y / 4 == 100 * era + yoe / 4);
    assert(y / 100 == 4 * era + yoe / 100);
    assert(y / 400 == era);
}

proof fn lemma_div_step_4(y: int)
    ensures
        y / 4 - (y - 1) / 4 == (if y % 4 == 0 { 1int } else { 0int }),
{
    let q = y / 4;
    let r = y % 4;
    assert(y == 4 * q + r);
    if r == 0 {
        assert((y - 1) == 4 * (q - 1) + 3);
    } else {
        assert((y - 1) == 4 * q + (r - 1));
    }
}

proof fn lemma_div_step_100(y: int)
    ensures
        y / 100 - (y - 1) / 100 == (if y % 100 == 0 { 1int } else { 0int }),
{
    let q = y / 100;
    let r = y % 100;
    assert(y == 100 * q + r);
    if r == 0 {
        assert((y - 1) == 100 * (q - 1) + 99);
    } else {
        assert((y - 1) == 100 * q + (r - 1));
    }
}

proof fn lemma_div_step_400(y: int)
    ensures
        y / 400 - (y - 1) / 400 == (if y % 400 == 0 { 1int } else { 0int }),
        y % 400 == 0 ==> y % 100 == 0,
        y % 100 == 0 ==> y % 4 == 0,
{
    let q = y / 400;
    let r = y % 400;
    assert(y == 400 * q + r);
    if r == 0 {
        assert((y - 1) == 400 * (q - 1) + 399);
    } else {
        assert((y - 1) == 400 * q + (r - 1));
    }
    if y % 400 == 0 {
        assert(y == 100 * (4 * q));
    }
    if y % 100 == 0 {
        assert(y == 4 * (25 * (y / 100)));
    }
}

proof fn lemma_leap_step(y: int)
    ensures
        leap_years_before(y + 1) - leap_years_before(y) == (if is_leap_year(y) {
            1int
        } else {
            0int
        }),
{
    lemma_div_step_4(y);
    lemma_div_step_100(y);
    lemma_div_step_400(y);
}

proof fn lemma_days_before_year(y: int)
    ensures
        days_before_year(y) == 365 * y + leap_years_before(y) - 59 - 719468,
{
    assert(leap_years_before(1970) == 477);
}

/// Days of a March-based year before its month `mp` (0 = March).
proof fn lemma_month_table(y: int, mp: int)
    requires
        0 <= mp <= 11,
    ensures
        mp <= 9 ==> days_before_month(y, mp + 3) == 59 + (if is_leap_year(y) { 1int } else { 0int })
            + (153 * mp + 2) / 5,
        mp == 10 ==> days_before_month(y, 1) == 0 && (153 * mp + 2) / 5 == 306,
        mp == 11 ==> days_before_month(y, 2) == 31 && (153 * mp + 2) / 5 == 337,
        mp <= 9 ==> days_in_month(y, mp + 3) == (153 * (mp + 1) + 2) / 5 - (153 * mp + 2) / 5,
        mp == 10 ==> days_in_month(y, 1) == 31,
{
    reveal_with_fuel(days_before_month, 13);
}

/// Relates days counted from 0000-03-01 to days counted from 1970-01-01.
proof fn lemma_march_to_civil(y_m: int, mp: int, doy: int, d: int)
    requires
        0 <= doy < march_year_len(y_m),
        mp == (5 * doy + 2) / 153,
        d == doy - (153 * mp + 2) / 5 + 1,
    ensures
        ({
            let m = if mp < 10 { mp + 3 } else { mp - 9 };
            let y = if m <= 2 { y_m + 1 } else { y_m };
            &&& 0 <= mp <= 11
            &&& valid_date(y, m, d)
            &&& days_from_civil(y, m, d) == days_to_march(y_m) + doy - 719468
        }),
{
    assert(0 <= mp <= 11);
    let m = if mp < 10 { mp + 3 } else { mp - 9 };
    let y = if m <= 2 { y_m + 1 } else { y_m };
    lemma_month_table(y, mp);
    lemma_leap_step(y_m);
    lemma_days_before_year(y);
    assert(days_to_march(y_m) == 365 * y_m + leap_years_before(y_m + 1));
    assert(1 <= d);
    if mp == 11 {
        assert(d <= days_in_month(y, m));
    } else if mp == 10 {
        assert(d <= 31);
    } else {
        assert(d <= days_in_month(y, m));
    }
}

proof fn lemma_era(z: int, era: int)
    requires
        era == (if z >= 0 {
            z / 146097
        } else {
            -((146096 - z) / 146097)
        }),
    ensures
        0 <= z - era * 146097 <= 146096,
{
    if z < 0 {
        let w = 146096 - z;
        assert(w == 146097 * (w / 146097) + w % 146097);
    }
}

#[verifier::spinoff_prover]
#[verifier::rlimit(40)]
proof fn lemma_civil(z: int, era: int, doe: int, yoe: int, doy: int, mp: int, d: int)
    requires
        era == (if z + 719468 >= 0 {
            (z + 719468) / 146097
        } else {
            -((146096 - (z + 719468)) / 146097)
        }),
        doe == z + 719468 - era * 146097,
        yoe == (doe - doe / 1460 + doe / 36524 - doe / 146096) / 365,
        doy == doe - (365 * yoe + yoe / 4 - yoe / 100),
        mp == (5 * doy + 2) / 153,
        d == doy - (153 * mp + 2) / 5 + 1,
    ensures
        0 <= doe <= 146096,
        0 <= yoe <= 399,
        0 <= doy <= 365,
        0 <= mp <= 11,
        1 <= d <= 31,
        ({
            let m = if mp < 10 { mp + 3 } else { mp - 9 };
            let y = if m <= 2 { yoe + era * 400 + 1 } else { yoe + era * 400 };
            &&& valid_date(y, m, d)
            &&& days_from_civil(y, m, d) == z
        }),
{
    lemma_era(z + 719468, era);
    lemma_year_of_era(doe);
    let y_m = 400 * era + yoe;
    lemma_era_start(era, yoe);
    assert(is_leap_year(yoe + 1) == is_leap_year(y_m + 1)) by {
        assert((y_m + 1) == 400 * era + (yoe + 1));
    }
    assert(march_year_len(yoe) == march_year_len(y_m));
    lemma_march_to_civil(y_m, mp, doy, d);
    assert(days_to_march(y_m) + doy - 719468 == z);
    assert(yoe + era * 400 == y_m);
}

/// Converts a count of days since 1970-01-01 into the date `(year, month, day)`.
pub fn civil_from_days(z: i64) -> (r: (i64, u32, u32))
    requires
        -1_000_000_000_000_000 <= z <= 1_000_000_000_000_000,
    ensures
        valid_date(r.0 as int, r.1 as int, r.2 as int),
        days_from_civil(r.0 as int, r.1 as int, r.2 as int) == z,
{
    let zs = z + 719468;
    let era: i64 = if zs >= 0 {
        zs / 146097
    } else {
        -((146096 - zs) / 146097)
    };
    proof {
        lemma_era(zs as int, era as int);
    }
    let doe = zs - era * 146097;
    let yoe = (doe - doe / 1460 + doe / 36524 - doe / 146096) / 365;
    proof {
        lemma_year_of_era(doe as int);
    }
    let doy = doe - (365 * yoe + yoe / 4 - yoe / 100);
    let mp = (5 * doy + 2) / 153;
    let d64 = doy - (153 * mp + 2) / 5 + 1;
    proof {
        lemma_civil(z as int, era as int, doe as int, yoe as int, doy as int, mp as int, d64 as int);
    }
    let y = yoe + era * 400;
    let d = d64 as u32;
    let m = if mp < 10 {
        (mp + 3) as u32
    } else {
        (mp - 9) as u32
    };
    (if m <= 2 {
        y + 1
    } else {
        y
    }, m, d)
}

proof fn lemma_year_len(y: int)
    ensures
        days_before_year(y + 1) - days_before_year(y) == (if is_leap_year(y) { 366int } else { 365int }),
{
    lemma_leap_step(y);
}

proof fn lemma_years_apart(a: int, b: int)
    requires
        a < b,
    ensures
        days_before_year(b) - days_before_year(a) >= 365 * (b - a),
    decreases b - a,
{
    lemma_year_len(a);
    if a + 1 < b {
        lemma_years_apart(a + 1, b);
    }
}

proof fn lemma_day_of_year_range(y: int, m: int, d: int)
    requires
        valid_date(y, m, d),
    ensures
        0 <= days_before_month(y, m) + d - 1 < (if is_leap_year(y) { 366int } else { 365int }),
        forall|m2: int, d2: int|
            valid_date(y, m2, d2) && m < m2 ==> days_before_month(y, m) + d < days_before_month(y, m2)
                + d2,
{
    reveal_with_fuel(days_before_month, 13);
}

/// Distinct dates are distinct days.
pub proof fn lemma_date_unique(y1: int, m1: int, d1: int, y2: int, m2: int, d2: int)
    requires
        valid_date(y1, m1, d1),
        valid_date(y2, m2, d2),
        days_from_civil(y1, m1, d1) == days_from_civil(y2, m2, d2),
    ensures
        y1 == y2 && m1 == m2 && d1 == d2,
{
    lemma_day_of_year_range(y1, m1, d1);
    lemma_day_of_year_range(y2, m2, d2);
    if y1 < y2 {
        lemma_year_len(y1);
        if y1 + 1 < y2 {
            lemma_years_apart(y1 + 1, y2);
        }
    } else if y2 < y1 {
        lemma_year_len(y2);
        if y2 + 1 < y1 {
            lemma_years_apart(y2 + 1, y1);
        }
    }
}

/// The date that lies `days` days after 1970-01-01.
pub open spec fn date_of(days: int) -> (int, int, int) {
    choose|t: (int, int, int)| valid_date(t.0, t.1, t.2) && days_from_civil(t.0, t.1, t.2) == days
}

/// The ISO-8601 UTC time stamp `YYYY-MM-DDThh:mm:ssZ` of the instant `secs`
/// seconds after the Unix epoch.
pub open spec fn iso_utc(secs: nat) -> Seq<char> {
    let date = date_of((secs / 86400) as int);
    let rem = secs % 86400;
    zero_pad(decimal(date.0 as nat), 4) + seq!['-'] + zero_pad(decimal(date.1 as nat), 2) + seq!['-']
        + zero_pad(decimal(date.2 as nat), 2) + seq!['T'] + zero_pad(decimal(rem / 3600), 2) + seq![':']
        + zero_pad(decimal((rem % 3600) / 60), 2) + seq![':'] + zero_pad(decimal(rem % 60), 2) + seq!['Z']
}

/// Formats `secs` seconds after the Unix epoch as an ISO-8601 UTC time stamp.
pub fn format_iso_utc(secs: u64) -> (r: String)
    ensures
        r@ == iso_utc(secs as nat),
{
    let days = secs / 86400;
    let rem = secs % 86400;
    let h = rem / 3600;
    let m = (rem % 3600) / 60;
    let s = rem % 60;
    let (y, mo, d) = civil_from_days(days as i64);
    let ghost chosen = date_of(days as int);
    proof {
        assert(valid_date(y as int, mo as int, d as int) && days_from_civil(y as int, mo as int, d as int) == days as int);
        lemma_date_unique(chosen.0, chosen.1, chosen.2, y as int, mo as int, d as int);
        if y < 1970 {
            lemma_day_of_year_range(y as int, mo as int, d as int);
            lemma_years_apart(y as int, 1970);
        }
    }
    let mut out = String::new();
    push_decimal(&mut out, y as u64, 4);
    push_char(&mut out, '-');
    push_decimal(&mut out, mo as u64, 2);
    push_char(&mut out, '-');
    push_decimal(&mut out, d as u64, 2);
    push_char(&mut out, 'T');
    push_decimal(&mut out, h, 2);
    push_char(&mut out, ':');
    push_decimal(&mut out, m, 2);
    push_char(&mut out, ':');
    push_decimal(&mut out, s, 2);
    push_char(&mut out, 'Z');
    assert(out@ =~= iso_utc(secs as nat));
    out
}

/// Seconds elapsed since the Unix epoch on the system clock, or `None` when
/// the clock reads a time before the epoch (`SystemTime::now` and
/// `SystemTime::duration_since`). Trusted; nothing is promised of the value.
#[verifier::external_body]
fn system_secs_since_epoch() -> Option<u64> {
    std::time::SystemTime::now().duration_since(std::time::UNIX_EPOCH).ok().map(|d| d.as_secs())
}

/// The current time as an ISO-8601 UTC time stamp (the epoch when the system
/// clock reads earlier than it).
pub fn now_iso() -> (r: String)
    ensures
        exists|secs: u64| r@ == iso_utc(secs as nat),
{
    let secs = match system_secs_since_epoch() {
        Some(s) => s,
        None => 0,
    };
    format_iso_utc(secs)
}

} // verus!
