use vstd::prelude::*;

use crate::text::{
    chars_of, first_piece_chars, first_piece_seq, format_int_seq, parse_i64, parse_i64_seq,
    push_int_padded, split_once_chars, split_once_seq, string_of, trim_chars, trim_end_char,
    trim_end_char_seq, trim_seq,
};

verus! {

/// Seconds in a civil day.
pub const SECONDS_PER_DAY: i64 = 86_400;

/// Days from 0000-03-01 to 1970-01-01 in the proleptic Gregorian calendar.
pub const EPOCH_SHIFT_DAYS: i64 = 719_468;

/// Days in a 400-year Gregorian era.
pub const DAYS_PER_ERA: i64 = 146_097;

/// Division that truncates toward zero, as Rust's `/` on signed integers.
pub open spec fn trunc_div(a: int, b: int) -> int
    recommends
        b > 0,
{
    if a >= 0 {
        a / b
    } else {
        -((-a) / b)
    }
}

/// Gregorian leap-year rule, proleptic over all integers.
pub open spec fn is_leap_year(year: int) -> bool {
    year % 4 == 0 && (year % 100 != 0 || year % 400 == 0)
}

pub open spec fn days_in_month(year: int, month: int) -> int {
    if month == 2 {
        if is_leap_year(year) {
            29
        } else {
            28
        }
    } else if month == 4 || month == 6 || month == 9 || month == 11 {
        30
    } else {
        31
    }
}

/// A calendar date that exists in the proleptic Gregorian calendar.
pub open spec fn is_valid_date(year: int, month: int, day: int) -> bool {
    1 <= month <= 12 && 1 <= day <= days_in_month(year, month)
}

/// Days before year `yoe` of a 400-year era, where years start on March 1st.
pub open spec fn era_year_start(yoe: int) -> int {
    365 * yoe + yoe / 4 - yoe / 100 + yoe / 400
}

/// Days before month index `mp` of a March-based year (0 = March, 11 = February).
pub open spec fn march_month_start(mp: int) -> int {
    (153 * mp + 2) / 5
}

/// The year of the era that day `doe` of the era falls in.
pub open spec fn year_of_era_estimate(doe: int) -> int {
    (doe - doe / 1460 + doe / 36524 - doe / 146096) / 365
}

/// Days since 1970-01-01 of the date `year-month-day`, computed by Howard
/// Hinnant's `days_from_civil`. On a valid date this is the calendar day
/// number (see `law_days_from_civil_epoch` and `law_days_from_civil_next_day`);
/// for months or days out of range it is the same formula, extended.
pub open spec fn days_from_civil_spec(year: int, month: int, day: int) -> int {
    let y = if month <= 2 {
        year - 1
    } else {
        year
    };
    let era = y / 400;
    let yoe = y - era * 400;
    let mp = if month > 2 {
        month - 3
    } else {
        month + 9
    };
    let doy = trunc_div(153 * mp + 2, 5) + day - 1;
    let doe = yoe * 365 + yoe / 4 - yoe / 100 + doy;
    era * 146097 + doe - 719468
}

/// The civil date of day `z` since 1970-01-01 (Hinnant's `civil_from_days`).
pub open spec fn civil_from_days_spec(z: int) -> (int, int, int) {
    let shifted = z + 719468;
    let era = shifted / 146097;
    let doe = shifted - era * 146097;
    let yoe = year_of_era_estimate(doe);
    let y = yoe + era * 400;
    let doy = doe - (365 * yoe + yoe / 4 - yoe / 100);
    let mp = (5 * doy + 2) / 153;
    let day = doy - (153 * mp + 2) / 5 + 1;
    let month = if mp < 10 {
        mp + 3
    } else {
        mp - 9
    };
    (
        if month <= 2 {
            y + 1
        } else {
            y
        },
        month,
        day,
    )
}

pub open spec fn in_i64(x: int) -> bool {
    i64::MIN <= x <= i64::MAX
}

/// Every intermediate value of `days_from_civil` evaluated in `i64` fits:
/// the inputs on which that evaluation does not overflow.
pub open spec fn days_from_civil_fits(year: int, month: int, day: int) -> bool {
    let y = if month <= 2 {
        year - 1
    } else {
        year
    };
    let era = y / 400;
    let mp = if month > 2 {
        month - 3
    } else {
        month + 9
    };
    let month_days = trunc_div(153 * mp + 2, 5);
    let yoe = y - era * 400;
    let doe = yoe * 365 + yoe / 4 - yoe / 100 + month_days + day - 1;
    &&& in_i64(y)
    &&& in_i64(era * 400)
    &&& in_i64(mp)
    &&& in_i64(153 * mp)
    &&& in_i64(153 * mp + 2)
    &&& in_i64(month_days + day)
    &&& in_i64(month_days + day - 1)
    &&& in_i64(doe)
    &&& in_i64(era * 146097)
    &&& in_i64(era * 146097 + doe)
    &&& in_i64(era * 146097 + doe - 719468)
}

#[verifier::spinoff_prover]
#[verifier::rlimit(60)]
proof fn lemma_year_of_era_estimate(doe: int)
    requires
        0 <= doe < 146097,
    ensures
        0 <= year_of_era_estimate(doe) <= 399,
        era_year_start(year_of_era_estimate(doe)) <= doe < era_year_start(
            year_of_era_estimate(doe) + 1,
        ),
{
}

#[verifier::spinoff_prover]
proof fn lemma_month_estimate(doy: int)
    requires
        0 <= doy < 366,
    ensures
        0 <= (5 * doy + 2) / 153 <= 11,
        march_month_start((5 * doy + 2) / 153) <= doy < march_month_start((5 * doy + 2) / 153 + 1),
{
}

/// Days since 1970-01-01 of `year-month-day` (Hinnant's algorithm).
pub fn days_from_civil(year: i64, month: i64, day: i64) -> (days: i64)
    requires
        days_from_civil_fits(year as int, month as int, day as int),
    ensures
        days == days_from_civil_spec(year as int, month as int, day as int),
{
    let y = if month <= 2 {
        year - 1
    } else {
        year
    };
    let era = match y.checked_div_euclid(400) {
        Some(q) => q,
        None => 0,
    };
    let yoe = y - era * 400;
    let mp = if month > 2 {
        month - 3
    } else {
        month + 9
    };
    let doy = (153 * mp + 2) / 5 + day - 1;
    let doe = yoe * 365 + yoe / 4 - yoe / 100 + doy;
    era * 146_097 + doe - 719_468
}

/// Civil date `(year, month, day)` of day `z` since 1970-01-01.
pub fn civil_from_days(z: i64) -> (date: (i64, u32, u32))
    requires
        z <= i64::MAX - 719468,
    ensures
        (date.0 as int, date.1 as int, date.2 as int) == civil_from_days_spec(z as int),
        is_valid_date(date.0 as int, date.1 as int, date.2 as int),
        days_from_civil_spec(date.0 as int, date.1 as int, date.2 as int) == z,
{
    let shifted = z + 719_468;
    let era = match shifted.checked_div_euclid(146_097) {
        Some(q) => q,
        None => 0,
    };
    let doe = shifted - era * 146_097;
    proof {
        lemma_year_of_era_estimate(doe as int);
    }
    let yoe = (doe - doe / 1_460 + doe / 36_524 - doe / 146_096) / 365;
    let year = yoe + era * 400;
    let doy = doe - (365 * yoe + yoe / 4 - yoe / 100);
    proof {
        lemma_month_estimate(doy as int);
    }
    let mp = (5 * doy + 2) / 153;
    let day = (doy - (153 * mp + 2) / 5 + 1) as u32;
    let month = if mp < 10 {
        mp + 3
    } else {
        mp - 9
    } as u32;
    proof {
        lemma_civil_round_trip_from_days(z as int);
    }
    (
        if month <= 2 {
            year + 1
        } else {
            year
        },
        month,
        day,
    )
}

proof fn lemma_month_length(mp: int, year: int)
    requires
        0 <= mp <= 10,
    ensures
        march_month_start(mp + 1) - march_month_start(mp) == days_in_month(
            year,
            if mp < 10 {
                mp + 3
            } else {
                mp - 9
            },
        ),
{
}

proof fn lemma_leap_shift(era: int, k: int)
    requires
        1 <= k <= 400,
    ensures
        is_leap_year(400 * era + k) == (k % 4 == 0 && (k % 100 != 0 || k % 400 == 0)),
{
    assert((400 * era + k) % 4 == k % 4) by {
        vstd::arithmetic::div_mod::lemma_mod_multiples_vanish(100 * era, k, 4);
    }
    assert((400 * era + k) % 100 == k % 100) by {
        vstd::arithmetic::div_mod::lemma_mod_multiples_vanish(4 * era, k, 100);
    }
    assert((400 * era + k) % 400 == k % 400) by {
        vstd::arithmetic::div_mod::lemma_mod_multiples_vanish(era, k, 400);
    }
}

proof fn lemma_year_length(era: int, yoe: int)
    requires
        0 <= yoe <= 399,
    ensures
        era_year_start(yoe + 1) - era_year_start(yoe) == if is_leap_year(400 * era + yoe + 1) {
            366int
        } else {
            365int
        },
{
    lemma_leap_shift(era, yoe + 1);
}

/// The forward formula on a date assembled from its era decomposition.
proof fn lemma_days_from_parts(era: int, yoe: int, mp: int, day: int)
    requires
        0 <= yoe <= 399,
        0 <= mp <= 11,
    ensures
        ({
            let y = yoe + era * 400;
            let month = if mp < 10 {
                mp + 3
            } else {
                mp - 9
            };
            let year = if month <= 2 {
                y + 1
            } else {
                y
            };
            days_from_civil_spec(year, month, day) == era * 146097 + era_year_start(yoe)
                + march_month_start(mp) + day - 1 - 719468
        }),
{
    let y = yoe + era * 400;
    assert(y / 400 == era) by {
        vstd::arithmetic::div_mod::lemma_fundamental_div_mod_converse(y, 400, era, yoe);
    }
}

/// Every day number names a valid date, and that date maps back to it.
pub proof fn lemma_civil_round_trip_from_days(z: int)
    ensures
        is_valid_date(civil_from_days_spec(z).0, civil_from_days_spec(z).1, civil_from_days_spec(z).2),
        days_from_civil_spec(
            civil_from_days_spec(z).0,
            civil_from_days_spec(z).1,
            civil_from_days_spec(z).2,
        ) == z,
{
    let shifted = z + 719468;
    let era = shifted / 146097;
    let doe = shifted - era * 146097;
    assert(0 <= doe < 146097) by {
        vstd::arithmetic::div_mod::lemma_fundamental_div_mod(shifted, 146097);
        vstd::arithmetic::div_mod::lemma_mod_bound(shifted, 146097);
    }
    lemma_year_of_era_estimate(doe);
    let yoe = year_of_era_estimate(doe);
    let doy = doe - (365 * yoe + yoe / 4 - yoe / 100);
    assert(doy == doe - era_year_start(yoe));
    lemma_year_length(era, yoe);
    lemma_month_estimate(doy);
    let mp = (5 * doy + 2) / 153;
    let day = doy - (153 * mp + 2) / 5 + 1;
    lemma_days_from_parts(era, yoe, mp, day);
    if mp <= 10 {
        lemma_month_length(mp, yoe + era * 400);
    }
}

proof fn lemma_era_year_start_monotone(a: int, b: int)
    requires
        0 <= a <= b <= 400,
    ensures
        era_year_start(a) <= era_year_start(b),
        a < b ==> era_year_start(a) < era_year_start(b),
{
}

proof fn lemma_march_month_start_monotone(a: int, b: int)
    requires
        0 <= a <= b <= 12,
    ensures
        a < b ==> march_month_start(a) < march_month_start(b),
{
}

/// A valid date survives the trip to its day number and back.
pub proof fn law_civil_round_trip_from_date(year: int, month: int, day: int)
    requires
        is_valid_date(year, month, day),
    ensures
        civil_from_days_spec(days_from_civil_spec(year, month, day)) == (year, month, day),
{
    let y1 = if month <= 2 {
        year - 1
    } else {
        year
    };
    let era = y1 / 400;
    let yoe = y1 - era * 400;
    assert(0 <= yoe < 400) by {
        vstd::arithmetic::div_mod::lemma_fundamental_div_mod(y1, 400);
        vstd::arithmetic::div_mod::lemma_mod_bound(y1, 400);
    }
    let mp = if month > 2 {
        month - 3
    } else {
        month + 9
    };
    let doy = march_month_start(mp) + day - 1;
    lemma_year_length(era, yoe);
    if mp <= 10 {
        lemma_month_length(mp, year);
        lemma_march_month_start_monotone(mp + 1, 11);
    }
    assert(0 <= doy < era_year_start(yoe + 1) - era_year_start(yoe));
    let doe = era_year_start(yoe) + doy;
    lemma_era_year_start_monotone(yoe + 1, 400);
    assert(0 <= doe < 146097);
    let z = days_from_civil_spec(year, month, day);
    assert(z == era * 146097 + doe - 719468);
    assert((z + 719468) / 146097 == era) by {
        vstd::arithmetic::div_mod::lemma_fundamental_div_mod_converse(z + 719468, 146097, era, doe);
    }
    lemma_year_of_era_estimate(doe);
    let yoe2 = year_of_era_estimate(doe);
    if yoe2 < yoe {
        lemma_era_year_start_monotone(yoe2 + 1, yoe);
    } else if yoe2 > yoe {
        lemma_era_year_start_monotone(yoe + 1, yoe2);
    }
    assert(yoe2 == yoe);
    lemma_month_estimate(doy);
    let mp2 = (5 * doy + 2) / 153;
    if mp2 < mp {
        lemma_march_month_start_monotone(mp2 + 1, mp);
    } else if mp2 > mp {
        lemma_march_month_start_monotone(mp + 1, mp2);
    }
    assert(mp2 == mp);
}

/// 1970-01-01 is day zero.
pub proof fn law_days_from_civil_epoch()
    ensures
        days_from_civil_spec(1970, 1, 1) == 0,
        civil_from_days_spec(0) == (1970int, 1int, 1int),
{
    law_civil_round_trip_from_date(1970, 1, 1);
}

/// The date that follows `year-month-day` in the calendar.
pub open spec fn next_date(year: int, month: int, day: int) -> (int, int, int) {
    if day < days_in_month(year, month) {
        (year, month, day + 1)
    } else if month < 12 {
        (year, month + 1, 1)
    } else {
        (year + 1, 1, 1)
    }
}

/// Consecutive calendar dates have consecutive day numbers.
pub proof fn law_days_from_civil_next_day(year: int, month: int, day: int)
    requires
        is_valid_date(year, month, day),
    ensures
        is_valid_date(next_date(year, month, day).0, next_date(year, month, day).1, next_date(year, month, day).2),
        days_from_civil_spec(
            next_date(year, month, day).0,
            next_date(year, month, day).1,
            next_date(year, month, day).2,
        ) == days_from_civil_spec(year, month, day) + 1,
{
    lemma_next_date_forward(year, month, day);
}

/// The forward formula steps by one from a date to its successor.
proof fn lemma_next_date_forward(year: int, month: int, day: int)
    requires
        is_valid_date(year, month, day),
    ensures
        days_from_civil_spec(
            next_date(year, month, day).0,
            next_date(year, month, day).1,
            next_date(year, month, day).2,
        ) == days_from_civil_spec(year, month, day) + 1,
{
    if day < days_in_month(year, month) {
    } else if month < 12 {
        if month == 2 {
            let y1 = year - 1;
            let era = y1 / 400;
            let yoe = y1 - era * 400;
            assert(0 <= yoe < 400) by {
                vstd::arithmetic::div_mod::lemma_fundamental_div_mod(y1, 400);
                vstd::arithmetic::div_mod::lemma_mod_bound(y1, 400);
            }
            lemma_year_length(era, yoe);
            if yoe == 399 {
                assert(year / 400 == era + 1) by {
                    vstd::arithmetic::div_mod::lemma_fundamental_div_mod_converse(year, 400, era + 1, 0);
                }
            } else {
                assert(year / 400 == era) by {
                    vstd::arithmetic::div_mod::lemma_fundamental_div_mod_converse(year, 400, era, yoe + 1);
                }
            }
        } else {
            lemma_month_length(
                if month > 2 {
                    month - 3
                } else {
                    month + 9
                },
                year,
            );
        }
    } else {
        lemma_month_length(9, year);
    }
}

/// `YYYY-MM-DDTHH:MM:SSZ` for the UTC instant `unix_seconds`, each field
/// zero-padded as `{:04}` / `{:02}` pad it.
pub open spec fn rfc3339_seq(unix_seconds: int) -> Seq<char> {
    let days = unix_seconds / 86400;
    let secs = unix_seconds % 86400;
    let date = civil_from_days_spec(days);
    format_int_seq(date.0, 4) + seq!['-'] + format_int_seq(date.1, 2) + seq!['-']
        + format_int_seq(date.2, 2) + seq!['T'] + format_int_seq(secs / 3600, 2) + seq![':']
        + format_int_seq((secs % 3600) / 60, 2) + seq![':'] + format_int_seq(secs % 60, 2)
        + seq!['Z']
}

/// RFC 3339 text (UTC, second precision) of a unix timestamp, using the
/// proleptic Gregorian calendar (Hinnant's civil-from-days).
pub fn rfc3339_from_unix(unix_seconds: i64) -> (text: String)
    ensures
        text@ == rfc3339_seq(unix_seconds as int),
{
    let days = match unix_seconds.checked_div_euclid(86_400) {
        Some(q) => q,
        None => 0,
    };
    let secs = match unix_seconds.checked_rem_euclid(86_400) {
        Some(r) => r,
        None => 0,
    };
    assert(0 <= secs < 86400) by {
        vstd::arithmetic::div_mod::lemma_mod_bound(unix_seconds as int, 86400);
    }
    assert(days <= i64::MAX - 719468) by {
        vstd::arithmetic::div_mod::lemma_fundamental_div_mod(unix_seconds as int, 86400);
    }
    let date = civil_from_days(days);
    let mut out: Vec<char> = Vec::new();
    push_int_padded(&mut out, date.0, 4);
    out.push('-');
    push_int_padded(&mut out, date.1 as i64, 2);
    out.push('-');
    push_int_padded(&mut out, date.2 as i64, 2);
    out.push('T');
    push_int_padded(&mut out, secs / 3600, 2);
    out.push(':');
    push_int_padded(&mut out, (secs % 3600) / 60, 2);
    out.push(':');
    push_int_padded(&mut out, secs % 60, 2);
    out.push('Z');
    assert(out@ =~= rfc3339_seq(unix_seconds as int));
    string_of(&out)
}

/// The six numeric fields of a `YYYY-MM-DD HH:MM:SS` (or `...THH:MM:SSZ`)
/// timestamp, split and parsed the way `unix_from_sqlite_datetime` does:
/// trimmed; split at the first space, or else at the first `T`; the date at
/// the first two `-`; trailing `Z`s dropped from the time, which is split at
/// the first two `:`; fractional seconds after a `.` ignored.
pub open spec fn sqlite_datetime_fields(value: Seq<char>) -> Option<(int, int, int, int, int, int)> {
    let v = trim_seq(value);
    let halves = match split_once_seq(v, ' ') {
        Some(parts) => Some(parts),
        None => split_once_seq(v, 'T'),
    };
    match halves {
        None => None,
        Some(halves) => match split_once_seq(halves.0, '-') {
            None => None,
            Some(date1) => match split_once_seq(date1.1, '-') {
                None => None,
                Some(date2) => {
                    let time = trim_end_char_seq(halves.1, 'Z');
                    match split_once_seq(time, ':') {
                        None => None,
                        Some(time1) => match split_once_seq(time1.1, ':') {
                            None => None,
                            Some(time2) => {
                                let seconds = first_piece_seq(time2.1, '.');
                                match (
                                    parse_i64_seq(date1.0),
                                    parse_i64_seq(date2.0),
                                    parse_i64_seq(date2.1),
                                    parse_i64_seq(time1.0),
                                    parse_i64_seq(time2.0),
                                    parse_i64_seq(seconds),
                                ) {
                                    (
                                        Some(year),
                                        Some(month),
                                        Some(day),
                                        Some(hour),
                                        Some(minute),
                                        Some(second),
                                    ) => Some((year, month, day, hour, minute, second)),
                                    _ => None,
                                }
                            },
                        },
                    }
                },
            },
        },
    }
}

/// Unix seconds of parsed timestamp fields.
pub open spec fn unix_of_fields(f: (int, int, int, int, int, int)) -> int {
    days_from_civil_spec(f.0, f.1, f.2) * 86400 + f.3 * 3600 + f.4 * 60 + f.5
}

/// The inputs on which the `i64` arithmetic of `unix_from_sqlite_datetime`
/// does not overflow.
pub open spec fn sqlite_datetime_fits(value: Seq<char>) -> bool {
    match sqlite_datetime_fields(value) {
        None => true,
        Some(f) => {
            let days = days_from_civil_spec(f.0, f.1, f.2);
            &&& days_from_civil_fits(f.0, f.1, f.2)
            &&& in_i64(days * 86400)
            &&& in_i64(f.3 * 3600)
            &&& in_i64(days * 86400 + f.3 * 3600)
            &&& in_i64(f.4 * 60)
            &&& in_i64(days * 86400 + f.3 * 3600 + f.4 * 60)
            &&& in_i64(days * 86400 + f.3 * 3600 + f.4 * 60 + f.5)
        },
    }
}

/// The six numeric fields of a SQLite datetime text, as `sqlite_datetime_fields`
/// reads them.
fn sqlite_datetime_parts(value: &str) -> (parts: Option<(i64, i64, i64, i64, i64, i64)>)
    ensures
        match sqlite_datetime_fields(value@) {
            None => parts is None,
            Some(f) => match parts {
                Some(p) => f == (p.0 as int, p.1 as int, p.2 as int, p.3 as int, p.4 as int, p.5 as int),
                None => false,
            },
        },
{
    let raw = chars_of(value);
    let v = trim_chars(&raw);
    let halves = match split_once_chars(&v, ' ') {
        Some(parts) => parts,
        None => match split_once_chars(&v, 'T') {
            Some(parts) => parts,
            None => return None,
        },
    };
    let (date, time_raw) = halves;
    let (year_text, date_rest) = match split_once_chars(&date, '-') {
        Some(parts) => parts,
        None => return None,
    };
    let (month_text, day_text) = match split_once_chars(&date_rest, '-') {
        Some(parts) => parts,
        None => return None,
    };
    let time = trim_end_char(&time_raw, 'Z');
    let (hour_text, time_rest) = match split_once_chars(&time, ':') {
        Some(parts) => parts,
        None => return None,
    };
    let (minute_text, second_rest) = match split_once_chars(&time_rest, ':') {
        Some(parts) => parts,
        None => return None,
    };
    let second_text = first_piece_chars(&second_rest, '.');
    let year = match parse_i64(&year_text) {
        Some(x) => x,
        None => return None,
    };
    let month = match parse_i64(&month_text) {
        Some(x) => x,
        None => return None,
    };
    let day = match parse_i64(&day_text) {
        Some(x) => x,
        None => return None,
    };
    let hour = match parse_i64(&hour_text) {
        Some(x) => x,
        None => return None,
    };
    let minute = match parse_i64(&minute_text) {
        Some(x) => x,
        None => return None,
    };
    let second = match parse_i64(&second_text) {
        Some(x) => x,
        None => return None,
    };
    Some((year, month, day, hour, minute, second))
}

/// Inverse of `rfc3339_from_unix` for SQLite `datetime('now')` strings
/// ("YYYY-MM-DD HH:MM:SS", UTC). Returns unix seconds.
pub fn unix_from_sqlite_datetime(value: &str) -> (unix: Option<i64>)
    requires
        sqlite_datetime_fits(value@),
    ensures
        match sqlite_datetime_fields(value@) {
            None => unix is None,
            Some(f) => unix == Some(unix_of_fields(f) as i64),
        },
{
    match sqlite_datetime_parts(value) {
        None => None,
        Some((year, month, day, hour, minute, second)) => {
            let days = days_from_civil(year, month, day);
            Some(days * 86_400 + hour * 3_600 + minute * 60 + second)
        },
    }
}

fn fits_i64(x: i128) -> (fits: bool)
    ensures
        fits == in_i64(x as int),
{
    (i64::MIN as i128) <= x && x <= (i64::MAX as i128)
}

/// Whether `days_from_civil` can evaluate the date without overflow.
pub fn civil_date_in_range(year: i64, month: i64, day: i64) -> (fits: bool)
    ensures
        fits == days_from_civil_fits(year as int, month as int, day as int),
{
    let y: i128 = if month <= 2 {
        year as i128 - 1
    } else {
        year as i128
    };
    let era: i128 = match y.checked_div_euclid(400) {
        Some(q) => q,
        None => 0,
    };
    let mp: i128 = if month > 2 {
        month as i128 - 3
    } else {
        month as i128 + 9
    };
    let month_days: i128 = (153 * mp + 2) / 5;
    let yoe: i128 = y - era * 400;
    assert(0 <= yoe < 400);
    let doe: i128 = yoe * 365 + yoe / 4 - yoe / 100 + month_days + day as i128 - 1;
    fits_i64(y) && fits_i64(era * 400) && fits_i64(mp) && fits_i64(153 * mp) && fits_i64(
        153 * mp + 2,
    ) && fits_i64(month_days + day as i128) && fits_i64(month_days + day as i128 - 1) && fits_i64(
        doe,
    ) && fits_i64(era * 146_097) && fits_i64(era * 146_097 + doe) && fits_i64(
        era * 146_097 + doe - 719_468,
    )
}

/// Whether `unix_from_sqlite_datetime` can read `value` without overflow
/// (`sqlite_datetime_fits`): callers test this before the call.
pub fn sqlite_datetime_in_range(value: &str) -> (fits: bool)
    ensures
        fits == sqlite_datetime_fits(value@),
{
    match sqlite_datetime_parts(value) {
        None => true,
        Some((year, month, day, hour, minute, second)) => {
            if !civil_date_in_range(year, month, day) {
                return false;
            }
            let days = days_from_civil(year, month, day) as i128;
            let h = hour as i128 * 3_600;
            let m = minute as i128 * 60;
            fits_i64(days * 86_400) && fits_i64(h) && fits_i64(days * 86_400 + h) && fits_i64(m)
                && fits_i64(days * 86_400 + h + m) && fits_i64(days * 86_400 + h + m + second as i128)
        },
    }
}

/// `SystemTime::now`, as whole seconds since the Unix epoch
/// (`duration_since(UNIX_EPOCH)`, 0 when the clock reads before the
/// epoch). No contract: the value is the clock's.
#[verifier::external_body]
fn unix_now_seconds() -> u64 {
    std::time::SystemTime::now().duration_since(std::time::UNIX_EPOCH).map(
        |duration| duration.as_secs(),
    ).unwrap_or(0)
}

/// The current UTC time as RFC 3339 text, second precision.
pub fn rfc3339_utc_now() -> (text: String)
    ensures
        exists|seconds: int| in_i64(seconds) && #[trigger] rfc3339_seq(seconds) == text@,
{
    let seconds = unix_now_seconds();
    let text = rfc3339_from_unix(seconds as i64);
    assert(in_i64(seconds as i64 as int) && rfc3339_seq(seconds as i64 as int) == text@);
    text
}

} // verus!
