//! Calendar days of a time zone and the instants that bound them.
//!
//! An instant is a number of seconds since 1970-01-01T00:00:00 UTC. A time
//! zone is given by its name in the IANA database. What the database says
//! of a zone is not stated here: it is named, and the functions of this
//! module are held to those names.
//!
//! A day of a zone is the seconds at which the zone shows the day's date.
//! Its first second is one at which the zone shows the date after one at
//! which it does not, and its last second likewise. So a day that begins
//! or ends with a change of the clocks has bounds as any other: it may
//! begin after midnight, and it may be shorter or longer than 24 hours.

use crate::error::RepoError;
use chrono::Datelike;
use chrono::TimeZone;
use now::DateTimeNow;
use vstd::prelude::*;

verus! {

/// First year of which every local time can be represented.
pub const YEAR_MIN: i32 = -262_142;

/// Last year of which every local time can be represented.
pub const YEAR_MAX: i32 = 262_141;

/// Whether the IANA database, as `chrono_tz` holds it, has a zone of this
/// name.
pub uninterp spec fn zone_known(name: Seq<char>) -> bool;

/// The instants at which the clocks of the zone show the given date and
/// time of day: the earliest and the latest. Both are the same where the
/// clocks show it once, and there is neither where they never show it.
pub uninterp spec fn zone_instants(
    name: Seq<char>,
    year: int,
    month: int,
    day: int,
    hour: int,
    minute: int,
    second: int,
) -> (Option<i64>, Option<i64>);

/// The date that the calendars of the zone show at an instant, as year,
/// month and day.
pub uninterp spec fn zone_date(name: Seq<char>, instant: int) -> Option<(i32, u32, u32)>;

/// The instant that a timestamp in the notation of RFC 3339 denotes: its
/// whole seconds, and the nanoseconds beyond them.
pub uninterp spec fn rfc3339_instant(text: Seq<char>) -> Option<(i64, u32)>;

/// Whether `year` is a leap year of the Gregorian calendar.
pub open spec fn is_leap_year(year: int) -> bool {
    year % 4 == 0 && (year % 100 != 0 || year % 400 == 0)
}

/// The number of days of a month, for `month` from 1 to 12.
pub open spec fn days_in_month(year: int, month: int) -> int {
    if month == 2 {
        if is_leap_year(year) {
            29
        } else {
            28
        }
    } else if month == 4 || month == 6 || month == 9 || month == 11 {
        30
    } else {
        31
    }
}

/// Whether the calendar has the day: the month is one of the twelve, the
/// day one of the month's, the year one that the calendar covers.
pub open spec fn is_calendar_date(year: int, month: int, day: int) -> bool {
    &&& YEAR_MIN <= year <= YEAR_MAX
    &&& 1 <= month <= 12
    &&& 1 <= day <= days_in_month(year, month)
}

/// The day before a day of the calendar.
pub open spec fn day_before(year: int, month: int, day: int) -> (int, int, int) {
    if day > 1 {
        (year, month, day - 1)
    } else if month > 1 {
        (year, month - 1, days_in_month(year, month - 1))
    } else {
        (year - 1, 12, 31)
    }
}

/// The day that lies `back` days before a day of the calendar.
pub open spec fn days_back(date: (int, int, int), back: nat) -> (int, int, int)
    decreases back,
{
    if back == 0 {
        date
    } else {
        let later = days_back(date, (back - 1) as nat);
        day_before(later.0, later.1, later.2)
    }
}

/// What a date holds, as numbers without bounds.
pub open spec fn date_view(date: (i32, u32, u32)) -> (int, int, int) {
    (date.0 as int, date.1 as int, date.2 as int)
}

/// The number of days in a window of `n` days: none where `n` is not
/// positive.
pub open spec fn window_days(n: i64) -> nat {
    if n <= 0 {
        0
    } else {
        n as nat
    }
}

/// Whether `first` is a first second of a day in a zone: the zone shows
/// the date at it and another date, or none, the second before.
pub open spec fn first_second_of(name: Seq<char>, date: (i32, u32, u32), first: i64) -> bool {
    &&& i64::MIN < first
    &&& zone_date(name, first as int) == Some(date)
    &&& zone_date(name, first - 1) != Some(date)
}

/// Whether `last` is a last second of a day in a zone: the zone shows the
/// date at it and another date, or none, the second after.
pub open spec fn last_second_of_day(name: Seq<char>, date: (i32, u32, u32), last: i64) -> bool {
    &&& last < i64::MAX
    &&& zone_date(name, last as int) == Some(date)
    &&& zone_date(name, last + 1) != Some(date)
}

/// Seconds from one noon to the next where the clocks do not change.
pub const DAY_SECONDS: i64 = 86_400;

/// The boundary that halving finds between an instant at which the zone
/// does not show a date and a later one at which it does: an instant at
/// which it shows the date, after one at which it does not.
pub open spec fn first_between(name: Seq<char>, date: (i32, u32, u32), before: int, at: int) -> int
    decreases at - before,
{
    if at - before <= 1 {
        at
    } else {
        let middle = before + (at - before) / 2;
        if zone_date(name, middle) == Some(date) {
            first_between(name, date, before, middle)
        } else {
            first_between(name, date, middle, at)
        }
    }
}

/// The boundary that halving finds between an instant at which the zone
/// shows a date and a later one at which it does not: an instant at which
/// it shows the date, before one at which it does not.
pub open spec fn last_between(name: Seq<char>, date: (i32, u32, u32), at: int, after: int) -> int
    decreases after - at,
{
    if after - at <= 1 {
        at
    } else {
        let middle = at + (after - at) / 2;
        if zone_date(name, middle) == Some(date) {
            last_between(name, date, middle, after)
        } else {
            last_between(name, date, at, middle)
        }
    }
}

/// Halving ends at a first second of the day.
pub proof fn lemma_first_between(name: Seq<char>, date: (i32, u32, u32), before: int, at: int)
    requires
        before < at,
        zone_date(name, before) != Some(date),
        zone_date(name, at) == Some(date),
    ensures
        before < first_between(name, date, before, at) <= at,
        zone_date(name, first_between(name, date, before, at)) == Some(date),
        zone_date(name, first_between(name, date, before, at) - 1) != Some(date),
    decreases at - before,
{
    if at - before > 1 {
        let middle = before + (at - before) / 2;
        if zone_date(name, middle) == Some(date) {
            lemma_first_between(name, date, before, middle);
        } else {
            lemma_first_between(name, date, middle, at);
        }
    }
}

/// Halving ends at a last second of the day.
pub proof fn lemma_last_between(name: Seq<char>, date: (i32, u32, u32), at: int, after: int)
    requires
        at < after,
        zone_date(name, at) == Some(date),
        zone_date(name, after) != Some(date),
    ensures
        at <= last_between(name, date, at, after) < after,
        zone_date(name, last_between(name, date, at, after)) == Some(date),
        zone_date(name, last_between(name, date, at, after) + 1) != Some(date),
    decreases after - at,
{
    if after - at > 1 {
        let middle = at + (after - at) / 2;
        if zone_date(name, middle) == Some(date) {
            lemma_last_between(name, date, middle, after);
        } else {
            lemma_last_between(name, date, at, middle);
        }
    }
}

/// The first second of a day in a zone. It is the earliest instant of the
/// day's midnight where that is a first second of the day. Else, as where
/// the clocks skip midnight, it is found by halving between the earliest
/// instant of the day's noon and the instant a day's seconds before it,
/// where the zone shows the date at the one and not at the other. Else
/// there is none.
pub open spec fn day_first(name: Seq<char>, date: (i32, u32, u32)) -> Option<i64> {
    let midnight = zone_instants(name, date.0 as int, date.1 as int, date.2 as int, 0, 0, 0).0;
    let noon = zone_instants(name, date.0 as int, date.1 as int, date.2 as int, 12, 0, 0).0;
    if midnight is Some && first_second_of(name, date, midnight->0) {
        midnight
    } else if noon is Some && i64::MIN <= noon->0 - DAY_SECONDS && zone_date(name, noon->0 as int)
        == Some(date) && zone_date(name, noon->0 - DAY_SECONDS) != Some(date) {
        Some(first_between(name, date, noon->0 - DAY_SECONDS, noon->0 as int) as i64)
    } else {
        None
    }
}

/// The last second of a day in a zone. It is the latest instant of the
/// day's last second where that is a last second of the day. Else, as
/// where the clocks skip the end of the day, it is found by halving
/// between the earliest instant of the day's noon and the instant a day's
/// seconds after it, where the zone shows the date at the one and not at
/// the other. Else there is none.
pub open spec fn day_last(name: Seq<char>, date: (i32, u32, u32)) -> Option<i64> {
    let evening = zone_instants(name, date.0 as int, date.1 as int, date.2 as int, 23, 59, 59).1;
    let noon = zone_instants(name, date.0 as int, date.1 as int, date.2 as int, 12, 0, 0).0;
    if evening is Some && last_second_of_day(name, date, evening->0) {
        evening
    } else if noon is Some && noon->0 + DAY_SECONDS <= i64::MAX && zone_date(name, noon->0 as int)
        == Some(date) && zone_date(name, noon->0 + DAY_SECONDS) != Some(date) {
        Some(last_between(name, date, noon->0 as int, noon->0 + DAY_SECONDS) as i64)
    } else {
        None
    }
}

/// The first and the last second of a calendar day of a zone, or why
/// there are none: the zone is unknown, the calendar lacks the day, or the
/// zone shows the day at none of the instants at which a day can begin and
/// end, as where it left the day out.
pub open spec fn day_bounds(name: Seq<char>, year: int, month: int, day: int) -> Result<
    (i64, i64),
    RepoError,
> {
    if !zone_known(name) {
        Err(RepoError::InvalidTimezone)
    } else if !is_calendar_date(year, month, day) {
        Err(RepoError::InvalidDate)
    } else {
        let date = (year as i32, month as u32, day as u32);
        match (day_first(name, date), day_last(name, date)) {
            (Some(first), Some(last)) => if first <= last {
                Ok((first, last))
            } else {
                Err(RepoError::InvalidDate)
            },
            _ => Err(RepoError::InvalidDate),
        }
    }
}

/// The one instant of midnight of the calendar day that an instant falls
/// on in a zone, where the calendar covers the day and the zone's clocks
/// show its midnight exactly once.
pub open spec fn midnight_of(name: Seq<char>, instant: int) -> Option<i64> {
    match zone_date(name, instant) {
        Some((year, month, day)) => {
            let found = zone_instants(name, year as int, month as int, day as int, 0, 0, 0);
            if YEAR_MIN <= year <= YEAR_MAX && found.0 == found.1 {
                found.0
            } else {
                None
            }
        },
        None => None,
    }
}

/// The one instant of the last second of the calendar day that an instant
/// falls on in a zone, where the calendar covers the day and the zone's
/// clocks show that second exactly once.
pub open spec fn last_second_of(name: Seq<char>, instant: int) -> Option<i64> {
    match zone_date(name, instant) {
        Some((year, month, day)) => {
            let found = zone_instants(name, year as int, month as int, day as int, 23, 59, 59);
            if YEAR_MIN <= year <= YEAR_MAX && found.0 == found.1 {
                found.0
            } else {
                None
            }
        },
        None => None,
    }
}

/// The first second of the calendar day that an instant falls on in a
/// zone, or why there is none.
pub open spec fn day_start(name: Seq<char>, instant: int) -> Result<i64, RepoError> {
    if !zone_known(name) {
        Err(RepoError::InvalidTimezone)
    } else {
        match zone_date(name, instant) {
            Some(date) => if YEAR_MIN <= date.0 <= YEAR_MAX {
                match day_first(name, date) {
                    Some(first) => Ok(first),
                    None => Err(RepoError::InvalidDate),
                }
            } else {
                Err(RepoError::InvalidDate)
            },
            None => Err(RepoError::InvalidDate),
        }
    }
}

/// What is found as the first second of a day is one.
pub proof fn lemma_day_first(name: Seq<char>, date: (i32, u32, u32))
    ensures
        day_first(name, date) matches Some(first) ==> first_second_of(name, date, first),
{
    let noon = zone_instants(name, date.0 as int, date.1 as int, date.2 as int, 12, 0, 0).0;
    if noon is Some && i64::MIN <= noon->0 - DAY_SECONDS && zone_date(name, noon->0 as int)
        == Some(date) && zone_date(name, noon->0 - DAY_SECONDS) != Some(date) {
        lemma_first_between(name, date, noon->0 - DAY_SECONDS, noon->0 as int);
    }
}

/// What is found as the last second of a day is one.
pub proof fn lemma_day_last(name: Seq<char>, date: (i32, u32, u32))
    ensures
        day_last(name, date) matches Some(last) ==> last_second_of_day(name, date, last),
{
    let noon = zone_instants(name, date.0 as int, date.1 as int, date.2 as int, 12, 0, 0).0;
    if noon is Some && noon->0 + DAY_SECONDS <= i64::MAX && zone_date(name, noon->0 as int)
        == Some(date) && zone_date(name, noon->0 + DAY_SECONDS) != Some(date) {
        lemma_last_between(name, date, noon->0 as int, noon->0 + DAY_SECONDS);
    }
}

/// The bounds of a day are its first and its last second in the zone, the
/// first not after the last; and they are refused for an unknown zone and
/// for a day that the calendar lacks.
pub proof fn law_day_bounds(name: Seq<char>, year: i32, month: u32, day: u32)
    ensures
        !zone_known(name) ==> day_bounds(name, year as int, month as int, day as int) == Err::<
            (i64, i64),
            RepoError,
        >(RepoError::InvalidTimezone),
        zone_known(name) && !is_calendar_date(year as int, month as int, day as int)
            ==> day_bounds(name, year as int, month as int, day as int) == Err::<
            (i64, i64),
            RepoError,
        >(RepoError::InvalidDate),
        day_bounds(name, year as int, month as int, day as int) matches Ok(b) ==> {
            &&& b.0 <= b.1
            &&& first_second_of(name, (year, month, day), b.0)
            &&& last_second_of_day(name, (year, month, day), b.1)
        },
        day_bounds(name, year as int, month as int, day as int) matches Err(e) ==> e
            == RepoError::InvalidTimezone || e == RepoError::InvalidDate,
{
    lemma_day_first(name, (year, month, day));
    lemma_day_last(name, (year, month, day));
}

/// The start of the day of an instant is a first second of the day that
/// the zone shows at the instant.
pub proof fn law_day_start(name: Seq<char>, instant: i64)
    ensures
        day_start(name, instant as int) matches Ok(first) ==> {
            &&& zone_known(name)
            &&& zone_date(name, instant as int) is Some
            &&& zone_date(name, first as int) == zone_date(name, instant as int)
            &&& zone_date(name, first - 1) != zone_date(name, instant as int)
        },
        !zone_known(name) ==> day_start(name, instant as int) == Err::<i64, RepoError>(
            RepoError::InvalidTimezone,
        ),
{
    if let Some(date) = zone_date(name, instant as int) {
        lemma_day_first(name, date);
    }
}

/// `Tz::from_str` of `chrono_tz` looks the name up in its table of zones.
/// The result says whether it found one.
#[verifier::external_body]
pub(crate) fn zone_exists(name: &str) -> (known: bool)
    ensures
        known == zone_known(name@),
{
    name.parse::<chrono_tz::Tz>().is_ok()
}

/// `TimeZone::with_ymd_and_hms` of `chrono`, on the zone of this name, and
/// the result's `earliest` and `latest`, each by its `timestamp`: both of
/// the one instant, the two of two instants, or neither where the zone has
/// none. There is no instant for an unknown zone.
#[verifier::external_body]
pub(crate) fn local_instants(
    name: &str,
    year: i32,
    month: u32,
    day: u32,
    hour: u32,
    minute: u32,
    second: u32,
) -> (instants: (Option<i64>, Option<i64>))
    ensures
        instants == zone_instants(
            name@,
            year as int,
            month as int,
            day as int,
            hour as int,
            minute as int,
            second as int,
        ),
        !zone_known(name@) ==> instants.0 is None && instants.1 is None,
{
    let zone: chrono_tz::Tz = match name.parse() {
        Ok(zone) => zone,
        Err(_) => return (None, None),
    };
    let found = zone.with_ymd_and_hms(year, month, day, hour, minute, second);
    let earliest = match found.earliest() {
        Some(at) => Some(at.timestamp()),
        None => None,
    };
    let latest = match found.latest() {
        Some(at) => Some(at.timestamp()),
        None => None,
    };
    (earliest, latest)
}

/// `TimeZone::timestamp_opt` of `chrono`, on the zone of this name, and
/// the year, month and day of the result. There is a date only for a known
/// zone.
#[verifier::external_body]
pub(crate) fn local_date(name: &str, instant: i64) -> (date: Option<(i32, u32, u32)>)
    ensures
        date == zone_date(name@, instant as int),
        !zone_known(name@) ==> date is None,
{
    let zone: chrono_tz::Tz = name.parse().ok()?;
    let at = zone.timestamp_opt(instant, 0).single()?;
    Some((at.year(), at.month(), at.day()))
}

/// `DateTimeNow::beginning_of_day` of `now`, on the instant as the zone
/// sees it. It takes the local date of the instant and asks the zone for
/// the one instant of that date's midnight. It panics where the zone has
/// none or two, and where the local time cannot be represented, so both
/// are asked for: the earliest and the latest instant of midnight are one
/// instant, which two instants of one local time never are.
#[verifier::external_body]
pub(crate) fn beginning_of_day(name: &str, instant: i64) -> (first: i64)
    requires
        zone_known(name@),
        midnight_of(name@, instant as int) is Some,
    ensures
        midnight_of(name@, instant as int) == Some(first),
{
    let zone: chrono_tz::Tz = name.parse().unwrap();
    zone.timestamp_opt(instant, 0).unwrap().beginning_of_day().timestamp()
}

/// `DateTimeNow::end_of_day` of `now`, on the instant as the zone sees it.
/// It takes the local date of the instant and asks the zone for the one
/// instant of that date's last nanosecond, of which this is the second.
/// The zone decides by the second alone. It panics where the zone has no
/// such instant or two, and where the local time cannot be represented, so
/// both are asked for: the earliest and the latest instant of the last
/// second are one instant.
#[verifier::external_body]
pub(crate) fn end_of_day(name: &str, instant: i64) -> (last: i64)
    requires
        zone_known(name@),
        last_second_of(name@, instant as int) is Some,
    ensures
        last_second_of(name@, instant as int) == Some(last),
{
    let zone: chrono_tz::Tz = name.parse().unwrap();
    zone.timestamp_opt(instant, 0).unwrap().end_of_day().timestamp()
}

/// `DateTime::parse_from_rfc3339` of `chrono`, and the result's
/// `timestamp` and `timestamp_subsec_nanos`.
#[verifier::external_body]
pub(crate) fn parse_rfc3339(text: &str) -> (instant: Option<(i64, u32)>)
    ensures
        instant == rfc3339_instant(text@),
{
    let at = chrono::DateTime::parse_from_rfc3339(text).ok()?;
    Some((at.timestamp(), at.timestamp_subsec_nanos()))
}

/// `Utc::now` of `chrono`, and the result's `timestamp`: the clock's
/// reading. Nothing is claimed of it.
#[verifier::external_body]
pub(crate) fn current_instant() -> (instant: i64) {
    chrono::Utc::now().timestamp()
}

/// Whether `year` is a leap year.
pub fn leap_year(year: i32) -> (leap: bool)
    ensures
        leap == is_leap_year(year as int),
{
    // The rule repeats every 400 years: count from a year far enough back.
    let shifted: i64 = year as i64 + 2_147_484_000;
    assert(shifted % 4 == year as int % 4);
    assert(shifted % 100 == year as int % 100);
    assert(shifted % 400 == year as int % 400);
    shifted % 4 == 0 && (shifted % 100 != 0 || shifted % 400 == 0)
}

/// Whether the calendar has the day.
pub fn calendar_date(year: i32, month: u32, day: u32) -> (valid: bool)
    ensures
        valid == is_calendar_date(year as int, month as int, day as int),
{
    if year < YEAR_MIN || year > YEAR_MAX || month < 1 || month > 12 || day < 1 {
        return false;
    }
    let length: u32 = if month == 2 {
        if leap_year(year) {
            29
        } else {
            28
        }
    } else if month == 4 || month == 6 || month == 9 || month == 11 {
        30
    } else {
        31
    };
    day <= length
}

/// The day before a day.
pub fn previous_day(year: i32, month: u32, day: u32) -> (before: (i32, u32, u32))
    requires
        i32::MIN < year,
    ensures
        (before.0 as int, before.1 as int, before.2 as int) == day_before(
            year as int,
            month as int,
            day as int,
        ),
{
    if day > 1 {
        (year, month, day - 1)
    } else if month > 1 {
        let length: u32 = if month - 1 == 2 {
            if leap_year(year) {
                29
            } else {
                28
            }
        } else if month - 1 == 4 || month - 1 == 6 || month - 1 == 9 || month - 1 == 11 {
            30
        } else {
            31
        };
        (year, month - 1, length)
    } else {
        (year - 1, 12, 31)
    }
}

/// The `n` days that end with `today`, the latest first: the day at place
/// `k` lies `k` days before `today`. No days where `n` is not positive.
/// Fails where one of the days lies before the first year of the calendar.
pub fn days_ending(today: (i32, u32, u32), n: i64) -> (days: Option<Vec<(i32, u32, u32)>>)
    ensures
        match days {
            Some(list) => {
                &&& list@.len() == window_days(n)
                &&& forall|k: int|
                    0 <= k < list@.len() ==> date_view(#[trigger] list@[k]) == days_back(
                        date_view(today),
                        k as nat,
                    )
                &&& forall|k: int| 0 <= k < list@.len() ==> YEAR_MIN <= (#[trigger] list@[k]).0
            },
            None => exists|k: int|
                0 <= k < window_days(n) && (#[trigger] days_back(date_view(today), k as nat)).0
                    < YEAR_MIN,
        },
{
    let mut list: Vec<(i32, u32, u32)> = Vec::new();
    let mut date = today;
    let mut k: i64 = 0;
    while k < n
        invariant
            0 <= k <= window_days(n),
            list@.len() == k,
            date_view(date) == days_back(date_view(today), k as nat),
            forall|j: int|
                0 <= j < k ==> date_view(#[trigger] list@[j]) == days_back(
                    date_view(today),
                    j as nat,
                ),
            forall|j: int| 0 <= j < k ==> YEAR_MIN <= (#[trigger] list@[j]).0,
        decreases n - k,
    {
        if date.0 < YEAR_MIN {
            assert(days_back(date_view(today), k as nat).0 < YEAR_MIN);
            return None;
        }
        list.push(date);
        date = previous_day(date.0, date.1, date.2);
        k += 1;
    }
    Some(list)
}

/// Whether the zone shows this date at an instant.
fn shows_date(name: &str, date: (i32, u32, u32), at: i64) -> (yes: bool)
    ensures
        yes == (zone_date(name@, at as int) == Some(date)),
{
    match local_date(name, at) {
        Some(shown) => shown.0 == date.0 && shown.1 == date.1 && shown.2 == date.2,
        None => false,
    }
}

/// Whether an instant is a first second of a day in a zone.
fn begins_day(name: &str, date: (i32, u32, u32), at: i64) -> (yes: bool)
    ensures
        yes == first_second_of(name@, date, at),
{
    at > i64::MIN && shows_date(name, date, at) && !shows_date(name, date, at - 1)
}

/// Whether an instant is a last second of a day in a zone.
fn ends_day(name: &str, date: (i32, u32, u32), at: i64) -> (yes: bool)
    ensures
        yes == last_second_of_day(name@, date, at),
{
    at < i64::MAX && shows_date(name, date, at) && !shows_date(name, date, at + 1)
}

/// The first instant at which the zone shows a date, between an instant at
/// which it does not and a later one at which it does, found by halving.
fn find_first_between(name: &str, date: (i32, u32, u32), before: i64, at: i64) -> (first: i64)
    requires
        before < at,
        at - before <= DAY_SECONDS,
        zone_date(name@, before as int) != Some(date),
        zone_date(name@, at as int) == Some(date),
    ensures
        first == first_between(name@, date, before as int, at as int),
        first_second_of(name@, date, first),
{
    let mut low = before;
    let mut high = at;
    while high - low > 1
        invariant
            before <= low < high <= at,
            at - before <= DAY_SECONDS,
            zone_date(name@, low as int) != Some(date),
            zone_date(name@, high as int) == Some(date),
            first_between(name@, date, low as int, high as int) == first_between(
                name@,
                date,
                before as int,
                at as int,
            ),
        decreases high - low,
    {
        let middle = low + (high - low) / 2;
        if shows_date(name, date, middle) {
            high = middle;
        } else {
            low = middle;
        }
    }
    high
}

/// The last instant at which the zone shows a date, between an instant at
/// which it does and a later one at which it does not, found by halving.
fn find_last_between(name: &str, date: (i32, u32, u32), at: i64, after: i64) -> (last: i64)
    requires
        at < after,
        after - at <= DAY_SECONDS,
        zone_date(name@, at as int) == Some(date),
        zone_date(name@, after as int) != Some(date),
    ensures
        last == last_between(name@, date, at as int, after as int),
        last_second_of_day(name@, date, last),
{
    let mut low = at;
    let mut high = after;
    while high - low > 1
        invariant
            at <= low < high <= after,
            after - at <= DAY_SECONDS,
            zone_date(name@, low as int) == Some(date),
            zone_date(name@, high as int) != Some(date),
            last_between(name@, date, low as int, high as int) == last_between(
                name@,
                date,
                at as int,
                after as int,
            ),
        decreases high - low,
    {
        let middle = low + (high - low) / 2;
        if shows_date(name, date, middle) {
            low = middle;
        } else {
            high = middle;
        }
    }
    low
}

/// The first second of a day in a zone. Each instant at which the day can
/// begin is held to the date before it is given.
fn first_of_day(name: &str, date: (i32, u32, u32)) -> (first: Option<i64>)
    requires
        zone_known(name@),
        YEAR_MIN <= date.0 <= YEAR_MAX,
    ensures
        first == day_first(name@, date),
        first matches Some(at) ==> first_second_of(name@, date, at),
{
    let midnight = local_instants(name, date.0, date.1, date.2, 0, 0, 0);
    match midnight.0 {
        Some(at) => {
            if begins_day(name, date, at) {
                let once = match midnight.1 {
                    Some(latest) => latest == at,
                    None => false,
                };
                if once {
                    return Some(beginning_of_day(name, at));
                }
                return Some(at);
            }
        },
        None => {},
    }
    let noon = local_instants(name, date.0, date.1, date.2, 12, 0, 0);
    match noon.0 {
        Some(at) => {
            if at >= i64::MIN + DAY_SECONDS && shows_date(name, date, at) && !shows_date(
                name,
                date,
                at - DAY_SECONDS,
            ) {
                Some(find_first_between(name, date, at - DAY_SECONDS, at))
            } else {
                None
            }
        },
        None => None,
    }
}

/// The last second of a day in a zone. Each instant at which the day can
/// end is held to the date before it is given.
fn last_of_day(name: &str, date: (i32, u32, u32)) -> (last: Option<i64>)
    requires
        zone_known(name@),
        YEAR_MIN <= date.0 <= YEAR_MAX,
    ensures
        last == day_last(name@, date),
        last matches Some(at) ==> last_second_of_day(name@, date, at),
{
    let evening = local_instants(name, date.0, date.1, date.2, 23, 59, 59);
    match evening.1 {
        Some(at) => {
            if ends_day(name, date, at) {
                let once = match evening.0 {
                    Some(earliest) => earliest == at,
                    None => false,
                };
                if once {
                    return Some(end_of_day(name, at));
                }
                return Some(at);
            }
        },
        None => {},
    }
    let noon = local_instants(name, date.0, date.1, date.2, 12, 0, 0);
    match noon.0 {
        Some(at) => {
            if at <= i64::MAX - DAY_SECONDS && shows_date(name, date, at) && !shows_date(
                name,
                date,
                at + DAY_SECONDS,
            ) {
                Some(find_last_between(name, date, at, at + DAY_SECONDS))
            } else {
                None
            }
        },
        None => None,
    }
}

/// The first and the last second of a calendar day of a zone. The zone's
/// name and the date are checked before the zone is asked. A day that
/// begins or ends with a change of the clocks has bounds as any other; a
/// day that the zone left out has none.
pub fn bounds_of_day(name: &str, year: i32, month: u32, day: u32) -> (bounds: Result<
    (i64, i64),
    RepoError,
>)
    ensures
        bounds == day_bounds(name@, year as int, month as int, day as int),
        !zone_known(name@) ==> bounds == Err::<(i64, i64), RepoError>(
            RepoError::InvalidTimezone,
        ),
        zone_known(name@) && !is_calendar_date(year as int, month as int, day as int) ==> bounds
            == Err::<(i64, i64), RepoError>(RepoError::InvalidDate),
        bounds matches Ok(b) ==> b.0 <= b.1 && first_second_of(name@, (year, month, day), b.0)
            && last_second_of_day(name@, (year, month, day), b.1),
{
    if !zone_exists(name) {
        return Err(RepoError::InvalidTimezone);
    }
    if !calendar_date(year, month, day) {
        return Err(RepoError::InvalidDate);
    }
    let first = first_of_day(name, (year, month, day));
    let last = last_of_day(name, (year, month, day));
    match (first, last) {
        (Some(first), Some(last)) => {
            if first <= last {
                Ok((first, last))
            } else {
                Err(RepoError::InvalidDate)
            }
        },
        _ => Err(RepoError::InvalidDate),
    }
}

/// The first second of the calendar day that an instant falls on in a
/// zone.
pub fn start_of_day(name: &str, instant: i64) -> (first: Result<i64, RepoError>)
    ensures
        first == day_start(name@, instant as int),
        !zone_known(name@) ==> first == Err::<i64, RepoError>(RepoError::InvalidTimezone),
        first matches Ok(at) ==> zone_date(name@, at as int) == zone_date(name@, instant as int)
            && zone_date(name@, at - 1) != zone_date(name@, instant as int),
{
    if !zone_exists(name) {
        return Err(RepoError::InvalidTimezone);
    }
    match local_date(name, instant) {
        Some(date) => {
            if date.0 < YEAR_MIN || date.0 > YEAR_MAX {
                return Err(RepoError::InvalidDate);
            }
            match first_of_day(name, date) {
                Some(first) => Ok(first),
                None => Err(RepoError::InvalidDate),
            }
        },
        None => Err(RepoError::InvalidDate),
    }
}

} // verus!
