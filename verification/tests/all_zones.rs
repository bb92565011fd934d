use chrono::{Datelike, Offset, TimeZone};
use math_quiz::error::RepoError;
use math_quiz::zone::{bounds_of_day, start_of_day};

fn utc_noon(year: i32) -> i64 {
    chrono::Utc.with_ymd_and_hms(year, 1, 1, 12, 0, 0).unwrap().timestamp()
}

/// Whether the zone's clocks show the date at one of five times of day.
fn shown(tz: &chrono_tz::Tz, date: chrono::NaiveDate) -> bool {
    [(0, 0, 0), (6, 0, 0), (12, 0, 0), (18, 0, 0), (23, 59, 59)].iter().any(|(h, m, s)| {
        tz.from_local_datetime(&date.and_hms_opt(*h, *m, *s).unwrap()).earliest().is_some()
    })
}

/// Holds the bounds of the days around every change of clocks of every
/// zone, from one year to another, to what the zone shows.
fn days_around_changes_have_their_bounds(from: i32, to: i32) {
    let mut changes = 0;
    for tz in chrono_tz::TZ_VARIANTS.iter() {
        let name = tz.name();
        let mut t = utc_noon(from);
        let mut before = tz.timestamp_opt(t, 0).unwrap().offset().fix().local_minus_utc();
        while t < utc_noon(to) {
            t += 86_400;
            let offset = tz.timestamp_opt(t, 0).unwrap().offset().fix().local_minus_utc();
            if offset == before {
                continue;
            }
            before = offset;
            changes += 1;
            for back in [-2i64, -1, 0, 1] {
                let date = tz.timestamp_opt(t + back * 86_400, 0).unwrap().date_naive();
                let date_at = |at: i64| tz.timestamp_opt(at, 0).unwrap().date_naive();
                match bounds_of_day(name, date.year(), date.month(), date.day()) {
                    Ok((first, last)) => {
                        assert!(first <= last, "{name} {date}");
                        assert_eq!(date_at(first), date, "{name} {date}");
                        assert_ne!(date_at(first - 1), date, "{name} {date}");
                        assert_eq!(date_at(last), date, "{name} {date}");
                        assert_ne!(date_at(last + 1), date, "{name} {date}");
                        let middle = first + (last - first) / 2;
                        assert_eq!(date_at(middle), date, "{name} {date}");
                        let start = start_of_day(name, middle).unwrap();
                        assert_eq!(date_at(start), date, "{name} {date}");
                        assert_ne!(date_at(start - 1), date, "{name} {date}");
                    }
                    Err(e) => {
                        assert_eq!(e, RepoError::InvalidDate, "{name} {date}");
                        assert!(!shown(tz, date), "{name} {date}");
                    }
                }
            }
        }
    }
    assert!(changes > 1000, "{changes}");
}

#[test]
fn days_around_changes_of_clocks_from_1900() {
    days_around_changes_have_their_bounds(1900, 1935);
}

#[test]
fn days_around_changes_of_clocks_from_1935() {
    days_around_changes_have_their_bounds(1935, 1970);
}

#[test]
fn days_around_changes_of_clocks_from_1970() {
    days_around_changes_have_their_bounds(1970, 2005);
}

#[test]
fn days_around_changes_of_clocks_from_2005() {
    days_around_changes_have_their_bounds(2005, 2040);
}

#[test]
fn a_day_with_a_gap_across_midnight_has_its_bounds() {
    let tz: chrono_tz::Tz = "America/Toronto".parse().unwrap();
    let first = tz.with_ymd_and_hms(1919, 3, 31, 0, 30, 0).unwrap().timestamp();
    assert!(tz.with_ymd_and_hms(1919, 3, 31, 0, 0, 0).earliest().is_none());
    assert!(tz.with_ymd_and_hms(1919, 3, 30, 23, 59, 59).earliest().is_none());
    assert_eq!(bounds_of_day("America/Toronto", 1919, 3, 30).unwrap().1, first - 1);
    assert_eq!(bounds_of_day("America/Toronto", 1919, 3, 31).unwrap().0, first);
    assert_eq!(start_of_day("America/Toronto", first + 5), Ok(first));
}
