//! Statistics over calendar days of a time zone: one day, today so far,
//! and the last days up to today.

use crate::error::RepoError;
use crate::statistic::{overall_of, sum_correct, sum_total, MultiStatistics, Statistic};
use crate::test_repo::{lemma_counts_empty, lemma_counts_step, statistics, RowView, TestRepo};
use crate::zone::{
    bounds_of_day, current_instant, date_view, day_bounds, day_start, days_back, days_ending,
    first_second_of, is_calendar_date, last_second_of_day, law_day_bounds, law_day_start,
    local_date, start_of_day, window_days, zone_date, zone_exists, zone_known, YEAR_MIN,
};
use vstd::prelude::*;

verus! {

/// The counts of one calendar day of a zone, or why there are none.
pub open spec fn daily_statistics(
    rows: Seq<RowView>,
    name: Seq<char>,
    year: int,
    month: int,
    day: int,
) -> Result<(i64, i64), RepoError> {
    match day_bounds(name, year, month, day) {
        Ok((first, last)) => Ok(statistics(rows, first as int, last as int)),
        Err(e) => Err(e),
    }
}

/// The counts of the calendar day that `now` falls on in a zone, up to
/// `now`, or why there are none.
pub open spec fn statistics_of_today(rows: Seq<RowView>, name: Seq<char>, now: i64) -> Result<
    (i64, i64),
    RepoError,
> {
    match day_start(name, now as int) {
        Ok(first) => Ok(statistics(rows, first as int, now as int)),
        Err(e) => Err(e),
    }
}

/// Whether counts are those of a day of a zone: the counts from a first
/// second of the day in the zone to a last second of it.
pub open spec fn counts_of_day(
    rows: Seq<RowView>,
    name: Seq<char>,
    date: (i32, u32, u32),
    counts: (i64, i64),
) -> bool {
    exists|first: i64, last: i64|
        first <= last && first_second_of(name, date, first) && last_second_of_day(
            name,
            date,
            last,
        ) && counts == #[trigger] statistics(rows, first as int, last as int)
}

/// Whether counts are those of today so far: the counts from a first
/// second of the day that the zone shows at `now`, up to `now`.
pub open spec fn counts_of_today(
    rows: Seq<RowView>,
    name: Seq<char>,
    now: i64,
    counts: (i64, i64),
) -> bool {
    exists|first: i64|
        zone_date(name, first as int) == zone_date(name, now as int) && zone_date(
            name,
            first - 1,
        ) != zone_date(name, now as int) && counts == #[trigger] statistics(
            rows,
            first as int,
            now as int,
        )
}

/// The counts as they are sent out.
pub open spec fn as_statistic(counts: Result<(i64, i64), RepoError>) -> Result<
    Statistic,
    RepoError,
> {
    match counts {
        Ok(c) => Ok(Statistic { correct: c.0, total: c.1 }),
        Err(e) => Err(e),
    }
}

/// The counts of the calendar day that lies `back` days before `today`.
pub open spec fn statistics_days_back(
    rows: Seq<RowView>,
    name: Seq<char>,
    today: (i32, u32, u32),
    back: nat,
) -> Result<Statistic, RepoError> {
    let date = days_back(date_view(today), back);
    as_statistic(daily_statistics(rows, name, date.0, date.1, date.2))
}

/// The counts of the first `count` of the `n` calendar days that end with
/// `today`, oldest first, or the first failure among them.
pub open spec fn rolling_scores(
    rows: Seq<RowView>,
    name: Seq<char>,
    today: (i32, u32, u32),
    n: nat,
    count: nat,
) -> Result<Seq<Statistic>, RepoError>
    decreases count,
{
    if count == 0 {
        Ok(Seq::empty())
    } else {
        match rolling_scores(rows, name, today, n, (count - 1) as nat) {
            Ok(earlier) => match statistics_days_back(rows, name, today, (n - count) as nat) {
                Ok(score) => Ok(earlier.push(score)),
                Err(e) => Err(e),
            },
            Err(e) => Err(e),
        }
    }
}

/// The counts of each of the `n` calendar days that end with the day of
/// `now` in a zone, oldest first, and their sums; or why there are none.
pub open spec fn rolling_statistics(
    rows: Seq<RowView>,
    name: Seq<char>,
    now: i64,
    n: i64,
) -> Result<(Seq<Statistic>, Statistic), RepoError> {
    if !zone_known(name) {
        Err(RepoError::InvalidTimezone)
    } else {
        match zone_date(name, now as int) {
            Some(today) => match rolling_scores(rows, name, today, window_days(n), window_days(n)) {
                Ok(scores) => match overall_of(scores) {
                    Some(overall) => Ok((scores, overall)),
                    None => Err(RepoError::StorageError),
                },
                Err(e) => Err(e),
            },
            None => Err(RepoError::InvalidDate),
        }
    }
}

/// What the result of a window holds.
pub open spec fn window_view(window: Result<MultiStatistics, RepoError>) -> Result<
    (Seq<Statistic>, Statistic),
    RepoError,
> {
    match window {
        Ok(w) => Ok(w@),
        Err(e) => Err(e),
    }
}

impl TestRepo {
    /// The correct and the total number of answers given on a calendar day
    /// of a zone, from its first second to its last. Fails where the zone
    /// or the day does not exist.
    pub fn get_daily_statistics(
        &self,
        year: i32,
        month: u32,
        day: u32,
        timezone: String,
    ) -> (counts: Result<(i64, i64), RepoError>)
        requires
            self.wf(),
        ensures
            counts == daily_statistics(self@, timezone@, year as int, month as int, day as int),
            !zone_known(timezone@) ==> counts == Err::<(i64, i64), RepoError>(
                RepoError::InvalidTimezone,
            ),
            zone_known(timezone@) && !is_calendar_date(year as int, month as int, day as int)
                ==> counts == Err::<(i64, i64), RepoError>(RepoError::InvalidDate),
            counts matches Ok(c) ==> counts_of_day(self@, timezone@, (year, month, day), c),
    {
        self.daily_statistics_in(year, month, day, timezone.as_str())
    }

    /// The same, with the zone's name borrowed.
    pub fn daily_statistics_in(
        &self,
        year: i32,
        month: u32,
        day: u32,
        timezone: &str,
    ) -> (counts: Result<(i64, i64), RepoError>)
        requires
            self.wf(),
        ensures
            counts == daily_statistics(self@, timezone@, year as int, month as int, day as int),
            !zone_known(timezone@) ==> counts == Err::<(i64, i64), RepoError>(
                RepoError::InvalidTimezone,
            ),
            zone_known(timezone@) && !is_calendar_date(year as int, month as int, day as int)
                ==> counts == Err::<(i64, i64), RepoError>(RepoError::InvalidDate),
            counts matches Ok(c) ==> counts_of_day(self@, timezone@, (year, month, day), c),
            counts matches Ok(c) ==> (0 <= c.0 <= c.1 <= self@.len()),
    {
        match bounds_of_day(timezone, year, month, day) {
            Ok((first, last)) => Ok(self.count_within(first, last)),
            Err(e) => Err(e),
        }
    }

    /// The counts of the day that `now` falls on in a zone, from the day's
    /// first second to `now`.
    pub fn today_statistics_at(&self, timezone: &str, now: i64) -> (counts: Result<
        (i64, i64),
        RepoError,
    >)
        requires
            self.wf(),
        ensures
            counts == statistics_of_today(self@, timezone@, now),
            !zone_known(timezone@) ==> counts == Err::<(i64, i64), RepoError>(
                RepoError::InvalidTimezone,
            ),
            counts matches Ok(c) ==> counts_of_today(self@, timezone@, now, c),
    {
        match start_of_day(timezone, now) {
            Ok(first) => Ok(self.count_within(first, now)),
            Err(e) => Err(e),
        }
    }

    /// The counts of today in a zone so far, by the clock.
    pub fn today_statistics(&self, timezone: &str) -> (counts: Result<(i64, i64), RepoError>)
        requires
            self.wf(),
        ensures
            exists|now: i64| counts == #[trigger] statistics_of_today(self@, timezone@, now),
            !zone_known(timezone@) ==> counts == Err::<(i64, i64), RepoError>(
                RepoError::InvalidTimezone,
            ),
    {
        let now = current_instant();
        let counts = self.today_statistics_at(timezone, now);
        assert(counts == statistics_of_today(self@, timezone@, now));
        counts
    }

    /// The counts of each of the `n` calendar days that end with the day
    /// of `now` in a zone, oldest first, and their sums. No days where `n`
    /// is not positive. Fails where the zone does not exist, where one of
    /// the days has no bounds in it, and where a sum exceeds what a count
    /// can hold.
    pub fn last_n_days_at(&self, n: i64, timezone: &str, now: i64) -> (window: Result<
        MultiStatistics,
        RepoError,
    >)
        requires
            self.wf(),
        ensures
            window_view(window) == rolling_statistics(self@, timezone@, now, n),
            window matches Ok(w) ==> (w.scores@.len() == window_days(n) && w.overall.correct
                == sum_correct(w.scores@) && w.overall.total == sum_total(w.scores@)),
    {
        if !zone_exists(timezone) {
            return Err(RepoError::InvalidTimezone);
        }
        let today = match local_date(timezone, now) {
            Some(today) => today,
            None => {
                return Err(RepoError::InvalidDate);
            },
        };
        let ghost days = window_days(n);
        let ghost start = date_view(today);
        let dates = match days_ending(today, n) {
            Some(dates) => dates,
            None => {
                proof {
                    let k = choose|k: int|
                        0 <= k < days && (#[trigger] days_back(start, k as nat)).0 < YEAR_MIN;
                    lemma_rolling_fails_at(self@, timezone@, today, days, k as nat);
                    lemma_rolling_errors(self@, timezone@, today, days, days);
                }
                return Err(RepoError::InvalidDate);
            },
        };
        let mut scores: Vec<Statistic> = Vec::new();
        let mut i: i64 = 0;
        while i < n
            invariant
                self.wf(),
                0 <= i <= days,
                days == window_days(n),
                start == date_view(today),
                zone_known(timezone@),
                zone_date(timezone@, now as int) == Some(today),
                dates@.len() == days,
                forall|j: int|
                    0 <= j < days ==> date_view(#[trigger] dates@[j]) == days_back(start, j as nat),
                rolling_scores(self@, timezone@, today, days, i as nat) == Ok::<
                    Seq<Statistic>,
                    RepoError,
                >(scores@),
                scores@.len() == i,
            decreases n - i,
        {
            let day = dates[(n - 1 - i) as usize];
            let score = match self.daily_statistics_in(day.0, day.1, day.2, timezone) {
                Ok(counts) => Statistic { correct: counts.0, total: counts.1 },
                Err(e) => {
                    proof {
                        assert(rolling_scores(self@, timezone@, today, days, (i + 1) as nat)
                            == Err::<Seq<Statistic>, RepoError>(e));
                        lemma_rolling_failure(self@, timezone@, today, days, (i + 1) as nat, days);
                    }
                    return Err(e);
                },
            };
            scores.push(score);
            i += 1;
        }
        match MultiStatistics::from_scores(scores) {
            Some(window) => Ok(window),
            None => Err(RepoError::StorageError),
        }
    }

    /// The counts of the last `n` calendar days up to today in a zone, by
    /// the clock.
    pub fn last_n_days(&self, n: i64, timezone: &str) -> (window: Result<
        MultiStatistics,
        RepoError,
    >)
        requires
            self.wf(),
        ensures
            exists|now: i64|
                window_view(window) == #[trigger] rolling_statistics(self@, timezone@, now, n),
            window matches Ok(w) ==> (w.scores@.len() == window_days(n) && w.overall.correct
                == sum_correct(w.scores@) && w.overall.total == sum_total(w.scores@)),
            !zone_known(timezone@) ==> (window matches Err(e) && e == RepoError::InvalidTimezone),
    {
        let now = current_instant();
        let window = self.last_n_days_at(n, timezone, now);
        assert(window_view(window) == rolling_statistics(self@, timezone@, now, n));
        window
    }
}

/// A failure among the first days of a window is the failure of every
/// longer run of its days.
pub proof fn lemma_rolling_failure(
    rows: Seq<RowView>,
    name: Seq<char>,
    today: (i32, u32, u32),
    n: nat,
    count: nat,
    longer: nat,
)
    requires
        count <= longer,
        rolling_scores(rows, name, today, n, count) is Err,
    ensures
        rolling_scores(rows, name, today, n, longer) == rolling_scores(rows, name, today, n, count),
    decreases longer - count,
{
    if count < longer {
        lemma_rolling_failure(rows, name, today, n, count, (longer - 1) as nat);
    }
}

/// A window with a day that has no counts has none.
pub proof fn lemma_rolling_fails_at(
    rows: Seq<RowView>,
    name: Seq<char>,
    today: (i32, u32, u32),
    n: nat,
    back: nat,
)
    requires
        back < n,
        statistics_days_back(rows, name, today, back) is Err,
    ensures
        rolling_scores(rows, name, today, n, n) is Err,
{
    let count = (n - back) as nat;
    assert(rolling_scores(rows, name, today, n, count) is Err);
    lemma_rolling_failure(rows, name, today, n, count, n);
}

/// In a zone that exists a window fails only for a day without bounds.
pub proof fn lemma_rolling_errors(
    rows: Seq<RowView>,
    name: Seq<char>,
    today: (i32, u32, u32),
    n: nat,
    count: nat,
)
    requires
        zone_known(name),
    ensures
        rolling_scores(rows, name, today, n, count) matches Err(e) ==> e == RepoError::InvalidDate,
    decreases count,
{
    if count > 0 {
        lemma_rolling_errors(rows, name, today, n, (count - 1) as nat);
    }
}

/// The counts of a run of days are as many as the days.
pub proof fn lemma_rolling_scores_len(
    rows: Seq<RowView>,
    name: Seq<char>,
    today: (i32, u32, u32),
    n: nat,
    count: nat,
)
    ensures
        rolling_scores(rows, name, today, n, count) matches Ok(scores) ==> scores.len() == count,
    decreases count,
{
    if count > 0 {
        lemma_rolling_scores_len(rows, name, today, n, (count - 1) as nat);
    }
}

/// The overall counts of a window are the sums of the counts of its days,
/// and the window has as many days as were asked for.
pub proof fn law_overall_is_sum(rows: Seq<RowView>, name: Seq<char>, now: i64, n: i64)
    ensures
        rolling_statistics(rows, name, now, n) matches Ok(window) ==> {
            &&& window.0.len() == window_days(n)
            &&& window.1.correct == sum_correct(window.0)
            &&& window.1.total == sum_total(window.0)
        },
{
    if let Some(today) = zone_date(name, now as int) {
        lemma_rolling_scores_len(rows, name, today, window_days(n), window_days(n));
    }
}

/// A window of no days, in a zone that exists and at an instant that has
/// a date there, has no counts and sums of zero.
pub proof fn law_empty_window_of_days(rows: Seq<RowView>, name: Seq<char>, now: i64, n: i64)
    requires
        n <= 0,
        zone_known(name),
        zone_date(name, now as int) is Some,
    ensures
        rolling_statistics(rows, name, now, n) == Ok::<(Seq<Statistic>, Statistic), RepoError>(
            (Seq::empty(), Statistic { correct: 0, total: 0 }),
        ),
{
}

/// A day's counts follow the zone's own day: an answer counts on a day of
/// a zone exactly when it was given between the first and the last second
/// of that day in that zone. So an answer that lies within a day of one
/// zone and outside the day of the same date of another zone is counted
/// for the one and not for the other.
pub proof fn law_day_follows_zone(
    row: RowView,
    name: Seq<char>,
    other: Seq<char>,
    year: int,
    month: int,
    day: int,
)
    requires
        row.user_answer is Some,
        row.answered_at is Some,
        day_bounds(name, year, month, day) is Ok,
        day_bounds(other, year, month, day) is Ok,
        day_bounds(name, year, month, day)->Ok_0.0 <= row.answered_at->0 <= day_bounds(
            name,
            year,
            month,
            day,
        )->Ok_0.1,
        !(day_bounds(other, year, month, day)->Ok_0.0 <= row.answered_at->0 <= day_bounds(
            other,
            year,
            month,
            day,
        )->Ok_0.1),
    ensures
        daily_statistics(seq![row], name, year, month, day) == Ok::<(i64, i64), RepoError>(
            (
                if row.is_correct() {
                    1i64
                } else {
                    0i64
                },
                1i64,
            ),
        ),
        daily_statistics(seq![row], other, year, month, day) == Ok::<(i64, i64), RepoError>(
            (0i64, 0i64),
        ),
{
    let rows = seq![row];
    assert(rows.take(1) =~= rows);
    let here = day_bounds(name, year, month, day)->Ok_0;
    let there = day_bounds(other, year, month, day)->Ok_0;
    lemma_counts_empty(rows.take(0), here.0 as int, here.1 as int);
    lemma_counts_step(rows, here.0 as int, here.1 as int, 0);
    lemma_counts_empty(rows.take(0), there.0 as int, there.1 as int);
    lemma_counts_step(rows, there.0 as int, there.1 as int, 0);
}

/// The statistics of a day are refused for an unknown zone and for a day
/// that the calendar lacks. Where they are given, they are the counts from
/// a first second of the day in the zone to a last second of it.
pub proof fn law_daily_statistics(
    rows: Seq<RowView>,
    name: Seq<char>,
    year: i32,
    month: u32,
    day: u32,
)
    ensures
        !zone_known(name) ==> daily_statistics(rows, name, year as int, month as int, day as int)
            == Err::<(i64, i64), RepoError>(RepoError::InvalidTimezone),
        zone_known(name) && !is_calendar_date(year as int, month as int, day as int)
            ==> daily_statistics(rows, name, year as int, month as int, day as int) == Err::<
            (i64, i64),
            RepoError,
        >(RepoError::InvalidDate),
        daily_statistics(rows, name, year as int, month as int, day as int) matches Ok(counts)
            ==> {
            let bounds = day_bounds(name, year as int, month as int, day as int)->Ok_0;
            &&& day_bounds(name, year as int, month as int, day as int) is Ok
            &&& bounds.0 <= bounds.1
            &&& first_second_of(name, (year, month, day), bounds.0)
            &&& last_second_of_day(name, (year, month, day), bounds.1)
            &&& counts == statistics(rows, bounds.0 as int, bounds.1 as int)
            &&& counts_of_day(rows, name, (year, month, day), counts)
        },
{
    law_day_bounds(name, year, month, day);
}

/// The statistics of today are the counts from a first second of the day
/// that the zone shows now, up to now.
pub proof fn law_statistics_of_today(rows: Seq<RowView>, name: Seq<char>, now: i64)
    ensures
        !zone_known(name) ==> statistics_of_today(rows, name, now) == Err::<
            (i64, i64),
            RepoError,
        >(RepoError::InvalidTimezone),
        statistics_of_today(rows, name, now) matches Ok(counts) ==> {
            let first = day_start(name, now as int)->Ok_0;
            &&& day_start(name, now as int) is Ok
            &&& zone_date(name, first as int) == zone_date(name, now as int)
            &&& zone_date(name, first - 1) != zone_date(name, now as int)
            &&& counts == statistics(rows, first as int, now as int)
            &&& counts_of_today(rows, name, now, counts)
        },
{
    law_day_start(name, now);
}

} // verus!
