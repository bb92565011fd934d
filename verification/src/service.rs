//! What the store offers to a front end: questions to ask, answers to
//! take, and statistics, with the texts of a request read and checked
//! before the store is asked.

use crate::engine::{
    as_statistic, daily_statistics, rolling_statistics, statistics_of_today, window_view,
};
use crate::error::RepoError;
use crate::problem::Problem;
use crate::statistic::{sum_correct, sum_total, MultiStatistics, Statistic};
use crate::test_repo::{
    answered, entries_view, fresh_row, has_id, mistakes, next_id, open_rows, outcome, statistics,
    window_end, window_start, TestRepo,
};
use crate::text::{date_of_text, parse_date};
use crate::zone::{parse_rfc3339, rfc3339_instant, zone_known};
use vstd::prelude::*;

verus! {

/// A question as it is sent out: its identifier and its text.
#[derive(Debug)]
pub struct QuestionResponse {
    pub id: i64,
    pub question: String,
}

/// The outcome of an answer as it is sent out.
#[derive(Clone, Copy, Debug, PartialEq, Eq, Structural)]
pub struct SubmitAnswerResponse {
    pub id: i64,
    pub correct: bool,
}

/// The store and the time zone that holds where a request names none.
pub struct AppState {
    pub timezone: String,
    pub repo: TestRepo,
}

/// The start of a window that an optional timestamp gives: the first
/// whole second that is not before the instant that it denotes, so that
/// no answer given before that instant is counted. None where no
/// timestamp is given, a failure where the text is no timestamp.
pub open spec fn start_instant_of(text: Option<&str>) -> Result<Option<i64>, RepoError> {
    match text {
        Some(s) => match rfc3339_instant(s@) {
            Some((seconds, nanos)) => if nanos == 0 {
                Ok(Some(seconds))
            } else if seconds < i64::MAX {
                Ok(Some((seconds + 1) as i64))
            } else {
                Err(RepoError::InvalidTimestamp)
            },
            None => Err(RepoError::InvalidTimestamp),
        },
        None => Ok(None),
    }
}

/// The end of a window that an optional timestamp gives: the last whole
/// second that is not after the instant that it denotes. None where no
/// timestamp is given, a failure where the text is no timestamp.
pub open spec fn end_instant_of(text: Option<&str>) -> Result<Option<i64>, RepoError> {
    match text {
        Some(s) => match rfc3339_instant(s@) {
            Some((seconds, nanos)) => Ok(Some(seconds)),
            None => Err(RepoError::InvalidTimestamp),
        },
        None => Ok(None),
    }
}

/// The zone of a request: the one that it names, else the default.
pub open spec fn zone_of(timezone: Option<&str>, default: Seq<char>) -> Seq<char> {
    match timezone {
        Some(name) => name@,
        None => default,
    }
}

/// What a list of questions sent out holds.
pub open spec fn responses_view(list: Seq<QuestionResponse>) -> Seq<(i64, Seq<char>)> {
    list.map_values(|q: QuestionResponse| (q.id, q.question@))
}

/// Reads an optional timestamp in the notation of RFC 3339 as the start
/// of a window: a fraction of a second is rounded up.
pub fn parse_start(text: Option<&str>) -> (instant: Result<Option<i64>, RepoError>)
    ensures
        instant == start_instant_of(text),
{
    match text {
        Some(s) => match parse_rfc3339(s) {
            Some((seconds, nanos)) => {
                if nanos == 0 {
                    Ok(Some(seconds))
                } else if seconds < i64::MAX {
                    Ok(Some(seconds + 1))
                } else {
                    Err(RepoError::InvalidTimestamp)
                }
            },
            None => Err(RepoError::InvalidTimestamp),
        },
        None => Ok(None),
    }
}

/// Reads an optional timestamp in the notation of RFC 3339 as the end of
/// a window: a fraction of a second is dropped.
pub fn parse_end(text: Option<&str>) -> (instant: Result<Option<i64>, RepoError>)
    ensures
        instant == end_instant_of(text),
{
    match text {
        Some(s) => match parse_rfc3339(s) {
            Some((seconds, _)) => Ok(Some(seconds)),
            None => Err(RepoError::InvalidTimestamp),
        },
        None => Ok(None),
    }
}

impl AppState {
    /// The state's invariant: that of its store.
    pub open spec fn wf(&self) -> bool {
        self.repo.wf()
    }

    /// A state of this store and this default zone.
    pub fn new(timezone: String, repo: TestRepo) -> (state: AppState)
        requires
            repo.wf(),
        ensures
            state.wf(),
            state.timezone@ == timezone@,
            state.repo@ == repo@,
            state.repo.tier() == repo.tier(),
    {
        AppState { timezone, repo }
    }

    /// A question to work on, as the store gives it.
    pub fn new_question(&mut self) -> (created: Result<QuestionResponse, RepoError>)
        requires
            old(self).wf(),
        ensures
            final(self).wf(),
            final(self).timezone@ == old(self).timezone@,
            final(self).repo.tier() == old(self).repo.tier(),
            ({
                let before = old(self).repo@;
                let after = final(self).repo@;
                let waiting = open_rows(before);
                &&& waiting.len() > 0 ==> created is Ok && after == before && exists|k: int|
                    0 <= k < waiting.len() && created->Ok_0.id == (#[trigger] waiting[k]).id
                        && created->Ok_0.question@ == waiting[k].question
                &&& waiting.len() == 1 ==> created is Ok && created->Ok_0.id == waiting[0].id
                    && created->Ok_0.question@ == waiting[0].question
                &&& waiting.len() == 0 && next_id(before) <= i64::MAX ==> created is Ok
                    && created->Ok_0.id == next_id(before) && exists|problem: Problem, now: i64|
                    problem.in_tier(old(self).repo.tier()) && after == before.push(
                        #[trigger] fresh_row(next_id(before) as i64, problem, now),
                    ) && created->Ok_0.question@ == problem.text()
                &&& waiting.len() == 0 && next_id(before) > i64::MAX ==> created is Err
                    && created->Err_0 == RepoError::StorageError && after == before
            }),
    {
        match self.repo.new_question() {
            Ok(question) => Ok(
                QuestionResponse { id: question.get_id(), question: question.get_question() },
            ),
            Err(e) => Err(e),
        }
    }

    /// Records an answer, given now by the clock, and says whether it is
    /// the expected one.
    pub fn submit_answer(&mut self, id: i64, answer: i64) -> (sent: Result<
        SubmitAnswerResponse,
        RepoError,
    >)
        requires
            old(self).wf(),
        ensures
            final(self).wf(),
            final(self).timezone@ == old(self).timezone@,
            final(self).repo.tier() == old(self).repo.tier(),
            has_id(old(self).repo@, id) ==> sent == Ok::<SubmitAnswerResponse, RepoError>(
                SubmitAnswerResponse { id, correct: outcome(old(self).repo@, id, answer) },
            ) && exists|now: i64|
                final(self).repo@ == #[trigger] answered(old(self).repo@, id, answer, now),
            !has_id(old(self).repo@, id) ==> sent == Err::<SubmitAnswerResponse, RepoError>(
                RepoError::NotFound,
            ) && final(self).repo@ == old(self).repo@,
    {
        match self.repo.answer_question(id, answer) {
            Ok(correct) => Ok(SubmitAnswerResponse { id, correct }),
            Err(e) => Err(e),
        }
    }

    /// The counts of a window of time whose ends are given as timestamps
    /// in the notation of RFC 3339, or not at all. A text that is no
    /// timestamp fails before the store is asked, the start's before the
    /// end's.
    pub fn get_statistics(&self, start: Option<&str>, end: Option<&str>) -> (counts: Result<
        Statistic,
        RepoError,
    >)
        requires
            self.wf(),
        ensures
            start_instant_of(start) is Err ==> counts == Err::<Statistic, RepoError>(
                RepoError::InvalidTimestamp,
            ),
            start_instant_of(start) is Ok && end_instant_of(end) is Err ==> counts == Err::<
                Statistic,
                RepoError,
            >(RepoError::InvalidTimestamp),
            start_instant_of(start) is Ok && end_instant_of(end) is Ok ==> exists|now: i64|
                counts == as_statistic(
                    Ok(
                        statistics(
                            self.repo@,
                            #[trigger] window_start(start_instant_of(start)->Ok_0, now),
                            window_end(end_instant_of(end)->Ok_0, now),
                        ),
                    ),
                ),
    {
        let first = match parse_start(start) {
            Ok(first) => first,
            Err(e) => {
                return Err(e);
            },
        };
        let last = match parse_end(end) {
            Ok(last) => last,
            Err(e) => {
                return Err(e);
            },
        };
        let counts = self.repo.get_statistics(first, last);
        proof {
            let now = choose|now: i64|
                counts == statistics(
                    self.repo@,
                    #[trigger] window_start(first, now),
                    window_end(last, now),
                );
            assert(counts == statistics(
                self.repo@,
                window_start(start_instant_of(start)->Ok_0, now),
                window_end(end_instant_of(end)->Ok_0, now),
            ));
        }
        Ok(Statistic { correct: counts.0, total: counts.1 })
    }

    /// The counts of today so far in the zone of the request.
    pub fn today_statistics(&self, timezone: Option<&str>) -> (counts: Result<
        Statistic,
        RepoError,
    >)
        requires
            self.wf(),
        ensures
            exists|now: i64|
                counts == as_statistic(
                    #[trigger] statistics_of_today(
                        self.repo@,
                        zone_of(timezone, self.timezone@),
                        now,
                    ),
                ),
            !zone_known(zone_of(timezone, self.timezone@)) ==> counts == Err::<
                Statistic,
                RepoError,
            >(RepoError::InvalidTimezone),
    {
        let name = match timezone {
            Some(name) => name,
            None => self.timezone.as_str(),
        };
        let counts = self.repo.today_statistics(name);
        proof {
            let now = choose|now: i64|
                counts == #[trigger] statistics_of_today(self.repo@, name@, now);
            assert(counts == statistics_of_today(
                self.repo@,
                zone_of(timezone, self.timezone@),
                now,
            ));
        }
        match counts {
            Ok(counts) => Ok(Statistic { correct: counts.0, total: counts.1 }),
            Err(e) => Err(e),
        }
    }

    /// The counts of the last `n` calendar days up to today in the zone of
    /// the request.
    pub fn last_n_days(&self, n: i64, timezone: Option<&str>) -> (window: Result<
        MultiStatistics,
        RepoError,
    >)
        requires
            self.wf(),
        ensures
            exists|now: i64|
                window_view(window) == #[trigger] rolling_statistics(
                    self.repo@,
                    zone_of(timezone, self.timezone@),
                    now,
                    n,
                ),
            window matches Ok(w) ==> (w.overall.correct == sum_correct(w.scores@)
                && w.overall.total == sum_total(w.scores@)),
            !zone_known(zone_of(timezone, self.timezone@)) ==> (window matches Err(e) && e
                == RepoError::InvalidTimezone),
    {
        let name = match timezone {
            Some(name) => name,
            None => self.timezone.as_str(),
        };
        let window = self.repo.last_n_days(n, name);
        proof {
            let now = choose|now: i64|
                window_view(window) == #[trigger] rolling_statistics(self.repo@, name@, now, n);
            assert(window_view(window) == rolling_statistics(
                self.repo@,
                zone_of(timezone, self.timezone@),
                now,
                n,
            ));
        }
        window
    }

    /// The counts of the last seven days.
    pub fn last7_statistics(&self, timezone: Option<&str>) -> (window: Result<
        MultiStatistics,
        RepoError,
    >)
        requires
            self.wf(),
        ensures
            exists|now: i64|
                window_view(window) == #[trigger] rolling_statistics(
                    self.repo@,
                    zone_of(timezone, self.timezone@),
                    now,
                    7,
                ),
            window matches Ok(w) ==> (w.overall.correct == sum_correct(w.scores@)
                && w.overall.total == sum_total(w.scores@)),
    {
        self.last_n_days(7, timezone)
    }

    /// The counts of the last thirty days.
    pub fn last30_statistics(&self, timezone: Option<&str>) -> (window: Result<
        MultiStatistics,
        RepoError,
    >)
        requires
            self.wf(),
        ensures
            exists|now: i64|
                window_view(window) == #[trigger] rolling_statistics(
                    self.repo@,
                    zone_of(timezone, self.timezone@),
                    now,
                    30,
                ),
            window matches Ok(w) ==> (w.overall.correct == sum_correct(w.scores@)
                && w.overall.total == sum_total(w.scores@)),
    {
        self.last_n_days(30, timezone)
    }

    /// The counts of the calendar day that a text names, in the default
    /// zone. A text that names no year, month and day fails before the
    /// store is asked.
    pub fn get_daily_statistics(&self, date: &str) -> (counts: Result<Statistic, RepoError>)
        requires
            self.wf(),
        ensures
            counts == match date_of_text(date@) {
                Some((year, month, day)) => as_statistic(
                    daily_statistics(
                        self.repo@,
                        self.timezone@,
                        year as int,
                        month as int,
                        day as int,
                    ),
                ),
                None => Err(RepoError::InvalidDate),
            },
    {
        match parse_date(date) {
            Some((year, month, day)) => match self.repo.daily_statistics_in(
                year,
                month,
                day,
                self.timezone.as_str(),
            ) {
                Ok(counts) => Ok(Statistic { correct: counts.0, total: counts.1 }),
                Err(e) => Err(e),
            },
            None => Err(RepoError::InvalidDate),
        }
    }

    /// Identifier and text of every question whose answer is not the
    /// expected one.
    pub fn get_mistake_collection(&self) -> (list: Vec<QuestionResponse>)
        ensures
            responses_view(list@) == mistakes(self.repo@).map_values(
                |entry: (i64, Seq<char>, Option<i64>)| (entry.0, entry.1),
            ),
    {
        let mut entries = self.repo.mistake_collection();
        let ghost all = entries@;
        let mut list: Vec<QuestionResponse> = Vec::new();
        let mut i: usize = 0;
        while i < entries.len()
            invariant
                0 <= i <= entries.len(),
                entries@.len() == all.len(),
                forall|k: int| i <= k < all.len() ==> entries@[k] == all[k],
                list@.len() == i,
                forall|k: int|
                    0 <= k < i ==> (#[trigger] list@[k]).id == all[k].0 && list@[k].question@
                        == all[k].1@,
            decreases entries.len() - i,
        {
            let entry = &entries[i];
            list.push(QuestionResponse { id: entry.0, question: entry.1.clone() });
            i += 1;
        }
        proof {
            assert(entries_view(all) == mistakes(self.repo@));
            assert(responses_view(list@) =~= mistakes(self.repo@).map_values(
                |entry: (i64, Seq<char>, Option<i64>)| (entry.0, entry.1),
            ));
        }
        list
    }
}

} // verus!
