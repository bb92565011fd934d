//! Counts of answers: how many were given, how many of them were correct.

use vstd::prelude::*;

verus! {

/// A count of answers and of the correct ones among them.
#[derive(Clone, Copy, Debug, PartialEq, Eq, Structural)]
pub struct Statistic {
    pub correct: i64,
    pub total: i64,
}

/// The counts of several days, oldest first, and their sum.
#[derive(Clone, Debug)]
pub struct MultiStatistics {
    pub scores: Vec<Statistic>,
    pub overall: Statistic,
}

impl View for MultiStatistics {
    type V = (Seq<Statistic>, Statistic);

    open spec fn view(&self) -> (Seq<Statistic>, Statistic) {
        (self.scores@, self.overall)
    }
}

/// The sum of the correct counts.
pub open spec fn sum_correct(scores: Seq<Statistic>) -> int
    decreases scores.len(),
{
    if scores.len() == 0 {
        0
    } else {
        sum_correct(scores.drop_last()) + scores.last().correct
    }
}

/// The sum of the total counts.
pub open spec fn sum_total(scores: Seq<Statistic>) -> int
    decreases scores.len(),
{
    if scores.len() == 0 {
        0
    } else {
        sum_total(scores.drop_last()) + scores.last().total
    }
}

/// The sums of the counts, where each sum is a count.
pub open spec fn overall_of(scores: Seq<Statistic>) -> Option<Statistic> {
    if i64::MIN <= sum_correct(scores) <= i64::MAX && i64::MIN <= sum_total(scores) <= i64::MAX {
        Some(Statistic { correct: sum_correct(scores) as i64, total: sum_total(scores) as i64 })
    } else {
        None
    }
}

impl MultiStatistics {
    /// The counts with their sums. Fails where a sum exceeds what a count
    /// can hold.
    pub fn from_scores(scores: Vec<Statistic>) -> (window: Option<MultiStatistics>)
        ensures
            match window {
                Some(w) => w.scores@ == scores@ && Some(w.overall) == overall_of(scores@),
                None => overall_of(scores@) is None,
            },
    {
        let mut correct: i128 = 0;
        let mut total: i128 = 0;
        let mut i: usize = 0;
        let ghost bound: int = 0x8000_0000_0000_0000;
        assert(scores@.take(0) =~= Seq::<Statistic>::empty());
        while i < scores.len()
            invariant
                0 <= i <= scores.len(),
                bound == 0x8000_0000_0000_0000,
                correct == sum_correct(scores@.take(i as int)),
                total == sum_total(scores@.take(i as int)),
                -(i * bound) <= correct <= i * bound,
                -(i * bound) <= total <= i * bound,
            decreases scores.len() - i,
        {
            let score = scores[i];
            proof {
                assert(scores@.take(i + 1).drop_last() =~= scores@.take(i as int));
                assert((i + 1) * bound == i * bound + bound) by (nonlinear_arith);
                assert(i * bound <= 0xffff_ffff_ffff_fffe * bound) by (nonlinear_arith)
                    requires
                        0 <= i <= 0xffff_ffff_ffff_fffe,
                        bound >= 0,
                ;
            }
            correct = correct + score.correct as i128;
            total = total + score.total as i128;
            i += 1;
        }
        assert(scores@.take(i as int) =~= scores@);
        if correct < i64::MIN as i128 || correct > i64::MAX as i128 || total < i64::MIN as i128
            || total > i64::MAX as i128 {
            return None;
        }
        Some(
            MultiStatistics {
                scores,
                overall: Statistic { correct: correct as i64, total: total as i64 },
            },
        )
    }
}

impl Statistic {
    /// The correct answers are some of the answers.
    pub open spec fn well_formed(self) -> bool {
        0 <= self.correct <= self.total
    }

    /// The share of correct answers in percent, rounded down; zero where
    /// there is no answer.
    pub open spec fn accuracy(self) -> int {
        if self.total == 0 {
            0
        } else {
            100 * self.correct / self.total as int
        }
    }

    /// No answers yet.
    pub fn new() -> (s: Statistic)
        ensures
            s.correct == 0,
            s.total == 0,
            s.well_formed(),
    {
        Statistic { correct: 0, total: 0 }
    }

    /// Counts one more answer. The counts that grow are below the
    /// greatest count there is.
    pub fn update(&mut self, correct: bool)
        requires
            old(self).total < i64::MAX,
            correct ==> old(self).correct < i64::MAX,
        ensures
            final(self).total == old(self).total + 1,
            final(self).correct == old(self).correct + if correct {
                1int
            } else {
                0int
            },
            old(self).well_formed() ==> final(self).well_formed(),
    {
        self.total += 1;
        if correct {
            self.correct += 1;
        }
    }

    /// The share of correct answers in percent, rounded down.
    pub fn get_accuracy_percent(&self) -> (percent: i64)
        requires
            self.well_formed(),
        ensures
            percent == self.accuracy(),
            0 <= percent <= 100,
    {
        if self.total == 0 {
            0
        } else {
            let correct: i128 = self.correct as i128;
            let total: i128 = self.total as i128;
            assert(0 <= (100 * correct) / (total as int) <= 100) by (nonlinear_arith)
                requires
                    0 <= correct <= total,
                    0 < total,
            ;
            let percent: i128 = 100 * correct / total;
            percent as i64
        }
    }
}

} // verus!
