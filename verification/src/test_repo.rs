//! The store of questions: every question that was ever asked, in the
//! order in which they were created, with the answer that was given.

use crate::error::RepoError;
use crate::problem::{
    evaluate, generate_problem, lemma_well_posed_reads, well_posed, Problem, Tier,
};
use crate::question::{Question, QuestionView};
use crate::random::random_between;
use crate::zone::current_instant;
use vstd::prelude::*;

verus! {

/// One row of the table of questions.
#[derive(Debug)]
pub struct QuestionRow {
    pub id: i64,
    pub question: String,
    pub expected_answer: i64,
    pub user_answer: Option<i64>,
    pub created_at: i64,
    pub answered_at: Option<i64>,
}

/// What a row holds.
pub struct RowView {
    pub id: i64,
    pub question: Seq<char>,
    pub expected_answer: i64,
    pub user_answer: Option<i64>,
    pub created_at: i64,
    pub answered_at: Option<i64>,
}

impl View for QuestionRow {
    type V = RowView;

    open spec fn view(&self) -> RowView {
        RowView {
            id: self.id,
            question: self.question@,
            expected_answer: self.expected_answer,
            user_answer: self.user_answer,
            created_at: self.created_at,
            answered_at: self.answered_at,
        }
    }
}

impl RowView {
    /// A row is sound when its identifier is positive, its text and its
    /// expected answer are those of one valid problem, and it has the time
    /// of an answer exactly when it has an answer.
    pub open spec fn sound(self) -> bool {
        &&& 1 <= self.id
        &&& well_posed(self.question, self.expected_answer as int)
        &&& self.user_answer is Some <==> self.answered_at is Some
    }

    /// A row without an answer is open.
    pub open spec fn is_open(self) -> bool {
        self.user_answer is None
    }

    /// A row is a mistake when it has an answer other than the expected.
    pub open spec fn is_mistake(self) -> bool {
        self.user_answer is Some && self.user_answer != Some(self.expected_answer)
    }

    /// A row is correct when its answer is the expected.
    pub open spec fn is_correct(self) -> bool {
        self.user_answer == Some(self.expected_answer)
    }

    /// Whether the row was answered from `start` to `end`, both included.
    pub open spec fn answered_within(self, start: int, end: int) -> bool {
        self.user_answer is Some && self.answered_at is Some && start <= self.answered_at->0
            <= end
    }

    /// The question of the row.
    pub open spec fn question(self) -> QuestionView {
        QuestionView {
            id: self.id,
            question: self.question,
            expected_answer: self.expected_answer,
            user_answer: self.user_answer,
        }
    }

    /// The row with an answer given at `now`.
    pub open spec fn answer(self, answer: i64, now: i64) -> RowView {
        RowView { user_answer: Some(answer), answered_at: Some(now), ..self }
    }

    /// The row as the mistake collection lists it.
    pub open spec fn entry(self) -> (i64, Seq<char>, Option<i64>) {
        (self.id, self.question, self.user_answer)
    }
}

/// The table is well formed when every row is sound and the identifiers
/// grow from row to row.
pub open spec fn well_formed(rows: Seq<RowView>) -> bool {
    &&& forall|i: int| 0 <= i < rows.len() ==> (#[trigger] rows[i]).sound()
    &&& forall|i: int, j: int| 0 <= i < j < rows.len() ==> (#[trigger] rows[i]).id < (
    #[trigger] rows[j]).id
}

/// Every answer was given no earlier than its question was created.
pub open spec fn chronological(rows: Seq<RowView>) -> bool {
    forall|i: int|
        0 <= i < rows.len() && (#[trigger] rows[i]).answered_at is Some ==> rows[i].created_at
            <= rows[i].answered_at->0
}

/// Whether a row has this identifier.
pub open spec fn has_id(rows: Seq<RowView>, id: i64) -> bool {
    exists|i: int| 0 <= i < rows.len() && (#[trigger] rows[i]).id == id
}

/// The place of the row with this identifier.
pub open spec fn position(rows: Seq<RowView>, id: i64) -> int {
    choose|i: int| 0 <= i < rows.len() && (#[trigger] rows[i]).id == id
}

/// The answer that the question with this identifier expects.
pub open spec fn expected_of(rows: Seq<RowView>, id: i64) -> i64 {
    rows[position(rows, id)].expected_answer
}

/// Whether an answer to the question with this identifier is correct.
pub open spec fn outcome(rows: Seq<RowView>, id: i64, answer: i64) -> bool {
    answer == expected_of(rows, id)
}

/// What a list of rows holds.
pub open spec fn rows_view(rows: Seq<QuestionRow>) -> Seq<RowView> {
    rows.map_values(|row: QuestionRow| row@)
}

/// Whether an entry of the list has this identifier.
pub open spec fn listed(entries: Seq<(i64, Seq<char>, Option<i64>)>, id: i64) -> bool {
    exists|k: int| 0 <= k < entries.len() && (#[trigger] entries[k]).0 == id
}

/// The open rows, in the table's order.
pub open spec fn open_rows(rows: Seq<RowView>) -> Seq<RowView> {
    rows.filter(|row: RowView| row.is_open())
}

/// The mistakes, in the table's order.
pub open spec fn mistake_rows(rows: Seq<RowView>) -> Seq<RowView> {
    rows.filter(|row: RowView| row.is_mistake())
}

/// The mistake collection: identifier, text and given answer of every
/// mistake.
pub open spec fn mistakes(rows: Seq<RowView>) -> Seq<(i64, Seq<char>, Option<i64>)> {
    mistake_rows(rows).map_values(|row: RowView| row.entry())
}

/// What a list of entries holds.
pub open spec fn entries_view(entries: Seq<(i64, String, Option<i64>)>) -> Seq<
    (i64, Seq<char>, Option<i64>),
> {
    entries.map_values(|entry: (i64, String, Option<i64>)| (entry.0, entry.1@, entry.2))
}

/// The number of rows that were answered from `start` to `end`.
pub open spec fn total_within(rows: Seq<RowView>, start: int, end: int) -> int {
    rows.filter(|row: RowView| row.answered_within(start, end)).len() as int
}

/// The number of rows that were answered correctly from `start` to `end`.
pub open spec fn correct_within(rows: Seq<RowView>, start: int, end: int) -> int {
    rows.filter(|row: RowView| row.answered_within(start, end) && row.is_correct()).len() as int
}

/// Seconds from the start of the window to now, where no start is given:
/// a thousand days.
pub const FAR_PAST_SECONDS: i64 = 86_400_000;

/// The start of the window: the one given, else a thousand days before
/// `now`, or the earliest instant where that is out of reach.
pub open spec fn window_start(start: Option<i64>, now: i64) -> int {
    match start {
        Some(at) => at as int,
        None => if now - FAR_PAST_SECONDS < i64::MIN {
            i64::MIN as int
        } else {
            now - FAR_PAST_SECONDS
        },
    }
}

/// The end of the window: the one given, else `now`.
pub open spec fn window_end(end: Option<i64>, now: i64) -> int {
    match end {
        Some(at) => at as int,
        None => now as int,
    }
}

/// The correct and the total number of answers given from `start` to
/// `end`.
pub open spec fn statistics(rows: Seq<RowView>, start: int, end: int) -> (i64, i64) {
    (correct_within(rows, start, end) as i64, total_within(rows, start, end) as i64)
}

/// The table after an answer to the question with this identifier.
pub open spec fn answered(rows: Seq<RowView>, id: i64, answer: i64, now: i64) -> Seq<RowView> {
    rows.map_values(
        |row: RowView|
            if row.id == id {
                row.answer(answer, now)
            } else {
                row
            },
    )
}

/// The identifier that the next new row gets: one more than the last.
pub open spec fn next_id(rows: Seq<RowView>) -> int {
    if rows.len() == 0 {
        1
    } else {
        rows.last().id + 1
    }
}

/// A new row: open, created at `now`.
pub open spec fn fresh_row(id: i64, problem: Problem, now: i64) -> RowView {
    RowView {
        id,
        question: problem.text(),
        expected_answer: problem.value() as i64,
        user_answer: None,
        created_at: now,
        answered_at: None,
    }
}

/// In a well-formed table the row at place `i` has an identifier above `i`.
pub proof fn lemma_id_above_place(rows: Seq<RowView>, i: int)
    requires
        well_formed(rows),
        0 <= i < rows.len(),
    ensures
        i < rows[i].id,
    decreases i,
{
    if i > 0 {
        lemma_id_above_place(rows, i - 1);
    }
}

/// The open rows among the first `i + 1` are those among the first `i`,
/// and the row at place `i` where it is open.
pub proof fn lemma_open_rows_step(rows: Seq<RowView>, i: int)
    requires
        0 <= i < rows.len(),
    ensures
        open_rows(rows.take(i + 1)) == if rows[i].is_open() {
            open_rows(rows.take(i)).push(rows[i])
        } else {
            open_rows(rows.take(i))
        },
{
    reveal(Seq::filter);
    assert(rows.take(i + 1).drop_last() =~= rows.take(i));
}

/// The mistakes among the first `i + 1` rows are those among the first
/// `i`, and the row at place `i` where it is a mistake.
pub proof fn lemma_mistake_rows_step(rows: Seq<RowView>, i: int)
    requires
        0 <= i < rows.len(),
    ensures
        mistake_rows(rows.take(i + 1)) == if rows[i].is_mistake() {
            mistake_rows(rows.take(i)).push(rows[i])
        } else {
            mistake_rows(rows.take(i))
        },
{
    reveal(Seq::filter);
    assert(rows.take(i + 1).drop_last() =~= rows.take(i));
}

/// The counts over the first `i + 1` rows are those over the first `i`,
/// and one more where the row at place `i` counts.
pub proof fn lemma_counts_step(rows: Seq<RowView>, start: int, end: int, i: int)
    requires
        0 <= i < rows.len(),
    ensures
        total_within(rows.take(i + 1), start, end) == total_within(rows.take(i), start, end)
            + if rows[i].answered_within(start, end) {
            1int
        } else {
            0int
        },
        correct_within(rows.take(i + 1), start, end) == correct_within(rows.take(i), start, end)
            + if rows[i].answered_within(start, end) && rows[i].is_correct() {
            1int
        } else {
            0int
        },
{
    reveal(Seq::filter);
    assert(rows.take(i + 1).drop_last() =~= rows.take(i));
}

/// No row counts among none.
pub proof fn lemma_counts_empty(rows: Seq<RowView>, start: int, end: int)
    requires
        rows.len() == 0,
    ensures
        total_within(rows, start, end) == 0,
        correct_within(rows, start, end) == 0,
        open_rows(rows) == Seq::<RowView>::empty(),
        mistake_rows(rows) == Seq::<RowView>::empty(),
{
    reveal(Seq::filter);
}

/// The open rows among the first `i` are the first of all the open rows.
pub proof fn lemma_open_rows_prefix(rows: Seq<RowView>, i: int)
    requires
        0 <= i <= rows.len(),
    ensures
        open_rows(rows.take(i)).len() <= open_rows(rows).len(),
        open_rows(rows.take(i)) == open_rows(rows).take(open_rows(rows.take(i)).len() as int),
    decreases rows.len() - i,
{
    if i == rows.len() {
        assert(rows.take(i) =~= rows);
        assert(open_rows(rows).take(open_rows(rows).len() as int) =~= open_rows(rows));
    } else {
        lemma_open_rows_prefix(rows, i + 1);
        lemma_open_rows_step(rows, i);
        let longer = open_rows(rows.take(i + 1));
        let shorter = open_rows(rows.take(i));
        assert(shorter =~= open_rows(rows).take(shorter.len() as int));
    }
}

/// There are no more open rows than rows.
pub proof fn lemma_filter_len(rows: Seq<RowView>)
    ensures
        open_rows(rows).len() <= rows.len(),
        mistake_rows(rows).len() <= rows.len(),
{
    rows.lemma_filter_len(|row: RowView| row.is_open());
    rows.lemma_filter_len(|row: RowView| row.is_mistake());
}

/// In a well-formed table only one row has a given identifier.
pub proof fn lemma_position_unique(rows: Seq<RowView>, id: i64, i: int)
    requires
        well_formed(rows),
        0 <= i < rows.len(),
        rows[i].id == id,
    ensures
        has_id(rows, id),
        position(rows, id) == i,
{
    let p = position(rows, id);
    if p < i {
        assert(rows[p].id < rows[i].id);
    } else if i < p {
        assert(rows[i].id < rows[p].id);
    }
}

/// An answer leaves the table well formed.
pub proof fn lemma_answered_well_formed(rows: Seq<RowView>, id: i64, answer: i64, now: i64)
    requires
        well_formed(rows),
    ensures
        well_formed(answered(rows, id, answer, now)),
        answered(rows, id, answer, now).len() == rows.len(),
{
    let after = answered(rows, id, answer, now);
    assert forall|i: int| 0 <= i < after.len() implies (#[trigger] after[i]).sound() by {
        assert(rows[i].sound());
    }
    assert forall|i: int, j: int| 0 <= i < j < after.len() implies (#[trigger] after[i]).id < (
    #[trigger] after[j]).id by {
        assert(rows[i].id < rows[j].id);
    }
}

/// The expected answer to a question is correct, and the number after it
/// is not: an answer is correct exactly when it is the expected one, and
/// the row of the question then holds a correct answer.
pub proof fn law_answer_outcome(rows: Seq<RowView>, id: i64, answer: i64, now: i64)
    requires
        well_formed(rows),
        has_id(rows, id),
    ensures
        outcome(rows, id, expected_of(rows, id)),
        expected_of(rows, id) < i64::MAX ==> !outcome(rows, id, (expected_of(rows, id) + 1) as i64),
        outcome(rows, id, answer) <==> answer == expected_of(rows, id),
        outcome(rows, id, answer) <==> answered(rows, id, answer, now)[position(
            rows,
            id,
        )].is_correct(),
{
}

/// After an answer the question is in the mistake collection exactly when
/// the answer was not the expected one.
pub proof fn law_mistake_iff_incorrect(rows: Seq<RowView>, id: i64, answer: i64, now: i64)
    requires
        well_formed(rows),
        has_id(rows, id),
    ensures
        listed(mistakes(answered(rows, id, answer, now)), id) <==> answer != expected_of(rows, id),
{
    let after = answered(rows, id, answer, now);
    let place = position(rows, id);
    let kept = mistake_rows(after);
    let is_mistake = |row: RowView| row.is_mistake();
    lemma_answered_well_formed(rows, id, answer, now);
    if answer != expected_of(rows, id) {
        assert(after[place].is_mistake());
        after.lemma_filter_contains(is_mistake, place);
        let k = choose|k: int| 0 <= k < kept.len() && kept[k] == after[place];
        assert(mistakes(after)[k].0 == id);
    }
    if listed(mistakes(after), id) {
        let k = choose|k: int| 0 <= k < mistakes(after).len() && (#[trigger] mistakes(after)[k]).0
            == id;
        after.lemma_filter_pred(is_mistake, k);
        assert(kept.contains(kept[k]));
        after.lemma_filter_contains_rev(is_mistake, kept[k]);
        let j = choose|j: int| 0 <= j < after.len() && after[j] == kept[k];
        lemma_position_unique(rows, id, j);
    }
}

/// A question that was not answered is not in the mistake collection.
pub proof fn law_open_is_no_mistake(rows: Seq<RowView>, id: i64)
    requires
        well_formed(rows),
        has_id(rows, id),
        rows[position(rows, id)].is_open(),
    ensures
        !listed(mistakes(rows), id),
{
    let kept = mistake_rows(rows);
    let is_mistake = |row: RowView| row.is_mistake();
    if listed(mistakes(rows), id) {
        let k = choose|k: int| 0 <= k < mistakes(rows).len() && (#[trigger] mistakes(rows)[k]).0
            == id;
        rows.lemma_filter_pred(is_mistake, k);
        assert(kept.contains(kept[k]));
        rows.lemma_filter_contains_rev(is_mistake, kept[k]);
        let j = choose|j: int| 0 <= j < rows.len() && rows[j] == kept[k];
        lemma_position_unique(rows, id, j);
    }
}

/// A window in which no answer was given counts nothing. So does the
/// window from an instant to the same instant, where no answer was given
/// at that instant.
pub proof fn law_empty_window(rows: Seq<RowView>, start: int, end: int)
    requires
        forall|i: int|
            0 <= i < rows.len() ==> !(#[trigger] rows[i]).answered_within(start, end),
    ensures
        total_within(rows, start, end) == 0,
        correct_within(rows, start, end) == 0,
        statistics(rows, start, end) == (0i64, 0i64),
    decreases rows.len(),
{
    reveal(Seq::filter);
    if rows.len() > 0 {
        let shorter = rows.drop_last();
        assert forall|i: int| 0 <= i < shorter.len() implies !(
        #[trigger] shorter[i]).answered_within(start, end) by {
            assert(shorter[i] == rows[i]);
        }
        law_empty_window(shorter, start, end);
        assert(!rows[rows.len() - 1].answered_within(start, end));
    }
}

/// No more answers are correct than were given, and no more were given
/// than there are rows.
pub proof fn law_counts_ordered(rows: Seq<RowView>, start: int, end: int)
    ensures
        0 <= correct_within(rows, start, end) <= total_within(rows, start, end) <= rows.len(),
    decreases rows.len(),
{
    reveal(Seq::filter);
    if rows.len() > 0 {
        law_counts_ordered(rows.drop_last(), start, end);
    }
}

/// An answer given no earlier than the question was created keeps every
/// answer no earlier than its question.
pub proof fn law_answer_keeps_order(rows: Seq<RowView>, id: i64, answer: i64, now: i64)
    requires
        well_formed(rows),
        chronological(rows),
        has_id(rows, id),
        rows[position(rows, id)].created_at <= now,
    ensures
        chronological(answered(rows, id, answer, now)),
{
    let after = answered(rows, id, answer, now);
    assert forall|i: int|
        0 <= i < after.len() && (#[trigger] after[i]).answered_at is Some implies after[i].created_at
            <= after[i].answered_at->0 by {
        if rows[i].id == id {
            lemma_position_unique(rows, id, i);
        } else {
            assert(after[i] == rows[i]);
        }
    }
}

/// An answer changes the row of its question and no other, and neither
/// adds a row nor takes one away.
pub proof fn law_answer_touches_one(rows: Seq<RowView>, id: i64, answer: i64, now: i64)
    requires
        well_formed(rows),
    ensures
        answered(rows, id, answer, now).len() == rows.len(),
        forall|i: int|
            0 <= i < rows.len() && rows[i].id != id ==> (#[trigger] answered(
                rows,
                id,
                answer,
                now,
            )[i]) == rows[i],
        forall|i: int|
            0 <= i < rows.len() ==> {
                let after = #[trigger] answered(rows, id, answer, now)[i];
                &&& after.id == rows[i].id
                &&& after.question == rows[i].question
                &&& after.expected_answer == rows[i].expected_answer
                &&& after.created_at == rows[i].created_at
            },
{
}

/// A question added to a table without open questions is then the only
/// open question: asked again before an answer, the table gives that one.
pub proof fn law_fresh_question_is_the_only_open(
    rows: Seq<RowView>,
    id: i64,
    problem: Problem,
    now: i64,
)
    requires
        open_rows(rows).len() == 0,
    ensures
        open_rows(rows.push(fresh_row(id, problem, now))) == seq![fresh_row(id, problem, now)],
{
    reveal(Seq::filter);
    let longer = rows.push(fresh_row(id, problem, now));
    assert(longer.drop_last() =~= rows);
    assert(open_rows(longer) =~= seq![fresh_row(id, problem, now)]);
}

/// With exactly one open question, every choice among the open questions
/// is that one.
pub proof fn law_single_open(rows: Seq<RowView>, k: int)
    requires
        open_rows(rows).len() == 1,
        0 <= k < open_rows(rows).len(),
    ensures
        open_rows(rows)[k] == open_rows(rows)[0],
        open_rows(rows)[k].is_open(),
{
    rows.lemma_filter_pred(|row: RowView| row.is_open(), k);
}

/// The store of questions, and the tier of the questions that it draws.
pub struct TestRepo {
    rows: Vec<QuestionRow>,
    tier: Tier,
}

impl View for TestRepo {
    type V = Seq<RowView>;

    closed spec fn view(&self) -> Seq<RowView> {
        rows_view(self.rows@)
    }
}

impl TestRepo {
    /// The tier of the questions that the store draws.
    pub closed spec fn tier(&self) -> Tier {
        self.tier
    }

    /// The store's invariant: its table is well formed.
    pub open spec fn wf(&self) -> bool {
        well_formed(self@)
    }

    /// A store without questions, of the large tier.
    pub fn new() -> (repo: TestRepo)
        ensures
            repo@ == Seq::<RowView>::empty(),
            repo.tier() == Tier::Large,
            repo.wf(),
    {
        TestRepo::with_tier(Tier::Large)
    }

    /// A store without questions.
    pub fn with_tier(tier: Tier) -> (repo: TestRepo)
        ensures
            repo@ == Seq::<RowView>::empty(),
            repo.tier() == tier,
            repo.wf(),
    {
        let repo = TestRepo { rows: Vec::new(), tier };
        assert(repo@ =~= Seq::<RowView>::empty());
        repo
    }

    /// The tier of the questions that the store draws.
    pub fn get_tier(&self) -> (tier: Tier)
        ensures
            tier == self.tier(),
    {
        self.tier
    }

    /// The store of these rows. Fails where they do not make a well-formed
    /// table: an identifier below one or out of order, a text that is not
    /// a valid problem's, an expected answer that is not the problem's
    /// value, an answer without its time or a time without its answer.
    pub fn from_rows(rows: Vec<QuestionRow>, tier: Tier) -> (repo: Result<TestRepo, RepoError>)
        ensures
            well_formed(rows_view(rows@)) ==> repo is Ok && repo->Ok_0@ == rows_view(rows@)
                && repo->Ok_0.tier() == tier && repo->Ok_0.wf(),
            !well_formed(rows_view(rows@)) ==> repo is Err && repo->Err_0
                == RepoError::StorageError,
    {
        let ghost table = rows_view(rows@);
        let mut last: i64 = 0;
        let mut i: usize = 0;
        while i < rows.len()
            invariant
                0 <= i <= rows.len(),
                table == rows_view(rows@),
                well_formed(table.take(i as int)),
                i == 0 ==> last == 0,
                i > 0 ==> last == table[i - 1].id,
            decreases rows.len() - i,
        {
            let row = &rows[i];
            let value = evaluate(row.question.as_str());
            let sound = row.id > last && value == Some(row.expected_answer)
                && row.user_answer.is_some() == row.answered_at.is_some();
            if !sound {
                proof {
                    lemma_well_posed_reads(row.question@, row.expected_answer as int);
                    if well_formed(table) {
                        assert(table[i as int] == rows@[i as int]@);
                        assert(table[i as int].sound());
                        if i > 0 {
                            assert(table[i - 1].id < table[i as int].id);
                        }
                    }
                }
                return Err(RepoError::StorageError);
            }
            proof {
                let longer = table.take(i as int + 1);
                let shorter = table.take(i as int);
                assert(longer[i as int] == rows@[i as int]@);
                assert(longer[i as int].sound());
                assert forall|k: int| 0 <= k < longer.len() implies (
                #[trigger] longer[k]).sound() by {
                    if k < i {
                        assert(shorter[k].sound());
                    }
                }
                assert forall|j: int, k: int| 0 <= j < k < longer.len() implies (
                #[trigger] longer[j]).id < (#[trigger] longer[k]).id by {
                    if k < i {
                        assert(shorter[j].id < shorter[k].id);
                    } else if j < i - 1 {
                        assert(shorter[j].id < shorter[i - 1].id);
                    }
                }
            }
            last = row.id;
            i += 1;
        }
        assert(table.take(i as int) =~= table);
        Ok(TestRepo { rows, tier })
    }

    /// The rows of the store, in order.
    pub fn rows(&self) -> (rows: Vec<QuestionRow>)
        ensures
            rows_view(rows@) == self@,
    {
        let mut rows: Vec<QuestionRow> = Vec::new();
        let mut i: usize = 0;
        while i < self.rows.len()
            invariant
                0 <= i <= self.rows.len(),
                rows@.len() == i,
                forall|k: int| 0 <= k < i ==> (#[trigger] rows@[k])@ == self.rows@[k]@,
            decreases self.rows.len() - i,
        {
            let row = &self.rows[i];
            rows.push(
                QuestionRow {
                    id: row.id,
                    question: row.question.clone(),
                    expected_answer: row.expected_answer,
                    user_answer: row.user_answer,
                    created_at: row.created_at,
                    answered_at: row.answered_at,
                },
            );
            i += 1;
        }
        assert(rows_view(rows@) =~= self@);
        rows
    }

    /// The number of questions.
    pub fn len(&self) -> (count: usize)
        ensures
            count == self@.len(),
    {
        self.rows.len()
    }

    /// The number of open questions.
    pub fn open_count(&self) -> (count: usize)
        ensures
            count == open_rows(self@).len(),
    {
        let mut count: usize = 0;
        let mut i: usize = 0;
        proof {
            lemma_counts_empty(self@.take(0), 0, 0);
        }
        while i < self.rows.len()
            invariant
                0 <= i <= self.rows.len(),
                self@.len() == self.rows.len(),
                count == open_rows(self@.take(i as int)).len(),
                count <= i,
            decreases self.rows.len() - i,
        {
            proof {
                lemma_open_rows_step(self@, i as int);
            }
            if self.rows[i].user_answer.is_none() {
                count += 1;
            }
            i += 1;
        }
        assert(self@.take(i as int) =~= self@);
        count
    }

    /// The open question at place `index` among the open questions.
    pub fn nth_open(&self, index: usize) -> (question: Question)
        requires
            index < open_rows(self@).len(),
        ensures
            question@ == open_rows(self@)[index as int].question(),
    {
        let mut seen: usize = 0;
        let mut i: usize = 0;
        proof {
            lemma_counts_empty(self@.take(0), 0, 0);
        }
        while i < self.rows.len()
            invariant
                0 <= i <= self.rows.len(),
                self@.len() == self.rows.len(),
                seen == open_rows(self@.take(i as int)).len(),
                seen <= index,
                seen <= i,
                index < open_rows(self@).len(),
            decreases self.rows.len() - i,
        {
            proof {
                lemma_open_rows_step(self@, i as int);
                lemma_open_rows_prefix(self@, i as int + 1);
            }
            let row = &self.rows[i];
            if row.user_answer.is_none() {
                if seen == index {
                    proof {
                        let found = open_rows(self@.take(i as int + 1));
                        assert(found[seen as int] == self@[i as int]);
                        assert(found == open_rows(self@).take(found.len() as int));
                        assert(open_rows(self@)[index as int] == found[seen as int]);
                    }
                    return Question::from_question(
                        row.id,
                        row.question.clone(),
                        row.expected_answer,
                        row.user_answer,
                    );
                }
                seen += 1;
            }
            i += 1;
        }
        proof {
            assert(self@.take(i as int) =~= self@);
        }
        unreached()
    }

    /// Gives a question to work on: one of the open questions where there
    /// is any, chosen at random, else a new one, which is drawn and added.
    /// With exactly one open question, that one is given.
    pub fn new_question(&mut self) -> (created: Result<Question, RepoError>)
        requires
            old(self).wf(),
        ensures
            final(self).wf(),
            final(self).tier() == old(self).tier(),
            open_rows(old(self)@).len() > 0 ==> created is Ok && final(self)@ == old(self)@
                && exists|k: int|
                0 <= k < open_rows(old(self)@).len() && created->Ok_0@ == (#[trigger] open_rows(
                    old(self)@,
                )[k]).question(),
            open_rows(old(self)@).len() == 1 ==> created is Ok && created->Ok_0@ == open_rows(
                old(self)@,
            )[0].question(),
            open_rows(old(self)@).len() == 0 && next_id(old(self)@) <= i64::MAX ==> created is Ok
                && exists|problem: Problem, now: i64|
                problem.in_tier(old(self).tier()) && final(self)@ == old(self)@.push(
                    #[trigger] fresh_row(next_id(old(self)@) as i64, problem, now),
                ) && created->Ok_0@ == fresh_row(
                    next_id(old(self)@) as i64,
                    problem,
                    now,
                ).question(),
            open_rows(old(self)@).len() == 0 && next_id(old(self)@) > i64::MAX ==> created == Err::<
                Question,
                RepoError,
            >(RepoError::StorageError) && final(self)@ == old(self)@,
    {
        let mut rng = rand::thread_rng();
        let waiting = self.open_count();
        if waiting > 0 {
            proof {
                lemma_filter_len(self@);
                if self@.len() > 0 {
                    lemma_id_above_place(self@, self@.len() - 1);
                }
            }
            let draw = random_between(&mut rng, 0, (waiting - 1) as i64);
            let question = self.nth_open(draw as usize);
            assert(question@ == open_rows(self@)[draw as int].question());
            Ok(question)
        } else {
            let problem = generate_problem(&mut rng, self.tier);
            let now = current_instant();
            proof {
                problem.lemma_tier_valid(self.tier);
            }
            let created = self.insert(problem, now);
            proof {
                if created is Ok {
                    assert(final(self)@ == old(self)@.push(
                        fresh_row(next_id(old(self)@) as i64, problem, now),
                    ));
                }
            }
            created
        }
    }

    /// The place of the row with this identifier.
    fn position_of(&self, id: i64) -> (found: Option<usize>)
        ensures
            match found {
                Some(i) => i < self@.len() && self@[i as int].id == id,
                None => !has_id(self@, id),
            },
    {
        let mut i: usize = 0;
        while i < self.rows.len()
            invariant
                0 <= i <= self.rows.len(),
                self@.len() == self.rows.len(),
                forall|k: int| 0 <= k < i ==> (#[trigger] self@[k]).id != id,
            decreases self.rows.len() - i,
        {
            if self.rows[i].id == id {
                return Some(i);
            }
            i += 1;
        }
        None
    }

    /// Records `answer`, given at `now`, for the question with this
    /// identifier, and says whether it is the expected answer. An earlier
    /// answer to the question is replaced. Fails where no question has the
    /// identifier.
    pub fn answer_question_at(&mut self, id: i64, answer: i64, now: i64) -> (correct: Result<
        bool,
        RepoError,
    >)
        requires
            old(self).wf(),
        ensures
            final(self).wf(),
            final(self).tier() == old(self).tier(),
            has_id(old(self)@, id) ==> correct == Ok::<bool, RepoError>(
                outcome(old(self)@, id, answer),
            ) && final(self)@ == answered(old(self)@, id, answer, now),
            forall|i: int|
                0 <= i < old(self)@.len() && (#[trigger] old(self)@[i]).id == id ==> correct
                    == Ok::<bool, RepoError>(answer == old(self)@[i].expected_answer),
            chronological(old(self)@) && has_id(old(self)@, id) && old(self)@[position(
                old(self)@,
                id,
            )].created_at <= now ==> chronological(final(self)@),
            !has_id(old(self)@, id) ==> correct == Err::<bool, RepoError>(RepoError::NotFound)
                && final(self)@ == old(self)@,
    {
        match self.position_of(id) {
            Some(i) => {
                let ghost before = self@;
                proof {
                    lemma_position_unique(before, id, i as int);
                }
                let expected = self.rows[i].expected_answer;
                self.rows[i].user_answer = Some(answer);
                self.rows[i].answered_at = Some(now);
                proof {
                    assert(self@ =~= answered(before, id, answer, now));
                    lemma_answered_well_formed(before, id, answer, now);
                    if chronological(before) && before[i as int].created_at <= now {
                        law_answer_keeps_order(before, id, answer, now);
                    }
                }
                Ok(answer == expected)
            },
            None => Err(RepoError::NotFound),
        }
    }

    /// Records `answer`, given now by the clock, for the question with
    /// this identifier, and says whether it is the expected answer.
    pub fn answer_question(&mut self, id: i64, answer: i64) -> (correct: Result<bool, RepoError>)
        requires
            old(self).wf(),
        ensures
            final(self).wf(),
            final(self).tier() == old(self).tier(),
            has_id(old(self)@, id) ==> correct == Ok::<bool, RepoError>(
                outcome(old(self)@, id, answer),
            ) && exists|now: i64| final(self)@ == #[trigger] answered(old(self)@, id, answer, now),
            !has_id(old(self)@, id) ==> correct == Err::<bool, RepoError>(RepoError::NotFound)
                && final(self)@ == old(self)@,
    {
        let now = current_instant();
        let correct = self.answer_question_at(id, answer, now);
        proof {
            if has_id(old(self)@, id) {
                assert(final(self)@ == answered(old(self)@, id, answer, now));
            }
        }
        correct
    }

    /// The correct and the total number of answers given from `start` to
    /// `end`, both included.
    pub fn count_within(&self, start: i64, end: i64) -> (counts: (i64, i64))
        requires
            self.wf(),
        ensures
            counts == statistics(self@, start as int, end as int),
            counts.0 == correct_within(self@, start as int, end as int),
            counts.1 == total_within(self@, start as int, end as int),
            0 <= counts.0 <= counts.1 <= self@.len(),
    {
        let mut correct: i64 = 0;
        let mut total: i64 = 0;
        let mut i: usize = 0;
        proof {
            lemma_counts_empty(self@.take(0), start as int, end as int);
            if self@.len() > 0 {
                lemma_id_above_place(self@, self@.len() - 1);
            }
        }
        while i < self.rows.len()
            invariant
                0 <= i <= self.rows.len(),
                self@.len() == self.rows.len(),
                self@.len() <= i64::MAX,
                correct == correct_within(self@.take(i as int), start as int, end as int),
                total == total_within(self@.take(i as int), start as int, end as int),
                0 <= correct <= total <= i,
            decreases self.rows.len() - i,
        {
            proof {
                lemma_counts_step(self@, start as int, end as int, i as int);
            }
            let row = &self.rows[i];
            match (row.user_answer, row.answered_at) {
                (Some(given), Some(at)) => {
                    if start <= at && at <= end {
                        total += 1;
                        if given == row.expected_answer {
                            correct += 1;
                        }
                    }
                },
                _ => {},
            }
            i += 1;
        }
        assert(self@.take(i as int) =~= self@);
        (correct, total)
    }

    /// The correct and the total number of answers given in a window of
    /// time, read at `now`. A window without a start begins a thousand days
    /// before `now`; one without an end ends at `now`.
    pub fn get_statistics_at(&self, start: Option<i64>, end: Option<i64>, now: i64) -> (counts: (
        i64,
        i64,
    ))
        requires
            self.wf(),
        ensures
            counts == statistics(self@, window_start(start, now), window_end(end, now)),
            0 <= counts.0 <= counts.1 <= self@.len(),
    {
        let first = match start {
            Some(at) => at,
            None => {
                if now < i64::MIN + FAR_PAST_SECONDS {
                    i64::MIN
                } else {
                    now - FAR_PAST_SECONDS
                }
            },
        };
        let last = match end {
            Some(at) => at,
            None => now,
        };
        self.count_within(first, last)
    }

    /// The correct and the total number of answers given in a window of
    /// time, read now by the clock. With both ends given the clock does not
    /// matter.
    pub fn get_statistics(&self, start: Option<i64>, end: Option<i64>) -> (counts: (i64, i64))
        requires
            self.wf(),
        ensures
            exists|now: i64|
                counts == statistics(
                    self@,
                    #[trigger] window_start(start, now),
                    window_end(end, now),
                ),
            start is Some && end is Some ==> counts == statistics(
                self@,
                start->0 as int,
                end->0 as int,
            ),
            0 <= counts.0 <= counts.1 <= self@.len(),
    {
        let now = current_instant();
        let counts = self.get_statistics_at(start, end, now);
        assert(counts == statistics(self@, window_start(start, now), window_end(end, now)));
        counts
    }

    /// Identifier, text and given answer of every question whose answer is
    /// not the expected one, in the order of the table.
    pub fn mistake_collection(&self) -> (entries: Vec<(i64, String, Option<i64>)>)
        ensures
            entries_view(entries@) == mistakes(self@),
    {
        let mut entries: Vec<(i64, String, Option<i64>)> = Vec::new();
        let mut i: usize = 0;
        proof {
            lemma_counts_empty(self@.take(0), 0, 0);
            assert(entries_view(entries@) =~= mistakes(self@.take(0)));
        }
        while i < self.rows.len()
            invariant
                0 <= i <= self.rows.len(),
                self@.len() == self.rows.len(),
                entries_view(entries@) == mistakes(self@.take(i as int)),
            decreases self.rows.len() - i,
        {
            proof {
                lemma_mistake_rows_step(self@, i as int);
            }
            let row = &self.rows[i];
            let ghost before = entries@;
            match row.user_answer {
                Some(given) => {
                    if given != row.expected_answer {
                        entries.push((row.id, row.question.clone(), row.user_answer));
                        assert(entries_view(entries@) =~= entries_view(before).push(
                            self@[i as int].entry(),
                        ));
                        assert(mistakes(self@.take(i as int + 1)) =~= mistakes(
                            self@.take(i as int),
                        ).push(self@[i as int].entry()));
                    }
                },
                None => {},
            }
            i += 1;
        }
        assert(self@.take(i as int) =~= self@);
        entries
    }

    /// The row of the question with this identifier.
    pub fn find(&self, id: i64) -> (row: Option<QuestionRow>)
        requires
            self.wf(),
        ensures
            has_id(self@, id) ==> row is Some && row->0@ == self@[position(self@, id)],
            !has_id(self@, id) ==> row is None,
    {
        match self.position_of(id) {
            Some(i) => {
                proof {
                    lemma_position_unique(self@, id, i as int);
                }
                let row = &self.rows[i];
                Some(
                    QuestionRow {
                        id: row.id,
                        question: row.question.clone(),
                        expected_answer: row.expected_answer,
                        user_answer: row.user_answer,
                        created_at: row.created_at,
                        answered_at: row.answered_at,
                    },
                )
            },
            None => None,
        }
    }

    /// Adds a question of this problem, open and created at `now`, under
    /// the next identifier. Fails where the last identifier is the
    /// greatest there is.
    pub fn insert(&mut self, problem: Problem, now: i64) -> (created: Result<Question, RepoError>)
        requires
            old(self).wf(),
            problem.valid(),
        ensures
            final(self).wf(),
            final(self).tier() == old(self).tier(),
            next_id(old(self)@) <= i64::MAX ==> created is Ok && final(self)@ == old(self)@.push(
                fresh_row(next_id(old(self)@) as i64, problem, now),
            ) && created->Ok_0@ == fresh_row(next_id(old(self)@) as i64, problem, now).question(),
            next_id(old(self)@) > i64::MAX ==> created == Err::<Question, RepoError>(
                RepoError::StorageError,
            ) && final(self)@ == old(self)@,
            chronological(old(self)@) ==> chronological(final(self)@),
    {
        proof {
            problem.lemma_value_exact();
        }
        let count = self.rows.len();
        let last: i64 = if count == 0 {
            0
        } else {
            self.rows[count - 1].id
        };
        assert(count > 0 ==> self@.last() == self.rows@[count - 1]@);
        if last == i64::MAX {
            return Err(RepoError::StorageError);
        }
        let id = last + 1;
        let text = problem.render();
        let expected = problem.answer();
        let shown = text.clone();
        let row = QuestionRow {
            id,
            question: text,
            expected_answer: expected,
            user_answer: None,
            created_at: now,
            answered_at: None,
        };
        let ghost before = self@;
        self.rows.push(row);
        proof {
            assert(self@ =~= before.push(fresh_row(id, problem, now)));
            assert(fresh_row(id, problem, now).sound());
        }
        Ok(Question::from_question(id, shown, expected, None))
    }
}

} // verus!
