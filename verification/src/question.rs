//! A question: a problem's text, the answer it expects, and the answer
//! that was given or is being typed.

use crate::decimal::{render_decimal, signed_decimal};
use crate::problem::{generate_question, text_value, well_posed, Problem, Tier};
use vstd::prelude::*;
use vstd::string::*;

verus! {

/// What a question holds.
pub struct QuestionView {
    pub id: i64,
    pub question: Seq<char>,
    pub expected_answer: i64,
    pub user_answer: Option<i64>,
}

/// One question. A question without a user's answer is open.
#[derive(Clone)]
pub struct Question {
    id: i64,
    question: String,
    expected_answer: i64,
    user_answer: Option<i64>,
}

/// The tenth part of `v`, rounded toward zero: `v` without its last digit.
pub open spec fn without_last_digit(v: int) -> int {
    if v >= 0 {
        v / 10
    } else {
        -((-v) / 10)
    }
}

/// The number that has been typed: the answer, or zero while there is
/// none.
pub open spec fn typed_so_far(user_answer: Option<i64>) -> int {
    match user_answer {
        Some(v) => v as int,
        None => 0,
    }
}

/// The answer as it is shown: its decimal notation, or nothing while there
/// is none.
pub open spec fn input_text(user_answer: Option<i64>) -> Seq<char> {
    match user_answer {
        Some(v) => signed_decimal(v as int),
        None => Seq::empty(),
    }
}

impl View for Question {
    type V = QuestionView;

    closed spec fn view(&self) -> QuestionView {
        QuestionView {
            id: self.id,
            question: self.question@,
            expected_answer: self.expected_answer,
            user_answer: self.user_answer,
        }
    }
}

impl Question {
    /// A question of the large tier that was just drawn: no identifier
    /// yet, no answer yet.
    pub fn new() -> (q: Question)
        ensures
            q@.id == 0,
            q@.user_answer is None,
            exists|problem: Problem| #[trigger]
                problem.in_tier(Tier::Large) && q@.question == problem.text()
                    && q@.expected_answer == problem.value(),
            well_posed(q@.question, q@.expected_answer as int),
            text_value(q@.question) == Some(q@.expected_answer),
    {
        Question::new_in(Tier::Large)
    }

    /// A question that was just drawn: no identifier yet, no answer yet.
    /// Its text and its expected answer are those of one problem of the
    /// tier, so evaluating the text gives the expected answer.
    pub fn new_in(tier: Tier) -> (q: Question)
        ensures
            q@.id == 0,
            q@.user_answer is None,
            exists|problem: Problem| #[trigger]
                problem.in_tier(tier) && q@.question == problem.text() && q@.expected_answer
                    == problem.value(),
            well_posed(q@.question, q@.expected_answer as int),
            text_value(q@.question) == Some(q@.expected_answer),
    {
        let mut rng = rand::thread_rng();
        let (question, answer) = generate_question(&mut rng, tier);
        Question { id: 0, question, expected_answer: answer, user_answer: None }
    }

    /// The question with these four values.
    pub fn from_question(
        id: i64,
        question: String,
        expected_answer: i64,
        user_answer: Option<i64>,
    ) -> (q: Question)
        ensures
            q@ == (QuestionView { id, question: question@, expected_answer, user_answer }),
    {
        Question { id, question, expected_answer, user_answer }
    }

    /// The identifier that the store gave the question.
    pub fn get_id(&self) -> (id: i64)
        ensures
            id == self@.id,
    {
        self.id
    }

    /// The text of the problem.
    pub fn get_question(&self) -> (text: String)
        ensures
            text@ == self@.question,
    {
        self.question.clone()
    }

    /// The answer that the question expects.
    pub fn get_expected_answer(&self) -> (answer: i64)
        ensures
            answer == self@.expected_answer,
    {
        self.expected_answer
    }

    /// The user's answer, where there is one.
    pub fn get_answer(&self) -> (answer: Option<i64>)
        ensures
            answer == self@.user_answer,
    {
        self.user_answer
    }

    /// The user's answer as it is shown.
    pub fn get_input(&self) -> (text: String)
        ensures
            text@ == input_text(self@.user_answer),
    {
        match self.user_answer {
            Some(v) => render_decimal(v),
            None => String::new(),
        }
    }

    /// The question as it is shown: its text, an equals sign, and the
    /// user's answer so far.
    pub fn to_text(&self) -> (text: String)
        ensures
            text@ == self@.question + seq![' ', '=', ' '] + input_text(self@.user_answer),
    {
        let mut text = self.question.clone();
        proof {
            reveal_strlit(" = ");
        }
        text.append(" = ");
        let input = self.get_input();
        text.append(input.as_str());
        assert(text@ =~= self@.question + seq![' ', '=', ' '] + input_text(self@.user_answer));
        text
    }

    /// Whether the user's answer is the expected one.
    pub fn check_answer(&self) -> (correct: bool)
        ensures
            correct == (self@.user_answer == Some(self@.expected_answer)),
    {
        match self.user_answer {
            Some(v) => v == self.expected_answer,
            None => false,
        }
    }

    /// Types one more digit at the end of the user's answer. The answer so
    /// far, ten times that, and the new answer each fit the answer's type.
    pub fn input_digit(&mut self, digit: i64)
        requires
            i64::MIN <= typed_so_far(old(self)@.user_answer) * 10 <= i64::MAX,
            i64::MIN <= typed_so_far(old(self)@.user_answer) * 10 + digit <= i64::MAX,
        ensures
            final(self)@.user_answer == Some(
                (typed_so_far(old(self)@.user_answer) * 10 + digit) as i64,
            ),
            final(self)@.id == old(self)@.id,
            final(self)@.question == old(self)@.question,
            final(self)@.expected_answer == old(self)@.expected_answer,
    {
        let so_far = match self.user_answer {
            Some(v) => v,
            None => 0,
        };
        self.user_answer = Some(so_far * 10 + digit);
    }

    /// Takes the last digit of the user's answer away. An answer of which
    /// nothing is left is no answer.
    pub fn backspace(&mut self)
        ensures
            final(self)@.user_answer == match old(self)@.user_answer {
                Some(v) => if without_last_digit(v as int) == 0 {
                    None
                } else {
                    Some(without_last_digit(v as int) as i64)
                },
                None => None,
            },
            final(self)@.id == old(self)@.id,
            final(self)@.question == old(self)@.question,
            final(self)@.expected_answer == old(self)@.expected_answer,
    {
        match self.user_answer {
            Some(v) => {
                let rest = v / 10;
                if rest == 0 {
                    self.user_answer = None;
                } else {
                    self.user_answer = Some(rest);
                }
            },
            None => {},
        }
    }

    /// Whether there is an answer to submit.
    pub fn can_submit(&self) -> (ready: bool)
        ensures
            ready == self@.user_answer is Some,
    {
        self.user_answer.is_some()
    }
}

} // verus!
