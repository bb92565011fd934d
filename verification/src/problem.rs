//! Arithmetic problems: two operands and an operator, their text and their
//! value, and the generator that draws them.

use crate::decimal::{
    decimal_digits, digits_end, lemma_canonical_decimal, lemma_decimal_canonical, lemma_run_end,
    number_at, push_decimal, read_number, run_end,
};
use crate::random::random_between;
use crate::text::chars_of;
use rand::rngs::ThreadRng;
use vstd::prelude::*;
use vstd::string::*;

verus! {

/// How many rejected attempts the generator makes before it stops drawing
/// and repairs the last one.
pub const RETRY_CAP: u32 = 64;

/// The four operations.
#[derive(Clone, Copy, Debug, PartialEq, Eq, Structural)]
pub enum Operator {
    Add,
    Subtract,
    Multiply,
    Divide,
}

/// How hard the problems are. One store keeps to one tier.
#[derive(Clone, Copy, Debug, PartialEq, Eq, Structural)]
pub enum Tier {
    /// Operands up to a hundred, dividends up to a hundred, every
    /// operation as likely as any other. A difference below zero and a
    /// dividend above the bound are rejected and drawn again.
    Small,
    /// Operands up to a thousand, factors up to a hundred, divisors and
    /// quotients up to fifty; sums, differences and products twice as
    /// likely as divisions. No draw is rejected: a difference is taken of
    /// the greater and the lesser.
    Large,
}

impl Operator {
    /// The sign that stands between the operands.
    pub open spec fn symbol(self) -> char {
        match self {
            Operator::Add => '+',
            Operator::Subtract => '-',
            Operator::Multiply => 'x',
            Operator::Divide => '÷',
        }
    }

    /// The operator that a sign stands for.
    pub open spec fn of_symbol(c: char) -> Option<Operator> {
        if c == '+' {
            Some(Operator::Add)
        } else if c == '-' {
            Some(Operator::Subtract)
        } else if c == 'x' {
            Some(Operator::Multiply)
        } else if c == '÷' {
            Some(Operator::Divide)
        } else {
            None
        }
    }

    /// The sign with a space on either side.
    pub open spec fn infix(self) -> Seq<char> {
        seq![' ', self.symbol(), ' ']
    }

    /// The sign with a space on either side, as a text.
    pub fn infix_text(&self) -> (s: &'static str)
        ensures
            s@ == self.infix(),
    {
        proof {
            reveal_strlit(" + ");
            reveal_strlit(" - ");
            reveal_strlit(" x ");
            reveal_strlit(" ÷ ");
        }
        let s = match self {
            Operator::Add => " + ",
            Operator::Subtract => " - ",
            Operator::Multiply => " x ",
            Operator::Divide => " ÷ ",
        };
        assert(s@ =~= self.infix());
        s
    }

    /// The operator that a sign stands for.
    pub fn from_symbol(c: char) -> (op: Option<Operator>)
        ensures
            op == Operator::of_symbol(c),
    {
        if c == '+' {
            Some(Operator::Add)
        } else if c == '-' {
            Some(Operator::Subtract)
        } else if c == 'x' {
            Some(Operator::Multiply)
        } else if c == '÷' {
            Some(Operator::Divide)
        } else {
            None
        }
    }
}

impl Tier {
    /// The number of slots in the table that weights the operators.
    pub open spec fn slots(self) -> int {
        match self {
            Tier::Small => 4,
            Tier::Large => 7,
        }
    }

    /// The operator of a slot of the weighting table. The small tier has
    /// one slot for each operation; the large tier has two each for
    /// addition, subtraction and multiplication and one for division.
    pub open spec fn operator_of(self, slot: int) -> Operator {
        match self {
            Tier::Small => if slot < 1 {
                Operator::Add
            } else if slot < 2 {
                Operator::Subtract
            } else if slot < 3 {
                Operator::Multiply
            } else {
                Operator::Divide
            },
            Tier::Large => if slot < 2 {
                Operator::Add
            } else if slot < 4 {
                Operator::Subtract
            } else if slot < 6 {
                Operator::Multiply
            } else {
                Operator::Divide
            },
        }
    }

    /// The range of the first draw of an operation: an operand, the first
    /// factor, or the divisor.
    pub open spec fn first_range(self, op: Operator) -> (int, int) {
        match (self, op) {
            (Tier::Small, Operator::Divide) => (3, 30),
            (Tier::Small, _) => (2, 100),
            (Tier::Large, Operator::Add) => (2, 1000),
            (Tier::Large, Operator::Subtract) => (2, 1000),
            (Tier::Large, Operator::Multiply) => (2, 100),
            (Tier::Large, Operator::Divide) => (9, 50),
        }
    }

    /// The range of the second draw of an operation: an operand, the
    /// second factor, or the quotient.
    pub open spec fn second_range(self, op: Operator) -> (int, int) {
        match (self, op) {
            (Tier::Small, Operator::Add) => (2, 100),
            (Tier::Small, Operator::Subtract) => (2, 100),
            (Tier::Small, Operator::Multiply) => (3, 30),
            (Tier::Small, Operator::Divide) => (3, 30),
            (Tier::Large, _) => self.first_range(op),
        }
    }

    /// The greatest dividend of a division.
    pub open spec fn dividend_max(self) -> int {
        match self {
            Tier::Small => 100,
            Tier::Large => 2500,
        }
    }

    /// Whether a difference of a lesser and a greater draw is rejected,
    /// rather than taken the other way round.
    pub open spec fn rejects_disorder(self) -> bool {
        self == Tier::Small
    }

    /// The number of slots in the table that weights the operators.
    pub fn slot_count(&self) -> (count: i64)
        ensures
            count == self.slots(),
    {
        match self {
            Tier::Small => 4,
            Tier::Large => 7,
        }
    }

    /// The operator of a slot of the weighting table.
    pub fn operator(&self, slot: i64) -> (op: Operator)
        ensures
            op == self.operator_of(slot as int),
    {
        match self {
            Tier::Small => {
                if slot < 1 {
                    Operator::Add
                } else if slot < 2 {
                    Operator::Subtract
                } else if slot < 3 {
                    Operator::Multiply
                } else {
                    Operator::Divide
                }
            },
            Tier::Large => {
                if slot < 2 {
                    Operator::Add
                } else if slot < 4 {
                    Operator::Subtract
                } else if slot < 6 {
                    Operator::Multiply
                } else {
                    Operator::Divide
                }
            },
        }
    }

    /// The ranges of the first and of the second draw of an operation.
    pub fn draw_ranges(&self, op: Operator) -> (ranges: ((i64, i64), (i64, i64)))
        ensures
            (ranges.0.0 as int, ranges.0.1 as int) == self.first_range(op),
            (ranges.1.0 as int, ranges.1.1 as int) == self.second_range(op),
            ranges.0.0 <= ranges.0.1,
            ranges.1.0 <= ranges.1.1,
    {
        match self {
            Tier::Small => match op {
                Operator::Add => ((2, 100), (2, 100)),
                Operator::Subtract => ((2, 100), (2, 100)),
                Operator::Multiply => ((2, 100), (3, 30)),
                Operator::Divide => ((3, 30), (3, 30)),
            },
            Tier::Large => match op {
                Operator::Add => ((2, 1000), (2, 1000)),
                Operator::Subtract => ((2, 1000), (2, 1000)),
                Operator::Multiply => ((2, 100), (2, 100)),
                Operator::Divide => ((9, 50), (9, 50)),
            },
        }
    }

    /// The greatest dividend of a division.
    pub fn greatest_dividend(&self) -> (bound: i64)
        ensures
            bound == self.dividend_max(),
    {
        match self {
            Tier::Small => 100,
            Tier::Large => 2500,
        }
    }
}

/// A problem `lhs op rhs`.
#[derive(Clone, Copy, Debug, PartialEq, Eq, Structural)]
pub struct Problem {
    pub op: Operator,
    pub lhs: i64,
    pub rhs: i64,
}

/// Whether `v` lies in the range from its first to its second bound.
pub open spec fn within(v: int, range: (int, int)) -> bool {
    range.0 <= v <= range.1
}

impl Problem {
    /// The result of the operation on the two operands. For a division it
    /// is the quotient, which is exact where the problem is valid.
    pub open spec fn value(self) -> int {
        match self.op {
            Operator::Add => self.lhs + self.rhs,
            Operator::Subtract => self.lhs - self.rhs,
            Operator::Multiply => self.lhs * self.rhs,
            Operator::Divide => self.lhs as int / self.rhs as int,
        }
    }

    /// A problem is valid when its operands are not negative and its value
    /// is a whole number that is not negative and fits the answer's type:
    /// no difference below zero, no division that leaves a remainder.
    pub open spec fn valid(self) -> bool {
        &&& 0 <= self.lhs
        &&& 0 <= self.rhs
        &&& match self.op {
            Operator::Add => self.lhs + self.rhs <= i64::MAX,
            Operator::Subtract => self.rhs <= self.lhs,
            Operator::Multiply => self.lhs * self.rhs <= i64::MAX,
            Operator::Divide => self.rhs != 0 && self.lhs as int % self.rhs as int == 0,
        }
    }

    /// The problems of a tier: the operands of a sum and of a difference
    /// and the factors of a product in their ranges, the difference not
    /// below zero; the divisor and the quotient of a division in their
    /// ranges, the division exact, the dividend not above its bound.
    pub open spec fn in_tier(self, tier: Tier) -> bool {
        match self.op {
            Operator::Add => {
                &&& within(self.lhs as int, tier.first_range(self.op))
                &&& within(self.rhs as int, tier.second_range(self.op))
            },
            Operator::Subtract => {
                &&& within(self.lhs as int, tier.first_range(self.op))
                &&& within(self.rhs as int, tier.second_range(self.op))
                &&& self.rhs <= self.lhs
            },
            Operator::Multiply => {
                &&& within(self.lhs as int, tier.first_range(self.op))
                &&& within(self.rhs as int, tier.second_range(self.op))
            },
            Operator::Divide => {
                &&& within(self.rhs as int, tier.first_range(self.op))
                &&& self.lhs as int % self.rhs as int == 0
                &&& within(self.lhs as int / self.rhs as int, tier.second_range(self.op))
                &&& self.lhs <= tier.dividend_max()
            },
        }
    }

    /// The problem as it is shown: both operands in decimal notation, the
    /// operator's sign between them.
    pub open spec fn text(self) -> Seq<char> {
        decimal_digits(self.lhs as nat) + self.op.infix() + decimal_digits(self.rhs as nat)
    }

    /// The problem that two draws give, where they are not rejected: a
    /// sum or a product of the two; their difference, which a tier either
    /// rejects where it is below zero or takes the other way round; the
    /// division of their product by the first, which is rejected where the
    /// product is above the tier's bound.
    pub open spec fn of_draws(tier: Tier, op: Operator, first: int, second: int) -> Option<
        Problem,
    > {
        match op {
            Operator::Add => Some(Problem { op, lhs: first as i64, rhs: second as i64 }),
            Operator::Subtract => if first >= second {
                Some(Problem { op, lhs: first as i64, rhs: second as i64 })
            } else if tier.rejects_disorder() {
                None
            } else {
                Some(Problem { op, lhs: second as i64, rhs: first as i64 })
            },
            Operator::Multiply => Some(Problem { op, lhs: first as i64, rhs: second as i64 }),
            Operator::Divide => if first * second <= tier.dividend_max() {
                Some(Problem { op, lhs: (first * second) as i64, rhs: first as i64 })
            } else {
                None
            },
        }
    }

    /// The problem that is made of two rejected draws: their difference
    /// the other way round, or the division of the divisor's product with
    /// the least quotient by the divisor.
    pub open spec fn repaired(tier: Tier, op: Operator, first: int, second: int) -> Problem {
        match op {
            Operator::Subtract => Problem { op, lhs: second as i64, rhs: first as i64 },
            Operator::Divide => Problem {
                op,
                lhs: (first * tier.second_range(op).0) as i64,
                rhs: first as i64,
            },
            _ => Problem { op, lhs: first as i64, rhs: second as i64 },
        }
    }

    /// Every problem of a tier is valid.
    pub proof fn lemma_tier_valid(self, tier: Tier)
        requires
            self.in_tier(tier),
        ensures
            self.valid(),
    {
        match self.op {
            Operator::Add => {},
            Operator::Subtract => {},
            Operator::Multiply => {
                assert(self.lhs * self.rhs <= 100 * 100) by (nonlinear_arith)
                    requires
                        0 <= self.lhs <= 100,
                        0 <= self.rhs <= 100,
                ;
            },
            Operator::Divide => {
                let lhs = self.lhs as int;
                let rhs = self.rhs as int;
                assert(0 <= lhs) by (nonlinear_arith)
                    requires
                        0 < rhs,
                        0 <= lhs / rhs,
                        lhs % rhs == 0,
                ;
            },
        }
    }

    /// The value of a valid problem is the exact result of the operation:
    /// a whole number that is not negative, and for a division the number
    /// that gives the dividend back when it multiplies the divisor.
    pub proof fn lemma_value_exact(self)
        requires
            self.valid(),
        ensures
            0 <= self.value() <= i64::MAX,
            self.op == Operator::Subtract ==> self.value() + self.rhs == self.lhs,
            self.op == Operator::Divide ==> self.value() * self.rhs == self.lhs,
    {
        let lhs = self.lhs as int;
        let rhs = self.rhs as int;
        match self.op {
            Operator::Add => {},
            Operator::Subtract => {},
            Operator::Multiply => {
                assert(0 <= lhs * rhs) by (nonlinear_arith)
                    requires
                        0 <= lhs,
                        0 <= rhs,
                ;
            },
            Operator::Divide => {
                assert(0 <= lhs / rhs <= lhs && (lhs / rhs) * rhs == lhs) by (nonlinear_arith)
                    requires
                        0 <= lhs,
                        0 < rhs,
                        lhs % rhs == 0,
                ;
            },
        }
    }

    /// The problem of two draws from the ranges of an operation of a tier,
    /// or nothing where the tier rejects the draws.
    pub fn from_draws(tier: Tier, op: Operator, first: i64, second: i64) -> (problem: Option<
        Problem,
    >)
        requires
            within(first as int, tier.first_range(op)),
            within(second as int, tier.second_range(op)),
        ensures
            problem == Problem::of_draws(tier, op, first as int, second as int),
            problem matches Some(p) ==> p.in_tier(tier),
            tier == Tier::Large ==> problem is Some,
    {
        match op {
            Operator::Add => Some(Problem { op, lhs: first, rhs: second }),
            Operator::Subtract => {
                if first >= second {
                    Some(Problem { op, lhs: first, rhs: second })
                } else {
                    match tier {
                        Tier::Small => None,
                        Tier::Large => Some(Problem { op, lhs: second, rhs: first }),
                    }
                }
            },
            Operator::Multiply => Some(Problem { op, lhs: first, rhs: second }),
            Operator::Divide => {
                assert(0 <= first * second <= 50 * 50 && (first * second) % (first as int) == 0
                    && (first * second) / (first as int) == second) by (nonlinear_arith)
                    requires
                        0 < first <= 50,
                        0 <= second <= 50,
                ;
                let dividend = first * second;
                if dividend <= tier.greatest_dividend() {
                    Some(Problem { op, lhs: dividend, rhs: first })
                } else {
                    None
                }
            },
        }
    }

    /// The problem that is made of two rejected draws. It is a problem of
    /// the tier.
    pub fn repair(tier: Tier, op: Operator, first: i64, second: i64) -> (problem: Problem)
        requires
            within(first as int, tier.first_range(op)),
            within(second as int, tier.second_range(op)),
            Problem::of_draws(tier, op, first as int, second as int) is None,
        ensures
            problem == Problem::repaired(tier, op, first as int, second as int),
            problem.in_tier(tier),
    {
        match op {
            Operator::Subtract => Problem { op, lhs: second, rhs: first },
            Operator::Divide => {
                let ranges = tier.draw_ranges(op);
                let least = ranges.1.0;
                let greatest = ranges.0.1;
                assert(0 <= first * least <= greatest * least && (first * least) % (first as int)
                    == 0 && (first * least) / (first as int) == least) by (nonlinear_arith)
                    requires
                        0 < first <= greatest,
                        0 <= least,
                ;
                Problem { op, lhs: first * least, rhs: first }
            },
            _ => Problem { op, lhs: first, rhs: second },
        }
    }

    /// Whether the problem is valid.
    pub fn is_valid(&self) -> (valid: bool)
        ensures
            valid == self.valid(),
    {
        if self.lhs < 0 || self.rhs < 0 {
            return false;
        }
        match self.op {
            Operator::Add => self.lhs.checked_add(self.rhs).is_some(),
            Operator::Subtract => self.rhs <= self.lhs,
            Operator::Multiply => self.lhs.checked_mul(self.rhs).is_some(),
            Operator::Divide => self.rhs != 0 && self.lhs % self.rhs == 0,
        }
    }

    /// The value of the problem.
    pub fn answer(&self) -> (answer: i64)
        requires
            self.valid(),
        ensures
            answer == self.value(),
    {
        proof {
            self.lemma_value_exact();
        }
        match self.op {
            Operator::Add => self.lhs + self.rhs,
            Operator::Subtract => self.lhs - self.rhs,
            Operator::Multiply => self.lhs * self.rhs,
            Operator::Divide => self.lhs / self.rhs,
        }
    }

    /// The text of the problem.
    pub fn render(&self) -> (text: String)
        requires
            0 <= self.lhs,
            0 <= self.rhs,
        ensures
            text@ == self.text(),
    {
        let mut text = String::new();
        push_decimal(&mut text, self.lhs as u64);
        text.append(self.op.infix_text());
        push_decimal(&mut text, self.rhs as u64);
        assert(text@ =~= self.text());
        text
    }
}

/// Draws a problem of a tier: the operator by the tier's weighting table,
/// the two values from the operator's ranges. Draws that the tier rejects
/// are made again, up to the cap; the last rejected draws are repaired.
pub fn generate_problem(rng: &mut ThreadRng, tier: Tier) -> (problem: Problem)
    ensures
        problem.in_tier(tier),
{
    let mut rejected: u32 = 0;
    loop
        invariant
            rejected < RETRY_CAP,
        decreases RETRY_CAP - rejected,
    {
        let slot = random_between(rng, 0, tier.slot_count() - 1);
        let op = tier.operator(slot);
        let ranges = tier.draw_ranges(op);
        let first = random_between(rng, ranges.0.0, ranges.0.1);
        let second = random_between(rng, ranges.1.0, ranges.1.1);
        match Problem::from_draws(tier, op, first, second) {
            Some(problem) => {
                return problem;
            },
            None => {
                rejected += 1;
                if rejected >= RETRY_CAP {
                    return Problem::repair(tier, op, first, second);
                }
            },
        }
    }
}

/// A text and an answer belong together when they are the text and the
/// value of one valid problem.
pub open spec fn well_posed(text: Seq<char>, answer: int) -> bool {
    exists|problem: Problem| #[trigger]
        problem.valid() && problem.text() == text && problem.value() == answer
}

/// Draws a problem of a tier and gives its text and its answer.
/// Evaluating the text gives the answer.
pub fn generate_question(rng: &mut ThreadRng, tier: Tier) -> (question: (String, i64))
    ensures
        exists|problem: Problem| #[trigger]
            problem.in_tier(tier) && question.0@ == problem.text() && question.1
                == problem.value(),
        well_posed(question.0@, question.1 as int),
        text_value(question.0@) == Some(question.1),
{
    let problem = generate_problem(rng, tier);
    proof {
        law_expression_evaluates(problem, tier);
    }
    let text = problem.render();
    let answer = problem.answer();
    (text, answer)
}

/// The problem that a text shows: a number, a space, an operator's sign,
/// a space and a number, both numbers in decimal notation, where that
/// problem is valid.
pub open spec fn read_problem(s: Seq<char>) -> Option<Problem> {
    let a = run_end(s, 0);
    if a + 3 > s.len() {
        None
    } else if run_end(s, a + 3) != s.len() || s[a] != ' ' || s[a + 2] != ' ' {
        None
    } else {
        match (
            number_at(s, 0, a),
            Operator::of_symbol(s[a + 1]),
            number_at(s, a + 3, s.len() as int),
        ) {
            (Some(lhs), Some(op), Some(rhs)) => {
                let problem = Problem { op, lhs, rhs };
                if problem.valid() {
                    Some(problem)
                } else {
                    None
                }
            },
            _ => None,
        }
    }
}

/// The value of the problem that a text shows.
pub open spec fn text_value(s: Seq<char>) -> Option<i64> {
    match read_problem(s) {
        Some(problem) => Some(problem.value() as i64),
        None => None,
    }
}

/// The parts of a problem's text: the first operand's digits, the sign
/// between two spaces, the second operand's digits.
pub proof fn lemma_text_shape(problem: Problem)
    requires
        0 <= problem.lhs,
        0 <= problem.rhs,
    ensures
        ({
            let s = problem.text();
            let a = decimal_digits(problem.lhs as nat).len() as int;
            &&& a >= 1
            &&& s.len() >= a + 4
            &&& s.subrange(0, a) == decimal_digits(problem.lhs as nat)
            &&& s[a] == ' '
            &&& s[a + 1] == problem.op.symbol()
            &&& s[a + 2] == ' '
            &&& s.subrange(a + 3, s.len() as int) == decimal_digits(problem.rhs as nat)
            &&& run_end(s, 0) == a
            &&& run_end(s, a + 3) == s.len()
        }),
{
    let s = problem.text();
    let first = decimal_digits(problem.lhs as nat);
    let second = decimal_digits(problem.rhs as nat);
    let a = first.len() as int;
    lemma_decimal_canonical(problem.lhs as nat);
    lemma_decimal_canonical(problem.rhs as nat);
    assert(s.subrange(0, a) =~= first);
    assert(s.subrange(a + 3, s.len() as int) =~= second);
    assert(s[a] == problem.op.infix()[0]);
    assert(s[a + 1] == problem.op.infix()[1]);
    assert(s[a + 2] == problem.op.infix()[2]);
    lemma_run_end(s, 0, a);
    lemma_run_end(s, a + 3, s.len() as int);
}

/// What a text is read as is a valid problem with that text.
pub proof fn lemma_read_sound(s: Seq<char>)
    ensures
        read_problem(s) matches Some(problem) ==> problem.valid() && problem.text() == s,
{
    if let Some(problem) = read_problem(s) {
        let a = run_end(s, 0);
        let first = s.subrange(0, a);
        let second = s.subrange(a + 3, s.len() as int);
        lemma_canonical_decimal(first);
        lemma_canonical_decimal(second);
        assert(problem.op.infix() =~= s.subrange(a, a + 3));
        assert(s =~= first + s.subrange(a, a + 3) + second);
    }
}

/// The text of a valid problem is read as that problem.
pub proof fn lemma_read_complete(problem: Problem)
    requires
        problem.valid(),
    ensures
        read_problem(problem.text()) == Some(problem),
{
    lemma_text_shape(problem);
    lemma_decimal_canonical(problem.lhs as nat);
    lemma_decimal_canonical(problem.rhs as nat);
}

/// Evaluating the text of a problem of the tier gives the problem's
/// value, which is the exact result of the operation: a whole number, not
/// negative, that gives the first operand back when it is added to the
/// second of a difference or multiplies the divisor of a division.
pub proof fn law_expression_evaluates(problem: Problem, tier: Tier)
    requires
        problem.in_tier(tier),
    ensures
        problem.valid(),
        read_problem(problem.text()) == Some(problem),
        text_value(problem.text()) == Some(problem.value() as i64),
        well_posed(problem.text(), problem.value()),
        0 <= problem.value() <= i64::MAX,
        problem.op == Operator::Add ==> problem.value() == problem.lhs + problem.rhs,
        problem.op == Operator::Subtract ==> problem.value() + problem.rhs == problem.lhs,
        problem.op == Operator::Multiply ==> problem.value() == problem.lhs * problem.rhs,
        problem.op == Operator::Divide ==> problem.value() * problem.rhs == problem.lhs,
{
    problem.lemma_tier_valid(tier);
    problem.lemma_value_exact();
    lemma_read_complete(problem);
}

/// A text and an answer belong together exactly when the text reads as a
/// problem with that value.
pub proof fn lemma_well_posed_reads(text: Seq<char>, answer: int)
    ensures
        well_posed(text, answer) <==> (read_problem(text) matches Some(problem)
            && problem.value() == answer),
{
    lemma_read_sound(text);
    if well_posed(text, answer) {
        let problem = choose|problem: Problem| #[trigger]
            problem.valid() && problem.text() == text && problem.value() == answer;
        lemma_read_complete(problem);
    }
}

/// Reads a text as a problem. The texts of the valid problems are read,
/// each as its problem, and no others.
pub fn parse_problem(text: &str) -> (parsed: Option<Problem>)
    ensures
        parsed == read_problem(text@),
        match parsed {
            Some(problem) => problem.valid() && problem.text() == text@,
            None => forall|q: Problem| #[trigger] q.valid() ==> q.text() != text@,
        },
{
    proof {
        lemma_read_sound(text@);
        assert forall|q: Problem| #[trigger] q.valid() && q.text() == text@ implies read_problem(
            text@,
        ) == Some(q) by {
            lemma_read_complete(q);
        }
    }
    let chars = chars_of(text);
    let a = digits_end(&chars, 0);
    if chars.len() < 3 || a > chars.len() - 3 {
        return None;
    }
    let b = digits_end(&chars, a + 3);
    if b != chars.len() || chars[a] != ' ' || chars[a + 2] != ' ' {
        return None;
    }
    let lhs = match read_number(&chars, 0, a) {
        Some(number) => number,
        None => {
            return None;
        },
    };
    let op = match Operator::from_symbol(chars[a + 1]) {
        Some(op) => op,
        None => {
            return None;
        },
    };
    let rhs = match read_number(&chars, a + 3, b) {
        Some(number) => number,
        None => {
            return None;
        },
    };
    let problem = Problem { op, lhs, rhs };
    if problem.is_valid() {
        Some(problem)
    } else {
        None
    }
}

/// The value of the problem that a text shows; none where the text shows
/// no valid problem.
pub fn evaluate(text: &str) -> (value: Option<i64>)
    ensures
        value == text_value(text@),
        value matches Some(v) ==> well_posed(text@, v as int),
        value is None ==> forall|answer: int| !well_posed(text@, answer),
{
    proof {
        assert forall|answer: int| well_posed(text@, answer) <==> (read_problem(
            text@,
        ) matches Some(problem) && problem.value() == answer) by {
            lemma_well_posed_reads(text@, answer);
        }
    }
    match parse_problem(text) {
        Some(problem) => {
            proof {
                problem.lemma_value_exact();
            }
            Some(problem.answer())
        },
        None => None,
    }
}

} // verus!
