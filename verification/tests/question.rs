use math_quiz::problem::{evaluate, parse_problem, Operator, Tier};
use math_quiz::question::Question;
use math_quiz::statistic::Statistic;

#[test]
fn from_question_keeps_its_values() {
    let q = Question::from_question(7, "12 + 7".to_string(), 19, None);
    assert_eq!(q.get_id(), 7);
    assert_eq!(q.get_question(), "12 + 7");
    assert_eq!(q.get_expected_answer(), 19);
    assert_eq!(q.get_answer(), None);
    let a = Question::from_question(8, "2 x 3".to_string(), 6, Some(5));
    assert_eq!(a.get_answer(), Some(5));
}

#[test]
fn a_new_question_is_open_and_has_no_identifier() {
    let q = Question::new();
    assert_eq!(q.get_id(), 0);
    assert_eq!(q.get_answer(), None);
    assert!(!q.can_submit());
}

#[test]
fn evaluating_a_generated_expression_gives_the_expected_answer() {
    for _ in 0..2000 {
        let q = Question::new();
        assert_eq!(evaluate(&q.get_question()), Some(q.get_expected_answer()));
        assert!(q.get_expected_answer() >= 0);
    }
}

#[test]
fn generated_problems_lie_in_the_tier() {
    let mut seen = [false; 4];
    for _ in 0..4000 {
        let q = Question::new();
        let p = parse_problem(&q.get_question()).expect("a problem");
        match p.op {
            Operator::Add => {
                seen[0] = true;
                assert!((2..=1000).contains(&p.lhs) && (2..=1000).contains(&p.rhs));
                assert_eq!(q.get_expected_answer(), p.lhs + p.rhs);
            }
            Operator::Subtract => {
                seen[1] = true;
                assert!((2..=1000).contains(&p.lhs) && (2..=1000).contains(&p.rhs));
                assert!(p.lhs >= p.rhs);
                assert_eq!(q.get_expected_answer(), p.lhs - p.rhs);
            }
            Operator::Multiply => {
                seen[2] = true;
                assert!((2..=100).contains(&p.lhs) && (2..=100).contains(&p.rhs));
                assert_eq!(q.get_expected_answer(), p.lhs * p.rhs);
            }
            Operator::Divide => {
                seen[3] = true;
                assert!((9..=50).contains(&p.rhs));
                assert_eq!(p.lhs % p.rhs, 0);
                assert!((9..=50).contains(&(p.lhs / p.rhs)));
                assert_eq!(q.get_expected_answer() * p.rhs, p.lhs);
            }
        }
    }
    assert_eq!(seen, [true; 4]);
}

#[test]
fn questions_of_the_small_tier() {
    let mut seen = [false; 4];
    for _ in 0..4000 {
        let q = Question::new_in(Tier::Small);
        assert_eq!(q.get_id(), 0);
        assert_eq!(q.get_answer(), None);
        assert_eq!(evaluate(&q.get_question()), Some(q.get_expected_answer()));
        let p = parse_problem(&q.get_question()).expect("a problem");
        match p.op {
            Operator::Add => {
                seen[0] = true;
                assert!((2..=100).contains(&p.lhs) && (2..=100).contains(&p.rhs));
            }
            Operator::Subtract => {
                seen[1] = true;
                assert!((2..=100).contains(&p.lhs) && (2..=100).contains(&p.rhs));
                assert!(p.lhs >= p.rhs);
            }
            Operator::Multiply => {
                seen[2] = true;
                assert!((2..=100).contains(&p.lhs) && (3..=30).contains(&p.rhs));
            }
            Operator::Divide => {
                seen[3] = true;
                assert!((3..=30).contains(&p.rhs) && p.lhs <= 100);
                assert!((3..=30).contains(&(p.lhs / p.rhs)));
                assert_eq!(q.get_expected_answer() * p.rhs, p.lhs);
            }
        }
    }
    assert_eq!(seen, [true; 4]);
}

#[test]
fn generated_questions_differ() {
    let first = Question::new().get_question();
    let mut other = false;
    for _ in 0..200 {
        if Question::new().get_question() != first {
            other = true;
        }
    }
    assert!(other);
}

#[test]
fn input_is_shown_in_decimal() {
    assert_eq!(Question::from_question(1, "1 + 1".to_string(), 2, None).get_input(), "");
    assert_eq!(Question::from_question(1, "1 + 1".to_string(), 2, Some(0)).get_input(), "0");
    assert_eq!(Question::from_question(1, "1 + 1".to_string(), 2, Some(42)).get_input(), "42");
    assert_eq!(Question::from_question(1, "1 + 1".to_string(), 2, Some(-42)).get_input(), "-42");
}

#[test]
fn a_question_is_shown_with_its_input() {
    assert_eq!(Question::from_question(1, "12 + 7".to_string(), 19, None).to_text(), "12 + 7 = ");
    assert_eq!(
        Question::from_question(1, "12 + 7".to_string(), 19, Some(19)).to_text(),
        "12 + 7 = 19"
    );
    assert_eq!(
        Question::from_question(1, "450 ÷ 9".to_string(), 50, Some(5)).to_text(),
        "450 ÷ 9 = 5"
    );
}

#[test]
fn typing_digits_builds_the_answer() {
    let mut q = Question::from_question(1, "12 + 7".to_string(), 19, None);
    assert!(!q.can_submit());
    assert!(!q.check_answer());
    q.input_digit(1);
    assert_eq!(q.get_answer(), Some(1));
    assert!(q.can_submit());
    assert!(!q.check_answer());
    q.input_digit(9);
    assert_eq!(q.get_answer(), Some(19));
    assert!(q.check_answer());
    q.input_digit(0);
    assert_eq!(q.get_answer(), Some(190));
    assert!(!q.check_answer());
    assert_eq!(q.get_id(), 1);
    assert_eq!(q.get_question(), "12 + 7");
    assert_eq!(q.get_expected_answer(), 19);
}

#[test]
fn typing_zero_first_is_an_answer_of_zero() {
    let mut q = Question::from_question(1, "5 - 5".to_string(), 0, None);
    q.input_digit(0);
    assert_eq!(q.get_answer(), Some(0));
    assert!(q.can_submit());
    assert!(q.check_answer());
}

#[test]
fn backspace_takes_the_last_digit() {
    let mut q = Question::from_question(1, "12 + 7".to_string(), 19, Some(190));
    q.backspace();
    assert_eq!(q.get_answer(), Some(19));
    q.backspace();
    assert_eq!(q.get_answer(), Some(1));
    q.backspace();
    assert_eq!(q.get_answer(), None);
    q.backspace();
    assert_eq!(q.get_answer(), None);
    assert!(!q.can_submit());
}

#[test]
fn backspace_rounds_toward_zero() {
    let mut q = Question::from_question(1, "12 + 7".to_string(), 19, Some(-19));
    q.backspace();
    assert_eq!(q.get_answer(), Some(-1));
    q.backspace();
    assert_eq!(q.get_answer(), None);
    let mut least = Question::from_question(1, "12 + 7".to_string(), 19, Some(i64::MIN));
    least.backspace();
    assert_eq!(least.get_answer(), Some(-922337203685477580));
}

#[test]
fn a_statistic_counts_answers() {
    let mut s = Statistic::new();
    assert_eq!(s, Statistic { correct: 0, total: 0 });
    assert_eq!(s.get_accuracy_percent(), 0);
    s.update(true);
    assert_eq!(s, Statistic { correct: 1, total: 1 });
    assert_eq!(s.get_accuracy_percent(), 100);
    s.update(false);
    assert_eq!(s, Statistic { correct: 1, total: 2 });
    assert_eq!(s.get_accuracy_percent(), 50);
    s.update(false);
    assert_eq!(s, Statistic { correct: 1, total: 3 });
    assert_eq!(s.get_accuracy_percent(), 33);
}

#[test]
fn accuracy_of_great_counts() {
    let s = Statistic { correct: i64::MAX - 1, total: i64::MAX };
    assert_eq!(s.get_accuracy_percent(), 99);
    let all = Statistic { correct: i64::MAX, total: i64::MAX };
    assert_eq!(all.get_accuracy_percent(), 100);
}
