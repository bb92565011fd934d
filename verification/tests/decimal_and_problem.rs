use math_quiz::decimal::{push_decimal, render_decimal};
use math_quiz::problem::{
    evaluate, generate_problem, generate_question, parse_problem, Operator, Problem, Tier,
};

#[test]
fn decimal_of_zero_and_small_numbers() {
    assert_eq!(render_decimal(0), "0");
    assert_eq!(render_decimal(7), "7");
    assert_eq!(render_decimal(10), "10");
    assert_eq!(render_decimal(1000), "1000");
    assert_eq!(render_decimal(-5), "-5");
    assert_eq!(render_decimal(-120), "-120");
}

#[test]
fn decimal_of_the_extremes() {
    assert_eq!(render_decimal(i64::MAX), "9223372036854775807");
    assert_eq!(render_decimal(i64::MIN), "-9223372036854775808");
}

#[test]
fn push_decimal_appends() {
    let mut s = String::from("n = ");
    push_decimal(&mut s, 18446744073709551615);
    assert_eq!(s, "n = 18446744073709551615");
}

#[test]
fn slots_weight_the_operators() {
    let large = Tier::Large;
    assert_eq!(large.slot_count(), 7);
    assert_eq!(large.operator(0), Operator::Add);
    assert_eq!(large.operator(1), Operator::Add);
    assert_eq!(large.operator(2), Operator::Subtract);
    assert_eq!(large.operator(3), Operator::Subtract);
    assert_eq!(large.operator(4), Operator::Multiply);
    assert_eq!(large.operator(5), Operator::Multiply);
    assert_eq!(large.operator(6), Operator::Divide);
    let small = Tier::Small;
    assert_eq!(small.slot_count(), 4);
    assert_eq!(small.operator(0), Operator::Add);
    assert_eq!(small.operator(1), Operator::Subtract);
    assert_eq!(small.operator(2), Operator::Multiply);
    assert_eq!(small.operator(3), Operator::Divide);
}

#[test]
fn draw_ranges_of_the_operators() {
    assert_eq!(Tier::Large.draw_ranges(Operator::Add), ((2, 1000), (2, 1000)));
    assert_eq!(Tier::Large.draw_ranges(Operator::Subtract), ((2, 1000), (2, 1000)));
    assert_eq!(Tier::Large.draw_ranges(Operator::Multiply), ((2, 100), (2, 100)));
    assert_eq!(Tier::Large.draw_ranges(Operator::Divide), ((9, 50), (9, 50)));
    assert_eq!(Tier::Large.greatest_dividend(), 2500);
    assert_eq!(Tier::Small.draw_ranges(Operator::Add), ((2, 100), (2, 100)));
    assert_eq!(Tier::Small.draw_ranges(Operator::Subtract), ((2, 100), (2, 100)));
    assert_eq!(Tier::Small.draw_ranges(Operator::Multiply), ((2, 100), (3, 30)));
    assert_eq!(Tier::Small.draw_ranges(Operator::Divide), ((3, 30), (3, 30)));
    assert_eq!(Tier::Small.greatest_dividend(), 100);
}

#[test]
fn sum_of_two_draws() {
    let p = Problem::from_draws(Tier::Large, Operator::Add, 12, 7).unwrap();
    assert_eq!(p, Problem { op: Operator::Add, lhs: 12, rhs: 7 });
    assert_eq!(p.render(), "12 + 7");
    assert_eq!(p.answer(), 19);
    assert_eq!(Problem::from_draws(Tier::Small, Operator::Add, 12, 7), Some(p));
}

#[test]
fn difference_puts_the_greater_first() {
    let p = Problem::from_draws(Tier::Large, Operator::Subtract, 3, 700).unwrap();
    assert_eq!(p.render(), "700 - 3");
    assert_eq!(p.answer(), 697);
    let q = Problem::from_draws(Tier::Large, Operator::Subtract, 700, 3).unwrap();
    assert_eq!(q.render(), "700 - 3");
    let r = Problem::from_draws(Tier::Large, Operator::Subtract, 5, 5).unwrap();
    assert_eq!(r.render(), "5 - 5");
    assert_eq!(r.answer(), 0);
}

#[test]
fn a_difference_below_zero_is_rejected_in_the_small_tier() {
    assert_eq!(Problem::from_draws(Tier::Small, Operator::Subtract, 3, 70), None);
    assert_eq!(Problem::from_draws(Tier::Small, Operator::Subtract, 99, 100), None);
    let p = Problem::from_draws(Tier::Small, Operator::Subtract, 70, 3).unwrap();
    assert_eq!(p.render(), "70 - 3");
    assert_eq!(p.answer(), 67);
    let q = Problem::from_draws(Tier::Small, Operator::Subtract, 70, 70).unwrap();
    assert_eq!(q.answer(), 0);
}

#[test]
fn product_of_two_draws() {
    let p = Problem::from_draws(Tier::Large, Operator::Multiply, 100, 100).unwrap();
    assert_eq!(p.render(), "100 x 100");
    assert_eq!(p.answer(), 10000);
    let q = Problem::from_draws(Tier::Small, Operator::Multiply, 100, 30).unwrap();
    assert_eq!(q.render(), "100 x 30");
    assert_eq!(q.answer(), 3000);
}

#[test]
fn division_is_built_backwards() {
    let p = Problem::from_draws(Tier::Large, Operator::Divide, 9, 50).unwrap();
    assert_eq!(p, Problem { op: Operator::Divide, lhs: 450, rhs: 9 });
    assert_eq!(p.render(), "450 ÷ 9");
    assert_eq!(p.answer(), 50);
    let greatest = Problem::from_draws(Tier::Large, Operator::Divide, 50, 50).unwrap();
    assert_eq!(greatest.render(), "2500 ÷ 50");
    let q = Problem::from_draws(Tier::Small, Operator::Divide, 4, 25).unwrap();
    assert_eq!(q.render(), "100 ÷ 4");
    assert_eq!(q.answer(), 25);
}

#[test]
fn a_dividend_above_the_bound_is_rejected() {
    assert_eq!(Problem::from_draws(Tier::Small, Operator::Divide, 4, 26), None);
    assert_eq!(Problem::from_draws(Tier::Small, Operator::Divide, 30, 30), None);
    assert_eq!(Problem::from_draws(Tier::Small, Operator::Divide, 11, 10), None);
    assert!(Problem::from_draws(Tier::Small, Operator::Divide, 10, 10).is_some());
}

#[test]
fn rejected_draws_are_repaired() {
    let p = Problem::repair(Tier::Small, Operator::Subtract, 3, 70);
    assert_eq!(p, Problem { op: Operator::Subtract, lhs: 70, rhs: 3 });
    let q = Problem::repair(Tier::Small, Operator::Divide, 30, 30);
    assert_eq!(q, Problem { op: Operator::Divide, lhs: 90, rhs: 30 });
    assert_eq!(q.render(), "90 ÷ 30");
    assert_eq!(q.answer(), 3);
    let r = Problem::repair(Tier::Small, Operator::Divide, 4, 26);
    assert_eq!(r, Problem { op: Operator::Divide, lhs: 12, rhs: 4 });
}

#[test]
fn the_generator_draws_problems_of_its_tier() {
    let mut rng = rand::thread_rng();
    for _ in 0..3000 {
        let p = generate_problem(&mut rng, Tier::Small);
        match p.op {
            Operator::Add => {
                assert!((2..=100).contains(&p.lhs) && (2..=100).contains(&p.rhs));
            }
            Operator::Subtract => {
                assert!((2..=100).contains(&p.lhs) && (2..=100).contains(&p.rhs));
                assert!(p.lhs >= p.rhs);
            }
            Operator::Multiply => {
                assert!((2..=100).contains(&p.lhs) && (3..=30).contains(&p.rhs));
            }
            Operator::Divide => {
                assert!((3..=30).contains(&p.rhs) && p.lhs <= 100);
                assert_eq!(p.lhs % p.rhs, 0);
                assert!((3..=30).contains(&(p.lhs / p.rhs)));
            }
        }
        assert!(p.is_valid());
        let (text, answer) = generate_question(&mut rng, Tier::Small);
        assert_eq!(evaluate(&text), Some(answer));
        assert!(answer >= 0);
    }
}

#[test]
fn signs_and_operators() {
    assert_eq!(Operator::from_symbol('+'), Some(Operator::Add));
    assert_eq!(Operator::from_symbol('-'), Some(Operator::Subtract));
    assert_eq!(Operator::from_symbol('x'), Some(Operator::Multiply));
    assert_eq!(Operator::from_symbol('÷'), Some(Operator::Divide));
    assert_eq!(Operator::from_symbol('*'), None);
    assert_eq!(Operator::from_symbol('/'), None);
    assert_eq!(Operator::Add.infix_text(), " + ");
    assert_eq!(Operator::Divide.infix_text(), " ÷ ");
}

#[test]
fn validity_of_problems() {
    assert!(Problem { op: Operator::Add, lhs: 0, rhs: 0 }.is_valid());
    assert!(!Problem { op: Operator::Add, lhs: -1, rhs: 3 }.is_valid());
    assert!(!Problem { op: Operator::Add, lhs: i64::MAX, rhs: 1 }.is_valid());
    assert!(Problem { op: Operator::Subtract, lhs: 3, rhs: 3 }.is_valid());
    assert!(!Problem { op: Operator::Subtract, lhs: 3, rhs: 4 }.is_valid());
    assert!(!Problem { op: Operator::Multiply, lhs: i64::MAX, rhs: 2 }.is_valid());
    assert!(Problem { op: Operator::Divide, lhs: 12, rhs: 4 }.is_valid());
    assert!(!Problem { op: Operator::Divide, lhs: 13, rhs: 4 }.is_valid());
    assert!(!Problem { op: Operator::Divide, lhs: 13, rhs: 0 }.is_valid());
}

#[test]
fn a_text_is_read_as_its_problem() {
    assert_eq!(parse_problem("12 + 7"), Some(Problem { op: Operator::Add, lhs: 12, rhs: 7 }));
    assert_eq!(parse_problem("7 - 7"), Some(Problem { op: Operator::Subtract, lhs: 7, rhs: 7 }));
    assert_eq!(parse_problem("3 x 0"), Some(Problem { op: Operator::Multiply, lhs: 3, rhs: 0 }));
    assert_eq!(
        parse_problem("2500 ÷ 50"),
        Some(Problem { op: Operator::Divide, lhs: 2500, rhs: 50 })
    );
}

#[test]
fn texts_that_show_no_valid_problem() {
    for text in [
        "",
        " ",
        "12",
        "12 +",
        "12 + ",
        " + 7",
        "12+7",
        "12 + 7 ",
        " 12 + 7",
        "12  + 7",
        "12 * 7",
        "12 / 7",
        "012 + 7",
        "12 + 07",
        "-1 + 7",
        "1 + -7",
        "3 - 7",
        "7 ÷ 2",
        "7 ÷ 0",
        "9223372036854775807 + 1",
        "9223372036854775808 + 1",
        "9223372036854775807 x 2",
        "12 + 7 = 19",
        "１２ + ７",
    ] {
        assert_eq!(parse_problem(text), None, "{text:?}");
        assert_eq!(evaluate(text), None, "{text:?}");
    }
}

#[test]
fn evaluate_gives_the_value() {
    assert_eq!(evaluate("12 + 7"), Some(19));
    assert_eq!(evaluate("1000 - 2"), Some(998));
    assert_eq!(evaluate("100 x 100"), Some(10000));
    assert_eq!(evaluate("450 ÷ 9"), Some(50));
    assert_eq!(evaluate("0 ÷ 9"), Some(0));
    assert_eq!(evaluate("9223372036854775806 + 1"), Some(i64::MAX));
}

#[test]
fn rendering_and_reading_are_inverse() {
    for tier in [Tier::Small, Tier::Large] {
        for op in [Operator::Add, Operator::Subtract, Operator::Multiply, Operator::Divide] {
            let ((low, high), (least, greatest)) = tier.draw_ranges(op);
            for first in [low, low + 1, (low + high) / 2, high - 1, high] {
                for second in [least, least + 3, greatest] {
                    let p = match Problem::from_draws(tier, op, first, second) {
                        Some(p) => p,
                        None => Problem::repair(tier, op, first, second),
                    };
                    assert!(p.is_valid());
                    assert_eq!(parse_problem(&p.render()), Some(p));
                    assert_eq!(evaluate(&p.render()), Some(p.answer()));
                }
            }
        }
    }
}
