use math_quiz::error::RepoError;
use math_quiz::problem::{evaluate, Operator, Problem};
use math_quiz::service::{parse_end, parse_start, AppState, SubmitAnswerResponse};
use math_quiz::statistic::Statistic;
use math_quiz::test_repo::TestRepo;
use math_quiz::text::{chars_of, parse_date};

fn state_with_answers(answers: &[(i64, bool)]) -> AppState {
    let mut repo = TestRepo::new();
    for (at, correct) in answers {
        let q = repo.insert(Problem { op: Operator::Multiply, lhs: 6, rhs: 7 }, 0).unwrap();
        let answer = if *correct { 42 } else { 24 };
        assert_eq!(repo.answer_question_at(q.get_id(), answer, *at), Ok(*correct));
    }
    AppState::new("Asia/Shanghai".to_string(), repo)
}

#[test]
fn characters_of_a_text() {
    assert_eq!(chars_of(""), Vec::<char>::new());
    assert_eq!(chars_of("450 ÷ 9"), vec!['4', '5', '0', ' ', '÷', ' ', '9']);
}

#[test]
fn dates_written_with_hyphens() {
    assert_eq!(parse_date("2024-01-11"), Some((2024, 1, 11)));
    assert_eq!(parse_date("2024-1-11"), Some((2024, 1, 11)));
    assert_eq!(parse_date("+2024-+1-+11"), Some((2024, 1, 11)));
    assert_eq!(parse_date("0-0-0"), Some((0, 0, 0)));
    assert_eq!(parse_date("2024-13-45"), Some((2024, 13, 45)));
    assert_eq!(parse_date("000002024-0001-0011"), Some((2024, 1, 11)));
    assert_eq!(
        parse_date("2147483647-4294967295-4294967295"),
        Some((i32::MAX, u32::MAX, u32::MAX))
    );
    assert_eq!(
        parse_date("00000000000000000000000000002147483647-1-1"),
        Some((i32::MAX, 1, 1))
    );
}

#[test]
fn texts_that_name_no_date() {
    for text in [
        "",
        "-",
        "--",
        "2024",
        "2024-01",
        "2024-01-",
        "-01-11",
        "2024--11",
        "2024-01-11-",
        "2024-01-11-05",
        "-2024-01-11",
        "2024-01-11 ",
        " 2024-01-11",
        "2024-1a-11",
        "2024-0x1-11",
        "2024-1-+",
        "++2024-1-1",
        "2147483648-1-1",
        "2024-4294967296-1",
        "2024-1-4294967296",
        "99999999999999999999999999-1-1",
        "2024/01/11",
        "２０２４-01-11",
    ] {
        assert_eq!(parse_date(text), None, "{text:?}");
    }
}

#[test]
fn dates_agree_with_the_parsing_of_numbers() {
    let texts =
        ["7-8-9", "+7-08-009", "7-8-", "7--9", "a-8-9", "7-8-9-", "2147483648-1-1", "+-1-1"];
    for text in texts {
        let parts: Vec<&str> = text.split('-').collect();
        let expected = if parts.len() == 3 {
            match (parts[0].parse::<i32>(), parts[1].parse::<u32>(), parts[2].parse::<u32>()) {
                (Ok(y), Ok(m), Ok(d)) => Some((y, m, d)),
                _ => None,
            }
        } else {
            None
        };
        assert_eq!(parse_date(text), expected, "{text:?}");
    }
}

#[test]
fn timestamps_in_the_notation_of_rfc_3339() {
    for parse in [parse_start, parse_end] {
        assert_eq!(parse(None), Ok(None));
        assert_eq!(parse(Some("1970-01-01T00:00:00Z")), Ok(Some(0)));
        assert_eq!(parse(Some("2024-01-10T23:30:00Z")), Ok(Some(1704929400)));
        assert_eq!(parse(Some("2024-01-11T07:30:00+08:00")), Ok(Some(1704929400)));
        assert_eq!(parse(Some("2024-01-10T23:30:00.000Z")), Ok(Some(1704929400)));
        assert_eq!(parse(Some("2024-01-10 23:30:00")), Err(RepoError::InvalidTimestamp));
        assert_eq!(parse(Some("2024-01-10")), Err(RepoError::InvalidTimestamp));
        assert_eq!(parse(Some("2024-02-30T00:00:00Z")), Err(RepoError::InvalidTimestamp));
        assert_eq!(parse(Some("")), Err(RepoError::InvalidTimestamp));
        assert_eq!(parse(Some("1704929400")), Err(RepoError::InvalidTimestamp));
    }
}

#[test]
fn a_fraction_of_a_second_is_rounded_into_the_window() {
    assert_eq!(parse_start(Some("2024-01-10T23:30:00.5Z")), Ok(Some(1704929401)));
    assert_eq!(parse_start(Some("2024-01-10T23:30:00.000000001Z")), Ok(Some(1704929401)));
    assert_eq!(parse_start(Some("2024-01-10T23:30:00.999Z")), Ok(Some(1704929401)));
    assert_eq!(parse_start(Some("1969-12-31T23:59:59.5Z")), Ok(Some(0)));
    assert_eq!(parse_end(Some("2024-01-10T23:30:00.5Z")), Ok(Some(1704929400)));
    assert_eq!(parse_end(Some("2024-01-10T23:30:00.999Z")), Ok(Some(1704929400)));
    assert_eq!(parse_end(Some("1969-12-31T23:59:59.5Z")), Ok(Some(-1)));
    let state = state_with_answers(&[(1704929400, true), (1704929401, false)]);
    assert_eq!(
        state.get_statistics(Some("2024-01-10T23:30:00.5Z"), Some("2024-01-10T23:30:01.5Z")),
        Ok(Statistic { correct: 0, total: 1 })
    );
    assert_eq!(
        state.get_statistics(Some("2024-01-10T23:30:00Z"), Some("2024-01-10T23:30:00.9Z")),
        Ok(Statistic { correct: 1, total: 1 })
    );
    assert_eq!(
        state.get_statistics(Some("2024-01-10T23:30:00.1Z"), Some("2024-01-10T23:30:00.9Z")),
        Ok(Statistic { correct: 0, total: 0 })
    );
}

#[test]
fn a_question_is_sent_out_with_its_identifier_and_text() {
    let mut state = AppState::new("UTC".to_string(), TestRepo::new());
    let first = state.new_question().unwrap();
    assert_eq!(first.id, 1);
    assert!(evaluate(&first.question).is_some());
    let again = state.new_question().unwrap();
    assert_eq!(again.id, 1);
    assert_eq!(again.question, first.question);
    assert_eq!(state.repo.len(), 1);
    assert_eq!(state.timezone, "UTC");
}

#[test]
fn an_answer_is_sent_back_with_its_outcome() {
    let mut state = AppState::new("UTC".to_string(), TestRepo::new());
    let q = state.new_question().unwrap();
    let expected = evaluate(&q.question).unwrap();
    assert_eq!(
        state.submit_answer(q.id, expected + 1),
        Ok(SubmitAnswerResponse { id: q.id, correct: false })
    );
    assert_eq!(
        state.submit_answer(q.id, expected),
        Ok(SubmitAnswerResponse { id: q.id, correct: true })
    );
    assert_eq!(state.submit_answer(q.id + 1, expected), Err(RepoError::NotFound));
    let next = state.new_question().unwrap();
    assert_eq!(next.id, 2);
}

#[test]
fn statistics_of_a_window_given_as_timestamps() {
    let state = state_with_answers(&[
        (1704929399, true),
        (1704929400, true),
        (1704929401, false),
        (1704929500, false),
    ]);
    assert_eq!(
        state.get_statistics(Some("2024-01-10T23:30:00Z"), Some("2024-01-10T23:30:01Z")),
        Ok(Statistic { correct: 1, total: 2 })
    );
    assert_eq!(
        state.get_statistics(Some("2024-01-11T07:30:00+08:00"), Some("2024-01-11T07:31:40+08:00")),
        Ok(Statistic { correct: 1, total: 3 })
    );
    assert_eq!(
        state.get_statistics(Some("2024-01-10T23:30:02Z"), Some("2024-01-10T23:30:02Z")),
        Ok(Statistic { correct: 0, total: 0 })
    );
    assert_eq!(
        state.get_statistics(Some("2024-01-10T23:30:00Z"), None),
        Ok(Statistic { correct: 1, total: 3 })
    );
}

#[test]
fn a_window_without_ends_reaches_a_thousand_days_back_and_up_to_now() {
    let now = chrono::Utc::now().timestamp();
    let state = state_with_answers(&[
        (now - 1001 * 86_400, true),
        (now - 999 * 86_400, true),
        (now - 5, false),
        (now + 1000, true),
    ]);
    assert_eq!(state.get_statistics(None, None), Ok(Statistic { correct: 1, total: 2 }));
    assert_eq!(
        state.get_statistics(None, Some("9999-12-31T23:59:59Z")),
        Ok(Statistic { correct: 2, total: 3 })
    );
    assert_eq!(
        state.get_statistics(Some("1970-01-01T00:00:00Z"), None),
        Ok(Statistic { correct: 2, total: 3 })
    );
}

#[test]
fn a_malformed_timestamp_is_rejected() {
    let state = state_with_answers(&[(1704929400, true)]);
    assert_eq!(
        state.get_statistics(Some("yesterday"), Some("2024-01-10T23:30:01Z")),
        Err(RepoError::InvalidTimestamp)
    );
    assert_eq!(
        state.get_statistics(Some("2024-01-10T23:30:01Z"), Some("tomorrow")),
        Err(RepoError::InvalidTimestamp)
    );
    assert_eq!(state.get_statistics(None, Some("")), Err(RepoError::InvalidTimestamp));
}

#[test]
fn daily_statistics_of_a_date_given_as_text() {
    let state = state_with_answers(&[(1704929400, true), (1704902399, false)]);
    assert_eq!(state.get_daily_statistics("2024-01-11"), Ok(Statistic { correct: 1, total: 1 }));
    assert_eq!(state.get_daily_statistics("2024-1-11"), Ok(Statistic { correct: 1, total: 1 }));
    assert_eq!(state.get_daily_statistics("2024-01-10"), Ok(Statistic { correct: 0, total: 1 }));
    assert_eq!(state.get_daily_statistics("2024-01-12"), Ok(Statistic { correct: 0, total: 0 }));
    assert_eq!(state.get_daily_statistics("2024-04-31"), Err(RepoError::InvalidDate));
    assert_eq!(state.get_daily_statistics("2024-02-30"), Err(RepoError::InvalidDate));
    assert_eq!(state.get_daily_statistics("2024-01"), Err(RepoError::InvalidDate));
    assert_eq!(state.get_daily_statistics("2024-01-11-12"), Err(RepoError::InvalidDate));
    assert_eq!(state.get_daily_statistics("today"), Err(RepoError::InvalidDate));
    assert_eq!(state.get_daily_statistics("2024-x-11"), Err(RepoError::InvalidDate));
}

#[test]
fn daily_statistics_in_a_default_zone_that_does_not_exist() {
    let state = AppState::new("Middle/Earth".to_string(), TestRepo::new());
    assert_eq!(state.get_daily_statistics("2024-01-11"), Err(RepoError::InvalidTimezone));
    assert_eq!(state.get_daily_statistics("2024-01"), Err(RepoError::InvalidDate));
    assert_eq!(state.today_statistics(None), Err(RepoError::InvalidTimezone));
    assert_eq!(state.today_statistics(Some("UTC")), Ok(Statistic { correct: 0, total: 0 }));
    assert_eq!(state.last7_statistics(None).err(), Some(RepoError::InvalidTimezone));
    assert_eq!(state.last30_statistics(None).err(), Some(RepoError::InvalidTimezone));
    assert_eq!(state.last_n_days(0, None).err(), Some(RepoError::InvalidTimezone));
    assert!(state.last7_statistics(Some("UTC")).is_ok());
}

#[test]
fn today_in_the_zone_of_the_request() {
    let now = chrono::Utc::now().timestamp();
    let state = state_with_answers(&[(now - 3 * 86_400, true), (now + 3 * 86_400, false)]);
    assert_eq!(state.today_statistics(None), Ok(Statistic { correct: 0, total: 0 }));
    assert_eq!(
        state.today_statistics(Some("America/New_York")),
        Ok(Statistic { correct: 0, total: 0 })
    );
    assert_eq!(state.today_statistics(Some("Here/There")), Err(RepoError::InvalidTimezone));
}

#[test]
fn the_last_seven_and_the_last_thirty_days() {
    let now = chrono::Utc::now().timestamp();
    let state = state_with_answers(&[
        (now - 40 * 86_400, true),
        (now - 10 * 86_400, true),
        (now - 9 * 86_400, false),
        (now - 2 * 86_400, true),
        (now - 2 * 86_400, false),
    ]);
    let week = state.last7_statistics(None).unwrap();
    assert_eq!(week.scores.len(), 7);
    assert_eq!(week.overall, Statistic { correct: 1, total: 2 });
    assert_eq!(week.scores[4], Statistic { correct: 1, total: 2 });
    let month = state.last30_statistics(Some("UTC")).unwrap();
    assert_eq!(month.scores.len(), 30);
    assert_eq!(month.overall, Statistic { correct: 2, total: 4 });
    let correct: i64 = month.scores.iter().map(|s| s.correct).sum();
    let total: i64 = month.scores.iter().map(|s| s.total).sum();
    assert_eq!((correct, total), (2, 4));
    let none = state.last_n_days(0, None).unwrap();
    assert!(none.scores.is_empty());
    assert_eq!(none.overall, Statistic { correct: 0, total: 0 });
}

#[test]
fn the_mistake_list_names_identifier_and_text() {
    let mut state = AppState::new("UTC".to_string(), TestRepo::new());
    state.repo.insert(Problem { op: Operator::Add, lhs: 1, rhs: 2 }, 0).unwrap();
    state.repo.insert(Problem { op: Operator::Subtract, lhs: 9, rhs: 2 }, 0).unwrap();
    state.repo.insert(Problem { op: Operator::Divide, lhs: 81, rhs: 9 }, 0).unwrap();
    assert!(state.get_mistake_collection().is_empty());
    state.submit_answer(1, 3).unwrap();
    state.submit_answer(2, 8).unwrap();
    state.submit_answer(3, 8).unwrap();
    let list = state.get_mistake_collection();
    assert_eq!(list.len(), 2);
    assert_eq!((list[0].id, list[0].question.as_str()), (2, "9 - 2"));
    assert_eq!((list[1].id, list[1].question.as_str()), (3, "81 ÷ 9"));
}

#[test]
fn every_failure_has_a_message() {
    assert_eq!(RepoError::StorageError.message(), "Storage failure");
    assert_eq!(RepoError::NotFound.message(), "Question not found");
    assert_eq!(RepoError::InvalidDate.message(), "Invalid date");
    assert_eq!(RepoError::InvalidTimezone.message(), "Invalid timezone");
    assert_eq!(RepoError::InvalidTimestamp.message(), "Invalid timestamp");
}
