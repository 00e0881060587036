use chrono::{Datelike, NaiveDate};
use flog::configuration::Configuration;
use flog::log::calendar::Date;
use flog::log::inquires::{
    clear_days, log_days, Answer, Outcome, Session, SessionError, Stage, UserAction,
};
use flog::log::log_buffer::LogBuffer;
use flog::log::{LogElement, Weekday};
use flog::repo::branch_collecting::RepoBranch;

fn date(year: i32, month: u32, day: u32) -> Date {
    let days = NaiveDate::from_ymd_opt(year, month, day).unwrap().num_days_from_ce();
    Date::from_num_days_from_ce(days).unwrap()
}

fn branch(name: &str) -> RepoBranch {
    RepoBranch {
        repo_name: "/repos/a".to_string(),
        branch_name: name.to_string(),
        latest_commit_sec: Some(1),
    }
}

fn rows(logs: &Vec<LogElement>) -> Vec<(String, Option<String>, u8, String)> {
    logs.iter().map(|l| (l.ticket.clone(), l.tag.clone(), l.hours, l.date.to_text())).collect()
}

fn entry(ticket: &str, tag: Option<&str>, hours: u8, date: &str) -> (String, Option<String>, u8, String) {
    (ticket.to_string(), tag.map(|t| t.to_string()), hours, date.to_string())
}

fn ask(session: Session, answer: Answer, expected: Stage) -> Session {
    match session.answer(answer) {
        Ok((next, Outcome::Ask)) => {
            assert_eq!(next.stage(), expected);
            next
        }
        other => panic!("unexpected {:?}", other.map(|(_, o)| o)),
    }
}

fn show(session: Session, answer: Answer, expected: Stage) -> (Session, Vec<LogElement>) {
    match session.answer(answer) {
        Ok((next, Outcome::Show(logs))) => {
            assert_eq!(next.stage(), expected);
            (next, logs)
        }
        other => panic!("unexpected {:?}", other.map(|(_, o)| o)),
    }
}

fn started(untagged: u8) -> Session {
    let session = Session::new();
    assert_eq!(session.stage(), Stage::Week);
    let session = ask(session, Answer::Week(date(2024, 3, 7)), Stage::UntaggedHours);
    let session = ask(session, Answer::UntaggedHours(untagged), Stage::UntaggedTicket);
    ask(session, Answer::Ticket("PROJ-0".to_string()), Stage::Days)
}

#[test]
fn a_whole_session() {
    let config = Configuration::default();
    let session = started(2);
    let session = ask(session, Answer::Days(vec![Weekday::Mon, Weekday::Wed]), Stage::Ticket);
    let session = ask(session, Answer::Ticket("PROJ-1".to_string()), Stage::Branch);
    let session = ask(session, Answer::Branch(branch("feature/X-9/login")), Stage::Tag);
    assert_eq!(session.default_tag(&config), "#CW X-9");
    let (session, shown) = show(session, Answer::Tag("#CW X-9".to_string()), Stage::Action);
    let expected = vec![
        entry("PROJ-1", Some("#CW X-9"), 6, "2024-03-04"),
        entry("PROJ-0", None, 2, "2024-03-04"),
        entry("PROJ-1", Some("#CW X-9"), 6, "2024-03-06"),
        entry("PROJ-0", None, 2, "2024-03-06"),
    ];
    assert_eq!(rows(&shown), expected);
    match session.answer(Answer::Action(UserAction::Done)) {
        Ok((next, Outcome::Finished(logs))) => {
            assert_eq!(next.stage(), Stage::Finished);
            assert_eq!(rows(&logs), expected);
        }
        other => panic!("unexpected {:?}", other.map(|(_, o)| o)),
    }
}

#[test]
fn continue_adding_asks_for_days_again() {
    let session = started(0);
    let session = ask(session, Answer::Days(vec![Weekday::Fri]), Stage::Ticket);
    let session = ask(session, Answer::Ticket("A".to_string()), Stage::Branch);
    let session = ask(session, Answer::Branch(branch("main")), Stage::Tag);
    let (session, _) = show(session, Answer::Tag("one".to_string()), Stage::Action);
    let session = ask(session, Answer::Action(UserAction::ContinueAdding), Stage::Days);
    let session = ask(session, Answer::Days(vec![Weekday::Fri]), Stage::Ticket);
    let session = ask(session, Answer::Ticket("B".to_string()), Stage::Branch);
    let session = ask(session, Answer::Branch(branch("main")), Stage::Tag);
    let (_, shown) = show(session, Answer::Tag("untag".to_string()), Stage::Action);
    assert_eq!(
        rows(&shown),
        vec![entry("A", Some("one"), 4, "2024-03-08"), entry("B", None, 4, "2024-03-08")]
    );
}

#[test]
fn clearing_days_shows_the_log_and_goes_on() {
    let session = started(3);
    let session = ask(session, Answer::Days(vec![Weekday::Mon, Weekday::Tue]), Stage::Ticket);
    let session = ask(session, Answer::Ticket("A".to_string()), Stage::Branch);
    let session = ask(session, Answer::Branch(branch("main")), Stage::Tag);
    let (session, _) = show(session, Answer::Tag("t".to_string()), Stage::Action);
    let session = ask(session, Answer::Action(UserAction::ClearDays), Stage::DaysToClear);
    let (session, shown) = show(session, Answer::Days(vec![Weekday::Mon]), Stage::Days);
    assert_eq!(
        rows(&shown),
        vec![
            entry("PROJ-0", None, 3, "2024-03-04"),
            entry("A", Some("t"), 5, "2024-03-05"),
            entry("PROJ-0", None, 3, "2024-03-05"),
        ]
    );
    assert_eq!(session.question(), "Select days with the same worklog.");
}

#[test]
fn week_starts_on_the_monday_of_the_chosen_day() {
    for day in 4..=10 {
        let session = Session::new();
        let session = ask(session, Answer::Week(date(2024, 3, day)), Stage::UntaggedHours);
        let session = ask(session, Answer::UntaggedHours(8), Stage::UntaggedTicket);
        let session = ask(session, Answer::Ticket("U".to_string()), Stage::Days);
        let session = ask(session, Answer::Days(vec![Weekday::Mon]), Stage::Ticket);
        let session = ask(session, Answer::Ticket("A".to_string()), Stage::Branch);
        let session = ask(session, Answer::Branch(branch("main")), Stage::Tag);
        let (_, shown) = show(session, Answer::Tag("t".to_string()), Stage::Action);
        assert_eq!(
            rows(&shown),
            vec![entry("A", Some("t"), 0, "2024-03-04"), entry("U", None, 8, "2024-03-04")]
        );
    }
}

#[test]
fn too_much_untagged_work_ends_the_session() {
    let session = Session::new();
    let session = ask(session, Answer::Week(date(2024, 3, 7)), Stage::UntaggedHours);
    let session = ask(session, Answer::UntaggedHours(9), Stage::UntaggedTicket);
    match session.answer(Answer::Ticket("P".to_string())) {
        Err(e) => {
            assert_eq!(e, SessionError::TooMuchUntagged);
            assert_eq!(e.message(), "More than 8 hours of untagged time per day");
        }
        Ok(_) => panic!("expected an error"),
    }
}

#[test]
fn answer_to_another_question_ends_the_session() {
    match Session::new().answer(Answer::UntaggedHours(1)) {
        Err(e) => assert_eq!(e, SessionError::UnexpectedAnswer),
        Ok(_) => panic!("expected an error"),
    }
    match started(1).answer(Answer::Ticket("A".to_string())) {
        Err(e) => assert_eq!(e, SessionError::UnexpectedAnswer),
        Ok(_) => panic!("expected an error"),
    }
    match started(1).answer(Answer::Action(UserAction::Done)) {
        Err(e) => assert_eq!(e, SessionError::UnexpectedAnswer),
        Ok(_) => panic!("expected an error"),
    }
}

#[test]
fn week_beyond_the_calendar_ends_the_session() {
    let last = NaiveDate::MAX;
    let last_date = Date::from_num_days_from_ce(last.num_days_from_ce()).unwrap();
    let days_left = 6 - last.weekday().num_days_from_monday();
    let session = Session::new();
    let session = ask(session, Answer::Week(last_date), Stage::UntaggedHours);
    let session = ask(session, Answer::UntaggedHours(1), Stage::UntaggedTicket);
    let session = ask(session, Answer::Ticket("U".to_string()), Stage::Days);
    let session = ask(session, Answer::Days(vec![Weekday::Sun]), Stage::Ticket);
    let session = ask(session, Answer::Ticket("A".to_string()), Stage::Branch);
    let session = ask(session, Answer::Branch(branch("main")), Stage::Tag);
    match session.answer(Answer::Tag("t".to_string())) {
        Err(e) => {
            assert!(days_left > 0);
            assert_eq!(e, SessionError::DateOutOfRange);
            assert_eq!(e.message(), "Date out of range.");
        }
        Ok(_) => assert_eq!(days_left, 0),
    }
}

#[test]
fn week_before_the_calendar_has_no_monday() {
    let first = NaiveDate::MIN;
    let first_date = Date::from_num_days_from_ce(first.num_days_from_ce()).unwrap();
    match Session::new().answer(Answer::Week(first_date)) {
        Err(e) => {
            assert!(first.weekday().num_days_from_monday() > 0);
            assert_eq!(e, SessionError::NoMonday);
            assert_eq!(e.message(), "could not get monday");
        }
        Ok(_) => assert_eq!(first.weekday().num_days_from_monday(), 0),
    }
}

#[test]
fn questions_in_words() {
    let session = Session::new();
    assert_eq!(session.question(), "Select week to log (day of week doesn't matter)");
    let session = ask(session, Answer::Week(date(2024, 3, 7)), Stage::UntaggedHours);
    assert_eq!(session.question(), "How much untagged work per day?");
    let session = ask(session, Answer::UntaggedHours(1), Stage::UntaggedTicket);
    assert_eq!(session.question(), "Which ticket to log untagged work for");
    let session = ask(session, Answer::Ticket("U".to_string()), Stage::Days);
    assert_eq!(session.question(), "Select days with the same worklog.");
    let session = ask(session, Answer::Days(vec![]), Stage::Ticket);
    assert_eq!(session.question(), "Which ticket to log for?");
    let session = ask(session, Answer::Ticket("A".to_string()), Stage::Branch);
    assert_eq!(session.question(), "Which branch to log work on?");
    let session = ask(session, Answer::Branch(branch("main")), Stage::Tag);
    assert_eq!(session.question(), "Override tag name [type `untag` for untagged work]:");
    let (session, shown) = show(session, Answer::Tag("t".to_string()), Stage::Action);
    assert!(shown.is_empty());
    assert_eq!(session.question(), "What to do next?");
}

#[test]
fn same_work_on_several_days() {
    let mut buffer = LogBuffer::new("U".to_string(), 4);
    log_days(
        &mut buffer,
        &vec![Weekday::Tue, Weekday::Mon, Weekday::Tue],
        "A",
        &Some("t".to_string()),
    );
    let monday = date(2024, 3, 4);
    assert_eq!(
        rows(&buffer.to_log_element_vec(&monday)),
        vec![
            entry("A", Some("t"), 4, "2024-03-04"),
            entry("U", None, 4, "2024-03-04"),
            entry("A", Some("t"), 2, "2024-03-05"),
            entry("A", Some("t"), 2, "2024-03-05"),
            entry("U", None, 4, "2024-03-05"),
        ]
    );
    clear_days(&mut buffer, &vec![Weekday::Tue, Weekday::Sat]);
    assert_eq!(
        rows(&buffer.to_log_element_vec(&monday)),
        vec![
            entry("A", Some("t"), 4, "2024-03-04"),
            entry("U", None, 4, "2024-03-04"),
            entry("U", None, 4, "2024-03-05"),
            entry("U", None, 4, "2024-03-09"),
        ]
    );
}
