use chrono::{Datelike, NaiveDate};
use flog::log::calendar::{Date, FIRST_DAY, LAST_DAY};
use flog::log::{days_from_names, weekday_strs, weekdays, LogElement, Weekday};

fn day_number(year: i32, month: u32, day: u32) -> i32 {
    NaiveDate::from_ymd_opt(year, month, day).unwrap().num_days_from_ce()
}

fn date(year: i32, month: u32, day: u32) -> Date {
    Date::from_num_days_from_ce(day_number(year, month, day)).unwrap()
}

#[test]
fn dates_by_day_number() {
    let epoch = Date::from_num_days_from_ce(719_163).unwrap();
    assert_eq!(epoch.num_days_from_ce(), 719_163);
    assert_eq!(epoch.to_text(), "1970-01-01");
    assert_eq!(Date::from_num_days_from_ce(730_000).unwrap().to_text(), "1999-09-03");
    assert_eq!(Date::from_num_days_from_ce(1).unwrap().to_text(), "0001-01-01");
    assert_eq!(Date::from_num_days_from_ce(0).unwrap().to_text(), "0000-12-31");
    assert!(Date::from_num_days_from_ce(100_000_000).is_none());
    assert!(Date::from_num_days_from_ce(-100_000_000).is_none());
    assert!(Date::from_num_days_from_ce(i32::MAX).is_none());
    assert!(Date::from_num_days_from_ce(i32::MIN).is_none());
}

#[test]
fn dates_at_the_ends_of_the_calendar() {
    let last = NaiveDate::MAX.num_days_from_ce();
    let first = NaiveDate::MIN.num_days_from_ce();
    assert!(Date::from_num_days_from_ce(last).is_some());
    assert!(Date::from_num_days_from_ce(last + 1).is_none());
    assert!(Date::from_num_days_from_ce(first).is_some());
    assert!(Date::from_num_days_from_ce(first - 1).is_none());
    let end = Date::from_num_days_from_ce(last).unwrap();
    assert!(end.checked_add_days(1).is_none());
    assert_eq!(end.checked_add_days(0).unwrap().num_days_from_ce(), last);
    let begin = Date::from_num_days_from_ce(first).unwrap();
    assert!(begin.checked_sub_days(1).is_none());
    assert_eq!(begin.checked_add_days(1).unwrap().num_days_from_ce(), first + 1);
}

#[test]
fn text_of_dates() {
    assert_eq!(date(2015, 9, 5).to_text(), "2015-09-05");
    assert_eq!(date(9999, 12, 31).to_text(), "9999-12-31");
    assert_eq!(date(-1, 1, 1).to_text(), "-0001-01-01");
    assert_eq!(date(10000, 12, 31).to_text(), "+10000-12-31");
}

#[test]
fn weekday_of_dates() {
    assert_eq!(date(1970, 1, 1).weekday(), Weekday::Thu);
    assert_eq!(date(2024, 1, 1).weekday(), Weekday::Mon);
    assert_eq!(date(2024, 1, 7).weekday(), Weekday::Sun);
    assert_eq!(date(2024, 2, 29).weekday(), Weekday::Thu);
    assert_eq!(Date::from_num_days_from_ce(1).unwrap().weekday(), Weekday::Mon);
    assert_eq!(Date::from_num_days_from_ce(0).unwrap().weekday(), Weekday::Sun);
}

#[test]
fn adding_and_taking_days() {
    let d = date(2022, 2, 20);
    assert_eq!(d.checked_add_days(9).unwrap().to_text(), "2022-03-01");
    assert_eq!(d.checked_sub_days(6).unwrap().to_text(), "2022-02-14");
    assert_eq!(d.checked_add_days(0).unwrap().num_days_from_ce(), d.num_days_from_ce());
    assert!(d.checked_add_days(1_000_000_000_000).is_none());
    assert!(d.checked_sub_days(1_000_000_000_000).is_none());
    assert!(d.checked_add_days(u64::MAX).is_none());
    assert_eq!(date(2022, 7, 31).checked_add_days(2).unwrap().to_text(), "2022-08-02");
}

#[test]
fn monday_of_each_day_of_a_week() {
    let monday = day_number(2024, 3, 4);
    for offset in 0..7 {
        let day = Date::from_num_days_from_ce(monday + offset).unwrap();
        let found = day.monday_of_week().unwrap();
        assert_eq!(found.num_days_from_ce(), monday);
        assert_eq!(found.weekday(), Weekday::Mon);
    }
    let sunday_before = Date::from_num_days_from_ce(monday - 1).unwrap();
    assert_eq!(sunday_before.monday_of_week().unwrap().num_days_from_ce(), monday - 7);
    assert_eq!(date(1970, 1, 1).monday_of_week().unwrap().to_text(), "1969-12-29");
}

#[test]
fn first_week_of_the_calendar_may_have_no_monday() {
    let first = NaiveDate::MIN;
    let back = first.weekday().num_days_from_monday();
    let begin = Date::from_num_days_from_ce(first.num_days_from_ce()).unwrap();
    assert_eq!(begin.monday_of_week().is_some(), back == 0);
}

#[test]
fn weekdays_and_their_names() {
    let days = weekdays();
    assert_eq!(
        days,
        vec![
            Weekday::Mon,
            Weekday::Tue,
            Weekday::Wed,
            Weekday::Thu,
            Weekday::Fri,
            Weekday::Sat,
            Weekday::Sun
        ]
    );
    assert_eq!(weekday_strs(), vec!["Mon", "Tue", "Wed", "Thu", "Fri", "Sat", "Sun"]);
    for (i, day) in days.iter().enumerate() {
        assert_eq!(day.num_days_from_monday() as usize, i);
        assert_eq!(Weekday::from_index(i as u8), *day);
        assert_eq!(Weekday::from_name(&day.name().to_string()), Some(*day));
    }
    let by_chrono: Vec<String> = [
        chrono::Weekday::Mon,
        chrono::Weekday::Tue,
        chrono::Weekday::Wed,
        chrono::Weekday::Thu,
        chrono::Weekday::Fri,
        chrono::Weekday::Sat,
        chrono::Weekday::Sun,
    ]
    .iter()
    .map(|w| w.to_string())
    .collect();
    assert_eq!(weekday_strs(), by_chrono);
}

#[test]
fn names_that_are_no_days() {
    assert_eq!(Weekday::from_name(&"mon".to_string()), None);
    assert_eq!(Weekday::from_name(&"Monday".to_string()), None);
    assert_eq!(Weekday::from_name(&"".to_string()), None);
}

#[test]
fn days_from_chosen_names() {
    let names = vec!["Wed".to_string(), "Mon".to_string(), "Wed".to_string()];
    assert_eq!(days_from_names(&names), Some(vec![Weekday::Wed, Weekday::Mon, Weekday::Wed]));
    assert_eq!(days_from_names(&vec![]), Some(vec![]));
    let bad = vec!["Mon".to_string(), "Someday".to_string(), "Tue".to_string()];
    assert_eq!(days_from_names(&bad), None);
}

#[test]
fn serializable_element_has_its_date_as_text() {
    let element = LogElement {
        ticket: "PROJ-1".to_string(),
        tag: Some("#CW X".to_string()),
        hours: 6,
        date: date(2024, 3, 4),
    };
    let s = element.to_serializable();
    assert_eq!(s.ticket, "PROJ-1");
    assert_eq!(s.tag, Some("#CW X".to_string()));
    assert_eq!(s.hours, 6);
    assert_eq!(s.date, "2024-03-04");
    let untagged =
        LogElement { ticket: "P".to_string(), tag: None, hours: 0, date: date(1999, 9, 3) };
    let s = untagged.to_serializable();
    assert_eq!(s.tag, None);
    assert_eq!(s.hours, 0);
    assert_eq!(s.date, "1999-09-03");
}

#[test]
fn first_and_last_day_of_the_calendar() {
    assert_eq!(FIRST_DAY, NaiveDate::MIN.num_days_from_ce());
    assert_eq!(LAST_DAY, NaiveDate::MAX.num_days_from_ce());
    assert_eq!(FIRST_DAY, -95_746_129);
    assert_eq!(LAST_DAY, 95_745_399);
    assert_eq!(Date::from_num_days_from_ce(FIRST_DAY).unwrap().to_text(), "-262143-01-01");
    assert_eq!(Date::from_num_days_from_ce(LAST_DAY).unwrap().to_text(), "+262142-12-31");
}

#[test]
fn day_of_the_week_follows_the_day_number() {
    let spans = [(FIRST_DAY, FIRST_DAY + 3000), (-3000, 3000), (700_000, 760_000), (LAST_DAY - 3000, LAST_DAY)];
    for (from, to) in spans {
        for days in from..=to {
            let by_chrono =
                NaiveDate::from_num_days_from_ce_opt(days).unwrap().weekday().num_days_from_monday();
            assert_eq!((days - 1).rem_euclid(7) as u32, by_chrono);
            assert_eq!(
                Date::from_num_days_from_ce(days).unwrap().weekday().num_days_from_monday(),
                by_chrono
            );
        }
    }
}

#[test]
fn monday_at_the_first_week_of_the_calendar() {
    let first = Date::from_num_days_from_ce(FIRST_DAY).unwrap();
    let back = (FIRST_DAY - 1).rem_euclid(7);
    assert_eq!(first.monday_of_week().is_some(), back == 0);
    let later = Date::from_num_days_from_ce(FIRST_DAY + 7).unwrap();
    let monday = later.monday_of_week().unwrap();
    assert_eq!(monday.weekday(), Weekday::Mon);
    assert!(monday.num_days_from_ce() <= FIRST_DAY + 7);
    assert!(FIRST_DAY + 7 < monday.num_days_from_ce() + 7);
}
