//! Days of the calendar.
//!
//! A [`Date`] holds the number of its day in the proleptic Gregorian
//! calendar, January 1 of the year 1 being day 1. Which numbers are dates,
//! what day of the week a date is, which date is some days off and how a
//! date is written is asked of `chrono`; the contracts of those calls are
//! believed, not proved.

use crate::log::Weekday;
use chrono::{Datelike, Days, NaiveDate};
use vstd::prelude::*;

verus! {

/// The number of the first day that `chrono` has a date for: January 1 of
/// the year -262143.
pub const FIRST_DAY: i32 = -95_746_129;

/// The number of the last day that `chrono` has a date for: December 31 of
/// the year 262142.
pub const LAST_DAY: i32 = 95_745_399;

/// Whether there is a date with this day number.
pub open spec fn spec_date_exists(days: int) -> bool {
    FIRST_DAY <= days <= LAST_DAY
}

/// How many days after a Monday the day with this number is. Day 1 is a
/// Monday.
pub open spec fn spec_days_from_monday(days: int) -> int {
    (days - 1) % 7
}

/// How `chrono` writes the date with this day number.
pub uninterp spec fn spec_date_text(days: int) -> Seq<char>;

/// Calls `NaiveDate::from_num_days_from_ce_opt` and says whether it gave a
/// date. Believed: it gives one exactly for the days from `NaiveDate::MIN`
/// to `NaiveDate::MAX`, the first day of its least year and the last day
/// of its greatest, whose numbers are `FIRST_DAY` and `LAST_DAY`.
#[verifier::external_body]
fn chrono_has_date(days: i32) -> (r: bool)
    ensures
        r == spec_date_exists(days as int),
{
    NaiveDate::from_num_days_from_ce_opt(days).is_some()
}

/// Calls `Datelike::weekday` on the date with the day number and hands the
/// day of the week out as `Weekday::num_days_from_monday` counts it, from
/// 0 for Monday to 6 for Sunday. Believed: day 1, January 1 of the year 1,
/// is a Monday, and each day is the day of the week after that of the day
/// before.
#[verifier::external_body]
fn chrono_days_from_monday(days: i32) -> (r: u8)
    requires
        spec_date_exists(days as int),
    ensures
        r as int == spec_days_from_monday(days as int),
        r < 7,
{
    NaiveDate::from_num_days_from_ce_opt(days).unwrap().weekday().num_days_from_monday() as u8
}

/// Calls `NaiveDate::checked_add_days` on the date with the day number and
/// hands out the day number of the result. Believed: the result is the
/// date whose day number is greater by `n`, and it is `None` exactly where
/// `NaiveDate::from_num_days_from_ce_opt` has no date for that number.
#[verifier::external_body]
fn chrono_add_days(days: i32, n: u64) -> (r: Option<i32>)
    requires
        spec_date_exists(days as int),
    ensures
        r.is_some() == spec_date_exists(days + n),
        r.is_some() ==> r.unwrap() == days + n,
{
    NaiveDate::from_num_days_from_ce_opt(days).unwrap().checked_add_days(Days::new(n)).map(
        |d| d.num_days_from_ce(),
    )
}

/// Calls `NaiveDate::checked_sub_days` on the date with the day number and
/// hands out the day number of the result. Believed: the result is the
/// date whose day number is less by `n`, and it is `None` exactly where
/// `NaiveDate::from_num_days_from_ce_opt` has no date for that number.
#[verifier::external_body]
fn chrono_sub_days(days: i32, n: u64) -> (r: Option<i32>)
    requires
        spec_date_exists(days as int),
    ensures
        r.is_some() == spec_date_exists(days - n),
        r.is_some() ==> r.unwrap() == days - n,
{
    NaiveDate::from_num_days_from_ce_opt(days).unwrap().checked_sub_days(Days::new(n)).map(
        |d| d.num_days_from_ce(),
    )
}

/// Calls `to_string` on the date with the day number, which writes it as
/// `Display` of `NaiveDate` does. Believed: the text depends on the date
/// alone; it is given a name and nothing more is said of it.
#[verifier::external_body]
fn chrono_date_text(days: i32) -> (r: String)
    requires
        spec_date_exists(days as int),
    ensures
        r@ == spec_date_text(days as int),
{
    NaiveDate::from_num_days_from_ce_opt(days).unwrap().to_string()
}

/// A day of the calendar.
#[derive(Debug, Clone, Copy)]
pub struct Date {
    days_from_ce: i32,
}

impl View for Date {
    type V = int;

    /// The number of the day.
    closed spec fn view(&self) -> int {
        self.days_from_ce as int
    }
}

impl Date {
    #[verifier::type_invariant]
    spec fn on_calendar(self) -> bool {
        spec_date_exists(self.days_from_ce as int)
    }

    /// The date with the given day number, where there is one.
    pub fn from_num_days_from_ce(days: i32) -> (r: Option<Date>)
        ensures
            r.is_some() == spec_date_exists(days as int),
            r.is_some() ==> r.unwrap()@ == days,
    {
        if chrono_has_date(days) {
            Some(Date { days_from_ce: days })
        } else {
            None
        }
    }

    /// The number of the day, which is that of a date of the calendar.
    pub fn num_days_from_ce(&self) -> (days: i32)
        ensures
            days == self@,
            spec_date_exists(self@),
    {
        proof {
            use_type_invariant(self);
        }
        self.days_from_ce
    }

    /// The day of the week.
    pub fn weekday(&self) -> (w: Weekday)
        ensures
            w.spec_index() == spec_days_from_monday(self@),
    {
        proof {
            use_type_invariant(self);
        }
        Weekday::from_index(chrono_days_from_monday(self.days_from_ce))
    }

    /// The date `n` days later, where there is one.
    pub fn checked_add_days(&self, n: u64) -> (r: Option<Date>)
        ensures
            r.is_some() == spec_date_exists(self@ + n),
            r.is_some() ==> r.unwrap()@ == self@ + n,
    {
        proof {
            use_type_invariant(self);
        }
        match chrono_add_days(self.days_from_ce, n) {
            Some(days) => Some(Date { days_from_ce: days }),
            None => None,
        }
    }

    /// The date `n` days earlier, where there is one.
    pub fn checked_sub_days(&self, n: u64) -> (r: Option<Date>)
        ensures
            r.is_some() == spec_date_exists(self@ - n),
            r.is_some() ==> r.unwrap()@ == self@ - n,
    {
        proof {
            use_type_invariant(self);
        }
        match chrono_sub_days(self.days_from_ce, n) {
            Some(days) => Some(Date { days_from_ce: days }),
            None => None,
        }
    }

    /// The date as text.
    pub fn to_text(&self) -> (text: String)
        ensures
            text@ == spec_date_text(self@),
    {
        proof {
            use_type_invariant(self);
        }
        chrono_date_text(self.days_from_ce)
    }

    /// The Monday of the date's week: the date itself or the nearest
    /// Monday before it, found by going back day by day. `None` where that
    /// Monday is no date of the calendar.
    pub fn monday_of_week(&self) -> (r: Option<Date>)
        ensures
            r.is_some() == spec_date_exists(self@ - spec_days_from_monday(self@)),
            r.is_some() ==> r.unwrap()@ == self@ - spec_days_from_monday(self@),
            r.is_some() ==> spec_days_from_monday(r.unwrap()@) == 0 && r.unwrap()@ <= self@
                < r.unwrap()@ + 7,
    {
        let mut day: Date = *self;
        while day.weekday().num_days_from_monday() != 0
            invariant
                day@ <= self@,
                day@ - spec_days_from_monday(day@) == self@ - spec_days_from_monday(self@),
            decreases spec_days_from_monday(day@),
        {
            proof {
                use_type_invariant(&day);
            }
            match day.checked_sub_days(1) {
                Some(before) => {
                    day = before;
                },
                None => {
                    return None;
                },
            }
        }
        proof {
            use_type_invariant(&day);
        }
        Some(day)
    }
}

} // verus!
