//! Turning a week of choices into logged hours.

use crate::log::calendar::{spec_date_text, Date};
use crate::log::text::spec_texts;
use vstd::prelude::*;

pub mod calendar;
pub mod inquires;
pub mod log_buffer;
pub mod printing;
pub mod text;

verus! {

/// A day of the week.
#[derive(Debug, Clone, Copy, PartialEq, Eq, Structural)]
pub enum Weekday {
    Mon,
    Tue,
    Wed,
    Thu,
    Fri,
    Sat,
    Sun,
}

impl Weekday {
    /// How many days after Monday the day is.
    pub open spec fn spec_index(self) -> int {
        match self {
            Weekday::Mon => 0,
            Weekday::Tue => 1,
            Weekday::Wed => 2,
            Weekday::Thu => 3,
            Weekday::Fri => 4,
            Weekday::Sat => 5,
            Weekday::Sun => 6,
        }
    }

    /// The short name of the day.
    pub open spec fn spec_name(self) -> Seq<char> {
        match self {
            Weekday::Mon => "Mon"@,
            Weekday::Tue => "Tue"@,
            Weekday::Wed => "Wed"@,
            Weekday::Thu => "Thu"@,
            Weekday::Fri => "Fri"@,
            Weekday::Sat => "Sat"@,
            Weekday::Sun => "Sun"@,
        }
    }

    /// How many days after Monday the day is.
    pub fn num_days_from_monday(&self) -> (n: u32)
        ensures
            n == self.spec_index(),
            n < 7,
    {
        match self {
            Weekday::Mon => 0,
            Weekday::Tue => 1,
            Weekday::Wed => 2,
            Weekday::Thu => 3,
            Weekday::Fri => 4,
            Weekday::Sat => 5,
            Weekday::Sun => 6,
        }
    }

    /// The day that is `index` days after Monday.
    pub fn from_index(index: u8) -> (w: Weekday)
        requires
            index < 7,
        ensures
            w.spec_index() == index,
    {
        if index == 0 {
            Weekday::Mon
        } else if index == 1 {
            Weekday::Tue
        } else if index == 2 {
            Weekday::Wed
        } else if index == 3 {
            Weekday::Thu
        } else if index == 4 {
            Weekday::Fri
        } else if index == 5 {
            Weekday::Sat
        } else {
            Weekday::Sun
        }
    }

    /// The day with the given short name.
    pub fn from_name(name: &String) -> (r: Option<Weekday>)
        ensures
            r == spec_weekday_named(name@),
    {
        if *name == Weekday::Mon.name().to_owned() {
            Some(Weekday::Mon)
        } else if *name == Weekday::Tue.name().to_owned() {
            Some(Weekday::Tue)
        } else if *name == Weekday::Wed.name().to_owned() {
            Some(Weekday::Wed)
        } else if *name == Weekday::Thu.name().to_owned() {
            Some(Weekday::Thu)
        } else if *name == Weekday::Fri.name().to_owned() {
            Some(Weekday::Fri)
        } else if *name == Weekday::Sat.name().to_owned() {
            Some(Weekday::Sat)
        } else if *name == Weekday::Sun.name().to_owned() {
            Some(Weekday::Sun)
        } else {
            None
        }
    }

    /// The short name of the day.
    pub fn name(&self) -> (text: &'static str)
        ensures
            text@ == self.spec_name(),
    {
        match self {
            Weekday::Mon => "Mon",
            Weekday::Tue => "Tue",
            Weekday::Wed => "Wed",
            Weekday::Thu => "Thu",
            Weekday::Fri => "Fri",
            Weekday::Sat => "Sat",
            Weekday::Sun => "Sun",
        }
    }
}

/// The days of the week, Monday first.
pub open spec fn spec_weekdays() -> Seq<Weekday> {
    seq![
        Weekday::Mon,
        Weekday::Tue,
        Weekday::Wed,
        Weekday::Thu,
        Weekday::Fri,
        Weekday::Sat,
        Weekday::Sun,
    ]
}

/// The day with the given short name.
pub open spec fn spec_weekday_named(name: Seq<char>) -> Option<Weekday> {
    if name == "Mon"@ {
        Some(Weekday::Mon)
    } else if name == "Tue"@ {
        Some(Weekday::Tue)
    } else if name == "Wed"@ {
        Some(Weekday::Wed)
    } else if name == "Thu"@ {
        Some(Weekday::Thu)
    } else if name == "Fri"@ {
        Some(Weekday::Fri)
    } else if name == "Sat"@ {
        Some(Weekday::Sat)
    } else if name == "Sun"@ {
        Some(Weekday::Sun)
    } else {
        None
    }
}

/// Each day of the week is the day that has its short name.
pub proof fn lemma_weekday_named(day: Weekday)
    ensures
        spec_weekday_named(day.spec_name()) == Some(day),
{
    reveal_strlit("Mon");
    reveal_strlit("Tue");
    reveal_strlit("Wed");
    reveal_strlit("Thu");
    reveal_strlit("Fri");
    reveal_strlit("Sat");
    reveal_strlit("Sun");
    assert("Mon"@[0] == 'M' && "Tue"@[1] == 'u' && "Wed"@[0] == 'W' && "Thu"@[1] == 'h');
    assert("Fri"@[0] == 'F' && "Sat"@[1] == 'a' && "Sun"@[2] == 'n' && "Sat"@[2] == 't');
    assert("Tue"@[0] == 'T' && "Thu"@[0] == 'T' && "Sat"@[0] == 'S' && "Sun"@[0] == 'S');
    assert("Mon"@[1] == 'o' && "Sun"@[1] == 'u');
}

/// The days of the week, Monday first.
pub fn weekdays() -> (days: Vec<Weekday>)
    ensures
        days@ == spec_weekdays(),
{
    let mut days: Vec<Weekday> = Vec::new();
    days.push(Weekday::Mon);
    days.push(Weekday::Tue);
    days.push(Weekday::Wed);
    days.push(Weekday::Thu);
    days.push(Weekday::Fri);
    days.push(Weekday::Sat);
    days.push(Weekday::Sun);
    proof {
        assert(days@ =~= spec_weekdays());
    }
    days
}

/// The short names of the days of the week, Monday first.
pub fn weekday_strs() -> (names: Vec<String>)
    ensures
        names@.len() == 7,
        forall|i: int| 0 <= i < 7 ==> (#[trigger] names@[i])@ == spec_weekdays()[i].spec_name(),
{
    let days = weekdays();
    let mut names: Vec<String> = Vec::new();
    let mut i: usize = 0;
    while i < days.len()
        invariant
            i <= days.len(),
            days@ == spec_weekdays(),
            names@.len() == i,
            forall|k: int| 0 <= k < i ==> (#[trigger] names@[k])@ == spec_weekdays()[k].spec_name(),
        decreases days.len() - i,
    {
        names.push(days[i].name().to_owned());
        i += 1;
    }
    names
}

/// The days that the chosen names stand for, in their order; `None` where
/// one of the names is not the short name of a day.
pub open spec fn spec_days_named(names: Seq<Seq<char>>) -> Option<Seq<Weekday>>
    decreases names.len(),
{
    if names.len() == 0 {
        Some(Seq::empty())
    } else {
        match (spec_days_named(names.drop_last()), spec_weekday_named(names.last())) {
            (Some(days), Some(day)) => Some(days.push(day)),
            _ => None,
        }
    }
}

/// The days that the chosen names stand for.
pub fn days_from_names(names: &Vec<String>) -> (r: Option<Vec<Weekday>>)
    ensures
        match r {
            Some(days) => spec_days_named(spec_texts(names@)) == Some(days@),
            None => spec_days_named(spec_texts(names@)).is_none(),
        },
{
    let ghost texts = spec_texts(names@);
    let mut days: Vec<Weekday> = Vec::new();
    let mut i: usize = 0;
    proof {
        assert(texts.subrange(0, 0) =~= Seq::<Seq<char>>::empty());
    }
    while i < names.len()
        invariant
            i <= names.len(),
            texts == spec_texts(names@),
            spec_days_named(texts.subrange(0, i as int)) == Some(days@),
        decreases names.len() - i,
    {
        proof {
            assert(texts.subrange(0, i + 1).drop_last() =~= texts.subrange(0, i as int));
            assert(texts.subrange(0, i + 1).last() == names[i as int]@);
        }
        match Weekday::from_name(&names[i]) {
            Some(day) => {
                days.push(day);
            },
            None => {
                proof {
                    lemma_unnamed_day_spoils(texts, i + 1);
                }
                return None;
            },
        }
        i += 1;
    }
    proof {
        assert(texts.subrange(0, names.len() as int) =~= texts);
    }
    Some(days)
}

/// Where the first `n` names do not all stand for days, the names do not.
pub proof fn lemma_unnamed_day_spoils(names: Seq<Seq<char>>, n: int)
    requires
        0 <= n <= names.len(),
        spec_days_named(names.subrange(0, n)).is_none(),
    ensures
        spec_days_named(names).is_none(),
    decreases names.len(),
{
    if n == names.len() {
        assert(names.subrange(0, n) =~= names);
    } else {
        assert(names.drop_last().subrange(0, n) =~= names.subrange(0, n));
        lemma_unnamed_day_spoils(names.drop_last(), n);
    }
}

/// Hours of work on one ticket on one day.
#[derive(Debug, Clone)]
pub struct LogElement {
    pub ticket: String,
    /// What the work was on; `None` for untagged work.
    pub tag: Option<String>,
    pub hours: u8,
    pub date: Date,
}

/// A [`LogElement`] with its date as text.
#[derive(Debug, Clone)]
pub struct LogElementSerializable {
    pub ticket: String,
    pub tag: Option<String>,
    pub hours: u8,
    pub date: String,
}

/// A tag, where there is one, as a sequence of characters.
pub open spec fn spec_tag(tag: Option<String>) -> Option<Seq<char>> {
    match tag {
        Some(t) => Some(t@),
        None => None,
    }
}

/// A [`LogElement`] as a mathematical value.
pub struct LogRecord {
    pub ticket: Seq<char>,
    pub tag: Option<Seq<char>>,
    pub hours: nat,
    /// The number of the day.
    pub date: int,
}

impl View for LogElement {
    type V = LogRecord;

    open spec fn view(&self) -> LogRecord {
        LogRecord {
            ticket: self.ticket@,
            tag: spec_tag(self.tag),
            hours: self.hours as nat,
            date: self.date@,
        }
    }
}

impl LogElement {
    /// The element with its date written out.
    pub fn to_serializable(self) -> (s: LogElementSerializable)
        ensures
            s.ticket@ == self.ticket@,
            spec_tag(s.tag) == spec_tag(self.tag),
            s.hours == self.hours,
            s.date@ == spec_date_text(self.date@),
    {
        let date = self.date.to_text();
        LogElementSerializable { ticket: self.ticket, tag: self.tag, hours: self.hours, date }
    }
}

} // verus!
