//! The work of one week as it is entered, day by day, and the hours that
//! follow from it.

use crate::log::calendar::{spec_date_exists, Date};
use crate::log::{spec_tag, LogElement, LogRecord, Weekday};
use vstd::arithmetic::div_mod::{
    lemma_div_nonincreasing, lemma_div_pos_is_pos, lemma_fundamental_div_mod,
    lemma_mod_pos_bound,
};
use std::collections::HashMap;
use vstd::prelude::*;

verus! {

broadcast use vstd::std_specs::hash::group_hash_axioms;

/// The hours of a working day.
pub const TIME_PER_DAY: u8 = 8;

/// Work on a ticket as it was entered for a day.
#[derive(Debug)]
pub struct BufElement {
    pub ticket: String,
    pub tag: Option<String>,
}

/// A [`BufElement`] as a mathematical value.
pub struct Entry {
    pub ticket: Seq<char>,
    pub tag: Option<Seq<char>>,
}

impl View for BufElement {
    type V = Entry;

    open spec fn view(&self) -> Entry {
        Entry { ticket: self.ticket@, tag: spec_tag(self.tag) }
    }
}

/// The entries of a day as mathematical values.
pub open spec fn spec_entries(entries: Seq<BufElement>) -> Seq<Entry> {
    entries.map_values(|e: BufElement| e@)
}

/// A day of the buffer as a mathematical value: `None` for a day that was
/// never touched. The days are kept by their number, from 0 for Monday.
pub open spec fn spec_day(days: Map<u32, Vec<BufElement>>, day: int) -> Option<Seq<Entry>> {
    if 0 <= day < 7 && days.contains_key(day as u32) {
        Some(spec_entries(days[day as u32]@))
    } else {
        None
    }
}

/// A [`LogBuffer`] as a mathematical value.
pub struct BufferState {
    /// The seven days of the week, Monday first.
    pub days: Seq<Option<Seq<Entry>>>,
    pub untagged_ticket: Seq<char>,
    pub untagged_per_day: nat,
}

/// Whether a state is one that a buffer can have.
pub open spec fn spec_valid(state: BufferState) -> bool {
    state.days.len() == 7 && state.untagged_per_day <= TIME_PER_DAY
}

/// The state of a new buffer: no day touched.
pub open spec fn spec_new(untagged_ticket: Seq<char>, untagged_per_day: nat) -> BufferState {
    BufferState {
        days: Seq::new(7, |d: int| None::<Seq<Entry>>),
        untagged_ticket,
        untagged_per_day,
    }
}

/// The state after a day was cleared: the day is touched and holds no
/// entry.
pub open spec fn spec_cleared(state: BufferState, day: int) -> BufferState {
    BufferState { days: state.days.update(day, Some(Seq::<Entry>::empty())), ..state }
}

/// The state after work was entered for a day: the day holds one entry
/// more, after those it held.
pub open spec fn spec_logged(state: BufferState, day: int, entry: Entry) -> BufferState {
    let before = match state.days[day] {
        Some(entries) => entries,
        None => Seq::empty(),
    };
    BufferState { days: state.days.update(day, Some(before.push(entry))), ..state }
}

/// Whether one of the entries is untagged work.
pub open spec fn spec_has_untagged(entries: Seq<Entry>) -> bool {
    exists|i: int| 0 <= i < entries.len() && (#[trigger] entries[i]).tag.is_none()
}

/// The hours of entry `i` of `n` where `time` hours are dealt out one by
/// one, entry after entry, beginning anew after the last.
pub open spec fn spec_share(time: nat, n: nat, i: nat) -> nat {
    time / n + if i < time % n {
        1nat
    } else {
        0nat
    }
}

/// The hours that the entries of a day share among them: all of the day
/// where one of them is untagged work, else what untagged work leaves.
pub open spec fn spec_time_for_entries(entries: Seq<Entry>, untagged_per_day: nat) -> nat {
    if spec_has_untagged(entries) {
        TIME_PER_DAY as nat
    } else {
        (TIME_PER_DAY - untagged_per_day) as nat
    }
}

/// The log elements of the entries of a day, without the element for
/// untagged work.
pub open spec fn spec_entry_logs(entries: Seq<Entry>, untagged_per_day: nat, date: int) -> Seq<
    LogRecord,
> {
    Seq::new(
        entries.len(),
        |i: int|
            LogRecord {
                ticket: entries[i].ticket,
                tag: entries[i].tag,
                hours: spec_share(
                    spec_time_for_entries(entries, untagged_per_day),
                    entries.len(),
                    i as nat,
                ),
                date,
            },
    )
}

/// The log elements of a touched day: one for each entry, in their order,
/// and after them one for untagged work unless an entry is untagged work
/// itself.
pub open spec fn spec_day_logs(
    entries: Seq<Entry>,
    untagged_ticket: Seq<char>,
    untagged_per_day: nat,
    date: int,
) -> Seq<LogRecord> {
    let logs = spec_entry_logs(entries, untagged_per_day, date);
    if spec_has_untagged(entries) {
        logs
    } else {
        logs.push(
            LogRecord { ticket: untagged_ticket, tag: None, hours: untagged_per_day, date },
        )
    }
}

/// The log elements of the first `upto` days of the week that begins on
/// day number `week_start`: day after day, an untouched day giving none.
pub open spec fn spec_week_logs(state: BufferState, week_start: int, upto: nat) -> Seq<LogRecord>
    decreases upto,
{
    if upto == 0 {
        Seq::empty()
    } else {
        let before = spec_week_logs(state, week_start, (upto - 1) as nat);
        match state.days[upto - 1] {
            Some(entries) => before + spec_day_logs(
                entries,
                state.untagged_ticket,
                state.untagged_per_day,
                week_start + upto - 1,
            ),
            None => before,
        }
    }
}

/// Whether each touched day of the week that begins on day number
/// `week_start` is a date of the calendar.
pub open spec fn spec_week_on_calendar(state: BufferState, week_start: int) -> bool {
    forall|d: int|
        0 <= d < 7 && (#[trigger] state.days[d]).is_some() ==> spec_date_exists(week_start + d)
}

/// A list of log elements as mathematical values.
pub open spec fn spec_log_records(logs: Seq<LogElement>) -> Seq<LogRecord> {
    logs.map_values(|l: LogElement| l@)
}

/// The sum of the hours of the log elements.
pub open spec fn spec_total_hours(logs: Seq<LogRecord>) -> nat
    decreases logs.len(),
{
    if logs.len() == 0 {
        0
    } else {
        spec_total_hours(logs.drop_last()) + logs.last().hours
    }
}

/// A copy of a tag.
pub fn clone_tag(tag: &Option<String>) -> (copy: Option<String>)
    ensures
        spec_tag(copy) == spec_tag(*tag),
{
    match tag {
        Some(t) => Some(t.clone()),
        None => None,
    }
}

/// Whether one of the entries is untagged work.
pub fn has_untagged(entries: &Vec<BufElement>) -> (r: bool)
    ensures
        r == spec_has_untagged(spec_entries(entries@)),
{
    let mut i: usize = 0;
    while i < entries.len()
        invariant
            i <= entries.len(),
            forall|k: int| 0 <= k < i ==> (#[trigger] spec_entries(entries@)[k]).tag.is_some(),
        decreases entries.len() - i,
    {
        if entries[i].tag.is_none() {
            proof {
                assert(spec_entries(entries@)[i as int].tag.is_none());
            }
            return true;
        }
        i += 1;
    }
    false
}

/// The hours of entry `i` of `n` where `time` hours are dealt out one by
/// one.
pub fn share(time: u8, n: usize, i: usize) -> (hours: u8)
    requires
        i < n,
        time <= TIME_PER_DAY,
    ensures
        hours == spec_share(time as nat, n as nat, i as nat),
        hours <= time,
{
    let t: usize = time as usize;
    let whole: usize = t / n;
    let left: usize = t % n;
    proof {
        lemma_div_nonincreasing(t as int, n as int);
        lemma_div_pos_is_pos(t as int, n as int);
        lemma_mod_pos_bound(t as int, n as int);
        lemma_fundamental_div_mod(t as int, n as int);
        if i < left {
            assert(whole + 1 <= t) by (nonlinear_arith)
                requires
                    t == n * whole + left,
                    0 <= i < left < n,
                    0 <= whole,
            {
                assert(n * whole >= whole);
            }
        }
    }
    if i < left {
        (whole + 1) as u8
    } else {
        whole as u8
    }
}

/// The log elements of a touched day.
pub fn day_logs(
    entries: &Vec<BufElement>,
    untagged_ticket: &String,
    untagged_per_day: u8,
    date: Date,
) -> (logs: Vec<LogElement>)
    requires
        untagged_per_day <= TIME_PER_DAY,
    ensures
        spec_log_records(logs@) == spec_day_logs(
            spec_entries(entries@),
            untagged_ticket@,
            untagged_per_day as nat,
            date@,
        ),
{
    let add_untagged = !has_untagged(entries);
    let time: u8 = if add_untagged {
        TIME_PER_DAY - untagged_per_day
    } else {
        TIME_PER_DAY
    };
    let ghost model = spec_entries(entries@);
    let n: usize = entries.len();
    let mut logs: Vec<LogElement> = Vec::new();
    let mut i: usize = 0;
    while i < n
        invariant
            i <= n,
            n == entries.len(),
            model == spec_entries(entries@),
            time <= TIME_PER_DAY,
            time as nat == spec_time_for_entries(model, untagged_per_day as nat),
            logs.len() == i,
            forall|k: int|
                0 <= k < i ==> (#[trigger] logs[k])@ == spec_entry_logs(
                    model,
                    untagged_per_day as nat,
                    date@,
                )[k],
        decreases n - i,
    {
        let entry = &entries[i];
        proof {
            assert(model[i as int] == entry@);
        }
        logs.push(
            LogElement {
                ticket: entry.ticket.clone(),
                tag: clone_tag(&entry.tag),
                hours: share(time, n, i),
                date,
            },
        );
        i += 1;
    }
    proof {
        assert(spec_log_records(logs@) =~= spec_entry_logs(
            model,
            untagged_per_day as nat,
            date@,
        ));
    }
    if add_untagged {
        let ghost before = logs@;
        logs.push(
            LogElement {
                ticket: untagged_ticket.clone(),
                tag: None,
                hours: untagged_per_day,
                date,
            },
        );
        proof {
            assert(spec_log_records(logs@) =~= spec_log_records(before).push(
                LogRecord {
                    ticket: untagged_ticket@,
                    tag: None,
                    hours: untagged_per_day as nat,
                    date: date@,
                },
            ));
        }
    }
    logs
}

/// The work of one week as it is entered: for each day the tickets worked
/// on, and how much of each day goes to untagged work.
pub struct LogBuffer {
    buffer: HashMap<u32, Vec<BufElement>>,
    untagged_ticket: String,
    untagged_per_day: u8,
}

impl View for LogBuffer {
    type V = BufferState;

    closed spec fn view(&self) -> BufferState {
        BufferState {
            days: Seq::new(7, |day: int| spec_day(self.buffer@, day)),
            untagged_ticket: self.untagged_ticket@,
            untagged_per_day: self.untagged_per_day as nat,
        }
    }
}

impl LogBuffer {
    /// A buffer in which no day is touched.
    pub fn new(untagged_ticket: String, untagged_per_day: u8) -> (buffer: LogBuffer)
        requires
            untagged_per_day <= TIME_PER_DAY,
        ensures
            buffer@ == spec_new(untagged_ticket@, untagged_per_day as nat),
            spec_valid(buffer@),
    {
        let buffer = LogBuffer { buffer: HashMap::new(), untagged_ticket, untagged_per_day };
        proof {
            assert(buffer@.days =~= spec_new(untagged_ticket@, untagged_per_day as nat).days);
        }
        buffer
    }

    /// A buffer in which no day is touched, or `None` where untagged work
    /// is to take more than the hours of a day.
    pub fn checked_new(untagged_ticket: String, untagged_per_day: u8) -> (r: Option<LogBuffer>)
        ensures
            r.is_some() == (untagged_per_day <= TIME_PER_DAY),
            r.is_some() ==> r.unwrap()@ == spec_new(untagged_ticket@, untagged_per_day as nat)
                && spec_valid(r.unwrap()@),
    {
        if untagged_per_day <= TIME_PER_DAY {
            Some(LogBuffer::new(untagged_ticket, untagged_per_day))
        } else {
            None
        }
    }

    /// Forgets what was entered for a day. The day counts as touched.
    pub fn clear_day(&mut self, weekday: Weekday)
        requires
            spec_valid(old(self)@),
        ensures
            final(self)@ == spec_cleared(old(self)@, weekday.spec_index()),
            spec_valid(final(self)@),
    {
        let day: u32 = weekday.num_days_from_monday();
        let ghost before = self@;
        let cleared: Vec<BufElement> = Vec::with_capacity(8);
        proof {
            assert(spec_entries(cleared@) =~= Seq::<Entry>::empty());
        }
        self.buffer.insert(day, cleared);
        proof {
            assert(self@.days =~= spec_cleared(before, day as int).days);
        }
    }

    /// Enters work on a ticket for a day.
    pub fn log_on_day(&mut self, weekday: Weekday, ticket: &str, tag: &Option<String>)
        requires
            spec_valid(old(self)@),
        ensures
            final(self)@ == spec_logged(
                old(self)@,
                weekday.spec_index(),
                Entry { ticket: ticket@, tag: spec_tag(*tag) },
            ),
            spec_valid(final(self)@),
    {
        let day: u32 = weekday.num_days_from_monday();
        let ghost before = self@;
        let ghost held_before = self.buffer@;
        let mut entries: Vec<BufElement> = match self.buffer.remove(&day) {
            Some(entries) => entries,
            None => Vec::with_capacity(8),
        };
        let ghost held = spec_entries(entries@);
        proof {
            assert(before.days[day as int] == spec_day(held_before, day as int));
            if !held_before.contains_key(day) {
                assert(held =~= Seq::<Entry>::empty());
            }
        }
        let element = BufElement { ticket: ticket.to_owned(), tag: clone_tag(tag) };
        let ghost entry = element@;
        entries.push(element);
        proof {
            assert(spec_entries(entries@) =~= held.push(entry));
        }
        self.buffer.insert(day, entries);
        proof {
            assert(self@.days =~= spec_logged(before, day as int, entry).days);
        }
    }

    /// The date of a day of the week that begins with `week_start`.
    pub fn week_start_and_weekday_to_date(week_start: &Date, weekday: Weekday) -> (date: Date)
        requires
            spec_date_exists(week_start@ + weekday.spec_index()),
        ensures
            date@ == week_start@ + weekday.spec_index(),
    {
        let days: u32 = weekday.num_days_from_monday();
        week_start.checked_add_days(days as u64).unwrap()
    }

    /// The log elements of the week that begins with `week_start`: day
    /// after day from Monday on, an untouched day giving none.
    ///
    /// On a touched day each entry gets its share of the hours: the eight
    /// hours less those of untagged work are dealt out one by one, entry
    /// after entry, and an element for the untagged work follows. Where an
    /// entry is untagged work itself, all eight hours are dealt out and no
    /// element follows.
    pub fn to_log_element_vec(&self, week_start: &Date) -> (logs: Vec<LogElement>)
        requires
            spec_valid(self@),
            spec_week_on_calendar(self@, week_start@),
        ensures
            spec_log_records(logs@) == spec_week_logs(self@, week_start@, 7),
    {
        let days = crate::log::weekdays();
        let mut result: Vec<LogElement> = Vec::new();
        let mut d: usize = 0;
        proof {
            assert(spec_log_records(result@) =~= Seq::<LogRecord>::empty());
        }
        while d < 7
            invariant
                d <= 7,
                days@ == crate::log::spec_weekdays(),
                self.untagged_per_day <= TIME_PER_DAY,
                spec_week_on_calendar(self@, week_start@),
                spec_log_records(result@) == spec_week_logs(self@, week_start@, d as nat),
            decreases 7 - d,
        {
            let weekday = days[d];
            assert(weekday.spec_index() == d);
            proof {
                assert(self@.days[d as int] == spec_day(self.buffer@, d as int));
            }
            let key: u32 = weekday.num_days_from_monday();
            match self.buffer.get(&key) {
                Some(entries) => {
                    let date = Self::week_start_and_weekday_to_date(week_start, weekday);
                    let mut day = day_logs(
                        entries,
                        &self.untagged_ticket,
                        self.untagged_per_day,
                        date,
                    );
                    let ghost before = result@;
                    let ghost added = day@;
                    result.append(&mut day);
                    proof {
                        assert(spec_log_records(result@) =~= spec_log_records(before)
                            + spec_log_records(added));
                    }
                },
                None => {},
            }
            d += 1;
        }
        result
    }

    /// The log elements of the week that begins with `week_start`, or
    /// `None` where a touched day of that week is no date of the calendar.
    pub fn checked_log_element_vec(&self, week_start: &Date) -> (r: Option<Vec<LogElement>>)
        requires
            spec_valid(self@),
        ensures
            r.is_some() == spec_week_on_calendar(self@, week_start@),
            r.is_some() ==> spec_log_records(r.unwrap()@) == spec_week_logs(
                self@,
                week_start@,
                7,
            ),
    {
        let mut d: usize = 0;
        while d < 7
            invariant
                d <= 7,
                forall|k: int|
                    0 <= k < d && (#[trigger] self@.days[k]).is_some() ==> spec_date_exists(
                        week_start@ + k,
                    ),
            decreases 7 - d,
        {
            proof {
                assert(self@.days[d as int] == spec_day(self.buffer@, d as int));
            }
            let key: u32 = d as u32;
            if self.buffer.contains_key(&key) && week_start.checked_add_days(d as u64).is_none() {
                return None;
            }
            d += 1;
        }
        Some(self.to_log_element_vec(week_start))
    }
}

/// Dealing out `time` hours among `n` entries gives them `time` hours in
/// all: the first `k` entries get `k` times the whole share and one hour
/// more for each of them that is among the first `time % n`.
pub proof fn lemma_shares_add_up(entries: Seq<Entry>, untagged_per_day: nat, date: int, k: int)
    requires
        0 <= k <= entries.len(),
        entries.len() > 0,
    ensures
        spec_total_hours(spec_entry_logs(entries, untagged_per_day, date).subrange(0, k)) == k * (
        spec_time_for_entries(entries, untagged_per_day) / entries.len()) + if k
            < spec_time_for_entries(entries, untagged_per_day) % entries.len() {
            k
        } else {
            (spec_time_for_entries(entries, untagged_per_day) % entries.len()) as int
        },
    decreases k,
{
    let logs = spec_entry_logs(entries, untagged_per_day, date);
    let time = spec_time_for_entries(entries, untagged_per_day);
    let n = entries.len();
    let whole = time / n;
    if k > 0 {
        lemma_shares_add_up(entries, untagged_per_day, date, k - 1);
        assert(logs.subrange(0, k).drop_last() =~= logs.subrange(0, k - 1));
        assert(logs.subrange(0, k).last().hours == spec_share(time, n, (k - 1) as nat));
        assert(k * whole == (k - 1) * whole + whole) by (nonlinear_arith);
    } else {
        assert(0 * whole == 0) by (nonlinear_arith);
    }
}

/// The hours of a touched day add up to the hours of a working day, on
/// every day that holds an entry. A touched day without entries holds the
/// untagged work only.
pub proof fn lemma_day_adds_up(
    entries: Seq<Entry>,
    untagged_ticket: Seq<char>,
    untagged_per_day: nat,
    date: int,
)
    requires
        untagged_per_day <= TIME_PER_DAY,
    ensures
        spec_total_hours(spec_day_logs(entries, untagged_ticket, untagged_per_day, date)) == if
            entries.len() > 0 {
            TIME_PER_DAY as nat
        } else {
            untagged_per_day
        },
{
    let logs = spec_entry_logs(entries, untagged_per_day, date);
    let day = spec_day_logs(entries, untagged_ticket, untagged_per_day, date);
    let time = spec_time_for_entries(entries, untagged_per_day);
    let n = entries.len();
    if n > 0 {
        lemma_shares_add_up(entries, untagged_per_day, date, n as int);
        assert(logs.subrange(0, n as int) =~= logs);
        lemma_fundamental_div_mod(time as int, n as int);
        lemma_mod_pos_bound(time as int, n as int);
        assert(spec_total_hours(logs) == time) by {
            assert(n * (time / n) == (time / n) * n) by (nonlinear_arith);
        }
    } else {
        assert(spec_total_hours(logs) == 0);
    }
    if !spec_has_untagged(entries) {
        assert(day.drop_last() =~= logs);
    }
}

} // verus!
