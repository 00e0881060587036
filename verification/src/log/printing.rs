//! The logged hours as text: a table with one row for each ticket and one
//! column for each day of the week, and a list of lines day by day.

use crate::log::calendar::spec_days_from_monday;
use crate::log::log_buffer::spec_log_records;
use crate::log::text::{contains_text, spec_texts};
use crate::log::{spec_weekdays, weekdays, LogElement, LogRecord, Weekday};
use vstd::prelude::*;

verus! {

/// The digit for a number below ten.
pub open spec fn spec_digit(d: nat) -> char {
    if d == 0 {
        '0'
    } else if d == 1 {
        '1'
    } else if d == 2 {
        '2'
    } else if d == 3 {
        '3'
    } else if d == 4 {
        '4'
    } else if d == 5 {
        '5'
    } else if d == 6 {
        '6'
    } else if d == 7 {
        '7'
    } else if d == 8 {
        '8'
    } else {
        '9'
    }
}

/// A number in decimal digits.
pub open spec fn spec_decimal(n: nat) -> Seq<char>
    decreases n,
{
    if n < 10 {
        seq![spec_digit(n)]
    } else {
        spec_decimal(n / 10).push(spec_digit(n % 10))
    }
}

/// The line of one log element in a cell: the hours, `h`, a space and the
/// tag, where there is one.
pub open spec fn spec_line(log: LogRecord) -> Seq<char> {
    spec_decimal(log.hours) + seq!['h', ' '] + match log.tag {
        Some(tag) => tag,
        None => Seq::empty(),
    }
}

/// The lines of a cell: those of the log elements for the ticket that fall
/// on the day of the week, in their order.
pub open spec fn spec_cell_lines(logs: Seq<LogRecord>, ticket: Seq<char>, weekday: int) -> Seq<
    Seq<char>,
>
    decreases logs.len(),
{
    if logs.len() == 0 {
        Seq::empty()
    } else {
        let before = spec_cell_lines(logs.drop_last(), ticket, weekday);
        if logs.last().ticket == ticket && spec_days_from_monday(logs.last().date) == weekday {
            before.push(spec_line(logs.last()))
        } else {
            before
        }
    }
}

/// The lines with `sep` between every two of them.
pub open spec fn spec_join(lines: Seq<Seq<char>>, sep: Seq<char>) -> Seq<char>
    decreases lines.len(),
{
    if lines.len() == 0 {
        Seq::empty()
    } else if lines.len() == 1 {
        lines[0]
    } else {
        spec_join(lines.drop_last(), sep) + sep + lines.last()
    }
}

/// The text of a cell: its lines, one beneath the other.
pub open spec fn spec_cell(logs: Seq<LogRecord>, ticket: Seq<char>, weekday: int) -> Seq<char> {
    spec_join(spec_cell_lines(logs, ticket, weekday), seq!['\n'])
}

/// The tickets of the log elements, each once, in the order in which they
/// first occur.
pub open spec fn spec_unique_tickets(logs: Seq<LogRecord>) -> Seq<Seq<char>>
    decreases logs.len(),
{
    if logs.len() == 0 {
        Seq::empty()
    } else {
        let before = spec_unique_tickets(logs.drop_last());
        if before.contains(logs.last().ticket) {
            before
        } else {
            before.push(logs.last().ticket)
        }
    }
}

/// The first row of the table: what the columns hold.
pub open spec fn spec_header() -> Seq<Seq<char>> {
    seq!["Ticket"@].add(Seq::new(7, |w: int| spec_weekdays()[w].spec_name()))
}

/// The row of a ticket: the ticket, then its cell for each day of the
/// week.
pub open spec fn spec_row(logs: Seq<LogRecord>, ticket: Seq<char>) -> Seq<Seq<char>> {
    seq![ticket].add(Seq::new(7, |w: int| spec_cell(logs, ticket, w)))
}

/// The table: the header, then the row of each ticket.
pub open spec fn spec_table(logs: Seq<LogRecord>) -> Seq<Seq<Seq<char>>> {
    seq![spec_header()].add(
        spec_unique_tickets(logs).map_values(|ticket: Seq<char>| spec_row(logs, ticket)),
    )
}

/// The rows of a table as sequences of character sequences.
pub open spec fn spec_cells(rows: Seq<Vec<String>>) -> Seq<Seq<Seq<char>>> {
    rows.map_values(|row: Vec<String>| spec_texts(row@))
}

/// The digit for a number below ten.
pub fn digit(d: u8) -> (text: &'static str)
    requires
        d < 10,
    ensures
        text@ == seq![spec_digit(d as nat)],
{
    proof {
        reveal_strlit("0");
        reveal_strlit("1");
        reveal_strlit("2");
        reveal_strlit("3");
        reveal_strlit("4");
        reveal_strlit("5");
        reveal_strlit("6");
        reveal_strlit("7");
        reveal_strlit("8");
        reveal_strlit("9");
    }
    let text: &'static str = if d == 0 {
        "0"
    } else if d == 1 {
        "1"
    } else if d == 2 {
        "2"
    } else if d == 3 {
        "3"
    } else if d == 4 {
        "4"
    } else if d == 5 {
        "5"
    } else if d == 6 {
        "6"
    } else if d == 7 {
        "7"
    } else if d == 8 {
        "8"
    } else {
        "9"
    };
    proof {
        assert(text@ =~= seq![spec_digit(d as nat)]);
    }
    text
}

/// A number in decimal digits.
pub fn decimal(n: u8) -> (text: String)
    ensures
        text@ == spec_decimal(n as nat),
{
    proof {
        reveal_with_fuel(spec_decimal, 3);
    }
    if n < 10 {
        digit(n).to_owned()
    } else if n < 100 {
        let text = digit(n / 10).to_owned().concat(digit(n % 10));
        proof {
            assert(text@ =~= spec_decimal(n as nat));
        }
        text
    } else {
        let text = digit(n / 100).to_owned().concat(digit((n / 10) % 10)).concat(digit(n % 10));
        proof {
            assert((n / 10) / 10 == n / 100);
            assert(text@ =~= spec_decimal(n as nat));
        }
        text
    }
}

/// The line of one log element in a cell.
pub fn cell_line(log: &LogElement) -> (text: String)
    ensures
        text@ == spec_line(log@),
{
    proof {
        reveal_strlit("h ");
        reveal_strlit("");
        assert("h "@ =~= seq!['h', ' ']);
        assert(""@ =~= Seq::<char>::empty());
    }
    let tag: &str = match &log.tag {
        Some(tag) => tag.as_str(),
        None => "",
    };
    decimal(log.hours).concat("h ").concat(tag)
}

/// The lines with `sep` between every two of them.
pub fn join(lines: &Vec<String>, sep: &str) -> (text: String)
    ensures
        text@ == spec_join(spec_texts(lines@), sep@),
{
    let mut text = String::new();
    let mut i: usize = 0;
    proof {
        assert(spec_texts(lines@).subrange(0, 0) =~= Seq::<Seq<char>>::empty());
    }
    while i < lines.len()
        invariant
            i <= lines.len(),
            text@ == spec_join(spec_texts(lines@).subrange(0, i as int), sep@),
        decreases lines.len() - i,
    {
        proof {
            let upto = spec_texts(lines@).subrange(0, i + 1);
            assert(upto.drop_last() =~= spec_texts(lines@).subrange(0, i as int));
            assert(upto.last() == lines[i as int]@);
            if i == 0 {
                assert(upto[0] == lines[0]@);
                assert(text@ + lines[0]@ =~= lines[0]@);
            }
        }
        if i > 0 {
            text = text.concat(sep);
        }
        text = text.concat(lines[i].as_str());
        i += 1;
    }
    proof {
        assert(spec_texts(lines@).subrange(0, lines.len() as int) =~= spec_texts(lines@));
    }
    text
}

/// The text of the cell of a ticket on a day of the week.
pub fn cell(logs: &Vec<LogElement>, ticket: &String, weekday: Weekday) -> (text: String)
    ensures
        text@ == spec_cell(spec_log_records(logs@), ticket@, weekday.spec_index()),
{
    let ghost records = spec_log_records(logs@);
    let mut lines: Vec<String> = Vec::new();
    let mut i: usize = 0;
    proof {
        assert(records.subrange(0, 0) =~= Seq::<LogRecord>::empty());
        assert(spec_texts(lines@) =~= Seq::<Seq<char>>::empty());
    }
    while i < logs.len()
        invariant
            i <= logs.len(),
            records == spec_log_records(logs@),
            spec_texts(lines@) == spec_cell_lines(
                records.subrange(0, i as int),
                ticket@,
                weekday.spec_index(),
            ),
        decreases logs.len() - i,
    {
        let log = &logs[i];
        let ghost seen = lines@;
        proof {
            assert(records.subrange(0, i + 1).drop_last() =~= records.subrange(0, i as int));
            assert(records.subrange(0, i + 1).last() == log@);
        }
        if log.ticket == *ticket && log.date.weekday().num_days_from_monday()
            == weekday.num_days_from_monday() {
            let text = cell_line(log);
            let ghost added = text@;
            lines.push(text);
            proof {
                assert(spec_texts(lines@) =~= spec_texts(seen).push(added));
            }
        }
        i += 1;
    }
    proof {
        assert(records.subrange(0, logs.len() as int) =~= records);
        reveal_strlit("\n");
        assert("\n"@ =~= seq!['\n']);
    }
    join(&lines, "\n")
}

/// The tickets of the log elements, each once, in the order in which they
/// first occur.
pub fn unique_tickets(logs: &Vec<LogElement>) -> (tickets: Vec<String>)
    ensures
        spec_texts(tickets@) == spec_unique_tickets(spec_log_records(logs@)),
{
    let ghost records = spec_log_records(logs@);
    let mut tickets: Vec<String> = Vec::new();
    let mut i: usize = 0;
    proof {
        assert(records.subrange(0, 0) =~= Seq::<LogRecord>::empty());
        assert(spec_texts(tickets@) =~= Seq::<Seq<char>>::empty());
    }
    while i < logs.len()
        invariant
            i <= logs.len(),
            records == spec_log_records(logs@),
            spec_texts(tickets@) == spec_unique_tickets(records.subrange(0, i as int)),
        decreases logs.len() - i,
    {
        let ghost seen = tickets@;
        proof {
            assert(records.subrange(0, i + 1).drop_last() =~= records.subrange(0, i as int));
            assert(records.subrange(0, i + 1).last() == logs[i as int]@);
        }
        if !contains_text(&tickets, &logs[i].ticket) {
            tickets.push(logs[i].ticket.clone());
            proof {
                assert(spec_texts(tickets@) =~= spec_texts(seen).push(logs[i as int].ticket@));
            }
        }
        i += 1;
    }
    proof {
        assert(records.subrange(0, logs.len() as int) =~= records);
    }
    tickets
}

/// The first row of the table.
pub fn header() -> (row: Vec<String>)
    ensures
        spec_texts(row@) == spec_header(),
{
    let days = weekdays();
    let mut row: Vec<String> = Vec::new();
    row.push("Ticket".to_owned());
    let mut w: usize = 0;
    while w < 7
        invariant
            w <= 7,
            days@ == spec_weekdays(),
            row.len() == w + 1,
            row[0]@ == "Ticket"@,
            forall|j: int|
                1 <= j <= w ==> (#[trigger] row[j])@ == spec_weekdays()[j - 1].spec_name(),
        decreases 7 - w,
    {
        row.push(days[w].name().to_owned());
        w += 1;
    }
    proof {
        assert(spec_texts(row@) =~= spec_header());
    }
    row
}

/// The row of a ticket.
pub fn row(logs: &Vec<LogElement>, ticket: &String) -> (row: Vec<String>)
    ensures
        spec_texts(row@) == spec_row(spec_log_records(logs@), ticket@),
{
    let ghost records = spec_log_records(logs@);
    let days = weekdays();
    let mut row: Vec<String> = Vec::new();
    row.push(ticket.clone());
    let mut w: usize = 0;
    while w < 7
        invariant
            w <= 7,
            days@ == spec_weekdays(),
            records == spec_log_records(logs@),
            row.len() == w + 1,
            row[0]@ == ticket@,
            forall|j: int| 1 <= j <= w ==> (#[trigger] row[j])@ == spec_cell(records, ticket@, j - 1),
        decreases 7 - w,
    {
        assert(days[w as int].spec_index() == w);
        row.push(cell(logs, ticket, days[w]));
        w += 1;
    }
    proof {
        assert(spec_texts(row@) =~= spec_row(records, ticket@));
    }
    row
}

/// The table of the logged hours: the header, then one row for each
/// ticket in the order in which the tickets first occur. A cell holds one
/// line for each log element of its ticket on its day.
pub fn logs_table(logs: &Vec<LogElement>) -> (rows: Vec<Vec<String>>)
    ensures
        spec_cells(rows@) == spec_table(spec_log_records(logs@)),
{
    let ghost records = spec_log_records(logs@);
    let tickets = unique_tickets(logs);
    let mut rows: Vec<Vec<String>> = Vec::new();
    rows.push(header());
    let mut i: usize = 0;
    while i < tickets.len()
        invariant
            i <= tickets.len(),
            records == spec_log_records(logs@),
            spec_texts(tickets@) == spec_unique_tickets(records),
            rows.len() == i + 1,
            spec_texts(rows[0]@) == spec_header(),
            forall|j: int|
                1 <= j <= i ==> spec_texts((#[trigger] rows[j])@) == spec_row(
                    records,
                    tickets[j - 1]@,
                ),
        decreases tickets.len() - i,
    {
        rows.push(row(logs, &tickets[i]));
        i += 1;
    }
    proof {
        let table = spec_table(records);
        assert(spec_cells(rows@).len() == table.len());
        assert forall|k: int| 0 <= k < table.len() implies spec_cells(rows@)[k] == table[k] by {
            if k > 0 {
                assert(spec_texts(rows[k]@) == spec_row(records, tickets[k - 1]@));
                assert(spec_texts(tickets@)[k - 1] == tickets[k - 1]@);
            }
        }
        assert(spec_cells(rows@) =~= table);
    }
    rows
}

/// The line of one log element in the list of a day: a tab, the hours,
/// the ticket in square brackets and the tag, where there is one.
pub open spec fn spec_log_line(log: LogRecord) -> Seq<char> {
    "\t"@ + spec_decimal(log.hours) + "h : ["@ + log.ticket + "] "@ + match log.tag {
        Some(tag) => tag,
        None => Seq::empty(),
    }
}

/// The lines of the log elements that fall on the day of the week and have
/// the given hours, the last of them first.
pub open spec fn spec_lines_with_hours(logs: Seq<LogRecord>, weekday: int, hours: int) -> Seq<
    Seq<char>,
>
    decreases logs.len(),
{
    if logs.len() == 0 {
        Seq::empty()
    } else {
        let after = spec_lines_with_hours(logs.drop_first(), weekday, hours);
        if spec_days_from_monday(logs[0].date) == weekday && logs[0].hours == hours {
            after.push(spec_log_line(logs[0]))
        } else {
            after
        }
    }
}

/// The lines of the log elements that fall on the day of the week and have
/// `least` hours or more: those of the most hours first, and of those with
/// the same hours the last first.
pub open spec fn spec_lines_down_to(logs: Seq<LogRecord>, weekday: int, least: int) -> Seq<
    Seq<char>,
>
    decreases 256 - least,
{
    if least > 255 {
        Seq::empty()
    } else {
        spec_lines_down_to(logs, weekday, least + 1) + spec_lines_with_hours(
            logs,
            weekday,
            least,
        )
    }
}

/// The lines of a day of the week: its name, then its log elements from
/// the most hours to the least.
pub open spec fn spec_day_lines(logs: Seq<LogRecord>, weekday: int) -> Seq<Seq<char>> {
    seq![spec_weekdays()[weekday].spec_name()] + spec_lines_down_to(logs, weekday, 0)
}

/// The title and the lines of the first `upto` days of the week.
pub open spec fn spec_current_logs_upto(logs: Seq<LogRecord>, upto: int) -> Seq<Seq<char>>
    decreases upto,
{
    if upto <= 0 {
        seq!["=== Current time logs: ==="@]
    } else {
        spec_current_logs_upto(logs, upto - 1) + spec_day_lines(logs, upto - 1)
    }
}

/// The logged hours as lines: a title, then day by day from Monday on the
/// name of the day and its log elements, those of the most hours first.
pub open spec fn spec_current_logs(logs: Seq<LogRecord>) -> Seq<Seq<char>> {
    spec_current_logs_upto(logs, 7)
}

/// The line of one log element in the list of a day.
pub fn log_line(log: &LogElement) -> (text: String)
    ensures
        text@ == spec_log_line(log@),
{
    proof {
        reveal_strlit("");
        assert(""@ =~= Seq::<char>::empty());
    }
    let tag: &str = match &log.tag {
        Some(tag) => tag.as_str(),
        None => "",
    };
    let start: String = "\t".to_owned();
    start.concat(decimal(log.hours).as_str()).concat("h : [").concat(log.ticket.as_str()).concat(
        "] ",
    ).concat(tag)
}

/// Adds the lines of the log elements that fall on the day of the week and
/// have the given hours, the last of them first.
pub fn push_lines_with_hours(
    lines: &mut Vec<String>,
    logs: &Vec<LogElement>,
    weekday: Weekday,
    hours: u8,
)
    ensures
        spec_texts(final(lines)@) == spec_texts(old(lines)@) + spec_lines_with_hours(
            spec_log_records(logs@),
            weekday.spec_index(),
            hours as int,
        ),
{
    let ghost records = spec_log_records(logs@);
    let ghost before = spec_texts(lines@);
    let mut i: usize = logs.len();
    proof {
        assert(records.subrange(i as int, logs.len() as int) =~= Seq::<LogRecord>::empty());
        assert(before + Seq::<Seq<char>>::empty() =~= before);
    }
    while i > 0
        invariant
            i <= logs.len(),
            records == spec_log_records(logs@),
            spec_texts(lines@) == before + spec_lines_with_hours(
                records.subrange(i as int, logs.len() as int),
                weekday.spec_index(),
                hours as int,
            ),
        decreases i,
    {
        let log = &logs[i - 1];
        let ghost seen = lines@;
        proof {
            let from = records.subrange(i - 1, logs.len() as int);
            assert(from.drop_first() =~= records.subrange(i as int, logs.len() as int));
            assert(from[0] == log@);
        }
        if log.hours == hours && log.date.weekday().num_days_from_monday()
            == weekday.num_days_from_monday() {
            let text = log_line(log);
            let ghost added = text@;
            lines.push(text);
            proof {
                assert(spec_texts(lines@) =~= spec_texts(seen).push(added));
                assert(spec_texts(lines@) =~= before + spec_lines_with_hours(
                    records.subrange(i - 1, logs.len() as int),
                    weekday.spec_index(),
                    hours as int,
                ));
            }
        }
        i -= 1;
    }
    proof {
        assert(records.subrange(0, logs.len() as int) =~= records);
    }
}

/// Adds the lines of a day of the week: its name, then its log elements
/// from the most hours to the least.
pub fn push_day_lines(lines: &mut Vec<String>, logs: &Vec<LogElement>, weekday: Weekday)
    ensures
        spec_texts(final(lines)@) == spec_texts(old(lines)@) + spec_day_lines(
            spec_log_records(logs@),
            weekday.spec_index(),
        ),
{
    let ghost records = spec_log_records(logs@);
    let ghost before = spec_texts(lines@);
    let ghost seen = lines@;
    let ghost day = weekday.spec_index();
    lines.push(weekday.name().to_owned());
    let ghost named = before.push(spec_weekdays()[day].spec_name());
    let mut next: u16 = 256;
    proof {
        assert(spec_texts(lines@) =~= spec_texts(seen).push(weekday.spec_name()));
        assert(named + Seq::<Seq<char>>::empty() =~= named);
    }
    while next > 0
        invariant
            next <= 256,
            records == spec_log_records(logs@),
            day == weekday.spec_index(),
            spec_texts(lines@) == named + spec_lines_down_to(records, day, next as int),
        decreases next,
    {
        let hours: u8 = (next - 1) as u8;
        push_lines_with_hours(lines, logs, weekday, hours);
        proof {
            assert(spec_texts(lines@) =~= named + spec_lines_down_to(records, day, next - 1));
        }
        next -= 1;
    }
    proof {
        assert(spec_texts(lines@) =~= before + spec_day_lines(records, day));
    }
}

/// The logged hours as lines: a title, then day by day from Monday on the
/// name of the day and its log elements, those of the most hours first and
/// of those with the same hours the last first.
pub fn current_logs_lines(logs: &Vec<LogElement>) -> (lines: Vec<String>)
    ensures
        spec_texts(lines@) == spec_current_logs(spec_log_records(logs@)),
{
    let ghost records = spec_log_records(logs@);
    let days = weekdays();
    let mut lines: Vec<String> = Vec::new();
    lines.push("=== Current time logs: ===".to_owned());
    let mut d: usize = 0;
    proof {
        assert(spec_texts(lines@) =~= spec_current_logs_upto(records, 0));
    }
    while d < 7
        invariant
            d <= 7,
            days@ == spec_weekdays(),
            records == spec_log_records(logs@),
            spec_texts(lines@) == spec_current_logs_upto(records, d as int),
        decreases 7 - d,
    {
        assert(days[d as int].spec_index() == d);
        push_day_lines(&mut lines, logs, days[d]);
        d += 1;
    }
    lines
}

} // verus!
