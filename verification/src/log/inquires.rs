//! The questions of a logging session and what follows from the answers.

use crate::configuration::{Configuration, TagConfiguration, TagRule};
use crate::log::calendar::{spec_date_exists, spec_days_from_monday, Date};
use crate::log::log_buffer::{
    spec_cleared, spec_log_records, spec_logged, spec_new, spec_valid, spec_week_logs,
    spec_week_on_calendar, BufferState, Entry, LogBuffer, TIME_PER_DAY,
};
use crate::log::text::{chars_of, spec_split_piece, split_piece};
use crate::log::{spec_tag, LogElement, LogRecord, Weekday};
use crate::repo::branch_collecting::RepoBranch;
use vstd::prelude::*;

verus! {

/// What the user wants next, once a batch of work is logged.
#[derive(Debug, Clone, Copy, PartialEq, Eq, Structural)]
pub enum UserAction {
    ContinueAdding,
    Done,
    ClearDays,
}

impl UserAction {
    /// The actions in the order in which they are offered.
    pub fn iter() -> (actions: Vec<UserAction>)
        ensures
            actions@ == seq![UserAction::ContinueAdding, UserAction::Done, UserAction::ClearDays],
    {
        let mut actions: Vec<UserAction> = Vec::new();
        actions.push(UserAction::ContinueAdding);
        actions.push(UserAction::Done);
        actions.push(UserAction::ClearDays);
        proof {
            assert(actions@ =~= seq![
                UserAction::ContinueAdding,
                UserAction::Done,
                UserAction::ClearDays,
            ]);
        }
        actions
    }

    /// The action as it is shown to the user.
    pub fn label(&self) -> (text: &'static str)
        ensures
            text@ == spec_action_label(*self),
    {
        match self {
            UserAction::ContinueAdding => "Continue adding",
            UserAction::Done => "Finish",
            UserAction::ClearDays => "Clear Days",
        }
    }
}

/// The action as it is shown to the user.
pub open spec fn spec_action_label(action: UserAction) -> Seq<char> {
    match action {
        UserAction::ContinueAdding => "Continue adding"@,
        UserAction::Done => "Finish"@,
        UserAction::ClearDays => "Clear Days"@,
    }
}

/// The tag of a branch: the prefix, a space, and the piece of the branch
/// name that the rule picks, or the whole name where the split has no such
/// piece.
pub open spec fn spec_make_tag(branch_name: Seq<char>, rule: TagRule) -> Seq<char> {
    let body = match spec_split_piece(branch_name, rule.separator, rule.element_index) {
        Some(piece) => piece,
        None => branch_name,
    };
    rule.prefix + seq![' '] + body
}

/// The tag that is offered for work on a branch.
pub fn make_tag(branch_name: &str, tag_configuration: &TagConfiguration) -> (tag: String)
    ensures
        tag@ == spec_make_tag(branch_name@, tag_configuration@),
{
    let name = chars_of(branch_name);
    let separator = chars_of(tag_configuration.separator.as_str());
    let body: &str = match split_piece(&name, &separator, tag_configuration.element_index) {
        Some((from, to)) => branch_name.substring_char(from, to),
        None => branch_name,
    };
    proof {
        reveal_strlit(" ");
        assert(" "@ =~= seq![' ']);
    }
    tag_configuration.prefix.clone().concat(" ").concat(body)
}

/// The tag that the user's answer stands for: none where the answer is
/// `untag`.
pub fn tag_from_answer(answer: String) -> (tag: Option<String>)
    ensures
        spec_tag(tag) == spec_tag_answer(answer@),
{
    let untag: String = "untag".to_owned();
    if answer == untag {
        None
    } else {
        Some(answer)
    }
}

/// The tag that an answer stands for: none where the answer is `untag`.
pub open spec fn spec_tag_answer(answer: Seq<char>) -> Option<Seq<char>> {
    if answer == "untag"@ {
        None
    } else {
        Some(answer)
    }
}

/// What a session waits for.
#[derive(Debug, Clone, Copy, PartialEq, Eq, Structural)]
pub enum Stage {
    /// A day of the week to log.
    Week,
    /// The hours of untagged work on each day.
    UntaggedHours,
    /// The ticket of untagged work.
    UntaggedTicket,
    /// The days that share the next entry.
    Days,
    /// The ticket of the next entry.
    Ticket,
    /// The branch that the work was done on.
    Branch,
    /// The tag of the next entry.
    Tag,
    /// What to do next.
    Action,
    /// The days to clear.
    DaysToClear,
    /// Nothing: the log is made.
    Finished,
}

/// An answer of the user.
#[derive(Debug)]
pub enum Answer {
    Week(Date),
    UntaggedHours(u8),
    Ticket(String),
    Days(Vec<Weekday>),
    Branch(RepoBranch),
    Tag(String),
    Action(UserAction),
}

/// An [`Answer`] as a mathematical value.
pub enum AnswerValue {
    /// The number of the chosen day.
    Week(int),
    UntaggedHours(nat),
    Ticket(Seq<char>),
    Days(Seq<Weekday>),
    /// The name of the chosen branch.
    Branch(Seq<char>),
    Tag(Seq<char>),
    Action(UserAction),
}

impl View for Answer {
    type V = AnswerValue;

    open spec fn view(&self) -> AnswerValue {
        match *self {
            Answer::Week(day) => AnswerValue::Week(day@),
            Answer::UntaggedHours(hours) => AnswerValue::UntaggedHours(hours as nat),
            Answer::Ticket(ticket) => AnswerValue::Ticket(ticket@),
            Answer::Days(days) => AnswerValue::Days(days@),
            Answer::Branch(branch) => AnswerValue::Branch(branch.branch_name@),
            Answer::Tag(tag) => AnswerValue::Tag(tag@),
            Answer::Action(action) => AnswerValue::Action(action),
        }
    }
}

/// Why a session ends without a log.
#[derive(Debug, Clone, Copy, PartialEq, Eq, Structural)]
pub enum SessionError {
    /// The Monday of the chosen week is no date of the calendar.
    NoMonday,
    /// Untagged work is to take more than the hours of a day.
    TooMuchUntagged,
    /// A day that work was entered for is no date of the calendar.
    DateOutOfRange,
    /// The answer is not one to the question that was asked.
    UnexpectedAnswer,
}

impl SessionError {
    /// The error in words.
    pub fn message(&self) -> (text: &'static str)
        ensures
            text@ == spec_error_message(*self),
    {
        match self {
            SessionError::NoMonday => "could not get monday",
            SessionError::TooMuchUntagged => "More than 8 hours of untagged time per day",
            SessionError::DateOutOfRange => "Date out of range.",
            SessionError::UnexpectedAnswer => "answer does not fit the question",
        }
    }
}

/// The error in words.
pub open spec fn spec_error_message(error: SessionError) -> Seq<char> {
    match error {
        SessionError::NoMonday => "could not get monday"@,
        SessionError::TooMuchUntagged => "More than 8 hours of untagged time per day"@,
        SessionError::DateOutOfRange => "Date out of range."@,
        SessionError::UnexpectedAnswer => "answer does not fit the question"@,
    }
}

/// What is to be done once an answer is taken.
#[derive(Debug)]
pub enum Outcome {
    /// Ask the next question.
    Ask,
    /// Show the log as it stands, then ask the next question.
    Show(Vec<LogElement>),
    /// The session is over; this is the log.
    Finished(Vec<LogElement>),
}

/// A session of questions and answers that makes the log of one week.
pub struct Session {
    stage: Stage,
    week_start: Option<Date>,
    untagged_hours: u8,
    buffer: LogBuffer,
    days: Vec<Weekday>,
    ticket: String,
    branch_name: String,
}

/// A [`Session`] as a mathematical value.
pub struct SessionState {
    pub stage: Stage,
    /// The number of the Monday of the week, once the week is chosen.
    pub week_start: Option<int>,
    pub untagged_hours: nat,
    pub buffer: BufferState,
    /// The days that share the entry that is being asked for.
    pub days: Seq<Weekday>,
    /// The ticket of the entry that is being asked for.
    pub ticket: Seq<char>,
    /// The branch of the entry that is being asked for.
    pub branch_name: Seq<char>,
}

impl View for Session {
    type V = SessionState;

    closed spec fn view(&self) -> SessionState {
        SessionState {
            stage: self.stage,
            week_start: match self.week_start {
                Some(day) => Some(day@),
                None => None,
            },
            untagged_hours: self.untagged_hours as nat,
            buffer: self.buffer@,
            days: self.days@,
            ticket: self.ticket@,
            branch_name: self.branch_name@,
        }
    }
}

/// The state of a session before the first question.
pub open spec fn spec_first_state() -> SessionState {
    SessionState {
        stage: Stage::Week,
        week_start: None,
        untagged_hours: 0,
        buffer: spec_new(Seq::empty(), 0),
        days: Seq::empty(),
        ticket: Seq::empty(),
        branch_name: Seq::empty(),
    }
}

/// Whether a state is one that a session can have: once the week is
/// chosen its Monday is known, and while the user decides what to do next
/// every day that work was entered for is a date of the calendar.
pub open spec fn spec_session_valid(state: SessionState) -> bool {
    &&& spec_valid(state.buffer)
    &&& state.stage != Stage::Week ==> state.week_start.is_some()
    &&& state.stage == Stage::Action ==> spec_week_on_calendar(
        state.buffer,
        state.week_start.unwrap(),
    )
}

/// The buffer after an entry was made on each of the days, one after the
/// other.
pub open spec fn spec_log_days(buffer: BufferState, days: Seq<Weekday>, entry: Entry) -> BufferState
    decreases days.len(),
{
    if days.len() == 0 {
        buffer
    } else {
        spec_logged(spec_log_days(buffer, days.drop_last(), entry), days.last().spec_index(), entry)
    }
}

/// The buffer after each of the days was cleared.
pub open spec fn spec_clear_days(buffer: BufferState, days: Seq<Weekday>) -> BufferState
    decreases days.len(),
{
    if days.len() == 0 {
        buffer
    } else {
        spec_cleared(spec_clear_days(buffer, days.drop_last()), days.last().spec_index())
    }
}

/// The state after an answer, or why the session ends.
///
/// The questions follow one another: the week, the hours and the ticket
/// of untagged work, and then, for each entry, the days, the ticket, the
/// branch and the tag. After each entry the user decides what is next:
/// another entry, clearing days and then another entry, or the end.
pub open spec fn spec_answered(state: SessionState, answer: AnswerValue) -> Result<
    SessionState,
    SessionError,
> {
    match (state.stage, answer) {
        (Stage::Week, AnswerValue::Week(day)) => {
            let monday = day - spec_days_from_monday(day);
            if spec_date_exists(monday) {
                Ok(SessionState { stage: Stage::UntaggedHours, week_start: Some(monday), ..state })
            } else {
                Err(SessionError::NoMonday)
            }
        },
        (Stage::UntaggedHours, AnswerValue::UntaggedHours(hours)) => Ok(
            SessionState { stage: Stage::UntaggedTicket, untagged_hours: hours, ..state },
        ),
        (Stage::UntaggedTicket, AnswerValue::Ticket(ticket)) => {
            if state.untagged_hours <= TIME_PER_DAY {
                Ok(
                    SessionState {
                        stage: Stage::Days,
                        buffer: spec_new(ticket, state.untagged_hours),
                        ..state
                    },
                )
            } else {
                Err(SessionError::TooMuchUntagged)
            }
        },
        (Stage::Days, AnswerValue::Days(days)) => Ok(
            SessionState { stage: Stage::Ticket, days, ..state },
        ),
        (Stage::Ticket, AnswerValue::Ticket(ticket)) => Ok(
            SessionState { stage: Stage::Branch, ticket, ..state },
        ),
        (Stage::Branch, AnswerValue::Branch(branch_name)) => Ok(
            SessionState { stage: Stage::Tag, branch_name, ..state },
        ),
        (Stage::Tag, AnswerValue::Tag(tag)) => {
            let buffer = spec_log_days(
                state.buffer,
                state.days,
                Entry { ticket: state.ticket, tag: spec_tag_answer(tag) },
            );
            if spec_week_on_calendar(buffer, state.week_start.unwrap()) {
                Ok(SessionState { stage: Stage::Action, buffer, ..state })
            } else {
                Err(SessionError::DateOutOfRange)
            }
        },
        (Stage::Action, AnswerValue::Action(action)) => Ok(
            SessionState {
                stage: match action {
                    UserAction::ContinueAdding => Stage::Days,
                    UserAction::ClearDays => Stage::DaysToClear,
                    UserAction::Done => Stage::Finished,
                },
                ..state
            },
        ),
        (Stage::DaysToClear, AnswerValue::Days(days)) => {
            let buffer = spec_clear_days(state.buffer, days);
            if spec_week_on_calendar(buffer, state.week_start.unwrap()) {
                Ok(SessionState { stage: Stage::Days, buffer, ..state })
            } else {
                Err(SessionError::DateOutOfRange)
            }
        },
        _ => Err(SessionError::UnexpectedAnswer),
    }
}

/// Whether the log is shown after an answer given at `stage`.
pub open spec fn spec_shows_log(stage: Stage) -> bool {
    stage == Stage::Tag || stage == Stage::DaysToClear
}

/// The log of a session as it stands.
pub open spec fn spec_session_logs(state: SessionState) -> Seq<LogRecord> {
    spec_week_logs(state.buffer, state.week_start.unwrap(), 7)
}

/// Whether `outcome` is what follows an answer given at `stage` that led
/// to the state `next`.
pub open spec fn spec_outcome(stage: Stage, next: SessionState, outcome: Outcome) -> bool {
    match outcome {
        Outcome::Ask => !spec_shows_log(stage) && next.stage != Stage::Finished,
        Outcome::Show(logs) => spec_shows_log(stage) && spec_log_records(logs@)
            == spec_session_logs(next),
        Outcome::Finished(logs) => next.stage == Stage::Finished && spec_log_records(logs@)
            == spec_session_logs(next),
    }
}

/// Enters the same work for each of the days.
pub fn log_days(buffer: &mut LogBuffer, days: &Vec<Weekday>, ticket: &str, tag: &Option<String>)
    requires
        spec_valid(old(buffer)@),
    ensures
        final(buffer)@ == spec_log_days(
            old(buffer)@,
            days@,
            Entry { ticket: ticket@, tag: spec_tag(*tag) },
        ),
        spec_valid(final(buffer)@),
{
    let ghost before = buffer@;
    let ghost entry = Entry { ticket: ticket@, tag: spec_tag(*tag) };
    let mut i: usize = 0;
    proof {
        assert(days@.subrange(0, 0) =~= Seq::<Weekday>::empty());
    }
    while i < days.len()
        invariant
            i <= days.len(),
            entry == (Entry { ticket: ticket@, tag: spec_tag(*tag) }),
            spec_valid(buffer@),
            buffer@ == spec_log_days(before, days@.subrange(0, i as int), entry),
        decreases days.len() - i,
    {
        proof {
            assert(days@.subrange(0, i + 1).drop_last() =~= days@.subrange(0, i as int));
        }
        buffer.log_on_day(days[i], ticket, tag);
        i += 1;
    }
    proof {
        assert(days@.subrange(0, days.len() as int) =~= days@);
    }
}

/// Forgets what was entered for each of the days.
pub fn clear_days(buffer: &mut LogBuffer, days: &Vec<Weekday>)
    requires
        spec_valid(old(buffer)@),
    ensures
        final(buffer)@ == spec_clear_days(old(buffer)@, days@),
        spec_valid(final(buffer)@),
{
    let ghost before = buffer@;
    let mut i: usize = 0;
    proof {
        assert(days@.subrange(0, 0) =~= Seq::<Weekday>::empty());
    }
    while i < days.len()
        invariant
            i <= days.len(),
            spec_valid(buffer@),
            buffer@ == spec_clear_days(before, days@.subrange(0, i as int)),
        decreases days.len() - i,
    {
        proof {
            assert(days@.subrange(0, i + 1).drop_last() =~= days@.subrange(0, i as int));
        }
        buffer.clear_day(days[i]);
        i += 1;
    }
    proof {
        assert(days@.subrange(0, days.len() as int) =~= days@);
    }
}

impl Session {
    /// A session that waits for the week.
    pub fn new() -> (session: Session)
        ensures
            session@ == spec_first_state(),
            spec_session_valid(session@),
    {
        Session {
            stage: Stage::Week,
            week_start: None,
            untagged_hours: 0,
            buffer: LogBuffer::new(String::new(), 0),
            days: Vec::new(),
            ticket: String::new(),
            branch_name: String::new(),
        }
    }

    /// What the session waits for.
    pub fn stage(&self) -> (stage: Stage)
        ensures
            stage == self@.stage,
    {
        self.stage
    }

    /// The question that the session waits for an answer to, in words.
    pub fn question(&self) -> (text: &'static str)
        ensures
            text@ == spec_question(self@.stage),
    {
        match self.stage {
            Stage::Week => "Select week to log (day of week doesn't matter)",
            Stage::UntaggedHours => "How much untagged work per day?",
            Stage::UntaggedTicket => "Which ticket to log untagged work for",
            Stage::Days => "Select days with the same worklog.",
            Stage::Ticket => "Which ticket to log for?",
            Stage::Branch => "Which branch to log work on?",
            Stage::Tag => "Override tag name [type `untag` for untagged work]:",
            Stage::Action => "What to do next?",
            Stage::DaysToClear => "Select days with the same worklog.",
            Stage::Finished => "",
        }
    }

    /// The tag that is offered for the chosen branch.
    pub fn default_tag(&self, config: &Configuration) -> (tag: String)
        ensures
            tag@ == spec_make_tag(self@.branch_name, config.tag_configuration@),
    {
        make_tag(self.branch_name.as_str(), &config.tag_configuration)
    }

    /// Takes the answer to the question that the session waits for.
    ///
    /// Gives the session as it is after the answer and what is to be done
    /// before the next question, or the reason why the session ends
    /// without a log.
    pub fn answer(self, answer: Answer) -> (r: Result<(Session, Outcome), SessionError>)
        requires
            spec_session_valid(self@),
        ensures
            match r {
                Ok((next, outcome)) => spec_answered(self@, answer@) == Ok::<
                    SessionState,
                    SessionError,
                >(next@) && spec_session_valid(next@) && spec_outcome(
                    self@.stage,
                    next@,
                    outcome,
                ),
                Err(e) => spec_answered(self@, answer@) == Err::<SessionState, SessionError>(e),
            },
    {
        let Session { stage, week_start, untagged_hours, buffer, days, ticket, branch_name } = self;
        let mut buffer = buffer;
        match (stage, answer) {
            (Stage::Week, Answer::Week(day)) => {
                match day.monday_of_week() {
                    Some(monday) => Ok(
                        (
                            Session {
                                stage: Stage::UntaggedHours,
                                week_start: Some(monday),
                                untagged_hours,
                                buffer,
                                days,
                                ticket,
                                branch_name,
                            },
                            Outcome::Ask,
                        ),
                    ),
                    None => Err(SessionError::NoMonday),
                }
            },
            (Stage::UntaggedHours, Answer::UntaggedHours(hours)) => Ok(
                (
                    Session {
                        stage: Stage::UntaggedTicket,
                        week_start,
                        untagged_hours: hours,
                        buffer,
                        days,
                        ticket,
                        branch_name,
                    },
                    Outcome::Ask,
                ),
            ),
            (Stage::UntaggedTicket, Answer::Ticket(untagged_ticket)) => {
                match LogBuffer::checked_new(untagged_ticket, untagged_hours) {
                    Some(fresh) => Ok(
                        (
                            Session {
                                stage: Stage::Days,
                                week_start,
                                untagged_hours,
                                buffer: fresh,
                                days,
                                ticket,
                                branch_name,
                            },
                            Outcome::Ask,
                        ),
                    ),
                    None => Err(SessionError::TooMuchUntagged),
                }
            },
            (Stage::Days, Answer::Days(chosen)) => Ok(
                (
                    Session {
                        stage: Stage::Ticket,
                        week_start,
                        untagged_hours,
                        buffer,
                        days: chosen,
                        ticket,
                        branch_name,
                    },
                    Outcome::Ask,
                ),
            ),
            (Stage::Ticket, Answer::Ticket(chosen)) => Ok(
                (
                    Session {
                        stage: Stage::Branch,
                        week_start,
                        untagged_hours,
                        buffer,
                        days,
                        ticket: chosen,
                        branch_name,
                    },
                    Outcome::Ask,
                ),
            ),
            (Stage::Branch, Answer::Branch(branch)) => Ok(
                (
                    Session {
                        stage: Stage::Tag,
                        week_start,
                        untagged_hours,
                        buffer,
                        days,
                        ticket,
                        branch_name: branch.branch_name,
                    },
                    Outcome::Ask,
                ),
            ),
            (Stage::Tag, Answer::Tag(tag_answer)) => {
                let tag = tag_from_answer(tag_answer);
                log_days(&mut buffer, &days, ticket.as_str(), &tag);
                let monday = week_start.unwrap();
                match buffer.checked_log_element_vec(&monday) {
                    Some(logs) => Ok(
                        (
                            Session {
                                stage: Stage::Action,
                                week_start,
                                untagged_hours,
                                buffer,
                                days,
                                ticket,
                                branch_name,
                            },
                            Outcome::Show(logs),
                        ),
                    ),
                    None => Err(SessionError::DateOutOfRange),
                }
            },
            (Stage::Action, Answer::Action(action)) => {
                match action {
                    UserAction::ContinueAdding => Ok(
                        (
                            Session {
                                stage: Stage::Days,
                                week_start,
                                untagged_hours,
                                buffer,
                                days,
                                ticket,
                                branch_name,
                            },
                            Outcome::Ask,
                        ),
                    ),
                    UserAction::ClearDays => Ok(
                        (
                            Session {
                                stage: Stage::DaysToClear,
                                week_start,
                                untagged_hours,
                                buffer,
                                days,
                                ticket,
                                branch_name,
                            },
                            Outcome::Ask,
                        ),
                    ),
                    UserAction::Done => {
                        let monday = week_start.unwrap();
                        let logs = buffer.to_log_element_vec(&monday);
                        Ok(
                            (
                                Session {
                                    stage: Stage::Finished,
                                    week_start,
                                    untagged_hours,
                                    buffer,
                                    days,
                                    ticket,
                                    branch_name,
                                },
                                Outcome::Finished(logs),
                            ),
                        )
                    },
                }
            },
            (Stage::DaysToClear, Answer::Days(chosen)) => {
                clear_days(&mut buffer, &chosen);
                let monday = week_start.unwrap();
                match buffer.checked_log_element_vec(&monday) {
                    Some(logs) => Ok(
                        (
                            Session {
                                stage: Stage::Days,
                                week_start,
                                untagged_hours,
                                buffer,
                                days,
                                ticket,
                                branch_name,
                            },
                            Outcome::Show(logs),
                        ),
                    ),
                    None => Err(SessionError::DateOutOfRange),
                }
            },
            _ => Err(SessionError::UnexpectedAnswer),
        }
    }
}

/// The question of each stage, in words.
pub open spec fn spec_question(stage: Stage) -> Seq<char> {
    match stage {
        Stage::Week => "Select week to log (day of week doesn't matter)"@,
        Stage::UntaggedHours => "How much untagged work per day?"@,
        Stage::UntaggedTicket => "Which ticket to log untagged work for"@,
        Stage::Days => "Select days with the same worklog."@,
        Stage::Ticket => "Which ticket to log for?"@,
        Stage::Branch => "Which branch to log work on?"@,
        Stage::Tag => "Override tag name [type `untag` for untagged work]:"@,
        Stage::Action => "What to do next?"@,
        Stage::DaysToClear => "Select days with the same worklog."@,
        Stage::Finished => ""@,
    }
}

} // verus!
