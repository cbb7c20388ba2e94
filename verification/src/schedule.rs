//! Preparing Daily candidates on a schedule.
use crate::clock::ScheduleClock;
use crate::errors::{ApiError, ErrorView, internal_of};
use crate::generation::{bounded_schedule_error, kept_message, optional_error};
use crate::models::Moment;
use crate::text::{contains, occurs, opt_text, str_eq};
use vstd::prelude::*;
use vstd::string::*;

verus! {

/// What the scheduler is to do next. Days are named by how many days ago they
/// were.
#[derive(Debug)]
pub enum ScheduleAction {
    /// Read what day it is in the workspace, and when a day is prepared.
    ReadClock,
    /// Find out whether a day is due.
    LookAt(u16),
    /// Find out whether anything happened on a day that is due.
    Inspect(u16),
    /// Put a run for a day into the queue, and claim it.
    Enqueue(u16),
    /// Generate the candidate of a claimed day.
    Generate(u16),
    /// End the run of a claimed day, with its error if it failed.
    Finish { days_ago: u16, error: Option<String> },
    /// Nothing more in this round.
    Stop,
    Fail(ApiError),
}

pub enum ScheduleView {
    ReadClock,
    LookAt(nat),
    Inspect(nat),
    Enqueue(nat),
    Generate(nat),
    Finish { days_ago: nat, error: Option<Seq<char>> },
    Stop,
    Fail(ErrorView),
}

impl View for ScheduleAction {
    type V = ScheduleView;

    open spec fn view(&self) -> ScheduleView {
        match self {
            ScheduleAction::ReadClock => ScheduleView::ReadClock,
            ScheduleAction::LookAt(d) => ScheduleView::LookAt(*d as nat),
            ScheduleAction::Inspect(d) => ScheduleView::Inspect(*d as nat),
            ScheduleAction::Enqueue(d) => ScheduleView::Enqueue(*d as nat),
            ScheduleAction::Generate(d) => ScheduleView::Generate(*d as nat),
            ScheduleAction::Finish { days_ago, error } => ScheduleView::Finish {
                days_ago: *days_ago as nat,
                error: opt_text(*error),
            },
            ScheduleAction::Stop => ScheduleView::Stop,
            ScheduleAction::Fail(error) => ScheduleView::Fail(error@),
        }
    }
}

/// The day after which the scheduler looks, if there is one within reach.
pub open spec fn next_day(days_ago: nat, catch_up_days: nat) -> ScheduleView {
    if days_ago < catch_up_days {
        ScheduleView::LookAt(days_ago + 1)
    } else {
        ScheduleView::Stop
    }
}

fn go_on(days_ago: u16, catch_up_days: u16) -> (r: ScheduleAction)
    ensures
        r@ == next_day(days_ago as nat, catch_up_days as nat),
{
    if days_ago < catch_up_days {
        ScheduleAction::LookAt(days_ago + 1)
    } else {
        ScheduleAction::Stop
    }
}

/// How a round begins. It is skipped while a draft is being prepared, while no
/// workspace is set up, and where the schedule is off. `workspace` is the error
/// with which the workspace was refused, if it was.
pub open spec fn round_start(
    busy: bool,
    workspace: Option<ErrorView>,
    enabled: bool,
) -> ScheduleView {
    if busy {
        ScheduleView::Stop
    } else {
        match workspace {
            Some(error) => if error.status == 409 {
                ScheduleView::Stop
            } else {
                ScheduleView::Fail(error)
            },
            None => if enabled {
                ScheduleView::ReadClock
            } else {
                ScheduleView::Stop
            },
        }
    }
}

pub fn start_round(busy: bool, workspace: Option<ApiError>, enabled: bool) -> (r: ScheduleAction)
    ensures
        r@ == round_start(
            busy,
            match workspace {
                Some(error) => Some(error@),
                None => None,
            },
            enabled,
        ),
{
    if busy {
        return ScheduleAction::Stop;
    }
    match workspace {
        Some(error) => {
            if error.status == 409 {
                ScheduleAction::Stop
            } else {
                ScheduleAction::Fail(error)
            }
        },
        None => {
            if enabled {
                ScheduleAction::ReadClock
            } else {
                ScheduleAction::Stop
            }
        },
    }
}

/// What a round does with its clock: it looks at the day before today first,
/// or fails with the error for which there is no clock.
pub open spec fn clock_step(
    clock: Result<ScheduleClock, ApiError>,
    catch_up_days: nat,
) -> ScheduleView {
    match clock {
        Ok(_) => next_day(0, catch_up_days),
        Err(error) => ScheduleView::Fail(error@),
    }
}

pub fn after_clock(clock: Result<ScheduleClock, ApiError>, catch_up_days: u16) -> (r: ScheduleAction)
    ensures
        r@ == clock_step(clock, catch_up_days as nat),
{
    match clock {
        Ok(_) => go_on(0, catch_up_days),
        Err(error) => ScheduleAction::Fail(error),
    }
}

/// What becomes of a day: it is inspected once it is due.
pub open spec fn due_step(
    days_ago: nat,
    catch_up_days: nat,
    due_at: Moment,
    now: Moment,
) -> ScheduleView {
    if now.is_before(due_at) {
        next_day(days_ago, catch_up_days)
    } else {
        ScheduleView::Inspect(days_ago)
    }
}

pub fn after_due(days_ago: u16, catch_up_days: u16, due_at: &Moment, now: &Moment) -> (r:
    ScheduleAction)
    ensures
        r@ == due_step(days_ago as nat, catch_up_days as nat, *due_at, *now),
{
    if now.before(due_at) {
        go_on(days_ago, catch_up_days)
    } else {
        ScheduleAction::Inspect(days_ago)
    }
}

/// What becomes of a day that is due: it is prepared if something happened on
/// it.
pub open spec fn day_step(
    days_ago: nat,
    catch_up_days: nat,
    has_automated_evidence: bool,
    has_manual_entries: bool,
) -> ScheduleView {
    if !has_automated_evidence && !has_manual_entries {
        next_day(days_ago, catch_up_days)
    } else {
        ScheduleView::Enqueue(days_ago)
    }
}

pub fn after_look(
    days_ago: u16,
    catch_up_days: u16,
    has_automated_evidence: bool,
    has_manual_entries: bool,
) -> (r: ScheduleAction)
    ensures
        r@ == day_step(
            days_ago as nat,
            catch_up_days as nat,
            has_automated_evidence,
            has_manual_entries,
        ),
{
    if !has_automated_evidence && !has_manual_entries {
        go_on(days_ago, catch_up_days)
    } else {
        ScheduleAction::Enqueue(days_ago)
    }
}

/// What claiming a run came to.
#[derive(Debug, Clone, Copy, PartialEq, Eq, Structural)]
pub enum Claim {
    /// The run belongs to another, or is not to be tried yet.
    Refused,
    /// The run was claimed without a token.
    Untokened,
    Claimed,
}

/// What becomes of a day whose run was to be claimed; a day with a candidate is
/// done.
pub open spec fn claim_step(
    days_ago: nat,
    catch_up_days: nat,
    claim: Claim,
    has_revision: bool,
) -> ScheduleView {
    match claim {
        Claim::Refused => next_day(days_ago, catch_up_days),
        Claim::Untokened => ScheduleView::Fail(
            internal_of("claimed schedule run has no claim token"@),
        ),
        Claim::Claimed => if has_revision {
            ScheduleView::Finish { days_ago, error: None }
        } else {
            ScheduleView::Generate(days_ago)
        },
    }
}

pub fn after_claim(days_ago: u16, catch_up_days: u16, claim: Claim, has_revision: bool) -> (r:
    ScheduleAction)
    ensures
        r@ == claim_step(days_ago as nat, catch_up_days as nat, claim, has_revision),
{
    match claim {
        Claim::Refused => go_on(days_ago, catch_up_days),
        Claim::Untokened => ScheduleAction::Fail(
            ApiError::internal("claimed schedule run has no claim token"),
        ),
        Claim::Claimed => {
            if has_revision {
                ScheduleAction::Finish { days_ago, error: None }
            } else {
                ScheduleAction::Generate(days_ago)
            }
        },
    }
}

/// What becomes of a run after its generation: a canceled one is left as it is,
/// one that met the owner's edits is done, and any other error is kept.
pub open spec fn run_step(days_ago: nat, error: Option<ErrorView>) -> ScheduleView {
    match error {
        None => ScheduleView::Finish { days_ago, error: None },
        Some(error) => if error.message == "Generation canceled."@ {
            ScheduleView::Stop
        } else if error.status == 409 && occurs(
            error.message,
            "current candidate has edits"@,
        ) {
            ScheduleView::Finish { days_ago, error: None }
        } else {
            ScheduleView::Finish { days_ago, error: Some(kept_message(error.message)) }
        },
    }
}

pub fn after_run(days_ago: u16, error: Option<&ApiError>) -> (r: ScheduleAction)
    ensures
        r@ == run_step(days_ago as nat, optional_error(error)),
{
    match error {
        None => ScheduleAction::Finish { days_ago, error: None },
        Some(error) => {
            let message: &str = error.message.as_str();
            if str_eq(message, "Generation canceled.") {
                ScheduleAction::Stop
            } else if error.status == 409 && contains(message, "current candidate has edits") {
                ScheduleAction::Finish { days_ago, error: None }
            } else {
                ScheduleAction::Finish { days_ago, error: Some(bounded_schedule_error(message)) }
            }
        },
    }
}

/// A round looks at days further and further back, never beyond its reach.
pub proof fn law_round_goes_back_day_by_day(
    days_ago: nat,
    catch_up_days: nat,
    due_at: Moment,
    now: Moment,
    has_automated_evidence: bool,
    has_manual_entries: bool,
    claim: Claim,
    has_revision: bool,
)
    requires
        days_ago <= catch_up_days,
    ensures
        match due_step(days_ago, catch_up_days, due_at, now) {
            ScheduleView::LookAt(d) => d == days_ago + 1 && d <= catch_up_days,
            ScheduleView::Inspect(d) => d == days_ago && !now.is_before(due_at),
            ScheduleView::Stop => true,
            _ => false,
        },
        match day_step(days_ago, catch_up_days, has_automated_evidence, has_manual_entries) {
            ScheduleView::LookAt(d) => d == days_ago + 1 && d <= catch_up_days,
            ScheduleView::Enqueue(d) => d == days_ago,
            ScheduleView::Stop => true,
            _ => false,
        },
        match claim_step(days_ago, catch_up_days, claim, has_revision) {
            ScheduleView::LookAt(d) => d == days_ago + 1 && d <= catch_up_days,
            ScheduleView::Generate(d) => d == days_ago,
            ScheduleView::Finish { days_ago: d, error } => d == days_ago && error is None,
            ScheduleView::Stop | ScheduleView::Fail(_) => true,
            _ => false,
        },
{
}

/// A round generates at most one candidate: whatever the generation of a day
/// came to, the round ends with it. And a day that has a candidate is not
/// generated again.
pub proof fn law_one_candidate_per_round(
    days_ago: nat,
    catch_up_days: nat,
    error: Option<ErrorView>,
    claim: Claim,
)
    ensures
        run_step(days_ago, error) is Finish || run_step(days_ago, error) is Stop,
        !(claim_step(days_ago, catch_up_days, claim, true) is Generate),
{
}

} // verus!
