//! Attempts to generate a Daily: stages, retries and how they end.
use crate::apply::optional_is;
use crate::curation::at_most;
use crate::errors::{
    ApiError, ErrorView, checks, conflict_of, internal_of, message_says_busy, says_busy,
    unprocessable_of,
};
use crate::markdown::control_code;
use crate::text::{chars_of, contains, lemma_take_step, occurs, opt_text, str_eq, trim, trimmed};
use vstd::prelude::*;
use vstd::string::*;

verus! {

/// Whether a Daily is generated with the configured reference notes.
#[derive(Debug, Default, Clone, Copy, PartialEq, Eq, Structural)]
pub enum ReferenceMode {
    #[default]
    Configured,
    Without,
}

pub open spec fn mode_text(mode: ReferenceMode) -> Seq<char> {
    match mode {
        ReferenceMode::Configured => "configured"@,
        ReferenceMode::Without => "none"@,
    }
}

impl ReferenceMode {
    pub fn as_str(self) -> (r: &'static str)
        ensures
            r@ == mode_text(self),
    {
        match self {
            ReferenceMode::Configured => "configured",
            ReferenceMode::Without => "none",
        }
    }
}

/// The error of a database operation that failed; `busy` says whether the
/// database was busy.
pub open spec fn database_failure(busy: bool, message: Seq<char>) -> ErrorView {
    if busy {
        ErrorView {
            code: Some("database_busy"@),
            ..conflict_of(
                "The database is busy. Retry preparation; your notes and previous draft are unchanged."@,
            )
        }
    } else {
        conflict_of(message)
    }
}

pub fn database_error(busy: bool, message: &str) -> (r: ApiError)
    ensures
        r@ == database_failure(busy, message@),
{
    if busy {
        ApiError::conflict(
            "The database is busy. Retry preparation; your notes and previous draft are unchanged.",
        ).with_code("database_busy")
    } else {
        ApiError::conflict(message)
    }
}

/// The retries that an attempt has left, shared by all that it saves.
#[derive(Debug, Clone, Copy, PartialEq, Eq, Structural)]
pub struct RetryBudget {
    pub used: u8,
}

/// The most retries of one attempt.
pub const MAX_SAVE_RETRIES: u8 = 2;

impl RetryBudget {
    pub open spec fn within(self) -> bool {
        self.used <= MAX_SAVE_RETRIES
    }

    /// The error with which saving ends after a failure; none where it is
    /// tried again.
    pub open spec fn ends(
        self,
        busy: bool,
        message: Seq<char>,
        past_deadline: bool,
    ) -> Option<ErrorView> {
        if !busy {
            Some(internal_of(message))
        } else if self.used >= MAX_SAVE_RETRIES || past_deadline {
            Some(
                ErrorView {
                    code: Some("database_busy"@),
                    ..internal_of("Database remained busy while saving. Retry this draft."@)
                },
            )
        } else {
            None
        }
    }

    pub fn new() -> (r: RetryBudget)
        ensures
            r.used == 0,
            r.within(),
    {
        RetryBudget { used: 0 }
    }

    /// Decides after an operation failed: with nothing it is tried again, at the
    /// cost of one retry.
    pub fn save_with_retries(&mut self, busy: bool, message: &str, past_deadline: bool) -> (r: Option<
        ApiError,
    >)
        requires
            old(self).within(),
        ensures
            final(self).within(),
            match old(self).ends(busy, message@, past_deadline) {
                Some(error) => r is Some && r->0@ == error && *final(self) == *old(self),
                None => r is None && final(self).used == old(self).used + 1,
            },
    {
        if !busy {
            return Some(ApiError::internal(message));
        }
        if self.used >= MAX_SAVE_RETRIES || past_deadline {
            return Some(
                ApiError::internal(
                    "Database remained busy while saving. Retry this draft.",
                ).with_code("database_busy"),
            );
        }
        self.used = self.used + 1;
        None
    }
}

/// How many retries a number of failures are granted, at most.
pub open spec fn retries_granted(budget: RetryBudget, failures: nat) -> nat
    decreases failures,
{
    if failures == 0 || budget.used >= MAX_SAVE_RETRIES {
        0
    } else {
        1 + retries_granted(RetryBudget { used: (budget.used + 1) as u8 }, (failures - 1) as nat)
    }
}

/// However often saving fails, an attempt tries again at most twice.
pub proof fn law_retries_are_bounded(budget: RetryBudget, failures: nat)
    requires
        budget.within(),
    ensures
        retries_granted(budget, failures) <= MAX_SAVE_RETRIES - budget.used,
    decreases failures,
{
    if failures > 0 && budget.used < MAX_SAVE_RETRIES {
        law_retries_are_bounded(
            RetryBudget { used: (budget.used + 1) as u8 },
            (failures - 1) as nat,
        );
    }
}

/// Whether an attempt that was canceled, or is past its deadline, ends before a
/// stage: it does before the model is asked and before anything is saved.
pub open spec fn stage_error(stage: Seq<char>, canceled: bool, past_deadline: bool) -> Option<
    ErrorView,
> {
    if stage == "requesting_model"@ || stage == "saving"@ {
        if canceled {
            Some(unprocessable_of("Generation canceled."@))
        } else if past_deadline {
            Some(unprocessable_of("Generation timed out."@))
        } else {
            None
        }
    } else {
        None
    }
}

pub fn check_stage(stage: &str, canceled: bool, past_deadline: bool) -> (r: Result<(), ApiError>)
    ensures
        checks(r, stage_error(stage@, canceled, past_deadline)),
{
    if str_eq(stage, "requesting_model") || str_eq(stage, "saving") {
        if canceled {
            return Err(ApiError::unprocessable("Generation canceled."));
        }
        if past_deadline {
            return Err(ApiError::unprocessable("Generation timed out."));
        }
    }
    Ok(())
}

/// A control character other than a line feed or a tab.
pub open spec fn is_odd_control(c: char) -> bool {
    control_code(c) && c != '\n' && c != '\t'
}

pub open spec fn sanitized(message: Seq<char>) -> Seq<char> {
    at_most(message, 512).map_values(
        |c: char|
            if is_odd_control(c) {
                ' '
            } else {
                c
            },
    )
}

/// The message that is kept of a failed generation.
pub open spec fn kept_message(message: Seq<char>) -> Seq<char> {
    if occurs(message, "LLM daily draft did not match the structured schema"@) {
        "The local model returned an invalid Daily draft. Nothing was written; retry generation. If it repeats, check the configured model or disable automatic preparation until the model is corrected."@
    } else if trimmed(sanitized(message)).len() == 0 {
        "Daily generation failed"@
    } else {
        sanitized(message)
    }
}

pub fn bounded_schedule_error(message: &str) -> (r: String)
    ensures
        r@ == kept_message(message@),
{
    if contains(message, "LLM daily draft did not match the structured schema") {
        return "The local model returned an invalid Daily draft. Nothing was written; retry generation. If it repeats, check the configured model or disable automatic preparation until the model is corrected.".to_owned();
    }
    let chars = chars_of(message);
    let ghost all = sanitized(message@);
    let mut r: String = String::new();
    let mut i: usize = 0;
    assert(r@ =~= all.take(0));
    while i < chars.len() && i < 512
        invariant
            chars@ == message@,
            all == sanitized(message@),
            i <= chars@.len(),
            i <= 512,
            r@ == all.take(i as int),
        decreases chars@.len() - i,
    {
        proof {
            lemma_take_step(all, i as int);
        }
        let c = chars[i];
        r.push(
            if c.is_control() && c != '\n' && c != '\t' {
                ' '
            } else {
                c
            },
        );
        i += 1;
    }
    assert(all.take(i as int) =~= all);
    if trim(r.as_str()).as_str().is_empty() {
        "Daily generation failed".to_owned()
    } else {
        r
    }
}

/// How an attempt ended, with what is kept of its error.
#[derive(Debug, Clone, PartialEq, Eq)]
pub struct AttemptEnd {
    pub state: String,
    pub error: Option<String>,
    pub failure_code: Option<String>,
}

pub struct EndView {
    pub state: Seq<char>,
    pub error: Option<Seq<char>>,
    pub failure_code: Option<Seq<char>>,
}

impl View for AttemptEnd {
    type V = EndView;

    open spec fn view(&self) -> EndView {
        EndView {
            state: self.state@,
            error: opt_text(self.error),
            failure_code: opt_text(self.failure_code),
        }
    }
}

/// How an attempt with that result ends.
pub open spec fn attempt_end(error: Option<ErrorView>) -> EndView {
    match error {
        None => EndView { state: "succeeded"@, error: None, failure_code: None },
        Some(error) => {
            let (state, code) = if error.message == "Generation canceled."@ {
                ("canceled"@, "canceled"@)
            } else if error.message == "Generation timed out."@ {
                ("timed_out"@, "timed_out"@)
            } else {
                ("failed"@, "generation_failed"@)
            };
            EndView {
                state,
                error: Some(kept_message(error.message)),
                failure_code: Some(
                    match error.code {
                        Some(code) => code,
                        None => code,
                    },
                ),
            }
        },
    }
}

pub open spec fn optional_error(error: Option<&ApiError>) -> Option<ErrorView> {
    match error {
        Some(error) => Some(error@),
        None => None,
    }
}

/// How an attempt ends; `error` is what it failed with, if it did.
pub fn finish_attempt(error: Option<&ApiError>) -> (r: AttemptEnd)
    ensures
        r@ == attempt_end(optional_error(error)),
{
    match error {
        None => AttemptEnd { state: "succeeded".to_owned(), error: None, failure_code: None },
        Some(error) => {
            let message: &str = error.message.as_str();
            let (state, code): (&str, &str) = if str_eq(message, "Generation canceled.") {
                ("canceled", "canceled")
            } else if str_eq(message, "Generation timed out.") {
                ("timed_out", "timed_out")
            } else {
                ("failed", "generation_failed")
            };
            let code = match &error.failure_code {
                Some(code) => code.as_str().to_owned(),
                None => code.to_owned(),
            };
            AttemptEnd {
                state: state.to_owned(),
                error: Some(bounded_schedule_error(message)),
                failure_code: Some(code),
            }
        },
    }
}

/// The generation status of a day after an attempt, and whether a scheduled
/// run of the day is canceled with it.
pub fn day_after_attempt(succeeded: bool, terminal: &str) -> (r: (&'static str, bool))
    ensures
        r.0@ == (if succeeded {
            "ready"@
        } else {
            "failed"@
        }),
        r.1 == (!succeeded && terminal@ == "canceled"@),
{
    let status: &'static str = if succeeded {
        "ready"
    } else {
        "failed"
    };
    (status, !succeeded && str_eq(terminal, "canceled"))
}

/// Whether a cancellation is passed on: only to the attempt that runs, and not
/// once it is saving.
pub open spec fn may_cancel(
    id: Seq<char>,
    active_id: Option<Seq<char>>,
    finished: bool,
    stage: Seq<char>,
) -> bool {
    !finished && stage != "saving"@ && active_id == Some(id)
}

pub fn accepts_cancel(id: &str, active_id: &Option<String>, finished: bool, stage: &str) -> (r: bool)
    ensures
        r == may_cancel(id@, opt_text(*active_id), finished, stage@),
{
    !finished && !str_eq(stage, "saving") && optional_is(active_id, id)
}

/// Why a model call failed, as it is reported.
pub open spec fn generation_failure(error: Seq<char>) -> ErrorView {
    let code = if error == "Generation canceled."@ {
        "canceled"@
    } else if error == "Generation timed out."@ {
        "timed_out"@
    } else if error == "database_busy"@ || says_busy(error) {
        "database_busy"@
    } else {
        "model_failed"@
    };
    let message = if error == "database_busy"@ {
        "Database remained busy while recording progress. Retry this draft."@
    } else {
        error
    };
    ErrorView { code: Some(code), ..unprocessable_of(message) }
}

pub fn generation_error(error: &str) -> (r: ApiError)
    ensures
        r@ == generation_failure(error@),
{
    let code: &str = if str_eq(error, "Generation canceled.") {
        "canceled"
    } else if str_eq(error, "Generation timed out.") {
        "timed_out"
    } else if str_eq(error, "database_busy") || message_says_busy(error) {
        "database_busy"
    } else {
        "model_failed"
    };
    let message: &str = if str_eq(error, "database_busy") {
        "Database remained busy while recording progress. Retry this draft."
    } else {
        error
    };
    ApiError::unprocessable(message).with_code(code)
}

/// A canceled attempt ends as canceled, and one past its deadline as timed out,
/// without a revision: neither goes on to save.
pub proof fn law_canceled_attempts_do_not_save(canceled: bool, past_deadline: bool)
    requires
        canceled || past_deadline,
    ensures
        stage_error("saving"@, canceled, past_deadline) is Some,
        stage_error("requesting_model"@, canceled, past_deadline) is Some,
        attempt_end(stage_error("saving"@, canceled, past_deadline)).state == (if canceled {
            "canceled"@
        } else {
            "timed_out"@
        }),
{
    reveal_strlit("Generation canceled.");
    reveal_strlit("Generation timed out.");
    assert("Generation canceled."@.len() != "Generation timed out."@.len());
}

} // verus!
