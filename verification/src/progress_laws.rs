//! How the schedule and an attempt go on, and what is reported of failures.
use crate::clock::ScheduleClock;
use crate::curation::at_most;
use crate::errors::{
    ApiError, ErrorView, bad_request_of, conflict_of, error_body, forbidden_of, internal_of,
    invalid_references_of, not_found_of, unauthorized_of, unprocessable_of,
};
use crate::generation::{
    RetryBudget, attempt_end, database_failure, generation_failure, kept_message, may_cancel,
    sanitized, stage_error,
};
use crate::json::JsonView;
use crate::models::Moment;
use crate::schedule::{
    Claim, ScheduleView, claim_step, clock_step, day_step, due_step, round_start, run_step,
};
use crate::text::{begins_with, lemma_trimmed_same, occurs, occurs_at, trimmed};
use vstd::prelude::*;
use vstd::string::*;

verus! {

/// Moments are ordered by their nanoseconds since the start of 1970.
pub proof fn law_moments_are_ordered_by_time(a: Moment, b: Moment)
    requires
        a.nanos < 1_000_000_000,
        b.nanos < 1_000_000_000,
    ensures
        a.is_before(b) <==> a.seconds * 1_000_000_000 + a.nanos < b.seconds * 1_000_000_000
            + b.nanos,
{
}

/// A round goes on just where nothing is being prepared, a workspace is set up and
/// the schedule is on; a workspace that is not set up is no failure, any other
/// error is.
pub proof fn law_round_begins_when_it_may(
    busy: bool,
    workspace: Option<ErrorView>,
    enabled: bool,
)
    ensures
        round_start(busy, workspace, enabled) == ScheduleView::ReadClock <==> !busy && workspace
            is None && enabled,
        round_start(busy, workspace, enabled) is Fail <==> !busy && workspace is Some
            && workspace->0.status != 409,
        round_start(busy, workspace, enabled) is Fail ==> round_start(
            busy,
            workspace,
            enabled,
        )->Fail_0 == workspace->0,
        round_start(busy, workspace, enabled) is Fail || round_start(busy, workspace, enabled)
            == ScheduleView::ReadClock || round_start(busy, workspace, enabled)
            == ScheduleView::Stop,
{
}

/// A round begins with yesterday, if it reaches back at all; without a clock it
/// fails.
pub proof fn law_round_begins_with_yesterday(
    clock: Result<ScheduleClock, ApiError>,
    catch_up_days: nat,
)
    ensures
        clock is Ok && catch_up_days > 0 ==> clock_step(clock, catch_up_days)
            == ScheduleView::LookAt(1),
        clock is Ok && catch_up_days == 0 ==> clock_step(clock, catch_up_days)
            == ScheduleView::Stop,
        clock is Err ==> clock_step(clock, catch_up_days) == ScheduleView::Fail(clock->Err_0@),
{
}

/// Whether a step goes on to the day before, or ends the round at its reach.
pub open spec fn goes_on(step: ScheduleView, days_ago: nat, catch_up_days: nat) -> bool {
    &&& days_ago < catch_up_days ==> step == ScheduleView::LookAt(days_ago + 1)
    &&& days_ago >= catch_up_days ==> step == ScheduleView::Stop
}

/// A day is inspected just where its time has come; it is taken up just where
/// something was logged or noted on it. Else the round goes on to the day before.
pub proof fn law_due_days_with_input_are_taken_up(
    days_ago: nat,
    catch_up_days: nat,
    due_at: Moment,
    now: Moment,
    has_automated_evidence: bool,
    has_manual_entries: bool,
)
    ensures
        due_at == now || due_at.is_before(now) ==> due_step(days_ago, catch_up_days, due_at, now)
            == ScheduleView::Inspect(days_ago),
        now.is_before(due_at) ==> goes_on(
            due_step(days_ago, catch_up_days, due_at, now),
            days_ago,
            catch_up_days,
        ),
        has_automated_evidence || has_manual_entries ==> day_step(
            days_ago,
            catch_up_days,
            has_automated_evidence,
            has_manual_entries,
        ) == ScheduleView::Enqueue(days_ago),
        !has_automated_evidence && !has_manual_entries ==> goes_on(
            day_step(days_ago, catch_up_days, has_automated_evidence, has_manual_entries),
            days_ago,
            catch_up_days,
        ),
{
}

/// A day that was claimed is generated, unless it has a candidate: then its run
/// is over. A day that another has is passed over.
pub proof fn law_claimed_days_are_generated_once(
    days_ago: nat,
    catch_up_days: nat,
    has_revision: bool,
)
    ensures
        claim_step(days_ago, catch_up_days, Claim::Claimed, false) == ScheduleView::Generate(
            days_ago,
        ),
        claim_step(days_ago, catch_up_days, Claim::Claimed, true) == (ScheduleView::Finish {
            days_ago,
            error: None,
        }),
        goes_on(
            claim_step(days_ago, catch_up_days, Claim::Refused, has_revision),
            days_ago,
            catch_up_days,
        ),
        claim_step(days_ago, catch_up_days, Claim::Untokened, has_revision) is Fail,
        claim_step(days_ago, catch_up_days, Claim::Untokened, has_revision)->Fail_0.status == 500,
{
}

/// A run ends without an error where its candidate was generated or where the
/// owner's edits stood in the way; a canceled one is left to be tried again; and
/// any other failure is recorded.
pub proof fn law_runs_end_with_their_error(days_ago: nat, error: Option<ErrorView>)
    ensures
        error is None ==> run_step(days_ago, error) == (ScheduleView::Finish {
            days_ago,
            error: None,
        }),
        error is Some && error->0.message == "Generation canceled."@ ==> run_step(days_ago, error)
            == ScheduleView::Stop,
        error is Some && error->0.message != "Generation canceled."@ ==> {
            let edits = error->0.status == 409 && occurs(
                error->0.message,
                "current candidate has edits"@,
            );
            &&& run_step(days_ago, error) is Finish
            &&& run_step(days_ago, error)->days_ago == days_ago
            &&& run_step(days_ago, error)->error is None <==> edits
        },
{
}

/// What is kept of a failure is its own message, shortened to 512 characters and
/// without odd control characters; a draft of the wrong shape is told in plain
/// words, and a failure never goes without a message.
pub proof fn law_kept_messages(message: Seq<char>)
    ensures
        kept_message(message).len() > 0,
        !occurs(message, "LLM daily draft did not match the structured schema"@)
            && message.len() <= 512 && trimmed(message).len() > 0 && (forall|i: int|
            0 <= i < message.len() ==> !(#[trigger] message[i] as u32 <= 0x1f || 0x7f
                <= message[i] as u32 <= 0x9f)) ==> kept_message(message) == message,
        !occurs(message, "LLM daily draft did not match the structured schema"@)
            ==> kept_message(message).len() <= 512,
        occurs(message, "LLM daily draft did not match the structured schema"@) ==> occurs(
            kept_message(message),
            "Nothing was written; retry generation."@,
        ),
{
    reveal_strlit("Daily generation failed");
    let told =
        "The local model returned an invalid Daily draft. Nothing was written; retry generation. If it repeats, check the configured model or disable automatic preparation until the model is corrected."@;
    reveal_strlit(
        "The local model returned an invalid Daily draft. Nothing was written; retry generation. If it repeats, check the configured model or disable automatic preparation until the model is corrected.",
    );
    reveal_strlit("Nothing was written; retry generation.");
    let part = "Nothing was written; retry generation."@;
    assert(told.subrange(49, 87) =~= part);
    assert(occurs_at(told, part, 49));
    let cut = sanitized(message);
    if trimmed(cut).len() > 0 && cut.len() == 0 {
        assert(cut =~= Seq::<char>::empty());
        lemma_trimmed_same(cut);
    }
    if message.len() <= 512 && (forall|i: int|
        0 <= i < message.len() ==> !(#[trigger] message[i] as u32 <= 0x1f || 0x7f
            <= message[i] as u32 <= 0x9f)) {
        assert(at_most(message, 512) == message);
        assert(cut =~= message);
    }
}

/// How an attempt ended is told by its error: none is success, and a cancellation
/// and a timeout are told apart from other failures. A code of the error is kept.
pub proof fn law_attempts_end_as_their_error_says(error: Option<ErrorView>)
    ensures
        error is None ==> attempt_end(error).state == "succeeded"@ && attempt_end(error).error
            is None && attempt_end(error).failure_code is None,
        error is Some ==> {
            let end = attempt_end(error);
            &&& end.state == "canceled"@ <==> error->0.message == "Generation canceled."@
            &&& end.state == "timed_out"@ <==> error->0.message == "Generation timed out."@
            &&& end.state == "failed"@ <==> error->0.message != "Generation canceled."@
                && error->0.message != "Generation timed out."@
            &&& error->0.code is Some ==> end.failure_code == error->0.code
            &&& error->0.code is None ==> end.failure_code == Some(
                if error->0.message == "Generation canceled."@ {
                    "canceled"@
                } else if error->0.message == "Generation timed out."@ {
                    "timed_out"@
                } else {
                    "generation_failed"@
                },
            )
            &&& end.error is Some
        },
{
    reveal_strlit("succeeded");
    reveal_strlit("canceled");
    reveal_strlit("timed_out");
    reveal_strlit("failed");
    assert("succeeded"@.len() == 9);
    assert("canceled"@.len() == 8);
    assert("timed_out"@.len() == 9);
    assert("failed"@.len() == 6);
    assert("succeeded"@[0] == 's');
    assert("timed_out"@[0] == 't');
    reveal_strlit("Generation canceled.");
    reveal_strlit("Generation timed out.");
    assert("Generation canceled."@.len() == 20);
    assert("Generation timed out."@.len() == 21);
}

/// What stops an attempt before the model is asked and before anything is saved,
/// and nothing else: a cancellation, or its deadline.
pub proof fn law_stages_stop_for_cancellation_and_deadline(
    stage: Seq<char>,
    canceled: bool,
    past_deadline: bool,
)
    ensures
        stage_error(stage, canceled, past_deadline) is Some <==> (stage == "requesting_model"@
            || stage == "saving"@) && (canceled || past_deadline),
        stage_error(stage, canceled, past_deadline) is Some ==> stage_error(
            stage,
            canceled,
            past_deadline,
        )->0.status == 422 && stage_error(stage, canceled, past_deadline)->0.message == (
        if canceled {
            "Generation canceled."@
        } else {
            "Generation timed out."@
        }),
{
}

/// A cancellation reaches the attempt that runs, and only until it saves.
pub proof fn law_running_attempts_can_be_canceled(
    id: Seq<char>,
    active_id: Option<Seq<char>>,
    finished: bool,
    stage: Seq<char>,
)
    ensures
        may_cancel(id, active_id, finished, stage) <==> active_id == Some(id) && !finished && stage
            != "saving"@,
{
}

/// Saving is tried again just where the database was busy, the attempt has retries
/// left and its deadline has not passed; it has two.
pub proof fn law_busy_saves_are_tried_again(
    budget: RetryBudget,
    busy: bool,
    message: Seq<char>,
    past_deadline: bool,
)
    ensures
        budget.ends(busy, message, past_deadline) is None <==> busy && budget.used < 2
            && !past_deadline,
        !busy ==> budget.ends(busy, message, past_deadline)->0.status == 500 && budget.ends(
            busy,
            message,
            past_deadline,
        )->0.message == message,
        busy && budget.ends(busy, message, past_deadline) is Some ==> budget.ends(
            busy,
            message,
            past_deadline,
        )->0.code == Some("database_busy"@) && budget.ends(
            busy,
            message,
            past_deadline,
        )->0.status == 500,
{
}

/// A failure to generate is told with a code by which it can be handled: canceled,
/// timed out, the database busy, or the model's own.
pub proof fn law_generation_failures_have_codes(error: Seq<char>)
    ensures
        ({
            let failure = generation_failure(error);
            let busy = error == "database_busy"@ || occurs(error, "database is locked"@) || occurs(
                error,
                "database is busy"@,
            );
            &&& failure.status == 422
            &&& error == "Generation canceled."@ ==> failure.code == Some("canceled"@)
            &&& error == "Generation timed out."@ ==> failure.code == Some("timed_out"@)
            &&& error != "Generation canceled."@ && error != "Generation timed out."@ ==> (
            failure.code == Some("database_busy"@) <==> busy) && (failure.code == Some(
                "model_failed"@,
            ) <==> !busy)
            &&& error != "database_busy"@ ==> failure.message == error
        }),
{
    reveal_strlit("database_busy");
    reveal_strlit("model_failed");
    assert("database_busy"@.len() == 13);
    assert("model_failed"@.len() == 12);
    reveal_strlit("Generation canceled.");
    reveal_strlit("Generation timed out.");
    assert("Generation canceled."@.len() == 20);
    assert("Generation timed out."@.len() == 21);
}

/// A failure of the database is a conflict; one for being busy says that nothing
/// was changed, any other says what it was.
pub proof fn law_database_failures(busy: bool, message: Seq<char>)
    ensures
        database_failure(busy, message).status == 409,
        busy <==> database_failure(busy, message).code == Some("database_busy"@),
        !busy ==> database_failure(busy, message).message == message,
{
}

/// Errors have the status that they are named for, and say what they were given.
pub proof fn law_errors_have_their_status(message: Seq<char>)
    ensures
        bad_request_of(message).status == 400 && bad_request_of(message).message == message,
        unauthorized_of(message).status == 401 && unauthorized_of(message).message == message,
        forbidden_of(message).status == 403 && forbidden_of(message).message == message,
        not_found_of(message).status == 404 && not_found_of(message).message == message,
        conflict_of(message).status == 409 && conflict_of(message).message == message,
        unprocessable_of(message).status == 422 && unprocessable_of(message).message == message,
        internal_of(message).status == 500 && internal_of(message).message == message,
        bad_request_of(message).code is None && not_found_of(message).code is None
            && conflict_of(message).code is None && unprocessable_of(message).code is None,
        internal_of(message).code == Some("database_busy"@) <==> occurs(
            message,
            "database is locked"@,
        ) || occurs(message, "database is busy"@),
        invalid_references_of().status == 422,
        invalid_references_of().code == Some("reference_context_invalid"@),
{
}

/// What is answered for an error is its message and its code; a message about a
/// busy generator loses the mark by which it is known.
pub proof fn law_error_answers(error: ErrorView, rest: Seq<char>)
    ensures
        error.code is Some ==> error_body(error).field("error"@) == Some(
            JsonView::Text(error.message),
        ) && error_body(error).field("code"@) == Some(JsonView::Text(error.code->0)),
        error.code is None && error.message == "generation_busy: "@ + rest ==> error_body(
            error,
        ).field("error"@) == Some(JsonView::Text(rest)) && error_body(error).field("code"@) == Some(
            JsonView::Text("generation_busy"@),
        ),
        error.code is None && !begins_with(error.message, "generation_busy: "@) ==> error_body(
            error,
        ).field("error"@) == Some(JsonView::Text(error.message)) && error_body(error).field(
            "code"@,
        ) is None,
{
    reveal_strlit("error");
    reveal_strlit("code");
    assert("error"@.len() == 5);
    assert("code"@.len() == 4);
    let mark = "generation_busy: "@;
    if error.message == mark + rest {
        assert(error.message.take(mark.len() as int) =~= mark);
        assert(error.message.skip(mark.len() as int) =~= rest);
    }
}

} // verus!
