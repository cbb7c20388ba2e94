//! What the status of a day tells, and what is shown of days.
use crate::apply::ApplyOperation;
use crate::apply_material::{entry_ids, has_new_evidence, without};
use crate::json::{JsonView, number_view};
use crate::ordered::lemma_push_contains;
use crate::overview::{
    DailyScheduleRun, DayInputs, DayStatus, OverviewFacts, apply_record, candidate_is_current,
    count_status, day_record, expired_count, looked_at, new_count, overview_status,
    scanned_days, shown, shown_days, snapshot_events, status_of,
};
use crate::revisions::SnapshotEvidence;
use crate::text::{opt_text, views};
use vstd::prelude::*;
use vstd::string::*;

verus! {

/// The statuses differ.
pub proof fn lemma_statuses_differ()
    ensures
        "apply_attention"@ != "update_available"@,
        "apply_attention"@ != "applied"@,
        "apply_attention"@ != "dismissed"@,
        "apply_attention"@ != "in_review"@,
        "apply_attention"@ != "generation_failed"@,
        "apply_attention"@ != "generating"@,
        "apply_attention"@ != "missed"@,
        "apply_attention"@ != "notes_unreviewed"@,
        "apply_attention"@ != "scheduled"@,
        "apply_attention"@ != "not_started"@,
        "update_available"@ != "applied"@,
        "update_available"@ != "dismissed"@,
        "update_available"@ != "in_review"@,
        "update_available"@ != "generation_failed"@,
        "update_available"@ != "generating"@,
        "update_available"@ != "missed"@,
        "update_available"@ != "notes_unreviewed"@,
        "update_available"@ != "scheduled"@,
        "update_available"@ != "not_started"@,
        "applied"@ != "dismissed"@,
        "applied"@ != "in_review"@,
        "applied"@ != "generation_failed"@,
        "applied"@ != "generating"@,
        "applied"@ != "missed"@,
        "applied"@ != "notes_unreviewed"@,
        "applied"@ != "scheduled"@,
        "applied"@ != "not_started"@,
        "dismissed"@ != "in_review"@,
        "dismissed"@ != "generation_failed"@,
        "dismissed"@ != "generating"@,
        "dismissed"@ != "missed"@,
        "dismissed"@ != "notes_unreviewed"@,
        "dismissed"@ != "scheduled"@,
        "dismissed"@ != "not_started"@,
        "in_review"@ != "generation_failed"@,
        "in_review"@ != "generating"@,
        "in_review"@ != "missed"@,
        "in_review"@ != "notes_unreviewed"@,
        "in_review"@ != "scheduled"@,
        "in_review"@ != "not_started"@,
        "generation_failed"@ != "generating"@,
        "generation_failed"@ != "missed"@,
        "generation_failed"@ != "notes_unreviewed"@,
        "generation_failed"@ != "scheduled"@,
        "generation_failed"@ != "not_started"@,
        "generating"@ != "missed"@,
        "generating"@ != "notes_unreviewed"@,
        "generating"@ != "scheduled"@,
        "generating"@ != "not_started"@,
        "missed"@ != "notes_unreviewed"@,
        "missed"@ != "scheduled"@,
        "missed"@ != "not_started"@,
        "notes_unreviewed"@ != "scheduled"@,
        "notes_unreviewed"@ != "not_started"@,
        "scheduled"@ != "not_started"@,
{
    reveal_strlit("apply_attention");
    reveal_strlit("update_available");
    reveal_strlit("applied");
    reveal_strlit("dismissed");
    reveal_strlit("in_review");
    reveal_strlit("generation_failed");
    reveal_strlit("generating");
    reveal_strlit("missed");
    reveal_strlit("notes_unreviewed");
    reveal_strlit("scheduled");
    reveal_strlit("not_started");
    assert("apply_attention"@.len() == 15);
    assert("update_available"@.len() == 16);
    assert("applied"@.len() == 7);
    assert("dismissed"@.len() == 9);
    assert("in_review"@.len() == 9);
    assert("generation_failed"@.len() == 17);
    assert("generating"@.len() == 10);
    assert("missed"@.len() == 6);
    assert("notes_unreviewed"@.len() == 16);
    assert("scheduled"@.len() == 9);
    assert("not_started"@.len() == 11);
    assert("update_available"@[0] == 'u');
    assert("notes_unreviewed"@[0] == 'n');
    assert("dismissed"@[0] == 'd');
    assert("in_review"@[0] == 'i');
    assert("scheduled"@[0] == 's');
}

/// Whether a day has come to an end: it was applied or dismissed, or an Apply is
/// journaled for it.
pub open spec fn is_settled(day: Option<&DayStatus>, apply: Option<Seq<char>>) -> bool {
    ||| apply is Some
    ||| day is Some && (day->0.review_status@ == "applied"@ || day->0.review_status@
        == "dismissed"@)
}

/// Whether the preparation of a day failed.
pub open spec fn has_failed(day: Option<&DayStatus>, run: Option<&DailyScheduleRun>) -> bool {
    ||| day is Some && day->0.generation_status@ == "failed"@
    ||| run is Some && run->0.state@ == "failed"@
}

/// Whether a day's candidate is being prepared.
pub open spec fn is_in_progress(day: Option<&DayStatus>) -> bool {
    day is Some && (day->0.generation_status@ == "queued"@ || day->0.generation_status@
        == "running"@)
}

/// Whether a scheduled preparation of a day is still to come or going on.
pub open spec fn is_scheduled(run: Option<&DailyScheduleRun>) -> bool {
    run is Some && (run->0.state@ == "pending"@ || run->0.state@ == "claimed"@)
}

/// A day with a candidate that is neither settled nor out of date is in review,
/// whatever its date, its inputs and its schedule; and no other day is.
pub proof fn law_candidate_is_in_review(
    is_past: bool,
    day: Option<&DayStatus>,
    has_revision: bool,
    apply: Option<Seq<char>>,
    run: Option<&DailyScheduleRun>,
    has_automated_input: bool,
    has_manual_input: bool,
    update_available: bool,
)
    ensures
        overview_status(
            is_past,
            day,
            has_revision,
            apply,
            run,
            has_automated_input,
            has_manual_input,
            update_available,
        ) == "in_review"@ <==> has_revision && !is_settled(day, apply) && !update_available,
{
    lemma_statuses_differ();
}

/// A day is missed just where something was logged on a past day, nothing was
/// prepared, nothing failed, and nothing is being or to be prepared.
pub proof fn law_missed_day_has_no_candidate(
    is_past: bool,
    day: Option<&DayStatus>,
    has_revision: bool,
    apply: Option<Seq<char>>,
    run: Option<&DailyScheduleRun>,
    has_automated_input: bool,
    has_manual_input: bool,
    update_available: bool,
)
    ensures
        overview_status(
            is_past,
            day,
            has_revision,
            apply,
            run,
            has_automated_input,
            has_manual_input,
            update_available,
        ) == "missed"@ <==> {
            &&& is_past && has_automated_input
            &&& !has_revision && !update_available
            &&& !is_settled(day, apply)
            &&& !has_failed(day, run) && !is_in_progress(day) && !is_scheduled(run)
        },
{
    lemma_statuses_differ();
}

/// An Apply that is not finalized asks for attention before anything else, and
/// nothing else does.
pub proof fn law_open_apply_asks_for_attention(
    is_past: bool,
    day: Option<&DayStatus>,
    has_revision: bool,
    apply: Option<Seq<char>>,
    run: Option<&DailyScheduleRun>,
    has_automated_input: bool,
    has_manual_input: bool,
    update_available: bool,
)
    ensures
        overview_status(
            is_past,
            day,
            has_revision,
            apply,
            run,
            has_automated_input,
            has_manual_input,
            update_available,
        ) == "apply_attention"@ <==> apply is Some && apply->0 != "finalized"@,
{
    lemma_statuses_differ();
}

/// A day that was applied says so, unless there is something newer; a day that
/// was dismissed says so, whatever is newer.
pub proof fn law_settled_days(
    is_past: bool,
    day: Option<&DayStatus>,
    has_revision: bool,
    apply: Option<Seq<char>>,
    run: Option<&DailyScheduleRun>,
    has_automated_input: bool,
    has_manual_input: bool,
    update_available: bool,
)
    ensures
        ({
            let status = overview_status(
                is_past,
                day,
                has_revision,
                apply,
                run,
                has_automated_input,
                has_manual_input,
                update_available,
            );
            let applied = apply == Some("finalized"@) || (apply is None && day is Some
                && day->0.review_status@ == "applied"@);
            let dismissed = apply is None && day is Some && day->0.review_status@ == "dismissed"@;
            &&& status == "applied"@ <==> applied && !update_available
            &&& status == "dismissed"@ <==> dismissed
            &&& status == "update_available"@ <==> update_available && (apply is None || apply
                == Some("finalized"@)) && !dismissed
        }),
{
    lemma_statuses_differ();
    reveal_strlit("finalized");
}

/// What is said of a day without a candidate: that its preparation failed, that it
/// goes on, that notes wait, that it is scheduled, or that it has not begun; the
/// most pressing of these.
pub proof fn law_days_without_a_candidate(
    is_past: bool,
    day: Option<&DayStatus>,
    has_revision: bool,
    apply: Option<Seq<char>>,
    run: Option<&DailyScheduleRun>,
    has_automated_input: bool,
    has_manual_input: bool,
    update_available: bool,
)
    ensures
        ({
            let status = overview_status(
                is_past,
                day,
                has_revision,
                apply,
                run,
                has_automated_input,
                has_manual_input,
                update_available,
            );
            let bare = !has_revision && !update_available && !is_settled(day, apply);
            let idle = bare && !has_failed(day, run) && !is_in_progress(day);
            let due = has_automated_input && is_past && !is_scheduled(run);
            &&& status == "generation_failed"@ <==> bare && has_failed(day, run)
            &&& status == "generating"@ <==> bare && !has_failed(day, run) && is_in_progress(day)
            &&& status == "notes_unreviewed"@ <==> idle && !due && has_manual_input
            &&& status == "scheduled"@ <==> idle && !has_manual_input && is_scheduled(run)
            &&& status == "not_started"@ <==> idle && !due && !has_manual_input && !is_scheduled(run)
        }),
{
    lemma_statuses_differ();
}

/// The status that is shown of a day is the one that follows from what is known of
/// it: events make it automated, manual entries make it noted, and new evidence or
/// changed notes make an update.
pub proof fn law_status_follows_from_the_facts(f: OverviewFacts, today: i32)
    ensures
        ({
            let status = status_of(f, today);
            let day = looked_at(f.day);
            let run = looked_at(f.schedule_run);
            let apply = opt_text(f.apply_state);
            let newer = f.new_evidence_count > 0 || f.manual_entries_changed;
            &&& status == "in_review"@ <==> f.revision_number is Some && !is_settled(day, apply)
                && !newer
            &&& status == "missed"@ <==> {
                &&& f.number < today && f.event_count > 0
                &&& f.revision_number is None && !newer && !is_settled(day, apply)
                &&& !has_failed(day, run) && !is_in_progress(day) && !is_scheduled(run)
            }
            &&& status == "apply_attention"@ <==> apply is Some && apply->0 != "finalized"@
            &&& status == "generation_failed"@ <==> f.revision_number is None && !newer
                && !is_settled(day, apply) && has_failed(day, run)
            &&& status == "update_available"@ ==> newer
            &&& status == "notes_unreviewed"@ ==> f.manual_entry_count > 0
            &&& status == "scheduled"@ ==> is_scheduled(run)
            &&& status == "generating"@ ==> is_in_progress(day)
        }),
{
    lemma_statuses_differ();
}

proof fn lemma_shown(facts: Seq<OverviewFacts>, today: i32, limit: nat)
    ensures
        ({
            let there = facts.filter(|f: OverviewFacts| is_worth_showing(f, today));
            shown(facts, today, limit) == there.take(
                if there.len() < limit {
                    there.len() as int
                } else {
                    limit as int
                },
            )
        }),
    decreases facts.len(),
{
    reveal(Seq::filter);
    let pred = |f: OverviewFacts| is_worth_showing(f, today);
    let there = facts.filter(pred);
    if facts.len() > 0 {
        let init = facts.drop_last();
        lemma_shown(init, today, limit);
        let before = init.filter(pred);
        if is_worth_showing(facts.last(), today) {
            assert(there == before.push(facts.last()));
            if before.len() < limit {
                assert(before.take(before.len() as int) =~= before);
                assert(there.take(there.len() as int) =~= there);
            } else {
                assert(there.take(limit as int) =~= before.take(limit as int));
            }
        }
    } else {
        assert(there.take(0) =~= Seq::<OverviewFacts>::empty());
    }
}

/// Whether there is anything to show of a day: it is today, something was logged or
/// noted on it, or it was taken up or scheduled.
pub open spec fn is_worth_showing(f: OverviewFacts, today: i32) -> bool {
    ||| f.number == today
    ||| f.event_count > 0
    ||| f.manual_entry_count > 0
    ||| f.day is Some
    ||| f.schedule_run is Some
}

/// The days that are shown are the first of those that are worth showing, in
/// their order, as many as were asked for.
pub proof fn law_first_days_worth_showing_are_shown(
    facts: Seq<OverviewFacts>,
    today: i32,
    limit: nat,
)
    ensures
        ({
            let there = facts.filter(|f: OverviewFacts| is_worth_showing(f, today));
            &&& there.len() <= limit ==> shown(facts, today, limit) == there
            &&& there.len() > limit ==> shown(facts, today, limit) == there.take(limit as int)
        }),
{
    lemma_shown(facts, today, limit);
    let there = facts.filter(|f: OverviewFacts| is_worth_showing(f, today));
    assert(there.take(there.len() as int) =~= there);
}

/// The days that ask for something are counted by the status that is shown of
/// them.
pub proof fn law_days_are_counted_by_status(
    facts: Seq<OverviewFacts>,
    today: i32,
    status: Seq<char>,
)
    ensures
        count_status(facts, today, status) == facts.filter(
            |f: OverviewFacts| status_of(f, today) == status,
        ).len(),
    decreases facts.len(),
{
    reveal(Seq::filter);
    if facts.len() > 0 {
        law_days_are_counted_by_status(facts.drop_last(), today, status);
    }
}

/// What is shown of a day is what is known of it, each under its own name.
pub proof fn law_day_is_shown_as_it_is(f: OverviewFacts, today: i32)
    ensures
        ({
            let r = day_record(f, today);
            &&& r.field("local_date"@) == Some(JsonView::Text(f.local_date@))
            &&& r.field("status"@) == Some(JsonView::Text(status_of(f, today)))
            &&& r.field("event_count"@) == Some(number_view(f.event_count as nat))
            &&& r.field("manual_entry_count"@) == Some(number_view(f.manual_entry_count as nat))
            &&& f.day is Some ==> {
                &&& r.field("generation_status"@) == Some(
                    JsonView::Text(f.day->0.generation_status@),
                )
                &&& r.field("review_status"@) == Some(JsonView::Text(f.day->0.review_status@))
                &&& r.field("freshness"@) == Some(JsonView::Text(f.day->0.freshness@))
            }
            &&& f.revision_number is Some ==> r.field("revision_number"@) == Some(
                number_view(f.revision_number->0 as nat),
            )
            &&& f.revision_number is None ==> r.field("revision_number"@) == Some(JsonView::Null)
            &&& r.field("new_evidence_count"@) == Some(number_view(f.new_evidence_count as nat))
            &&& r.field("manual_entries_changed"@) == Some(JsonView::Bool(f.manual_entries_changed))
            &&& r.field("expired_evidence_count"@) == Some(
                number_view(f.expired_evidence_count as nat),
            )
            &&& r.field("evidence_complete"@) == Some(
                JsonView::Bool(f.expired_evidence_count == 0),
            )
            &&& f.schedule_run is Some ==> {
                &&& r.field("schedule_state"@) == Some(JsonView::Text(f.schedule_run->0.state@))
                &&& r.field("schedule_attempts"@) == Some(
                    number_view(f.schedule_run->0.attempts as nat),
                )
                &&& r.field("schedule_retry_at"@) == Some(
                    JsonView::Text(f.schedule_run->0.next_attempt_at@),
                )
                &&& f.schedule_run->0.last_error is Some ==> r.field("schedule_error"@) == Some(
                    JsonView::Text(f.schedule_run->0.last_error->0@),
                )
            }
            &&& f.schedule_run is None ==> r.field("schedule_state"@) == Some(JsonView::Null)
        }),
{
    reveal_strlit("local_date");
    reveal_strlit("status");
    reveal_strlit("event_count");
    reveal_strlit("manual_entry_count");
    reveal_strlit("generation_status");
    reveal_strlit("review_status");
    reveal_strlit("freshness");
    reveal_strlit("revision_number");
    reveal_strlit("new_evidence_count");
    reveal_strlit("manual_entries_changed");
    reveal_strlit("expired_evidence_count");
    reveal_strlit("evidence_complete");
    reveal_strlit("schedule_state");
    reveal_strlit("schedule_attempts");
    reveal_strlit("schedule_retry_at");
    reveal_strlit("schedule_error");
    assert("local_date"@.len() == 10);
    assert("status"@.len() == 6);
    assert("event_count"@.len() == 11);
    assert("manual_entry_count"@.len() == 18);
    assert("generation_status"@.len() == 17);
    assert("review_status"@.len() == 13);
    assert("freshness"@.len() == 9);
    assert("revision_number"@.len() == 15);
    assert("new_evidence_count"@.len() == 18);
    assert("manual_entries_changed"@.len() == 22);
    assert("expired_evidence_count"@.len() == 22);
    assert("evidence_complete"@.len() == 17);
    assert("schedule_state"@.len() == 14);
    assert("schedule_attempts"@.len() == 17);
    assert("schedule_retry_at"@.len() == 17);
    assert("schedule_error"@.len() == 14);
    assert("manual_entry_count"@[0] == 'm');
    assert("new_evidence_count"@[0] == 'n');
    assert("generation_status"@[0] == 'g');
    assert("evidence_complete"@[0] == 'e');
    assert("schedule_attempts"@[0] == 's');
    assert("schedule_retry_at"@[0] == 's');
    assert("manual_entries_changed"@[0] == 'm');
    assert("expired_evidence_count"@[0] == 'e');
    assert("schedule_state"@[9] == 's');
    assert("schedule_error"@[9] == 'e');
    assert("schedule_attempts"@[9] == 'a');
    assert("schedule_retry_at"@[9] == 'r');
}

proof fn lemma_without_is(texts: Seq<Seq<char>>, taken: Seq<Seq<char>>)
    ensures
        without(texts, taken) == texts.filter(|t: Seq<char>| !taken.contains(t)),
    decreases texts.len(),
{
    reveal(Seq::filter);
    if texts.len() > 0 {
        lemma_without_is(texts.drop_last(), taken);
    }
}

/// Whether an event is logged, not put off, and not part of a candidate.
pub open spec fn is_late(inputs: DayInputs, event: Seq<char>) -> bool {
    &&& views(inputs.live_event_ids@).contains(event)
    &&& !views(inputs.deferred_event_ids@).contains(event)
    &&& !(inputs.snapshot_event_ids is Some && views(inputs.snapshot_event_ids->0@).contains(event))
}

proof fn lemma_without_contains(texts: Seq<Seq<char>>, taken: Seq<Seq<char>>, e: Seq<char>)
    ensures
        without(texts, taken).contains(e) <==> texts.contains(e) && !taken.contains(e),
    decreases texts.len(),
{
    if texts.len() > 0 {
        let init = texts.drop_last();
        lemma_without_contains(init, taken, e);
        assert(texts =~= init.push(texts.last()));
        lemma_push_contains(init, texts.last(), e);
        lemma_push_contains(without(init, taken), texts.last(), e);
    }
}

/// A candidate is current just where no event is late and the notes of the day are
/// those that it names, in their order.
pub proof fn law_candidate_is_current_if_nothing_is_late(inputs: DayInputs)
    ensures
        candidate_is_current(inputs) <==> {
            &&& forall|e: Seq<char>| !#[trigger] is_late(inputs, e)
            &&& (match inputs.content {
                Some(content) => content@.manual_entry_ids,
                None => Seq::empty(),
            }) == Seq::new(inputs.manual_entries@.len(), |i: int| inputs.manual_entries@[i].id@)
        },
        inputs.has_revision ==> (new_count(inputs) == 0 <==> forall|e: Seq<char>|
            !#[trigger] is_late(inputs, e)),
{
    let live = without(views(inputs.live_event_ids@), views(inputs.deferred_event_ids@));
    let known = snapshot_events(inputs.snapshot_event_ids);
    let late = without(live, known);
    assert(entry_ids(inputs.manual_entries@) =~= Seq::new(
        inputs.manual_entries@.len(),
        |i: int| inputs.manual_entries@[i].id@,
    ));
    assert forall|e: Seq<char>| #[trigger] is_late(inputs, e) <==> late.contains(e) by {
        lemma_without_contains(views(inputs.live_event_ids@), views(inputs.deferred_event_ids@), e);
        lemma_without_contains(live, known, e);
    }
    if has_new_evidence(live, known) {
        let i = choose|i: int| 0 <= i < live.len() && !known.contains(#[trigger] live[i]);
        assert(live.contains(live[i]));
        lemma_without_contains(live, known, live[i]);
        assert(is_late(inputs, live[i]));
    }
    if exists|e: Seq<char>| #[trigger] is_late(inputs, e) {
        let e = choose|e: Seq<char>| #[trigger] is_late(inputs, e);
        lemma_without_contains(views(inputs.live_event_ids@), views(inputs.deferred_event_ids@), e);
        let i = choose|i: int| 0 <= i < live.len() && live[i] == e;
        assert(!known.contains(live[i]));
        assert(late.contains(e));
    }
    if late.len() > 0 {
        assert(late.contains(late[0]));
        assert(is_late(inputs, late[0]));
    }
}

/// The events that a candidate lacks are counted, and so is the evidence of it that
/// is no longer kept.
pub proof fn law_late_and_expired_evidence_is_counted(inputs: DayInputs)
    ensures
        inputs.has_revision ==> new_count(inputs) == views(inputs.live_event_ids@).filter(
            |e: Seq<char>| !views(inputs.deferred_event_ids@).contains(e),
        ).filter(
            |e: Seq<char>|
                !(inputs.snapshot_event_ids is Some && views(
                    inputs.snapshot_event_ids->0@,
                ).contains(e)),
        ).len(),
        !inputs.has_revision ==> new_count(inputs) == 0,
        expired_count(inputs.snapshot_evidence@) == inputs.snapshot_evidence@.filter(
            |e: SnapshotEvidence| !e.available,
        ).len(),
{
    let live = views(inputs.live_event_ids@);
    let deferred = views(inputs.deferred_event_ids@);
    let known = snapshot_events(inputs.snapshot_event_ids);
    lemma_without_is(live, deferred);
    lemma_without_is(without(live, deferred), known);
    lemma_same_filter(
        without(live, deferred),
        |t: Seq<char>| !known.contains(t),
        |e: Seq<char>|
            !(inputs.snapshot_event_ids is Some && views(inputs.snapshot_event_ids->0@).contains(
                e,
            )),
    );
    lemma_expired(inputs.snapshot_evidence@);
}

proof fn lemma_same_filter<A>(s: Seq<A>, p: spec_fn(A) -> bool, q: spec_fn(A) -> bool)
    requires
        forall|x: A| #[trigger] p(x) == q(x),
    ensures
        s.filter(p) == s.filter(q),
    decreases s.len(),
{
    reveal(Seq::filter);
    if s.len() > 0 {
        lemma_same_filter(s.drop_last(), p, q);
        assert(p(s.last()) == q(s.last()));
    }
}

proof fn lemma_expired(evidence: Seq<SnapshotEvidence>)
    ensures
        expired_count(evidence) == evidence.filter(|e: SnapshotEvidence| !e.available).len(),
    decreases evidence.len(),
{
    reveal(Seq::filter);
    if evidence.len() > 0 {
        lemma_expired(evidence.drop_last());
    }
}

/// What is shown of an Apply is its journal; it may be retried in every state but
/// the last.
pub proof fn law_apply_is_shown_as_it_is(
    op: ApplyOperation,
    created_at: Seq<char>,
    updated_at: Seq<char>,
)
    ensures
        ({
            let r = apply_record(op, created_at, updated_at);
            &&& r.field("id"@) == Some(JsonView::Text(op.id@))
            &&& r.field("state"@) == Some(JsonView::Text(op.state@))
            &&& op.failure_reason is Some ==> r.field("failure_reason"@) == Some(
                JsonView::Text(op.failure_reason->0@),
            )
            &&& r.field("created_at"@) == Some(JsonView::Text(created_at))
            &&& r.field("updated_at"@) == Some(JsonView::Text(updated_at))
            &&& op.state@ == "finalized"@ ==> r.field("can_retry"@) == Some(JsonView::Bool(false))
            &&& op.state@ == "failed"@ || op.state@ == "reconciliation_required"@ || op.state@
                == "prepared"@ || op.state@ == "writing"@ || op.state@ == "written"@ ==> r.field(
                "can_retry"@,
            ) == Some(JsonView::Bool(true))
        }),
{
    reveal_strlit("id");
    reveal_strlit("state");
    reveal_strlit("failure_reason");
    reveal_strlit("created_at");
    reveal_strlit("updated_at");
    reveal_strlit("can_retry");
    assert("id"@.len() == 2);
    assert("state"@.len() == 5);
    assert("failure_reason"@.len() == 14);
    assert("created_at"@.len() == 10);
    assert("updated_at"@.len() == 10);
    assert("can_retry"@.len() == 9);
    assert("created_at"@[0] == 'c');
    assert("updated_at"@[0] == 'u');
    reveal_strlit("finalized");
    reveal_strlit("failed");
    reveal_strlit("reconciliation_required");
    reveal_strlit("prepared");
    reveal_strlit("writing");
    reveal_strlit("written");
    assert("finalized"@.len() == 9);
    assert("failed"@.len() == 6);
    assert("reconciliation_required"@.len() == 23);
    assert("prepared"@.len() == 8);
    assert("writing"@.len() == 7);
    assert("written"@.len() == 7);
    assert("writing"@[4] == 'i');
    assert("written"@[4] == 't');
}

/// As many days are shown as were asked for, or as are preferred, but between 1
/// and 31; and never more than are looked at, of which there are at most 90.
pub proof fn law_overview_is_bounded(
    requested: Option<usize>,
    preferred: usize,
    catch_up_days: u16,
    raw_retention_days: u16,
)
    ensures
        ({
            let n = shown_days(requested, preferred);
            let m = scanned_days(catch_up_days, raw_retention_days, n);
            &&& requested is Some && 1 <= requested->0 <= 31 ==> n == requested->0
            &&& requested is None && 1 <= preferred <= 31 ==> n == preferred
            &&& 1 <= n <= 31 && n <= m <= 90
            &&& m >= catch_up_days || m == 90
            &&& m >= raw_retention_days || m == 90
            &&& m == n || m == 90 || m == catch_up_days || m == raw_retention_days
            &&& requested is Some && requested->0 > 31 ==> n == 31
            &&& requested is Some && requested->0 == 0 ==> n == 1
        }),
{
}

} // verus!
