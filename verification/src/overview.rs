//! What is shown of a day, and of the recent days.
use crate::apply::ApplyOperation;
use crate::apply_material::{entry_ids, has_new_evidence, ids_of_entries, without};
use crate::candidate::{some_is_new, texts_without};
use crate::json::{
    Json, JsonView, empty_list, empty_record, json_of_number, json_of_option, json_of_text,
    list_view, number_view, optional_text_view, push_item, put,
};
use crate::proposals::same_texts;
use crate::revisions::{
    DailyRevisionContent, ManualDailyEntry, SnapshotEvidence, preview,
    render_daily_revision_preview,
};
use crate::text::{lemma_take_step, opt_text, str_eq, views};
use vstd::prelude::*;
use vstd::string::*;

verus! {

/// How far a day is.
#[derive(Debug, Clone, PartialEq, Eq)]
pub struct DayStatus {
    pub generation_status: String,
    pub review_status: String,
    pub freshness: String,
}

/// A scheduled preparation of a day. `next_attempt_at` is written out.
#[derive(Debug, Clone, PartialEq, Eq)]
pub struct DailyScheduleRun {
    pub state: String,
    pub attempts: u64,
    pub next_attempt_at: String,
    pub last_error: Option<String>,
}

pub open spec fn day_is(day: Option<&DayStatus>, review_status: Seq<char>) -> bool {
    day is Some && day->0.review_status@ == review_status
}

pub open spec fn run_is_open(run: Option<&DailyScheduleRun>) -> bool {
    run is Some && (run->0.state@ == "pending"@ || run->0.state@ == "claimed"@)
}

/// The status of a day, the most pressing first.
pub open spec fn overview_status(
    is_past: bool,
    day: Option<&DayStatus>,
    has_revision: bool,
    apply: Option<Seq<char>>,
    run: Option<&DailyScheduleRun>,
    has_automated_input: bool,
    has_manual_input: bool,
    update_available: bool,
) -> Seq<char> {
    if apply is Some && apply != Some("finalized"@) {
        "apply_attention"@
    } else if apply == Some("finalized"@) || day_is(day, "applied"@) {
        if update_available {
            "update_available"@
        } else {
            "applied"@
        }
    } else if day_is(day, "dismissed"@) {
        "dismissed"@
    } else if update_available {
        "update_available"@
    } else if has_revision {
        "in_review"@
    } else if (day is Some && day->0.generation_status@ == "failed"@) || (run is Some
        && run->0.state@ == "failed"@) {
        "generation_failed"@
    } else if day is Some && (day->0.generation_status@ == "queued"@
        || day->0.generation_status@ == "running"@) {
        "generating"@
    } else if has_automated_input && is_past && !run_is_open(run) {
        "missed"@
    } else if has_manual_input {
        "notes_unreviewed"@
    } else if run_is_open(run) {
        "scheduled"@
    } else {
        "not_started"@
    }
}

/// The status of a day. Days are counted, so that a later day has a greater
/// number; `apply` is the state of the day's latest Apply.
pub fn daily_overview_status(
    date: i32,
    today: i32,
    day: Option<&DayStatus>,
    has_revision: bool,
    apply: Option<&str>,
    run: Option<&DailyScheduleRun>,
    has_automated_input: bool,
    has_manual_input: bool,
    update_available: bool,
) -> (r: &'static str)
    ensures
        r@ == overview_status(
            date < today,
            day,
            has_revision,
            match apply {
                Some(state) => Some(state@),
                None => None,
            },
            run,
            has_automated_input,
            has_manual_input,
            update_available,
        ),
{
    let finalized = match apply {
        Some(state) => str_eq(state, "finalized"),
        None => false,
    };
    if apply.is_some() && !finalized {
        return "apply_attention";
    }
    let (applied, dismissed, failed, generating) = match day {
        Some(day) => (
            str_eq(day.review_status.as_str(), "applied"),
            str_eq(day.review_status.as_str(), "dismissed"),
            str_eq(day.generation_status.as_str(), "failed"),
            str_eq(day.generation_status.as_str(), "queued") || str_eq(
                day.generation_status.as_str(),
                "running",
            ),
        ),
        None => (false, false, false, false),
    };
    let (run_failed, run_open) = match run {
        Some(run) => (
            str_eq(run.state.as_str(), "failed"),
            str_eq(run.state.as_str(), "pending") || str_eq(run.state.as_str(), "claimed"),
        ),
        None => (false, false),
    };
    if finalized || applied {
        if update_available {
            "update_available"
        } else {
            "applied"
        }
    } else if dismissed {
        "dismissed"
    } else if update_available {
        "update_available"
    } else if has_revision {
        "in_review"
    } else if failed || run_failed {
        "generation_failed"
    } else if generating {
        "generating"
    } else if has_automated_input && date < today && !run_open {
        "missed"
    } else if has_manual_input {
        "notes_unreviewed"
    } else if run_open {
        "scheduled"
    } else {
        "not_started"
    }
}

/// How many days are shown, between 1 and 31.
pub open spec fn shown_days(requested: Option<usize>, preferred: usize) -> nat {
    let days = match requested {
        Some(n) => n,
        None => preferred,
    };
    if days < 1 {
        1
    } else if days > 31 {
        31
    } else {
        days as nat
    }
}

/// How many days are looked at: as far back as anything may be kept, at most
/// 90, and at least as many as are shown.
pub open spec fn scanned_days(catch_up_days: u16, raw_retention_days: u16, shown: nat) -> nat {
    let kept = if catch_up_days >= raw_retention_days {
        catch_up_days
    } else {
        raw_retention_days
    };
    let bounded: nat = if kept < 90 {
        kept as nat
    } else {
        90
    };
    if bounded < shown {
        shown
    } else {
        bounded
    }
}

pub fn overview_window(
    requested: Option<usize>,
    preferred: usize,
    catch_up_days: u16,
    raw_retention_days: u16,
) -> (r: (usize, usize))
    ensures
        r.0 == shown_days(requested, preferred),
        r.1 == scanned_days(catch_up_days, raw_retention_days, r.0 as nat),
        1 <= r.0 <= 31,
        r.0 <= r.1 <= 90,
{
    let days: usize = match requested {
        Some(n) => n,
        None => preferred,
    };
    let limit: usize = if days < 1 {
        1
    } else if days > 31 {
        31
    } else {
        days
    };
    let kept: u16 = if catch_up_days >= raw_retention_days {
        catch_up_days
    } else {
        raw_retention_days
    };
    let bounded: usize = if kept < 90 {
        kept as usize
    } else {
        90
    };
    let scan: usize = if bounded < limit {
        limit
    } else {
        bounded
    };
    (limit, scan)
}

/// What is known of a day that may be shown. `local_date` is written out, and
/// `number` counts the day.
#[derive(Debug, Clone, PartialEq, Eq)]
pub struct OverviewFacts {
    pub local_date: String,
    pub number: i32,
    pub event_count: u64,
    pub manual_entry_count: u64,
    pub day: Option<DayStatus>,
    pub revision_number: Option<u64>,
    pub apply_state: Option<String>,
    pub schedule_run: Option<DailyScheduleRun>,
    pub new_evidence_count: u64,
    pub manual_entries_changed: bool,
    pub expired_evidence_count: u64,
}

/// Whether there is anything to show of a day: today always, another day if
/// anything happened.
pub open spec fn is_shown(f: OverviewFacts, today: i32) -> bool {
    f.number == today || f.event_count > 0 || f.manual_entry_count > 0 || f.day is Some
        || f.schedule_run is Some
}

/// A look at an optional value.
pub open spec fn looked_at<'a, T>(o: Option<T>) -> Option<&'a T> {
    match o {
        Some(x) => Some(&x),
        None => None,
    }
}

pub open spec fn status_of(f: OverviewFacts, today: i32) -> Seq<char> {
    overview_status(
        f.number < today,
        looked_at(f.day),
        f.revision_number is Some,
        opt_text(f.apply_state),
        looked_at(f.schedule_run),
        f.event_count > 0,
        f.manual_entry_count > 0,
        f.new_evidence_count > 0 || f.manual_entries_changed,
    )
}

pub open spec fn optional_number_view(o: Option<u64>) -> JsonView {
    match o {
        Some(n) => number_view(n as nat),
        None => JsonView::Null,
    }
}

/// What is shown of a day.
pub open spec fn day_record(f: OverviewFacts, today: i32) -> JsonView {
    JsonView::Record(
        Map::empty().insert("local_date"@, JsonView::Text(f.local_date@)).insert(
            "status"@,
            JsonView::Text(status_of(f, today)),
        ).insert("event_count"@, number_view(f.event_count as nat)).insert(
            "manual_entry_count"@,
            number_view(f.manual_entry_count as nat),
        ).insert(
            "generation_status"@,
            match f.day {
                Some(day) => JsonView::Text(day.generation_status@),
                None => JsonView::Null,
            },
        ).insert(
            "review_status"@,
            match f.day {
                Some(day) => JsonView::Text(day.review_status@),
                None => JsonView::Null,
            },
        ).insert(
            "freshness"@,
            match f.day {
                Some(day) => JsonView::Text(day.freshness@),
                None => JsonView::Null,
            },
        ).insert("revision_number"@, optional_number_view(f.revision_number)).insert(
            "new_evidence_count"@,
            number_view(f.new_evidence_count as nat),
        ).insert("manual_entries_changed"@, JsonView::Bool(f.manual_entries_changed)).insert(
            "expired_evidence_count"@,
            number_view(f.expired_evidence_count as nat),
        ).insert("evidence_complete"@, JsonView::Bool(f.expired_evidence_count == 0)).insert(
            "schedule_state"@,
            match f.schedule_run {
                Some(run) => JsonView::Text(run.state@),
                None => JsonView::Null,
            },
        ).insert(
            "schedule_attempts"@,
            match f.schedule_run {
                Some(run) => number_view(run.attempts as nat),
                None => JsonView::Null,
            },
        ).insert(
            "schedule_retry_at"@,
            match f.schedule_run {
                Some(run) => JsonView::Text(run.next_attempt_at@),
                None => JsonView::Null,
            },
        ).insert(
            "schedule_error"@,
            match f.schedule_run {
                Some(run) => optional_text_view(opt_text(run.last_error)),
                None => JsonView::Null,
            },
        ),
    )
}

/// The days to show, in the order in which they come, at most `limit`.
pub open spec fn shown(facts: Seq<OverviewFacts>, today: i32, limit: nat) -> Seq<OverviewFacts>
    decreases facts.len(),
{
    if facts.len() == 0 {
        Seq::empty()
    } else {
        let before = shown(facts.drop_last(), today, limit);
        if before.len() < limit && is_shown(facts.last(), today) {
            before.push(facts.last())
        } else {
            before
        }
    }
}

pub open spec fn day_records(facts: Seq<OverviewFacts>, today: i32) -> Seq<JsonView> {
    facts.map_values(|f: OverviewFacts| day_record(f, today))
}

/// How many days have that status.
pub open spec fn count_status(facts: Seq<OverviewFacts>, today: i32, status: Seq<char>) -> nat
    decreases facts.len(),
{
    if facts.len() == 0 {
        0
    } else {
        count_status(facts.drop_last(), today, status) + if status_of(facts.last(), today)
            == status {
            1nat
        } else {
            0nat
        }
    }
}

/// The days that are shown, and how many of them ask for something.
#[derive(Debug)]
pub struct DaysOverview {
    pub days: Json,
    pub missed_count: usize,
    pub update_count: usize,
    pub failed_count: usize,
}

fn json_of_optional_number(o: Option<u64>) -> (r: Json)
    ensures
        r@ == optional_number_view(o),
{
    match o {
        Some(n) => json_of_number(n),
        None => Json::Null,
    }
}

fn status_text(f: &OverviewFacts, today: i32) -> (r: &'static str)
    ensures
        r@ == status_of(*f, today),
{
    let apply: Option<&str> = match &f.apply_state {
        Some(state) => Some(state.as_str()),
        None => None,
    };
    let day: Option<&DayStatus> = match &f.day {
        Some(day) => Some(day),
        None => None,
    };
    let run: Option<&DailyScheduleRun> = match &f.schedule_run {
        Some(run) => Some(run),
        None => None,
    };
    daily_overview_status(
        f.number,
        today,
        day,
        f.revision_number.is_some(),
        apply,
        run,
        f.event_count > 0,
        f.manual_entry_count > 0,
        f.new_evidence_count > 0 || f.manual_entries_changed,
    )
}

fn day_json(f: &OverviewFacts, today: i32) -> (r: Json)
    ensures
        r@ == day_record(*f, today),
{
    let mut fields = empty_record();
    put(&mut fields, "local_date", json_of_text(f.local_date.as_str()));
    put(&mut fields, "status", json_of_text(status_text(f, today)));
    put(&mut fields, "event_count", json_of_number(f.event_count));
    put(&mut fields, "manual_entry_count", json_of_number(f.manual_entry_count));
    let (generation_status, review_status, freshness): (Json, Json, Json) = match &f.day {
        Some(day) => (
            json_of_text(day.generation_status.as_str()),
            json_of_text(day.review_status.as_str()),
            json_of_text(day.freshness.as_str()),
        ),
        None => (Json::Null, Json::Null, Json::Null),
    };
    put(&mut fields, "generation_status", generation_status);
    put(&mut fields, "review_status", review_status);
    put(&mut fields, "freshness", freshness);
    put(&mut fields, "revision_number", json_of_optional_number(f.revision_number));
    put(&mut fields, "new_evidence_count", json_of_number(f.new_evidence_count));
    put(&mut fields, "manual_entries_changed", Json::Bool(f.manual_entries_changed));
    put(&mut fields, "expired_evidence_count", json_of_number(f.expired_evidence_count));
    put(&mut fields, "evidence_complete", Json::Bool(f.expired_evidence_count == 0));
    let (state, attempts, retry_at, error): (Json, Json, Json, Json) = match &f.schedule_run {
        Some(run) => (
            json_of_text(run.state.as_str()),
            json_of_number(run.attempts),
            json_of_text(run.next_attempt_at.as_str()),
            json_of_option(&run.last_error),
        ),
        None => (Json::Null, Json::Null, Json::Null, Json::Null),
    };
    put(&mut fields, "schedule_state", state);
    put(&mut fields, "schedule_attempts", attempts);
    put(&mut fields, "schedule_retry_at", retry_at);
    put(&mut fields, "schedule_error", error);
    Json::Record(fields)
}

/// The days to show, and how many were missed, may be updated, or failed.
pub fn daily_overview(facts: &Vec<OverviewFacts>, today: i32, limit: usize) -> (r: DaysOverview)
    ensures
        ({
            let days = shown(facts@, today, limit as nat);
            &&& r.days@ == JsonView::List(day_records(days, today))
            &&& r.missed_count == count_status(days, today, "missed"@)
            &&& r.update_count == count_status(days, today, "update_available"@)
            &&& r.failed_count == count_status(days, today, "generation_failed"@)
        }),
{
    let mut items = empty_list();
    let mut count: usize = 0;
    let mut missed: usize = 0;
    let mut update: usize = 0;
    let mut failed: usize = 0;
    let mut i: usize = 0;
    assert(facts@.take(0) =~= Seq::<OverviewFacts>::empty());
    assert(list_view(items@) =~= day_records(Seq::empty(), today));
    while i < facts.len()
        invariant
            i <= facts@.len(),
            count <= i,
            missed <= count,
            update <= count,
            failed <= count,
            ({
                let days = shown(facts@.take(i as int), today, limit as nat);
                &&& days.len() == count
                &&& list_view(items@) == day_records(days, today)
                &&& missed == count_status(days, today, "missed"@)
                &&& update == count_status(days, today, "update_available"@)
                &&& failed == count_status(days, today, "generation_failed"@)
            }),
        decreases facts@.len() - i,
    {
        proof {
            lemma_take_step(facts@, i as int);
        }
        let f = &facts[i];
        let ghost days = shown(facts@.take(i as int), today, limit as nat);
        if count < limit && (f.number == today || f.event_count > 0 || f.manual_entry_count > 0
            || f.day.is_some() || f.schedule_run.is_some()) {
            let status = status_text(f, today);
            push_item(&mut items, day_json(f, today));
            proof {
                assert(days.push(*f).drop_last() =~= days);
                assert(day_records(days.push(*f), today) =~= day_records(days, today).push(
                    day_record(*f, today),
                ));
            }
            if str_eq(status, "missed") {
                missed += 1;
            }
            if str_eq(status, "update_available") {
                update += 1;
            }
            if str_eq(status, "generation_failed") {
                failed += 1;
            }
            count += 1;
        }
        i += 1;
    }
    assert(facts@.take(i as int) =~= facts@);
    DaysOverview {
        days: Json::List(items),
        missed_count: missed,
        update_count: update,
        failed_count: failed,
    }
}

/// What is there of a day's candidate.
pub struct DayInputs {
    pub live_event_ids: Vec<String>,
    pub deferred_event_ids: Vec<String>,
    pub manual_entries: Vec<ManualDailyEntry>,
    pub has_revision: bool,
    pub content: Option<DailyRevisionContent>,
    /// The events of the candidate's snapshot, where it has one.
    pub snapshot_event_ids: Option<Vec<String>>,
    pub snapshot_evidence: Vec<SnapshotEvidence>,
}

/// What is shown of a day's candidate.
#[derive(Debug, Clone, PartialEq, Eq)]
pub struct DaySummary {
    pub candidate_freshness: Option<&'static str>,
    pub preview_markdown: Option<String>,
    pub new_evidence_count: usize,
    pub expired_evidence_count: usize,
    pub evidence_complete: bool,
}

pub open spec fn snapshot_events(ids: Option<Vec<String>>) -> Seq<Seq<char>> {
    match ids {
        Some(ids) => views(ids@),
        None => Seq::empty(),
    }
}

/// Whether a candidate covers what there is now.
pub open spec fn candidate_is_current(inputs: DayInputs) -> bool {
    let stored_manual = match inputs.content {
        Some(content) => content@.manual_entry_ids,
        None => Seq::empty(),
    };
    let live = without(views(inputs.live_event_ids@), views(inputs.deferred_event_ids@));
    !has_new_evidence(live, snapshot_events(inputs.snapshot_event_ids)) && stored_manual
        == entry_ids(inputs.manual_entries@)
}

pub open spec fn expired_count(evidence: Seq<SnapshotEvidence>) -> nat
    decreases evidence.len(),
{
    if evidence.len() == 0 {
        0
    } else {
        expired_count(evidence.drop_last()) + if evidence.last().available {
            0nat
        } else {
            1nat
        }
    }
}

/// How many events a candidate does not cover.
pub open spec fn new_count(inputs: DayInputs) -> nat {
    if inputs.has_revision {
        without(
            without(views(inputs.live_event_ids@), views(inputs.deferred_event_ids@)),
            snapshot_events(inputs.snapshot_event_ids),
        ).len()
    } else {
        0
    }
}

pub fn count_expired(evidence: &Vec<SnapshotEvidence>) -> (r: usize)
    ensures
        r == expired_count(evidence@),
{
    let mut r: usize = 0;
    let mut i: usize = 0;
    assert(evidence@.take(0) =~= Seq::<SnapshotEvidence>::empty());
    while i < evidence.len()
        invariant
            i <= evidence@.len(),
            r <= i,
            r == expired_count(evidence@.take(i as int)),
        decreases evidence@.len() - i,
    {
        proof {
            lemma_take_step(evidence@, i as int);
        }
        if !evidence[i].available {
            r += 1;
        }
        i += 1;
    }
    assert(evidence@.take(i as int) =~= evidence@);
    r
}

/// What is shown of a day's candidate: whether it is current, how it reads, and
/// what it lacks.
pub fn daily_day_summary(inputs: &DayInputs) -> (r: DaySummary)
    ensures
        match r.candidate_freshness {
            Some(freshness) => inputs.has_revision && freshness@ == (if candidate_is_current(
                *inputs,
            ) {
                "current"@
            } else {
                "update_available"@
            }),
            None => !inputs.has_revision,
        },
        opt_text(r.preview_markdown) == (match inputs.content {
            Some(content) => Some(
                preview(content@, inputs.manual_entries@, inputs.snapshot_evidence@),
            ),
            None => None,
        }),
        r.new_evidence_count == new_count(*inputs),
        r.expired_evidence_count == expired_count(inputs.snapshot_evidence@),
        r.evidence_complete == (r.expired_evidence_count == 0),
{
    let live = texts_without(&inputs.live_event_ids, &inputs.deferred_event_ids);
    let none: Vec<String> = Vec::new();
    assert(views(none@) =~= Seq::<Seq<char>>::empty());
    let snapshot: &Vec<String> = match &inputs.snapshot_event_ids {
        Some(ids) => ids,
        None => &none,
    };
    let stored: &Vec<String> = match &inputs.content {
        Some(content) => &content.manual_entry_ids,
        None => &none,
    };
    let live_manual = ids_of_entries(&inputs.manual_entries);
    let current = !some_is_new(&live, snapshot) && same_texts(stored, &live_manual);
    let candidate_freshness: Option<&'static str> = if inputs.has_revision {
        Some(
            if current {
                "current"
            } else {
                "update_available"
            },
        )
    } else {
        None
    };
    let preview_markdown = match &inputs.content {
        Some(content) => Some(
            render_daily_revision_preview(
                content,
                &inputs.manual_entries,
                &inputs.snapshot_evidence,
            ),
        ),
        None => None,
    };
    let new_evidence_count: usize = if inputs.has_revision {
        let missing = texts_without(&live, snapshot);
        assert(views(missing@).len() == missing@.len());
        missing.len()
    } else {
        0
    };
    let expired: usize = count_expired(&inputs.snapshot_evidence);
    DaySummary {
        candidate_freshness,
        preview_markdown,
        new_evidence_count,
        expired_evidence_count: expired,
        evidence_complete: expired == 0,
    }
}

/// What is shown of an Apply. The two times are written out.
pub open spec fn apply_record(
    op: ApplyOperation,
    created_at: Seq<char>,
    updated_at: Seq<char>,
) -> JsonView {
    let state = op.state@;
    JsonView::Record(
        Map::empty().insert("id"@, JsonView::Text(op.id@)).insert(
            "state"@,
            JsonView::Text(state),
        ).insert("failure_reason"@, optional_text_view(opt_text(op.failure_reason))).insert(
            "created_at"@,
            JsonView::Text(created_at),
        ).insert("updated_at"@, JsonView::Text(updated_at)).insert(
            "can_retry"@,
            JsonView::Bool(
                state == "failed"@ || state == "reconciliation_required"@ || state == "prepared"@
                    || state == "writing"@ || state == "written"@,
            ),
        ),
    )
}

pub fn public_apply_operation(op: &ApplyOperation, created_at: &str, updated_at: &str) -> (r: Json)
    ensures
        r@ == apply_record(*op, created_at@, updated_at@),
{
    let state: &str = op.state.as_str();
    let mut fields = empty_record();
    put(&mut fields, "id", json_of_text(op.id.as_str()));
    put(&mut fields, "state", json_of_text(state));
    put(&mut fields, "failure_reason", json_of_option(&op.failure_reason));
    put(&mut fields, "created_at", json_of_text(created_at));
    put(&mut fields, "updated_at", json_of_text(updated_at));
    put(
        &mut fields,
        "can_retry",
        Json::Bool(
            str_eq(state, "failed") || str_eq(state, "reconciliation_required") || str_eq(
                state,
                "prepared",
            ) || str_eq(state, "writing") || str_eq(state, "written"),
        ),
    );
    Json::Record(fields)
}

} // verus!
