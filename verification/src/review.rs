//! Checks on what the owner asks for while reviewing a day.
use crate::apply::{
    ApplyDailyRequest, ApplyOperation, DailyApplyMaterial, needs_attention, optional_is,
    same_optional,
};
use crate::candidate::{daily_arguments, daily_task, model_context};
use crate::digest::digest;
use crate::errors::{
    ApiError, ErrorView, bad_request_of, checks, conflict_of, not_found_of, unprocessable_of,
};
use crate::generation::ReferenceMode;
use crate::json::{Json, JsonView, empty_list, empty_record, json_of_text, push_item, put};
use crate::models::Moment;
use crate::overview::{DayStatus, count_expired, expired_count};
use crate::prompt::{SuggestMarkdownSummaryArgs, is_daily};
use crate::revisions::{
    DailyRevisionContent, ManualDailyEntry, SnapshotEvidence, preview,
    render_daily_revision_preview,
};
use crate::text::{opt_text, str_eq};
use crate::vault_links::vault_context;
use vstd::prelude::*;
use vstd::string::*;

verus! {

/// Why a day gets no activity record: it has a candidate, lost evidence, or was
/// dismissed.
pub open spec fn activity_error(
    has_revision: bool,
    has_expired_evidence: bool,
    review_status: Option<Seq<char>>,
) -> Option<ErrorView> {
    if has_revision {
        Some(conflict_of("This day already has a draft. It has not been replaced."@))
    } else if has_expired_evidence {
        Some(
            conflict_of(
                "Some activity from a previous attempt has expired. A partial activity record cannot replace it."@,
            ),
        )
    } else if review_status == Some("dismissed"@) {
        Some(conflict_of("Reopen this day before creating an activity record."@))
    } else {
        None
    }
}

pub fn check_activity_record(
    has_revision: bool,
    has_expired_evidence: bool,
    review_status: &Option<String>,
) -> (r: Result<(), ApiError>)
    ensures
        checks(r, activity_error(has_revision, has_expired_evidence, opt_text(*review_status))),
{
    if has_revision {
        return Err(ApiError::conflict("This day already has a draft. It has not been replaced."));
    }
    if has_expired_evidence {
        return Err(
            ApiError::conflict(
                "Some activity from a previous attempt has expired. A partial activity record cannot replace it.",
            ),
        );
    }
    if optional_is(review_status, "dismissed") {
        return Err(ApiError::conflict("Reopen this day before creating an activity record."));
    }
    Ok(())
}

/// Why there is no activity to record.
pub fn check_activity_evidence(truncated: bool, event_count: usize, manual_count: usize) -> (r: Result<
    (),
    ApiError,
>)
    ensures
        checks(
            r,
            if truncated {
                Some(
                    unprocessable_of(
                        "This day exceeds the 500-event limit. No partial activity record was created."@,
                    ),
                )
            } else if event_count == 0 && manual_count == 0 {
                Some(conflict_of("This day has no activity or manual notes."@))
            } else {
                None
            },
        ),
{
    if truncated {
        return Err(
            ApiError::unprocessable(
                "This day exceeds the 500-event limit. No partial activity record was created.",
            ),
        );
    }
    if event_count == 0 && manual_count == 0 {
        return Err(ApiError::conflict("This day has no activity or manual notes."));
    }
    Ok(())
}

/// Why a request to generate contradicts itself.
pub open spec fn generate_request_error(
    mode: ReferenceMode,
    has_exclusions: bool,
    has_expected_revision: bool,
) -> Option<ErrorView> {
    if mode == ReferenceMode::Without && has_exclusions {
        Some(
            bad_request_of("Reference exclusions cannot be combined with reference_mode none."@),
        )
    } else if has_exclusions != has_expected_revision {
        Some(
            bad_request_of(
                "expected_revision_id and context_exclusions must be provided together"@,
            ),
        )
    } else {
        None
    }
}

pub fn check_generate_request(
    mode: ReferenceMode,
    has_exclusions: bool,
    has_expected_revision: bool,
) -> (r: Result<(), ApiError>)
    ensures
        checks(r, generate_request_error(mode, has_exclusions, has_expected_revision)),
{
    if mode == ReferenceMode::Without && has_exclusions {
        return Err(
            ApiError::bad_request(
                "Reference exclusions cannot be combined with reference_mode none.",
            ),
        );
    }
    if has_exclusions != has_expected_revision {
        return Err(
            ApiError::bad_request(
                "expected_revision_id and context_exclusions must be provided together",
            ),
        );
    }
    Ok(())
}

/// Why a candidate cannot be compared.
pub open spec fn comparison_error(
    day: Option<&DayStatus>,
    revision: Option<(Seq<char>, Seq<char>)>,
    expected_revision_id: Seq<char>,
) -> Option<ErrorView> {
    match (day, revision) {
        (Some(day), Some((id, origin))) => if id != expected_revision_id {
            Some(conflict_of("the Daily candidate changed; start the comparison again"@))
        } else if day.review_status@ != "in_review"@ || day.freshness@ != "current"@ || !(origin
            == "generated"@ || origin == "regenerated"@) {
            Some(conflict_of("only a current, unedited Daily candidate can be compared"@))
        } else {
            None
        },
        _ => Some(conflict_of("generate a Daily candidate before comparing it"@)),
    }
}

/// Whether a candidate may be compared. The revision is given by its ID and its
/// origin.
pub fn check_comparison(
    day: Option<&DayStatus>,
    revision: Option<(&str, &str)>,
    expected_revision_id: &str,
) -> (r: Result<(), ApiError>)
    ensures
        checks(
            r,
            comparison_error(
                day,
                match revision {
                    Some((id, origin)) => Some((id@, origin@)),
                    None => None,
                },
                expected_revision_id@,
            ),
        ),
{
    match (day, revision) {
        (Some(day), Some((id, origin))) => {
            if !str_eq(id, expected_revision_id) {
                return Err(
                    ApiError::conflict("the Daily candidate changed; start the comparison again"),
                );
            }
            if !str_eq(day.review_status.as_str(), "in_review") || !str_eq(
                day.freshness.as_str(),
                "current",
            ) || !(str_eq(origin, "generated") || str_eq(origin, "regenerated")) {
                return Err(
                    ApiError::conflict("only a current, unedited Daily candidate can be compared"),
                );
            }
            Ok(())
        },
        _ => Err(ApiError::conflict("generate a Daily candidate before comparing it")),
    }
}

/// Why the context of a candidate cannot be compared.
pub fn check_comparison_context(payload: Option<&Json>) -> (r: Result<(), ApiError>)
    ensures
        checks(
            r,
            match payload {
                None => Some(conflict_of("this candidate did not use Knowledge context"@)),
                Some(payload) => if payload@.length_field("used_notes"@) == 0 {
                    Some(
                        conflict_of("this candidate has no matched Knowledge notes to compare"@),
                    )
                } else {
                    None
                },
            },
        ),
{
    match payload {
        None => Err(ApiError::conflict("this candidate did not use Knowledge context")),
        Some(payload) => {
            let count: usize = payload.get_length("used_notes");
            if count == 0 {
                Err(
                    ApiError::conflict("this candidate has no matched Knowledge notes to compare"),
                )
            } else {
                Ok(())
            }
        },
    }
}

/// Why the evidence of a candidate cannot be compared.
pub fn check_comparison_evidence(evidence: &Vec<SnapshotEvidence>) -> (r: Result<(), ApiError>)
    ensures
        checks(
            r,
            if expired_count(evidence@) > 0 {
                Some(
                    conflict_of(
                        "source evidence expired, so a fair comparison can no longer be generated"@,
                    ),
                )
            } else {
                None
            },
        ),
{
    let expired: usize = count_expired(evidence);
    if expired > 0 {
        Err(
            ApiError::conflict(
                "source evidence expired, so a fair comparison can no longer be generated",
            ),
        )
    } else {
        Ok(())
    }
}

/// Why a context cannot be handed to the model: excerpts of notes go to a local
/// model only.
pub fn check_comparison_model(payload: &Json, stays_local: bool) -> (r: Result<(), ApiError>)
    ensures
        checks(
            r,
            if payload@.length_field("excerpts"@) > 0 && !stays_local {
                Some(
                    conflict_of(
                        "this comparison contains frozen note excerpts and requires a local model"@,
                    ),
                )
            } else {
                None
            },
        ),
{
    let excerpts: usize = payload.get_length("excerpts");
    if excerpts > 0 && !stays_local {
        Err(
            ApiError::conflict(
                "this comparison contains frozen note excerpts and requires a local model",
            ),
        )
    } else {
        Ok(())
    }
}

/// The context of the side of a comparison that has none.
pub open spec fn context_without_notes(destination_path: Seq<char>) -> JsonView {
    JsonView::Record(
        Map::empty().insert("candidate_notes"@, JsonView::List(Seq::empty())).insert(
            "workstream_links"@,
            JsonView::Record(Map::empty()),
        ).insert("group_aliases"@, JsonView::Record(Map::empty())).insert(
            "daily_note"@,
            JsonView::Text(destination_path),
        ).insert(
            "knowledge"@,
            JsonView::Record(
                Map::empty().insert("resolver_version"@, JsonView::Text("none"@)).insert(
                    "context_is_background_only"@,
                    JsonView::Bool(true),
                ).insert("excerpts"@, JsonView::List(Seq::empty())).insert(
                    "workstream_excerpts"@,
                    JsonView::Record(Map::empty()),
                ),
            ),
        ),
    )
}

/// What the model is asked on the two sides of a comparison: once with the
/// frozen context, and once without.
pub fn comparison_arguments(context: Json, destination_path: &str, digest: &str) -> (r: (
    SuggestMarkdownSummaryArgs,
    SuggestMarkdownSummaryArgs,
))
    ensures
        r.0.vault_context@ == model_context(context@, destination_path@, Some(digest@)),
        r.1.vault_context@ == context_without_notes(destination_path@),
        is_daily(r.0.mode@) && is_daily(r.1.mode@),
        opt_text(r.0.task) == Some(daily_task()),
        opt_text(r.1.task) == Some(daily_task()),
{
    let with = daily_arguments(context, destination_path, Some(digest));
    let mut knowledge = empty_record();
    put(&mut knowledge, "resolver_version", json_of_text("none"));
    put(&mut knowledge, "context_is_background_only", Json::Bool(true));
    put(&mut knowledge, "excerpts", Json::List(empty_list()));
    put(&mut knowledge, "workstream_excerpts", Json::Record(empty_record()));
    let mut fields = empty_record();
    put(&mut fields, "candidate_notes", Json::List(empty_list()));
    put(&mut fields, "workstream_links", Json::Record(empty_record()));
    put(&mut fields, "group_aliases", Json::Record(empty_record()));
    put(&mut fields, "daily_note", json_of_text(destination_path));
    put(&mut fields, "knowledge", Json::Record(knowledge));
    let without = SuggestMarkdownSummaryArgs {
        vault_context: Json::Record(fields),
        mode: "daily-consolidation".to_owned(),
        task: Some(
            "Create a concise, evidence-backed daily engineering record. Preserve distinct outcomes, decisions, trade-offs, validation, blockers, and follow-up.".to_owned(),
        ),
    };
    (with, without)
}

/// A comparison of two candidates, one of them with context. `created_at` is
/// written out.
#[derive(Debug)]
pub struct ContextComparison {
    pub id: String,
    pub source_revision_id: String,
    pub state: String,
    pub created_at: String,
    pub arm_a_content: DailyRevisionContent,
    pub arm_b_content: DailyRevisionContent,
    /// Which candidate stands first, once it may be told.
    pub arm_a_kind: Option<String>,
    pub decision: Option<Json>,
}

pub open spec fn arm_record(id: Seq<char>, markdown: Seq<char>) -> JsonView {
    JsonView::Record(
        Map::empty().insert("id"@, JsonView::Text(id)).insert(
            "preview_markdown"@,
            JsonView::Text(markdown),
        ),
    )
}

pub open spec fn assignment_record(kind: Seq<char>) -> JsonView {
    let (a, b) = if kind == "context"@ {
        ("with_context"@, "without_context"@)
    } else {
        ("without_context"@, "with_context"@)
    };
    JsonView::Record(
        Map::empty().insert("a"@, JsonView::Text(a)).insert("b"@, JsonView::Text(b)),
    )
}

/// What is shown of a comparison before and after its decision.
pub open spec fn comparison_record(
    c: ContextComparison,
    entries: Seq<ManualDailyEntry>,
    evidence: Seq<SnapshotEvidence>,
) -> JsonView {
    let open = Map::empty().insert("id"@, JsonView::Text(c.id@)).insert(
        "source_revision_id"@,
        JsonView::Text(c.source_revision_id@),
    ).insert("state"@, JsonView::Text(c.state@)).insert(
        "created_at"@,
        JsonView::Text(c.created_at@),
    ).insert(
        "arms"@,
        JsonView::List(
            Seq::<JsonView>::empty().push(
                arm_record("a"@, preview(c.arm_a_content@, entries, evidence)),
            ).push(arm_record("b"@, preview(c.arm_b_content@, entries, evidence))),
        ),
    );
    let assigned = match opt_text(c.arm_a_kind) {
        Some(kind) => open.insert("assignment"@, assignment_record(kind)),
        None => open,
    };
    JsonView::Record(
        match c.decision {
            Some(decision) => assigned.insert("decision"@, decision@),
            None => assigned,
        },
    )
}

fn arm_json(id: &str, markdown: &str) -> (r: Json)
    ensures
        r@ == arm_record(id@, markdown@),
{
    let mut fields = empty_record();
    put(&mut fields, "id", json_of_text(id));
    put(&mut fields, "preview_markdown", json_of_text(markdown));
    Json::Record(fields)
}

/// What is shown of a comparison. Which side is which is told only where the
/// comparison says so.
pub fn public_context_comparison(
    comparison: &ContextComparison,
    manual_entries: &Vec<ManualDailyEntry>,
    evidence: &Vec<SnapshotEvidence>,
) -> (r: Json)
    ensures
        r@ == comparison_record(*comparison, manual_entries@, evidence@),
{
    let a = render_daily_revision_preview(&comparison.arm_a_content, manual_entries, evidence);
    let b = render_daily_revision_preview(&comparison.arm_b_content, manual_entries, evidence);
    let mut arms = empty_list();
    push_item(&mut arms, arm_json("a", a.as_str()));
    push_item(&mut arms, arm_json("b", b.as_str()));
    let mut fields = empty_record();
    put(&mut fields, "id", json_of_text(comparison.id.as_str()));
    put(
        &mut fields,
        "source_revision_id",
        json_of_text(comparison.source_revision_id.as_str()),
    );
    put(&mut fields, "state", json_of_text(comparison.state.as_str()));
    put(&mut fields, "created_at", json_of_text(comparison.created_at.as_str()));
    put(&mut fields, "arms", Json::List(arms));
    if let Some(kind) = &comparison.arm_a_kind {
        let (first, second): (&str, &str) = if str_eq(kind.as_str(), "context") {
            ("with_context", "without_context")
        } else {
            ("without_context", "with_context")
        };
        let mut assignment = empty_record();
        put(&mut assignment, "a", json_of_text(first));
        put(&mut assignment, "b", json_of_text(second));
        put(&mut fields, "assignment", Json::Record(assignment));
    }
    if let Some(decision) = &comparison.decision {
        put(&mut fields, "decision", decision.copy());
    }
    Json::Record(fields)
}

/// While a comparison does not say which side is which, what is shown of it does
/// not tell either: there is no assignment, and before the decision no decision.
pub proof fn law_open_comparison_is_blind(
    c: ContextComparison,
    entries: Seq<ManualDailyEntry>,
    evidence: Seq<SnapshotEvidence>,
)
    requires
        c.arm_a_kind is None,
    ensures
        comparison_record(c, entries, evidence).field("assignment"@) is None,
        c.decision is None ==> comparison_record(c, entries, evidence).field("decision"@) is None,
{
    reveal_strlit("assignment");
    reveal_strlit("decision");
    reveal_strlit("id");
    reveal_strlit("source_revision_id");
    reveal_strlit("state");
    reveal_strlit("created_at");
    reveal_strlit("arms");
    assert("assignment"@[0] == 'a' && "created_at"@[0] == 'c');
    assert("assignment"@ != "created_at"@);
    assert("assignment"@.len() == 10 && "decision"@.len() == 8 && "id"@.len() == 2);
    assert("source_revision_id"@.len() == 18 && "state"@.len() == 5 && "arms"@.len() == 4);
    assert(opt_text(c.arm_a_kind) is None);
    let shown = comparison_record(c, entries, evidence)->Record_0;
    assert(!shown.dom().contains("assignment"@));
    if c.decision is None {
        assert(!shown.dom().contains("decision"@));
    }
}

/// What is shown of an open comparison depends on nothing but its identity, the
/// revision it comes from, its state and time, and the two contents in the order
/// of the arms: comparisons that agree in these are shown alike.
pub proof fn law_open_comparisons_are_shown_alike(
    a: ContextComparison,
    b: ContextComparison,
    entries: Seq<ManualDailyEntry>,
    evidence: Seq<SnapshotEvidence>,
)
    requires
        a.arm_a_kind is None,
        b.arm_a_kind is None,
        a.decision is None,
        b.decision is None,
        a.id@ == b.id@,
        a.source_revision_id@ == b.source_revision_id@,
        a.state@ == b.state@,
        a.created_at@ == b.created_at@,
        a.arm_a_content@ == b.arm_a_content@,
        a.arm_b_content@ == b.arm_b_content@,
    ensures
        comparison_record(a, entries, evidence) == comparison_record(b, entries, evidence),
{
    assert(opt_text(a.arm_a_kind) is None && opt_text(b.arm_a_kind) is None);
}

/// Why the evidence of a candidate cannot be reviewed.
pub fn check_review(current_id: Option<&str>, expected_revision_id: &str, has_snapshot: bool) -> (r:
    Result<(), ApiError>)
    ensures
        checks(
            r,
            match current_id {
                None => Some(conflict_of("generate a candidate before reviewing evidence"@)),
                Some(id) => if id@ != expected_revision_id@ {
                    Some(conflict_of("the Daily candidate changed; reload and try again"@))
                } else if !has_snapshot {
                    Some(conflict_of("manual-only candidates have no automated evidence"@))
                } else {
                    None
                },
            },
        ),
{
    match current_id {
        None => Err(ApiError::conflict("generate a candidate before reviewing evidence")),
        Some(id) => {
            if !str_eq(id, expected_revision_id) {
                Err(ApiError::conflict("the Daily candidate changed; reload and try again"))
            } else if !has_snapshot {
                Err(ApiError::conflict("manual-only candidates have no automated evidence"))
            } else {
                Ok(())
            }
        },
    }
}

/// Why a candidate cannot be edited. `format` is the version of its content.
pub fn check_edit(
    current: Option<(&str, Option<u64>)>,
    expected_revision_id: &str,
    edited_format: u64,
) -> (r: Result<(), ApiError>)
    ensures
        checks(
            r,
            match current {
                None => Some(conflict_of("generate a candidate before editing it"@)),
                Some((id, format)) => if id@ != expected_revision_id@ {
                    Some(conflict_of("the Daily candidate changed; reload and try again"@))
                } else if format != Some(edited_format) {
                    Some(bad_request_of("Editing cannot change the draft format."@))
                } else {
                    None
                },
            },
        ),
{
    match current {
        None => Err(ApiError::conflict("generate a candidate before editing it")),
        Some((id, format)) => {
            if !str_eq(id, expected_revision_id) {
                return Err(
                    ApiError::conflict("the Daily candidate changed; reload and try again"),
                );
            }
            let same = match format {
                Some(version) => version == edited_format,
                None => false,
            };
            if !same {
                return Err(ApiError::bad_request("Editing cannot change the draft format."));
            }
            Ok(())
        },
    }
}

/// The hours that a day covers, and where its Daily goes.
#[derive(Debug, Clone, PartialEq, Eq)]
pub struct EffectiveDailyWindow {
    pub timezone: String,
    pub start_utc: Moment,
    pub end_utc: Moment,
    pub destination_path: String,
}

pub struct WindowView {
    pub timezone: Seq<char>,
    pub start_utc: Moment,
    pub end_utc: Moment,
    pub destination_path: Seq<char>,
}

impl View for EffectiveDailyWindow {
    type V = WindowView;

    open spec fn view(&self) -> WindowView {
        WindowView {
            timezone: self.timezone@,
            start_utc: self.start_utc,
            end_utc: self.end_utc,
            destination_path: self.destination_path@,
        }
    }
}

/// The window of a day: as it was frozen, or as the settings give it now.
pub fn effective_daily_window(
    frozen: Option<EffectiveDailyWindow>,
    resolved: Result<EffectiveDailyWindow, String>,
) -> (r: Result<EffectiveDailyWindow, String>)
    ensures
        match (frozen, resolved) {
            (Some(window), _) => r is Ok && r->Ok_0@ == window@,
            (None, Ok(window)) => r is Ok && r->Ok_0@ == window@,
            (None, Err(error)) => r is Err && r->Err_0@ == error@,
        },
{
    match frozen {
        Some(window) => Ok(window),
        None => resolved,
    }
}

/// What to do about an Apply that is to be tried again.
#[derive(Debug)]
pub enum RetryStep {
    NotFound(ApiError),
    /// It was finalized: there is nothing to do.
    Done,
    /// Move the journal back to `prepared`, then recover.
    Prepare,
    Recover,
}

/// Decides on an Apply that is to be tried again; it must be of that workspace
/// and that day.
pub fn retry_daily_apply(op: Option<&ApplyOperation>, workspace_id: &str, local_date: &str) -> (r:
    RetryStep)
    ensures
        match op {
            None => r is NotFound && r->NotFound_0@ == not_found_of(
                "Apply operation was not found"@,
            ),
            Some(op) => if op.workspace_id@ != workspace_id@ || op.local_date@ != local_date@ {
                r is NotFound && r->NotFound_0@ == not_found_of("Apply operation was not found"@)
            } else if op.state@ == "finalized"@ {
                r is Done
            } else if needs_attention(op.state@) {
                r is Prepare
            } else {
                r is Recover
            },
        },
{
    match op {
        None => RetryStep::NotFound(ApiError::not_found("Apply operation was not found")),
        Some(op) => {
            if !str_eq(op.workspace_id.as_str(), workspace_id) || !str_eq(
                op.local_date.as_str(),
                local_date,
            ) {
                RetryStep::NotFound(ApiError::not_found("Apply operation was not found"))
            } else if str_eq(op.state.as_str(), "finalized") {
                RetryStep::Done
            } else if str_eq(op.state.as_str(), "failed") || str_eq(
                op.state.as_str(),
                "reconciliation_required",
            ) {
                RetryStep::Prepare
            } else {
                RetryStep::Recover
            }
        },
    }
}

/// Whether the block that an Apply replaces is still the one that was approved.
pub fn check_old_block(material: &DailyApplyMaterial, input: &ApplyDailyRequest) -> (r: Result<
    (),
    ApiError,
>)
    ensures
        checks(
            r,
            if opt_text(material.plan.expected_old_block_hash) == opt_text(
                input.expected_old_block_hash,
            ) {
                None
            } else {
                Some(conflict_of("the approved Daily block changed; preview Apply again"@))
            },
        ),
{
    if same_optional(&material.plan.expected_old_block_hash, &input.expected_old_block_hash) {
        Ok(())
    } else {
        Err(ApiError::conflict("the approved Daily block changed; preview Apply again"))
    }
}

} // verus!
