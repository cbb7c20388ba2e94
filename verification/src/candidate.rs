//! Generating a Daily candidate: what is refused, kept, saved or asked of the
//! model.
use crate::apply::optional_is;
use crate::apply_material::{has_new_evidence, without};
use crate::digest::digest;
use crate::errors::{
    ApiError, ErrorView, bad_request_of, checks, conflict_of, internal_of,
    invalid_references_of, unprocessable_of,
};
use crate::generation::{ReferenceMode, mode_text};
use crate::json::{
    Json, JsonView, empty_list, empty_record, field_in, field_of, fields_view, json_of_number,
    json_of_text, json_of_texts, json_text, lemma_list_view, list_view, number_view, put,
    text_views,
};
use crate::knowledge::{KnowledgeResolution, MAX_CONTEXT_SNAPSHOT_BYTES, event_ids};
use crate::ordered::contains_text;
use crate::prompt::{SuggestMarkdownSummaryArgs, is_daily};
use crate::proposals::same_texts;
use crate::revisions::DailyRevisionContent;
use crate::snapshot::{context_snapshot_digest, json_sha};
use crate::text::{
    byte_len, copy_texts, lemma_decimal_value, lemma_take_step, lemma_views_push, opt_text,
    str_eq, views,
};
use vstd::prelude::*;
use vstd::string::*;

verus! {

/// The evidence snapshot of the current candidate.
#[derive(Debug)]
pub enum SnapshotFacts {
    /// The candidate has none.
    Absent,
    /// The candidate names one that is not there.
    Missing,
    Found { id: String, event_ids: Vec<String>, all_available: bool },
}

/// The current candidate of a day.
#[derive(Debug)]
pub struct CurrentCandidate {
    pub id: String,
    pub origin: String,
    pub schema_version: Option<u64>,
    /// Its content as it is stored.
    pub stored: Json,
    /// Its content, or why it could not be read.
    pub content: Result<DailyRevisionContent, String>,
    /// The reference mode that it was generated with.
    pub reference_mode: Option<String>,
    pub snapshot: SnapshotFacts,
}

/// What is there when a candidate is to be generated.
#[derive(Debug)]
pub struct GenerationInputs {
    pub workspace_id: String,
    pub attempt_workspace_id: String,
    pub review_status: Option<String>,
    pub evidence_truncated: bool,
    pub event_ids: Vec<String>,
    pub deferred_event_ids: Vec<String>,
    pub manual_entry_ids: Vec<String>,
    pub current: Option<CurrentCandidate>,
    /// The revision that requested context adjustments are for.
    pub adjusted_revision_id: Option<String>,
    pub replace_edited: bool,
    pub reference_mode: ReferenceMode,
}

/// What is to be done before any evidence is frozen.
#[derive(Debug)]
pub enum Preparation {
    Refuse(ApiError),
    /// The current candidate stands.
    KeepCurrent,
    /// Save the current candidate with the manual notes of now.
    SaveManualNotes,
    /// Save a candidate of manual notes alone; with `freeze_without_references`
    /// a context snapshot without references is saved first.
    SaveManualOnly { freeze_without_references: bool },
    /// Go on with the events that are left.
    Proceed,
}

pub enum PreparationView {
    Refuse(ErrorView),
    KeepCurrent,
    SaveManualNotes,
    SaveManualOnly { freeze_without_references: bool },
    Proceed,
}

impl View for Preparation {
    type V = PreparationView;

    open spec fn view(&self) -> PreparationView {
        match self {
            Preparation::Refuse(error) => PreparationView::Refuse(error@),
            Preparation::KeepCurrent => PreparationView::KeepCurrent,
            Preparation::SaveManualNotes => PreparationView::SaveManualNotes,
            Preparation::SaveManualOnly { freeze_without_references } =>
                PreparationView::SaveManualOnly {
                freeze_without_references: *freeze_without_references,
            },
            Preparation::Proceed => PreparationView::Proceed,
        }
    }
}

/// Why a day cannot be generated, before its evidence is read.
pub open spec fn opening_error(
    workspace_id: Seq<char>,
    attempt_workspace_id: Seq<char>,
    review_status: Option<Seq<char>>,
) -> Option<ErrorView> {
    if workspace_id != attempt_workspace_id {
        Some(conflict_of("The active workspace changed before generation started."@))
    } else if review_status == Some("dismissed"@) {
        Some(conflict_of("Reopen this dismissed day before generating another candidate."@))
    } else {
        None
    }
}

pub fn check_opening(
    workspace_id: &str,
    attempt_workspace_id: &str,
    review_status: &Option<String>,
) -> (r: Result<(), ApiError>)
    ensures
        checks(r, opening_error(workspace_id@, attempt_workspace_id@, opt_text(*review_status))),
{
    if !str_eq(workspace_id, attempt_workspace_id) {
        return Err(ApiError::conflict("The active workspace changed before generation started."));
    }
    if optional_is(review_status, "dismissed") {
        return Err(
            ApiError::conflict("Reopen this dismissed day before generating another candidate."),
        );
    }
    Ok(())
}

pub open spec fn current_id(current: Option<CurrentCandidate>) -> Option<Seq<char>> {
    match current {
        Some(current) => Some(current.id@),
        None => None,
    }
}

/// Why the current candidate stands in the way.
pub open spec fn current_error(inputs: GenerationInputs) -> Option<ErrorView> {
    let adjusted = opt_text(inputs.adjusted_revision_id);
    if inputs.evidence_truncated {
        Some(unprocessable_of("Daily evidence exceeds the supported 500-event preview limit."@))
    } else if adjusted is Some && current_id(inputs.current) != adjusted {
        Some(
            conflict_of("the Daily candidate changed; review its frozen Knowledge context again"@),
        )
    } else if inputs.current is Some && inputs.current->0.schema_version == Some(2u64)
        && !inputs.replace_edited {
        Some(
            conflict_of(
                "Confirm replacement before generating an AI summary of this activity record."@,
            ),
        )
    } else {
        None
    }
}

/// The events of the day that the owner did not defer. Without a candidate
/// nothing is deferred.
pub open spec fn considered_events(inputs: GenerationInputs) -> Seq<Seq<char>> {
    if inputs.current is Some {
        without(views(inputs.event_ids@), views(inputs.deferred_event_ids@))
    } else {
        views(inputs.event_ids@)
    }
}

/// What becomes of a candidate whose source evidence has expired: it is never
/// replaced from what is left of it.
pub open spec fn expired_preparation(
    current: CurrentCandidate,
    snapshot_event_ids: Seq<Seq<char>>,
    events: Seq<Seq<char>>,
    manual_entry_ids: Seq<Seq<char>>,
    adjusted: bool,
    mode: ReferenceMode,
) -> PreparationView {
    if adjusted || mode == ReferenceMode::Without {
        PreparationView::Refuse(
            conflict_of(
                "Source evidence for this candidate has expired, so its Knowledge context cannot be regenerated safely. The current revision is preserved."@,
            ),
        )
    } else {
        match current.content {
            Err(error) => PreparationView::Refuse(internal_of(error@)),
            Ok(content) => if has_new_evidence(events, snapshot_event_ids) {
                PreparationView::Refuse(
                    conflict_of(
                        "Some source evidence for this candidate has expired. Log Inbox will not replace a complete reviewed record from partial evidence. The existing revision is preserved; restore the missing source evidence before regenerating."@,
                    ),
                )
            } else if content@.manual_entry_ids == manual_entry_ids {
                PreparationView::KeepCurrent
            } else {
                PreparationView::SaveManualNotes
            },
        }
    }
}

/// What becomes of a day without events.
pub open spec fn eventless_preparation(inputs: GenerationInputs) -> PreparationView {
    let keeps = match inputs.current {
        Some(current) => {
            &&& current.snapshot is Absent
            &&& current.stored@ == JsonView::Record(
                manual_only_record(views(inputs.manual_entry_ids@)),
            )
            &&& (match opt_text(current.reference_mode) {
                Some(mode) => mode,
                None => "configured"@,
            }) == mode_text(inputs.reference_mode)
        },
        None => false,
    };
    if inputs.adjusted_revision_id is Some {
        PreparationView::Refuse(
            bad_request_of("Knowledge excerpt adjustments require automated evidence"@),
        )
    } else if inputs.manual_entry_ids@.len() == 0 {
        PreparationView::Refuse(conflict_of("This day has no evidence or manual notes."@))
    } else if keeps {
        PreparationView::KeepCurrent
    } else {
        PreparationView::SaveManualOnly {
            freeze_without_references: inputs.reference_mode == ReferenceMode::Without,
        }
    }
}

/// What becomes of the evidence that a candidate rests on.
pub open spec fn evidence_preparation(inputs: GenerationInputs) -> PreparationView {
    let events = considered_events(inputs);
    let proceed = if events.len() == 0 {
        eventless_preparation(inputs)
    } else {
        PreparationView::Proceed
    };
    match inputs.current {
        None => proceed,
        Some(current) => match current.snapshot {
            SnapshotFacts::Absent => proceed,
            SnapshotFacts::Missing => PreparationView::Refuse(
                internal_of("the current evidence snapshot is missing"@),
            ),
            SnapshotFacts::Found { event_ids, all_available, .. } => if all_available {
                proceed
            } else {
                expired_preparation(
                    current,
                    views(event_ids@),
                    events,
                    views(inputs.manual_entry_ids@),
                    inputs.adjusted_revision_id is Some,
                    inputs.reference_mode,
                )
            },
        },
    }
}

/// What is to be done before any evidence is frozen.
pub open spec fn preparation(inputs: GenerationInputs) -> PreparationView {
    let opening = opening_error(
        inputs.workspace_id@,
        inputs.attempt_workspace_id@,
        opt_text(inputs.review_status),
    );
    if opening is Some {
        PreparationView::Refuse(opening->0)
    } else if current_error(inputs) is Some {
        PreparationView::Refuse(current_error(inputs)->0)
    } else {
        evidence_preparation(inputs)
    }
}

fn check_current(inputs: &GenerationInputs) -> (r: Result<(), ApiError>)
    ensures
        checks(r, current_error(*inputs)),
{
    if inputs.evidence_truncated {
        return Err(
            ApiError::unprocessable(
                "Daily evidence exceeds the supported 500-event preview limit.",
            ),
        );
    }
    if let Some(expected) = &inputs.adjusted_revision_id {
        let same = match &inputs.current {
            Some(current) => str_eq(current.id.as_str(), expected.as_str()),
            None => false,
        };
        if !same {
            return Err(
                ApiError::conflict(
                    "the Daily candidate changed; review its frozen Knowledge context again",
                ),
            );
        }
    }
    if let Some(current) = &inputs.current {
        let is_record = match current.schema_version {
            Some(version) => version == 2,
            None => false,
        };
        if is_record && !inputs.replace_edited {
            return Err(
                ApiError::conflict(
                    "Confirm replacement before generating an AI summary of this activity record.",
                ),
            );
        }
    }
    Ok(())
}

/// The texts of a list that another list lacks, in order.
pub fn texts_without(texts: &Vec<String>, taken: &Vec<String>) -> (r: Vec<String>)
    ensures
        views(r@) == without(views(texts@), views(taken@)),
{
    broadcast use lemma_views_push;
    let ghost all = views(texts@);
    let mut r: Vec<String> = Vec::new();
    let mut i: usize = 0;
    assert(all.take(0) =~= Seq::<Seq<char>>::empty());
    assert(views(r@) =~= Seq::<Seq<char>>::empty());
    while i < texts.len()
        invariant
            i <= texts@.len(),
            all == views(texts@),
            views(r@) == without(all.take(i as int), views(taken@)),
        decreases texts@.len() - i,
    {
        proof {
            lemma_take_step(all, i as int);
        }
        if !contains_text(taken, texts[i].as_str()) {
            r.push(texts[i].as_str().to_owned());
        }
        i += 1;
    }
    assert(all.take(i as int) =~= all);
    r
}

/// The events that generation goes on with.
pub fn events_to_consider(inputs: &GenerationInputs) -> (r: Vec<String>)
    ensures
        views(r@) == considered_events(*inputs),
{
    if inputs.current.is_some() {
        texts_without(&inputs.event_ids, &inputs.deferred_event_ids)
    } else {
        copy_texts(&inputs.event_ids)
    }
}

pub fn some_is_new(live: &Vec<String>, snapshot: &Vec<String>) -> (r: bool)
    ensures
        r == has_new_evidence(views(live@), views(snapshot@)),
{
    let ghost all = views(live@);
    let mut i: usize = 0;
    while i < live.len()
        invariant
            i <= live@.len(),
            all == views(live@),
            forall|k: int| 0 <= k < i ==> views(snapshot@).contains(#[trigger] all[k]),
        decreases live@.len() - i,
    {
        if !contains_text(snapshot, live[i].as_str()) {
            assert(!views(snapshot@).contains(all[i as int]));
            return true;
        }
        i += 1;
    }
    false
}

fn prepare_expired(
    current: &CurrentCandidate,
    snapshot_event_ids: &Vec<String>,
    events: &Vec<String>,
    inputs: &GenerationInputs,
) -> (r: Preparation)
    ensures
        r@ == expired_preparation(
            *current,
            views(snapshot_event_ids@),
            views(events@),
            views(inputs.manual_entry_ids@),
            inputs.adjusted_revision_id is Some,
            inputs.reference_mode,
        ),
{
    if inputs.adjusted_revision_id.is_some() || inputs.reference_mode == ReferenceMode::Without {
        return Preparation::Refuse(
            ApiError::conflict(
                "Source evidence for this candidate has expired, so its Knowledge context cannot be regenerated safely. The current revision is preserved.",
            ),
        );
    }
    match &current.content {
        Err(error) => Preparation::Refuse(ApiError::internal(error.as_str())),
        Ok(content) => {
            if some_is_new(events, snapshot_event_ids) {
                Preparation::Refuse(
                    ApiError::conflict(
                        "Some source evidence for this candidate has expired. Log Inbox will not replace a complete reviewed record from partial evidence. The existing revision is preserved; restore the missing source evidence before regenerating.",
                    ),
                )
            } else if same_texts(&content.manual_entry_ids, &inputs.manual_entry_ids) {
                Preparation::KeepCurrent
            } else {
                Preparation::SaveManualNotes
            }
        },
    }
}

fn prepare_eventless(inputs: &GenerationInputs) -> (r: Preparation)
    ensures
        r@ == eventless_preparation(*inputs),
{
    if inputs.adjusted_revision_id.is_some() {
        return Preparation::Refuse(
            ApiError::bad_request("Knowledge excerpt adjustments require automated evidence"),
        );
    }
    if inputs.manual_entry_ids.len() == 0 {
        return Preparation::Refuse(
            ApiError::conflict("This day has no evidence or manual notes."),
        );
    }
    if let Some(current) = &inputs.current {
        let absent = match &current.snapshot {
            SnapshotFacts::Absent => true,
            _ => false,
        };
        let saved_mode: &str = match &current.reference_mode {
            Some(mode) => mode.as_str(),
            None => "configured",
        };
        if absent && has_only_manual_notes(&current.stored, &inputs.manual_entry_ids) && str_eq(
            saved_mode,
            inputs.reference_mode.as_str(),
        ) {
            return Preparation::KeepCurrent;
        }
    }
    Preparation::SaveManualOnly {
        freeze_without_references: inputs.reference_mode == ReferenceMode::Without,
    }
}

/// Decides what is to be done before any evidence is frozen.
pub fn prepare_generation(inputs: &GenerationInputs) -> (r: Preparation)
    ensures
        r@ == preparation(*inputs),
{
    if let Err(error) = check_opening(
        inputs.workspace_id.as_str(),
        inputs.attempt_workspace_id.as_str(),
        &inputs.review_status,
    ) {
        return Preparation::Refuse(error);
    }
    if let Err(error) = check_current(inputs) {
        return Preparation::Refuse(error);
    }
    let events = events_to_consider(inputs);
    if let Some(current) = &inputs.current {
        match &current.snapshot {
            SnapshotFacts::Absent => {},
            SnapshotFacts::Missing => {
                return Preparation::Refuse(
                    ApiError::internal("the current evidence snapshot is missing"),
                );
            },
            SnapshotFacts::Found { event_ids, all_available, .. } => {
                if !*all_available {
                    return prepare_expired(current, event_ids, &events, inputs);
                }
            },
        }
    }
    assert(views(events@).len() == events@.len());
    if events.len() == 0 {
        prepare_eventless(inputs)
    } else {
        Preparation::Proceed
    }
}

/// A payload that records that no references were used.
pub open spec fn empty_payload(root_binding: Seq<char>) -> Map<Seq<char>, JsonView> {
    Map::empty().insert("schema_version"@, number_view(1)).insert(
        "resolver_version"@,
        JsonView::Text("none"@),
    ).insert("root_binding"@, JsonView::Text(root_binding)).insert(
        "workstream_links"@,
        JsonView::Record(Map::empty()),
    ).insert("workstream_evidence"@, JsonView::Record(Map::empty())).insert(
        "diagnostics"@,
        JsonView::Record(Map::empty()),
    )
}

fn empty_payload_fields(root_binding: &str) -> (r: Vec<(String, Json)>)
    ensures
        fields_view(r@) == empty_payload(root_binding@),
{
    let mut fields = empty_record();
    put(&mut fields, "schema_version", json_of_number(1));
    put(&mut fields, "resolver_version", json_of_text("none"));
    put(&mut fields, "root_binding", json_of_text(root_binding));
    put(&mut fields, "workstream_links", Json::Record(empty_record()));
    put(&mut fields, "workstream_evidence", Json::Record(empty_record()));
    put(&mut fields, "diagnostics", Json::Record(empty_record()));
    fields
}

/// The payload of a candidate that is to be without references.
pub fn without_references_payload(root_binding: &str) -> (r: Json)
    ensures
        r@ == JsonView::Record(
            empty_payload(root_binding@).insert("reference_mode"@, JsonView::Text("none"@)),
        ),
{
    let mut fields = empty_payload_fields(root_binding);
    put(&mut fields, "reference_mode", json_of_text("none"));
    Json::Record(fields)
}

/// What resolving the references of a day came to.
pub enum ResolvedReferences {
    Failed,
    Unconfigured,
    Resolved(KnowledgeResolution),
}

/// A context snapshot to be frozen, and the context for the model.
#[derive(Debug)]
pub struct GenerationContext {
    pub payload: Json,
    pub vault_context: Json,
}

pub open spec fn bare_context() -> Map<Seq<char>, JsonView> {
    Map::empty().insert("candidate_notes"@, JsonView::List(Seq::empty())).insert(
        "workstream_links"@,
        JsonView::Record(Map::empty()),
    )
}

/// The fields of a record; other values have none.
pub open spec fn record_fields(value: JsonView) -> Map<Seq<char>, JsonView> {
    match value {
        JsonView::Record(fields) => fields,
        _ => Map::empty(),
    }
}

/// The payload and the context of a candidate, before they are marked.
pub open spec fn resolved_context(
    mode: ReferenceMode,
    root_binding: Seq<char>,
    references: ResolvedReferences,
    adjusted: bool,
) -> Result<(Map<Seq<char>, JsonView>, JsonView), ErrorView> {
    match mode {
        ReferenceMode::Without => Ok(
            (
                empty_payload(root_binding),
                JsonView::Record(
                    bare_context().insert("group_aliases"@, JsonView::Record(Map::empty())),
                ),
            ),
        ),
        ReferenceMode::Configured => match references {
            ResolvedReferences::Failed => Err(invalid_references_of()),
            ResolvedReferences::Unconfigured => if adjusted {
                Err(
                    conflict_of(
                        "Knowledge is no longer available for this candidate; review its context again"@,
                    ),
                )
            } else {
                Ok((empty_payload(root_binding), JsonView::Record(bare_context())))
            },
            ResolvedReferences::Resolved(resolution) => Ok(
                (
                    record_fields(resolution.snapshot_payload@),
                    resolution.vault_context@,
                ),
            ),
        },
    }
}

/// The payload with the contract and the mode that it was generated under.
pub open spec fn marked_payload(
    payload: Map<Seq<char>, JsonView>,
    contract: Seq<char>,
    mode: ReferenceMode,
) -> JsonView {
    JsonView::Record(
        payload.insert("generation_contract"@, JsonView::Text(contract)).insert(
            "reference_mode"@,
            JsonView::Text(mode_text(mode)),
        ),
    )
}

fn bare_context_fields() -> (r: Vec<(String, Json)>)
    ensures
        fields_view(r@) == bare_context(),
{
    let mut fields = empty_record();
    put(&mut fields, "candidate_notes", Json::List(empty_list()));
    put(&mut fields, "workstream_links", Json::Record(empty_record()));
    fields
}

/// The context snapshot and the context for the model of a candidate.
pub fn context_for_generation(
    mode: ReferenceMode,
    root_binding: &str,
    references: ResolvedReferences,
    adjusted: bool,
    contract: &str,
) -> (r: Result<GenerationContext, ApiError>)
    requires
        references is Resolved ==> references->Resolved_0.snapshot_payload@ is Record,
    ensures
        match resolved_context(mode, root_binding@, references, adjusted) {
            Err(error) => r is Err && r->Err_0@ == error,
            Ok((payload, context)) => r is Ok && (r->Ok_0).payload@ == marked_payload(
                payload,
                contract@,
                mode,
            ) && (r->Ok_0).vault_context@ == context,
        },
{
    let (mut fields, vault_context): (Vec<(String, Json)>, Json) = match mode {
        ReferenceMode::Without => {
            let mut context = bare_context_fields();
            put(&mut context, "group_aliases", Json::Record(empty_record()));
            (empty_payload_fields(root_binding), Json::Record(context))
        },
        ReferenceMode::Configured => match references {
            ResolvedReferences::Failed => {
                return Err(ApiError::invalid_references());
            },
            ResolvedReferences::Unconfigured => {
                if adjusted {
                    return Err(
                        ApiError::conflict(
                            "Knowledge is no longer available for this candidate; review its context again",
                        ),
                    );
                }
                (empty_payload_fields(root_binding), Json::Record(bare_context_fields()))
            },
            ResolvedReferences::Resolved(resolution) => {
                let fields = match resolution.snapshot_payload {
                    Json::Record(fields) => fields,
                    _ => empty_record(),
                };
                (fields, resolution.vault_context)
            },
        },
    };
    put(&mut fields, "generation_contract", json_of_text(contract));
    put(&mut fields, "reference_mode", json_of_text(mode.as_str()));
    Ok(GenerationContext { payload: Json::Record(fields), vault_context })
}

/// The digest of a context snapshot, if it may be frozen: `is_valid` says
/// whether its shape is the one that snapshots have.
pub fn preflight_reference_context(payload: &Json, is_valid: bool) -> (r: Result<String, ApiError>)
    ensures
        is_valid && byte_len(json_text(payload@)) <= MAX_CONTEXT_SNAPSHOT_BYTES ==> r is Ok
            && r->Ok_0@ == json_sha(payload@),
        !(is_valid && byte_len(json_text(payload@)) <= MAX_CONTEXT_SNAPSHOT_BYTES) ==> r is Err
            && r->Err_0@ == invalid_references_of(),
{
    if !is_valid {
        return Err(ApiError::invalid_references());
    }
    match context_snapshot_digest(payload) {
        Ok(digest) => Ok(digest),
        Err(_) => Err(ApiError::invalid_references()),
    }
}

/// What becomes of the current candidate, once its evidence and context are
/// known.
#[derive(Debug)]
pub enum CandidateDecision {
    Refuse(ApiError),
    KeepCurrent,
    SaveManualNotes,
    /// Ask the model; the new revision has that origin.
    Generate { origin: &'static str },
}

pub enum CandidateView {
    Refuse(ErrorView),
    KeepCurrent,
    SaveManualNotes,
    Generate { origin: Seq<char> },
}

impl View for CandidateDecision {
    type V = CandidateView;

    open spec fn view(&self) -> CandidateView {
        match self {
            CandidateDecision::Refuse(error) => CandidateView::Refuse(error@),
            CandidateDecision::KeepCurrent => CandidateView::KeepCurrent,
            CandidateDecision::SaveManualNotes => CandidateView::SaveManualNotes,
            CandidateDecision::Generate { origin } => CandidateView::Generate { origin: origin@ },
        }
    }
}

/// The snapshot that a candidate rests on.
pub open spec fn snapshot_id(current: CurrentCandidate) -> Option<Seq<char>> {
    match current.snapshot {
        SnapshotFacts::Found { id, .. } => Some(id@),
        _ => None,
    }
}

/// What becomes of the current candidate: with the same evidence and context
/// only its notes may change; with edits it is replaced only on request.
pub open spec fn candidate_decision(
    current: Option<CurrentCandidate>,
    frozen_snapshot_id: Seq<char>,
    current_context_digest: Option<Seq<char>>,
    context_digest: Seq<char>,
    manual_entry_ids: Seq<Seq<char>>,
    replace_edited: bool,
) -> CandidateView {
    match current {
        None => CandidateView::Generate { origin: "generated"@ },
        Some(current) => if snapshot_id(current) == Some(frozen_snapshot_id)
            && current_context_digest == Some(context_digest) {
            match current.content {
                Err(error) => CandidateView::Refuse(internal_of(error@)),
                Ok(content) => if content@.manual_entry_ids == manual_entry_ids {
                    CandidateView::KeepCurrent
                } else {
                    CandidateView::SaveManualNotes
                },
            }
        } else if current.origin@ == "structured_edit"@ && !replace_edited {
            CandidateView::Refuse(
                conflict_of(
                    "New evidence is available, but the current candidate has edits. Confirm replacement to regenerate."@,
                ),
            )
        } else {
            CandidateView::Generate { origin: "regenerated"@ }
        },
    }
}

/// Decides what becomes of the current candidate, once the evidence of the day
/// is frozen and its context is known.
pub fn decide_candidate(
    current: &Option<CurrentCandidate>,
    frozen_snapshot_id: &str,
    current_context_digest: &Option<String>,
    context_digest: &str,
    manual_entry_ids: &Vec<String>,
    replace_edited: bool,
) -> (r: CandidateDecision)
    ensures
        r@ == candidate_decision(
            *current,
            frozen_snapshot_id@,
            opt_text(*current_context_digest),
            context_digest@,
            views(manual_entry_ids@),
            replace_edited,
        ),
{
    match current {
        None => CandidateDecision::Generate { origin: "generated" },
        Some(current) => {
            let same_snapshot = match &current.snapshot {
                SnapshotFacts::Found { id, .. } => str_eq(id.as_str(), frozen_snapshot_id),
                _ => false,
            };
            if same_snapshot && optional_is(current_context_digest, context_digest) {
                return match &current.content {
                    Err(error) => CandidateDecision::Refuse(ApiError::internal(error.as_str())),
                    Ok(content) => {
                        if same_texts(&content.manual_entry_ids, manual_entry_ids) {
                            CandidateDecision::KeepCurrent
                        } else {
                            CandidateDecision::SaveManualNotes
                        }
                    },
                };
            }
            if str_eq(current.origin.as_str(), "structured_edit") && !replace_edited {
                return CandidateDecision::Refuse(
                    ApiError::conflict(
                        "New evidence is available, but the current candidate has edits. Confirm replacement to regenerate.",
                    ),
                );
            }
            CandidateDecision::Generate { origin: "regenerated" }
        },
    }
}

/// The context for the model, with the note of the day and the digest of its
/// snapshot.
pub open spec fn model_context(
    context: JsonView,
    destination_path: Seq<char>,
    digest: Option<Seq<char>>,
) -> JsonView {
    match context {
        JsonView::Record(fields) => {
            let noted = fields.insert("daily_note"@, JsonView::Text(destination_path));
            JsonView::Record(
                match digest {
                    Some(digest) => noted.insert(
                        "link_context_revision"@,
                        JsonView::Text(digest),
                    ),
                    None => noted,
                },
            )
        },
        _ => context,
    }
}

pub open spec fn daily_task() -> Seq<char> {
    "Create a concise, evidence-backed daily engineering record. Preserve distinct outcomes, decisions, trade-offs, validation, blockers, and follow-up."@
}

/// What the model is asked for a Daily.
pub fn daily_arguments(context: Json, destination_path: &str, digest: Option<&str>) -> (r:
    SuggestMarkdownSummaryArgs)
    ensures
        r.vault_context@ == model_context(
            context@,
            destination_path@,
            match digest {
                Some(digest) => Some(digest@),
                None => None,
            },
        ),
        is_daily(r.mode@),
        opt_text(r.task) == Some(daily_task()),
{
    let vault_context = match context {
        Json::Record(fields) => {
            let mut fields = fields;
            put(&mut fields, "daily_note", json_of_text(destination_path));
            if let Some(digest) = digest {
                put(&mut fields, "link_context_revision", json_of_text(digest));
            }
            Json::Record(fields)
        },
        other => other,
    };
    SuggestMarkdownSummaryArgs {
        vault_context,
        mode: "daily-consolidation".to_owned(),
        task: Some(
            "Create a concise, evidence-backed daily engineering record. Preserve distinct outcomes, decisions, trade-offs, validation, blockers, and follow-up.".to_owned(),
        ),
    }
}

/// A candidate of manual notes alone, as it is stored.
pub open spec fn manual_only_record(ids: Seq<Seq<char>>) -> Map<Seq<char>, JsonView> {
    Map::empty().insert("schema_version"@, number_view(1)).insert(
        "workstreams"@,
        JsonView::List(Seq::empty()),
    ).insert("manual_entry_ids"@, JsonView::List(text_views(ids))).insert(
        "open_questions"@,
        JsonView::List(Seq::empty()),
    )
}

/// The fields of a record are those that its list names.
proof fn lemma_fields_named(fields: Seq<(String, Json)>, key: Seq<char>)
    ensures
        fields_view(fields).dom().contains(key) <==> exists|i: int|
            0 <= i < fields.len() && (#[trigger] fields[i]).0@ == key,
    decreases fields.len(),
{
    if fields.len() > 0 {
        let init = fields.drop_last();
        lemma_fields_named(init, key);
        assert(fields_view(fields) == fields_view(init).insert(
            fields.last().0@,
            fields.last().1@,
        ));
        if fields_view(init).dom().contains(key) {
            let i = choose|i: int| 0 <= i < init.len() && (#[trigger] init[i]).0@ == key;
            assert(fields[i].0@ == key);
        }
        if fields.last().0@ == key {
            assert(fields[fields.len() - 1].0@ == key);
        }
        if exists|i: int| 0 <= i < fields.len() && (#[trigger] fields[i]).0@ == key {
            let i = choose|i: int| 0 <= i < fields.len() && (#[trigger] fields[i]).0@ == key;
            if i < init.len() {
                assert(init[i].0@ == key);
            }
        }
    }
}

fn is_empty_list(value: Option<&Json>) -> (r: bool)
    ensures
        r == (value is Some && value->0@ == JsonView::List(Seq::empty())),
{
    match value {
        Some(Json::List(items)) => {
            proof {
                lemma_list_view(items@);
                if items@.len() == 0 {
                    assert(list_view(items@) =~= Seq::<JsonView>::empty());
                }
            }
            items.len() == 0
        },
        _ => false,
    }
}

fn is_list_of_texts(value: Option<&Json>, texts: &Vec<String>) -> (r: bool)
    ensures
        r == (value is Some && value->0@ == JsonView::List(text_views(views(texts@)))),
{
    match value {
        Some(Json::List(items)) => {
            let ghost shown = list_view(items@);
            let ghost wanted = text_views(views(texts@));
            proof {
                lemma_list_view(items@);
            }
            if items.len() != texts.len() {
                assert(shown.len() != wanted.len());
                return false;
            }
            let mut i: usize = 0;
            while i < items.len()
                invariant
                    i <= items@.len(),
                    items@.len() == texts@.len(),
                    shown == list_view(items@),
                    shown.len() == items@.len(),
                    forall|k: int| 0 <= k < items@.len() ==> shown[k] == (#[trigger] items@[k])@,
                    wanted == text_views(views(texts@)),
                    value is Some,
                    value->0@ == JsonView::List(shown),
                    forall|k: int| 0 <= k < i ==> #[trigger] shown[k] == wanted[k],
                decreases items@.len() - i,
            {
                assert(wanted[i as int] == JsonView::Text(texts@[i as int]@));
                assert(shown[i as int] == items@[i as int]@);
                let same = match items[i].as_text() {
                    Some(text) => str_eq(text, texts[i].as_str()),
                    None => false,
                };
                if !same {
                    assert(shown[i as int] != wanted[i as int]);
                    return false;
                }
                i += 1;
            }
            assert(shown =~= wanted);
            true
        },
        _ => false,
    }
}

fn names_content_field(key: &str) -> (r: bool)
    ensures
        r == manual_only_record(Seq::empty()).dom().contains(key@),
{
    str_eq(key, "schema_version") || str_eq(key, "workstreams") || str_eq(key, "manual_entry_ids")
        || str_eq(key, "open_questions")
}

/// Whether a stored candidate is exactly the one that holds the manual notes
/// `ids` and nothing else.
pub fn has_only_manual_notes(stored: &Json, ids: &Vec<String>) -> (r: bool)
    ensures
        r == (stored@ == JsonView::Record(manual_only_record(views(ids@)))),
{
    let fields = match stored {
        Json::Record(fields) => fields,
        _ => {
            return false;
        },
    };
    let ghost shown = fields_view(fields@);
    let ghost wanted = manual_only_record(views(ids@));
    assert(wanted.dom() =~= manual_only_record(Seq::empty()).dom());
    let mut i: usize = 0;
    while i < fields.len()
        invariant
            i <= fields@.len(),
            stored@ == JsonView::Record(shown),
            shown == fields_view(fields@),
            wanted == manual_only_record(views(ids@)),
            wanted.dom() == manual_only_record(Seq::empty()).dom(),
            forall|k: int| 0 <= k < i ==> wanted.dom().contains((#[trigger] fields@[k]).0@),
        decreases fields@.len() - i,
    {
        if !names_content_field(fields[i].0.as_str()) {
            proof {
                lemma_fields_named(fields@, fields@[i as int].0@);
                assert(shown.dom().contains(fields@[i as int].0@));
                assert(!wanted.dom().contains(fields@[i as int].0@));
            }
            return false;
        }
        i += 1;
    }
    let version = match field_of(fields, "schema_version") {
        Some(value) => value.as_u64(),
        None => None,
    };
    let one = match version {
        Some(n) => n == 1,
        None => false,
    };
    let r = one && is_empty_list(field_of(fields, "workstreams")) && is_list_of_texts(
        field_of(fields, "manual_entry_ids"),
        ids,
    ) && is_empty_list(field_of(fields, "open_questions"));
    proof {
        lemma_content_keys();
        assert(number_view(1) == number_view(1u64 as nat));
        if r {
            assert forall|key: Seq<char>| #[trigger]
                shown.dom().contains(key) <==> wanted.dom().contains(key) by {
                lemma_fields_named(fields@, key);
            }
            assert(shown =~= wanted);
        } else if shown == wanted {
            assert(field_in(shown, "schema_version"@) == Some(number_view(1)));
            lemma_decimal_value(1);
            if version is Some {
                lemma_decimal_value(version->0 as nat);
            }
            assert(field_in(shown, "workstreams"@) == Some(JsonView::List(Seq::empty())));
            assert(field_in(shown, "open_questions"@) == Some(JsonView::List(Seq::empty())));
            assert(field_in(shown, "manual_entry_ids"@) == Some(
                JsonView::List(text_views(views(ids@))),
            ));
        }
    }
    r
}

/// The names of the fields differ.
proof fn lemma_content_keys()
    ensures
        "schema_version"@ != "workstreams"@,
        "schema_version"@ != "manual_entry_ids"@,
        "schema_version"@ != "open_questions"@,
        "workstreams"@ != "manual_entry_ids"@,
        "workstreams"@ != "open_questions"@,
        "manual_entry_ids"@ != "open_questions"@,
{
    reveal_strlit("schema_version");
    reveal_strlit("workstreams");
    reveal_strlit("manual_entry_ids");
    reveal_strlit("open_questions");
    assert("schema_version"@[0] == 's' && "open_questions"@[0] == 'o');
    assert("workstreams"@[0] == 'w' && "manual_entry_ids"@[0] == 'm');
}

/// A candidate of manual notes alone, as it is stored.
pub fn manual_only_content(manual_entry_ids: &Vec<String>) -> (r: Json)
    ensures
        r@ == JsonView::Record(manual_only_record(views(manual_entry_ids@))),
{
    let mut fields = empty_record();
    put(&mut fields, "schema_version", json_of_number(1));
    put(&mut fields, "workstreams", Json::List(empty_list()));
    put(&mut fields, "manual_entry_ids", json_of_texts(manual_entry_ids));
    put(&mut fields, "open_questions", Json::List(empty_list()));
    Json::Record(fields)
}

/// A candidate with expired source evidence is never replaced: whatever is
/// asked, it is kept, or only its notes change, or the request is refused.
pub proof fn law_expired_evidence_is_not_replaced(inputs: GenerationInputs)
    requires
        inputs.current is Some,
        inputs.current->0.snapshot is Found,
        !inputs.current->0.snapshot->all_available,
    ensures
        !(preparation(inputs) is Proceed),
        !(preparation(inputs) is SaveManualOnly),
{
}

/// Edits of the owner are not replaced unless the owner asks for it.
pub proof fn law_edits_are_kept(
    current: CurrentCandidate,
    frozen_snapshot_id: Seq<char>,
    current_context_digest: Option<Seq<char>>,
    context_digest: Seq<char>,
    manual_entry_ids: Seq<Seq<char>>,
)
    requires
        current.origin@ == "structured_edit"@,
    ensures
        !(candidate_decision(
            Some(current),
            frozen_snapshot_id,
            current_context_digest,
            context_digest,
            manual_entry_ids,
            false,
        ) is Generate),
{
}

} // verus!
