//! When a candidate is generated, kept, changed or refused.
use crate::apply_material::{has_new_evidence, without};
use crate::candidate::{
    CandidateView, CurrentCandidate, GenerationInputs, PreparationView, ResolvedReferences,
    SnapshotFacts, candidate_decision, considered_events, marked_payload, model_context,
    preparation, resolved_context,
};
use crate::digest::digest;
use crate::errors::ErrorView;
use crate::generation::ReferenceMode;
use crate::json::{JsonView, number_view, text_views};
use crate::ordered::lemma_push_contains;
use crate::text::{occurs, occurs_at, opt_text, views};
use vstd::prelude::*;
use vstd::string::*;

verus! {

/// Whether a candidate may be generated for a day at all: it is still the day of
/// the workspace that the attempt began in, it was not dismissed, all of its
/// evidence is at hand, an adjustment is for the candidate that is there, and an
/// activity record is replaced only if that was confirmed.
pub open spec fn may_generate(inputs: GenerationInputs) -> bool {
    &&& inputs.workspace_id@ == inputs.attempt_workspace_id@
    &&& opt_text(inputs.review_status) != Some("dismissed"@)
    &&& !inputs.evidence_truncated
    &&& inputs.adjusted_revision_id is Some ==> inputs.current is Some && inputs.current->0.id@
        == inputs.adjusted_revision_id->0@
    &&& inputs.current is Some && inputs.current->0.schema_version == Some(2u64)
        ==> inputs.replace_edited
}

/// Whether there is an event to consider: one that is logged and not put off.
pub open spec fn has_event(inputs: GenerationInputs) -> bool {
    exists|e: Seq<char>| #[trigger]
        views(inputs.event_ids@).contains(e) && !(inputs.current is Some && views(
            inputs.deferred_event_ids@,
        ).contains(e))
}

/// The events that a candidate is made of are those that are logged, without
/// those that were put off from a candidate that is there.
pub proof fn law_considered_events(inputs: GenerationInputs, e: Seq<char>)
    ensures
        considered_events(inputs).contains(e) <==> views(inputs.event_ids@).contains(e) && !(
        inputs.current is Some && views(inputs.deferred_event_ids@).contains(e)),
{
    lemma_left(views(inputs.event_ids@), views(inputs.deferred_event_ids@), e);
}

pub proof fn lemma_left(texts: Seq<Seq<char>>, taken: Seq<Seq<char>>, e: Seq<char>)
    ensures
        without(texts, taken).contains(e) <==> texts.contains(e) && !taken.contains(e),
    decreases texts.len(),
{
    if texts.len() > 0 {
        let init = texts.drop_last();
        lemma_left(init, taken, e);
        assert(texts =~= init.push(texts.last()));
        lemma_push_contains(init, texts.last(), e);
        lemma_push_contains(without(init, taken), texts.last(), e);
    }
}

proof fn lemma_has_event(inputs: GenerationInputs)
    ensures
        considered_events(inputs).len() > 0 <==> has_event(inputs),
{
    let events = considered_events(inputs);
    if events.len() > 0 {
        assert(events.contains(events[0]));
        law_considered_events(inputs, events[0]);
    }
    if has_event(inputs) {
        let e = choose|e: Seq<char>| #[trigger]
            views(inputs.event_ids@).contains(e) && !(inputs.current is Some && views(
                inputs.deferred_event_ids@,
            ).contains(e));
        law_considered_events(inputs, e);
    }
}

/// Whether the evidence of the current candidate is whole, or it has none.
pub open spec fn has_whole_evidence(inputs: GenerationInputs) -> bool {
    match inputs.current {
        Some(current) => match current.snapshot {
            SnapshotFacts::Absent => true,
            SnapshotFacts::Missing => false,
            SnapshotFacts::Found { all_available, .. } => all_available,
        },
        None => true,
    }
}

/// The model is asked just where a candidate may be generated, there is an event
/// to consider, and no evidence of the current candidate is gone.
pub proof fn law_generation_proceeds(inputs: GenerationInputs)
    ensures
        preparation(inputs) is Proceed <==> may_generate(inputs) && has_event(inputs)
            && has_whole_evidence(inputs),
{
    lemma_has_event(inputs);
}

/// A day that may not be generated is refused: with 422 where it holds too many
/// events, and else with 409.
pub proof fn law_forbidden_generation_is_refused(inputs: GenerationInputs)
    requires
        !may_generate(inputs),
    ensures
        preparation(inputs) is Refuse,
        preparation(inputs)->Refuse_0.status == 409 || (preparation(inputs)->Refuse_0.status == 422
            && inputs.evidence_truncated),
        inputs.workspace_id@ == inputs.attempt_workspace_id@ && opt_text(inputs.review_status)
            != Some("dismissed"@) && inputs.evidence_truncated ==> preparation(
            inputs,
        )->Refuse_0.status == 422,
{
}

/// Whether the current candidate is stored as the manual notes of the day alone,
/// in the reference mode that is asked for.
pub open spec fn holds_the_notes(inputs: GenerationInputs) -> bool {
    &&& inputs.current is Some
    &&& inputs.current->0.snapshot is Absent
    &&& inputs.current->0.stored@ == JsonView::Record(
        Map::empty().insert("schema_version"@, number_view(1)).insert(
            "workstreams"@,
            JsonView::List(Seq::empty()),
        ).insert(
            "manual_entry_ids"@,
            JsonView::List(
                Seq::new(
                    inputs.manual_entry_ids@.len(),
                    |i: int| JsonView::Text(inputs.manual_entry_ids@[i]@),
                ),
            ),
        ).insert("open_questions"@, JsonView::List(Seq::empty())),
    )
    &&& match (opt_text(inputs.current->0.reference_mode), inputs.reference_mode) {
        (None, ReferenceMode::Configured) => true,
        (None, ReferenceMode::Without) => false,
        (Some(mode), ReferenceMode::Configured) => mode == "configured"@,
        (Some(mode), ReferenceMode::Without) => mode == "none"@,
    }
}

/// A day without events is made of its manual notes: nothing is saved where the
/// candidate has them already, and a day without notes is refused.
pub proof fn law_day_without_events_is_made_of_its_notes(inputs: GenerationInputs)
    requires
        may_generate(inputs),
        !has_event(inputs),
        has_whole_evidence(inputs),
    ensures
        inputs.adjusted_revision_id is Some ==> preparation(inputs) is Refuse && preparation(
            inputs,
        )->Refuse_0.status == 400,
        inputs.adjusted_revision_id is None && inputs.manual_entry_ids@.len() == 0 ==> preparation(
            inputs,
        ) is Refuse && preparation(inputs)->Refuse_0.status == 409,
        inputs.adjusted_revision_id is None && inputs.manual_entry_ids@.len() > 0 ==> if holds_the_notes(
            inputs,
        ) {
            preparation(inputs) == PreparationView::KeepCurrent
        } else {
            preparation(inputs) == (PreparationView::SaveManualOnly {
                freeze_without_references: inputs.reference_mode == ReferenceMode::Without,
            })
        },
{
    lemma_has_event(inputs);
    reveal_strlit("configured");
    reveal_strlit("none");
    assert("configured"@.len() != "none"@.len());
    let ids = views(inputs.manual_entry_ids@);
    assert(text_views(ids) =~= Seq::new(
        inputs.manual_entry_ids@.len(),
        |i: int| JsonView::Text(inputs.manual_entry_ids@[i]@),
    ));
}

/// A candidate whose evidence is partly gone is kept where nothing is newer than
/// it; only its notes follow those of the day. Anything that would have to be made
/// from what is left is refused.
pub proof fn law_candidate_with_expired_evidence(inputs: GenerationInputs)
    requires
        may_generate(inputs),
        inputs.current is Some,
        inputs.current->0.snapshot is Found,
        !inputs.current->0.snapshot->all_available,
        inputs.current->0.content is Ok,
    ensures
        ({
            let known = views(inputs.current->0.snapshot->event_ids@);
            let late = exists|e: Seq<char>| #[trigger]
                views(inputs.event_ids@).contains(e) && !views(
                    inputs.deferred_event_ids@,
                ).contains(e) && !known.contains(e);
            let asked = inputs.adjusted_revision_id is Some || inputs.reference_mode
                == ReferenceMode::Without;
            let same = inputs.current->0.content->Ok_0@.manual_entry_ids == views(
                inputs.manual_entry_ids@,
            );
            &&& preparation(inputs) is Refuse <==> asked || late
            &&& preparation(inputs) == PreparationView::KeepCurrent <==> !asked && !late && same
            &&& preparation(inputs) == PreparationView::SaveManualNotes <==> !asked && !late && !same
            &&& preparation(inputs) is Refuse ==> preparation(inputs)->Refuse_0.status == 409
        }),
{
    let known = views(inputs.current->0.snapshot->event_ids@);
    let events = considered_events(inputs);
    if has_new_evidence(events, known) {
        let i = choose|i: int| 0 <= i < events.len() && !known.contains(#[trigger] events[i]);
        assert(events.contains(events[i]));
        law_considered_events(inputs, events[i]);
    }
    if exists|e: Seq<char>| #[trigger]
        views(inputs.event_ids@).contains(e) && !views(inputs.deferred_event_ids@).contains(e)
            && !known.contains(e) {
        let e = choose|e: Seq<char>| #[trigger]
            views(inputs.event_ids@).contains(e) && !views(inputs.deferred_event_ids@).contains(e)
                && !known.contains(e);
        law_considered_events(inputs, e);
        let i = choose|i: int| 0 <= i < events.len() && events[i] == e;
        assert(!known.contains(events[i]));
    }
}

/// Whether the current candidate was made from the same evidence and the same
/// context.
pub open spec fn was_made_from(
    current: CurrentCandidate,
    snapshot: Seq<char>,
    current_context_digest: Option<Seq<char>>,
    context_digest: Seq<char>,
) -> bool {
    &&& current.snapshot is Found
    &&& current.snapshot->Found_id@ == snapshot
    &&& current_context_digest == Some(context_digest)
}

/// The first candidate of a day is generated. One that was made from the same
/// evidence and context is kept, with its notes brought up to date. Any other is
/// generated anew, unless it has edits that the owner did not give up.
pub proof fn law_candidate_is_generated_when_something_changed(
    current: Option<CurrentCandidate>,
    snapshot: Seq<char>,
    current_context_digest: Option<Seq<char>>,
    context_digest: Seq<char>,
    manual_entry_ids: Seq<Seq<char>>,
    replace_edited: bool,
)
    ensures
        ({
            let decision = candidate_decision(
                current,
                snapshot,
                current_context_digest,
                context_digest,
                manual_entry_ids,
                replace_edited,
            );
            match current {
                None => decision == (CandidateView::Generate { origin: "generated"@ }),
                Some(current) => {
                    let same = was_made_from(
                        current,
                        snapshot,
                        current_context_digest,
                        context_digest,
                    );
                    let edited = current.origin@ == "structured_edit"@ && !replace_edited;
                    &&& decision == (CandidateView::Generate { origin: "regenerated"@ }) <==> !same
                        && !edited
                    &&& decision is Generate <==> !same && !edited
                    &&& !same && edited ==> decision is Refuse && decision->Refuse_0.status == 409
                        && occurs(decision->Refuse_0.message, "current candidate has edits"@)
                    &&& same && current.content is Err ==> decision is Refuse
                        && decision->Refuse_0.status == 500
                    &&& decision == CandidateView::KeepCurrent <==> same && current.content is Ok
                        && current.content->Ok_0@.manual_entry_ids == manual_entry_ids
                    &&& decision == CandidateView::SaveManualNotes <==> same && current.content is Ok
                        && current.content->Ok_0@.manual_entry_ids != manual_entry_ids
                },
            }
        }),
{
    reveal_strlit(
        "New evidence is available, but the current candidate has edits. Confirm replacement to regenerate.",
    );
    reveal_strlit("current candidate has edits");
    let all =
        "New evidence is available, but the current candidate has edits. Confirm replacement to regenerate."@;
    let part = "current candidate has edits"@;
    assert(all.subrange(35, 62) =~= part);
    assert(occurs_at(all, part, 35));
}

/// Without references no note reaches the model; with them it gets what was
/// resolved. References that could not be prepared, or that a request to adjust
/// them no longer finds, are refused.
pub proof fn law_references_of_a_candidate(
    mode: ReferenceMode,
    root_binding: Seq<char>,
    references: ResolvedReferences,
    adjusted: bool,
)
    ensures
        ({
            let found = resolved_context(mode, root_binding, references, adjusted);
            let bare = |r: Result<(Map<Seq<char>, JsonView>, JsonView), ErrorView>|
                {
                    &&& r is Ok
                    &&& (r->Ok_0).0.dom().contains("resolver_version"@)
                    &&& (r->Ok_0).0["resolver_version"@] == JsonView::Text("none"@)
                    &&& (r->Ok_0).0["root_binding"@] == JsonView::Text(root_binding)
                    &&& (r->Ok_0).0["workstream_links"@] == JsonView::Record(Map::empty())
                    &&& (r->Ok_0).1.field("candidate_notes"@) == Some(JsonView::List(Seq::empty()))
                    &&& (r->Ok_0).1.field("workstream_links"@) == Some(
                        JsonView::Record(Map::empty()),
                    )
                };
            &&& mode == ReferenceMode::Without ==> bare(found)
            &&& mode == ReferenceMode::Configured && references is Unconfigured && !adjusted
                ==> bare(found)
            &&& mode == ReferenceMode::Configured && references is Unconfigured && adjusted
                ==> found is Err && found->Err_0.status == 409
            &&& mode == ReferenceMode::Configured && references is Failed ==> found is Err
                && found->Err_0.status == 422
            &&& mode == ReferenceMode::Configured && references is Resolved
                && references->Resolved_0.snapshot_payload@ is Record ==> found is Ok && (
            found->Ok_0).1 == references->Resolved_0.vault_context@ && JsonView::Record(
                (found->Ok_0).0,
            ) == references->Resolved_0.snapshot_payload@
        }),
{
    reveal_strlit("schema_version");
    reveal_strlit("resolver_version");
    reveal_strlit("root_binding");
    reveal_strlit("workstream_links");
    reveal_strlit("workstream_evidence");
    reveal_strlit("diagnostics");
    reveal_strlit("candidate_notes");
    reveal_strlit("group_aliases");
    assert("schema_version"@.len() == 14);
    assert("resolver_version"@.len() == 16);
    assert("root_binding"@.len() == 12);
    assert("workstream_links"@.len() == 16);
    assert("workstream_evidence"@.len() == 19);
    assert("diagnostics"@.len() == 11);
    assert("candidate_notes"@.len() == 15);
    assert("group_aliases"@.len() == 13);
    assert("resolver_version"@[0] == 'r');
    assert("workstream_links"@[0] == 'w');
}

/// A frozen context tells under which contract and in which mode it was made, and
/// keeps all else.
pub proof fn law_context_is_marked(
    payload: Map<Seq<char>, JsonView>,
    contract: Seq<char>,
    mode: ReferenceMode,
    key: Seq<char>,
)
    ensures
        marked_payload(payload, contract, mode).field("generation_contract"@) == Some(
            JsonView::Text(contract),
        ),
        marked_payload(payload, contract, ReferenceMode::Configured).field("reference_mode"@)
            == Some(JsonView::Text("configured"@)),
        marked_payload(payload, contract, ReferenceMode::Without).field("reference_mode"@) == Some(
            JsonView::Text("none"@),
        ),
        key != "generation_contract"@ && key != "reference_mode"@ ==> marked_payload(
            payload,
            contract,
            mode,
        ).field(key) == JsonView::Record(payload).field(key),
{
    reveal_strlit("generation_contract");
    reveal_strlit("reference_mode");
    assert("generation_contract"@.len() == 19);
    assert("reference_mode"@.len() == 14);
}

/// The model is told which note it writes for, and the digest of its context; the
/// rest of the context reaches it as it is.
pub proof fn law_model_knows_its_note(
    context: JsonView,
    destination_path: Seq<char>,
    digest: Option<Seq<char>>,
    key: Seq<char>,
)
    requires
        context is Record,
    ensures
        ({
            let told = model_context(context, destination_path, digest);
            &&& told.field("daily_note"@) == Some(JsonView::Text(destination_path))
            &&& digest is Some ==> told.field("link_context_revision"@) == Some(
                JsonView::Text(digest->0),
            )
            &&& key != "daily_note"@ && key != "link_context_revision"@ ==> told.field(key)
                == context.field(key)
        }),
{
    reveal_strlit("daily_note");
    reveal_strlit("link_context_revision");
    assert("daily_note"@.len() == 10);
    assert("link_context_revision"@.len() == 21);
}

} // verus!
