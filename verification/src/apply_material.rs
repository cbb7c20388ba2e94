//! What an Apply would write, and why it may not.
use crate::apply::{DailyApplyMaterial, bytes_of, optional_is};
use crate::daily_writer::{PlanView, block_plan, plan_managed_block};
use crate::digest::{digest, sha256_hex};
use crate::errors::{ApiError, ErrorView, checks, conflict_of, internal_of, text2, unprocessable_of};
use crate::ordered::contains_text;
use crate::proposals::same_texts;
use crate::revisions::{
    DailyRevisionContent, ManualDailyEntry, SnapshotEvidence, preview,
    render_daily_revision_preview,
};
use crate::text::{lemma_take_step, lemma_views_push, opt_text, str_eq, views};
use vstd::prelude::*;
use vstd::string::*;
use vstd::utf8::*;

verus! {

pub open spec fn str_views(s: Seq<&str>) -> Seq<Seq<char>> {
    s.map_values(|t: &str| t@)
}

/// Whether some live event is not in the snapshot.
pub open spec fn has_new_evidence(live: Seq<Seq<char>>, snapshot: Seq<Seq<char>>) -> bool {
    exists|i: int| 0 <= i < live.len() && !snapshot.contains(#[trigger] live[i])
}

fn slice_contains(texts: &[String], x: &str) -> (r: bool)
    ensures
        r == views(texts@).contains(x@),
{
    let mut i: usize = 0;
    while i < texts.len()
        invariant
            i <= texts@.len(),
            forall|k: int| 0 <= k < i ==> #[trigger] views(texts@)[k] != x@,
        decreases texts@.len() - i,
    {
        if str_eq(texts[i].as_str(), x) {
            assert(views(texts@)[i as int] == x@);
            return true;
        }
        i += 1;
    }
    false
}

pub fn has_new_automated_evidence(live_event_ids: &[&str], snapshot_event_ids: &[String]) -> (r: bool)
    ensures
        r == has_new_evidence(str_views(live_event_ids@), views(snapshot_event_ids@)),
{
    let ghost live = str_views(live_event_ids@);
    let mut i: usize = 0;
    while i < live_event_ids.len()
        invariant
            i <= live_event_ids@.len(),
            live == str_views(live_event_ids@),
            forall|k: int| 0 <= k < i ==> views(snapshot_event_ids@).contains(#[trigger] live[k]),
        decreases live_event_ids@.len() - i,
    {
        if !slice_contains(snapshot_event_ids, live_event_ids[i]) {
            assert(!views(snapshot_event_ids@).contains(live[i as int]));
            return true;
        }
        i += 1;
    }
    false
}

/// The texts of a list that another list lacks, in order.
pub open spec fn without(texts: Seq<Seq<char>>, taken: Seq<Seq<char>>) -> Seq<Seq<char>>
    decreases texts.len(),
{
    if texts.len() == 0 {
        Seq::empty()
    } else if taken.contains(texts.last()) {
        without(texts.drop_last(), taken)
    } else {
        without(texts.drop_last(), taken).push(texts.last())
    }
}

/// The live events that the owner did not defer.
pub fn undeferred<'a>(live: &'a Vec<String>, deferred: &Vec<String>) -> (r: Vec<&'a str>)
    ensures
        str_views(r@) == without(views(live@), views(deferred@)),
{
    let ghost all = views(live@);
    let mut r: Vec<&'a str> = Vec::new();
    let mut i: usize = 0;
    assert(all.take(0) =~= Seq::<Seq<char>>::empty());
    assert(str_views(r@) =~= Seq::<Seq<char>>::empty());
    while i < live.len()
        invariant
            i <= live@.len(),
            all == views(live@),
            str_views(r@) == without(all.take(i as int), views(deferred@)),
        decreases live@.len() - i,
    {
        proof {
            lemma_take_step(all, i as int);
        }
        if !contains_text(deferred, live[i].as_str()) {
            let ghost before = r@;
            r.push(live[i].as_str());
            assert(str_views(r@) =~= str_views(before).push(all[i as int]));
        }
        i += 1;
    }
    assert(all.take(i as int) =~= all);
    r
}

/// The day of a Daily as it was frozen.
#[derive(Debug, Clone, PartialEq, Eq)]
pub struct DayRecord {
    pub current_revision_id: Option<String>,
    pub destination_path: String,
    pub template_revision: Option<String>,
    pub block_id: String,
}

/// The current revision of a Daily. Its content could be read, or why not.
#[derive(Debug, PartialEq, Eq)]
pub struct RevisionRecord {
    pub id: String,
    pub content_hash: String,
    pub content: Result<DailyRevisionContent, String>,
}

/// A template as it was when the day was frozen.
#[derive(Debug, Clone, PartialEq, Eq)]
pub struct TemplateSnapshot {
    pub template_path: String,
    pub content_hash: String,
    pub content: Vec<u8>,
}

/// What is there when an Apply is prepared.
pub struct ApplyInputs {
    pub local_date: String,
    pub day: Option<DayRecord>,
    pub revision: Option<RevisionRecord>,
    pub manual_entries: Vec<ManualDailyEntry>,
    pub snapshot_event_ids: Vec<String>,
    pub snapshot_evidence: Vec<SnapshotEvidence>,
    pub live_truncated: bool,
    pub live_event_ids: Vec<String>,
    pub deferred_event_ids: Vec<String>,
    pub target: Option<Vec<u8>>,
    pub template: Option<TemplateSnapshot>,
}

pub open spec fn entry_ids(entries: Seq<ManualDailyEntry>) -> Seq<Seq<char>> {
    entries.map_values(|e: ManualDailyEntry| e.id@)
}

pub fn ids_of_entries(entries: &Vec<ManualDailyEntry>) -> (r: Vec<String>)
    ensures
        views(r@) == entry_ids(entries@),
{
    broadcast use lemma_views_push;
    let ghost all = entry_ids(entries@);
    let mut r: Vec<String> = Vec::new();
    let mut i: usize = 0;
    assert(views(r@) =~= all.take(0));
    while i < entries.len()
        invariant
            i <= entries@.len(),
            all == entry_ids(entries@),
            views(r@) == all.take(i as int),
        decreases entries@.len() - i,
    {
        proof {
            lemma_take_step(all, i as int);
        }
        r.push(entries[i].id.as_str().to_owned());
        i += 1;
    }
    assert(all.take(i as int) =~= all);
    r
}

/// Why there is no candidate to apply.
pub open spec fn candidate_error(day: Option<DayRecord>, revision: Option<RevisionRecord>) -> Option<
    ErrorView,
> {
    match (day, revision) {
        (Some(day), Some(revision)) => if opt_text(day.current_revision_id) != Some(revision.id@) {
            Some(conflict_of("the Daily candidate changed; reload before previewing Apply"@))
        } else {
            match revision.content {
                Ok(_) => None,
                Err(error) => Some(internal_of("invalid stored Daily candidate: "@ + error@)),
            }
        },
        _ => Some(conflict_of("generate a Daily candidate before previewing Apply"@)),
    }
}

/// Why a candidate is out of date.
pub open spec fn stale_error(
    truncated: bool,
    live: Seq<Seq<char>>,
    snapshot: Seq<Seq<char>>,
    stored_manual: Seq<Seq<char>>,
    live_manual: Seq<Seq<char>>,
) -> Option<ErrorView> {
    if truncated {
        Some(unprocessable_of("Daily evidence exceeds the supported 500-event Apply limit."@))
    } else if has_new_evidence(live, snapshot) || stored_manual != live_manual {
        Some(
            conflict_of(
                "new Daily evidence or manual notes are available; regenerate before Apply"@,
            ),
        )
    } else {
        None
    }
}

/// The content that a block is put into: the target as it is; for a new note,
/// nothing or the frozen template.
pub open spec fn initial_content(
    target: Option<Seq<u8>>,
    template_revision: Option<Seq<char>>,
    template: Option<TemplateSnapshot>,
) -> Result<(Seq<u8>, Option<Seq<char>>), ErrorView> {
    match (target, template_revision) {
        (Some(bytes), _) => Ok((bytes, None)),
        (None, None) => Err(
            conflict_of(
                "this legacy Daily record has no frozen template choice; regenerate it before Apply"@,
            ),
        ),
        (None, Some(revision)) => if revision == "none"@ {
            Ok((Seq::empty(), None))
        } else {
            match template {
                None => Err(conflict_of("the frozen Daily template snapshot is missing"@)),
                Some(template) => if template.content_hash@ == revision && sha256_hex(
                    template.content@,
                ) == revision {
                    Ok((template.content@, Some(template.template_path@)))
                } else {
                    Err(
                        conflict_of(
                            "the frozen Daily template snapshot failed integrity verification"@,
                        ),
                    )
                },
            }
        },
    }
}

/// What an Apply would write, in terms of texts and bytes.
pub struct MaterialView {
    pub revision_id: Seq<char>,
    pub revision_content_hash: Seq<char>,
    pub destination_path: Seq<char>,
    pub target_exists: bool,
    pub template_used: Option<Seq<char>>,
    pub original_content: Seq<u8>,
    pub plan: PlanView,
}

impl DailyApplyMaterial {
    pub open spec fn says(self, view: MaterialView) -> bool {
        &&& self.revision_id@ == view.revision_id
        &&& self.revision_content_hash@ == view.revision_content_hash
        &&& self.destination_path@ == view.destination_path
        &&& self.target_exists == view.target_exists
        &&& opt_text(self.template_used) == view.template_used
        &&& self.original_content@ == view.original_content
        &&& self.plan.says(view.plan)
    }
}

pub open spec fn target_view(target: Option<Vec<u8>>) -> Option<Seq<u8>> {
    match target {
        Some(bytes) => Some(bytes@),
        None => None,
    }
}

/// What an Apply would write, or why it may not.
pub open spec fn apply_material(inputs: ApplyInputs) -> Result<MaterialView, ErrorView> {
    match candidate_error(inputs.day, inputs.revision) {
        Some(error) => Err(error),
        None => {
            let day = inputs.day->0;
            let revision = inputs.revision->0;
            let content = revision.content->Ok_0;
            let target = target_view(inputs.target);
            match stale_error(
                inputs.live_truncated,
                without(views(inputs.live_event_ids@), views(inputs.deferred_event_ids@)),
                views(inputs.snapshot_event_ids@),
                content@.manual_entry_ids,
                entry_ids(inputs.manual_entries@),
            ) {
                Some(error) => Err(error),
                None => match initial_content(
                    target,
                    opt_text(day.template_revision),
                    inputs.template,
                ) {
                    Err(error) => Err(error),
                    Ok((initial, template_used)) => match block_plan(
                        initial,
                        day.block_id@,
                        preview(content@, inputs.manual_entries@, inputs.snapshot_evidence@),
                        "Daily log "@ + inputs.local_date@,
                    ) {
                        Err(error) => Err(conflict_of(error)),
                        Ok(plan) => Ok(
                            MaterialView {
                                revision_id: revision.id@,
                                revision_content_hash: revision.content_hash@,
                                destination_path: day.destination_path@,
                                target_exists: target is Some,
                                template_used,
                                original_content: bytes_of(target),
                                plan,
                            },
                        ),
                    },
                },
            }
        },
    }
}

/// Whether there is a candidate to apply.
pub fn check_apply_candidate(day: &Option<DayRecord>, revision: &Option<RevisionRecord>) -> (r: Result<
    (),
    ApiError,
>)
    ensures
        checks(r, candidate_error(*day, *revision)),
{
    match (day, revision) {
        (Some(day), Some(revision)) => {
            if !optional_is(&day.current_revision_id, revision.id.as_str()) {
                return Err(
                    ApiError::conflict(
                        "the Daily candidate changed; reload before previewing Apply",
                    ),
                );
            }
            match &revision.content {
                Ok(_) => Ok(()),
                Err(error) => Err(
                    ApiError::internal(
                        text2("invalid stored Daily candidate: ", error.as_str()).as_str(),
                    ),
                ),
            }
        },
        _ => Err(ApiError::conflict("generate a Daily candidate before previewing Apply")),
    }
}

fn check_not_stale(
    truncated: bool,
    live: &Vec<&str>,
    snapshot: &Vec<String>,
    stored_manual: &Vec<String>,
    live_manual: &Vec<String>,
) -> (r: Result<(), ApiError>)
    ensures
        checks(
            r,
            stale_error(
                truncated,
                str_views(live@),
                views(snapshot@),
                views(stored_manual@),
                views(live_manual@),
            ),
        ),
{
    if truncated {
        return Err(
            ApiError::unprocessable("Daily evidence exceeds the supported 500-event Apply limit."),
        );
    }
    if has_new_automated_evidence(live.as_slice(), snapshot.as_slice()) || !same_texts(
        stored_manual,
        live_manual,
    ) {
        return Err(
            ApiError::conflict(
                "new Daily evidence or manual notes are available; regenerate before Apply",
            ),
        );
    }
    Ok(())
}

fn copy_bytes(bytes: &Vec<u8>) -> (r: Vec<u8>)
    ensures
        r@ == bytes@,
{
    let mut r: Vec<u8> = Vec::new();
    r.extend_from_slice(bytes.as_slice());
    assert(r@ =~= bytes@);
    r
}

fn choose_initial(
    target: &Option<Vec<u8>>,
    template_revision: &Option<String>,
    template: &Option<TemplateSnapshot>,
) -> (r: Result<(Vec<u8>, Option<String>), ApiError>)
    ensures
        match initial_content(target_view(*target), opt_text(*template_revision), *template) {
            Ok((bytes, used)) => r is Ok && (r->Ok_0).0@ == bytes && opt_text((r->Ok_0).1) == used,
            Err(error) => r is Err && r->Err_0@ == error,
        },
{
    if let Some(bytes) = target {
        return Ok((copy_bytes(bytes), None));
    }
    let revision: &String = match template_revision {
        Some(revision) => revision,
        None => {
            return Err(
                ApiError::conflict(
                    "this legacy Daily record has no frozen template choice; regenerate it before Apply",
                ),
            );
        },
    };
    if str_eq(revision.as_str(), "none") {
        let empty: Vec<u8> = Vec::new();
        assert(empty@ =~= Seq::<u8>::empty());
        return Ok((empty, None));
    }
    match template {
        None => Err(ApiError::conflict("the frozen Daily template snapshot is missing")),
        Some(template) => {
            let hash = digest(template.content.as_slice());
            if str_eq(template.content_hash.as_str(), revision.as_str()) && str_eq(
                hash.as_str(),
                revision.as_str(),
            ) {
                Ok(
                    (
                        copy_bytes(&template.content),
                        Some(template.template_path.as_str().to_owned()),
                    ),
                )
            } else {
                Err(
                    ApiError::conflict(
                        "the frozen Daily template snapshot failed integrity verification",
                    ),
                )
            }
        },
    }
}

/// Whether a candidate still holds all the evidence and notes of its day.
pub fn check_apply_evidence(
    content: &DailyRevisionContent,
    live_truncated: bool,
    live_event_ids: &Vec<String>,
    deferred_event_ids: &Vec<String>,
    snapshot_event_ids: &Vec<String>,
    manual_entries: &Vec<ManualDailyEntry>,
) -> (r: Result<(), ApiError>)
    ensures
        checks(
            r,
            stale_error(
                live_truncated,
                without(views(live_event_ids@), views(deferred_event_ids@)),
                views(snapshot_event_ids@),
                content@.manual_entry_ids,
                entry_ids(manual_entries@),
            ),
        ),
{
    let live = undeferred(live_event_ids, deferred_event_ids);
    let live_manual = ids_of_entries(manual_entries);
    check_not_stale(
        live_truncated,
        &live,
        snapshot_event_ids,
        &content.manual_entry_ids,
        &live_manual,
    )
}

/// What an Apply would write: the current candidate, if it is up to date, in
/// the managed block of its note.
pub fn daily_apply_material(inputs: &ApplyInputs) -> (r: Result<DailyApplyMaterial, ApiError>)
    ensures
        match apply_material(*inputs) {
            Ok(view) => r is Ok && r->Ok_0.says(view),
            Err(error) => r is Err && r->Err_0@ == error,
        },
{
    if let Err(error) = check_apply_candidate(&inputs.day, &inputs.revision) {
        return Err(error);
    }
    if let (Some(day), Some(revision)) = (&inputs.day, &inputs.revision) {
        if let Ok(content) = &revision.content {
            if let Err(error) = check_apply_evidence(
                content,
                inputs.live_truncated,
                &inputs.live_event_ids,
                &inputs.deferred_event_ids,
                &inputs.snapshot_event_ids,
                &inputs.manual_entries,
            ) {
                return Err(error);
            }
            let (initial, template_used) = match choose_initial(
                &inputs.target,
                &day.template_revision,
                &inputs.template,
            ) {
                Ok(initial) => initial,
                Err(error) => {
                    return Err(error);
                },
            };
            let markdown = render_daily_revision_preview(
                content,
                &inputs.manual_entries,
                &inputs.snapshot_evidence,
            );
            let title = text2("Daily log ", inputs.local_date.as_str());
            let plan = match plan_managed_block(
                Some(initial.as_slice()),
                day.block_id.as_str(),
                markdown.as_str(),
                title.as_str(),
            ) {
                Ok(plan) => plan,
                Err(error) => {
                    return Err(ApiError::conflict(error.as_str()));
                },
            };
            let original_content: Vec<u8> = match &inputs.target {
                Some(bytes) => copy_bytes(bytes),
                None => {
                    let empty: Vec<u8> = Vec::new();
                    assert(empty@ =~= Seq::<u8>::empty());
                    empty
                },
            };
            return Ok(
                DailyApplyMaterial {
                    revision_id: revision.id.as_str().to_owned(),
                    revision_content_hash: revision.content_hash.as_str().to_owned(),
                    destination_path: day.destination_path.as_str().to_owned(),
                    target_exists: inputs.target.is_some(),
                    template_used,
                    original_content,
                    plan,
                },
            );
        }
    }
    Err(ApiError::conflict("generate a Daily candidate before previewing Apply"))
}

} // verus!
