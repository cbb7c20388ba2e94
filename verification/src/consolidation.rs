//! Consolidating the events of a day into one proposal.
use crate::json::{Json, JsonView, json_of_text, put};
use crate::knowledge::event_ids;
use crate::ordered::contains_text;
use crate::prompt::SuggestMarkdownSummaryArgs;
use crate::proposal_inbox::PendingProposal;
use crate::proposals::{ProposalView, SummaryProposal};
use crate::requests::str_view;
use crate::text::{
    decimal, decimal_text, lemma_take_step, lemma_trimmed_same, lemma_views_push, opt_text,
    str_eq, trim, trim_end, trim_start, trimmed, views, white_space,
};
use vstd::prelude::*;
use vstd::string::*;

verus! {

/// What a model is asked for a day, where the owner has not said otherwise.
pub const DEFAULT_DAILY_CONSOLIDATION_PROMPT: &'static str =
    "Create a concise daily engineering report from the complete selected day.\n\nFor each distinct workstream:\n- Use a concise level-three Markdown heading. Include the most specific allowed canonical link when one clearly applies.\n- Merge events sharing a task_id or session_id into one story. Treat the latest terminal event as authoritative over earlier start or progress events.\n- Write 1-3 factual bullets covering the final outcome, important decision or diagnosis, validation, and any blocker or follow-up.\n\nKeep unrelated repositories or tasks separate. Prefer outcomes over chronology. Omit duplicate lifecycle updates, superseded claims, transport details, and empty start messages. Do not invent conclusions that are absent from the evidence.";

/// A preference by its key.
pub open spec fn preference_of(preferences: Seq<(String, String)>, key: Seq<char>) -> Option<
    Seq<char>,
>
    decreases preferences.len(),
{
    if preferences.len() == 0 {
        None
    } else if preferences.last().0@ == key {
        Some(preferences.last().1@)
    } else {
        preference_of(preferences.drop_last(), key)
    }
}

pub fn get_preference<'a>(preferences: &'a Vec<(String, String)>, key: &str) -> (r: Option<&'a str>)
    ensures
        str_view(r) == preference_of(preferences@, key@),
{
    let mut i: usize = preferences.len();
    assert(preferences@.take(i as int) =~= preferences@);
    while i > 0
        invariant
            i <= preferences@.len(),
            preference_of(preferences@, key@) == preference_of(preferences@.take(i as int), key@),
        decreases i,
    {
        assert(preferences@.take(i as int).drop_last() =~= preferences@.take(i - 1));
        assert(preferences@.take(i as int).last() == preferences@[i - 1]);
        if str_eq(preferences[i - 1].0.as_str(), key) {
            return Some(preferences[i - 1].1.as_str());
        }
        i -= 1;
    }
    None
}

/// A preference that is not blank, without blanks around it.
pub open spec fn said(value: Option<Seq<char>>) -> Option<Seq<char>> {
    match value {
        Some(text) => if trimmed(text).len() == 0 {
            None
        } else {
            Some(trimmed(text))
        },
        None => None,
    }
}

/// What a model is asked for a day: the saved prompt, or the default one with
/// the instructions of before.
pub open spec fn daily_prompt(preferences: Seq<(String, String)>) -> Seq<char> {
    match said(preference_of(preferences, "daily_consolidation_prompt"@)) {
        Some(prompt) => prompt,
        None => match said(preference_of(preferences, "consolidation_instructions"@)) {
            Some(legacy) => DEFAULT_DAILY_CONSOLIDATION_PROMPT@
                + "\n\nAdditional preferences:\n"@ + legacy,
            None => DEFAULT_DAILY_CONSOLIDATION_PROMPT@,
        },
    }
}

pub fn configured_daily_prompt(preferences: &Vec<(String, String)>) -> (r: String)
    ensures
        r@ == daily_prompt(preferences@),
{
    if let Some(value) = get_preference(preferences, "daily_consolidation_prompt") {
        let prompt = trim(value);
        if !prompt.as_str().is_empty() {
            return prompt;
        }
    }
    let mut prompt = DEFAULT_DAILY_CONSOLIDATION_PROMPT.to_owned();
    if let Some(value) = get_preference(preferences, "consolidation_instructions") {
        let legacy = trim(value);
        if !legacy.as_str().is_empty() {
            prompt.push_str("\n\nAdditional preferences:\n");
            prompt.push_str(legacy.as_str());
        }
    }
    prompt
}

/// The prompt to be saved when preferences hold none yet.
pub fn migrate_prompt_preference(preferences: &Vec<(String, String)>) -> (r: Option<String>)
    ensures
        opt_text(r) == match preference_of(preferences@, "daily_consolidation_prompt"@) {
            Some(_) => None,
            None => Some(daily_prompt(preferences@)),
        },
{
    match get_preference(preferences, "daily_consolidation_prompt") {
        Some(_) => None,
        None => Some(configured_daily_prompt(preferences)),
    }
}

proof fn lemma_trim_end_last(s: Seq<char>)
    ensures
        trim_end(s).len() > 0 ==> !white_space(trim_end(s).last()),
        trim_end(s).len() <= s.len(),
        trim_end(s) == s.take(trim_end(s).len() as int),
    decreases s.len(),
{
    if s.len() > 0 && white_space(s.last()) {
        lemma_trim_end_last(s.drop_last());
        let n = trim_end(s).len() as int;
        assert(s.drop_last().take(n) =~= s.take(n));
    } else {
        assert(s.take(s.len() as int) =~= s);
    }
}

proof fn lemma_trim_start_first(s: Seq<char>)
    ensures
        trim_start(s).len() > 0 ==> !white_space(trim_start(s)[0]),
    decreases s.len(),
{
    if s.len() > 0 && white_space(s[0]) {
        lemma_trim_start_first(s.drop_first());
    }
}

/// A text without white space at its ends, which is not empty.
pub open spec fn is_tight(s: Seq<char>) -> bool {
    s.len() > 0 && !white_space(s[0]) && !white_space(s.last())
}

proof fn lemma_trimmed_tight(s: Seq<char>)
    requires
        trimmed(s).len() > 0,
    ensures
        is_tight(trimmed(s)),
{
    lemma_trim_start_first(s);
    lemma_trim_end_last(trim_start(s));
}

proof fn lemma_prompt_tight(preferences: Seq<(String, String)>)
    ensures
        is_tight(daily_prompt(preferences)),
{
    reveal_strlit(
        "Create a concise daily engineering report from the complete selected day.\n\nFor each distinct workstream:\n- Use a concise level-three Markdown heading. Include the most specific allowed canonical link when one clearly applies.\n- Merge events sharing a task_id or session_id into one story. Treat the latest terminal event as authoritative over earlier start or progress events.\n- Write 1-3 factual bullets covering the final outcome, important decision or diagnosis, validation, and any blocker or follow-up.\n\nKeep unrelated repositories or tasks separate. Prefer outcomes over chronology. Omit duplicate lifecycle updates, superseded claims, transport details, and empty start messages. Do not invent conclusions that are absent from the evidence.",
    );
    let d = DEFAULT_DAILY_CONSOLIDATION_PROMPT@;
    assert(is_tight(d));
    let prompt = preference_of(preferences, "daily_consolidation_prompt"@);
    let legacy = preference_of(preferences, "consolidation_instructions"@);
    if said(prompt) is Some {
        lemma_trimmed_tight(prompt->0);
    } else if said(legacy) is Some {
        lemma_trimmed_tight(legacy->0);
        let all = d + "\n\nAdditional preferences:\n"@ + trimmed(legacy->0);
        assert(all[0] == d[0]);
        assert(all.last() == trimmed(legacy->0).last());
    }
}

/// Saving the prompt that is in use does not change it.
pub proof fn law_saved_prompt_is_kept(preferences: Seq<(String, String)>, saved: (String, String))
    requires
        saved.0@ == "daily_consolidation_prompt"@,
        saved.1@ == daily_prompt(preferences),
    ensures
        daily_prompt(preferences.push(saved)) == daily_prompt(preferences),
{
    assert(preferences.push(saved).last() == saved);
    lemma_prompt_tight(preferences);
    lemma_trimmed_same(saved.1@);
}

/// A day to be consolidated.
#[derive(Debug, Clone, PartialEq, Eq)]
pub struct DailyConsolidationJob {
    pub id: String,
    pub target_note: String,
    pub event_count: usize,
}

/// The proposal that a job has made already.
pub open spec fn proposal_of_job(proposals: Seq<PendingProposal>, job: Seq<char>) -> Option<
    Seq<char>,
>
    decreases proposals.len(),
{
    if proposals.len() == 0 {
        None
    } else {
        match proposal_of_job(proposals.drop_last(), job) {
            Some(id) => Some(id),
            None => if opt_text(proposals.last().consolidation_job_id) == Some(job) {
                Some(proposals.last().proposal_id@)
            } else {
                None
            },
        }
    }
}

fn made_by(proposal: &PendingProposal, job_id: &str) -> (r: bool)
    ensures
        r == (opt_text(proposal.consolidation_job_id) == Some(job_id@)),
{
    match &proposal.consolidation_job_id {
        Some(id) => str_eq(id.as_str(), job_id),
        None => false,
    }
}

pub fn existing_proposal(proposals: &Vec<PendingProposal>, job: &DailyConsolidationJob) -> (r:
    Option<String>)
    ensures
        opt_text(r) == proposal_of_job(proposals@, job.id@),
{
    let mut r: Option<String> = None;
    let mut i: usize = 0;
    assert(proposals@.take(0) =~= Seq::<PendingProposal>::empty());
    while i < proposals.len()
        invariant
            i <= proposals@.len(),
            opt_text(r) == proposal_of_job(proposals@.take(i as int), job.id@),
        decreases proposals@.len() - i,
    {
        proof {
            lemma_take_step(proposals@, i as int);
        }
        if r.is_none() && made_by(&proposals[i], job.id.as_str()) {
            r = Some(proposals[i].proposal_id.as_str().to_owned());
        }
        i += 1;
    }
    assert(proposals@.take(i as int) =~= proposals@);
    r
}

/// Whether a proposal is superseded by a job: it is for the same note, another
/// job made it, and all its evidence is among that of the job.
pub open spec fn is_superseded(
    proposal: PendingProposal,
    job: DailyConsolidationJob,
    event_ids: Seq<Seq<char>>,
) -> bool {
    &&& proposal.target_note@ == job.target_note@
    &&& opt_text(proposal.consolidation_job_id) != Some(job.id@)
    &&& proposal.evidence_event_ids@.len() > 0
    &&& forall|i: int|
        0 <= i < proposal.evidence_event_ids@.len() ==> event_ids.contains(
            (#[trigger] proposal.evidence_event_ids@[i])@,
        )
}

pub open spec fn superseded_ids(
    proposals: Seq<PendingProposal>,
    job: DailyConsolidationJob,
    event_ids: Seq<Seq<char>>,
) -> Seq<Seq<char>>
    decreases proposals.len(),
{
    if proposals.len() == 0 {
        Seq::empty()
    } else {
        let before = superseded_ids(proposals.drop_last(), job, event_ids);
        if is_superseded(proposals.last(), job, event_ids) {
            before.push(proposals.last().proposal_id@)
        } else {
            before
        }
    }
}

fn evidence_within(ids: &Vec<String>, event_ids: &Vec<String>) -> (r: bool)
    ensures
        r == forall|i: int|
            0 <= i < ids@.len() ==> views(event_ids@).contains((#[trigger] ids@[i])@),
{
    let mut i: usize = 0;
    while i < ids.len()
        invariant
            i <= ids@.len(),
            forall|k: int| 0 <= k < i ==> views(event_ids@).contains((#[trigger] ids@[k])@),
        decreases ids@.len() - i,
    {
        if !contains_text(event_ids, ids[i].as_str()) {
            assert(!views(event_ids@).contains(ids@[i as int]@));
            return false;
        }
        i += 1;
    }
    true
}

/// The proposals that the one of a job takes the place of.
pub fn superseded_proposals(
    proposals: &Vec<PendingProposal>,
    job: &DailyConsolidationJob,
    event_ids: &Vec<String>,
) -> (r: Vec<String>)
    ensures
        views(r@) == superseded_ids(proposals@, *job, views(event_ids@)),
{
    broadcast use lemma_views_push;
    let mut r: Vec<String> = Vec::new();
    let mut i: usize = 0;
    assert(proposals@.take(0) =~= Seq::<PendingProposal>::empty());
    assert(views(r@) =~= Seq::<Seq<char>>::empty());
    while i < proposals.len()
        invariant
            i <= proposals@.len(),
            views(r@) == superseded_ids(proposals@.take(i as int), *job, views(event_ids@)),
        decreases proposals@.len() - i,
    {
        proof {
            lemma_take_step(proposals@, i as int);
        }
        let p = &proposals[i];
        if str_eq(p.target_note.as_str(), job.target_note.as_str()) && !made_by(
            p,
            job.id.as_str(),
        ) && p.evidence_event_ids.len() > 0 && evidence_within(&p.evidence_event_ids, event_ids) {
            r.push(p.proposal_id.as_str().to_owned());
        }
        i += 1;
    }
    assert(proposals@.take(i as int) =~= proposals@);
    r
}

/// Whether the events of a job are all there.
pub fn check_snapshot(job: &DailyConsolidationJob, loaded: usize) -> (r: Result<(), String>)
    ensures
        r is Ok == (loaded == job.event_count),
        r is Err ==> r->Err_0@ == "consolidation snapshot expected "@ + decimal(
            job.event_count as nat,
        ) + " events but loaded "@ + decimal(loaded as nat),
{
    if loaded == job.event_count {
        return Ok(());
    }
    let mut message = "consolidation snapshot expected ".to_owned();
    message.push_str(decimal_text(job.event_count as u64).as_str());
    message.push_str(" events but loaded ");
    message.push_str(decimal_text(loaded as u64).as_str());
    Err(message)
}

/// What a model is asked for a job: the vault context with the note of the job,
/// and the prompt in use.
pub fn consolidation_arguments(
    context: Json,
    job: &DailyConsolidationJob,
    preferences: &Vec<(String, String)>,
) -> (r: Result<SuggestMarkdownSummaryArgs, String>)
    ensures
        match context@ {
            JsonView::Record(fields) => {
                &&& r is Ok
                &&& r->Ok_0.vault_context@ == JsonView::Record(
                    fields.insert("daily_note"@, JsonView::Text(job.target_note@)),
                )
                &&& r->Ok_0.mode@ == "daily-consolidation"@
                &&& opt_text(r->Ok_0.task) == Some(daily_prompt(preferences@))
            },
            _ => r is Err && r->Err_0@ == "vault context must be a JSON object"@,
        },
{
    match context {
        Json::Record(mut fields) => {
            put(&mut fields, "daily_note", json_of_text(job.target_note.as_str()));
            Ok(
                SuggestMarkdownSummaryArgs {
                    vault_context: Json::Record(fields),
                    mode: "daily-consolidation".to_owned(),
                    task: Some(configured_daily_prompt(preferences)),
                },
            )
        },
        _ => Err("vault context must be a JSON object".to_owned()),
    }
}

/// The proposal of a job, with what it supersedes.
pub fn proposal_for_job(
    proposal: SummaryProposal,
    job: &DailyConsolidationJob,
    superseded: Vec<String>,
) -> (r: SummaryProposal)
    ensures
        r@ == (ProposalView {
            supersedes_proposal_ids: views(superseded@),
            consolidation_job_id: Some(job.id@),
            ..proposal@
        }),
{
    let mut r = proposal;
    r.supersedes_proposal_ids = superseded;
    r.consolidation_job_id = Some(job.id.as_str().to_owned());
    r
}

/// What happened while a job was run. `canceled` says whether the owner has
/// asked to cancel it.
#[derive(Debug, Clone, PartialEq, Eq)]
pub enum JobEvent {
    /// The model was waited for.
    Waited { canceled: bool },
    /// The model has answered.
    Summarized { canceled: bool },
    /// The proposal was written to the inbox.
    Staged { proposal_id: String, canceled: bool },
    /// The events were marked as staged.
    Marked { proposal_id: String },
    /// The events could not be marked as staged.
    MarkFailed { proposal_id: String, error: String },
    /// The job failed.
    Failed { error: String, canceled: bool },
}

/// What is to be done next. A proposal to be discarded is removed from the inbox
/// first.
#[derive(Debug, Clone, PartialEq, Eq)]
pub enum JobAction {
    Wait,
    Stage,
    Mark { proposal_id: String },
    Fail { error: String, discard: String },
    Finish {
        status: String,
        proposal_id: Option<String>,
        error: Option<String>,
        discard: Option<String>,
    },
}

/// Whether an action ends the job with that outcome.
pub open spec fn finishes(
    action: JobAction,
    status: Seq<char>,
    proposal_id: Option<Seq<char>>,
    error: Option<Seq<char>>,
    discard: Option<Seq<char>>,
) -> bool {
    match action {
        JobAction::Finish { status: s, proposal_id: p, error: e, discard: d } => s@ == status
            && opt_text(p) == proposal_id && opt_text(e) == error && opt_text(d) == discard,
        _ => false,
    }
}

/// Whether an action is the next one.
pub open spec fn is_next_action(event: JobEvent, action: JobAction) -> bool {
    match event {
        JobEvent::Waited { canceled } => if canceled {
            finishes(action, "cancelled"@, None, None, None)
        } else {
            action is Wait
        },
        JobEvent::Summarized { canceled } => if canceled {
            finishes(action, "cancelled"@, None, None, None)
        } else {
            action is Stage
        },
        JobEvent::Staged { proposal_id, canceled } => if canceled {
            finishes(action, "cancelled"@, None, None, Some(proposal_id@))
        } else {
            match action {
                JobAction::Mark { proposal_id: p } => p@ == proposal_id@,
                _ => false,
            }
        },
        JobEvent::Marked { proposal_id } => finishes(
            action,
            "completed"@,
            Some(proposal_id@),
            None,
            None,
        ),
        JobEvent::MarkFailed { proposal_id, error } => match action {
            JobAction::Fail { error: e, discard } => e@ == error@ && discard@ == proposal_id@,
            _ => false,
        },
        JobEvent::Failed { error, canceled } => if canceled {
            finishes(action, "cancelled"@, None, None, None)
        } else {
            finishes(action, "failed"@, None, Some(error@), None)
        },
    }
}

fn canceled_job(discard: Option<String>) -> (r: JobAction)
    ensures
        finishes(r, "cancelled"@, None, None, opt_text(discard)),
{
    JobAction::Finish {
        status: "cancelled".to_owned(),
        proposal_id: None,
        error: None,
        discard,
    }
}

/// What is done next for a job.
pub fn next_job_action(event: JobEvent) -> (r: JobAction)
    ensures
        is_next_action(event, r),
{
    match event {
        JobEvent::Waited { canceled } => if canceled {
            canceled_job(None)
        } else {
            JobAction::Wait
        },
        JobEvent::Summarized { canceled } => if canceled {
            canceled_job(None)
        } else {
            JobAction::Stage
        },
        JobEvent::Staged { proposal_id, canceled } => if canceled {
            canceled_job(Some(proposal_id))
        } else {
            JobAction::Mark { proposal_id }
        },
        JobEvent::Marked { proposal_id } => JobAction::Finish {
            status: "completed".to_owned(),
            proposal_id: Some(proposal_id),
            error: None,
            discard: None,
        },
        JobEvent::MarkFailed { proposal_id, error } => JobAction::Fail {
            error,
            discard: proposal_id,
        },
        JobEvent::Failed { error, canceled } => if canceled {
            canceled_job(None)
        } else {
            JobAction::Finish {
                status: "failed".to_owned(),
                proposal_id: None,
                error: Some(error),
                discard: None,
            }
        },
    }
}

/// Whether the owner has asked to cancel the job.
pub open spec fn is_canceled(event: JobEvent) -> bool {
    match event {
        JobEvent::Waited { canceled } => canceled,
        JobEvent::Summarized { canceled } => canceled,
        JobEvent::Staged { canceled, .. } => canceled,
        JobEvent::Failed { canceled, .. } => canceled,
        _ => false,
    }
}

/// A job that was canceled ends as canceled and leaves no proposal: what it has
/// staged is discarded.
pub proof fn law_canceled_job_leaves_no_proposal(event: JobEvent, action: JobAction)
    requires
        is_canceled(event),
        is_next_action(event, action),
    ensures
        finishes(
            action,
            "cancelled"@,
            None,
            None,
            match event {
                JobEvent::Staged { proposal_id, .. } => Some(proposal_id@),
                _ => None,
            },
        ),
{
}

/// A proposal is named as the outcome of a job only when its events are marked.
pub proof fn law_completed_job_has_marked_its_events(event: JobEvent, action: JobAction)
    requires
        is_next_action(event, action),
        action is Finish,
        action->Finish_proposal_id is Some,
    ensures
        event is Marked,
{
}

} // verus!
