//! Revisions of a Daily and how they read as Markdown.
use crate::drafts::{FactView, WorkstreamView};
use crate::markdown::{
    demote_workstream_headings, heading, is_wikilink, safe_model_markdown_text, safe_text,
    valid_wikilink, with_demoted_headings, workstream_heading,
};
use crate::ordered::contains_text;
use crate::text::{
    join, joined, lemma_take_step, lemma_views_push, opt_text, replace, replaced, str_eq, trim,
    trimmed, views,
};
use vstd::prelude::*;
use vstd::string::*;

verus! {

#[derive(Debug, Clone, PartialEq, Eq)]
pub struct DailyFact {
    pub text: String,
    pub evidence_event_ids: Vec<String>,
}

#[derive(Debug, Clone, PartialEq, Eq)]
pub struct DailyWorkstream {
    pub id: String,
    pub title: String,
    pub canonical_links: Vec<String>,
    pub evidence_event_ids: Vec<String>,
    pub outcome: Vec<DailyFact>,
    pub decision: Vec<DailyFact>,
    pub trade_off: Vec<DailyFact>,
    pub validation: Vec<DailyFact>,
    pub blocker: Vec<DailyFact>,
    pub follow_up: Vec<DailyFact>,
    /// What was recorded, word for word; no model has summarized it.
    pub activity: Vec<DailyFact>,
}

/// What stands before the words of a record that no model has summarized.
pub const ACTIVITY_LABEL: &'static str = "Activity record · not AI-summarized";

#[derive(Debug, Clone, PartialEq, Eq)]
pub struct DailyRevisionContent {
    pub schema_version: u64,
    pub workstreams: Vec<DailyWorkstream>,
    pub manual_entry_ids: Vec<String>,
    pub open_questions: Vec<String>,
}

/// A note that the owner wrote for a day.
#[derive(Debug, Clone, PartialEq, Eq)]
pub struct ManualDailyEntry {
    pub id: String,
    pub text: String,
    pub references: Vec<String>,
}

/// An event of a snapshot, and what the owner decided on it.
#[derive(Debug, Clone, PartialEq, Eq)]
pub struct SnapshotEvidence {
    pub event_id: String,
    pub disposition: Option<String>,
    /// Whether the event is still kept.
    pub available: bool,
}

impl View for DailyFact {
    type V = FactView;

    open spec fn view(&self) -> FactView {
        FactView { text: self.text@, evidence: views(self.evidence_event_ids@) }
    }
}

pub open spec fn daily_fact_views(facts: Seq<DailyFact>) -> Seq<FactView> {
    facts.map_values(|f: DailyFact| f@)
}

/// A workstream of a revision: the facts of a draft, links, and recorded
/// activity.
pub struct DailyWorkstreamView {
    pub work: WorkstreamView,
    pub links: Seq<Seq<char>>,
    pub activity: Seq<FactView>,
}

impl View for DailyWorkstream {
    type V = DailyWorkstreamView;

    open spec fn view(&self) -> DailyWorkstreamView {
        DailyWorkstreamView {
            work: WorkstreamView {
                id: self.id@,
                title: self.title@,
                evidence: views(self.evidence_event_ids@),
                outcome: daily_fact_views(self.outcome@),
                decision: daily_fact_views(self.decision@),
                trade_off: daily_fact_views(self.trade_off@),
                validation: daily_fact_views(self.validation@),
                blocker: daily_fact_views(self.blocker@),
                follow_up: daily_fact_views(self.follow_up@),
            },
            links: views(self.canonical_links@),
            activity: daily_fact_views(self.activity@),
        }
    }
}

pub open spec fn daily_workstream_views(ws: Seq<DailyWorkstream>) -> Seq<DailyWorkstreamView> {
    ws.map_values(|w: DailyWorkstream| w@)
}

pub struct RevisionView {
    pub schema_version: nat,
    pub workstreams: Seq<DailyWorkstreamView>,
    pub manual_entry_ids: Seq<Seq<char>>,
    pub open_questions: Seq<Seq<char>>,
}

impl View for DailyRevisionContent {
    type V = RevisionView;

    open spec fn view(&self) -> RevisionView {
        RevisionView {
            schema_version: self.schema_version as nat,
            workstreams: daily_workstream_views(self.workstreams@),
            manual_entry_ids: views(self.manual_entry_ids@),
            open_questions: views(self.open_questions@),
        }
    }
}

/// Whether the owner took an event out of the Daily.
pub open spec fn is_excluded(item: SnapshotEvidence) -> bool {
    match opt_text(item.disposition) {
        Some(d) => d == "omit"@ || d == "duplicate_of"@ || d == "superseded_by"@,
        None => false,
    }
}

/// The events that the owner took out of the Daily.
pub open spec fn excluded_events(evidence: Seq<SnapshotEvidence>) -> Seq<Seq<char>>
    decreases evidence.len(),
{
    if evidence.len() == 0 {
        Seq::empty()
    } else if is_excluded(evidence.last()) {
        excluded_events(evidence.drop_last()).push(evidence.last().event_id@)
    } else {
        excluded_events(evidence.drop_last())
    }
}

/// Whether some evidence of a fact was not taken out.
pub open spec fn still_supported(fact: FactView, excluded: Seq<Seq<char>>) -> bool {
    exists|i: int| 0 <= i < fact.evidence.len() && !excluded.contains(#[trigger] fact.evidence[i])
}

pub open spec fn fact_line(label: Seq<char>, text: Seq<char>) -> Seq<char> {
    "- **"@ + label + ":** "@ + safe_text(text)
}

/// The lines of the facts of a field that still have evidence.
pub open spec fn fact_lines(
    label: Seq<char>,
    facts: Seq<FactView>,
    excluded: Seq<Seq<char>>,
) -> Seq<Seq<char>>
    decreases facts.len(),
{
    if facts.len() == 0 {
        Seq::empty()
    } else {
        let before = fact_lines(label, facts.drop_last(), excluded);
        if still_supported(facts.last(), excluded) {
            before.push(fact_line(label, facts.last().text))
        } else {
            before
        }
    }
}

pub open spec fn workstream_lines(w: DailyWorkstreamView, excluded: Seq<Seq<char>>) -> Seq<
    Seq<char>,
> {
    fact_lines("Outcome"@, w.work.outcome, excluded) + fact_lines(
        "Decision"@,
        w.work.decision,
        excluded,
    ) + fact_lines("Trade-off"@, w.work.trade_off, excluded) + fact_lines(
        "Validation"@,
        w.work.validation,
        excluded,
    ) + fact_lines("Blocker"@, w.work.blocker, excluded) + fact_lines(
        "Follow-up"@,
        w.work.follow_up,
        excluded,
    ) + fact_lines(ACTIVITY_LABEL@, w.activity, excluded)
}

/// The texts of a list that are links to notes.
pub open spec fn wikilinks(links: Seq<Seq<char>>) -> Seq<Seq<char>>
    decreases links.len(),
{
    if links.len() == 0 {
        Seq::empty()
    } else if is_wikilink(links.last()) {
        wikilinks(links.drop_last()).push(links.last())
    } else {
        wikilinks(links.drop_last())
    }
}

/// The section of a workstream, unless nothing of it is left.
pub open spec fn workstream_section(w: DailyWorkstreamView, excluded: Seq<Seq<char>>) -> Option<
    Seq<char>,
> {
    let lines = workstream_lines(w, excluded);
    if lines.len() == 0 {
        None
    } else {
        Some(
            heading(safe_text(w.work.title), wikilinks(w.links)) + "\n\n"@ + joined(lines, "\n"@),
        )
    }
}

pub open spec fn workstream_sections(
    ws: Seq<DailyWorkstreamView>,
    excluded: Seq<Seq<char>>,
) -> Seq<Seq<char>>
    decreases ws.len(),
{
    if ws.len() == 0 {
        Seq::empty()
    } else {
        let before = workstream_sections(ws.drop_last(), excluded);
        match workstream_section(ws.last(), excluded) {
            Some(section) => before.push(section),
            None => before,
        }
    }
}

/// The first entry with that ID.
pub open spec fn entry_with_id(entries: Seq<ManualDailyEntry>, id: Seq<char>) -> Option<
    ManualDailyEntry,
>
    decreases entries.len(),
{
    if entries.len() == 0 {
        None
    } else if entries[0].id@ == id {
        Some(entries[0])
    } else {
        entry_with_id(entries.drop_first(), id)
    }
}

pub open spec fn reference_links(references: Seq<Seq<char>>) -> Seq<Seq<char>> {
    references.map_values(|r: Seq<char>| "[Reference](<"@ + r + ">)"@)
}

/// The line of a manual entry, with its references.
pub open spec fn manual_line(entry: ManualDailyEntry) -> Seq<char> {
    let line = "- "@ + replaced(trimmed(entry.text@), "\n"@, "\n  "@);
    if entry.references@.len() == 0 {
        line
    } else {
        line + " · "@ + joined(reference_links(views(entry.references@)), " · "@)
    }
}

pub open spec fn manual_lines(entries: Seq<ManualDailyEntry>, ids: Seq<Seq<char>>) -> Seq<Seq<char>>
    decreases ids.len(),
{
    if ids.len() == 0 {
        Seq::empty()
    } else {
        let before = manual_lines(entries, ids.drop_last());
        match entry_with_id(entries, ids.last()) {
            Some(entry) => before.push(manual_line(entry)),
            None => before,
        }
    }
}

pub open spec fn question_lines(questions: Seq<Seq<char>>) -> Seq<Seq<char>> {
    questions.map_values(|q: Seq<char>| "- "@ + safe_text(q))
}

/// The sections of a Daily: the owner's notes, the workstreams and the open
/// questions, as far as there are any.
pub open spec fn preview_sections(
    manual: Seq<Seq<char>>,
    workstreams: Seq<Seq<char>>,
    questions: Seq<Seq<char>>,
) -> Seq<Seq<char>> {
    let notes = if manual.len() == 0 {
        Seq::empty()
    } else {
        seq!["### My notes\n\n"@ + joined(manual, "\n"@)]
    };
    let body = joined(workstreams, "\n\n"@);
    let activity = if workstreams.len() == 0 {
        Seq::empty()
    } else if manual.len() == 0 {
        seq![body]
    } else {
        seq!["### Automated activity\n\n"@ + with_demoted_headings(body)]
    };
    let open = if questions.len() == 0 {
        Seq::empty()
    } else {
        seq!["### Open questions\n\n"@ + joined(question_lines(questions), "\n"@)]
    };
    notes + activity + open
}

/// The Markdown of a revision.
pub open spec fn preview(
    content: RevisionView,
    entries: Seq<ManualDailyEntry>,
    evidence: Seq<SnapshotEvidence>,
) -> Seq<char> {
    joined(
        preview_sections(
            manual_lines(entries, content.manual_entry_ids),
            workstream_sections(content.workstreams, excluded_events(evidence)),
            content.open_questions,
        ),
        "\n\n"@,
    )
}

fn excluded_ids(evidence: &Vec<SnapshotEvidence>) -> (r: Vec<String>)
    ensures
        views(r@) == excluded_events(evidence@),
{
    broadcast use lemma_views_push;
    let mut r: Vec<String> = Vec::new();
    let mut i: usize = 0;
    assert(evidence@.take(0) =~= Seq::<SnapshotEvidence>::empty());
    assert(views(r@) =~= Seq::<Seq<char>>::empty());
    while i < evidence.len()
        invariant
            i <= evidence@.len(),
            views(r@) == excluded_events(evidence@.take(i as int)),
        decreases evidence@.len() - i,
    {
        proof {
            lemma_take_step(evidence@, i as int);
        }
        let out = match &evidence[i].disposition {
            Some(d) => str_eq(d.as_str(), "omit") || str_eq(d.as_str(), "duplicate_of") || str_eq(
                d.as_str(),
                "superseded_by",
            ),
            None => false,
        };
        if out {
            r.push(evidence[i].event_id.as_str().to_owned());
        }
        i += 1;
    }
    assert(evidence@.take(i as int) =~= evidence@);
    r
}

fn has_support(fact: &DailyFact, excluded: &Vec<String>) -> (r: bool)
    ensures
        r == still_supported(fact@, views(excluded@)),
{
    let mut i: usize = 0;
    let ghost ids = fact@.evidence;
    while i < fact.evidence_event_ids.len()
        invariant
            i <= fact.evidence_event_ids@.len(),
            ids == views(fact.evidence_event_ids@),
            forall|k: int| 0 <= k < i ==> views(excluded@).contains(#[trigger] ids[k]),
        decreases fact.evidence_event_ids@.len() - i,
    {
        if !contains_text(excluded, fact.evidence_event_ids[i].as_str()) {
            assert(!views(excluded@).contains(fact@.evidence[i as int]));
            return true;
        }
        i += 1;
    }
    false
}

fn push_fact_lines(out: &mut Vec<String>, label: &str, facts: &Vec<DailyFact>, excluded: &Vec<String>)
    ensures
        views(final(out)@) == views(old(out)@) + fact_lines(
            label@,
            daily_fact_views(facts@),
            views(excluded@),
        ),
{
    broadcast use lemma_views_push;
    let ghost before = views(out@);
    let ghost all = daily_fact_views(facts@);
    let mut i: usize = 0;
    assert(all.take(0) =~= Seq::<FactView>::empty());
    assert(before + Seq::<Seq<char>>::empty() =~= before);
    while i < facts.len()
        invariant
            i <= facts@.len(),
            all == daily_fact_views(facts@),
            views(out@) == before + fact_lines(label@, all.take(i as int), views(excluded@)),
        decreases facts@.len() - i,
    {
        proof {
            lemma_take_step(all, i as int);
            assert(all[i as int] == facts@[i as int]@);
        }
        if has_support(&facts[i], excluded) {
            let mut line = "- **".to_owned();
            line.push_str(label);
            line.push_str(":** ");
            line.push_str(safe_model_markdown_text(facts[i].text.as_str()).as_str());
            let ghost mid = views(out@);
            let ghost said = line@;
            out.push(line);
            proof {
                assert(views(out@) == mid.push(said));
                assert(views(out@) =~= before + fact_lines(
                    label@,
                    all.take(i + 1),
                    views(excluded@),
                ));
            }
        }
        i += 1;
    }
    assert(all.take(i as int) =~= all);
}

fn keep_wikilinks(links: &Vec<String>) -> (r: Vec<String>)
    ensures
        views(r@) == wikilinks(views(links@)),
{
    broadcast use lemma_views_push;
    let ghost all = views(links@);
    let mut r: Vec<String> = Vec::new();
    let mut i: usize = 0;
    assert(all.take(0) =~= Seq::<Seq<char>>::empty());
    assert(views(r@) =~= Seq::<Seq<char>>::empty());
    while i < links.len()
        invariant
            i <= links@.len(),
            all == views(links@),
            views(r@) == wikilinks(all.take(i as int)),
        decreases links@.len() - i,
    {
        proof {
            lemma_take_step(all, i as int);
        }
        if valid_wikilink(links[i].as_str()) {
            r.push(links[i].as_str().to_owned());
        }
        i += 1;
    }
    assert(all.take(i as int) =~= all);
    r
}

fn render_workstream(w: &DailyWorkstream, excluded: &Vec<String>) -> (r: Option<String>)
    ensures
        opt_text(r) == workstream_section(w@, views(excluded@)),
{
    let mut lines: Vec<String> = Vec::new();
    assert(views(lines@) =~= Seq::<Seq<char>>::empty());
    push_fact_lines(&mut lines, "Outcome", &w.outcome, excluded);
    assert(views(lines@) =~= fact_lines("Outcome"@, w@.work.outcome, views(excluded@)));
    push_fact_lines(&mut lines, "Decision", &w.decision, excluded);
    push_fact_lines(&mut lines, "Trade-off", &w.trade_off, excluded);
    push_fact_lines(&mut lines, "Validation", &w.validation, excluded);
    push_fact_lines(&mut lines, "Blocker", &w.blocker, excluded);
    push_fact_lines(&mut lines, "Follow-up", &w.follow_up, excluded);
    push_fact_lines(&mut lines, ACTIVITY_LABEL, &w.activity, excluded);
    assert(views(lines@).len() == lines@.len());
    if lines.len() == 0 {
        return None;
    }
    let links = keep_wikilinks(&w.canonical_links);
    let title = safe_model_markdown_text(w.title.as_str());
    let mut section = workstream_heading(title.as_str(), &links);
    section.push_str("\n\n");
    section.push_str(join(&lines, "\n").as_str());
    Some(section)
}

fn render_workstreams(ws: &Vec<DailyWorkstream>, excluded: &Vec<String>) -> (r: Vec<String>)
    ensures
        views(r@) == workstream_sections(daily_workstream_views(ws@), views(excluded@)),
{
    broadcast use lemma_views_push;
    let ghost all = daily_workstream_views(ws@);
    let mut r: Vec<String> = Vec::new();
    let mut i: usize = 0;
    assert(all.take(0) =~= Seq::<DailyWorkstreamView>::empty());
    assert(views(r@) =~= Seq::<Seq<char>>::empty());
    while i < ws.len()
        invariant
            i <= ws@.len(),
            all == daily_workstream_views(ws@),
            views(r@) == workstream_sections(all.take(i as int), views(excluded@)),
        decreases ws@.len() - i,
    {
        proof {
            lemma_take_step(all, i as int);
        }
        if let Some(section) = render_workstream(&ws[i], excluded) {
            r.push(section);
        }
        i += 1;
    }
    assert(all.take(i as int) =~= all);
    r
}

fn find_entry<'a>(entries: &'a Vec<ManualDailyEntry>, id: &str) -> (r: Option<&'a ManualDailyEntry>)
    ensures
        match r {
            Some(entry) => entry_with_id(entries@, id@) == Some(*entry),
            None => entry_with_id(entries@, id@) is None,
        },
{
    let mut i: usize = 0;
    assert(entries@.skip(0) =~= entries@);
    while i < entries.len()
        invariant
            i <= entries@.len(),
            entry_with_id(entries@, id@) == entry_with_id(entries@.skip(i as int), id@),
        decreases entries@.len() - i,
    {
        assert(entries@.skip(i as int).drop_first() =~= entries@.skip(i + 1));
        if str_eq(entries[i].id.as_str(), id) {
            return Some(&entries[i]);
        }
        i += 1;
    }
    None
}

fn render_manual_entry(entry: &ManualDailyEntry) -> (r: String)
    ensures
        r@ == manual_line(*entry),
{
    broadcast use lemma_views_push;
    proof {
        reveal_strlit("\n");
    }
    let mut line = "- ".to_owned();
    line.push_str(replace(trim(entry.text.as_str()).as_str(), "\n", "\n  ").as_str());
    if entry.references.len() == 0 {
        return line;
    }
    let ghost all = reference_links(views(entry.references@));
    let mut links: Vec<String> = Vec::new();
    let mut i: usize = 0;
    assert(views(links@) =~= all.take(0));
    while i < entry.references.len()
        invariant
            i <= entry.references@.len(),
            all == reference_links(views(entry.references@)),
            views(links@) == all.take(i as int),
        decreases entry.references@.len() - i,
    {
        proof {
            lemma_take_step(all, i as int);
        }
        let mut link = "[Reference](<".to_owned();
        link.push_str(entry.references[i].as_str());
        link.push_str(">)");
        links.push(link);
        i += 1;
    }
    assert(all.take(i as int) =~= all);
    line.push_str(" · ");
    line.push_str(join(&links, " · ").as_str());
    line
}

fn render_manual(entries: &Vec<ManualDailyEntry>, ids: &Vec<String>) -> (r: Vec<String>)
    ensures
        views(r@) == manual_lines(entries@, views(ids@)),
{
    broadcast use lemma_views_push;
    let ghost all = views(ids@);
    let mut r: Vec<String> = Vec::new();
    let mut i: usize = 0;
    assert(all.take(0) =~= Seq::<Seq<char>>::empty());
    assert(views(r@) =~= Seq::<Seq<char>>::empty());
    while i < ids.len()
        invariant
            i <= ids@.len(),
            all == views(ids@),
            views(r@) == manual_lines(entries@, all.take(i as int)),
        decreases ids@.len() - i,
    {
        proof {
            lemma_take_step(all, i as int);
        }
        if let Some(entry) = find_entry(entries, ids[i].as_str()) {
            r.push(render_manual_entry(entry));
        }
        i += 1;
    }
    assert(all.take(i as int) =~= all);
    r
}

fn render_questions(questions: &Vec<String>) -> (r: Vec<String>)
    ensures
        views(r@) == question_lines(views(questions@)),
{
    broadcast use lemma_views_push;
    let ghost all = question_lines(views(questions@));
    let mut r: Vec<String> = Vec::new();
    let mut i: usize = 0;
    assert(views(r@) =~= all.take(0));
    while i < questions.len()
        invariant
            i <= questions@.len(),
            all == question_lines(views(questions@)),
            views(r@) == all.take(i as int),
        decreases questions@.len() - i,
    {
        proof {
            lemma_take_step(all, i as int);
        }
        let mut line = "- ".to_owned();
        line.push_str(safe_model_markdown_text(questions[i].as_str()).as_str());
        r.push(line);
        i += 1;
    }
    assert(all.take(i as int) =~= all);
    r
}

/// The Markdown of a revision, with the owner's notes, without facts whose
/// evidence was taken out.
pub fn render_daily_revision_preview(
    content: &DailyRevisionContent,
    manual_entries: &Vec<ManualDailyEntry>,
    evidence: &Vec<SnapshotEvidence>,
) -> (r: String)
    ensures
        r@ == preview(content@, manual_entries@, evidence@),
{
    broadcast use lemma_views_push;
    let excluded = excluded_ids(evidence);
    let manual = render_manual(manual_entries, &content.manual_entry_ids);
    let workstreams = render_workstreams(&content.workstreams, &excluded);
    let mut sections: Vec<String> = Vec::new();
    let ghost ms = views(manual@);
    let ghost ws = views(workstreams@);
    let ghost qs = content@.open_questions;
    assert(ms.len() == manual@.len() && ws.len() == workstreams@.len());
    assert(qs.len() == content.open_questions@.len());
    if manual.len() > 0 {
        let mut section = "### My notes\n\n".to_owned();
        section.push_str(join(&manual, "\n").as_str());
        sections.push(section);
    }
    if workstreams.len() > 0 {
        let body = join(&workstreams, "\n\n");
        if manual.len() == 0 {
            sections.push(body);
        } else {
            let mut section = "### Automated activity\n\n".to_owned();
            section.push_str(demote_workstream_headings(body.as_str()).as_str());
            sections.push(section);
        }
    }
    if content.open_questions.len() > 0 {
        let questions = render_questions(&content.open_questions);
        let mut section = "### Open questions\n\n".to_owned();
        section.push_str(join(&questions, "\n").as_str());
        sections.push(section);
    }
    assert(views(sections@) =~= preview_sections(ms, ws, qs));
    join(&sections, "\n\n")
}

} // verus!
