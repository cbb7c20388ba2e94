//! Structured Daily drafts: what a model may hand back.
use crate::errors::text3;
use crate::knowledge::outcome;
use crate::ordered::{contains_text, ordered_set, ordered_set_of};
use crate::text::{
    ascii_lowercase, ascii_lowered, contains, copy_texts, join, joined, lemma_take_step,
    lemma_views_push, lowercase, lowercased, occurs, opt_text, push_texts, split_words, str_eq,
    trim, trimmed, views, words,
};
use vstd::prelude::*;
use vstd::string::*;

verus! {

#[derive(Debug, Clone, PartialEq, Eq)]
pub struct StructuredFact {
    pub text: String,
    pub evidence_event_ids: Vec<String>,
}

#[derive(Debug, Clone, PartialEq, Eq)]
pub struct StructuredWorkstream {
    pub id: String,
    pub title: String,
    pub evidence_event_ids: Vec<String>,
    pub outcome: Vec<StructuredFact>,
    pub decision: Vec<StructuredFact>,
    pub trade_off: Vec<StructuredFact>,
    pub validation: Vec<StructuredFact>,
    pub blocker: Vec<StructuredFact>,
    pub follow_up: Vec<StructuredFact>,
}

#[derive(Debug, Clone, PartialEq, Eq)]
pub struct StructuredDailyDraft {
    pub workstreams: Vec<StructuredWorkstream>,
    pub open_questions: Vec<String>,
}

pub struct FactView {
    pub text: Seq<char>,
    pub evidence: Seq<Seq<char>>,
}

pub struct WorkstreamView {
    pub id: Seq<char>,
    pub title: Seq<char>,
    pub evidence: Seq<Seq<char>>,
    pub outcome: Seq<FactView>,
    pub decision: Seq<FactView>,
    pub trade_off: Seq<FactView>,
    pub validation: Seq<FactView>,
    pub blocker: Seq<FactView>,
    pub follow_up: Seq<FactView>,
}

pub struct DraftView {
    pub workstreams: Seq<WorkstreamView>,
    pub open_questions: Seq<Seq<char>>,
}

impl View for StructuredFact {
    type V = FactView;

    open spec fn view(&self) -> FactView {
        FactView { text: self.text@, evidence: views(self.evidence_event_ids@) }
    }
}

pub open spec fn fact_views(facts: Seq<StructuredFact>) -> Seq<FactView> {
    facts.map_values(|f: StructuredFact| f@)
}

impl View for StructuredWorkstream {
    type V = WorkstreamView;

    open spec fn view(&self) -> WorkstreamView {
        WorkstreamView {
            id: self.id@,
            title: self.title@,
            evidence: views(self.evidence_event_ids@),
            outcome: fact_views(self.outcome@),
            decision: fact_views(self.decision@),
            trade_off: fact_views(self.trade_off@),
            validation: fact_views(self.validation@),
            blocker: fact_views(self.blocker@),
            follow_up: fact_views(self.follow_up@),
        }
    }
}

pub open spec fn workstream_views(ws: Seq<StructuredWorkstream>) -> Seq<WorkstreamView> {
    ws.map_values(|w: StructuredWorkstream| w@)
}

impl View for StructuredDailyDraft {
    type V = DraftView;

    open spec fn view(&self) -> DraftView {
        DraftView {
            workstreams: workstream_views(self.workstreams@),
            open_questions: views(self.open_questions@),
        }
    }
}

impl WorkstreamView {
    /// Every fact, in the order of the fields.
    pub open spec fn facts(self) -> Seq<FactView> {
        self.outcome + self.decision + self.trade_off + self.validation + self.blocker
            + self.follow_up
    }
}

/// The texts of `a`, then those of `b` that are not there yet, each once.
pub open spec fn merged(a: Seq<Seq<char>>, b: Seq<Seq<char>>) -> Seq<Seq<char>>
    decreases b.len(),
{
    if b.len() == 0 {
        a
    } else {
        let before = merged(a, b.drop_last());
        if before.contains(b.last()) {
            before
        } else {
            before.push(b.last())
        }
    }
}

/// The different texts of a list, each at its first place.
pub open spec fn distinct(s: Seq<Seq<char>>) -> Seq<Seq<char>> {
    merged(Seq::empty(), s)
}

/// What makes two facts the same: their words, without regard to case.
pub open spec fn fact_key(text: Seq<char>) -> Seq<char> {
    lowercased(joined(words(text), " "@))
}

/// Where a fact with that key stands, or -1.
pub open spec fn fact_at(facts: Seq<FactView>, key: Seq<char>) -> int
    decreases facts.len(),
{
    if facts.len() == 0 {
        -1
    } else if fact_key(facts.last().text) == key {
        facts.len() - 1
    } else {
        fact_at(facts.drop_last(), key)
    }
}

/// The facts of a field, where facts that say the same are one, with the
/// evidence of all of them.
pub open spec fn reduced(facts: Seq<FactView>) -> Seq<FactView>
    decreases facts.len(),
{
    if facts.len() == 0 {
        Seq::empty()
    } else {
        let before = reduced(facts.drop_last());
        let fact = facts.last();
        let evidence = distinct(fact.evidence);
        let at = fact_at(before, fact_key(fact.text));
        if at >= 0 {
            before.update(
                at,
                FactView { evidence: merged(before[at].evidence, evidence), ..before[at] },
            )
        } else {
            before.push(FactView { text: fact.text, evidence })
        }
    }
}

pub open spec fn reduced_workstream(w: WorkstreamView) -> WorkstreamView {
    WorkstreamView {
        outcome: reduced(w.outcome),
        decision: reduced(w.decision),
        trade_off: reduced(w.trade_off),
        validation: reduced(w.validation),
        blocker: reduced(w.blocker),
        follow_up: reduced(w.follow_up),
        ..w
    }
}

pub open spec fn reduced_draft(d: DraftView) -> DraftView {
    DraftView {
        workstreams: d.workstreams.map_values(|w: WorkstreamView| reduced_workstream(w)),
        ..d
    }
}

fn merge_texts(a: &mut Vec<String>, b: &Vec<String>)
    ensures
        views(final(a)@) == merged(views(old(a)@), views(b@)),
{
    broadcast use lemma_views_push;
    let ghost start = views(a@);
    let ghost all = views(b@);
    let mut i: usize = 0;
    assert(all.take(0) =~= Seq::<Seq<char>>::empty());
    while i < b.len()
        invariant
            i <= b@.len(),
            all == views(b@),
            views(a@) == merged(start, all.take(i as int)),
        decreases b@.len() - i,
    {
        proof {
            lemma_take_step(all, i as int);
        }
        if !contains_text(a, b[i].as_str()) {
            a.push(b[i].as_str().to_owned());
        }
        i += 1;
    }
    assert(all.take(i as int) =~= all);
}

fn key_of_fact(text: &str) -> (r: String)
    ensures
        r@ == fact_key(text@),
{
    let parts = split_words(text);
    lowercase(join(&parts, " ").as_str())
}

fn find_fact(facts: &Vec<StructuredFact>, key: &str) -> (r: Option<usize>)
    ensures
        match r {
            Some(i) => i < facts@.len() && fact_at(fact_views(facts@), key@) == i,
            None => fact_at(fact_views(facts@), key@) < 0,
        },
{
    let mut i: usize = facts.len();
    let ghost all = fact_views(facts@);
    assert(all.take(i as int) =~= all);
    while i > 0
        invariant
            i <= facts@.len(),
            all == fact_views(facts@),
            fact_at(all, key@) == fact_at(all.take(i as int), key@),
        decreases i,
    {
        assert(all.take(i as int).drop_last() =~= all.take(i - 1));
        assert(all[i - 1] == facts@[i - 1]@);
        if str_eq(key_of_fact(facts[i - 1].text.as_str()).as_str(), key) {
            return Some(i - 1);
        }
        i -= 1;
    }
    None
}

fn deduplicate_fact_field(facts: &Vec<StructuredFact>) -> (r: Vec<StructuredFact>)
    ensures
        fact_views(r@) == reduced(fact_views(facts@)),
{
    let ghost all = fact_views(facts@);
    let mut r: Vec<StructuredFact> = Vec::new();
    let mut i: usize = 0;
    assert(all.take(0) =~= Seq::<FactView>::empty());
    assert(fact_views(r@) =~= Seq::<FactView>::empty());
    while i < facts.len()
        invariant
            i <= facts@.len(),
            all == fact_views(facts@),
            fact_views(r@) == reduced(all.take(i as int)),
        decreases facts@.len() - i,
    {
        proof {
            lemma_take_step(all, i as int);
        }
        let fact = &facts[i];
        let key = key_of_fact(fact.text.as_str());
        let mut evidence: Vec<String> = Vec::new();
        assert(views(evidence@) =~= Seq::<Seq<char>>::empty());
        merge_texts(&mut evidence, &fact.evidence_event_ids);
        let ghost before = fact_views(r@);
        match find_fact(&r, key.as_str()) {
            Some(at) => {
                let mut combined = copy_texts(&r[at].evidence_event_ids);
                merge_texts(&mut combined, &evidence);
                assert(before[at as int] == r@[at as int]@);
                let next = StructuredFact {
                    text: r[at].text.as_str().to_owned(),
                    evidence_event_ids: combined,
                };
                let ghost said = next@;
                r.set(at, next);
                assert(fact_views(r@) =~= before.update(at as int, said));
            },
            None => {
                let next = StructuredFact {
                    text: fact.text.as_str().to_owned(),
                    evidence_event_ids: evidence,
                };
                let ghost said = next@;
                r.push(next);
                assert(fact_views(r@) =~= before.push(said));
            },
        }
        i += 1;
    }
    assert(all.take(i as int) =~= all);
    r
}

/// Joins the facts of every field that say the same.
fn deduplicate_daily_facts(draft: &StructuredDailyDraft) -> (r: StructuredDailyDraft)
    ensures
        r@ == reduced_draft(draft@),
{
    let ghost all = reduced_draft(draft@).workstreams;
    let mut workstreams: Vec<StructuredWorkstream> = Vec::new();
    let mut i: usize = 0;
    assert(workstream_views(workstreams@) =~= all.take(0));
    while i < draft.workstreams.len()
        invariant
            i <= draft.workstreams@.len(),
            all == reduced_draft(draft@).workstreams,
            workstream_views(workstreams@) == all.take(i as int),
        decreases draft.workstreams@.len() - i,
    {
        let w = &draft.workstreams[i];
        let evidence_event_ids = copy_texts(&w.evidence_event_ids);
        let next = StructuredWorkstream {
            id: w.id.as_str().to_owned(),
            title: w.title.as_str().to_owned(),
            evidence_event_ids,
            outcome: deduplicate_fact_field(&w.outcome),
            decision: deduplicate_fact_field(&w.decision),
            trade_off: deduplicate_fact_field(&w.trade_off),
            validation: deduplicate_fact_field(&w.validation),
            blocker: deduplicate_fact_field(&w.blocker),
            follow_up: deduplicate_fact_field(&w.follow_up),
        };
        let ghost before = workstreams@;
        proof {
            lemma_take_step(all, i as int);
            assert(all[i as int] == reduced_workstream(w@));
            assert(workstream_views(before.push(next)) =~= workstream_views(before).push(next@));
        }
        workstreams.push(next);
        i += 1;
    }
    assert(all.take(i as int) =~= all);
    let open_questions = copy_texts(&draft.open_questions);
    StructuredDailyDraft { workstreams, open_questions }
}


/// The ASCII lower case of a title holds the wording of the requested shape.
pub open spec fn is_placeholder(title: Seq<char>) -> bool {
    occurs(ascii_lowered(title), "concise workstream"@) || occurs(
        ascii_lowered(title),
        "workstream name"@,
    )
}

/// What is wrong with the citations of a fact: the first one that lies outside
/// the workstream.
pub open spec fn citation_error(
    id: Seq<char>,
    cited: Seq<Seq<char>>,
    evidence: Seq<Seq<char>>,
) -> Option<Seq<char>>
    decreases cited.len(),
{
    if cited.len() == 0 {
        None
    } else {
        match citation_error(id, cited.drop_last(), evidence) {
            Some(error) => Some(error),
            None => if evidence.contains(cited.last()) {
                None
            } else {
                Some(
                    "fact in workstream "@ + id + " cites evidence outside the workstream: "@
                        + cited.last(),
                )
            },
        }
    }
}

/// What is wrong with the facts of a workstream.
pub open spec fn facts_error(
    id: Seq<char>,
    facts: Seq<FactView>,
    evidence: Seq<Seq<char>>,
) -> Option<Seq<char>>
    decreases facts.len(),
{
    if facts.len() == 0 {
        None
    } else {
        match facts_error(id, facts.drop_last(), evidence) {
            Some(error) => Some(error),
            None => if trimmed(facts.last().text).len() == 0 || facts.last().evidence.len() == 0 {
                Some("workstream "@ + id + " contains a fact without text or evidence"@)
            } else {
                citation_error(id, facts.last().evidence, evidence)
            },
        }
    }
}

/// What is wrong with the evidence of a workstream: the first event that was
/// not asked for, or that was used before. `covered` is what was used before.
pub open spec fn evidence_error(
    id: Seq<char>,
    evidence: Seq<Seq<char>>,
    expected: Seq<Seq<char>>,
    covered: Seq<Seq<char>>,
) -> Option<Seq<char>>
    decreases evidence.len(),
{
    if evidence.len() == 0 {
        None
    } else {
        let event = evidence.last();
        match evidence_error(id, evidence.drop_last(), expected, covered) {
            Some(error) => Some(error),
            None => if !expected.contains(event) {
                Some("workstream "@ + id + " invented evidence "@ + event)
            } else if (covered + evidence.drop_last()).contains(event) {
                Some("evidence "@ + event + " appears in multiple workstreams"@)
            } else {
                None
            },
        }
    }
}

pub open spec fn ids_of_workstreams(ws: Seq<WorkstreamView>) -> Seq<Seq<char>> {
    ws.map_values(|w: WorkstreamView| w.id)
}

/// The evidence of some workstreams, in order.
pub open spec fn evidence_of(ws: Seq<WorkstreamView>) -> Seq<Seq<char>>
    decreases ws.len(),
{
    if ws.len() == 0 {
        Seq::empty()
    } else {
        evidence_of(ws.drop_last()) + ws.last().evidence
    }
}

/// What is wrong with a workstream that follows `earlier`.
pub open spec fn workstream_error(
    w: WorkstreamView,
    earlier: Seq<WorkstreamView>,
    expected: Seq<Seq<char>>,
) -> Option<Seq<char>> {
    if trimmed(w.id).len() == 0 || trimmed(w.title).len() == 0 {
        Some("every workstream requires a stable ID and title"@)
    } else if is_placeholder(w.title) {
        Some("workstream "@ + w.id + " retained a schema placeholder title"@)
    } else if ids_of_workstreams(earlier).contains(w.id) {
        Some("duplicate workstream ID: "@ + w.id)
    } else if w.evidence.len() == 0 {
        Some("workstream "@ + w.id + " has no evidence"@)
    } else if w.facts().len() == 0 {
        Some("workstream "@ + w.id + " has no factual fields"@)
    } else if facts_error(w.id, w.facts(), w.evidence) is Some {
        facts_error(w.id, w.facts(), w.evidence)
    } else {
        evidence_error(w.id, w.evidence, expected, evidence_of(earlier))
    }
}

pub open spec fn workstreams_error(ws: Seq<WorkstreamView>, expected: Seq<Seq<char>>) -> Option<
    Seq<char>,
>
    decreases ws.len(),
{
    if ws.len() == 0 {
        None
    } else {
        match workstreams_error(ws.drop_last(), expected) {
            Some(error) => Some(error),
            None => workstream_error(ws.last(), ws.drop_last(), expected),
        }
    }
}

/// The texts of a list that `covered` lacks.
pub open spec fn missing_from(covered: Seq<Seq<char>>, expected: Seq<Seq<char>>) -> Seq<Seq<char>>
    decreases expected.len(),
{
    if expected.len() == 0 {
        Seq::empty()
    } else if covered.contains(expected.last()) {
        missing_from(covered, expected.drop_last())
    } else {
        missing_from(covered, expected.drop_last()).push(expected.last())
    }
}

/// What is wrong with a draft for some evidence.
pub open spec fn draft_error(d: DraftView, expected: Seq<Seq<char>>) -> Option<Seq<char>> {
    let missing = missing_from(evidence_of(d.workstreams), ordered_set(expected));
    if d.workstreams.len() == 0 {
        Some("LLM daily draft must contain at least one workstream"@)
    } else if ordered_set(expected).len() != expected.len() {
        Some("evidence snapshot contains duplicate event IDs"@)
    } else if workstreams_error(d.workstreams, expected) is Some {
        workstreams_error(d.workstreams, expected)
    } else if missing.len() > 0 {
        Some("daily draft omitted evidence: "@ + joined(missing, ", "@))
    } else {
        None
    }
}

/// Whether there is an error message that says that, or none.
pub open spec fn error_is(r: Option<String>, view: Option<Seq<char>>) -> bool {
    opt_text(r) == view
}

fn check_citations(id: &str, cited: &Vec<String>, evidence: &Vec<String>) -> (r: Option<String>)
    ensures
        error_is(r, citation_error(id@, views(cited@), views(evidence@))),
{
    let ghost all = views(cited@);
    let mut r: Option<String> = None;
    let mut i: usize = 0;
    assert(all.take(0) =~= Seq::<Seq<char>>::empty());
    while i < cited.len()
        invariant
            i <= cited@.len(),
            all == views(cited@),
            error_is(r, citation_error(id@, all.take(i as int), views(evidence@))),
        decreases cited@.len() - i,
    {
        proof {
            lemma_take_step(all, i as int);
        }
        if r.is_none() && !contains_text(evidence, cited[i].as_str()) {
            let mut message = text3(
                "fact in workstream ",
                id,
                " cites evidence outside the workstream: ",
            );
            message.push_str(cited[i].as_str());
            r = Some(message);
        }
        i += 1;
    }
    assert(all.take(i as int) =~= all);
    r
}

/// Goes on checking with the facts of one more field.
fn check_facts(
    r: Option<String>,
    id: &str,
    Ghost(before): Ghost<Seq<FactView>>,
    facts: &Vec<StructuredFact>,
    evidence: &Vec<String>,
) -> (next: Option<String>)
    requires
        error_is(r, facts_error(id@, before, views(evidence@))),
    ensures
        error_is(next, facts_error(id@, before + fact_views(facts@), views(evidence@))),
{
    let ghost all = fact_views(facts@);
    let mut r = r;
    let mut i: usize = 0;
    assert(before + all.take(0) =~= before);
    while i < facts.len()
        invariant
            i <= facts@.len(),
            all == fact_views(facts@),
            error_is(r, facts_error(id@, before + all.take(i as int), views(evidence@))),
        decreases facts@.len() - i,
    {
        proof {
            lemma_take_step(all, i as int);
            let longer = before + all.take(i + 1);
            assert(longer.drop_last() =~= before + all.take(i as int));
            assert(longer.last() == facts@[i as int]@);
        }
        if r.is_none() {
            let fact = &facts[i];
            assert(views(fact.evidence_event_ids@).len() == fact.evidence_event_ids@.len());
            if trim(fact.text.as_str()).as_str().is_empty() || fact.evidence_event_ids.len()
                == 0 {
                r = Some(
                    text3("workstream ", id, " contains a fact without text or evidence"),
                );
            } else {
                r = check_citations(id, &fact.evidence_event_ids, evidence);
            }
        }
        i += 1;
    }
    assert(all.take(i as int) =~= all);
    r
}

fn check_all_facts(w: &StructuredWorkstream) -> (r: Option<String>)
    ensures
        error_is(r, facts_error(w.id@, w@.facts(), w@.evidence)),
{
    let id: &str = w.id.as_str();
    let evidence = &w.evidence_event_ids;
    let ghost view = w@;
    let ghost none = Seq::<FactView>::empty();
    let ghost f1 = view.outcome;
    let ghost f2 = f1 + view.decision;
    let ghost f3 = f2 + view.trade_off;
    let ghost f4 = f3 + view.validation;
    let ghost f5 = f4 + view.blocker;
    assert(none + f1 =~= f1);
    let r = check_facts(None, id, Ghost(none), &w.outcome, evidence);
    let r = check_facts(r, id, Ghost(f1), &w.decision, evidence);
    let r = check_facts(r, id, Ghost(f2), &w.trade_off, evidence);
    let r = check_facts(r, id, Ghost(f3), &w.validation, evidence);
    let r = check_facts(r, id, Ghost(f4), &w.blocker, evidence);
    check_facts(r, id, Ghost(f5), &w.follow_up, evidence)
}

fn check_evidence(
    id: &str,
    evidence: &Vec<String>,
    expected: &Vec<String>,
    covered: &Vec<String>,
) -> (r: Option<String>)
    ensures
        error_is(r, evidence_error(id@, views(evidence@), views(expected@), views(covered@))),
{
    broadcast use lemma_views_push;
    let ghost all = views(evidence@);
    let mut seen = copy_texts(covered);
    let mut r: Option<String> = None;
    let mut i: usize = 0;
    assert(all.take(0) =~= Seq::<Seq<char>>::empty());
    assert(views(seen@) =~= views(covered@) + all.take(0));
    while i < evidence.len()
        invariant
            i <= evidence@.len(),
            all == views(evidence@),
            views(seen@) == views(covered@) + all.take(i as int),
            error_is(
                r,
                evidence_error(id@, all.take(i as int), views(expected@), views(covered@)),
            ),
        decreases evidence@.len() - i,
    {
        proof {
            lemma_take_step(all, i as int);
        }
        let event: &str = evidence[i].as_str();
        if r.is_none() {
            if !contains_text(expected, event) {
                let mut message = text3("workstream ", id, " invented evidence ");
                message.push_str(event);
                r = Some(message);
            } else if contains_text(&seen, event) {
                r = Some(text3("evidence ", event, " appears in multiple workstreams"));
            }
        }
        let ghost mid = views(seen@);
        seen.push(event.to_owned());
        proof {
            assert(views(seen@) == mid.push(all[i as int]));
            assert(views(seen@) =~= views(covered@) + all.take(i + 1));
        }
        i += 1;
    }
    assert(all.take(i as int) =~= all);
    r
}

fn check_workstream(
    w: &StructuredWorkstream,
    earlier_ids: &Vec<String>,
    covered: &Vec<String>,
    expected: &Vec<String>,
    Ghost(earlier): Ghost<Seq<WorkstreamView>>,
) -> (r: Option<String>)
    requires
        views(earlier_ids@) == ids_of_workstreams(earlier),
        views(covered@) == evidence_of(earlier),
    ensures
        error_is(r, workstream_error(w@, earlier, views(expected@))),
{
    let id: &str = w.id.as_str();
    if trim(id).as_str().is_empty() || trim(w.title.as_str()).as_str().is_empty() {
        return Some("every workstream requires a stable ID and title".to_owned());
    }
    let title = ascii_lowercase(w.title.as_str());
    if contains(title.as_str(), "concise workstream") || contains(
        title.as_str(),
        "workstream name",
    ) {
        return Some(text3("workstream ", id, " retained a schema placeholder title"));
    }
    if contains_text(earlier_ids, id) {
        let mut message = "duplicate workstream ID: ".to_owned();
        message.push_str(id);
        return Some(message);
    }
    assert(w@.evidence.len() == w.evidence_event_ids@.len());
    if w.evidence_event_ids.len() == 0 {
        return Some(text3("workstream ", id, " has no evidence"));
    }
    if w.outcome.len() == 0 && w.decision.len() == 0 && w.trade_off.len() == 0
        && w.validation.len() == 0 && w.blocker.len() == 0 && w.follow_up.len() == 0 {
        return Some(text3("workstream ", id, " has no factual fields"));
    }
    assert(w@.facts().len() > 0);
    match check_all_facts(w) {
        Some(error) => Some(error),
        None => check_evidence(id, &w.evidence_event_ids, expected, covered),
    }
}

fn check_workstreams(ws: &Vec<StructuredWorkstream>, expected: &Vec<String>) -> (r: (
    Option<String>,
    Vec<String>,
))
    ensures
        error_is(r.0, workstreams_error(workstream_views(ws@), views(expected@))),
        views(r.1@) == evidence_of(workstream_views(ws@)),
{
    broadcast use lemma_views_push;
    let ghost all = workstream_views(ws@);
    let ghost all_ids = ids_of_workstreams(all);
    let mut error: Option<String> = None;
    let mut ids: Vec<String> = Vec::new();
    let mut covered: Vec<String> = Vec::new();
    let mut i: usize = 0;
    assert(all.take(0) =~= Seq::<WorkstreamView>::empty());
    assert(views(ids@) =~= all_ids.take(0));
    assert(views(covered@) =~= Seq::<Seq<char>>::empty());
    while i < ws.len()
        invariant
            i <= ws@.len(),
            all == workstream_views(ws@),
            all_ids == ids_of_workstreams(all),
            views(ids@) == all_ids.take(i as int),
            views(covered@) == evidence_of(all.take(i as int)),
            error_is(error, workstreams_error(all.take(i as int), views(expected@))),
        decreases ws@.len() - i,
    {
        proof {
            lemma_take_step(all, i as int);
            lemma_take_step(all_ids, i as int);
            assert(ids_of_workstreams(all.take(i as int)) =~= all_ids.take(i as int));
        }
        let w = &ws[i];
        if error.is_none() {
            error = check_workstream(w, &ids, &covered, expected, Ghost(all.take(i as int)));
        }
        ids.push(w.id.as_str().to_owned());
        push_texts(&mut covered, &w.evidence_event_ids);
        i += 1;
    }
    assert(all.take(i as int) =~= all);
    (error, covered)
}

fn missing_texts(covered: &Vec<String>, expected: &Vec<String>) -> (r: Vec<String>)
    ensures
        views(r@) == missing_from(views(covered@), views(expected@)),
{
    broadcast use lemma_views_push;
    let ghost all = views(expected@);
    let mut r: Vec<String> = Vec::new();
    let mut i: usize = 0;
    assert(all.take(0) =~= Seq::<Seq<char>>::empty());
    assert(views(r@) =~= Seq::<Seq<char>>::empty());
    while i < expected.len()
        invariant
            i <= expected@.len(),
            all == views(expected@),
            views(r@) == missing_from(views(covered@), all.take(i as int)),
        decreases expected@.len() - i,
    {
        proof {
            lemma_take_step(all, i as int);
        }
        if !contains_text(covered, expected[i].as_str()) {
            r.push(expected[i].as_str().to_owned());
        }
        i += 1;
    }
    assert(all.take(i as int) =~= all);
    r
}

/// Why a draft that was read is not accepted.
fn check_daily_draft(draft: &StructuredDailyDraft, expected_event_ids: &Vec<String>) -> (r: Result<
    StructuredDailyDraft,
    String,
>)
    ensures
        match draft_error(reduced_draft(draft@), views(expected_event_ids@)) {
            Some(error) => r is Err && r->Err_0@ == error,
            None => r is Ok && r->Ok_0@ == reduced_draft(draft@),
        },
{
    let draft = deduplicate_daily_facts(draft);
    assert(workstream_views(draft.workstreams@).len() == draft.workstreams@.len());
    if draft.workstreams.len() == 0 {
        return Err("LLM daily draft must contain at least one workstream".to_owned());
    }
    let expected = ordered_set_of(expected_event_ids);
    assert(views(expected@).len() == expected@.len());
    assert(views(expected_event_ids@).len() == expected_event_ids@.len());
    if expected.len() != expected_event_ids.len() {
        return Err("evidence snapshot contains duplicate event IDs".to_owned());
    }
    let (error, covered) = check_workstreams(&draft.workstreams, expected_event_ids);
    if let Some(error) = error {
        return Err(error);
    }
    let missing = missing_texts(&covered, &expected);
    assert(views(missing@).len() == missing@.len());
    if missing.len() > 0 {
        let mut message = "daily draft omitted evidence: ".to_owned();
        message.push_str(join(&missing, ", ").as_str());
        return Err(message);
    }
    Ok(draft)
}

/// The draft that a model's answer stands for, or why it stands for none.
pub open spec fn read_draft(decoded: Result<StructuredDailyDraft, String>) -> Result<
    DraftView,
    Seq<char>,
> {
    match decoded {
        Ok(draft) => Ok(reduced_draft(draft@)),
        Err(error) => Err("LLM daily draft did not match the structured schema: "@ + error@),
    }
}

/// Accepts a draft that a model handed back, with facts that say the same
/// joined, if it uses every expected event exactly once and no other.
/// `decoded` is what the answer says as JSON, or why it says nothing.
pub fn parse_strict_daily_draft(
    decoded: &Result<StructuredDailyDraft, String>,
    expected_event_ids: &Vec<String>,
) -> (r: Result<StructuredDailyDraft, String>)
    ensures
        match read_draft(*decoded) {
            Err(error) => r is Err && r->Err_0@ == error,
            Ok(draft) => match draft_error(draft, views(expected_event_ids@)) {
                Some(error) => r is Err && r->Err_0@ == error,
                None => r is Ok && r->Ok_0@ == draft,
            },
        },
{
    match decoded {
        Ok(draft) => check_daily_draft(draft, expected_event_ids),
        Err(error) => {
            let mut message = "LLM daily draft did not match the structured schema: ".to_owned();
            message.push_str(error.as_str());
            Err(message)
        },
    }
}

} // verus!
