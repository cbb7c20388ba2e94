//! What holds of every Daily draft that is accepted.
use crate::drafts::{
    DraftView, FactView, WorkstreamView, citation_error, draft_error, evidence_error,
    evidence_of, fact_at, fact_key, facts_error, ids_of_workstreams, missing_from, reduced,
    workstreams_error,
};
use crate::json::{JsonView, texts_of_field};
use crate::knowledge::{event_ids, with_key};
use crate::models::StoredLogEvent;
use crate::ordered::{
    increasing, lemma_ordered_set, lemma_precedes_irreflexive, ordered_set, precedes,
};
use crate::prompt::{allowed_links, resolved_key, resolved_keys};
use crate::proposals::{
    allowed_among, answer_proposal, answer_workstream_links, cites, daily_proposal,
    fallback_view, group_error, lifecycle_error, lifecycles_error, records_decision,
    records_validation, texts_among, workstream_with_id,
};
use crate::text::trimmed;
use vstd::prelude::*;
use vstd::string::*;

verus! {

proof fn lemma_no_evidence_error(
    id: Seq<char>,
    evidence: Seq<Seq<char>>,
    expected: Seq<Seq<char>>,
    covered: Seq<Seq<char>>,
)
    requires
        evidence_error(id, evidence, expected, covered) is None,
        covered.no_duplicates(),
    ensures
        (covered + evidence).no_duplicates(),
        forall|i: int| 0 <= i < evidence.len() ==> expected.contains(#[trigger] evidence[i]),
    decreases evidence.len(),
{
    if evidence.len() == 0 {
        assert(covered + evidence =~= covered);
    } else {
        let init = evidence.drop_last();
        lemma_no_evidence_error(id, init, expected, covered);
        let before = covered + init;
        let after = covered + evidence;
        assert(after =~= before.push(evidence.last()));
        assert forall|i: int, j: int|
            0 <= i < after.len() && 0 <= j < after.len() && i != j implies after[i] != after[j] by {
            if i == before.len() {
                assert(before.contains(before[j]));
            } else if j == before.len() {
                assert(before.contains(before[i]));
            }
        }
        assert forall|i: int| 0 <= i < evidence.len() implies expected.contains(
            #[trigger] evidence[i],
        ) by {
            if i < init.len() {
                assert(init[i] == evidence[i]);
            }
        }
    }
}

proof fn lemma_no_citation_error(
    id: Seq<char>,
    cited: Seq<Seq<char>>,
    evidence: Seq<Seq<char>>,
)
    requires
        citation_error(id, cited, evidence) is None,
    ensures
        forall|i: int| 0 <= i < cited.len() ==> evidence.contains(#[trigger] cited[i]),
    decreases cited.len(),
{
    if cited.len() > 0 {
        lemma_no_citation_error(id, cited.drop_last(), evidence);
        assert forall|i: int| 0 <= i < cited.len() implies evidence.contains(
            #[trigger] cited[i],
        ) by {
            if i < cited.len() - 1 {
                assert(cited.drop_last()[i] == cited[i]);
            }
        }
    }
}

/// Whether a fact says something and cites only evidence of its workstream.
pub open spec fn is_supported(fact: FactView, evidence: Seq<Seq<char>>) -> bool {
    &&& trimmed(fact.text).len() > 0
    &&& fact.evidence.len() > 0
    &&& forall|i: int| 0 <= i < fact.evidence.len() ==> evidence.contains(#[trigger] fact.evidence[i])
}

proof fn lemma_no_facts_error(id: Seq<char>, facts: Seq<FactView>, evidence: Seq<Seq<char>>)
    requires
        facts_error(id, facts, evidence) is None,
    ensures
        forall|i: int| 0 <= i < facts.len() ==> is_supported(#[trigger] facts[i], evidence),
    decreases facts.len(),
{
    if facts.len() > 0 {
        lemma_no_facts_error(id, facts.drop_last(), evidence);
        lemma_no_citation_error(id, facts.last().evidence, evidence);
        assert forall|i: int| 0 <= i < facts.len() implies is_supported(
            #[trigger] facts[i],
            evidence,
        ) by {
            if i < facts.len() - 1 {
                assert(facts.drop_last()[i] == facts[i]);
            }
        }
    }
}

proof fn lemma_no_workstreams_error(ws: Seq<WorkstreamView>, expected: Seq<Seq<char>>)
    requires
        workstreams_error(ws, expected) is None,
    ensures
        evidence_of(ws).no_duplicates(),
        forall|i: int|
            0 <= i < evidence_of(ws).len() ==> expected.contains(#[trigger] evidence_of(ws)[i]),
        ids_of_workstreams(ws).no_duplicates(),
        forall|k: int, i: int|
            0 <= k < ws.len() && 0 <= i < ws[k].facts().len() ==> is_supported(
                #[trigger] ws[k].facts()[i],
                ws[k].evidence,
            ),
        forall|k: int| 0 <= k < ws.len() ==> (#[trigger] ws[k]).evidence.len() > 0,
        forall|k: int| 0 <= k < ws.len() ==> (#[trigger] ws[k]).facts().len() > 0,
    decreases ws.len(),
{
    if ws.len() > 0 {
        let init = ws.drop_last();
        let w = ws.last();
        lemma_no_workstreams_error(init, expected);
        lemma_no_evidence_error(w.id, w.evidence, expected, evidence_of(init));
        lemma_no_facts_error(w.id, w.facts(), w.evidence);
        let all = evidence_of(ws);
        assert forall|i: int| 0 <= i < all.len() implies expected.contains(#[trigger] all[i]) by {
            if i < evidence_of(init).len() {
                assert(all[i] == evidence_of(init)[i]);
            } else {
                assert(all[i] == w.evidence[i - evidence_of(init).len()]);
            }
        }
        let ids = ids_of_workstreams(ws);
        let before = ids_of_workstreams(init);
        assert(ids =~= before.push(w.id));
        assert forall|i: int, j: int|
            0 <= i < ids.len() && 0 <= j < ids.len() && i != j implies ids[i] != ids[j] by {
            if i == before.len() {
                assert(before.contains(before[j]));
            } else if j == before.len() {
                assert(before.contains(before[i]));
            }
        }
        assert forall|k: int, i: int|
            0 <= k < ws.len() && 0 <= i < ws[k].facts().len() implies is_supported(
            #[trigger] ws[k].facts()[i],
            ws[k].evidence,
        ) by {
            if k < init.len() {
                assert(init[k] == ws[k]);
                assert(is_supported(init[k].facts()[i], init[k].evidence));
            }
        }
        assert forall|k: int| 0 <= k < ws.len() implies (#[trigger] ws[k]).evidence.len() > 0 by {
            if k < init.len() {
                assert(init[k] == ws[k]);
            }
        }
        assert forall|k: int| 0 <= k < ws.len() implies (#[trigger] ws[k]).facts().len() > 0 by {
            if k < init.len() {
                assert(init[k] == ws[k]);
            }
        }
    }
}

proof fn lemma_nothing_missing(covered: Seq<Seq<char>>, expected: Seq<Seq<char>>)
    requires
        missing_from(covered, expected).len() == 0,
    ensures
        forall|i: int| 0 <= i < expected.len() ==> covered.contains(#[trigger] expected[i]),
    decreases expected.len(),
{
    if expected.len() > 0 {
        lemma_nothing_missing(covered, expected.drop_last());
        assert forall|i: int| 0 <= i < expected.len() implies covered.contains(
            #[trigger] expected[i],
        ) by {
            if i < expected.len() - 1 {
                assert(expected.drop_last()[i] == expected[i]);
            }
        }
    }
}

/// An accepted draft uses every expected event exactly once and no other
/// event: no event is omitted, invented or used in two workstreams.
pub proof fn law_accepted_draft_uses_each_event_once(d: DraftView, expected: Seq<Seq<char>>)
    requires
        draft_error(d, expected) is None,
    ensures
        evidence_of(d.workstreams).no_duplicates(),
        forall|e: Seq<char>|
            evidence_of(d.workstreams).contains(e) <==> #[trigger] expected.contains(e),
{
    let covered = evidence_of(d.workstreams);
    lemma_no_workstreams_error(d.workstreams, expected);
    lemma_nothing_missing(covered, ordered_set(expected));
    lemma_ordered_set(expected);
    assert forall|e: Seq<char>| covered.contains(e) <==> #[trigger] expected.contains(e) by {
        if covered.contains(e) {
            let i = choose|i: int| 0 <= i < covered.len() && covered[i] == e;
            assert(expected.contains(covered[i]));
        }
        if expected.contains(e) {
            assert(ordered_set(expected).contains(e));
            let i = choose|i: int|
                0 <= i < ordered_set(expected).len() && ordered_set(expected)[i] == e;
            assert(covered.contains(ordered_set(expected)[i]));
        }
    }
}

/// Every fact of an accepted draft says something and cites evidence, all of it
/// from the workstream that the fact stands in; and no two workstreams share
/// an ID.
pub proof fn law_accepted_facts_are_supported(d: DraftView, expected: Seq<Seq<char>>)
    requires
        draft_error(d, expected) is None,
    ensures
        ids_of_workstreams(d.workstreams).no_duplicates(),
        forall|k: int, i: int|
            0 <= k < d.workstreams.len() && 0 <= i < d.workstreams[k].facts().len()
                ==> is_supported(
                #[trigger] d.workstreams[k].facts()[i],
                d.workstreams[k].evidence,
            ),
        forall|k: int|
            0 <= k < d.workstreams.len() ==> (#[trigger] d.workstreams[k]).evidence.len() > 0
                && d.workstreams[k].facts().len() > 0,
{
    lemma_no_workstreams_error(d.workstreams, expected);
}

pub open spec fn fact_keys(facts: Seq<FactView>) -> Seq<Seq<char>> {
    facts.map_values(|f: FactView| fact_key(f.text))
}

proof fn lemma_fact_at(facts: Seq<FactView>, key: Seq<char>)
    ensures
        ({
            let at = fact_at(facts, key);
            &&& at < facts.len()
            &&& at >= 0 ==> fact_key(facts[at].text) == key
            &&& at < 0 ==> !fact_keys(facts).contains(key)
        }),
    decreases facts.len(),
{
    if facts.len() > 0 {
        lemma_fact_at(facts.drop_last(), key);
        if fact_at(facts, key) < 0 && fact_keys(facts).contains(key) {
            let i = choose|i: int| 0 <= i < facts.len() && fact_keys(facts)[i] == key;
            assert(i < facts.len() - 1);
            assert(fact_keys(facts.drop_last())[i] == key);
        }
    }
}

/// After facts that say the same were joined, no two facts of a field say the
/// same.
pub proof fn law_joined_facts_differ(facts: Seq<FactView>)
    ensures
        fact_keys(reduced(facts)).no_duplicates(),
    decreases facts.len(),
{
    if facts.len() > 0 {
        law_joined_facts_differ(facts.drop_last());
        let before = reduced(facts.drop_last());
        let key = fact_key(facts.last().text);
        let at = fact_at(before, key);
        lemma_fact_at(before, key);
        let after = reduced(facts);
        if at >= 0 {
            assert(fact_keys(after) =~= fact_keys(before));
        } else {
            let ks = fact_keys(before);
            assert(fact_keys(after) =~= ks.push(key));
            assert forall|i: int, j: int|
                0 <= i < ks.push(key).len() && 0 <= j < ks.push(key).len() && i
                    != j implies ks.push(key)[i] != ks.push(key)[j] by {
                if i == ks.len() {
                    assert(ks.contains(ks[j]));
                } else if j == ks.len() {
                    assert(ks.contains(ks[i]));
                }
            }
        }
    }
}


proof fn lemma_increasing_distinct(s: Seq<Seq<char>>)
    requires
        increasing(s),
    ensures
        s.no_duplicates(),
{
    assert forall|i: int, j: int|
        0 <= i < s.len() && 0 <= j < s.len() && i != j implies s[i] != s[j] by {
        if i < j {
            assert(precedes(s[i], s[j]));
        } else {
            assert(precedes(s[j], s[i]));
        }
        lemma_precedes_irreflexive(s[i]);
    }
}

proof fn lemma_groups_known(
    ws: Seq<WorkstreamView>,
    events: Seq<&StoredLogEvent>,
    keys: Seq<Seq<char>>,
)
    requires
        group_error(ws, events, keys) is None,
    ensures
        forall|k: int| 0 <= k < ws.len() ==> ordered_set(keys).contains(#[trigger] ws[k].id),
        forall|k: int|
            0 <= k < ws.len() ==> ordered_set((#[trigger] ws[k]).evidence) == ordered_set(
                event_ids(with_key(events, keys, ws[k].id)),
            ),
    decreases ws.len(),
{
    if ws.len() > 0 {
        let init = ws.drop_last();
        lemma_groups_known(init, events, keys);
        assert forall|k: int| 0 <= k < ws.len() implies ordered_set(keys).contains(
            #[trigger] ws[k].id,
        ) by {
            if k < init.len() {
                assert(init[k] == ws[k]);
            }
        }
        assert forall|k: int| 0 <= k < ws.len() implies ordered_set((#[trigger] ws[k]).evidence)
            == ordered_set(event_ids(with_key(events, keys, ws[k].id))) by {
            if k < init.len() {
                assert(init[k] == ws[k]);
            }
        }
    }
}

proof fn lemma_every_group_has_a_workstream(ids: Seq<Seq<char>>, groups: Seq<Seq<char>>)
    requires
        ids.no_duplicates(),
        groups.no_duplicates(),
        ids.len() == groups.len(),
        forall|k: int| 0 <= k < ids.len() ==> groups.contains(#[trigger] ids[k]),
    ensures
        forall|g: Seq<char>| #[trigger] groups.contains(g) ==> ids.contains(g),
{
    ids.unique_seq_to_set();
    groups.unique_seq_to_set();
    let a = ids.to_set();
    let b = groups.to_set();
    assert(a.subset_of(b)) by {
        assert forall|x: Seq<char>| a.contains(x) implies b.contains(x) by {
            let k = choose|k: int| 0 <= k < ids.len() && ids[k] == x;
            assert(groups.contains(ids[k]));
        }
    }
    vstd::set_lib::lemma_subset_equality(a, b);
    assert forall|g: Seq<char>| #[trigger] groups.contains(g) implies ids.contains(g) by {
        assert(b.contains(g));
        assert(a.contains(g));
    }
}

proof fn lemma_workstream_with_id(ws: Seq<WorkstreamView>, id: Seq<char>)
    ensures
        ids_of_workstreams(ws).contains(id) ==> workstream_with_id(ws, id) is Some,
        workstream_with_id(ws, id) is Some ==> workstream_with_id(ws, id)->0.id == id
            && ws.contains(workstream_with_id(ws, id)->0),
    decreases ws.len(),
{
    if ws.len() > 0 {
        let init = ws.drop_last();
        lemma_workstream_with_id(init, id);
        assert(ws[ws.len() - 1] == ws.last());
        if ws.last().id != id {
            if ids_of_workstreams(ws).contains(id) {
                let k = choose|k: int| 0 <= k < ws.len() && ids_of_workstreams(ws)[k] == id;
                assert(ids_of_workstreams(init)[k] == id);
            }
            if workstream_with_id(init, id) is Some {
                let w = workstream_with_id(init, id)->0;
                let k = choose|k: int| 0 <= k < init.len() && init[k] == w;
                assert(ws[k] == w);
            }
        }
    }
}

proof fn lemma_lifecycles(
    ws: Seq<WorkstreamView>,
    events: Seq<&StoredLogEvent>,
    context: JsonView,
    i: int,
)
    requires
        lifecycles_error(ws, events, context) is None,
        0 <= i < events.len(),
        workstream_with_id(ws, resolved_key(*events[i], context)) is Some,
    ensures
        lifecycle_error(
            workstream_with_id(ws, resolved_key(*events[i], context))->0,
            *events[i],
        ) is None,
    decreases events.len(),
{
    if i < events.len() - 1 {
        assert(events.drop_last()[i] == events[i]);
        lemma_lifecycles(ws, events.drop_last(), context, i);
    }
}

/// In an accepted proposal every event has a workstream of its own group, and
/// what the event records of a decision or a validation is cited there.
pub proof fn law_accepted_draft_keeps_decisions(
    draft: DraftView,
    context: JsonView,
    events: Seq<&StoredLogEvent>,
    provider: Seq<char>,
    i: int,
)
    requires
        daily_proposal(draft, context, events, provider) is Ok,
        0 <= i < events.len(),
    ensures
        exists|w: WorkstreamView|
            {
                &&& #[trigger] draft.workstreams.contains(w)
                &&& w.id == resolved_key(*events[i], context)
                &&& records_decision(*events[i]) ==> cites(w.decision, events[i].id@)
                &&& records_validation(*events[i]) ==> cites(w.validation, events[i].id@)
            },
{
    let ws = draft.workstreams;
    let keys = resolved_keys(events, context);
    let groups = ordered_set(keys);
    let ids = ids_of_workstreams(ws);
    lemma_no_workstreams_error(ws, event_ids(events));
    lemma_ordered_set(keys);
    lemma_increasing_distinct(groups);
    lemma_groups_known(ws, events, keys);
    assert forall|k: int| 0 <= k < ids.len() implies groups.contains(#[trigger] ids[k]) by {
        assert(ids[k] == ws[k].id);
    }
    lemma_every_group_has_a_workstream(ids, groups);
    let key = resolved_key(*events[i], context);
    assert(keys[i] == key);
    assert(keys.contains(key));
    assert(groups.contains(key));
    lemma_workstream_with_id(ws, key);
    let w = workstream_with_id(ws, key)->0;
    lemma_lifecycles(ws, events, context, i);
    assert(ws.contains(w));
}

/// Every proposal waits for review and names its evidence, whichever way it
/// came about.
pub proof fn law_proposals_wait_for_review(
    draft: DraftView,
    answer: JsonView,
    context: JsonView,
    events: Seq<&StoredLogEvent>,
    provider: Seq<char>,
    reason: Seq<char>,
)
    ensures
        daily_proposal(draft, context, events, provider) is Ok ==> {
            let p = daily_proposal(draft, context, events, provider)->Ok_0;
            p.requires_review && p.evidence_event_ids == event_ids(events)
        },
        answer_proposal(answer, context, events, provider).requires_review,
        answer_proposal(answer, context, events, provider).evidence_event_ids == event_ids(events),
        fallback_view(context, events, provider, reason).requires_review,
        fallback_view(context, events, provider, reason).evidence_event_ids == event_ids(events),
{
}

proof fn lemma_texts_among(texts: Seq<Seq<char>>, allowed: Seq<Seq<char>>)
    ensures
        forall|i: int|
            0 <= i < texts_among(texts, allowed).len() ==> allowed.contains(
                #[trigger] texts_among(texts, allowed)[i],
            ),
    decreases texts.len(),
{
    if texts.len() > 0 {
        let before = texts_among(texts.drop_last(), allowed);
        lemma_texts_among(texts.drop_last(), allowed);
        assert forall|i: int|
            0 <= i < texts_among(texts, allowed).len() implies allowed.contains(
            #[trigger] texts_among(texts, allowed)[i],
        ) by {
            if i < before.len() {
                assert(texts_among(texts, allowed)[i] == before[i]);
            }
        }
    }
}

proof fn lemma_allowed_among(items: Seq<JsonView>, allowed: Seq<Seq<char>>)
    ensures
        forall|i: int|
            0 <= i < allowed_among(items, allowed).len() ==> allowed.contains(
                #[trigger] allowed_among(items, allowed)[i],
            ),
    decreases items.len(),
{
    if items.len() > 0 {
        let before = allowed_among(items.drop_last(), allowed);
        lemma_allowed_among(items.drop_last(), allowed);
        assert forall|i: int|
            0 <= i < allowed_among(items, allowed).len() implies allowed.contains(
            #[trigger] allowed_among(items, allowed)[i],
        ) by {
            if i < before.len() {
                assert(allowed_among(items, allowed)[i] == before[i]);
            }
        }
    }
}

pub open spec fn all_allowed(links: Seq<Seq<char>>, allowed: Seq<Seq<char>>) -> bool {
    forall|i: int| 0 <= i < links.len() ==> allowed.contains(#[trigger] links[i])
}

/// A model cannot choose a link that it was not offered.
pub proof fn law_model_links_are_allowed(
    answer: JsonView,
    context: JsonView,
    events: Seq<&StoredLogEvent>,
    provider: Seq<char>,
)
    ensures
        all_allowed(
            answer_proposal(answer, context, events, provider).canonical_links,
            allowed_links(context),
        ),
{
    let allowed = allowed_links(context);
    lemma_texts_among(texts_of_field(answer, "canonical_links"@), allowed);
    let links = answer_proposal(answer, context, events, provider).canonical_links;
    assert forall|i: int| 0 <= i < links.len() implies allowed.contains(#[trigger] links[i]) by {
        let from_workstreams = answer_workstream_links(answer, context);
        if from_workstreams.len() > 0 {
            let items = answer.list_field("workstreams"@)->0;
            let chosen = allowed_among(items, allowed);
            lemma_allowed_among(items, allowed);
            lemma_ordered_set(chosen);
            assert(from_workstreams.contains(links[i]));
            let k = choose|k: int| 0 <= k < chosen.len() && chosen[k] == links[i];
            assert(allowed.contains(chosen[k]));
        } else if links == allowed {
            assert(allowed.contains(allowed[i]));
        }
    }
}

} // verus!
