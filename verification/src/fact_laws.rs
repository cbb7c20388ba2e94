//! What becomes of the facts of a draft, and which drafts are accepted.
use crate::drafts::{
    DraftView, FactView, StructuredDailyDraft, WorkstreamView, citation_error, draft_error,
    evidence_error, evidence_of, fact_at, fact_key, facts_error, ids_of_workstreams,
    is_placeholder, merged, missing_from, read_draft, reduced, workstreams_error,
};
use crate::ordered::{
    increasing, inserted, lemma_ordered_set, lemma_ordered_set_len, lemma_precedes_irreflexive,
    lemma_precedes_transitive, lemma_push_contains, ordered_set, precedes,
};
use crate::text::{ascii_lowered, finishes_with, joined, lowercased, occurs, trimmed, words};
use vstd::prelude::*;
use vstd::string::*;

verus! {

/// Whether two texts have the same words, without regard to case.
pub open spec fn same_words(a: Seq<char>, b: Seq<char>) -> bool {
    lowercased(joined(words(a), " "@)) == lowercased(joined(words(b), " "@))
}

/// Whether a text is that of a fact, and of no later one with the same words.
pub open spec fn told_first(facts: Seq<FactView>, text: Seq<char>) -> bool {
    exists|j: int|
        0 <= j < facts.len() && (#[trigger] facts[j]).text == text && (forall|i: int|
            0 <= i < j ==> !same_words((#[trigger] facts[i]).text, text))
}

/// Whether a fact is kept: one with the same words is there that cites all that it
/// cites.
pub open spec fn keeps_fact(result: Seq<FactView>, fact: FactView) -> bool {
    exists|i: int|
        0 <= i < result.len() && same_words((#[trigger] result[i]).text, fact.text) && (forall|
            e: Seq<char>,
        | #[trigger]
            fact.evidence.contains(e) ==> result[i].evidence.contains(e))
}

/// Whether a fact with the same words cites an event.
pub open spec fn cited_for(facts: Seq<FactView>, text: Seq<char>, e: Seq<char>) -> bool {
    exists|j: int|
        0 <= j < facts.len() && same_words((#[trigger] facts[j]).text, text)
            && facts[j].evidence.contains(e)
}

/// Whether one text was told before another.
pub open spec fn told_before(facts: Seq<FactView>, a: Seq<char>, b: Seq<char>) -> bool {
    exists|i: int, j: int|
        0 <= i < j < facts.len() && (#[trigger] facts[i]).text == a && (#[trigger] facts[j]).text
            == b
}

/// Every fact of a list was told, in its first wording.
pub open spec fn all_told(result: Seq<FactView>, facts: Seq<FactView>) -> bool {
    forall|i: int| 0 <= i < result.len() ==> told_first(facts, (#[trigger] result[i]).text)
}

/// Every fact is kept in a list.
pub open spec fn all_kept(result: Seq<FactView>, facts: Seq<FactView>) -> bool {
    forall|j: int| 0 <= j < facts.len() ==> keeps_fact(result, #[trigger] facts[j])
}

/// Every fact of a list cites only what facts with the same words cite, and
/// nothing twice.
pub open spec fn all_cited(result: Seq<FactView>, facts: Seq<FactView>) -> bool {
    forall|i: int|
        0 <= i < result.len() ==> cites_for(facts, #[trigger] result[i])
}

/// Whether a fact cites what facts with the same words cite, nothing twice.
pub open spec fn cites_for(facts: Seq<FactView>, fact: FactView) -> bool {
    &&& fact.evidence.no_duplicates()
    &&& forall|e: Seq<char>| #[trigger]
        fact.evidence.contains(e) ==> cited_for(facts, fact.text, e)
}

/// The facts of a list stand in the order in which they were told.
pub open spec fn in_told_order(result: Seq<FactView>, facts: Seq<FactView>) -> bool {
    forall|i: int, j: int|
        0 <= i < j < result.len() ==> told_before(
            facts,
            (#[trigger] result[i]).text,
            (#[trigger] result[j]).text,
        )
}

/// No two facts of a list have the same words.
pub open spec fn all_differ(result: Seq<FactView>) -> bool {
    forall|i: int, j: int|
        0 <= i < j < result.len() ==> !same_words(
            (#[trigger] result[i]).text,
            (#[trigger] result[j]).text,
        )
}

/// Whether some facts are those of a field, where facts with the same words are
/// one: nothing is lost, nothing is added, the first wording stands, and each
/// cites what the facts that it joins cite.
#[verifier::opaque]
pub open spec fn are_joined(result: Seq<FactView>, facts: Seq<FactView>) -> bool {
    &&& all_told(result, facts)
    &&& all_kept(result, facts)
    &&& all_cited(result, facts)
    &&& in_told_order(result, facts)
    &&& all_differ(result)
}

proof fn lemma_merged(a: Seq<Seq<char>>, b: Seq<Seq<char>>, e: Seq<char>)
    ensures
        merged(a, b).contains(e) <==> a.contains(e) || b.contains(e),
        a.no_duplicates() ==> merged(a, b).no_duplicates(),
    decreases b.len(),
{
    if b.len() > 0 {
        let init = b.drop_last();
        lemma_merged(a, init, e);
        let before = merged(a, init);
        assert(b =~= init.push(b.last()));
        lemma_push_contains(init, b.last(), e);
        lemma_push_contains(before, b.last(), e);
        if a.no_duplicates() && !before.contains(b.last()) {
            let all = before.push(b.last());
            assert forall|i: int, j: int|
                0 <= i < all.len() && 0 <= j < all.len() && i != j implies all[i] != all[j] by {
                if i == before.len() {
                    assert(before.contains(before[j]));
                } else if j == before.len() {
                    assert(before.contains(before[i]));
                }
            }
        }
    }
}

proof fn lemma_fact_at_is(facts: Seq<FactView>, text: Seq<char>)
    ensures
        ({
            let at = fact_at(facts, lowercased(joined(words(text), " "@)));
            &&& at < facts.len()
            &&& at >= 0 ==> same_words(facts[at].text, text)
            &&& at < 0 ==> forall|i: int|
                0 <= i < facts.len() ==> !same_words((#[trigger] facts[i]).text, text)
        }),
    decreases facts.len(),
{
    if facts.len() > 0 {
        let init = facts.drop_last();
        lemma_fact_at_is(init, text);
        let at = fact_at(facts, lowercased(joined(words(text), " "@)));
        if at < 0 {
            assert forall|i: int| 0 <= i < facts.len() implies !same_words(
                (#[trigger] facts[i]).text,
                text,
            ) by {
                if i < init.len() {
                    assert(init[i] == facts[i]);
                }
            }
        }
    }
}

proof fn lemma_told_longer(facts: Seq<FactView>, last: FactView, text: Seq<char>)
    requires
        told_first(facts, text),
    ensures
        told_first(facts.push(last), text),
{
    let j = choose|j: int|
        0 <= j < facts.len() && (#[trigger] facts[j]).text == text && (forall|i: int|
            0 <= i < j ==> !same_words((#[trigger] facts[i]).text, text));
    let all = facts.push(last);
    assert(all[j].text == text);
    assert forall|i: int| 0 <= i < j implies !same_words((#[trigger] all[i]).text, text) by {
        assert(all[i] == facts[i]);
    }
}

proof fn lemma_cited_longer(facts: Seq<FactView>, last: FactView, text: Seq<char>, e: Seq<char>)
    requires
        cited_for(facts, text, e),
    ensures
        cited_for(facts.push(last), text, e),
{
    let j = choose|j: int|
        0 <= j < facts.len() && same_words((#[trigger] facts[j]).text, text)
            && facts[j].evidence.contains(e);
    assert(facts.push(last)[j] == facts[j]);
}

proof fn lemma_told_before_longer(facts: Seq<FactView>, last: FactView, a: Seq<char>, b: Seq<char>)
    requires
        told_before(facts, a, b),
    ensures
        told_before(facts.push(last), a, b),
{
    let (i, j) = choose|i: int, j: int|
        0 <= i < j < facts.len() && (#[trigger] facts[i]).text == a && (#[trigger] facts[j]).text
            == b;
    let all = facts.push(last);
    assert(all[i].text == a && all[j].text == b);
}

proof fn lemma_keeps_updated(before: Seq<FactView>, at: int, next: FactView, fact: FactView)
    requires
        0 <= at < before.len(),
        next.text == before[at].text,
        forall|e: Seq<char>| #[trigger]
            before[at].evidence.contains(e) ==> next.evidence.contains(e),
        keeps_fact(before, fact),
    ensures
        keeps_fact(before.update(at, next), fact),
{
    let i = choose|i: int|
        0 <= i < before.len() && same_words((#[trigger] before[i]).text, fact.text) && (forall|
            e: Seq<char>,
        | #[trigger]
            fact.evidence.contains(e) ==> before[i].evidence.contains(e));
    let after = before.update(at, next);
    assert(same_words(after[i].text, fact.text));
    assert forall|e: Seq<char>| #[trigger] fact.evidence.contains(e) implies after[
        i
    ].evidence.contains(e) by {
        assert(before[i].evidence.contains(e));
    }
}

proof fn lemma_keeps_pushed(before: Seq<FactView>, next: FactView, fact: FactView)
    requires
        keeps_fact(before, fact),
    ensures
        keeps_fact(before.push(next), fact),
{
    let i = choose|i: int|
        0 <= i < before.len() && same_words((#[trigger] before[i]).text, fact.text) && (forall|
            e: Seq<char>,
        | #[trigger]
            fact.evidence.contains(e) ==> before[i].evidence.contains(e));
    assert(before.push(next)[i] == before[i]);
}

/// A fact that joins one of a list.
spec fn joining(fact: FactView, last: FactView) -> FactView {
    FactView {
        text: fact.text,
        evidence: merged(fact.evidence, merged(Seq::empty(), last.evidence)),
    }
}

proof fn lemma_joining(fact: FactView, last: FactView, e: Seq<char>)
    ensures
        joining(fact, last).evidence.contains(e) <==> fact.evidence.contains(e)
            || last.evidence.contains(e),
        fact.evidence.no_duplicates() ==> joining(fact, last).evidence.no_duplicates(),
{
    let own = merged(Seq::empty(), last.evidence);
    lemma_merged(Seq::empty(), last.evidence, e);
    lemma_merged(fact.evidence, own, e);
}

proof fn lemma_update_told(facts: Seq<FactView>, last: FactView, before: Seq<FactView>, at: int)
    requires
        all_told(before, facts),
        in_told_order(before, facts),
        all_differ(before),
        0 <= at < before.len(),
    ensures
        all_told(before.update(at, joining(before[at], last)), facts.push(last)),
        in_told_order(before.update(at, joining(before[at], last)), facts.push(last)),
        all_differ(before.update(at, joining(before[at], last))),
{
    let result = before.update(at, joining(before[at], last));
    let all = facts.push(last);
    assert forall|i: int| 0 <= i < result.len() implies told_first(
        all,
        (#[trigger] result[i]).text,
    ) by {
        assert(result[i].text == before[i].text);
        assert(told_first(facts, before[i].text));
        lemma_told_longer(facts, last, before[i].text);
    }
    assert forall|i: int, j: int| 0 <= i < j < result.len() implies told_before(
        all,
        (#[trigger] result[i]).text,
        (#[trigger] result[j]).text,
    ) by {
        assert(result[i].text == before[i].text && result[j].text == before[j].text);
        assert(told_before(facts, before[i].text, before[j].text));
        lemma_told_before_longer(facts, last, before[i].text, before[j].text);
    }
    assert forall|i: int, j: int| 0 <= i < j < result.len() implies !same_words(
        (#[trigger] result[i]).text,
        (#[trigger] result[j]).text,
    ) by {
        assert(result[i].text == before[i].text && result[j].text == before[j].text);
        assert(!same_words(before[i].text, before[j].text));
    }
}

proof fn lemma_update_kept(facts: Seq<FactView>, last: FactView, before: Seq<FactView>, at: int)
    requires
        all_kept(before, facts),
        0 <= at < before.len(),
        same_words(before[at].text, last.text),
    ensures
        all_kept(before.update(at, joining(before[at], last)), facts.push(last)),
{
    let next = joining(before[at], last);
    let result = before.update(at, next);
    let all = facts.push(last);
    assert forall|e: Seq<char>| #[trigger] before[at].evidence.contains(
        e,
    ) implies next.evidence.contains(e) by {
        lemma_joining(before[at], last, e);
    }
    assert forall|j: int| 0 <= j < all.len() implies keeps_fact(result, #[trigger] all[j]) by {
        if j < facts.len() {
            assert(all[j] == facts[j]);
            assert(keeps_fact(before, facts[j]));
            lemma_keeps_updated(before, at, next, facts[j]);
        } else {
            assert(all[j] == last);
            assert(result[at] == next);
            assert forall|e: Seq<char>| #[trigger] last.evidence.contains(
                e,
            ) implies next.evidence.contains(e) by {
                lemma_joining(before[at], last, e);
            }
            assert(same_words(result[at].text, last.text));
        }
    }
}

proof fn lemma_update_cited(facts: Seq<FactView>, last: FactView, before: Seq<FactView>, at: int)
    requires
        all_cited(before, facts),
        0 <= at < before.len(),
        same_words(before[at].text, last.text),
    ensures
        all_cited(before.update(at, joining(before[at], last)), facts.push(last)),
{
    let next = joining(before[at], last);
    let result = before.update(at, next);
    let all = facts.push(last);
    assert(all[facts.len() as int] == last);
    assert forall|i: int| 0 <= i < result.len() implies cites_for(all, #[trigger] result[i]) by {
        let fact = result[i];
        assert(cites_for(facts, before[i]));
        lemma_joining(before[at], last, last.text);
        assert forall|e: Seq<char>| #[trigger] fact.evidence.contains(e) implies cited_for(
            all,
            fact.text,
            e,
        ) by {
            lemma_joining(before[at], last, e);
            if before[i].evidence.contains(e) {
                lemma_cited_longer(facts, last, before[i].text, e);
            } else {
                assert(i == at);
                assert(same_words(all[facts.len() as int].text, fact.text));
            }
        }
    }
}

/// A fact of its own, with what it cites.
spec fn standing(last: FactView) -> FactView {
    FactView { text: last.text, evidence: merged(Seq::empty(), last.evidence) }
}

proof fn lemma_push_told(facts: Seq<FactView>, last: FactView, before: Seq<FactView>)
    requires
        all_told(before, facts),
        all_kept(before, facts),
        forall|i: int|
            0 <= i < before.len() ==> !same_words((#[trigger] before[i]).text, last.text),
    ensures
        all_told(before.push(standing(last)), facts.push(last)),
{
    let result = before.push(standing(last));
    let all = facts.push(last);
    let n = facts.len() as int;
    assert(all[n] == last);
    assert forall|k: int| 0 <= k < n implies !same_words((#[trigger] all[k]).text, last.text) by {
        assert(all[k] == facts[k]);
        assert(keeps_fact(before, facts[k]));
        let i = choose|i: int|
            0 <= i < before.len() && same_words((#[trigger] before[i]).text, facts[k].text) && (
            forall|e: Seq<char>| #[trigger]
                facts[k].evidence.contains(e) ==> before[i].evidence.contains(e));
        assert(!same_words(before[i].text, last.text));
    }
    assert forall|i: int| 0 <= i < result.len() implies told_first(
        all,
        (#[trigger] result[i]).text,
    ) by {
        if i < before.len() {
            assert(result[i] == before[i]);
            assert(told_first(facts, before[i].text));
            lemma_told_longer(facts, last, before[i].text);
        } else {
            assert(all[n].text == result[i].text);
        }
    }
}

proof fn lemma_push_order(facts: Seq<FactView>, last: FactView, before: Seq<FactView>)
    requires
        all_told(before, facts),
        in_told_order(before, facts),
        all_differ(before),
        forall|i: int|
            0 <= i < before.len() ==> !same_words((#[trigger] before[i]).text, last.text),
    ensures
        in_told_order(before.push(standing(last)), facts.push(last)),
        all_differ(before.push(standing(last))),
{
    let result = before.push(standing(last));
    let all = facts.push(last);
    let n = facts.len() as int;
    assert(all[n] == last);
    assert forall|i: int, j: int| 0 <= i < j < result.len() implies told_before(
        all,
        (#[trigger] result[i]).text,
        (#[trigger] result[j]).text,
    ) by {
        assert(result[i] == before[i]);
        if j < before.len() {
            assert(result[j] == before[j]);
            assert(told_before(facts, before[i].text, before[j].text));
            lemma_told_before_longer(facts, last, before[i].text, before[j].text);
        } else {
            assert(told_first(facts, before[i].text));
            let k = choose|k: int|
                0 <= k < facts.len() && (#[trigger] facts[k]).text == before[i].text && (forall|
                    m: int,
                |
                    0 <= m < k ==> !same_words((#[trigger] facts[m]).text, before[i].text));
            assert(all[k].text == result[i].text && all[n].text == result[j].text);
        }
    }
    assert forall|i: int, j: int| 0 <= i < j < result.len() implies !same_words(
        (#[trigger] result[i]).text,
        (#[trigger] result[j]).text,
    ) by {
        assert(result[i] == before[i]);
        if j < before.len() {
            assert(result[j] == before[j]);
            assert(!same_words(before[i].text, before[j].text));
        }
    }
}

proof fn lemma_push_kept(facts: Seq<FactView>, last: FactView, before: Seq<FactView>)
    requires
        all_kept(before, facts),
        all_cited(before, facts),
    ensures
        all_kept(before.push(standing(last)), facts.push(last)),
        all_cited(before.push(standing(last)), facts.push(last)),
{
    let next = standing(last);
    let result = before.push(next);
    let all = facts.push(last);
    let n = before.len() as int;
    assert(all[facts.len() as int] == last);
    assert forall|j: int| 0 <= j < all.len() implies keeps_fact(result, #[trigger] all[j]) by {
        if j < facts.len() {
            assert(all[j] == facts[j]);
            assert(keeps_fact(before, facts[j]));
            lemma_keeps_pushed(before, next, facts[j]);
        } else {
            assert(all[j] == last);
            assert(result[n] == next);
            assert forall|e: Seq<char>| #[trigger] last.evidence.contains(
                e,
            ) implies next.evidence.contains(e) by {
                lemma_merged(Seq::empty(), last.evidence, e);
            }
            assert(same_words(result[n].text, last.text));
        }
    }
    assert forall|i: int| 0 <= i < result.len() implies cites_for(all, #[trigger] result[i]) by {
        let fact = result[i];
        lemma_merged(Seq::empty(), last.evidence, last.text);
        if i < n {
            assert(fact == before[i]);
            assert(cites_for(facts, before[i]));
        }
        assert forall|e: Seq<char>| #[trigger] fact.evidence.contains(e) implies cited_for(
            all,
            fact.text,
            e,
        ) by {
            if i < n {
                lemma_cited_longer(facts, last, before[i].text, e);
            } else {
                lemma_merged(Seq::empty(), last.evidence, e);
                assert(same_words(all[facts.len() as int].text, fact.text));
            }
        }
    }
}

proof fn lemma_joined_update(facts: Seq<FactView>, last: FactView, before: Seq<FactView>, at: int)
    requires
        are_joined(before, facts),
        0 <= at < before.len(),
        same_words(before[at].text, last.text),
    ensures
        are_joined(before.update(at, joining(before[at], last)), facts.push(last)),
{
    reveal(are_joined);
    lemma_update_told(facts, last, before, at);
    lemma_update_kept(facts, last, before, at);
    lemma_update_cited(facts, last, before, at);
}

proof fn lemma_joined_push(facts: Seq<FactView>, last: FactView, before: Seq<FactView>)
    requires
        are_joined(before, facts),
        forall|i: int|
            0 <= i < before.len() ==> !same_words((#[trigger] before[i]).text, last.text),
    ensures
        are_joined(before.push(standing(last)), facts.push(last)),
{
    reveal(are_joined);
    lemma_push_told(facts, last, before);
    lemma_push_order(facts, last, before);
    lemma_push_kept(facts, last, before);
}

/// Joining the facts of a field loses none and adds none.
pub proof fn law_joined_facts_are_the_facts(facts: Seq<FactView>)
    ensures
        are_joined(reduced(facts), facts),
    decreases facts.len(),
{
    if facts.len() > 0 {
        let init = facts.drop_last();
        let last = facts.last();
        law_joined_facts_are_the_facts(init);
        let before = reduced(init);
        lemma_fact_at_is(before, last.text);
        let at = fact_at(before, fact_key(last.text));
        assert(facts =~= init.push(last));
        if at >= 0 {
            lemma_joined_update(init, last, before, at);
            assert(reduced(facts) == before.update(at, joining(before[at], last)));
        } else {
            lemma_joined_push(init, last, before);
            assert(reduced(facts) == before.push(standing(last)));
        }
    } else {
        reveal(are_joined);
    }
}

/// Whether a workstream is another one with the facts of each field joined where
/// they stand.
pub open spec fn keeps_fields(result: WorkstreamView, w: WorkstreamView) -> bool {
    &&& result.id == w.id
    &&& result.title == w.title
    &&& result.evidence == w.evidence
    &&& are_joined(result.outcome, w.outcome)
    &&& are_joined(result.decision, w.decision)
    &&& are_joined(result.trade_off, w.trade_off)
    &&& are_joined(result.validation, w.validation)
    &&& are_joined(result.blocker, w.blocker)
    &&& are_joined(result.follow_up, w.follow_up)
}

/// A draft that was read keeps its workstreams and questions, and each fact stays
/// in its field: what the answer says in a field is said there in the draft, up
/// to case and white space, and nothing else is.
pub proof fn law_facts_stay_in_their_fields(decoded: Result<StructuredDailyDraft, String>)
    requires
        decoded is Ok,
    ensures
        read_draft(decoded) is Ok,
        read_draft(decoded)->Ok_0.open_questions == decoded->Ok_0@.open_questions,
        read_draft(decoded)->Ok_0.workstreams.len() == decoded->Ok_0@.workstreams.len(),
        forall|k: int|
            0 <= k < decoded->Ok_0@.workstreams.len() ==> keeps_fields(
                read_draft(decoded)->Ok_0.workstreams[k],
                #[trigger] decoded->Ok_0@.workstreams[k],
            ),
{
    let ws = decoded->Ok_0@.workstreams;
    assert forall|k: int| 0 <= k < ws.len() implies keeps_fields(
        read_draft(decoded)->Ok_0.workstreams[k],
        #[trigger] ws[k],
    ) by {
        let w = ws[k];
        law_joined_facts_are_the_facts(w.outcome);
        law_joined_facts_are_the_facts(w.decision);
        law_joined_facts_are_the_facts(w.trade_off);
        law_joined_facts_are_the_facts(w.validation);
        law_joined_facts_are_the_facts(w.blocker);
        law_joined_facts_are_the_facts(w.follow_up);
    }
}

/// An answer that could not be read is refused with what is wrong with it.
pub proof fn law_unread_draft_is_refused(decoded: Result<StructuredDailyDraft, String>)
    requires
        decoded is Err,
    ensures
        read_draft(decoded) is Err,
        finishes_with(read_draft(decoded)->Err_0, decoded->Err_0@),
{
    let message = read_draft(decoded)->Err_0;
    let error = decoded->Err_0@;
    assert(message.skip(message.len() - error.len()) =~= error);
}

/// Whether a fact stands in one of the fields of a workstream.
pub open spec fn stands_in(w: WorkstreamView, fact: FactView) -> bool {
    ||| w.outcome.contains(fact)
    ||| w.decision.contains(fact)
    ||| w.trade_off.contains(fact)
    ||| w.validation.contains(fact)
    ||| w.blocker.contains(fact)
    ||| w.follow_up.contains(fact)
}

proof fn lemma_facts_contain(a: Seq<FactView>, b: Seq<FactView>, f: FactView)
    ensures
        (a + b).contains(f) <==> a.contains(f) || b.contains(f),
{
    let all = a + b;
    if a.contains(f) {
        let k = choose|k: int| 0 <= k < a.len() && a[k] == f;
        assert(all[k] == f);
    }
    if b.contains(f) {
        let k = choose|k: int| 0 <= k < b.len() && b[k] == f;
        assert(all[a.len() + k] == f);
    }
    if all.contains(f) {
        let k = choose|k: int| 0 <= k < all.len() && all[k] == f;
        if k < a.len() {
            assert(a[k] == f);
        } else {
            assert(b[k - a.len()] == f);
        }
    }
}

proof fn lemma_facts_of(w: WorkstreamView, f: FactView)
    ensures
        w.facts().contains(f) <==> stands_in(w, f),
{
    lemma_facts_contain(w.outcome, w.decision, f);
    lemma_facts_contain(w.outcome + w.decision, w.trade_off, f);
    lemma_facts_contain(w.outcome + w.decision + w.trade_off, w.validation, f);
    lemma_facts_contain(w.outcome + w.decision + w.trade_off + w.validation, w.blocker, f);
    lemma_facts_contain(
        w.outcome + w.decision + w.trade_off + w.validation + w.blocker,
        w.follow_up,
        f,
    );
}

/// Whether a fact says something, and cites events of its workstream and no other.
pub open spec fn is_grounded(fact: FactView, evidence: Seq<Seq<char>>) -> bool {
    &&& trimmed(fact.text).len() > 0
    &&& fact.evidence.len() > 0
    &&& forall|e: Seq<char>| #[trigger] fact.evidence.contains(e) ==> evidence.contains(e)
}

/// Whether a workstream is fit to be accepted by itself: it has an ID and a title
/// that is not the wording of the request, it has evidence, it says something,
/// and all that it says is grounded in its evidence.
pub open spec fn is_fit(w: WorkstreamView) -> bool {
    &&& trimmed(w.id).len() > 0
    &&& trimmed(w.title).len() > 0
    &&& !occurs(ascii_lowered(w.title), "concise workstream"@)
    &&& !occurs(ascii_lowered(w.title), "workstream name"@)
    &&& w.evidence.len() > 0
    &&& exists|f: FactView| #[trigger] stands_in(w, f)
    &&& forall|f: FactView| #[trigger] stands_in(w, f) ==> is_grounded(f, w.evidence)
}

proof fn lemma_citations(id: Seq<char>, cited: Seq<Seq<char>>, evidence: Seq<Seq<char>>)
    ensures
        citation_error(id, cited, evidence) is None <==> forall|e: Seq<char>| #[trigger]
            cited.contains(e) ==> evidence.contains(e),
    decreases cited.len(),
{
    if cited.len() > 0 {
        let init = cited.drop_last();
        lemma_citations(id, init, evidence);
        assert(cited =~= init.push(cited.last()));
        if citation_error(id, cited, evidence) is None {
            assert forall|e: Seq<char>| #[trigger] cited.contains(e) implies evidence.contains(
                e,
            ) by {
                lemma_push_contains(init, cited.last(), e);
                if init.contains(e) {
                }
            }
        }
        if forall|e: Seq<char>| #[trigger] cited.contains(e) ==> evidence.contains(e) {
            assert forall|e: Seq<char>| #[trigger] init.contains(e) implies evidence.contains(
                e,
            ) by {
                lemma_push_contains(init, cited.last(), e);
                assert(cited.contains(e));
            }
            lemma_push_contains(init, cited.last(), cited.last());
            assert(cited.contains(cited.last()));
        }
    }
}

proof fn lemma_facts_error(id: Seq<char>, facts: Seq<FactView>, evidence: Seq<Seq<char>>)
    ensures
        facts_error(id, facts, evidence) is None <==> forall|f: FactView| #[trigger]
            facts.contains(f) ==> is_grounded(f, evidence),
    decreases facts.len(),
{
    if facts.len() > 0 {
        let init = facts.drop_last();
        let last = facts.last();
        lemma_facts_error(id, init, evidence);
        lemma_citations(id, last.evidence, evidence);
        assert(facts =~= init.push(last));
        if facts_error(id, facts, evidence) is None {
            assert forall|f: FactView| #[trigger] facts.contains(f) implies is_grounded(
                f,
                evidence,
            ) by {
                lemma_push_contains(init, last, f);
                if init.contains(f) {
                }
            }
        }
        if forall|f: FactView| #[trigger] facts.contains(f) ==> is_grounded(f, evidence) {
            assert forall|f: FactView| #[trigger] init.contains(f) implies is_grounded(
                f,
                evidence,
            ) by {
                lemma_push_contains(init, last, f);
                assert(facts.contains(f));
            }
            lemma_push_contains(init, last, last);
            assert(facts.contains(last));
        }
    }
}

proof fn lemma_evidence_error(
    id: Seq<char>,
    evidence: Seq<Seq<char>>,
    expected: Seq<Seq<char>>,
    covered: Seq<Seq<char>>,
)
    requires
        (covered + evidence).no_duplicates(),
        forall|i: int| 0 <= i < evidence.len() ==> expected.contains(#[trigger] evidence[i]),
    ensures
        evidence_error(id, evidence, expected, covered) is None,
    decreases evidence.len(),
{
    if evidence.len() > 0 {
        let init = evidence.drop_last();
        let all = covered + evidence;
        let before = covered + init;
        assert forall|i: int, j: int|
            0 <= i < before.len() && 0 <= j < before.len() && i != j implies before[i]
            != before[j] by {
            assert(before[i] == all[i] && before[j] == all[j]);
        }
        assert forall|i: int| 0 <= i < init.len() implies expected.contains(
            #[trigger] init[i],
        ) by {
            assert(init[i] == evidence[i]);
        }
        lemma_evidence_error(id, init, expected, covered);
        assert(expected.contains(evidence[evidence.len() - 1]));
        if before.contains(evidence.last()) {
            let k = choose|k: int| 0 <= k < before.len() && before[k] == evidence.last();
            assert(all[k] == before[k]);
            assert(all[all.len() - 1] == evidence.last());
        }
    }
}

proof fn lemma_evidence_error_none(
    id: Seq<char>,
    evidence: Seq<Seq<char>>,
    expected: Seq<Seq<char>>,
    covered: Seq<Seq<char>>,
)
    requires
        evidence_error(id, evidence, expected, covered) is None,
        covered.no_duplicates(),
    ensures
        (covered + evidence).no_duplicates(),
        forall|i: int| 0 <= i < evidence.len() ==> expected.contains(#[trigger] evidence[i]),
    decreases evidence.len(),
{
    if evidence.len() == 0 {
        assert(covered + evidence =~= covered);
    } else {
        let init = evidence.drop_last();
        lemma_evidence_error_none(id, init, expected, covered);
        let before = covered + init;
        let after = covered + evidence;
        assert(after =~= before.push(evidence.last()));
        assert forall|i: int, j: int|
            0 <= i < after.len() && 0 <= j < after.len() && i != j implies after[i] != after[j] by {
            if i == before.len() {
                assert(before.contains(before[j]));
            } else if j == before.len() {
                assert(before.contains(before[i]));
            }
        }
        assert forall|i: int| 0 <= i < evidence.len() implies expected.contains(
            #[trigger] evidence[i],
        ) by {
            if i < init.len() {
                assert(init[i] == evidence[i]);
            }
        }
    }
}

proof fn lemma_fit(w: WorkstreamView)
    ensures
        is_fit(w) <==> {
            &&& trimmed(w.id).len() > 0 && trimmed(w.title).len() > 0
            &&& !is_placeholder(w.title)
            &&& w.evidence.len() > 0
            &&& w.facts().len() > 0
            &&& facts_error(w.id, w.facts(), w.evidence) is None
        },
{
    lemma_facts_error(w.id, w.facts(), w.evidence);
    assert forall|f: FactView| #[trigger] w.facts().contains(f) <==> stands_in(w, f) by {
        lemma_facts_of(w, f);
    }
    if w.facts().len() > 0 {
        assert(w.facts().contains(w.facts()[0]));
        assert(stands_in(w, w.facts()[0]));
    }
    if exists|f: FactView| #[trigger] stands_in(w, f) {
        let f = choose|f: FactView| #[trigger] stands_in(w, f);
        assert(w.facts().contains(f));
    }
    if is_fit(w) {
        assert forall|f: FactView| #[trigger] w.facts().contains(f) implies is_grounded(
            f,
            w.evidence,
        ) by {
            assert(stands_in(w, f));
        }
    }
    if facts_error(w.id, w.facts(), w.evidence) is None {
        assert forall|f: FactView| #[trigger] stands_in(w, f) implies is_grounded(
            f,
            w.evidence,
        ) by {
            assert(w.facts().contains(f));
        }
    }
}

proof fn lemma_workstreams_error(ws: Seq<WorkstreamView>, expected: Seq<Seq<char>>)
    ensures
        workstreams_error(ws, expected) is None <==> are_fit_together(ws, expected),
    decreases ws.len(),
{
    if ws.len() > 0 {
        let init = ws.drop_last();
        let w = ws.last();
        lemma_workstreams_error(init, expected);
        lemma_fit(w);
        let ids = ids_of_workstreams(ws);
        let ids0 = ids_of_workstreams(init);
        let all = evidence_of(ws);
        let all0 = evidence_of(init);
        assert(ids =~= ids0.push(w.id));
        assert(all == all0 + w.evidence);
        if workstreams_error(ws, expected) is None {
            lemma_evidence_error_none(w.id, w.evidence, expected, all0);
            assert forall|i: int, j: int|
                0 <= i < ids.len() && 0 <= j < ids.len() && i != j implies ids[i] != ids[j] by {
                if i == ids0.len() {
                    assert(ids0.contains(ids0[j]));
                } else if j == ids0.len() {
                    assert(ids0.contains(ids0[i]));
                }
            }
            assert forall|k: int| 0 <= k < ws.len() implies is_fit(#[trigger] ws[k]) by {
                if k < init.len() {
                    assert(is_fit(init[k]));
                }
            }
            assert forall|i: int| 0 <= i < all.len() implies expected.contains(
                #[trigger] all[i],
            ) by {
                if i < all0.len() {
                    assert(all[i] == all0[i]);
                } else {
                    assert(all[i] == w.evidence[i - all0.len()]);
                }
            }
        }
        if are_fit_together(ws, expected) {
            assert forall|k: int| 0 <= k < init.len() implies is_fit(#[trigger] init[k]) by {
                assert(is_fit(ws[k]));
            }
            assert forall|i: int, j: int|
                0 <= i < ids0.len() && 0 <= j < ids0.len() && i != j implies ids0[i] != ids0[j] by {
                assert(ids[i] == ids0[i] && ids[j] == ids0[j]);
            }
            assert forall|i: int, j: int|
                0 <= i < all0.len() && 0 <= j < all0.len() && i != j implies all0[i] != all0[j] by {
                assert(all[i] == all0[i] && all[j] == all0[j]);
            }
            assert forall|i: int| 0 <= i < all0.len() implies expected.contains(
                #[trigger] all0[i],
            ) by {
                assert(all[i] == all0[i]);
            }
            assert(is_fit(ws[ws.len() - 1]));
            if ids0.contains(w.id) {
                let k = choose|k: int| 0 <= k < ids0.len() && ids0[k] == w.id;
                assert(ids[k] == ids[ids0.len() as int]);
            }
            assert forall|i: int| 0 <= i < w.evidence.len() implies expected.contains(
                #[trigger] w.evidence[i],
            ) by {
                assert(all[all0.len() + i] == w.evidence[i]);
            }
            lemma_evidence_error(w.id, w.evidence, expected, all0);
        }
    } else {
        assert(evidence_of(ws).len() == 0);
    }
}

/// Whether workstreams are fit, have IDs of their own, and use expected events
/// only, none of them twice.
pub open spec fn are_fit_together(ws: Seq<WorkstreamView>, expected: Seq<Seq<char>>) -> bool {
    &&& forall|k: int| 0 <= k < ws.len() ==> is_fit(#[trigger] ws[k])
    &&& ids_of_workstreams(ws).no_duplicates()
    &&& evidence_of(ws).no_duplicates()
    &&& forall|i: int|
        0 <= i < evidence_of(ws).len() ==> expected.contains(#[trigger] evidence_of(ws)[i])
}

proof fn lemma_missing_from(covered: Seq<Seq<char>>, expected: Seq<Seq<char>>)
    ensures
        missing_from(covered, expected).len() == 0 <==> forall|e: Seq<char>| #[trigger]
            expected.contains(e) ==> covered.contains(e),
    decreases expected.len(),
{
    if expected.len() > 0 {
        let init = expected.drop_last();
        let last = expected.last();
        lemma_missing_from(covered, init);
        assert(expected =~= init.push(last));
        if missing_from(covered, expected).len() == 0 {
            assert forall|e: Seq<char>| #[trigger] expected.contains(e) implies covered.contains(
                e,
            ) by {
                lemma_push_contains(init, last, e);
                if init.contains(e) {
                }
            }
        }
        if forall|e: Seq<char>| #[trigger] expected.contains(e) ==> covered.contains(e) {
            assert forall|e: Seq<char>| #[trigger] init.contains(e) implies covered.contains(e) by {
                lemma_push_contains(init, last, e);
                assert(expected.contains(e));
            }
            lemma_push_contains(init, last, last);
            assert(expected.contains(last));
        }
    }
}

/// The evidence of the workstreams is that of each of them.
pub proof fn law_evidence_of_workstreams(ws: Seq<WorkstreamView>, e: Seq<char>)
    ensures
        evidence_of(ws).contains(e) <==> exists|k: int|
            0 <= k < ws.len() && (#[trigger] ws[k]).evidence.contains(e),
    decreases ws.len(),
{
    if ws.len() > 0 {
        let init = ws.drop_last();
        law_evidence_of_workstreams(init, e);
        let a = evidence_of(init);
        let b = ws.last().evidence;
        let all = a + b;
        if a.contains(e) {
            let i = choose|i: int| 0 <= i < a.len() && a[i] == e;
            assert(all[i] == e);
            let k = choose|k: int| 0 <= k < init.len() && (#[trigger] init[k]).evidence.contains(e);
            assert(ws[k].evidence.contains(e));
        }
        if b.contains(e) {
            let i = choose|i: int| 0 <= i < b.len() && b[i] == e;
            assert(all[a.len() + i] == e);
            assert(ws[ws.len() - 1].evidence.contains(e));
        }
        if all.contains(e) {
            let i = choose|i: int| 0 <= i < all.len() && all[i] == e;
            if i < a.len() {
                assert(a[i] == e);
            } else {
                assert(b[i - a.len()] == e);
            }
        }
        if exists|k: int| 0 <= k < ws.len() && (#[trigger] ws[k]).evidence.contains(e) {
            let k = choose|k: int| 0 <= k < ws.len() && (#[trigger] ws[k]).evidence.contains(e);
            if k < init.len() {
                assert(init[k].evidence.contains(e));
            }
        }
    }
}

proof fn lemma_set_of_distinct(xs: Seq<Seq<char>>)
    ensures
        ordered_set(xs).len() == xs.len() <==> xs.no_duplicates(),
    decreases xs.len(),
{
    if xs.len() > 0 {
        let init = xs.drop_last();
        let last = xs.last();
        lemma_set_of_distinct(init);
        lemma_ordered_set(init);
        lemma_ordered_set_len(init);
        let before = ordered_set(init);
        lemma_inserted_count(before, last);
        assert(before.contains(last) <==> init.contains(last));
        if xs.no_duplicates() {
            if init.contains(last) {
                let k = choose|k: int| 0 <= k < init.len() && init[k] == last;
                assert(xs[k] == xs[xs.len() - 1]);
            }
            assert forall|i: int, j: int|
                0 <= i < init.len() && 0 <= j < init.len() && i != j implies init[i] != init[j] by {
                assert(xs[i] == init[i] && xs[j] == init[j]);
            }
        }
        if ordered_set(xs).len() == xs.len() {
            assert forall|i: int, j: int|
                0 <= i < xs.len() && 0 <= j < xs.len() && i != j implies xs[i] != xs[j] by {
                if i < init.len() && j < init.len() {
                    assert(init[i] != init[j]);
                } else if i < init.len() {
                    assert(init.contains(init[i]));
                } else {
                    assert(init.contains(init[j]));
                }
            }
        }
    }
}

proof fn lemma_inserted_count(s: Seq<Seq<char>>, x: Seq<char>)
    requires
        increasing(s),
    ensures
        inserted(s, x).len() == s.len() + (if s.contains(x) { 0nat } else { 1nat }),
    decreases s.len(),
{
    if s.len() > 0 {
        let init = s.drop_last();
        assert(s =~= init.push(s.last()));
        lemma_push_contains(init, s.last(), x);
        assert(increasing(init)) by {
            assert forall|i: int, j: int| 0 <= i < j < init.len() implies precedes(
                #[trigger] init[i],
                #[trigger] init[j],
            ) by {
                assert(precedes(s[i], s[j]));
            }
        }
        lemma_inserted_count(init, x);
        if x != s.last() && precedes(s.last(), x) && init.contains(x) {
            let k = choose|k: int| 0 <= k < init.len() && init[k] == x;
            assert(precedes(s[k], s[s.len() - 1]));
            lemma_precedes_transitive(s.last(), x, s.last());
            lemma_precedes_irreflexive(s.last());
        }
    }
}

/// A draft is accepted just where it is complete and sound: it has workstreams, no
/// event was asked for twice, each workstream is fit and has an ID of its own, and
/// the expected events are used, each of them once and no other.
pub proof fn law_complete_and_sound_drafts_are_accepted(d: DraftView, expected: Seq<Seq<char>>)
    ensures
        draft_error(d, expected) is None <==> {
            &&& d.workstreams.len() > 0
            &&& expected.no_duplicates()
            &&& are_fit_together(d.workstreams, expected)
            &&& forall|e: Seq<char>| #[trigger]
                expected.contains(e) ==> evidence_of(d.workstreams).contains(e)
        },
{
    let covered = evidence_of(d.workstreams);
    let set = ordered_set(expected);
    lemma_set_of_distinct(expected);
    lemma_workstreams_error(d.workstreams, expected);
    lemma_missing_from(covered, set);
    lemma_ordered_set(expected);
    assert((forall|e: Seq<char>| #[trigger] expected.contains(e) ==> covered.contains(e)) <==> (
    forall|e: Seq<char>| #[trigger] set.contains(e) ==> covered.contains(e))) by {
        if forall|e: Seq<char>| #[trigger] expected.contains(e) ==> covered.contains(e) {
            assert forall|e: Seq<char>| #[trigger] set.contains(e) implies covered.contains(e) by {
                assert(expected.contains(e));
            }
        }
        if forall|e: Seq<char>| #[trigger] set.contains(e) ==> covered.contains(e) {
            assert forall|e: Seq<char>| #[trigger] expected.contains(e) implies covered.contains(
                e,
            ) by {
                assert(set.contains(e));
            }
        }
    }
}

} // verus!
