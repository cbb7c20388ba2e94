//! How a revision reads: which facts, notes and questions stand in its Markdown,
//! and in what words.
use crate::drafts::FactView;
use crate::markdown::{
    control_code, ends_wikilink, escaped, escaped_char, heading, is_special, is_wikilink,
    safe_text, uncontrolled, with_demoted_headings,
};
use crate::markdown_laws::{law_model_text_is_one_line, no_control};
use crate::ordered::lemma_push_contains;
use crate::preview_laws::{
    at_line, lemma_fact_line_kept, lemma_joined_has_line, lemma_joined_occurs,
    lemma_line_survives_demotion, lemma_line_within, lemma_occurs_self, lemma_occurs_within,
    lemma_section_kept,
};
use crate::revisions::{
    DailyWorkstreamView, ManualDailyEntry, RevisionView, SnapshotEvidence, entry_with_id,
    excluded_events, fact_line, fact_lines, is_excluded, manual_line, manual_lines, preview,
    preview_sections, question_lines, reference_links, still_supported, wikilinks,
    workstream_lines, workstream_section, workstream_sections,
};
use crate::text::{
    begins_with, byte_len, finishes_with, free_of, joined, occurs, occurs_at, opt_text,
    replaced, trimmed, views, words,
};
use vstd::prelude::*;
use vstd::string::*;

verus! {

/// Whether the owner took an event out of the Daily: left it out, or put another
/// in its place.
pub open spec fn is_taken_out(evidence: Seq<SnapshotEvidence>, event: Seq<char>) -> bool {
    exists|i: int|
        0 <= i < evidence.len() && (#[trigger] evidence[i]).event_id@ == event && (opt_text(
            evidence[i].disposition,
        ) == Some("omit"@) || opt_text(evidence[i].disposition) == Some("duplicate_of"@)
            || opt_text(evidence[i].disposition) == Some("superseded_by"@))
}

/// Whether some event that a fact cites was not taken out.
pub open spec fn has_ground(fact: FactView, evidence: Seq<SnapshotEvidence>) -> bool {
    exists|e: Seq<char>| #[trigger] fact.evidence.contains(e) && !is_taken_out(evidence, e)
}

/// The events that are taken out are those that the owner left out, or put
/// another in the place of, and no others.
pub proof fn law_taken_out_events(evidence: Seq<SnapshotEvidence>, event: Seq<char>)
    ensures
        excluded_events(evidence).contains(event) <==> is_taken_out(evidence, event),
    decreases evidence.len(),
{
    if evidence.len() > 0 {
        let init = evidence.drop_last();
        let last = evidence.last();
        law_taken_out_events(init, event);
        lemma_push_contains(excluded_events(init), last.event_id@, event);
        if is_taken_out(init, event) {
            let i = choose|i: int|
                0 <= i < init.len() && (#[trigger] init[i]).event_id@ == event && (opt_text(
                    init[i].disposition,
                ) == Some("omit"@) || opt_text(init[i].disposition) == Some("duplicate_of"@)
                    || opt_text(init[i].disposition) == Some("superseded_by"@));
            assert(evidence[i] == init[i]);
        }
        if is_excluded(last) && last.event_id@ == event {
            assert(evidence[evidence.len() - 1] == last);
        }
        if is_taken_out(evidence, event) {
            let i = choose|i: int|
                0 <= i < evidence.len() && (#[trigger] evidence[i]).event_id@ == event && (opt_text(
                    evidence[i].disposition,
                ) == Some("omit"@) || opt_text(evidence[i].disposition) == Some("duplicate_of"@)
                    || opt_text(evidence[i].disposition) == Some("superseded_by"@));
            if i < init.len() {
                assert(init[i] == evidence[i]);
            }
        }
    }
}

proof fn lemma_ground(fact: FactView, evidence: Seq<SnapshotEvidence>)
    ensures
        still_supported(fact, excluded_events(evidence)) <==> has_ground(fact, evidence),
{
    let out = excluded_events(evidence);
    if still_supported(fact, out) {
        let i = choose|i: int|
            0 <= i < fact.evidence.len() && !out.contains(#[trigger] fact.evidence[i]);
        law_taken_out_events(evidence, fact.evidence[i]);
        assert(fact.evidence.contains(fact.evidence[i]));
    }
    if has_ground(fact, evidence) {
        let e = choose|e: Seq<char>| #[trigger]
            fact.evidence.contains(e) && !is_taken_out(evidence, e);
        let i = choose|i: int| 0 <= i < fact.evidence.len() && fact.evidence[i] == e;
        law_taken_out_events(evidence, e);
        assert(!out.contains(fact.evidence[i]));
    }
}

/// The lines of some facts under a label, in their order.
pub open spec fn labelled(label: Seq<char>, facts: Seq<FactView>) -> Seq<Seq<char>> {
    facts.map_values(|f: FactView| "- **"@ + label + ":** "@ + safe_text(f.text))
}

/// The facts that still have a ground.
pub open spec fn grounded(facts: Seq<FactView>, evidence: Seq<SnapshotEvidence>) -> Seq<FactView> {
    facts.filter(|f: FactView| has_ground(f, evidence))
}

proof fn lemma_labelled(label: Seq<char>, facts: Seq<FactView>, evidence: Seq<SnapshotEvidence>)
    ensures
        fact_lines(label, facts, excluded_events(evidence)) == labelled(
            label,
            grounded(facts, evidence),
        ),
    decreases facts.len(),
{
    reveal(Seq::filter);
    if facts.len() > 0 {
        let init = facts.drop_last();
        lemma_labelled(label, init, evidence);
        lemma_ground(facts.last(), evidence);
        if has_ground(facts.last(), evidence) {
            assert(labelled(label, grounded(init, evidence).push(facts.last())) =~= labelled(
                label,
                grounded(init, evidence),
            ).push("- **"@ + label + ":** "@ + safe_text(facts.last().text)));
        }
    } else {
        assert(labelled(label, grounded(facts, evidence)) =~= Seq::<Seq<char>>::empty());
    }
}

/// All that a workstream has to say, field after field, each fact behind the
/// label of its own field.
pub open spec fn sayings(w: DailyWorkstreamView, evidence: Seq<SnapshotEvidence>) -> Seq<Seq<char>> {
    labelled("Outcome"@, grounded(w.work.outcome, evidence)) + labelled(
        "Decision"@,
        grounded(w.work.decision, evidence),
    ) + labelled("Trade-off"@, grounded(w.work.trade_off, evidence)) + labelled(
        "Validation"@,
        grounded(w.work.validation, evidence),
    ) + labelled("Blocker"@, grounded(w.work.blocker, evidence)) + labelled(
        "Follow-up"@,
        grounded(w.work.follow_up, evidence),
    ) + labelled(
        "Activity record · not AI-summarized"@,
        grounded(w.activity, evidence),
    )
}

/// A workstream reads as its heading and, field after field, its grounded facts; one
/// that has none is left out.
pub proof fn law_workstream_reads_as_its_facts(
    w: DailyWorkstreamView,
    evidence: Seq<SnapshotEvidence>,
)
    ensures
        ({
            let section = workstream_section(w, excluded_events(evidence));
            if sayings(w, evidence).len() == 0 {
                section is None
            } else {
                section == Some(
                    heading(safe_text(w.work.title), wikilinks(w.links)) + "\n\n"@ + joined(
                        sayings(w, evidence),
                        "\n"@,
                    ),
                )
            }
        }),
{
    lemma_labelled("Outcome"@, w.work.outcome, evidence);
    lemma_labelled("Decision"@, w.work.decision, evidence);
    lemma_labelled("Trade-off"@, w.work.trade_off, evidence);
    lemma_labelled("Validation"@, w.work.validation, evidence);
    lemma_labelled("Blocker"@, w.work.blocker, evidence);
    lemma_labelled("Follow-up"@, w.work.follow_up, evidence);
    lemma_labelled("Activity record · not AI-summarized"@, w.activity, evidence);
}

/// Whether a list is the field of a workstream that goes by a label.
pub open spec fn is_field(w: DailyWorkstreamView, label: Seq<char>, facts: Seq<FactView>) -> bool {
    ||| label == "Outcome"@ && facts == w.work.outcome
    ||| label == "Decision"@ && facts == w.work.decision
    ||| label == "Trade-off"@ && facts == w.work.trade_off
    ||| label == "Validation"@ && facts == w.work.validation
    ||| label == "Blocker"@ && facts == w.work.blocker
    ||| label == "Follow-up"@ && facts == w.work.follow_up
    ||| label == "Activity record · not AI-summarized"@ && facts == w.activity
}

proof fn lemma_labels_are_plain(label: Seq<char>, w: DailyWorkstreamView, facts: Seq<FactView>)
    requires
        is_field(w, label, facts),
    ensures
        no_control(label),
{
    reveal_strlit("Outcome");
    reveal_strlit("Decision");
    reveal_strlit("Trade-off");
    reveal_strlit("Validation");
    reveal_strlit("Blocker");
    reveal_strlit("Follow-up");
    reveal_strlit("Activity record · not AI-summarized");
}

proof fn lemma_line_is_plain(label: Seq<char>, text: Seq<char>)
    requires
        no_control(label),
    ensures
        ({
            let line = "- **"@ + label + ":** "@ + safe_text(text);
            line.len() > 0 && line[0] == '-' && no_control(line)
        }),
{
    reveal_strlit("- **");
    reveal_strlit(":** ");
    law_model_text_is_one_line(text);
    let ahead = "- **"@;
    let between = ":** "@;
    let shown = safe_text(text);
    let line = ahead + label + between + shown;
    assert(no_control(ahead) && no_control(between));
    let a: int = ahead.len() as int;
    let b: int = a + label.len();
    let c: int = b + between.len();
    assert forall|i: int| 0 <= i < line.len() implies !control_code(#[trigger] line[i]) by {
        if i < a {
            assert(line[i] == ahead[i]);
        } else if i < b {
            assert(line[i] == label[i - a]);
        } else if i < c {
            assert(line[i] == between[i - b]);
        } else {
            assert(line[i] == shown[i - c]);
        }
    }
}

proof fn lemma_line_in_field(
    w: DailyWorkstreamView,
    label: Seq<char>,
    facts: Seq<FactView>,
    excluded: Seq<Seq<char>>,
    line: Seq<char>,
)
    requires
        is_field(w, label, facts),
        fact_lines(label, facts, excluded).contains(line),
    ensures
        workstream_lines(w, excluded).contains(line),
{
    let l1 = fact_lines("Outcome"@, w.work.outcome, excluded);
    let l2 = fact_lines("Decision"@, w.work.decision, excluded);
    let l3 = fact_lines("Trade-off"@, w.work.trade_off, excluded);
    let l4 = fact_lines("Validation"@, w.work.validation, excluded);
    let l5 = fact_lines("Blocker"@, w.work.blocker, excluded);
    let l6 = fact_lines("Follow-up"@, w.work.follow_up, excluded);
    let l7 = fact_lines("Activity record · not AI-summarized"@, w.activity, excluded);
    let s2 = l1 + l2;
    let s3 = s2 + l3;
    let s4 = s3 + l4;
    let s5 = s4 + l5;
    let s6 = s5 + l6;
    let s7 = s6 + l7;
    assert(workstream_lines(w, excluded) == s7);
    lemma_lists_contain(l1, l2, line);
    lemma_lists_contain(s2, l3, line);
    lemma_lists_contain(s3, l4, line);
    lemma_lists_contain(s4, l5, line);
    lemma_lists_contain(s5, l6, line);
    lemma_lists_contain(s6, l7, line);
}

proof fn lemma_lists_contain(a: Seq<Seq<char>>, b: Seq<Seq<char>>, v: Seq<char>)
    ensures
        (a + b).contains(v) <==> a.contains(v) || b.contains(v),
{
    let all = a + b;
    if a.contains(v) {
        let k = choose|k: int| 0 <= k < a.len() && a[k] == v;
        assert(all[k] == v);
    }
    if b.contains(v) {
        let k = choose|k: int| 0 <= k < b.len() && b[k] == v;
        assert(all[a.len() + k] == v);
    }
    if all.contains(v) {
        let k = choose|k: int| 0 <= k < all.len() && all[k] == v;
        if k < a.len() {
            assert(a[k] == v);
        } else {
            assert(b[k - a.len()] == v);
        }
    }
}

/// Every fact of every field of a workstream that has an event which was not
/// taken out stands in the Markdown, behind the label of its field.
pub proof fn law_grounded_facts_show(
    content: RevisionView,
    entries: Seq<ManualDailyEntry>,
    evidence: Seq<SnapshotEvidence>,
    i: int,
    label: Seq<char>,
    facts: Seq<FactView>,
    k: int,
)
    requires
        0 <= i < content.workstreams.len(),
        is_field(content.workstreams[i], label, facts),
        0 <= k < facts.len(),
        has_ground(facts[k], evidence),
    ensures
        occurs(
            preview(content, entries, evidence),
            "- **"@ + label + ":** "@ + safe_text(facts[k].text),
        ),
{
    reveal_strlit("\n");
    reveal_strlit("\n\n");
    let none = Seq::<char>::empty();
    let excluded = excluded_events(evidence);
    let w = content.workstreams[i];
    let text = facts[k].text;
    let line = "- **"@ + label + ":** "@ + safe_text(text);
    lemma_ground(facts[k], evidence);
    lemma_labels_are_plain(label, w, facts);
    lemma_line_is_plain(label, text);
    lemma_fact_line_kept(label, facts, excluded, k);
    assert(fact_line(label, text) == line);
    lemma_line_in_field(w, label, facts, excluded, line);
    let lines = workstream_lines(w, excluded);
    let at = choose|at: int| 0 <= at < lines.len() && lines[at] == line;
    assert(line =~= none + line + none);
    assert(at_line(line, line, none, none));
    lemma_joined_has_line(lines, "\n"@, at, line);
    let section = workstream_section(w, excluded)->0;
    let top = heading(safe_text(w.work.title), wikilinks(w.links)) + "\n\n"@;
    assert(top.last() == "\n\n"@[1]);
    lemma_line_within(top, joined(lines, "\n"@), none, line);
    assert(section =~= top + joined(lines, "\n"@) + none);
    lemma_section_kept(content.workstreams, excluded, i);
    let parts = workstream_sections(content.workstreams, excluded);
    let m = choose|m: int| 0 <= m < parts.len() && parts[m] == section;
    lemma_joined_has_line(parts, "\n\n"@, m, line);
    let body = joined(parts, "\n\n"@);
    let manual = manual_lines(entries, content.manual_entry_ids);
    let sections = preview_sections(manual, parts, content.open_questions);
    if manual.len() == 0 {
        let (before, after) = choose|before: Seq<char>, after: Seq<char>|
            at_line(body, line, before, after);
        lemma_occurs_self(line);
        lemma_occurs_within(before, line, after, line);
        assert(sections[0] == body);
        lemma_joined_occurs(sections, "\n\n"@, 0, line);
    } else {
        lemma_line_survives_demotion(body, line);
        lemma_occurs_within("### Automated activity\n\n"@, with_demoted_headings(body), none, line);
        assert(sections[1] =~= "### Automated activity\n\n"@ + with_demoted_headings(body) + none);
        lemma_joined_occurs(sections, "\n\n"@, 1, line);
    }
}

/// A fact all of whose events were taken out makes no difference: the lines of
/// its field are those without it.
pub proof fn law_groundless_fact_does_not_show(
    label: Seq<char>,
    before: Seq<FactView>,
    fact: FactView,
    after: Seq<FactView>,
    evidence: Seq<SnapshotEvidence>,
)
    requires
        forall|e: Seq<char>| #[trigger] fact.evidence.contains(e) ==> is_taken_out(evidence, e),
    ensures
        fact_lines(label, before.push(fact) + after, excluded_events(evidence)) == fact_lines(
            label,
            before + after,
            excluded_events(evidence),
        ),
    decreases after.len(),
{
    let out = excluded_events(evidence);
    let with = before.push(fact) + after;
    let without = before + after;
    if after.len() == 0 {
        assert(with =~= before.push(fact));
        assert(without =~= before);
        assert(with.drop_last() =~= before);
        lemma_ground(fact, evidence);
    } else {
        let init = after.drop_last();
        law_groundless_fact_does_not_show(label, before, fact, init, evidence);
        assert(with.drop_last() =~= before.push(fact) + init);
        assert(without.drop_last() =~= before + init);
        assert(with.last() == after.last() && without.last() == after.last());
    }
}

/// The workstreams of a revision stand one after the other, each for itself.
pub proof fn law_workstreams_stand_in_order(
    a: Seq<DailyWorkstreamView>,
    b: Seq<DailyWorkstreamView>,
    w: DailyWorkstreamView,
    excluded: Seq<Seq<char>>,
)
    ensures
        workstream_sections(a + b, excluded) == workstream_sections(a, excluded)
            + workstream_sections(b, excluded),
        workstream_sections(seq![w], excluded) == (match workstream_section(w, excluded) {
            Some(section) => seq![section],
            None => Seq::empty(),
        }),
    decreases b.len(),
{
    let one = seq![w];
    assert(one.drop_last() =~= Seq::<DailyWorkstreamView>::empty());
    assert(workstream_sections(one.drop_last(), excluded) =~= Seq::<Seq<char>>::empty());
    if let Some(section) = workstream_section(w, excluded) {
        assert(Seq::<Seq<char>>::empty().push(section) =~= seq![section]);
    }
    if b.len() == 0 {
        assert(a + b =~= a);
        assert(workstream_sections(a, excluded) + workstream_sections(b, excluded)
            =~= workstream_sections(a, excluded));
    } else {
        law_workstreams_stand_in_order(a, b.drop_last(), w, excluded);
        assert((a + b).drop_last() =~= a + b.drop_last());
        assert((a + b).last() == b.last());
        assert(workstream_sections(a + b, excluded) =~= workstream_sections(a, excluded)
            + workstream_sections(b, excluded));
    }
}

/// Whether an entry is the first of some with its ID.
pub open spec fn is_entry_of(entries: Seq<ManualDailyEntry>, id: Seq<char>, entry: ManualDailyEntry) -> bool {
    exists|i: int|
        0 <= i < entries.len() && #[trigger] entries[i] == entry && entry.id@ == id && forall|j: int|
            0 <= j < i ==> (#[trigger] entries[j]).id@ != id
}

proof fn lemma_entry(entries: Seq<ManualDailyEntry>, id: Seq<char>)
    ensures
        match entry_with_id(entries, id) {
            Some(entry) => is_entry_of(entries, id, entry),
            None => forall|i: int| 0 <= i < entries.len() ==> (#[trigger] entries[i]).id@ != id,
        },
    decreases entries.len(),
{
    if entries.len() > 0 {
        let rest = entries.drop_first();
        lemma_entry(rest, id);
        if entries[0].id@ == id {
            assert(is_entry_of(entries, id, entries[0]));
        } else {
            match entry_with_id(rest, id) {
                Some(entry) => {
                    let i = choose|i: int|
                        0 <= i < rest.len() && #[trigger] rest[i] == entry && entry.id@ == id
                            && forall|j: int| 0 <= j < i ==> (#[trigger] rest[j]).id@ != id;
                    assert(entries[i + 1] == entry);
                    assert forall|j: int| 0 <= j < i + 1 implies (#[trigger] entries[j]).id@
                        != id by {
                        if j > 0 {
                            assert(entries[j] == rest[j - 1]);
                        }
                    }
                },
                None => {
                    assert forall|i: int| 0 <= i < entries.len() implies (
                    #[trigger] entries[i]).id@ != id by {
                        if i > 0 {
                            assert(entries[i] == rest[i - 1]);
                        }
                    }
                },
            }
        }
    }
}

/// The owner's notes stand in the order in which the revision names them, each
/// with its own words and references; a note that is gone leaves nothing.
pub proof fn law_notes_stand_in_order(
    entries: Seq<ManualDailyEntry>,
    a: Seq<Seq<char>>,
    b: Seq<Seq<char>>,
    id: Seq<char>,
)
    ensures
        manual_lines(entries, a + b) == manual_lines(entries, a) + manual_lines(entries, b),
        (forall|i: int| 0 <= i < entries.len() ==> (#[trigger] entries[i]).id@ != id)
            ==> manual_lines(entries, seq![id]).len() == 0,
        forall|entry: ManualDailyEntry| #[trigger]
            is_entry_of(entries, id, entry) ==> manual_lines(entries, seq![id]).len() == 1
                && reads_as_note(manual_lines(entries, seq![id])[0], entry),
    decreases b.len(),
{
    let one = seq![id];
    assert(one.drop_last() =~= Seq::<Seq<char>>::empty());
    assert(manual_lines(entries, one.drop_last()) =~= Seq::<Seq<char>>::empty());
    lemma_entry(entries, id);
    assert forall|entry: ManualDailyEntry| #[trigger]
        is_entry_of(entries, id, entry) implies manual_lines(entries, one).len() == 1
        && reads_as_note(manual_lines(entries, one)[0], entry) by {
        let i = choose|i: int|
            0 <= i < entries.len() && #[trigger] entries[i] == entry && entry.id@ == id
                && forall|j: int| 0 <= j < i ==> (#[trigger] entries[j]).id@ != id;
        let found = entry_with_id(entries, id)->0;
        assert(is_entry_of(entries, id, found));
        let k = choose|k: int|
            0 <= k < entries.len() && #[trigger] entries[k] == found && found.id@ == id
                && forall|j: int| 0 <= j < k ==> (#[trigger] entries[j]).id@ != id;
        assert(i == k) by {
            if i < k {
                assert(entries[i].id@ != id);
            }
            if k < i {
                assert(entries[k].id@ != id);
            }
        }
        lemma_manual_line(entry);
    }
    if b.len() == 0 {
        assert(a + b =~= a);
        assert(manual_lines(entries, a) + manual_lines(entries, b) =~= manual_lines(entries, a));
    } else {
        law_notes_stand_in_order(entries, a, b.drop_last(), id);
        assert((a + b).drop_last() =~= a + b.drop_last());
        assert((a + b).last() == b.last());
        assert(manual_lines(entries, a + b) =~= manual_lines(entries, a) + manual_lines(
            entries,
            b,
        ));
    }
}

/// Whether a line is that of a note: its words behind a dash, with later lines set
/// in, and then a link for each of its references.
pub open spec fn reads_as_note(line: Seq<char>, entry: ManualDailyEntry) -> bool {
    let words = "- "@ + replaced(trimmed(entry.text@), "\n"@, "\n  "@);
    &&& begins_with(line, words)
    &&& entry.references@.len() == 0 ==> line == words
    &&& forall|k: int|
        0 <= k < entry.references@.len() ==> occurs(
            line,
            "[Reference](<"@ + (#[trigger] entry.references@[k])@ + ">)"@,
        )
}

proof fn lemma_manual_line(entry: ManualDailyEntry)
    ensures
        reads_as_note(manual_line(entry), entry),
{
    let line = manual_line(entry);
    let said = "- "@ + replaced(trimmed(entry.text@), "\n"@, "\n  "@);
    assert(line.take(said.len() as int) =~= said);
    let refs = views(entry.references@);
    let links = reference_links(refs);
    assert forall|k: int| 0 <= k < entry.references@.len() implies occurs(
        line,
        "[Reference](<"@ + (#[trigger] entry.references@[k])@ + ">)"@,
    ) by {
        let link = "[Reference](<"@ + entry.references@[k]@ + ">)"@;
        assert(links[k] == link);
        lemma_occurs_self(link);
        lemma_joined_occurs(links, " · "@, k, link);
        let none = Seq::<char>::empty();
        lemma_occurs_within(said + " · "@, joined(links, " · "@), none, link);
        assert(line =~= said + " · "@ + joined(links, " · "@) + none);
    }
}

proof fn lemma_joined_ends(parts: Seq<Seq<char>>, sep: Seq<char>)
    requires
        parts.len() > 0,
    ensures
        begins_with(joined(parts, sep), parts[0]),
        finishes_with(joined(parts, sep), parts.last()),
    decreases parts.len(),
{
    let all = joined(parts, sep);
    if parts.len() == 1 {
        assert(all.take(parts[0].len() as int) =~= parts[0]);
        assert(all.skip(all.len() - parts.last().len()) =~= parts.last());
    } else {
        let init = parts.drop_last();
        lemma_joined_ends(init, sep);
        let before = joined(init, sep);
        assert(before.take(parts[0].len() as int) == parts[0]);
        assert(all.take(parts[0].len() as int) =~= before.take(parts[0].len() as int));
        assert(all.skip(all.len() - parts.last().len()) =~= parts.last());
    }
}

/// A revision begins with the owner's notes, if it has any, and ends with its
/// open questions, if it has any; without notes it begins with what was
/// automated. One that holds nothing is empty.
pub proof fn law_sections_of_a_revision(
    content: RevisionView,
    entries: Seq<ManualDailyEntry>,
    evidence: Seq<SnapshotEvidence>,
)
    ensures
        ({
            let all = preview(content, entries, evidence);
            let notes = manual_lines(entries, content.manual_entry_ids);
            let work = workstream_sections(content.workstreams, excluded_events(evidence));
            let open = content.open_questions;
            &&& notes.len() > 0 ==> begins_with(all, "### My notes\n\n"@ + joined(notes, "\n"@))
            &&& notes.len() == 0 && work.len() > 0 ==> begins_with(all, joined(work, "\n\n"@))
            &&& notes.len() > 0 && work.len() > 0 ==> occurs(all, "### Automated activity\n\n"@)
            &&& open.len() > 0 ==> finishes_with(
                all,
                "### Open questions\n\n"@ + joined(
                    Seq::new(open.len(), |i: int| "- "@ + safe_text(open[i])),
                    "\n"@,
                ),
            )
            &&& notes.len() == 0 && work.len() == 0 && open.len() == 0 ==> all.len() == 0
            &&& notes.len() > 0 && work.len() == 0 && open.len() == 0 ==> all
                == "### My notes\n\n"@ + joined(notes, "\n"@)
            &&& notes.len() == 0 && work.len() > 0 && open.len() == 0 ==> all == joined(
                work,
                "\n\n"@,
            )
        }),
{
    let notes = manual_lines(entries, content.manual_entry_ids);
    let work = workstream_sections(content.workstreams, excluded_events(evidence));
    let open = content.open_questions;
    let sections = preview_sections(notes, work, open);
    let lines = Seq::new(open.len(), |i: int| "- "@ + safe_text(open[i]));
    assert(question_lines(open) =~= lines);
    if sections.len() > 0 {
        lemma_joined_ends(sections, "\n\n"@);
    }
    if notes.len() > 0 {
        assert(sections[0] == "### My notes\n\n"@ + joined(notes, "\n"@));
    }
    if notes.len() > 0 && work.len() > 0 {
        let title = "### Automated activity\n\n"@;
        let none = Seq::<char>::empty();
        let body = with_demoted_headings(joined(work, "\n\n"@));
        lemma_occurs_self(title);
        lemma_occurs_within(none, title, body, title);
        assert(sections[1] =~= none + title + body);
        lemma_joined_occurs(sections, "\n\n"@, 1, title);
    }
    if open.len() > 0 {
        assert(sections.last() == "### Open questions\n\n"@ + joined(lines, "\n"@));
    }
}

proof fn lemma_escaped_plain(s: Seq<char>)
    requires
        forall|i: int| 0 <= i < s.len() ==> !is_special(#[trigger] s[i]),
    ensures
        escaped(s) == s,
    decreases s.len(),
{
    if s.len() > 0 {
        let init = s.drop_last();
        assert forall|i: int| 0 <= i < init.len() implies !is_special(#[trigger] init[i]) by {
            assert(init[i] == s[i]);
        }
        lemma_escaped_plain(init);
        assert(s[s.len() - 1] == s.last());
        assert(escaped(s) =~= s);
    } else {
        assert(escaped(s) =~= s);
    }
}

proof fn lemma_replaced_nothing(s: Seq<char>, p: Seq<char>, w: Seq<char>)
    requires
        !occurs(s, p),
    ensures
        replaced(s, p, w) == s,
    decreases s.len(),
{
    if p.len() == 0 || s.len() < p.len() {
    } else {
        if s.take(p.len() as int) == p {
            assert(s.subrange(0, p.len() as int) =~= p);
            assert(occurs_at(s, p, 0));
        }
        let rest = s.drop_first();
        if occurs(rest, p) {
            let at = choose|at: int| occurs_at(rest, p, at);
            assert(s.subrange(at + 1, at + 1 + p.len()) =~= rest.subrange(at, at + p.len()));
            assert(occurs_at(s, p, at + 1));
        }
        lemma_replaced_nothing(rest, p, w);
        assert(seq![s[0]] + rest =~= s);
    }
}

/// Plain words are shown as they are: a text of words with single blanks between
/// them, without control characters, Markdown and URLs, is not changed.
pub proof fn law_plain_words_are_shown_as_they_are(s: Seq<char>)
    requires
        joined(words(s), " "@) == s,
        forall|i: int|
            0 <= i < s.len() ==> !(s[i] as u32 <= 0x1f || 0x7f <= s[i] as u32 <= 0x9f)
                && !is_special(#[trigger] s[i]),
        !occurs(s, "://"@),
    ensures
        safe_text(s) == s,
{
    assert forall|i: int| 0 <= i < s.len() implies !control_code(#[trigger] s[i]) by {
        assert(!is_special(s[i]));
    }
    assert(uncontrolled(s) =~= s);
    lemma_escaped_plain(s);
    lemma_replaced_nothing(s, "://"@, ":\u{200b}//"@);
}

/// What is left of a text when a backslash is taken for the character behind it.
pub open spec fn unescaped(s: Seq<char>) -> Seq<char>
    decreases s.len(),
{
    if s.len() == 0 {
        s
    } else if s[0] == '\\' && s.len() > 1 {
        seq![s[1]] + unescaped(s.skip(2))
    } else {
        seq![s[0]] + unescaped(s.drop_first())
    }
}

proof fn lemma_escaped_front(c: char, s: Seq<char>)
    ensures
        escaped(seq![c] + s) == escaped_char(c) + escaped(s),
    decreases s.len(),
{
    let all = seq![c] + s;
    if s.len() == 0 {
        assert(all =~= seq![c]);
        assert(all.drop_last() =~= Seq::<char>::empty());
        assert(escaped(all.drop_last()) =~= Seq::<char>::empty());
        assert(escaped(all) =~= escaped_char(c) + escaped(s));
    } else {
        lemma_escaped_front(c, s.drop_last());
        assert(all.drop_last() =~= seq![c] + s.drop_last());
        assert(all.last() == s.last());
        assert(escaped(all) =~= escaped_char(c) + escaped(s));
    }
}

/// Escaping loses no character: read as Markdown reads it, an escaped text is the
/// text.
pub proof fn law_escaped_text_reads_as_it_is(s: Seq<char>)
    ensures
        unescaped(escaped(s)) == s,
    decreases s.len(),
{
    if s.len() > 0 {
        let rest = s.drop_first();
        law_escaped_text_reads_as_it_is(rest);
        assert(s =~= seq![s[0]] + rest);
        lemma_escaped_front(s[0], rest);
        let e = escaped(s);
        if is_special(s[0]) {
            assert(e[0] == '\\' && e[1] == s[0]);
            assert(e.skip(2) =~= escaped(rest));
        } else {
            assert(e[0] == s[0]);
            assert(e.drop_first() =~= escaped(rest));
        }
        assert(unescaped(e) =~= s);
    } else {
        assert(unescaped(escaped(s)) =~= s);
    }
}

/// Whether a text is a link to a note: a name in double brackets that is not
/// blank, not too long, and holds neither a bracket nor a line break.
pub open spec fn links_a_note(link: Seq<char>) -> bool {
    exists|name: Seq<char>|
        {
            &&& link == #[trigger] ("[["@ + name + "]]"@)
            &&& trimmed(name).len() > 0
            &&& free_of(name, '[') && free_of(name, ']')
            &&& free_of(name, '\r') && free_of(name, '\n')
            &&& byte_len(name) <= 512
        }
}

proof fn lemma_links_a_note(link: Seq<char>)
    ensures
        is_wikilink(link) <==> links_a_note(link),
{
    reveal_strlit("[[");
    reveal_strlit("]]");
    if is_wikilink(link) {
        let rest = link.skip(2);
        let name = rest.take(rest.len() - 2);
        assert(link.take(2) == "[["@);
        assert(rest.skip(rest.len() - 2) == "]]"@);
        assert(rest =~= name + "]]"@);
        assert(link =~= "[["@ + name + "]]"@);
        assert(free_of(name, '[') && free_of(name, ']') && free_of(name, '\r') && free_of(
            name,
            '\n',
        )) by {
            assert forall|i: int| 0 <= i < name.len() implies !ends_wikilink(
                #[trigger] name[i],
            ) by {}
        }
    }
    if links_a_note(link) {
        let name = choose|name: Seq<char>|
            {
                &&& link == #[trigger] ("[["@ + name + "]]"@)
                &&& trimmed(name).len() > 0
                &&& free_of(name, '[') && free_of(name, ']')
                &&& free_of(name, '\r') && free_of(name, '\n')
                &&& byte_len(name) <= 512
            };
        assert(link.take(2) =~= "[["@);
        let rest = link.skip(2);
        assert(rest =~= name + "]]"@);
        assert(rest.skip(rest.len() - 2) =~= "]]"@);
        assert(rest.take(rest.len() - 2) =~= name);
        assert forall|i: int| 0 <= i < name.len() implies !ends_wikilink(#[trigger] name[i]) by {
            assert(name[i] != '[' && name[i] != ']' && name[i] != '\r' && name[i] != '\n');
        }
    }
}

/// A workstream's heading has its title, and before it just those of its links
/// that link a note, in their order.
pub proof fn law_heading_has_links_and_title(
    title: Seq<char>,
    a: Seq<Seq<char>>,
    b: Seq<Seq<char>>,
    link: Seq<char>,
)
    ensures
        wikilinks(a + b) == wikilinks(a) + wikilinks(b),
        wikilinks(seq![link]) == (if links_a_note(link) {
            seq![link]
        } else {
            Seq::empty()
        }),
        heading(title, Seq::empty()) == "### "@ + title,
        a.len() > 0 ==> heading(title, a) == "### "@ + joined(a, " · "@) + " — "@ + title,
    decreases b.len(),
{
    let one = seq![link];
    assert(one.drop_last() =~= Seq::<Seq<char>>::empty());
    assert(wikilinks(one.drop_last()) =~= Seq::<Seq<char>>::empty());
    lemma_links_a_note(link);
    assert(Seq::<Seq<char>>::empty().push(link) =~= seq![link]);
    if b.len() == 0 {
        assert(a + b =~= a);
        assert(wikilinks(a) + wikilinks(b) =~= wikilinks(a));
    } else {
        law_heading_has_links_and_title(title, a, b.drop_last(), link);
        assert((a + b).drop_last() =~= a + b.drop_last());
        assert((a + b).last() == b.last());
        assert(wikilinks(a + b) =~= wikilinks(a) + wikilinks(b));
    }
}

} // verus!
