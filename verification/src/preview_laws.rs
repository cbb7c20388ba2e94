//! What holds of the Markdown of every revision.
use crate::drafts::{FactView, WorkstreamView};
use crate::knowledge::outcome;
use crate::markdown::{control_code, demoted_lines, heading, safe_text, with_demoted_headings};
use crate::markdown_laws::{law_model_text_is_one_line, no_control};
use crate::revisions::{
    ACTIVITY_LABEL, DailyWorkstreamView, ManualDailyEntry, RevisionView, SnapshotEvidence,
    entry_with_id, excluded_events, fact_line, fact_lines, manual_line, manual_lines, preview,
    preview_sections, still_supported, wikilinks, workstream_lines, workstream_section,
    workstream_sections,
};
use crate::text::{
    begins_with, free_of, full_lines, joined, lemma_full_lines_add, lemma_full_lines_one,
    line_content, occurs, occurs_at, replaced, text_lines, trimmed,
};
use vstd::prelude::*;
use vstd::string::*;

verus! {

/// What occurs in a part of a text occurs in the text.
pub proof fn lemma_occurs_within(a: Seq<char>, p: Seq<char>, b: Seq<char>, c: Seq<char>)
    requires
        occurs(p, c),
    ensures
        occurs(a + p + b, c),
{
    let at = choose|at: int| occurs_at(p, c, at);
    let all = a + p + b;
    assert(all.subrange(a.len() + at, a.len() + at + c.len()) =~= p.subrange(at, at + c.len()));
    assert(occurs_at(all, c, a.len() + at));
}

pub proof fn lemma_occurs_self(p: Seq<char>)
    ensures
        occurs(p, p),
{
    assert(p.subrange(0, p.len() as int) =~= p);
    assert(occurs_at(p, p, 0));
}

/// What occurs in a part occurs in the joined parts.
pub proof fn lemma_joined_occurs(parts: Seq<Seq<char>>, sep: Seq<char>, i: int, c: Seq<char>)
    requires
        0 <= i < parts.len(),
        occurs(parts[i], c),
    ensures
        occurs(joined(parts, sep), c),
    decreases parts.len(),
{
    let none = Seq::<char>::empty();
    if parts.len() == 1 {
        assert(joined(parts, sep) =~= none + parts[0] + none);
        lemma_occurs_within(none, parts[0], none, c);
    } else {
        let init = parts.drop_last();
        let before = joined(init, sep);
        if i < init.len() {
            assert(init[i] == parts[i]);
            lemma_joined_occurs(init, sep, i, c);
            lemma_occurs_within(none, before, sep + parts.last(), c);
            assert(joined(parts, sep) =~= none + before + (sep + parts.last()));
        } else {
            lemma_occurs_within(before + sep, parts.last(), none, c);
            assert(joined(parts, sep) =~= (before + sep) + parts.last() + none);
        }
    }
}

proof fn lemma_manual_line_kept(entries: Seq<ManualDailyEntry>, ids: Seq<Seq<char>>, i: int)
    requires
        0 <= i < ids.len(),
        entry_with_id(entries, ids[i]) is Some,
    ensures
        manual_lines(entries, ids).contains(manual_line(entry_with_id(entries, ids[i])->0)),
    decreases ids.len(),
{
    let line = manual_line(entry_with_id(entries, ids[i])->0);
    let init = ids.drop_last();
    let before = manual_lines(entries, init);
    let all = manual_lines(entries, ids);
    if i < init.len() {
        assert(init[i] == ids[i]);
        lemma_manual_line_kept(entries, init, i);
        let k = choose|k: int| 0 <= k < before.len() && before[k] == line;
        assert(all[k] == line);
    } else {
        assert(all[all.len() - 1] == line);
    }
}

/// The words of a note of the owner stand in the Markdown as they are, whatever
/// a model has drafted; only their further lines are set in.
pub proof fn law_manual_notes_keep_their_words(
    content: RevisionView,
    entries: Seq<ManualDailyEntry>,
    evidence: Seq<SnapshotEvidence>,
    i: int,
)
    requires
        0 <= i < content.manual_entry_ids.len(),
        entry_with_id(entries, content.manual_entry_ids[i]) is Some,
    ensures
        ({
            let entry = entry_with_id(entries, content.manual_entry_ids[i])->0;
            occurs(
                preview(content, entries, evidence),
                "- "@ + replaced(trimmed(entry.text@), "\n"@, "\n  "@),
            )
        }),
{
    let entry = entry_with_id(entries, content.manual_entry_ids[i])->0;
    let words = "- "@ + replaced(trimmed(entry.text@), "\n"@, "\n  "@);
    let none = Seq::<char>::empty();
    let line = manual_line(entry);
    let behind = line.skip(words.len() as int);
    assert(line =~= none + words + behind) by {
        assert(line.take(words.len() as int) =~= words);
    }
    lemma_occurs_self(words);
    lemma_occurs_within(none, words, behind, words);
    let manual = manual_lines(entries, content.manual_entry_ids);
    lemma_manual_line_kept(entries, content.manual_entry_ids, i);
    let k = choose|k: int| 0 <= k < manual.len() && manual[k] == line;
    lemma_joined_occurs(manual, "\n"@, k, words);
    let sections = preview_sections(
        manual,
        workstream_sections(content.workstreams, excluded_events(evidence)),
        content.open_questions,
    );
    lemma_occurs_within("### My notes\n\n"@, joined(manual, "\n"@), none, words);
    assert(sections[0] =~= "### My notes\n\n"@ + joined(manual, "\n"@) + none);
    lemma_joined_occurs(sections, "\n\n"@, 0, words);
}

/// The facts that still have evidence.
pub open spec fn supported_facts(facts: Seq<FactView>, excluded: Seq<Seq<char>>) -> Seq<FactView>
    decreases facts.len(),
{
    if facts.len() == 0 {
        Seq::empty()
    } else if still_supported(facts.last(), excluded) {
        supported_facts(facts.drop_last(), excluded).push(facts.last())
    } else {
        supported_facts(facts.drop_last(), excluded)
    }
}

/// A workstream without the facts whose evidence the owner took out.
pub open spec fn supported_workstream(w: DailyWorkstreamView, excluded: Seq<Seq<char>>) -> DailyWorkstreamView {
    DailyWorkstreamView {
        work: WorkstreamView {
            outcome: supported_facts(w.work.outcome, excluded),
            decision: supported_facts(w.work.decision, excluded),
            trade_off: supported_facts(w.work.trade_off, excluded),
            validation: supported_facts(w.work.validation, excluded),
            blocker: supported_facts(w.work.blocker, excluded),
            follow_up: supported_facts(w.work.follow_up, excluded),
            ..w.work
        },
        activity: supported_facts(w.activity, excluded),
        ..w
    }
}

pub open spec fn supported_workstreams(ws: Seq<DailyWorkstreamView>, excluded: Seq<Seq<char>>) -> Seq<
    DailyWorkstreamView,
> {
    ws.map_values(|w: DailyWorkstreamView| supported_workstream(w, excluded))
}

proof fn lemma_supported_lines(label: Seq<char>, facts: Seq<FactView>, excluded: Seq<Seq<char>>)
    ensures
        fact_lines(label, supported_facts(facts, excluded), excluded) == fact_lines(
            label,
            facts,
            excluded,
        ),
    decreases facts.len(),
{
    if facts.len() > 0 {
        let init = facts.drop_last();
        lemma_supported_lines(label, init, excluded);
        if still_supported(facts.last(), excluded) {
            let kept = supported_facts(facts, excluded);
            assert(kept.drop_last() =~= supported_facts(init, excluded));
            assert(kept.last() == facts.last());
        }
    }
}

proof fn lemma_supported_sections(ws: Seq<DailyWorkstreamView>, excluded: Seq<Seq<char>>)
    ensures
        workstream_sections(supported_workstreams(ws, excluded), excluded) == workstream_sections(
            ws,
            excluded,
        ),
    decreases ws.len(),
{
    let kept = supported_workstreams(ws, excluded);
    if ws.len() > 0 {
        let w = ws.last();
        lemma_supported_sections(ws.drop_last(), excluded);
        assert(kept.drop_last() =~= supported_workstreams(ws.drop_last(), excluded));
        lemma_supported_lines("Outcome"@, w.work.outcome, excluded);
        lemma_supported_lines("Decision"@, w.work.decision, excluded);
        lemma_supported_lines("Trade-off"@, w.work.trade_off, excluded);
        lemma_supported_lines("Validation"@, w.work.validation, excluded);
        lemma_supported_lines("Blocker"@, w.work.blocker, excluded);
        lemma_supported_lines("Follow-up"@, w.work.follow_up, excluded);
        lemma_supported_lines(ACTIVITY_LABEL@, w.activity, excluded);
        assert(kept.last() == supported_workstream(w, excluded));
    } else {
        assert(kept =~= ws);
    }
}

/// A fact whose evidence the owner took out leaves no trace: the Markdown is
/// the one without it.
pub proof fn law_omitted_facts_do_not_show(
    content: RevisionView,
    entries: Seq<ManualDailyEntry>,
    evidence: Seq<SnapshotEvidence>,
)
    ensures
        preview(content, entries, evidence) == preview(
            RevisionView {
                workstreams: supported_workstreams(
                    content.workstreams,
                    excluded_events(evidence),
                ),
                ..content
            },
            entries,
            evidence,
        ),
{
    lemma_supported_sections(content.workstreams, excluded_events(evidence));
}

/// Whether a text has `line` as one of its lines.
pub open spec fn has_line(s: Seq<char>, line: Seq<char>) -> bool {
    exists|before: Seq<char>, after: Seq<char>|
        at_line(s, line, before, after)
}

/// Whether a line stands in a text between what is before and after it.
pub open spec fn at_line(
    s: Seq<char>,
    line: Seq<char>,
    before: Seq<char>,
    after: Seq<char>,
) -> bool {
    &&& s == before + line + after
    &&& before.len() > 0 ==> before.last() == '\n'
    &&& after.len() > 0 ==> after[0] == '\n'
}

pub proof fn lemma_line_within(a: Seq<char>, s: Seq<char>, b: Seq<char>, line: Seq<char>)
    requires
        has_line(s, line),
        a.len() > 0 ==> a.last() == '\n',
        b.len() > 0 ==> b[0] == '\n',
    ensures
        has_line(a + s + b, line),
{
    let (before, after) = choose|before: Seq<char>, after: Seq<char>|
        at_line(s, line, before, after);
    let all = a + s + b;
    let head = a + before;
    let tail = after + b;
    assert(all =~= head + line + tail);
    assert(head.len() > 0 ==> head.last() == '\n') by {
        if before.len() > 0 {
            assert(head.last() == before.last());
        } else {
            assert(head =~= a);
        }
    }
    assert(tail.len() > 0 ==> tail[0] == '\n') by {
        if after.len() > 0 {
            assert(tail[0] == after[0]);
        } else {
            assert(tail =~= b);
        }
    }
    assert(at_line(all, line, head, tail));
}

pub proof fn lemma_joined_has_line(parts: Seq<Seq<char>>, sep: Seq<char>, i: int, line: Seq<char>)
    requires
        0 <= i < parts.len(),
        has_line(parts[i], line),
        sep.len() > 0,
        sep[0] == '\n',
        sep.last() == '\n',
    ensures
        has_line(joined(parts, sep), line),
    decreases parts.len(),
{
    let none = Seq::<char>::empty();
    if parts.len() > 1 {
        let init = parts.drop_last();
        let before = joined(init, sep);
        if i < init.len() {
            assert(init[i] == parts[i]);
            lemma_joined_has_line(init, sep, i, line);
            let behind = sep + parts.last();
            assert(behind[0] == sep[0]);
            lemma_line_within(none, before, behind, line);
            assert(joined(parts, sep) =~= none + before + behind);
        } else {
            let ahead = before + sep;
            assert(ahead.last() == sep.last());
            lemma_line_within(ahead, parts.last(), none, line);
            assert(joined(parts, sep) =~= ahead + parts.last() + none);
        }
    }
}

/// The first line of a text that goes on with a line break or ends.
proof fn lemma_first_line(line: Seq<char>, after: Seq<char>)
    requires
        line.len() > 0,
        free_of(line, '\n'),
        line.last() != '\r',
        after.len() > 0 ==> after[0] == '\n',
    ensures
        full_lines(line + after).len() > 0,
        line_content(full_lines(line + after)[0]) == line,
{
    if after.len() == 0 {
        assert(line + after =~= line);
        lemma_full_lines_one(line);
        assert(line[line.len() - 1] != '\n');
    } else {
        let first = line.push('\n');
        let tail = after.drop_first();
        assert(line + after =~= first + tail);
        assert forall|j: int| 0 <= j < first.len() - 1 implies #[trigger] first[j] != '\n' by {
            assert(first[j] == line[j]);
        }
        lemma_full_lines_add(first, tail);
        lemma_full_lines_one(first);
        assert(full_lines(line + after)[0] == first);
        assert(first.drop_last() =~= line);
    }
}

pub proof fn lemma_is_text_line(s: Seq<char>, line: Seq<char>)
    requires
        has_line(s, line),
        line.len() > 0,
        free_of(line, '\n'),
        line.last() != '\r',
    ensures
        text_lines(s).contains(line),
{
    let (before, after) = choose|before: Seq<char>, after: Seq<char>|
        at_line(s, line, before, after);
    let rest = line + after;
    assert(s =~= before + rest);
    lemma_full_lines_add(before, rest);
    lemma_first_line(line, after);
    let at = full_lines(before).len() as int;
    assert(full_lines(s)[at] == full_lines(rest)[0]);
    assert(text_lines(s)[at] == line);
}

/// A line that is no heading stays when the headings are demoted.
pub proof fn lemma_line_survives_demotion(s: Seq<char>, line: Seq<char>)
    requires
        has_line(s, line),
        line.len() > 0,
        no_control(line),
        line[0] == '-',
    ensures
        occurs(with_demoted_headings(s), line),
{
    reveal_strlit("### ");
    assert(!control_code(line[line.len() - 1]));
    assert forall|j: int| 0 <= j < line.len() implies #[trigger] line[j] != '\n' by {
        assert(!control_code(line[j]));
    }
    lemma_is_text_line(s, line);
    let lines = text_lines(s);
    let at = choose|at: int| 0 <= at < lines.len() && lines[at] == line;
    if begins_with(line, "### "@) {
        assert(line.take(4)[0] == "### "@[0]);
    }
    let shown = demoted_lines(lines);
    assert(shown[at] == line);
    lemma_occurs_self(line);
    lemma_joined_occurs(shown, "\n"@, at, line);
}

pub proof fn lemma_fact_line_kept(
    label: Seq<char>,
    facts: Seq<FactView>,
    excluded: Seq<Seq<char>>,
    k: int,
)
    requires
        0 <= k < facts.len(),
        still_supported(facts[k], excluded),
    ensures
        fact_lines(label, facts, excluded).contains(fact_line(label, facts[k].text)),
    decreases facts.len(),
{
    let line = fact_line(label, facts[k].text);
    let init = facts.drop_last();
    let before = fact_lines(label, init, excluded);
    let all = fact_lines(label, facts, excluded);
    if k < init.len() {
        assert(init[k] == facts[k]);
        lemma_fact_line_kept(label, init, excluded, k);
        let n = choose|n: int| 0 <= n < before.len() && before[n] == line;
        assert(all[n] == line);
    } else {
        assert(all[all.len() - 1] == line);
    }
}

pub proof fn lemma_section_kept(ws: Seq<DailyWorkstreamView>, excluded: Seq<Seq<char>>, i: int)
    requires
        0 <= i < ws.len(),
        workstream_section(ws[i], excluded) is Some,
    ensures
        workstream_sections(ws, excluded).contains(workstream_section(ws[i], excluded)->0),
    decreases ws.len(),
{
    let section = workstream_section(ws[i], excluded)->0;
    let init = ws.drop_last();
    let before = workstream_sections(init, excluded);
    let all = workstream_sections(ws, excluded);
    if i < init.len() {
        assert(init[i] == ws[i]);
        lemma_section_kept(init, excluded, i);
        let n = choose|n: int| 0 <= n < before.len() && before[n] == section;
        assert(all[n] == section);
    } else {
        assert(all[all.len() - 1] == section);
    }
}

proof fn lemma_activity_line(text: Seq<char>)
    ensures
        ({
            let line = fact_line(ACTIVITY_LABEL@, text);
            &&& line.len() > 0
            &&& line[0] == '-'
            &&& no_control(line)
            &&& occurs(line, ACTIVITY_LABEL@)
            &&& occurs(line, safe_text(text))
        }),
{
    reveal_strlit("- **");
    reveal_strlit(":** ");
    reveal_strlit("Activity record · not AI-summarized");
    let label = ACTIVITY_LABEL@;
    let shown = safe_text(text);
    let line = fact_line(label, text);
    law_model_text_is_one_line(text);
    let ahead = "- **"@;
    let between = ":** "@;
    assert(no_control(ahead) && no_control(between) && no_control(label));
    assert forall|i: int| 0 <= i < line.len() implies !control_code(#[trigger] line[i]) by {
        let a: int = ahead.len() as int;
        let b: int = a + label.len();
        let c: int = b + between.len();
        if i < a {
            assert(line[i] == ahead[i]);
        } else if i < b {
            assert(line[i] == label[i - a]);
        } else if i < c {
            assert(line[i] == between[i - b]);
        } else {
            assert(line[i] == shown[i - c]);
        }
    }
    lemma_occurs_self(label);
    lemma_occurs_self(shown);
    lemma_occurs_within(ahead, label, between + shown, label);
    assert(line =~= ahead + label + (between + shown));
    let none = Seq::<char>::empty();
    lemma_occurs_within(ahead + label + between, shown, none, shown);
    assert(line =~= (ahead + label + between) + shown + none);
}

/// Recorded activity that still has evidence stands in the Markdown word for
/// word, behind the label that says that no model has summarized it.
pub proof fn law_recorded_activity_shows(
    content: RevisionView,
    entries: Seq<ManualDailyEntry>,
    evidence: Seq<SnapshotEvidence>,
    i: int,
    k: int,
)
    requires
        0 <= i < content.workstreams.len(),
        0 <= k < content.workstreams[i].activity.len(),
        still_supported(content.workstreams[i].activity[k], excluded_events(evidence)),
    ensures
        ({
            let text = content.workstreams[i].activity[k].text;
            &&& occurs(preview(content, entries, evidence), fact_line(ACTIVITY_LABEL@, text))
            &&& occurs(preview(content, entries, evidence), ACTIVITY_LABEL@)
            &&& occurs(preview(content, entries, evidence), safe_text(text))
        }),
{
    reveal_strlit("\n");
    reveal_strlit("\n\n");
    let none = Seq::<char>::empty();
    let excluded = excluded_events(evidence);
    let w = content.workstreams[i];
    let text = w.activity[k].text;
    let line = fact_line(ACTIVITY_LABEL@, text);
    lemma_activity_line(text);
    lemma_fact_line_kept(ACTIVITY_LABEL@, w.activity, excluded, k);
    let facts = fact_lines(ACTIVITY_LABEL@, w.activity, excluded);
    let lines = workstream_lines(w, excluded);
    let n = choose|n: int| 0 <= n < facts.len() && facts[n] == line;
    let at = lines.len() - facts.len() + n;
    assert(lines[at] == line);
    assert(line =~= none + line + none);
    assert(at_line(line, line, none, none));
    lemma_joined_has_line(lines, "\n"@, at, line);
    let section = workstream_section(w, excluded)->0;
    let top = heading(safe_text(w.work.title), wikilinks(w.links)) + "\n\n"@;
    assert(top.last() == "\n\n"@[1]);
    lemma_line_within(top, joined(lines, "\n"@), none, line);
    assert(section =~= top + joined(lines, "\n"@) + none);
    lemma_section_kept(content.workstreams, excluded, i);
    let parts = workstream_sections(content.workstreams, excluded);
    let m = choose|m: int| 0 <= m < parts.len() && parts[m] == section;
    lemma_joined_has_line(parts, "\n\n"@, m, line);
    let body = joined(parts, "\n\n"@);
    let manual = manual_lines(entries, content.manual_entry_ids);
    let sections = preview_sections(manual, parts, content.open_questions);
    if manual.len() == 0 {
        let (before, after) = choose|before: Seq<char>, after: Seq<char>|
            at_line(body, line, before, after);
        lemma_occurs_self(line);
        lemma_occurs_within(before, line, after, line);
        assert(sections[0] == body);
        lemma_joined_occurs(sections, "\n\n"@, 0, line);
    } else {
        lemma_line_survives_demotion(body, line);
        lemma_occurs_within("### Automated activity\n\n"@, with_demoted_headings(body), none, line);
        assert(sections[1] =~= "### Automated activity\n\n"@ + with_demoted_headings(body) + none);
        lemma_joined_occurs(sections, "\n\n"@, 1, line);
    }
    let all = preview(content, entries, evidence);
    lemma_occurs_trans(all, line, ACTIVITY_LABEL@);
    lemma_occurs_trans(all, line, safe_text(text));
}

/// What occurs in an occurring text occurs.
pub proof fn lemma_occurs_trans(a: Seq<char>, b: Seq<char>, c: Seq<char>)
    requires
        occurs(a, b),
        occurs(b, c),
    ensures
        occurs(a, c),
{
    let at = choose|at: int| occurs_at(a, b, at);
    let head = a.take(at);
    let tail = a.skip(at + b.len());
    assert(a =~= head + b + tail) by {
        assert(a.subrange(at, at + b.len()) == b);
    }
    lemma_occurs_within(head, b, tail, c);
}

} // verus!
