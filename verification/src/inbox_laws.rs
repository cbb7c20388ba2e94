//! What is read from the inbox, what is written to a note, and how jobs go on.
use crate::consolidation::{
    DEFAULT_DAILY_CONSOLIDATION_PROMPT, DailyConsolidationJob, JobAction, JobEvent,
    daily_prompt, is_canceled, is_next_action, is_superseded, preference_of, proposal_of_job,
    superseded_ids,
};
use crate::knowledge::event_ids;
use crate::ordered::{
    Ranked, lemma_precedes_irreflexive, lemma_precedes_total, lemma_precedes_transitive,
    lemma_push_contains, lemma_ranked_len, lemma_ranked_order, precedes, ranked,
    ranks_are_an_order,
};
use crate::preview_laws::{lemma_occurs_self, lemma_occurs_within};
use crate::proposal_inbox::{
    FrontmatterView, PendingProposal, PendingView, ProposalFile, all_pending, files_of,
    found_file, is_file_of, is_note_name, is_proposal_file, is_proposal_id, parsed_file,
    pending_of, proposal_files, proposal_parts,
};
use crate::proposal_notes::{
    applicable, daily_note_start, event_marks, has_details, marker_of, note_after_apply,
    report_details, report_heading,
};
use crate::text::{
    around, begins_with, finishes_with, first_at, free_of, joined, lemma_first_at_unique,
    occurs, occurs_at, opt_text, text_lines, trim_end, trim_start, trimmed, views,
};
use crate::vault::is_ascii_alnum;
use vstd::prelude::*;
use vstd::string::*;

verus! {

/// What a proposal leaves in a note that has not got it: the note as it was, a
/// heading with its link, its text, and its mark; a note that was empty begins with
/// its own name.
pub proof fn law_proposal_is_written_to_its_note(
    current: Seq<char>,
    f: FrontmatterView,
    markdown: Seq<char>,
    id: Seq<char>,
)
    ensures
        ({
            let mark = "<!-- log-inbox:"@ + id + " -->"@;
            let after = note_after_apply(current, f, markdown, id);
            let start = if trimmed(current).len() == 0 {
                "# "@ + f.target_note
            } else {
                trim_end(current)
            };
            let title = if f.canonical_links.len() == 1 {
                f.canonical_links[0] + " activity report"@
            } else {
                "Activity report"@
            };
            &&& after is None <==> occurs(current, mark)
            &&& after is Some ==> begins_with(
                after->0,
                start + "\n\n## "@ + title + "\n\n"@ + trimmed(markdown),
            )
            &&& after is Some ==> finishes_with(after->0, "\n"@ + mark + "\n"@)
        }),
{
    reveal_strlit("Activity report\n\n");
    reveal_strlit("Activity report");
    reveal_strlit(" activity report\n\n");
    reveal_strlit(" activity report");
    reveal_strlit("\n\n");
    if let Some(after) = note_after_apply(current, f, markdown, id) {
        let mark = marker_of(id);
        let tail = "\n"@ + mark + "\n"@;
        assert("Activity report\n\n"@ =~= "Activity report"@ + "\n\n"@);
        assert(" activity report\n\n"@ =~= " activity report"@ + "\n\n"@);
        let start = daily_note_start(current, f.target_note);
        let title = if f.canonical_links.len() == 1 {
            f.canonical_links[0] + " activity report"@
        } else {
            "Activity report"@
        };
        assert(report_heading(f.canonical_links) =~= title + "\n\n"@);
        let head = start + "\n\n## "@ + title + "\n\n"@ + trimmed(markdown);
        assert(after =~= head + report_details(markdown, f) + tail);
        assert(after.take(head.len() as int) =~= head);
        assert(after.skip(after.len() - tail.len()) =~= tail);
    }
}

/// Whether a text has a line of details.
pub open spec fn tells_details(markdown: Seq<char>) -> bool {
    exists|line: Seq<char>| #[trigger]
        text_lines(markdown).contains(line) && begins_with(trim_start(line), "Details:"@)
}

/// A text that tells its details gets at most the links to related notes; any other
/// gets a line with its links and every event of its evidence.
pub proof fn law_details_are_told_once(markdown: Seq<char>, f: FrontmatterView)
    ensures
        tells_details(markdown) && f.canonical_links.len() <= 1 ==> report_details(
            markdown,
            f,
        ).len() == 0,
        tells_details(markdown) && f.canonical_links.len() > 1 ==> report_details(markdown, f)
            == "\n\nRelated: "@ + joined(f.canonical_links, " · "@),
        !tells_details(markdown) ==> begins_with(report_details(markdown, f), "\n\nDetails:"@),
        !tells_details(markdown) && f.canonical_links.len() > 0 ==> begins_with(
            report_details(markdown, f),
            "\n\nDetails: "@ + joined(f.canonical_links, " · "@),
        ),
        !tells_details(markdown) ==> forall|e: Seq<char>| #[trigger]
            f.evidence_event_ids.contains(e) ==> occurs(
                report_details(markdown, f),
                " · `"@ + e + "`"@,
            ),
{
    let lines = text_lines(markdown);
    assert(tells_details(markdown) <==> has_details(lines)) by {
        if has_details(lines) {
            let i = choose|i: int|
                0 <= i < lines.len() && begins_with(trim_start(#[trigger] lines[i]), "Details:"@);
            assert(lines.contains(lines[i]));
        }
        if tells_details(markdown) {
            let line = choose|line: Seq<char>| #[trigger]
                lines.contains(line) && begins_with(trim_start(line), "Details:"@);
            let i = choose|i: int| 0 <= i < lines.len() && lines[i] == line;
            assert(begins_with(trim_start(lines[i]), "Details:"@));
        }
    }
    if !tells_details(markdown) {
        let all = report_details(markdown, f);
        let head = "\n\nDetails:"@;
        assert(all.take(head.len() as int) =~= head);
        reveal_strlit("\n\nDetails:");
        reveal_strlit("\n\nDetails: ");
        reveal_strlit(" ");
        if f.canonical_links.len() > 0 {
            let more = "\n\nDetails: "@ + joined(f.canonical_links, " · "@);
            assert("\n\nDetails: "@ =~= head + " "@);
            assert(all.take(more.len() as int) =~= more);
        }
        let marks = event_marks(f.evidence_event_ids);
        assert forall|e: Seq<char>| #[trigger] f.evidence_event_ids.contains(e) implies occurs(
            all,
            " · `"@ + e + "`"@,
        ) by {
            lemma_event_marks(f.evidence_event_ids, e);
            let none = Seq::<char>::empty();
            let front = all.take(all.len() - marks.len());
            assert(all =~= front + marks + none);
            lemma_occurs_within(front, marks, none, " · `"@ + e + "`"@);
        }
    }
}

spec fn event_mark(e: Seq<char>) -> Seq<char> {
    " · `"@ + e + "`"@
}

proof fn lemma_marks_step(ids: Seq<Seq<char>>)
    requires
        ids.len() > 0,
    ensures
        event_marks(ids) == event_marks(ids.drop_last()) + event_mark(ids.last()),
{
    let before = event_marks(ids.drop_last());
    let last = ids.last();
    assert(before + " · `"@ + last + "`"@ =~= before + event_mark(last));
}

proof fn lemma_marks_within(before: Seq<char>, last: Seq<char>, one: Seq<char>)
    requires
        occurs(before, one) || last == one,
    ensures
        occurs(before + last, one),
{
    let none = Seq::<char>::empty();
    if last == one {
        lemma_occurs_self(one);
        lemma_occurs_within(before, one, none, one);
        assert(before + last =~= before + one + none);
    } else {
        lemma_occurs_within(none, before, last, one);
        assert(before + last =~= none + before + last);
    }
}

proof fn lemma_event_marks(ids: Seq<Seq<char>>, e: Seq<char>)
    requires
        ids.contains(e),
    ensures
        occurs(event_marks(ids), event_mark(e)),
    decreases ids.len(),
{
    let init = ids.drop_last();
    assert(ids =~= init.push(ids.last()));
    lemma_push_contains(init, ids.last(), e);
    lemma_marks_step(ids);
    if init.contains(e) {
        lemma_event_marks(init, e);
    }
    lemma_marks_within(event_marks(init), event_mark(ids.last()), event_mark(e));
}

/// A proposal is found by its ID just where the ID is one and exactly one file ends
/// in it.
pub proof fn law_proposals_are_found_by_their_id(files: Seq<ProposalFile>, id: Seq<char>)
    ensures
        found_file(files, id) is Ok ==> is_proposal_id(id) && exists|i: int|
            0 <= i < files.len() && #[trigger] files[i] == found_file(files, id)->Ok_0
                && finishes_with(files[i].name@, "-"@ + id + ".md"@),
        !is_proposal_id(id) ==> found_file(files, id) == Err::<ProposalFile, Seq<char>>(
            "invalid proposal ID"@,
        ),
        (forall|i: int|
            0 <= i < files.len() ==> !finishes_with(
                (#[trigger] files[i]).name@,
                "-"@ + id + ".md"@,
            )) && is_proposal_id(id) ==> found_file(files, id) == Err::<ProposalFile, Seq<char>>(
            "pending proposal "@ + id + " not found"@,
        ),
        forall|i: int, j: int|
            0 <= i < j < files.len() && finishes_with(
                (#[trigger] files[i]).name@,
                "-"@ + id + ".md"@,
            ) && finishes_with((#[trigger] files[j]).name@, "-"@ + id + ".md"@) ==> found_file(
                files,
                id,
            ) is Err,
{
    let found = files_of(files, id);
    if found.len() == 1 {
        assert(found.contains(found[0]));
        lemma_files_of(files, id, found[0]);
    }
    if forall|i: int|
        0 <= i < files.len() ==> !finishes_with((#[trigger] files[i]).name@, "-"@ + id + ".md"@) {
        if found.len() > 0 {
            assert(found.contains(found[0]));
            lemma_files_of(files, id, found[0]);
        }
    }
    assert forall|i: int, j: int|
        0 <= i < j < files.len() && finishes_with(
            (#[trigger] files[i]).name@,
            "-"@ + id + ".md"@,
        ) && finishes_with((#[trigger] files[j]).name@, "-"@ + id + ".md"@) implies found_file(
        files,
        id,
    ) is Err by {
        lemma_two_files(files, id, i, j);
    }
}

proof fn lemma_files_of(files: Seq<ProposalFile>, id: Seq<char>, f: &ProposalFile)
    requires
        files_of(files, id).contains(f),
    ensures
        exists|i: int|
            0 <= i < files.len() && #[trigger] files[i] == *f && finishes_with(
                files[i].name@,
                "-"@ + id + ".md"@,
            ),
    decreases files.len(),
{
    if files.len() > 0 {
        let init = files.drop_last();
        let n = files.len() - 1;
        let before = files_of(init, id);
        if is_file_of(files.last().name@, id) {
            lemma_push_contains(before, &files.last(), f);
        }
        if before.contains(f) {
            lemma_files_of(init, id, f);
            let i = choose|i: int|
                0 <= i < init.len() && #[trigger] init[i] == *f && finishes_with(
                    init[i].name@,
                    "-"@ + id + ".md"@,
                );
            assert(files[i] == *f);
        } else {
            assert(files[n] == *f);
        }
    }
}

proof fn lemma_some_file(files: Seq<ProposalFile>, id: Seq<char>, i: int)
    requires
        0 <= i < files.len(),
        is_file_of(files[i].name@, id),
    ensures
        files_of(files, id).len() > 0,
    decreases files.len(),
{
    if i < files.len() - 1 {
        assert(files.drop_last()[i] == files[i]);
        lemma_some_file(files.drop_last(), id, i);
    }
}

proof fn lemma_two_files(files: Seq<ProposalFile>, id: Seq<char>, i: int, j: int)
    requires
        0 <= i < j < files.len(),
        is_file_of(files[i].name@, id),
        is_file_of(files[j].name@, id),
    ensures
        files_of(files, id).len() > 1,
    decreases files.len(),
{
    let init = files.drop_last();
    assert(init[i] == files[i]);
    if j < init.len() {
        assert(init[j] == files[j]);
        lemma_two_files(init, id, i, j);
    } else {
        lemma_some_file(init, id, i);
    }
}

/// An ID of a proposal begins with its word and holds letters, digits and
/// underscores of ASCII only.
pub proof fn law_ids_of_proposals(id: Seq<char>)
    ensures
        is_proposal_id(id) <==> begins_with(id, "proposal_"@) && forall|i: int|
            0 <= i < id.len() ==> ('0' <= #[trigger] id[i] <= '9' || 'a' <= id[i] <= 'z' || 'A'
                <= id[i] <= 'Z' || id[i] == '_'),
{
    if is_proposal_id(id) {
        assert forall|i: int| 0 <= i < id.len() implies ('0' <= #[trigger] id[i] <= '9' || 'a'
            <= id[i] <= 'z' || 'A' <= id[i] <= 'Z' || id[i] == '_') by {
            assert(is_ascii_alnum(id[i]) || id[i] == '_');
        }
    }
}

/// A note that a proposal is written to is named plainly: the name is not blank and
/// leads to no other folder.
pub proof fn law_names_of_notes(note: Seq<char>)
    ensures
        is_note_name(note) <==> trimmed(note).len() > 0 && free_of(note, '/') && free_of(note, '\\')
            && free_of(note, '\0') && !occurs(note, ".."@),
{
    reveal_strlit("/");
    reveal_strlit("\\");
    reveal_strlit("\0");
    lemma_occurs_char(note, "/"@, '/');
    lemma_occurs_char(note, "\\"@, '\\');
    lemma_occurs_char(note, "\0"@, '\0');
}

proof fn lemma_occurs_char(s: Seq<char>, p: Seq<char>, c: char)
    requires
        p.len() == 1,
        p[0] == c,
    ensures
        occurs(s, p) <==> !free_of(s, c),
{
    if occurs(s, p) {
        let at = choose|at: int| occurs_at(s, p, at);
        assert(s.subrange(at, at + 1)[0] == c);
        assert(s[at] == c);
    }
    if !free_of(s, c) {
        let i = choose|i: int| 0 <= i < s.len() && s[i] == c;
        assert(s.subrange(i, i + 1) =~= p);
        assert(occurs_at(s, p, i));
    }
}

/// A proposal is applied just where it is found, can be read, says the ID that it
/// was found by, and names a note plainly.
pub proof fn law_proposals_that_can_be_applied(files: Seq<ProposalFile>, id: Seq<char>)
    ensures
        applicable(files, id) is Ok <==> found_file(files, id) is Ok && parsed_file(
            found_file(files, id)->Ok_0,
        ) is Ok && (parsed_file(found_file(files, id)->Ok_0)->Ok_0).0.proposal_id == id
            && is_note_name((parsed_file(found_file(files, id)->Ok_0)->Ok_0).0.target_note),
        applicable(files, id) is Ok ==> applicable(files, id)->Ok_0 == parsed_file(
            found_file(files, id)->Ok_0,
        )->Ok_0,
{
}

/// The text of a proposal is what follows its frontmatter and heading; without
/// frontmatter there is no proposal.
pub proof fn law_proposal_files_are_read(yaml: Seq<char>, body: Seq<char>, contents: Seq<char>)
    ensures
        !begins_with(contents, "---\n"@) ==> proposal_parts(contents) is Err,
        !occurs(yaml + "\n---"@, "\n---\n"@) ==> proposal_parts(
            "---\n"@ + yaml + "\n---\n"@ + body,
        ) == Ok::<(Seq<char>, Seq<char>), Seq<char>>((yaml, body)),
{
    reveal_strlit("---\n");
    if !occurs(yaml + "\n---"@, "\n---\n"@) {
        let all = "---\n"@ + yaml + "\n---\n"@ + body;
        let rest = yaml + "\n---\n"@ + body;
        assert(all =~= "---\n"@ + rest);
        assert(all.take(4) =~= "---\n"@);
        assert(all.skip(4) =~= rest);
        lemma_yaml_ends(yaml, body);
    }
}

proof fn lemma_yaml_ends(yaml: Seq<char>, body: Seq<char>)
    requires
        !occurs(yaml + "\n---"@, "\n---\n"@),
    ensures
        around(yaml + "\n---\n"@ + body, "\n---\n"@) == Some((yaml, body)),
{
    let p = "\n---\n"@;
    let short = yaml + "\n---"@;
    let rest = yaml + p + body;
    let at = yaml.len() as int;
    assert(p.len() == 5 && "\n---"@.len() == 4 && p.take(4) =~= "\n---"@) by {
        reveal_strlit("\n---\n");
        reveal_strlit("\n---");
    }
    assert(rest.subrange(at, at + 5) =~= p);
    assert(occurs_at(rest, p, at));
    assert forall|k: int| 0 <= k < at implies !occurs_at(rest, p, k) by {
        if occurs_at(rest, p, k) {
            assert(short =~= rest.take(at + 4)) by {
                assert(rest.take(at + 4) =~= yaml + p.take(4));
            }
            assert(short.subrange(k, k + 5) =~= rest.subrange(k, k + 5));
            assert(occurs_at(short, p, k));
        }
    }
    assert(first_at(rest, p, 0, at));
    let found = choose|i: int| first_at(rest, p, 0, i);
    lemma_first_at_unique(rest, p, at, found);
    assert(rest.take(at) =~= yaml);
    assert(rest.skip(at + 5) =~= body);
}

/// The inbox lists every proposal file once, the last name first, and fails with
/// the first that cannot be read.
pub proof fn law_inbox_lists_every_proposal(files: Seq<ProposalFile>)
    ensures
        proposal_files(files) == file_views(files).filter(
            |f: &ProposalFile| is_proposal_file(f.name@),
        ),
        all_pending(ranked(proposal_files(files))) is Ok <==> forall|i: int|
            0 <= i < ranked(proposal_files(files)).len() ==> pending_of(
                *#[trigger] ranked(proposal_files(files))[i],
            ) is Ok,
        all_pending(ranked(proposal_files(files))) is Ok ==> {
            let shown = all_pending(ranked(proposal_files(files)))->Ok_0;
            &&& shown.len() == proposal_files(files).len()
            &&& forall|i: int|
                0 <= i < shown.len() ==> pending_of(*ranked(proposal_files(files))[i]) == Ok::<
                    PendingView,
                    Seq<char>,
                >(#[trigger] shown[i])
            &&& forall|i: int, j: int|
                0 <= i < j < shown.len() ==> !precedes(
                    (#[trigger] shown[i]).filename,
                    (#[trigger] shown[j]).filename,
                )
        },
{
    let found = proposal_files(files);
    let sorted = ranked(found);
    lemma_proposal_files(files);
    lemma_ranked_len(found);
    lemma_all_pending(sorted);
    lemma_file_order();
    lemma_ranked_order(found);
    if all_pending(sorted) is Ok {
        let shown = all_pending(sorted)->Ok_0;
        assert forall|i: int, j: int| 0 <= i < j < shown.len() implies !precedes(
            (#[trigger] shown[i]).filename,
            (#[trigger] shown[j]).filename,
        ) by {
            assert(!sorted[j].ranks_before(sorted[i]));
        }
    }
}

/// The files of the inbox.
pub open spec fn file_views<'a>(files: Seq<ProposalFile>) -> Seq<&'a ProposalFile> {
    Seq::new(files.len(), |i: int| &files[i])
}

proof fn lemma_proposal_files(files: Seq<ProposalFile>)
    ensures
        proposal_files(files) == file_views(files).filter(
            |f: &ProposalFile| is_proposal_file(f.name@),
        ),
    decreases files.len(),
{
    reveal(Seq::filter);
    if files.len() > 0 {
        lemma_proposal_files(files.drop_last());
        assert(file_views(files).drop_last() =~= file_views(files.drop_last()));
    }
}

proof fn lemma_all_pending(files: Seq<&ProposalFile>)
    ensures
        all_pending(files) is Ok <==> forall|i: int|
            0 <= i < files.len() ==> pending_of(*#[trigger] files[i]) is Ok,
        all_pending(files) is Ok ==> all_pending(files)->Ok_0.len() == files.len() && forall|i: int|
            0 <= i < files.len() ==> pending_of(*files[i]) == Ok::<PendingView, Seq<char>>(
                #[trigger] all_pending(files)->Ok_0[i],
            ),
    decreases files.len(),
{
    if files.len() > 0 {
        let init = files.drop_last();
        let n = files.len() - 1;
        lemma_all_pending(init);
        assert(files[n] == files.last());
        if all_pending(files) is Ok {
            assert forall|i: int| 0 <= i < files.len() implies pending_of(
                *#[trigger] files[i],
            ) is Ok by {
                if i < n {
                    assert(init[i] == files[i]);
                }
            }
            let before = all_pending(init)->Ok_0;
            let all = all_pending(files)->Ok_0;
            assert forall|i: int| 0 <= i < files.len() implies pending_of(*files[i]) == Ok::<
                PendingView,
                Seq<char>,
            >(#[trigger] all[i]) by {
                if i < n {
                    assert(all[i] == before[i]);
                    assert(init[i] == files[i]);
                }
            }
        }
        if forall|i: int| 0 <= i < files.len() ==> pending_of(*#[trigger] files[i]) is Ok {
            assert forall|i: int| 0 <= i < init.len() implies pending_of(
                *#[trigger] init[i],
            ) is Ok by {
                assert(init[i] == files[i]);
            }
        }
    }
}

proof fn lemma_file_order()
    ensures
        ranks_are_an_order::<ProposalFile>(),
{
    assert forall|a: &ProposalFile, b: &ProposalFile| #[trigger] a.ranks_before(
        b,
    ) implies !b.ranks_before(a) by {
        if b.ranks_before(a) {
            lemma_precedes_transitive(a.name@, b.name@, a.name@);
            lemma_precedes_irreflexive(a.name@);
        }
    }
    assert forall|a: &ProposalFile, b: &ProposalFile, c: &ProposalFile|
        !(#[trigger] b.ranks_before(a)) && !(#[trigger] c.ranks_before(
            b,
        )) implies !c.ranks_before(a) by {
        lemma_precedes_total(a.name@, b.name@);
        lemma_precedes_total(b.name@, c.name@);
        if c.ranks_before(a) {
            if b.name@ != a.name@ && c.name@ != b.name@ {
                lemma_precedes_transitive(c.name@, b.name@, a.name@);
                lemma_precedes_transitive(a.name@, c.name@, a.name@);
                lemma_precedes_irreflexive(a.name@);
            }
        }
    }
}

/// The last preference under a key counts.
pub proof fn law_last_preference_counts(
    preferences: Seq<(String, String)>,
    key: Seq<char>,
    k: int,
)
    ensures
        0 <= k < preferences.len() && preferences[k].0@ == key && (forall|j: int|
            k < j < preferences.len() ==> (#[trigger] preferences[j]).0@ != key) ==> preference_of(
            preferences,
            key,
        ) == Some(preferences[k].1@),
        (forall|j: int| 0 <= j < preferences.len() ==> (#[trigger] preferences[j]).0@ != key)
            ==> preference_of(preferences, key) is None,
    decreases preferences.len(),
{
    if preferences.len() > 0 {
        let init = preferences.drop_last();
        let n = preferences.len() - 1;
        law_last_preference_counts(init, key, k);
        assert(preferences[n] == preferences.last());
        if 0 <= k < n {
            assert(init[k] == preferences[k]);
        }
    }
}

/// The owner's own prompt is used, without white space at its ends, where there is
/// one; else the default, with the owner's instructions behind it where there are
/// any.
pub proof fn law_prompt_of_a_consolidation(preferences: Seq<(String, String)>)
    ensures
        ({
            let own = preference_of(preferences, "daily_consolidation_prompt"@);
            let more = preference_of(preferences, "consolidation_instructions"@);
            let has_own = own is Some && trimmed(own->0).len() > 0;
            let has_more = more is Some && trimmed(more->0).len() > 0;
            &&& has_own ==> daily_prompt(preferences) == trimmed(own->0)
            &&& !has_own && has_more ==> daily_prompt(preferences)
                == DEFAULT_DAILY_CONSOLIDATION_PROMPT@ + "\n\nAdditional preferences:\n"@ + trimmed(
                more->0,
            )
            &&& !has_own && !has_more ==> daily_prompt(preferences)
                == DEFAULT_DAILY_CONSOLIDATION_PROMPT@
        }),
{
}

/// A job supersedes just those proposals for its note that another made and whose
/// evidence, of which there is some, it has all of; in their order.
pub proof fn law_superseded_proposals(
    proposals: Seq<PendingProposal>,
    job: DailyConsolidationJob,
    event_ids: Seq<Seq<char>>,
)
    ensures
        superseded_ids(proposals, job, event_ids) == proposals.filter(
            |p: PendingProposal|
                p.target_note@ == job.target_note@ && opt_text(p.consolidation_job_id) != Some(
                    job.id@,
                ) && p.evidence_event_ids@.len() > 0 && forall|e: Seq<char>| #[trigger]
                    views(p.evidence_event_ids@).contains(e) ==> event_ids.contains(e),
        ).map_values(|p: PendingProposal| p.proposal_id@),
    decreases proposals.len(),
{
    reveal(Seq::filter);
    let pred = |p: PendingProposal|
        p.target_note@ == job.target_note@ && opt_text(p.consolidation_job_id) != Some(job.id@)
            && p.evidence_event_ids@.len() > 0 && forall|e: Seq<char>| #[trigger]
            views(p.evidence_event_ids@).contains(e) ==> event_ids.contains(e);
    let name = |p: PendingProposal| p.proposal_id@;
    if proposals.len() > 0 {
        let init = proposals.drop_last();
        let last = proposals.last();
        law_superseded_proposals(init, job, event_ids);
        let ids = views(last.evidence_event_ids@);
        assert((forall|e: Seq<char>| #[trigger] ids.contains(e) ==> event_ids.contains(e)) <==> (
        forall|i: int|
            0 <= i < last.evidence_event_ids@.len() ==> event_ids.contains(
                (#[trigger] last.evidence_event_ids@[i])@,
            ))) by {
            if forall|e: Seq<char>| #[trigger] ids.contains(e) ==> event_ids.contains(e) {
                assert forall|i: int| 0 <= i < last.evidence_event_ids@.len() implies event_ids.contains(
                    (#[trigger] last.evidence_event_ids@[i])@,
                ) by {
                    assert(ids[i] == last.evidence_event_ids@[i]@);
                    assert(ids.contains(ids[i]));
                }
            }
            if forall|i: int|
                0 <= i < last.evidence_event_ids@.len() ==> event_ids.contains(
                    (#[trigger] last.evidence_event_ids@[i])@,
                ) {
                assert forall|e: Seq<char>| #[trigger] ids.contains(e) implies event_ids.contains(
                    e,
                ) by {
                    let i = choose|i: int| 0 <= i < ids.len() && ids[i] == e;
                    assert(event_ids.contains(last.evidence_event_ids@[i]@));
                }
            }
        }
        let kept = init.filter(pred);
        if is_superseded(last, job, event_ids) {
            assert(kept.push(last).map_values(name) =~= kept.map_values(name).push(
                last.proposal_id@,
            ));
        }
    } else {
        assert(proposals.filter(pred).map_values(name) =~= Seq::<Seq<char>>::empty());
    }
}

/// The proposal that a job has made already is the first that names the job.
pub proof fn law_proposal_of_a_job(proposals: Seq<PendingProposal>, job: Seq<char>, k: int)
    ensures
        0 <= k < proposals.len() && opt_text(proposals[k].consolidation_job_id) == Some(job) && (
        forall|j: int|
            0 <= j < k ==> opt_text((#[trigger] proposals[j]).consolidation_job_id) != Some(job))
            ==> proposal_of_job(proposals, job) == Some(proposals[k].proposal_id@),
        (forall|j: int|
            0 <= j < proposals.len() ==> opt_text((#[trigger] proposals[j]).consolidation_job_id)
                != Some(job)) ==> proposal_of_job(proposals, job) is None,
    decreases proposals.len(),
{
    if proposals.len() > 0 {
        let init = proposals.drop_last();
        let n = proposals.len() - 1;
        law_proposal_of_a_job(init, job, k);
        assert(proposals[n] == proposals.last());
        assert forall|j: int| 0 <= j < init.len() implies #[trigger] init[j] == proposals[j] by {}
        if 0 <= k < n {
            assert(init[k] == proposals[k]);
        } else if k == n && (forall|j: int|
            0 <= j < k ==> opt_text((#[trigger] proposals[j]).consolidation_job_id) != Some(job)) {
            assert forall|j: int| 0 <= j < init.len() implies opt_text(
                (#[trigger] init[j]).consolidation_job_id,
            ) != Some(job) by {
                assert(opt_text(proposals[j].consolidation_job_id) != Some(job));
            }
        }
    }
}

/// How a job goes on that is not canceled: it waits, stages what the model said,
/// marks the events of what it staged, and is then complete. Where they cannot be
/// marked what was staged is discarded, and a failure is recorded.
pub proof fn law_jobs_go_on(event: JobEvent, action: JobAction)
    requires
        is_next_action(event, action),
        !is_canceled(event),
    ensures
        match event {
            JobEvent::Waited { .. } => action is Wait,
            JobEvent::Summarized { .. } => action is Stage,
            JobEvent::Staged { proposal_id, .. } => action is Mark && action->Mark_proposal_id@
                == proposal_id@,
            JobEvent::Marked { proposal_id } => action is Finish && action->Finish_status@
                == "completed"@ && opt_text(action->Finish_proposal_id) == Some(proposal_id@)
                && action->Finish_error is None && action->Finish_discard is None,
            JobEvent::MarkFailed { proposal_id, error } => action is Fail && action->Fail_discard@
                == proposal_id@ && action->Fail_error@ == error@,
            JobEvent::Failed { error, .. } => action is Finish && action->Finish_status@
                == "failed"@ && opt_text(action->Finish_error) == Some(error@)
                && action->Finish_proposal_id is None,
        },
{
}

} // verus!
