//! Writing proposals to the inbox and into daily notes.
use crate::details::{moment_text, text_of_moment};
use crate::errors::{text2, text3};
use crate::json::{quoted, quoted_text};
use crate::models::Moment;
use crate::proposal_inbox::{
    AppliedProposal, FrontmatterView, ParsedProposal, ProposalFile, ProposalFrontmatter,
    ProposalInbox, StagedProposal, body_markdown, found_file, is_file_of, is_note_name,
    parse_proposal_file, parsed_file, proposal_parts, validate_note_name,
};
use crate::proposals::{ProposalView, SummaryProposal};
use crate::text::{
    around, begins_with, chars_of, contains, copy_texts, first_at, free_of, is_blank, join,
    joined, lemma_first_at_unique, lemma_take_step, lemma_trimmed_blank, occurs, occurs_at,
    opt_text, split_lines, starts_with, str_eq, string_of, text_lines, trim, trim_end,
    trim_left, trim_start, trimmed, views, white_space,
};
use crate::vault_links::{formatted, formatted_moment};
use vstd::prelude::*;
use vstd::string::*;

verus! {

/// The items of a list in YAML.
pub open spec fn yaml_item_lines(values: Seq<Seq<char>>) -> Seq<char>
    decreases values.len(),
{
    if values.len() == 0 {
        Seq::empty()
    } else {
        yaml_item_lines(values.drop_last()) + ("  - "@ + quoted(values.last()) + "\n"@)
    }
}

/// A list in YAML under a key.
pub open spec fn yaml_list(key: Seq<char>, values: Seq<Seq<char>>) -> Seq<char> {
    if values.len() == 0 {
        key + ": []\n"@
    } else {
        (key + ":\n"@) + yaml_item_lines(values)
    }
}

/// A text in YAML under a key.
pub open spec fn yaml_field(key: Seq<char>, value: Seq<char>) -> Seq<char> {
    key + ": "@ + quoted(value) + "\n"@
}

/// The frontmatter of a proposal.
pub open spec fn proposal_yaml(id: Seq<char>, created_at: Moment, p: ProposalView) -> Seq<char> {
    "type: log-inbox-proposal\n"@ + yaml_field("proposal_id"@, id) + "status: pending\n"@
        + yaml_field("created_at"@, moment_text(created_at)) + yaml_field(
        "target_note"@,
        p.target_note,
    ) + yaml_field("confidence"@, p.confidence) + yaml_field("provider"@, p.provider)
        + "requires_review: true\n"@ + "evidence_event_ids:\n"@ + yaml_item_lines(p.evidence_event_ids)
        + yaml_list("canonical_links"@, p.canonical_links) + yaml_list(
        "link_candidates"@,
        p.link_candidates,
    ) + yaml_list("supersedes_proposal_ids"@, p.supersedes_proposal_ids) + (
    match p.consolidation_job_id {
        Some(job) => yaml_field("consolidation_job_id"@, job),
        None => Seq::empty(),
    }) + yaml_field("link_context_revision"@, p.link_context_revision)
}

/// The questions of a proposal, one a line.
pub open spec fn open_question_lines(questions: Seq<Seq<char>>) -> Seq<char>
    decreases questions.len(),
{
    if questions.len() == 0 {
        Seq::empty()
    } else {
        open_question_lines(questions.drop_last()) + "- "@ + questions.last() + "\n"@
    }
}

/// What follows the heading of a proposal: its text and its open questions.
pub open spec fn proposal_text(p: ProposalView) -> Seq<char> {
    if p.open_questions.len() == 0 {
        p.markdown + "\n"@
    } else {
        p.markdown + "\n"@ + "\n## Open questions\n\n"@ + open_question_lines(p.open_questions)
    }
}

/// The file of a proposal.
pub open spec fn proposal_file_text(id: Seq<char>, created_at: Moment, p: ProposalView) -> Seq<
    char,
> {
    "---\n"@ + proposal_yaml(id, created_at, p) + "---\n\n# Log summary proposal\n\n"@
        + proposal_text(p)
}

/// Lines none of which begins with a dash: a text that ends with a line feed, in
/// which no line feed is followed by a dash.
pub open spec fn plain_lines(s: Seq<char>) -> bool {
    &&& s.len() > 0
    &&& s.last() == '\n'
    &&& forall|i: int| 0 <= i < s.len() - 1 && #[trigger] s[i] == '\n' ==> s[i + 1] != '-'
}

/// One line that does not begin with a dash.
pub open spec fn plain_line(s: Seq<char>) -> bool {
    &&& s.len() > 1
    &&& s[0] != '-'
    &&& s.last() == '\n'
    &&& free_of(s.drop_last(), '\n')
}

proof fn lemma_add_line(s: Seq<char>, line: Seq<char>)
    requires
        plain_lines(s),
        plain_line(line),
    ensures
        plain_lines(s + line),
{
    let all = s + line;
    assert(all.last() == line.last());
    assert forall|i: int| 0 <= i < all.len() - 1 && #[trigger] all[i] == '\n' implies all[i + 1]
        != '-' by {
        if i < s.len() - 1 {
            assert(s[i] == '\n');
            assert(all[i + 1] == s[i + 1]);
        } else if i == s.len() - 1 {
            assert(all[i + 1] == line[0]);
        } else {
            let k = i - s.len();
            assert(line.drop_last()[k] == line[k]);
        }
    }
}

proof fn lemma_only_line(line: Seq<char>)
    requires
        plain_line(line),
    ensures
        plain_lines(line),
{
    assert forall|i: int| 0 <= i < line.len() - 1 && #[trigger] line[i] == '\n' implies line[i + 1]
        != '-' by {
        assert(line.drop_last()[i] == line[i]);
    }
}

fn push_line(out: &mut String, key: &str, separator: &str, value: &str)
    requires
        plain_lines(old(out)@),
        plain_line(key@ + separator@ + value@ + "\n"@),
    ensures
        final(out)@ == old(out)@ + (key@ + separator@ + value@ + "\n"@),
        plain_lines(final(out)@),
{
    let ghost before = out@;
    let ghost line = key@ + separator@ + value@ + "\n"@;
    proof {
        lemma_add_line(before, line);
    }
    out.push_str(key);
    out.push_str(separator);
    out.push_str(value);
    out.push_str("\n");
    assert(out@ =~= before + line);
}

proof fn lemma_line(key: Seq<char>, separator: Seq<char>, value: Seq<char>)
    requires
        key.len() > 0,
        key[0] != '-',
        free_of(key, '\n'),
        free_of(separator, '\n'),
        free_of(value, '\n'),
    ensures
        plain_line(key + separator + value + "\n"@),
{
    reveal_strlit("\n");
    let line = key + separator + value + "\n"@;
    assert(line[0] == key[0]);
    assert(line.last() == '\n');
    assert forall|i: int| 0 <= i < line.len() - 1 implies #[trigger] line.drop_last()[i] != '\n' by {
        if i < key.len() {
            assert(line[i] == key[i]);
        } else if i < key.len() + separator.len() {
            assert(line[i] == separator[i - key.len()]);
        } else {
            assert(line[i] == value[i - key.len() - separator.len()]);
        }
    }
}

/// A key of the frontmatter.
pub open spec fn is_key(key: Seq<char>) -> bool {
    key.len() > 0 && key[0] != '-' && free_of(key, '\n')
}

fn push_field(out: &mut String, key: &str, value: &str)
    requires
        plain_lines(old(out)@),
        is_key(key@),
    ensures
        final(out)@ == old(out)@ + yaml_field(key@, value@),
        plain_lines(final(out)@),
{
    let text = quoted_text(value);
    proof {
        reveal_strlit(": ");
        lemma_line(key@, ": "@, text@);
    }
    push_line(out, key, ": ", text.as_str());
}

fn append_yaml_list(out: &mut String, values: &Vec<String>)
    requires
        plain_lines(old(out)@),
    ensures
        final(out)@ == old(out)@ + yaml_item_lines(views(values@)),
        plain_lines(final(out)@),
{
    let ghost all = views(values@);
    let ghost before = out@;
    let mut i: usize = 0;
    assert(all.take(0) =~= Seq::<Seq<char>>::empty());
    assert(before + Seq::<char>::empty() =~= before);
    while i < values.len()
        invariant
            i <= values@.len(),
            all == views(values@),
            plain_lines(out@),
            out@ == before + yaml_item_lines(all.take(i as int)),
        decreases values@.len() - i,
    {
        proof {
            lemma_take_step(all, i as int);
        }
        let text = quoted_text(values[i].as_str());
        let ghost done = yaml_item_lines(all.take(i as int));
        let ghost line = "  - "@ + text@ + "\n"@;
        proof {
            reveal_strlit("  - ");
            reveal_strlit("");
            lemma_line("  - "@, ""@, text@);
            assert("  - "@ + ""@ + text@ + "\n"@ =~= line);
        }
        push_line(out, "  - ", "", text.as_str());
        assert((before + done) + line =~= before + (done + line));
        i += 1;
    }
    assert(all.take(i as int) =~= all);
}

fn push_list(out: &mut String, key: &str, values: &Vec<String>)
    requires
        plain_lines(old(out)@),
        is_key(key@),
    ensures
        final(out)@ == old(out)@ + yaml_list(key@, views(values@)),
        plain_lines(final(out)@),
{
    let ghost before = out@;
    assert(views(values@).len() == values@.len());
    if values.len() == 0 {
        proof {
            reveal_strlit(": ");
            reveal_strlit("[]");
            reveal_strlit(": []\n");
            reveal_strlit("\n");
            lemma_line(key@, ": "@, "[]"@);
            assert(key@ + ": "@ + "[]"@ + "\n"@ =~= key@ + ": []\n"@);
        }
        push_line(out, key, ": ", "[]");
    } else {
        proof {
            reveal_strlit(":");
            reveal_strlit("");
            reveal_strlit(":\n");
            reveal_strlit("\n");
            lemma_line(key@, ":"@, ""@);
            assert(key@ + ":"@ + ""@ + "\n"@ =~= key@ + ":\n"@);
        }
        push_line(out, key, ":", "");
        append_yaml_list(out, values);
        assert(before + (key@ + ":\n"@) + yaml_item_lines(views(values@)) =~= before + yaml_list(
            key@,
            views(values@),
        ));
    }
}

proof fn lemma_keys()
    ensures
        is_key("proposal_id"@),
        is_key("created_at"@),
        is_key("target_note"@),
        is_key("confidence"@),
        is_key("provider"@),
        is_key("canonical_links"@),
        is_key("link_candidates"@),
        is_key("supersedes_proposal_ids"@),
        is_key("consolidation_job_id"@),
        is_key("link_context_revision"@),
{
    reveal_strlit("proposal_id");
    reveal_strlit("created_at");
    reveal_strlit("target_note");
    reveal_strlit("confidence");
    reveal_strlit("provider");
    reveal_strlit("canonical_links");
    reveal_strlit("link_candidates");
    reveal_strlit("supersedes_proposal_ids");
    reveal_strlit("consolidation_job_id");
    reveal_strlit("link_context_revision");
}

fn push_fixed(out: &mut String, line: &str)
    requires
        plain_lines(old(out)@),
        plain_line(line@),
    ensures
        final(out)@ == old(out)@ + line@,
        plain_lines(final(out)@),
{
    proof {
        lemma_add_line(out@, line@);
    }
    out.push_str(line);
}

fn render_yaml(proposal_id: &str, created_at: &Moment, proposal: &SummaryProposal) -> (r: String)
    ensures
        r@ == proposal_yaml(proposal_id@, *created_at, proposal@),
        plain_lines(r@),
{
    proof {
        lemma_keys();
        reveal_strlit("type: log-inbox-proposal\n");
        reveal_strlit("status: pending\n");
        reveal_strlit("requires_review: true\n");
        reveal_strlit("evidence_event_ids:\n");
        lemma_only_line("type: log-inbox-proposal\n"@);
    }
    let mut out = "type: log-inbox-proposal\n".to_owned();
    push_field(&mut out, "proposal_id", proposal_id);
    push_fixed(&mut out, "status: pending\n");
    push_field(&mut out, "created_at", text_of_moment(created_at).as_str());
    push_field(&mut out, "target_note", proposal.target_note.as_str());
    push_field(&mut out, "confidence", proposal.confidence.as_str());
    push_field(&mut out, "provider", proposal.provider.as_str());
    push_fixed(&mut out, "requires_review: true\n");
    push_fixed(&mut out, "evidence_event_ids:\n");
    append_yaml_list(&mut out, &proposal.evidence_event_ids);
    push_list(&mut out, "canonical_links", &proposal.canonical_links);
    push_list(&mut out, "link_candidates", &proposal.link_candidates);
    push_list(&mut out, "supersedes_proposal_ids", &proposal.supersedes_proposal_ids);
    match &proposal.consolidation_job_id {
        Some(job) => {
            push_field(&mut out, "consolidation_job_id", job.as_str());
        },
        None => {
            assert(out@ + Seq::<char>::empty() =~= out@);
        },
    }
    push_field(
        &mut out,
        "link_context_revision",
        proposal.link_context_revision.as_str(),
    );
    out
}

fn render_text(proposal: &SummaryProposal) -> (r: String)
    ensures
        r@ == proposal_text(proposal@),
{
    let mut out = text2(proposal.markdown.as_str(), "\n");
    assert(views(proposal.open_questions@).len() == proposal.open_questions@.len());
    if proposal.open_questions.len() > 0 {
        out.push_str("\n## Open questions\n\n");
        let ghost before = out@;
        let ghost all = views(proposal.open_questions@);
        let mut i: usize = 0;
        assert(all.take(0) =~= Seq::<Seq<char>>::empty());
        assert(before + Seq::<char>::empty() =~= before);
        while i < proposal.open_questions.len()
            invariant
                i <= proposal.open_questions@.len(),
                all == views(proposal.open_questions@),
                out@ == before + open_question_lines(all.take(i as int)),
            decreases proposal.open_questions@.len() - i,
        {
            proof {
                lemma_take_step(all, i as int);
            }
            let ghost done = open_question_lines(all.take(i as int));
            out.push_str("- ");
            out.push_str(proposal.open_questions[i].as_str());
            out.push_str("\n");
            assert((before + done) + "- "@ + all[i as int] + "\n"@ =~= before + (done + "- "@
                + all[i as int] + "\n"@));
            i += 1;
        }
        assert(all.take(i as int) =~= all);
    }
    out
}

/// The end of the frontmatter is the first line of dashes.
proof fn lemma_yaml_end(yaml: Seq<char>, rest: Seq<char>)
    requires
        plain_lines(yaml),
    ensures
        around(yaml + "---\n"@ + rest, "\n---\n"@) == Some((yaml.drop_last(), rest)),
{
    reveal_strlit("\n---\n");
    reveal_strlit("---\n");
    let p = "\n---\n"@;
    let all = yaml + "---\n"@ + rest;
    let at = yaml.len() - 1;
    assert(all.subrange(at, at + p.len()) =~= p);
    assert(occurs_at(all, p, at));
    assert forall|k: int| 0 <= k < at implies !occurs_at(all, p, k) by {
        if occurs_at(all, p, k) {
            let cut = all.subrange(k, k + p.len());
            assert(cut[0] == all[k]);
            assert(cut[1] == all[k + 1]);
            assert(yaml[k] == '\n');
            assert(all[k + 1] == yaml[k + 1]);
        }
    }
    assert(first_at(all, p, 0, at));
    let found = choose|i: int| first_at(all, p, 0, i);
    lemma_first_at_unique(all, p, at, found);
    assert(all.take(at) =~= yaml.drop_last());
    assert(all.skip(at + p.len()) =~= rest);
}

proof fn lemma_trim_end_split(s: Seq<char>)
    ensures
        trim_end(s).len() <= s.len(),
        trim_end(s) == s.take(trim_end(s).len() as int),
        is_blank(s.skip(trim_end(s).len() as int)),
    decreases s.len(),
{
    if s.len() > 0 && white_space(s.last()) {
        let init = s.drop_last();
        lemma_trim_end_split(init);
        let n = trim_end(s).len() as int;
        assert(init.take(n) =~= s.take(n));
        let blank = s.skip(n);
        assert forall|i: int| 0 <= i < blank.len() implies white_space(#[trigger] blank[i]) by {
            if i < blank.len() - 1 {
                assert(init.skip(n)[i] == blank[i]);
            }
        }
    } else {
        assert(s.take(s.len() as int) =~= s);
    }
}

proof fn lemma_trimmed_of_trim_end(s: Seq<char>)
    ensures
        trimmed(trim_end(s)) == trimmed(s),
{
    lemma_trim_end_split(s);
    let n = trim_end(s).len() as int;
    lemma_trimmed_blank(trim_end(s), s.skip(n));
    assert(trim_end(s) + s.skip(n) =~= s);
}

proof fn lemma_trim_end_behind(head: Seq<char>, s: Seq<char>)
    requires
        head.len() > 0,
        !white_space(head.last()),
    ensures
        trim_end(head + s) == head + trim_end(s),
    decreases s.len(),
{
    let all = head + s;
    if s.len() == 0 {
        assert(all =~= head);
        assert(head + trim_end(s) =~= head);
    } else if white_space(s.last()) {
        assert(all.last() == s.last());
        assert(all.drop_last() =~= head + s.drop_last());
        lemma_trim_end_behind(head, s.drop_last());
    } else {
        assert(all.last() == s.last());
    }
}

/// The text of a proposal stands behind its heading.
proof fn lemma_body(text: Seq<char>)
    ensures
        body_markdown("\n# Log summary proposal\n\n"@ + text) == trimmed(text),
{
    reveal_strlit("\n# Log summary proposal\n\n");
    reveal_strlit("# Log summary proposal");
    let head = "# Log summary proposal"@;
    let gap = seq!['\n', '\n'];
    let body = "\n# Log summary proposal\n\n"@ + text;
    assert(body =~= seq!['\n'] + (head + (gap + text)));
    let rest = head + (gap + text);
    assert(body.drop_first() =~= rest);
    assert(rest[0] == head[0]);
    assert(trim_start(rest) == rest);
    assert(trim_start(body) == rest);
    lemma_trim_end_behind(head, gap + text);
    let tail = trim_end(gap + text);
    assert(trimmed(body) == head + tail);
    assert((head + tail).take(head.len() as int) =~= head);
    assert((head + tail).skip(head.len() as int) =~= tail);
    lemma_trimmed_of_trim_end(gap + text);
    let one = (gap + text).drop_first();
    assert(one =~= seq!['\n'] + text);
    assert(one.drop_first() =~= text);
    assert(trim_start(gap + text) == trim_start(one));
    assert(trim_start(one) == trim_start(text));
}

/// The parts of a proposal's file are those that it was written from.
pub proof fn lemma_file_parts(id: Seq<char>, created_at: Moment, p: ProposalView)
    requires
        plain_lines(proposal_yaml(id, created_at, p)),
    ensures
        ({
            let parts = proposal_parts(proposal_file_text(id, created_at, p));
            &&& parts is Ok
            &&& (parts->Ok_0).0 == proposal_yaml(id, created_at, p).drop_last()
            &&& body_markdown((parts->Ok_0).1) == trimmed(proposal_text(p))
        }),
{
    reveal_strlit("---\n");
    reveal_strlit("---\n\n# Log summary proposal\n\n");
    reveal_strlit("\n# Log summary proposal\n\n");
    let yaml = proposal_yaml(id, created_at, p);
    let text = proposal_text(p);
    let out = proposal_file_text(id, created_at, p);
    let body = "\n# Log summary proposal\n\n"@ + text;
    let rest = yaml + "---\n"@ + body;
    assert("---\n\n# Log summary proposal\n\n"@ =~= "---\n"@ + "\n# Log summary proposal\n\n"@);
    assert(out =~= "---\n"@ + rest);
    assert(out.take(4) =~= "---\n"@);
    assert(out.skip(4) =~= rest);
    lemma_yaml_end(yaml, body);
    lemma_body(text);
}

/// Writes a proposal as a file. What is read back from the file is the text of
/// the proposal with its open questions.
pub fn render_proposal(proposal_id: &str, created_at: &Moment, proposal: &SummaryProposal) -> (r:
    String)
    ensures
        r@ == proposal_file_text(proposal_id@, *created_at, proposal@),
        plain_lines(proposal_yaml(proposal_id@, *created_at, proposal@)),
        proposal_parts(r@) is Ok,
        (proposal_parts(r@)->Ok_0).0 == proposal_yaml(
            proposal_id@,
            *created_at,
            proposal@,
        ).drop_last(),
        body_markdown((proposal_parts(r@)->Ok_0).1) == trimmed(proposal_text(proposal@)),
{
    let yaml = render_yaml(proposal_id, created_at, proposal);
    let text = render_text(proposal);
    let mut out = "---\n".to_owned();
    out.push_str(yaml.as_str());
    out.push_str("---\n\n# Log summary proposal\n\n");
    out.push_str(text.as_str());
    proof {
        lemma_file_parts(proposal_id@, *created_at, proposal@);
    }
    out
}

/// The name of a proposal's file; none where a date cannot hold the moment.
pub open spec fn proposal_file_name(id: Seq<char>, created_at: Moment) -> Option<Seq<char>> {
    match formatted(created_at.seconds, created_at.nanos, "%Y%m%dT%H%M%S%.3fZ"@) {
        Some(time) => Some(time + "-"@ + id + ".md"@),
        None => None,
    }
}

/// The ID of a proposal from a random name.
pub fn new_proposal_id(random: &str) -> (r: String)
    ensures
        r@ == "proposal_"@ + random@,
{
    text2("proposal_", random)
}

/// A file to be written to the inbox: under a temporary name first, then under
/// its own.
#[derive(Debug, Clone, PartialEq, Eq)]
pub struct StagingPlan {
    pub temporary_name: String,
    pub name: String,
    pub markdown: String,
}

/// The name that a proposal is written under before it is complete.
pub open spec fn temporary_name_of(id: Seq<char>) -> Seq<char> {
    "."@ + id + ".tmp"@
}

pub fn temporary_name(proposal_id: &str) -> (r: String)
    ensures
        r@ == temporary_name_of(proposal_id@),
{
    text3(".", proposal_id, ".tmp")
}

/// What is written to stage a proposal.
pub fn plan_staging(proposal_id: &str, created_at: &Moment, proposal: &SummaryProposal) -> (r: Option<
    StagingPlan,
>)
    ensures
        match proposal_file_name(proposal_id@, *created_at) {
            Some(name) => {
                &&& r is Some
                &&& r->0.temporary_name@ == temporary_name_of(proposal_id@)
                &&& r->0.name@ == name
                &&& r->0.markdown@ == proposal_file_text(proposal_id@, *created_at, proposal@)
                &&& plain_lines(proposal_yaml(proposal_id@, *created_at, proposal@))
                &&& is_file_of(name, proposal_id@)
            },
            None => r is None,
        },
{
    match formatted_moment(created_at.seconds, created_at.nanos, "%Y%m%dT%H%M%S%.3fZ") {
        None => None,
        Some(time) => {
            let mut name = time.as_str().to_owned();
            name.push_str("-");
            name.push_str(proposal_id);
            name.push_str(".md");
            proof {
                let end = "-"@ + proposal_id@ + ".md"@;
                assert(name@ =~= time@ + end);
                assert(name@.skip(name@.len() - end.len()) =~= end);
            }
            Some(
                StagingPlan {
                    temporary_name: temporary_name(proposal_id),
                    name,
                    markdown: render_proposal(proposal_id, created_at, proposal),
                },
            )
        },
    }
}

/// The mark of a proposal in a daily note.
pub open spec fn marker_of(id: Seq<char>) -> Seq<char> {
    "<!-- log-inbox:"@ + id + " -->"@
}

/// Whether a text has a line of details.
pub open spec fn has_details(lines: Seq<Seq<char>>) -> bool {
    exists|i: int| 0 <= i < lines.len() && begins_with(trim_start(#[trigger] lines[i]), "Details:"@)
}

/// The events of a proposal, each in a code span.
pub open spec fn event_marks(ids: Seq<Seq<char>>) -> Seq<char>
    decreases ids.len(),
{
    if ids.len() == 0 {
        Seq::empty()
    } else {
        event_marks(ids.drop_last()) + " · `"@ + ids.last() + "`"@
    }
}

/// What a daily note begins with: what it holds, or its title.
pub open spec fn daily_note_start(current: Seq<char>, target: Seq<char>) -> Seq<char> {
    if trimmed(current).len() == 0 {
        "# "@ + target
    } else {
        trim_end(current)
    }
}

pub open spec fn report_heading(links: Seq<Seq<char>>) -> Seq<char> {
    if links.len() == 1 {
        links[0] + " activity report\n\n"@
    } else {
        "Activity report\n\n"@
    }
}

/// The links and the events that stand behind the text of a proposal.
pub open spec fn report_details(markdown: Seq<char>, f: FrontmatterView) -> Seq<char> {
    if has_details(text_lines(markdown)) {
        if f.canonical_links.len() > 1 {
            "\n\nRelated: "@ + joined(f.canonical_links, " · "@)
        } else {
            Seq::empty()
        }
    } else {
        "\n\nDetails:"@ + (if f.canonical_links.len() > 0 {
            " "@ + joined(f.canonical_links, " · "@)
        } else {
            Seq::empty()
        }) + event_marks(f.evidence_event_ids)
    }
}

/// A daily note with a proposal added.
pub open spec fn note_with_proposal(
    current: Seq<char>,
    f: FrontmatterView,
    markdown: Seq<char>,
    marker: Seq<char>,
) -> Seq<char> {
    daily_note_start(current, f.target_note) + "\n\n## "@ + report_heading(f.canonical_links) + trimmed(
        markdown,
    ) + report_details(markdown, f) + "\n"@ + marker + "\n"@
}

pub fn trim_right(s: &str) -> (r: String)
    ensures
        r@ == trim_end(s@),
{
    let chars = chars_of(s);
    let mut to: usize = chars.len();
    assert(chars@.take(to as int) =~= chars@);
    while 0 < to && chars[to - 1].is_whitespace()
        invariant
            to <= chars@.len(),
            trim_end(chars@) == trim_end(chars@.take(to as int)),
        decreases to,
    {
        assert(chars@.take(to as int).drop_last() =~= chars@.take(to - 1));
        to -= 1;
    }
    let r = string_of(&chars, 0, to);
    assert(r@ =~= chars@.take(to as int));
    r
}

fn mentions_details(markdown: &str) -> (r: bool)
    ensures
        r == has_details(text_lines(markdown@)),
{
    let lines = split_lines(markdown);
    let ghost all = views(lines@);
    let mut i: usize = 0;
    while i < lines.len()
        invariant
            i <= lines@.len(),
            all == views(lines@),
            all == text_lines(markdown@),
            forall|k: int|
                0 <= k < i ==> !begins_with(trim_start(#[trigger] all[k]), "Details:"@),
        decreases lines@.len() - i,
    {
        if starts_with(trim_left(lines[i].as_str()).as_str(), "Details:") {
            assert(begins_with(trim_start(all[i as int]), "Details:"@));
            return true;
        }
        i += 1;
    }
    false
}

fn details_text(markdown: &str, f: &ProposalFrontmatter) -> (r: String)
    ensures
        r@ == report_details(markdown@, f@),
{
    let mut out = String::new();
    assert(out@ =~= Seq::<char>::empty());
    assert(views(f.canonical_links@).len() == f.canonical_links@.len());
    if mentions_details(markdown) {
        if f.canonical_links.len() > 1 {
            out = text2("\n\nRelated: ", join(&f.canonical_links, " · ").as_str());
        }
        return out;
    }
    let links = if f.canonical_links.len() > 0 {
        text2(" ", join(&f.canonical_links, " · ").as_str())
    } else {
        out
    };
    let mut out = text2("\n\nDetails:", links.as_str());
    let ghost before = out@;
    let ghost all = views(f.evidence_event_ids@);
    let mut i: usize = 0;
    assert(all.take(0) =~= Seq::<Seq<char>>::empty());
    assert(before + Seq::<char>::empty() =~= before);
    while i < f.evidence_event_ids.len()
        invariant
            i <= f.evidence_event_ids@.len(),
            all == views(f.evidence_event_ids@),
            out@ == before + event_marks(all.take(i as int)),
        decreases f.evidence_event_ids@.len() - i,
    {
        proof {
            lemma_take_step(all, i as int);
        }
        let ghost done = event_marks(all.take(i as int));
        out.push_str(" · `");
        out.push_str(f.evidence_event_ids[i].as_str());
        out.push_str("`");
        assert((before + done) + " · `"@ + all[i as int] + "`"@ =~= before + (done + " · `"@
            + all[i as int] + "`"@));
        i += 1;
    }
    assert(all.take(i as int) =~= all);
    out
}

/// Adds a proposal to a daily note.
pub fn render_daily_note(current: &str, proposal: &ParsedProposal, marker: &str) -> (r: String)
    ensures
        r@ == note_with_proposal(
            current@,
            proposal.frontmatter@,
            proposal.markdown@,
            marker@,
        ),
{
    let f = &proposal.frontmatter;
    let mut out = if trim(current).as_str().is_empty() {
        text2("# ", f.target_note.as_str())
    } else {
        trim_right(current)
    };
    assert(out@ == daily_note_start(current@, f.target_note@));
    out.push_str("\n\n## ");
    assert(views(f.canonical_links@).len() == f.canonical_links@.len());
    if f.canonical_links.len() == 1 {
        let heading = text2(f.canonical_links[0].as_str(), " activity report\n\n");
        assert(heading@ == report_heading(views(f.canonical_links@)));
        out.push_str(heading.as_str());
    } else {
        out.push_str("Activity report\n\n");
    }
    out.push_str(trim(proposal.markdown.as_str()).as_str());
    out.push_str(details_text(proposal.markdown.as_str(), f).as_str());
    out.push_str("\n");
    out.push_str(marker);
    out.push_str("\n");
    out
}

/// What is written when a proposal is applied to its note: nothing where the
/// note has the mark of the proposal.
pub open spec fn note_after_apply(
    current: Seq<char>,
    f: FrontmatterView,
    markdown: Seq<char>,
    id: Seq<char>,
) -> Option<Seq<char>> {
    if occurs(current, marker_of(id)) {
        None
    } else {
        Some(note_with_proposal(current, f, markdown, marker_of(id)))
    }
}

/// Applying a proposal again changes nothing.
pub proof fn law_proposal_is_applied_once(
    current: Seq<char>,
    f: FrontmatterView,
    markdown: Seq<char>,
    id: Seq<char>,
)
    requires
        note_after_apply(current, f, markdown, id) is Some,
    ensures
        note_after_apply(note_after_apply(current, f, markdown, id)->0, f, markdown, id) is None,
{
    let marker = marker_of(id);
    let note = note_with_proposal(current, f, markdown, marker);
    let before = daily_note_start(current, f.target_note) + "\n\n## "@ + report_heading(
        f.canonical_links,
    ) + trimmed(markdown) + report_details(markdown, f) + "\n"@;
    assert(note == before + marker + "\n"@);
    assert(note.subrange(before.len() as int, (before.len() + marker.len()) as int) =~= marker);
    assert(occurs_at(note, marker, before.len() as int));
}

/// Applying a proposal keeps what the note holds.
pub proof fn law_apply_keeps_the_note(
    current: Seq<char>,
    f: FrontmatterView,
    markdown: Seq<char>,
    id: Seq<char>,
)
    requires
        note_after_apply(current, f, markdown, id) is Some,
        trimmed(current).len() > 0,
    ensures
        begins_with(note_after_apply(current, f, markdown, id)->0, trim_end(current)),
{
    let start = trim_end(current);
    let note = note_after_apply(current, f, markdown, id)->0;
    assert(note.take(start.len() as int) =~= start);
}

/// What applying a proposal writes, and to which file of the daily notes.
#[derive(Debug, Clone, PartialEq, Eq)]
pub struct NoteChange {
    pub file_name: String,
    pub temporary_name: String,
    pub contents: Option<String>,
}

/// Why a proposal cannot be applied, or what its file gives.
pub open spec fn applicable(files: Seq<ProposalFile>, id: Seq<char>) -> Result<
    (FrontmatterView, Seq<char>),
    Seq<char>,
> {
    match found_file(files, id) {
        Err(error) => Err(error),
        Ok(file) => match parsed_file(file) {
            Err(error) => Err(error),
            Ok((f, markdown)) => if f.proposal_id != id {
                Err("proposal ID does not match its frontmatter"@)
            } else if !is_note_name(f.target_note) {
                Err("proposal target_note must be a plain Markdown filename"@)
            } else {
                Ok((f, markdown))
            },
        },
    }
}

impl ProposalInbox {
    /// Reads a proposal that is to be applied.
    pub fn open_for_apply(&self, proposal_id: &str, files: &Vec<ProposalFile>) -> (r: Result<
        ParsedProposal,
        String,
    >)
        ensures
            match applicable(files@, proposal_id@) {
                Ok((f, markdown)) => r is Ok && r->Ok_0.frontmatter@ == f && r->Ok_0.markdown@
                    == markdown,
                Err(error) => r is Err && r->Err_0@ == error,
            },
    {
        match self.find_proposal(proposal_id, files) {
            Err(error) => Err(error),
            Ok(file) => match parse_proposal_file(file) {
                Err(error) => Err(error),
                Ok(parsed) => {
                    if !str_eq(parsed.frontmatter.proposal_id.as_str(), proposal_id) {
                        return Err("proposal ID does not match its frontmatter".to_owned());
                    }
                    match validate_note_name(parsed.frontmatter.target_note.as_str()) {
                        Err(error) => Err(error),
                        Ok(_) => Ok(parsed),
                    }
                },
            },
        }
    }

    /// What applying a proposal writes, with what the daily note holds; an
    /// empty text where there is no note.
    pub fn apply(&self, proposal: &ParsedProposal, current: &str) -> (r: NoteChange)
        ensures
            r.file_name@ == proposal.frontmatter.target_note@ + ".md"@,
            r.temporary_name@ == temporary_name_of(proposal.frontmatter.proposal_id@),
            opt_text(r.contents) == note_after_apply(
                current@,
                proposal.frontmatter@,
                proposal.markdown@,
                proposal.frontmatter.proposal_id@,
            ),
    {
        let marker = text3("<!-- log-inbox:", proposal.frontmatter.proposal_id.as_str(), " -->");
        let contents = if contains(current, marker.as_str()) {
            None
        } else {
            Some(render_daily_note(current, proposal, marker.as_str()))
        };
        NoteChange {
            file_name: text2(proposal.frontmatter.target_note.as_str(), ".md"),
            temporary_name: temporary_name(proposal.frontmatter.proposal_id.as_str()),
            contents,
        }
    }

    /// What is reported of a proposal that was applied.
    pub fn applied(&self, proposal: &ParsedProposal, daily_path: &str) -> (r: AppliedProposal)
        ensures
            r.proposal_id@ == proposal.frontmatter.proposal_id@,
            r.daily_path@ == daily_path@,
            views(r.evidence_event_ids@) == views(proposal.frontmatter.evidence_event_ids@),
            views(r.supersedes_proposal_ids@) == views(
                proposal.frontmatter.supersedes_proposal_ids@,
            ),
            !r.proposal_removed,
            r.status@ == "applied"@,
    {
        AppliedProposal {
            proposal_id: proposal.frontmatter.proposal_id.as_str().to_owned(),
            daily_path: daily_path.to_owned(),
            evidence_event_ids: copy_texts(&proposal.frontmatter.evidence_event_ids),
            supersedes_proposal_ids: copy_texts(&proposal.frontmatter.supersedes_proposal_ids),
            proposal_removed: false,
            status: "applied".to_owned(),
        }
    }

    /// What is reported of a proposal that was staged.
    pub fn staged(&self, proposal_id: &str, path: &str, created_at: &Moment) -> (r: StagedProposal)
        ensures
            r.proposal_id@ == proposal_id@,
            r.path@ == path@,
            r.created_at == *created_at,
            r.status@ == "pending"@,
    {
        StagedProposal {
            proposal_id: proposal_id.to_owned(),
            path: path.to_owned(),
            created_at: *created_at,
            status: "pending".to_owned(),
        }
    }

    /// The name of the file to be removed when a proposal is discarded. A
    /// proposal that has no file is reported as not found.
    pub fn discard_if_present(&self, proposal_id: &str, files: &Vec<ProposalFile>) -> (r: Result<
        String,
        String,
    >)
        ensures
            match found_file(files@, proposal_id@) {
                Ok(file) => r is Ok && r->Ok_0@ == file.name@,
                Err(error) => r is Err && r->Err_0@ == error,
            },
    {
        match self.find_proposal(proposal_id, files) {
            Ok(file) => Ok(file.name.as_str().to_owned()),
            Err(error) => Err(error),
        }
    }
}

} // verus!
