//! What the inbox gives back of a staged proposal.
use crate::details::moment_text;
use crate::models::Moment;
use crate::proposal_inbox::{
    FrontmatterView, PendingView, ProposalFile, files_of, found_file, is_file_of,
    is_proposal_id, pending_of,
};
use crate::proposal_notes::{
    lemma_file_parts, plain_lines, proposal_file_name, proposal_file_text, proposal_text,
    proposal_yaml,
};
use crate::proposals::ProposalView;
use crate::text::{lemma_trimmed_blank, trimmed};
use crate::vault_links::{canonical_links, formatted};
use vstd::prelude::*;
use vstd::string::*;

verus! {

/// What the frontmatter of a staged proposal says.
pub open spec fn staged_header(
    id: Seq<char>,
    created_at: Moment,
    p: ProposalView,
) -> FrontmatterView {
    FrontmatterView {
        proposal_id: id,
        created_at: moment_text(created_at),
        target_note: p.target_note,
        confidence: p.confidence,
        provider: p.provider,
        evidence_event_ids: p.evidence_event_ids,
        canonical_links: p.canonical_links,
        link_candidates: p.link_candidates,
        supersedes_proposal_ids: p.supersedes_proposal_ids,
        consolidation_job_id: p.consolidation_job_id,
        link_context_revision: p.link_context_revision,
    }
}

/// Whether a file is that of a staged proposal. Its YAML text has been read: that
/// reading gives what the text was made from is a fact about the YAML reader,
/// which is not stated here.
pub open spec fn is_staged_file(
    file: ProposalFile,
    id: Seq<char>,
    created_at: Moment,
    p: ProposalView,
) -> bool {
    &&& proposal_file_name(id, created_at) == Some(file.name@)
    &&& file.contents@ == proposal_file_text(id, created_at, p)
    &&& file.frontmatter is Ok
    &&& file.frontmatter->Ok_0@ == staged_header(id, created_at, p)
}

/// The only file of a proposal is the one that is found.
proof fn lemma_only_file(files: Seq<ProposalFile>, id: Seq<char>, at: int)
    requires
        0 <= at < files.len(),
        is_file_of(files[at].name@, id),
        forall|k: int|
            0 <= k < files.len() && k != at ==> !is_file_of(#[trigger] files[k].name@, id),
    ensures
        files_of(files, id) == seq![&files[at]],
    decreases files.len(),
{
    let init = files.drop_last();
    let none = Seq::<&ProposalFile>::empty();
    if at == files.len() - 1 {
        assert forall|k: int| 0 <= k < init.len() implies !is_file_of(
            #[trigger] init[k].name@,
            id,
        ) by {
            assert(init[k] == files[k]);
        }
        lemma_no_file(init, id);
        assert(none.push(&files.last()) =~= seq![&files[at]]);
    } else {
        assert(!is_file_of(files[files.len() - 1].name@, id));
        assert forall|k: int| 0 <= k < init.len() && k != at implies !is_file_of(
            #[trigger] init[k].name@,
            id,
        ) by {
            assert(init[k] == files[k]);
        }
        lemma_only_file(init, id, at);
    }
}

proof fn lemma_no_file(files: Seq<ProposalFile>, id: Seq<char>)
    requires
        forall|k: int| 0 <= k < files.len() ==> !is_file_of(#[trigger] files[k].name@, id),
    ensures
        files_of(files, id) == Seq::<&ProposalFile>::empty(),
    decreases files.len(),
{
    if files.len() > 0 {
        assert(!is_file_of(files[files.len() - 1].name@, id));
        let init = files.drop_last();
        assert forall|k: int| 0 <= k < init.len() implies !is_file_of(
            #[trigger] init[k].name@,
            id,
        ) by {
            assert(init[k] == files[k]);
        }
        lemma_no_file(init, id);
    }
}

/// A staged proposal is read back as it was: under its ID the inbox finds its
/// file, with every field of the frontmatter and the text of the proposal, ready
/// for review.
///
/// That the YAML text is made of plain lines is what writing the file ensures.
pub proof fn law_staged_proposal_is_read_back(
    files: Seq<ProposalFile>,
    at: int,
    id: Seq<char>,
    created_at: Moment,
    p: ProposalView,
)
    requires
        is_proposal_id(id),
        0 <= at < files.len(),
        is_staged_file(files[at], id, created_at, p),
        plain_lines(proposal_yaml(id, created_at, p)),
        forall|k: int|
            0 <= k < files.len() && k != at ==> !is_file_of(#[trigger] files[k].name@, id),
    ensures
        found_file(files, id) == Ok::<ProposalFile, Seq<char>>(files[at]),
        pending_of(files[at]) == Ok::<PendingView, Seq<char>>(
            PendingView {
                filename: files[at].name@,
                frontmatter: staged_header(id, created_at, p),
                markdown: trimmed(proposal_text(p)),
                stale: false,
            },
        ),
        p.open_questions.len() == 0 ==> trimmed(proposal_text(p)) == trimmed(p.markdown),
{
    let file = files[at];
    let name = file.name@;
    let end = "-"@ + id + ".md"@;
    assert(is_file_of(name, id)) by {
        let time = formatted(created_at.seconds, created_at.nanos, "%Y%m%dT%H%M%S%.3fZ"@)->0;
        assert(name =~= time + end);
        assert(name.skip(name.len() - end.len()) =~= end);
    }
    lemma_only_file(files, id, at);
    assert(files_of(files, id)[0] == &files[at]);
    lemma_file_parts(id, created_at, p);
    reveal_strlit("\n");
    assert("\n"@ =~= seq!['\n']);
    lemma_trimmed_blank(p.markdown, "\n"@);
}

} // verus!
