//! The inbox of proposals that wait for review, each a Markdown file.
use crate::errors::{text2, text3};
use crate::models::Moment;
use crate::notes::{frontmatter, last_dot};
use crate::ordered::{Ranked, precedes, ranked, sort_ranked, str_less};
use crate::requests::str_view;
use crate::text::{
    after_prefix, around, begins_with, chars_of, contains, copy_texts, ends_with, finishes_with,
    lemma_take_step, occurs, opt_text, split_once, starts_with, str_eq, string_of, strip_prefix,
    trim, trimmed, views,
};
use crate::vault::is_ascii_alnum;
use crate::vault_catalog::{given, given_text};
use crate::vault_links::canonical_links;
use vstd::prelude::*;
use vstd::string::*;

verus! {

/// A folder of proposals.
#[derive(Debug, Clone, PartialEq, Eq)]
pub struct ProposalInbox {
    pub pending_dir: String,
}

/// A proposal that was written to the inbox.
#[derive(Debug, Clone, PartialEq, Eq)]
pub struct StagedProposal {
    pub proposal_id: String,
    pub path: String,
    pub created_at: Moment,
    pub status: String,
}

/// A proposal whose text stands in its daily note.
#[derive(Debug, Clone, PartialEq, Eq)]
pub struct AppliedProposal {
    pub proposal_id: String,
    pub daily_path: String,
    pub evidence_event_ids: Vec<String>,
    pub supersedes_proposal_ids: Vec<String>,
    pub proposal_removed: bool,
    pub status: String,
}

/// A proposal that waits for review.
#[derive(Debug, Clone, PartialEq, Eq)]
pub struct PendingProposal {
    pub filename: String,
    pub proposal_id: String,
    pub created_at: String,
    pub target_note: String,
    pub confidence: String,
    pub provider: String,
    pub evidence_event_ids: Vec<String>,
    pub canonical_links: Vec<String>,
    pub link_candidates: Vec<String>,
    pub supersedes_proposal_ids: Vec<String>,
    pub consolidation_job_id: Option<String>,
    pub markdown: String,
    pub link_context_revision: String,
    pub stale: bool,
}

/// What the frontmatter of a proposal says.
#[derive(Debug, Clone, PartialEq, Eq)]
pub struct ProposalFrontmatter {
    pub proposal_id: String,
    pub created_at: String,
    pub target_note: String,
    pub confidence: String,
    pub provider: String,
    pub evidence_event_ids: Vec<String>,
    pub canonical_links: Vec<String>,
    pub link_candidates: Vec<String>,
    pub supersedes_proposal_ids: Vec<String>,
    pub consolidation_job_id: Option<String>,
    pub link_context_revision: String,
}

pub struct FrontmatterView {
    pub proposal_id: Seq<char>,
    pub created_at: Seq<char>,
    pub target_note: Seq<char>,
    pub confidence: Seq<char>,
    pub provider: Seq<char>,
    pub evidence_event_ids: Seq<Seq<char>>,
    pub canonical_links: Seq<Seq<char>>,
    pub link_candidates: Seq<Seq<char>>,
    pub supersedes_proposal_ids: Seq<Seq<char>>,
    pub consolidation_job_id: Option<Seq<char>>,
    pub link_context_revision: Seq<char>,
}

impl View for ProposalFrontmatter {
    type V = FrontmatterView;

    open spec fn view(&self) -> FrontmatterView {
        FrontmatterView {
            proposal_id: self.proposal_id@,
            created_at: self.created_at@,
            target_note: self.target_note@,
            confidence: self.confidence@,
            provider: self.provider@,
            evidence_event_ids: views(self.evidence_event_ids@),
            canonical_links: views(self.canonical_links@),
            link_candidates: views(self.link_candidates@),
            supersedes_proposal_ids: views(self.supersedes_proposal_ids@),
            consolidation_job_id: opt_text(self.consolidation_job_id),
            link_context_revision: self.link_context_revision@,
        }
    }
}

pub struct PendingView {
    pub filename: Seq<char>,
    pub frontmatter: FrontmatterView,
    pub markdown: Seq<char>,
    pub stale: bool,
}

impl View for PendingProposal {
    type V = PendingView;

    open spec fn view(&self) -> PendingView {
        PendingView {
            filename: self.filename@,
            frontmatter: FrontmatterView {
                proposal_id: self.proposal_id@,
                created_at: self.created_at@,
                target_note: self.target_note@,
                confidence: self.confidence@,
                provider: self.provider@,
                evidence_event_ids: views(self.evidence_event_ids@),
                canonical_links: views(self.canonical_links@),
                link_candidates: views(self.link_candidates@),
                supersedes_proposal_ids: views(self.supersedes_proposal_ids@),
                consolidation_job_id: opt_text(self.consolidation_job_id),
                link_context_revision: self.link_context_revision@,
            },
            markdown: self.markdown@,
            stale: self.stale,
        }
    }
}

/// A file of the inbox, and what the YAML text in front of it says or why it
/// says nothing.
#[derive(Debug)]
pub struct ProposalFile {
    pub name: String,
    pub contents: String,
    pub frontmatter: Result<ProposalFrontmatter, String>,
}

/// A proposal as its file gives it.
#[derive(Debug, Clone, PartialEq, Eq)]
pub struct ParsedProposal {
    pub frontmatter: ProposalFrontmatter,
    pub markdown: String,
}

/// The YAML text and the body of a proposal file.
pub open spec fn proposal_parts(contents: Seq<char>) -> Result<(Seq<char>, Seq<char>), Seq<char>> {
    match after_prefix(contents, "---\n"@) {
        None => Err("proposal is missing YAML frontmatter"@),
        Some(rest) => match around(rest, "\n---\n"@) {
            None => Err("proposal frontmatter is not terminated"@),
            Some((yaml, body)) => Ok((yaml, body)),
        },
    }
}

/// The text of a proposal: its body without the heading.
pub open spec fn body_markdown(body: Seq<char>) -> Seq<char> {
    trimmed(
        match after_prefix(trimmed(body), "# Log summary proposal"@) {
            Some(rest) => rest,
            None => trimmed(body),
        },
    )
}

/// What a proposal file gives: its frontmatter and its text, or why it gives
/// nothing.
pub open spec fn parsed_file(file: ProposalFile) -> Result<(FrontmatterView, Seq<char>), Seq<char>> {
    match proposal_parts(file.contents@) {
        Err(error) => Err(error),
        Ok((_, body)) => match file.frontmatter {
            Err(error) => Err("parsing proposal frontmatter: "@ + error@),
            Ok(frontmatter) => Ok((frontmatter@, body_markdown(body))),
        },
    }
}

/// The YAML text and the body of a proposal file.
pub fn split_proposal(contents: &str) -> (r: Result<(String, String), String>)
    ensures
        match proposal_parts(contents@) {
            Ok((yaml, body)) => r is Ok && (r->Ok_0).0@ == yaml && (r->Ok_0).1@ == body,
            Err(error) => r is Err && r->Err_0@ == error,
        },
{
    proof {
        reveal_strlit("\n---\n");
    }
    match strip_prefix(contents, "---\n") {
        None => Err("proposal is missing YAML frontmatter".to_owned()),
        Some(rest) => match split_once(rest.as_str(), "\n---\n") {
            None => Err("proposal frontmatter is not terminated".to_owned()),
            Some(parts) => Ok(parts),
        },
    }
}

fn markdown_of_body(body: &str) -> (r: String)
    ensures
        r@ == body_markdown(body@),
{
    let text = trim(body);
    match strip_prefix(text.as_str(), "# Log summary proposal") {
        Some(rest) => trim(rest.as_str()),
        None => trim(text.as_str()),
    }
}

fn copy_optional(value: &Option<String>) -> (r: Option<String>)
    ensures
        opt_text(r) == opt_text(*value),
{
    match value {
        Some(text) => Some(text.as_str().to_owned()),
        None => None,
    }
}

impl ProposalFrontmatter {
    pub fn copy(&self) -> (r: ProposalFrontmatter)
        ensures
            r@ == self@,
    {
        ProposalFrontmatter {
            proposal_id: self.proposal_id.as_str().to_owned(),
            created_at: self.created_at.as_str().to_owned(),
            target_note: self.target_note.as_str().to_owned(),
            confidence: self.confidence.as_str().to_owned(),
            provider: self.provider.as_str().to_owned(),
            evidence_event_ids: copy_texts(&self.evidence_event_ids),
            canonical_links: copy_texts(&self.canonical_links),
            link_candidates: copy_texts(&self.link_candidates),
            supersedes_proposal_ids: copy_texts(&self.supersedes_proposal_ids),
            consolidation_job_id: copy_optional(&self.consolidation_job_id),
            link_context_revision: self.link_context_revision.as_str().to_owned(),
        }
    }
}

/// Reads a proposal file.
pub fn parse_proposal_file(file: &ProposalFile) -> (r: Result<ParsedProposal, String>)
    ensures
        match parsed_file(*file) {
            Ok((frontmatter, markdown)) => r is Ok && r->Ok_0.frontmatter@ == frontmatter
                && r->Ok_0.markdown@ == markdown,
            Err(error) => r is Err && r->Err_0@ == error,
        },
{
    match split_proposal(file.contents.as_str()) {
        Err(error) => Err(error),
        Ok((_, body)) => match &file.frontmatter {
            Err(error) => Err(text2("parsing proposal frontmatter: ", error.as_str())),
            Ok(frontmatter) => Ok(
                ParsedProposal {
                    frontmatter: frontmatter.copy(),
                    markdown: markdown_of_body(body.as_str()),
                },
            ),
        },
    }
}

/// The proposal of a file, as it waits for review.
pub open spec fn pending_of(file: ProposalFile) -> Result<PendingView, Seq<char>> {
    match parsed_file(file) {
        Ok((frontmatter, markdown)) => Ok(
            PendingView { filename: file.name@, frontmatter, markdown, stale: false },
        ),
        Err(error) => Err(error),
    }
}

fn pending_proposal(file: &ProposalFile) -> (r: Result<PendingProposal, String>)
    ensures
        match pending_of(*file) {
            Ok(view) => r is Ok && r->Ok_0@ == view,
            Err(error) => r is Err && r->Err_0@ == error,
        },
{
    match parse_proposal_file(file) {
        Err(error) => Err(error),
        Ok(parsed) => {
            let f = parsed.frontmatter;
            Ok(
                PendingProposal {
                    filename: file.name.as_str().to_owned(),
                    proposal_id: f.proposal_id,
                    created_at: f.created_at,
                    target_note: f.target_note,
                    confidence: f.confidence,
                    provider: f.provider,
                    evidence_event_ids: f.evidence_event_ids,
                    canonical_links: f.canonical_links,
                    link_candidates: f.link_candidates,
                    supersedes_proposal_ids: f.supersedes_proposal_ids,
                    consolidation_job_id: f.consolidation_job_id,
                    markdown: parsed.markdown,
                    link_context_revision: f.link_context_revision,
                    stale: false,
                },
            )
        },
    }
}

/// Whether a text is the ID of a proposal.
pub open spec fn is_proposal_id(id: Seq<char>) -> bool {
    begins_with(id, "proposal_"@) && forall|i: int|
        0 <= i < id.len() ==> is_ascii_alnum(#[trigger] id[i]) || id[i] == '_'
}

pub fn validate_proposal_id(proposal_id: &str) -> (r: Result<(), String>)
    ensures
        r is Ok == is_proposal_id(proposal_id@),
        r is Err ==> r->Err_0@ == "invalid proposal ID"@,
{
    let chars = chars_of(proposal_id);
    let mut plain: bool = true;
    let mut i: usize = 0;
    while i < chars.len()
        invariant
            i <= chars@.len(),
            plain == forall|k: int|
                0 <= k < i ==> is_ascii_alnum(#[trigger] chars@[k]) || chars@[k] == '_',
        decreases chars@.len() - i,
    {
        let c = chars[i];
        if !(('0' <= c && c <= '9') || ('a' <= c && c <= 'z') || ('A' <= c && c <= 'Z') || c
            == '_') {
            plain = false;
            assert(!(is_ascii_alnum(chars@[i as int]) || chars@[i as int] == '_'));
        }
        i += 1;
    }
    if starts_with(proposal_id, "proposal_") && plain {
        Ok(())
    } else {
        Err("invalid proposal ID".to_owned())
    }
}

/// Whether a text is a plain name of a note.
pub open spec fn is_note_name(note: Seq<char>) -> bool {
    !(trimmed(note).len() == 0 || occurs(note, "/"@) || occurs(note, "\\"@) || occurs(note, ".."@)
        || occurs(note, "\0"@))
}

pub fn validate_note_name(note: &str) -> (r: Result<(), String>)
    ensures
        r is Ok == is_note_name(note@),
        r is Err ==> r->Err_0@ == "proposal target_note must be a plain Markdown filename"@,
{
    if trim(note).as_str().is_empty() || contains(note, "/") || contains(note, "\\") || contains(
        note,
        "..",
    ) || contains(note, "\0") {
        Err("proposal target_note must be a plain Markdown filename".to_owned())
    } else {
        Ok(())
    }
}

/// Whether a file name is that of a proposal.
pub open spec fn is_file_of(name: Seq<char>, id: Seq<char>) -> bool {
    finishes_with(name, "-"@ + id + ".md"@)
}

pub fn names_proposal(name: &str, proposal_id: &str) -> (r: bool)
    ensures
        r == is_file_of(name@, proposal_id@),
{
    ends_with(name, text3("-", proposal_id, ".md").as_str())
}

/// The files of a proposal.
pub open spec fn files_of<'a>(files: Seq<ProposalFile>, id: Seq<char>) -> Seq<&'a ProposalFile>
    decreases files.len(),
{
    if files.len() == 0 {
        Seq::empty()
    } else if is_file_of(files.last().name@, id) {
        files_of(files.drop_last(), id).push(&files.last())
    } else {
        files_of(files.drop_last(), id)
    }
}

/// Why not exactly one file is that of a proposal.
pub open spec fn find_error(count: nat, id: Seq<char>) -> Seq<char> {
    if count == 0 {
        "pending proposal "@ + id + " not found"@
    } else {
        "multiple pending proposals match "@ + id
    }
}

/// Whether a file is a Markdown file by its name.
pub open spec fn is_proposal_file(name: Seq<char>) -> bool {
    last_dot(name) > 0 && name.skip(last_dot(name) + 1) == "md"@
}

pub fn has_proposal_extension(name: &str) -> (r: bool)
    ensures
        r == is_proposal_file(name@),
{
    let chars = chars_of(name);
    let mut i: usize = chars.len();
    assert(chars@.take(i as int) =~= chars@);
    while i > 0 && chars[i - 1] != '.'
        invariant
            i <= chars@.len(),
            last_dot(chars@) == last_dot(chars@.take(i as int)),
        decreases i,
    {
        assert(chars@.take(i as int).drop_last() =~= chars@.take(i - 1));
        i -= 1;
    }
    if i > 1 {
        let tail = string_of(&chars, i, chars.len());
        assert(tail@ =~= name@.skip(i as int));
        str_eq(tail.as_str(), "md")
    } else {
        false
    }
}

impl Ranked for ProposalFile {
    /// The last name first.
    open spec fn ranks_before(&self, other: &Self) -> bool {
        precedes(other.name@, self.name@)
    }

    fn is_before(&self, other: &Self) -> (r: bool) {
        str_less(other.name.as_str(), self.name.as_str())
    }
}

/// The Markdown files among some files.
pub open spec fn proposal_files<'a>(files: Seq<ProposalFile>) -> Seq<&'a ProposalFile>
    decreases files.len(),
{
    if files.len() == 0 {
        Seq::empty()
    } else if is_proposal_file(files.last().name@) {
        proposal_files(files.drop_last()).push(&files.last())
    } else {
        proposal_files(files.drop_last())
    }
}

/// The proposals of some files; the first fault where a file has one.
pub open spec fn all_pending(files: Seq<&ProposalFile>) -> Result<Seq<PendingView>, Seq<char>>
    decreases files.len(),
{
    if files.len() == 0 {
        Ok(Seq::empty())
    } else {
        match all_pending(files.drop_last()) {
            Err(error) => Err(error),
            Ok(before) => match pending_of(*files.last()) {
                Err(error) => Err(error),
                Ok(one) => Ok(before.push(one)),
            },
        }
    }
}

pub open spec fn pending_views(s: Seq<PendingProposal>) -> Seq<PendingView> {
    s.map_values(|p: PendingProposal| p@)
}

/// The file that `get` and `apply` read.
pub open spec fn found_file(files: Seq<ProposalFile>, id: Seq<char>) -> Result<
    ProposalFile,
    Seq<char>,
> {
    let found = files_of(files, id);
    if !is_proposal_id(id) {
        Err("invalid proposal ID"@)
    } else if found.len() == 1 {
        Ok(*found[0])
    } else {
        Err(find_error(found.len(), id))
    }
}

/// The files of a proposal among the files of the inbox.
fn files_of_proposal<'a>(proposal_id: &str, files: &'a Vec<ProposalFile>) -> (r: Vec<
    &'a ProposalFile,
>)
    ensures
        r@ == files_of(files@, proposal_id@),
{
    let mut found: Vec<&'a ProposalFile> = Vec::new();
    let mut i: usize = 0;
    assert(files@.take(0) =~= Seq::<ProposalFile>::empty());
    while i < files.len()
        invariant
            i <= files@.len(),
            found@ == files_of(files@.take(i as int), proposal_id@),
        decreases files@.len() - i,
    {
        proof {
            lemma_take_step(files@, i as int);
        }
        if names_proposal(files[i].name.as_str(), proposal_id) {
            found.push(&files[i]);
        }
        i += 1;
    }
    assert(files@.take(i as int) =~= files@);
    found
}

impl ProposalInbox {
    /// The inbox in a folder, where one is set.
    pub fn from_value(folder: Option<&str>) -> (r: Option<ProposalInbox>)
        ensures
            match given(str_view(folder)) {
                Some(path) => r is Some && r->0.pending_dir@ == path,
                None => r is None,
            },
    {
        match given_text(folder) {
            Some(pending_dir) => Some(ProposalInbox { pending_dir }),
            None => None,
        }
    }

    /// The file of a proposal among the files of the inbox.
    pub fn find_proposal<'a>(&self, proposal_id: &str, files: &'a Vec<ProposalFile>) -> (r: Result<
        &'a ProposalFile,
        String,
    >)
        ensures
            match found_file(files@, proposal_id@) {
                Ok(file) => r is Ok && *r->Ok_0 == file,
                Err(error) => r is Err && r->Err_0@ == error,
            },
    {
        if let Err(error) = validate_proposal_id(proposal_id) {
            return Err(error);
        }
        let found = files_of_proposal(proposal_id, files);
        if found.len() == 1 {
            Ok(found[0])
        } else if found.len() == 0 {
            Err(text3("pending proposal ", proposal_id, " not found"))
        } else {
            Err(text2("multiple pending proposals match ", proposal_id))
        }
    }

    /// A proposal of the inbox.
    pub fn get(&self, proposal_id: &str, files: &Vec<ProposalFile>) -> (r: Result<
        PendingProposal,
        String,
    >)
        ensures
            match found_file(files@, proposal_id@) {
                Err(error) => r is Err && r->Err_0@ == error,
                Ok(file) => match pending_of(file) {
                    Ok(view) => r is Ok && r->Ok_0@ == view,
                    Err(error) => r is Err && r->Err_0@ == error,
                },
            },
    {
        match self.find_proposal(proposal_id, files) {
            Err(error) => Err(error),
            Ok(file) => pending_proposal(file),
        }
    }

    /// The proposals of the inbox, the latest file name first.
    pub fn list(&self, files: &Vec<ProposalFile>) -> (r: Result<Vec<PendingProposal>, String>)
        ensures
            match all_pending(ranked(proposal_files(files@))) {
                Ok(all) => r is Ok && pending_views(r->Ok_0@) == all,
                Err(error) => r is Err && r->Err_0@ == error,
            },
    {
        let mut found: Vec<&ProposalFile> = Vec::new();
        let mut i: usize = 0;
        assert(files@.take(0) =~= Seq::<ProposalFile>::empty());
        while i < files.len()
            invariant
                i <= files@.len(),
                found@ == proposal_files(files@.take(i as int)),
            decreases files@.len() - i,
        {
            proof {
                lemma_take_step(files@, i as int);
            }
            if has_proposal_extension(files[i].name.as_str()) {
                found.push(&files[i]);
            }
            i += 1;
        }
        assert(files@.take(i as int) =~= files@);
        let sorted = sort_ranked(&found);
        let mut r: Result<Vec<PendingProposal>, String> = Ok(Vec::new());
        let mut k: usize = 0;
        assert(sorted@.take(0) =~= Seq::<&ProposalFile>::empty());
        assert(pending_views(r->Ok_0@) =~= Seq::<PendingView>::empty());
        while k < sorted.len()
            invariant
                k <= sorted@.len(),
                match all_pending(sorted@.take(k as int)) {
                    Ok(all) => r is Ok && pending_views(r->Ok_0@) == all,
                    Err(error) => r is Err && r->Err_0@ == error,
                },
            decreases sorted@.len() - k,
        {
            proof {
                lemma_take_step(sorted@, k as int);
            }
            r = match r {
                Err(error) => Err(error),
                Ok(mut all) => match pending_proposal(sorted[k]) {
                    Err(error) => Err(error),
                    Ok(one) => {
                        let ghost before = pending_views(all@);
                        all.push(one);
                        assert(pending_views(all@) =~= before.push(one@));
                        Ok(all)
                    },
                },
            };
            k += 1;
        }
        assert(sorted@.take(k as int) =~= sorted@);
        r
    }
}

} // verus!
