//! Planning how the managed block of a Daily note is written.
use crate::digest::{digest_of_text, text_digest, text_from_utf8};
use crate::text::{
    begins_with, chars_of, concat, concat_range, contains, ends_with, finishes_with, full_lines,
    occurs, opt_text, replace, replaced, split_full_lines, starts_with, str_eq, trim,
    trim_line_end, trimmed, views, without_line_end,
};
use vstd::prelude::*;
use vstd::string::*;
use vstd::utf8::*;

verus! {

/// The largest note, in bytes, that an Apply rewrites.
pub const MAX_MARKDOWN_FILE_BYTES: usize = 4_194_304;

/// The plan for one Apply: what the owned block is now, what it becomes, and
/// the whole note after the change.
#[derive(Debug, Clone, PartialEq, Eq)]
pub struct ManagedBlockPlan {
    pub previous_block: Option<String>,
    pub next_block: String,
    pub updated_content: Vec<u8>,
    pub expected_old_block_hash: Option<String>,
    pub intended_new_block_hash: String,
}

/// A plan in terms of texts.
pub struct PlanView {
    pub previous_block: Option<Seq<char>>,
    pub next_block: Seq<char>,
    pub updated: Seq<char>,
}

/// The character of the code fence that a line opens or closes.
pub open spec fn fence_char(line: Seq<char>) -> Option<char> {
    if begins_with(trimmed(line), "```"@) {
        Some('`')
    } else if begins_with(trimmed(line), "~~~"@) {
        Some('~')
    } else {
        None
    }
}

/// The code fence that is open after `lines`, when `open` is open before them.
pub open spec fn fence_after(open: Option<char>, lines: Seq<Seq<char>>) -> Option<char>
    decreases lines.len(),
{
    if lines.len() == 0 {
        open
    } else {
        let before = fence_after(open, lines.drop_last());
        match (fence_char(lines.last()), before) {
            (Some(c), None) => Some(c),
            (Some(c), Some(b)) => if b == c { None } else { before },
            (None, _) => before,
        }
    }
}

/// The numbers of the lines that hold `marker` alone, outside fenced code.
pub open spec fn marks(open: Option<char>, lines: Seq<Seq<char>>, marker: Seq<char>) -> Seq<int>
    decreases lines.len(),
{
    if lines.len() == 0 {
        Seq::empty()
    } else {
        let before = marks(open, lines.drop_last(), marker);
        if fence_after(open, lines.drop_last()) is None && fence_char(lines.last()) is None
            && trimmed(lines.last()) == marker {
            before.push(lines.len() - 1)
        } else {
            before
        }
    }
}

pub open spec fn begin_marker(id: Seq<char>) -> Seq<char> {
    "<!-- log-inbox:daily:"@ + id + ":begin -->"@
}

pub open spec fn end_marker(id: Seq<char>) -> Seq<char> {
    "<!-- log-inbox:daily:"@ + id + ":end -->"@
}

pub open spec fn open_fence_error() -> Seq<char> {
    "unterminated fenced code prevents safe Daily marker placement"@
}

pub open spec fn marker_error() -> Seq<char> {
    "managed Daily markers are missing, duplicated, or out of order"@
}

/// The lines of the block between the two markers: the number of its first
/// line and of the line after it.
pub open spec fn owned_lines(
    lines: Seq<Seq<char>>,
    begin: Seq<char>,
    end: Seq<char>,
) -> Result<Option<(int, int)>, Seq<char>> {
    let begins = marks(None, lines, begin);
    let ends = marks(None, lines, end);
    if fence_after(None, lines) is Some {
        Err(open_fence_error())
    } else if begins.len() == 0 && ends.len() == 0 {
        Ok(None)
    } else if begins.len() == 1 && ends.len() == 1 && begins[0] <= ends[0] {
        Ok(Some((begins[0], ends[0] + 1)))
    } else {
        Err(marker_error())
    }
}

/// The line break that a note uses.
pub open spec fn line_break(text: Seq<char>) -> Seq<char> {
    if occurs(text, "\r\n"@) {
        "\r\n"@
    } else {
        "\n"@
    }
}

/// The text with every line break written as `eol`.
pub open spec fn with_line_breaks(value: Seq<char>, eol: Seq<char>) -> Seq<char> {
    replaced(replaced(replaced(value, "\r\n"@, "\n"@), "\r"@, "\n"@), "\n"@, eol)
}

/// The managed block that holds `markdown`.
pub open spec fn block(id: Seq<char>, markdown: Seq<char>, eol: Seq<char>) -> Seq<char> {
    begin_marker(id) + eol + with_line_breaks(trimmed(markdown), eol) + eol + end_marker(id)
}

/// What stands before a block that is appended to a note without one.
pub open spec fn note_start(text: Seq<char>, title: Seq<char>, eol: Seq<char>) -> Seq<char> {
    if text.len() == 0 {
        if trimmed(title).len() == 0 {
            text
        } else {
            text + "# "@ + trimmed(title) + eol + eol
        }
    } else if finishes_with(text, eol + eol) {
        text
    } else if finishes_with(text, eol) {
        text + eol
    } else {
        text + eol + eol
    }
}

/// A letter, a digit, `-` or `_`, all of ASCII.
pub open spec fn is_id_char(c: char) -> bool {
    ||| '0' <= c <= '9'
    ||| 'a' <= c <= 'z'
    ||| 'A' <= c <= 'Z'
    ||| c == '-'
    ||| c == '_'
}

pub open spec fn is_block_id(id: Seq<char>) -> bool {
    id.len() > 0 && forall|i: int| 0 <= i < id.len() ==> is_id_char(#[trigger] id[i])
}

/// The plan for a note whose text is `text`.
pub open spec fn text_plan(
    text: Seq<char>,
    id: Seq<char>,
    markdown: Seq<char>,
    title: Seq<char>,
) -> Result<PlanView, Seq<char>> {
    let lines = full_lines(text);
    let eol = line_break(text);
    let next = block(id, markdown, eol);
    match owned_lines(lines, begin_marker(id), end_marker(id)) {
        Err(error) => Err(error),
        Ok(Some((from, to))) => {
            let previous = concat(lines.subrange(from, to));
            let break_after = if finishes_with(previous, "\n"@) {
                eol
            } else {
                Seq::empty()
            };
            Ok(
                PlanView {
                    previous_block: Some(previous),
                    next_block: next,
                    updated: concat(lines.take(from)) + next + break_after + concat(lines.skip(to)),
                },
            )
        },
        Ok(None) => Ok(
            PlanView {
                previous_block: None,
                next_block: next,
                updated: note_start(text, title, eol) + next + eol,
            },
        ),
    }
}

/// The plan for a note, or why there is none.
pub open spec fn block_plan(
    current: Seq<u8>,
    id: Seq<char>,
    markdown: Seq<char>,
    title: Seq<char>,
) -> Result<PlanView, Seq<char>> {
    if !is_block_id(id) {
        Err("managed block ID is invalid"@)
    } else if current.len() > MAX_MARKDOWN_FILE_BYTES {
        Err("Markdown note exceeds the 4194304-byte Apply limit"@)
    } else if !valid_utf8(current) {
        Err("Markdown note must be valid UTF-8"@)
    } else {
        text_plan(decode_utf8(current), id, markdown, title)
    }
}

/// The digest of the block that a note holds, or why it has none.
pub open spec fn block_hash(current: Seq<u8>, id: Seq<char>) -> Result<
    Option<Seq<char>>,
    Seq<char>,
> {
    if !valid_utf8(current) {
        Err("Markdown note must be valid UTF-8"@)
    } else {
        let lines = full_lines(decode_utf8(current));
        match owned_lines(lines, begin_marker(id), end_marker(id)) {
            Err(error) => Err(error),
            Ok(None) => Ok(None),
            Ok(Some((from, to))) => Ok(
                Some(text_digest(trim_line_end(concat(lines.subrange(from, to))))),
            ),
        }
    }
}

impl ManagedBlockPlan {
    /// Whether the plan says in strings and bytes what `view` says in texts,
    /// with the digests of the two blocks.
    pub open spec fn says(self, view: PlanView) -> bool {
        &&& opt_text(self.previous_block) == view.previous_block
        &&& self.next_block@ == view.next_block
        &&& self.updated_content@ == encode_utf8(view.updated)
        &&& opt_text(self.expected_old_block_hash) == (match view.previous_block {
            Some(previous) => Some(text_digest(trim_line_end(previous))),
            None => None,
        })
        &&& self.intended_new_block_hash@ == text_digest(view.next_block)
    }
}

pub fn line_fence(trimmed_line: &str) -> (r: Option<char>)
    ensures
        r == (if begins_with(trimmed_line@, "```"@) {
            Some('`')
        } else if begins_with(trimmed_line@, "~~~"@) {
            Some('~')
        } else {
            None
        }),
{
    if starts_with(trimmed_line, "```") {
        Some('`')
    } else if starts_with(trimmed_line, "~~~") {
        Some('~')
    } else {
        None
    }
}

/// Finds the lines of the block between two markers, outside fenced code.
fn marker_ranges(lines: &Vec<String>, begin: &str, end: &str) -> (r: Result<
    Option<(usize, usize)>,
    String,
>)
    requires
        begin@ != end@,
    ensures
        match owned_lines(views(lines@), begin@, end@) {
            Err(error) => r is Err && r->Err_0@ == error,
            Ok(None) => r == Ok::<Option<(usize, usize)>, String>(None),
            Ok(Some((from, to))) => r is Ok && r->Ok_0 is Some && (r->Ok_0->0).0 == from
                && (r->Ok_0->0).1 == to && from < to <= lines@.len(),
        },
{
    let mut begins: Vec<usize> = Vec::new();
    let mut ends: Vec<usize> = Vec::new();
    let mut fence: Option<char> = None;
    let mut i: usize = 0;
    let ghost all = views(lines@);
    assert(all.take(0) =~= Seq::<Seq<char>>::empty());
    while i < lines.len()
        invariant
            begin@ != end@,
            i <= lines@.len(),
            all == views(lines@),
            fence == fence_after(None, all.take(i as int)),
            begins@.map_values(|n: usize| n as int) =~= marks(None, all.take(i as int), begin@),
            ends@.map_values(|n: usize| n as int) =~= marks(None, all.take(i as int), end@),
            forall|k: int| 0 <= k < begins@.len() ==> begins@[k] < i,
            forall|k: int| 0 <= k < ends@.len() ==> ends@[k] < i,
        decreases lines@.len() - i,
    {
        assert(all.take(i + 1).drop_last() =~= all.take(i as int));
        assert(all.take(i + 1).last() == lines@[i as int]@);
        let line = trim(lines[i].as_str());
        match line_fence(line.as_str()) {
            Some(character) => {
                match fence {
                    None => {
                        fence = Some(character);
                    },
                    Some(open) => {
                        if open == character {
                            fence = None;
                        }
                    },
                }
            },
            None => {
                if fence.is_none() {
                    if str_eq(line.as_str(), begin) {
                        begins.push(i);
                    } else if str_eq(line.as_str(), end) {
                        ends.push(i);
                    }
                }
            },
        }
        i += 1;
    }
    assert(all.take(i as int) =~= all);
    assert(begins@.map_values(|n: usize| n as int).len() == begins@.len());
    assert(ends@.map_values(|n: usize| n as int).len() == ends@.len());
    if fence.is_some() {
        return Err(
            "unterminated fenced code prevents safe Daily marker placement".to_owned(),
        );
    }
    if begins.len() == 0 && ends.len() == 0 {
        return Ok(None);
    }
    if begins.len() == 1 && ends.len() == 1 {
        assert(marks(None, all, begin@)[0] == begins@[0]);
        assert(marks(None, all, end@)[0] == ends@[0]);
        if begins[0] <= ends[0] {
            return Ok(Some((begins[0], ends[0] + 1)));
        }
    }
    Err("managed Daily markers are missing, duplicated, or out of order".to_owned())
}


fn id_char(c: char) -> (r: bool)
    ensures
        r == is_id_char(c),
{
    ('0' <= c && c <= '9') || ('a' <= c && c <= 'z') || ('A' <= c && c <= 'Z') || c == '-' || c
        == '_'
}

pub fn block_id_is_valid(id: &str) -> (r: bool)
    ensures
        r == is_block_id(id@),
{
    let chars = chars_of(id);
    let mut i: usize = 0;
    while i < chars.len()
        invariant
            chars@ == id@,
            i <= chars@.len(),
            forall|k: int| 0 <= k < i ==> is_id_char(#[trigger] chars@[k]),
        decreases chars@.len() - i,
    {
        if !id_char(chars[i]) {
            assert(!is_id_char(id@[i as int]));
            return false;
        }
        i += 1;
    }
    chars.len() > 0
}

/// Writes every line break of a text as `eol`.
pub fn normalize_line_endings(value: &str, eol: &str) -> (r: String)
    ensures
        r@ == with_line_breaks(value@, eol@),
{
    proof {
        reveal_strlit("\r\n");
        reveal_strlit("\r");
        reveal_strlit("\n");
    }
    let unified = replace(value, "\r\n", "\n");
    let unified = replace(unified.as_str(), "\r", "\n");
    replace(unified.as_str(), "\n", eol)
}

fn begin_text(block_id: &str) -> (r: String)
    ensures
        r@ == begin_marker(block_id@),
{
    let mut r = "<!-- log-inbox:daily:".to_owned();
    r.push_str(block_id);
    r.push_str(":begin -->");
    r
}

fn end_text(block_id: &str) -> (r: String)
    ensures
        r@ == end_marker(block_id@),
{
    let mut r = "<!-- log-inbox:daily:".to_owned();
    r.push_str(block_id);
    r.push_str(":end -->");
    r
}

proof fn lemma_markers_differ(id: Seq<char>)
    ensures
        begin_marker(id) != end_marker(id),
{
    reveal_strlit(":begin -->");
    reveal_strlit(":end -->");
    assert(begin_marker(id).len() == end_marker(id).len() + 2);
}

fn start_note(text: &str, title: &str, eol: &str) -> (r: String)
    ensures
        r@ == note_start(text@, title@, eol@),
{
    let mut updated = text.to_owned();
    if text.is_empty() {
        let title = trim(title);
        if !title.as_str().is_empty() {
            updated.push_str("# ");
            updated.push_str(title.as_str());
            updated.push_str(eol);
            updated.push_str(eol);
        }
    } else {
        let mut blank_line = eol.to_owned();
        blank_line.push_str(eol);
        if !ends_with(text, blank_line.as_str()) {
            if ends_with(text, eol) {
                updated.push_str(eol);
            } else {
                updated.push_str(eol);
                updated.push_str(eol);
            }
        }
    }
    updated
}

/// Plans how a note takes the managed block: a block that it already holds is
/// replaced, and the rest of the note kept as it is; otherwise the block is
/// appended.
pub fn plan_managed_block(
    current: Option<&[u8]>,
    block_id: &str,
    markdown: &str,
    new_note_title: &str,
) -> (r: Result<ManagedBlockPlan, String>)
    ensures
        match block_plan(
            match current {
                Some(bytes) => bytes@,
                None => Seq::empty(),
            },
            block_id@,
            markdown@,
            new_note_title@,
        ) {
            Ok(view) => r is Ok && r->Ok_0.says(view),
            Err(error) => r is Err && r->Err_0@ == error,
        },
{
    if !block_id_is_valid(block_id) {
        return Err("managed block ID is invalid".to_owned());
    }
    let text = match current {
        Some(bytes) => {
            if bytes.len() > MAX_MARKDOWN_FILE_BYTES {
                return Err("Markdown note exceeds the 4194304-byte Apply limit".to_owned());
            }
            match text_from_utf8(bytes) {
                Some(text) => text,
                None => {
                    return Err("Markdown note must be valid UTF-8".to_owned());
                },
            }
        },
        None => {
            assert(decode_utf8(Seq::<u8>::empty()) =~= Seq::<char>::empty());
            String::new()
        },
    };
    let eol: &str = if contains(text.as_str(), "\r\n") {
        "\r\n"
    } else {
        "\n"
    };
    let begin = begin_text(block_id);
    let end = end_text(block_id);
    proof {
        lemma_markers_differ(block_id@);
    }
    let lines = split_full_lines(text.as_str());
    let markers = match marker_ranges(&lines, begin.as_str(), end.as_str()) {
        Ok(markers) => markers,
        Err(error) => {
            return Err(error);
        },
    };
    let body = normalize_line_endings(trim(markdown).as_str(), eol);
    let mut next_block = begin;
    next_block.push_str(eol);
    next_block.push_str(body.as_str());
    next_block.push_str(eol);
    next_block.push_str(end.as_str());
    let intended_new_block_hash = digest_of_text(next_block.as_str());
    match markers {
        Some((start, finish)) => {
            let previous = concat_range(&lines, start, finish);
            let mut updated = concat_range(&lines, 0, start);
            updated.push_str(next_block.as_str());
            if ends_with(previous.as_str(), "\n") {
                updated.push_str(eol);
            } else {
                assert(updated@ + Seq::<char>::empty() =~= updated@);
            }
            let suffix = concat_range(&lines, finish, lines.len());
            proof {
                let all = views(lines@);
                assert(all.take(start as int) =~= all.subrange(0, start as int));
                assert(all.skip(finish as int) =~= all.subrange(finish as int, all.len() as int));
            }
            updated.push_str(suffix.as_str());
            let old_hash = digest_of_text(without_line_end(previous.as_str()).as_str());
            Ok(
                ManagedBlockPlan {
                    previous_block: Some(previous),
                    next_block,
                    updated_content: updated.as_str().as_bytes_vec(),
                    expected_old_block_hash: Some(old_hash),
                    intended_new_block_hash,
                },
            )
        },
        None => {
            let mut updated = start_note(text.as_str(), new_note_title, eol);
            updated.push_str(next_block.as_str());
            updated.push_str(eol);
            Ok(
                ManagedBlockPlan {
                    previous_block: None,
                    next_block,
                    updated_content: updated.as_str().as_bytes_vec(),
                    expected_old_block_hash: None,
                    intended_new_block_hash,
                },
            )
        },
    }
}

/// The digest of the managed block that a note holds.
pub fn managed_block_hash(current: &[u8], block_id: &str) -> (r: Result<Option<String>, String>)
    ensures
        match block_hash(current@, block_id@) {
            Ok(hash) => r is Ok && opt_text(r->Ok_0) == hash,
            Err(error) => r is Err && r->Err_0@ == error,
        },
{
    let text = match text_from_utf8(current) {
        Some(text) => text,
        None => {
            return Err("Markdown note must be valid UTF-8".to_owned());
        },
    };
    let begin = begin_text(block_id);
    let end = end_text(block_id);
    proof {
        lemma_markers_differ(block_id@);
    }
    let lines = split_full_lines(text.as_str());
    match marker_ranges(&lines, begin.as_str(), end.as_str()) {
        Err(error) => Err(error),
        Ok(None) => Ok(None),
        Ok(Some((start, finish))) => {
            let owned = concat_range(&lines, start, finish);
            Ok(Some(digest_of_text(without_line_end(owned.as_str()).as_str())))
        },
    }
}

} // verus!
