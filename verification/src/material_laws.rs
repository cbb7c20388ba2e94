//! What an Apply writes into a note, and where.
use crate::apply_material::{
    ApplyInputs, apply_material, entry_ids, has_new_evidence, initial_content, stale_error,
    target_view, without,
};
use crate::candidate_laws::lemma_left;
use crate::daily_laws::{lemma_block_plain, lemma_marker_shape};
use crate::daily_writer::{
    begin_marker, block, block_plan, end_marker, fence_after, fence_char, is_block_id,
    is_id_char, line_break, marks, note_start, owned_lines, text_plan, with_line_breaks,
};
use crate::digest::sha256_hex;
use crate::line_laws::{
    law_line_breaks_are_written_anew, lemma_breaks, lemma_replaced_absent, lemma_replaced_self,
    lemma_trimmed_parts, lemma_with_line_breaks_add,
};
use crate::ordered::lemma_push_contains;
use crate::preview_laws::{lemma_occurs_self, lemma_occurs_within};
use crate::revisions::preview;
use crate::text::{
    begins_with, concat, finishes_with, free_of, full_lines, occurs, occurs_at, opt_text,
    replaced, trimmed, views,
};
use vstd::prelude::*;
use vstd::string::*;
use vstd::utf8::*;

verus! {

/// A text without carriage returns keeps its line breaks when they are written
/// plainly; a carriage return with or without a line feed is one line break.
pub proof fn law_line_breaks_are_told_apart(a: Seq<char>, b: Seq<char>)
    ensures
        free_of(a, '\r') ==> with_line_breaks(a, "\n"@) == a,
        with_line_breaks(a + "\r\n"@ + b, "\n"@) == with_line_breaks(a, "\n"@) + "\n"@
            + with_line_breaks(b, "\n"@),
        b.len() == 0 || b[0] != '\n' ==> with_line_breaks(a + "\r"@ + b, "\n"@)
            == with_line_breaks(a, "\n"@) + "\n"@ + with_line_breaks(b, "\n"@),
        free_of(a, '\r') && free_of(a, '\n') ==> with_line_breaks(a, "\r\n"@) == a,
{
    lemma_breaks();
    if free_of(a, '\r') {
        lemma_replaced_absent(a, "\r\n"@, "\n"@);
        lemma_replaced_absent(a, "\r"@, "\n"@);
        lemma_replaced_self(a, "\n"@);
        if free_of(a, '\n') {
            lemma_replaced_absent(a, "\n"@, "\r\n"@);
        }
    }
    let two = "\r\n"@;
    let one = "\r"@;
    let none = Seq::<char>::empty();
    assert(with_line_breaks(two, "\n"@) == "\n"@) by {
        assert(two.take(2) =~= two);
        assert(two.skip(2) =~= none);
        assert(replaced(none, two, "\n"@) == none);
        assert(replaced(two, two, "\n"@) =~= "\n"@);
        lemma_replaced_absent("\n"@, one, "\n"@);
        lemma_replaced_self("\n"@, "\n"@);
    }
    assert(with_line_breaks(one, "\n"@) == "\n"@) by {
        assert(replaced(one, two, "\n"@) == one);
        assert(one.take(1) =~= one);
        assert(one.skip(1) =~= none);
        assert(replaced(none, one, "\n"@) == none);
        assert(replaced(one, one, "\n"@) =~= "\n"@);
        lemma_replaced_self("\n"@, "\n"@);
    }
    lemma_with_line_breaks_add(a, two);
    lemma_with_line_breaks_add(a + two, b);
    assert((a + two).last() == '\n');
    lemma_with_line_breaks_add(a, one);
    if b.len() == 0 || b[0] != '\n' {
        lemma_with_line_breaks_add(a + one, b);
    }
}

/// A block stands between its two markers and holds the Markdown that it was
/// given, without white space at its ends.
pub proof fn law_block_holds_its_markdown(id: Seq<char>, markdown: Seq<char>)
    ensures
        free_of(markdown, '\r') ==> block(id, markdown, "\n"@) == "<!-- log-inbox:daily:"@ + id
            + ":begin -->\n"@ + trimmed(markdown) + "\n<!-- log-inbox:daily:"@ + id + ":end -->"@,
        with_line_breaks(block(id, markdown, "\r\n"@), "\n"@) == with_line_breaks(
            block(id, markdown, "\n"@),
            "\n"@,
        ) || !is_block_id(id),
{
    lemma_breaks();
    reveal_strlit(":begin -->");
    reveal_strlit(":begin -->\n");
    reveal_strlit("\n<!-- log-inbox:daily:");
    reveal_strlit("<!-- log-inbox:daily:");
    if free_of(markdown, '\r') {
        let t = trimmed(markdown);
        let (ahead, behind) = lemma_trimmed_parts(markdown);
        assert forall|i: int| 0 <= i < t.len() implies #[trigger] t[i] != '\r' by {
            assert(t[i] == markdown[ahead.len() + i]);
        }
        law_line_breaks_are_told_apart(t, t);
        assert(":begin -->\n"@ =~= ":begin -->"@ + "\n"@);
        assert("\n<!-- log-inbox:daily:"@ =~= "\n"@ + "<!-- log-inbox:daily:"@);
        assert(block(id, markdown, "\n"@) =~= "<!-- log-inbox:daily:"@ + id + ":begin -->\n"@ + t
            + "\n<!-- log-inbox:daily:"@ + id + ":end -->"@);
    }
    if is_block_id(id) {
        lemma_marker_shape(id);
        let t = trimmed(markdown);
        let lf = "\n"@;
        let b = begin_marker(id);
        let e = end_marker(id);
        assert(free_of(b, '\r') && free_of(e, '\r'));
        let w = with_line_breaks(t, "\r\n"@);
        let u = with_line_breaks(t, lf);
        law_line_breaks_are_written_anew(t, "\r\n"@, lf);
        law_line_breaks_are_written_anew(t, lf, lf);
        law_line_breaks_are_told_apart(b, w + "\r\n"@ + e);
        assert(block(id, markdown, "\r\n"@) =~= b + "\r\n"@ + (w + "\r\n"@ + e));
        law_line_breaks_are_told_apart(w, e);
        law_line_breaks_are_told_apart(e, e);
        let plain = block(id, markdown, lf);
        lemma_block_is_plain(id, markdown);
        law_line_breaks_are_told_apart(plain, plain);
        assert(plain =~= b + lf + (u + lf + e));
        assert(with_line_breaks(block(id, markdown, "\r\n"@), lf) =~= b + lf + (u + lf + e));
    }
}

proof fn lemma_block_is_plain(id: Seq<char>, markdown: Seq<char>)
    requires
        is_block_id(id),
    ensures
        free_of(block(id, markdown, "\n"@), '\r'),
{
    lemma_block_plain(id, markdown);
}

/// Where a block that is new to a note is put: behind all of its text and a blank
/// line, or behind a heading with the title where the note is new. A note that
/// has a block gets it in its place.
pub proof fn law_place_of_a_block(
    text: Seq<char>,
    id: Seq<char>,
    markdown: Seq<char>,
    title: Seq<char>,
)
    requires
        text_plan(text, id, markdown, title) is Ok,
    ensures
        ({
            let plan = text_plan(text, id, markdown, title)->Ok_0;
            let eol = if occurs(text, "\r\n"@) {
                "\r\n"@
            } else {
                "\n"@
            };
            &&& plan.next_block == block(id, markdown, eol)
            &&& occurs(plan.updated, plan.next_block)
            &&& text.len() == 0 ==> plan.previous_block is None
            &&& text.len() == 0 && trimmed(title).len() > 0 ==> plan.updated == "# "@ + trimmed(title)
                + "\n\n"@ + plan.next_block + "\n"@
            &&& text.len() == 0 && trimmed(title).len() == 0 ==> plan.updated == plan.next_block
                + "\n"@
            &&& text.len() > 0 && plan.previous_block is None ==> exists|gap: Seq<char>|
                {
                    &&& plan.updated == #[trigger] (text + gap) + plan.next_block + eol
                    &&& gap.len() == 0 || gap == eol || gap == eol + eol
                    &&& finishes_with(text + gap, eol + eol)
                }
        }),
{
    lemma_breaks();
    reveal_strlit("\n\n");
    reveal_strlit("# ");
    let plan = text_plan(text, id, markdown, title)->Ok_0;
    let eol = line_break(text);
    let lines = full_lines(text);
    let none = Seq::<char>::empty();
    lemma_occurs_self(plan.next_block);
    if text.len() == 0 {
        assert(text =~= none);
        assert(lines =~= Seq::<Seq<char>>::empty());
        if occurs(text, "\r\n"@) {
            let at = choose|at: int| occurs_at(text, "\r\n"@, at);
        }
        assert("\n\n"@ =~= "\n"@ + "\n"@);
        assert(owned_lines(lines, begin_marker(id), end_marker(id)) == Ok::<
            Option<(int, int)>,
            Seq<char>,
        >(None)) by {
            assert(fence_after(None, lines) is None);
            assert(marks(None, lines, begin_marker(id)).len() == 0);
            assert(marks(None, lines, end_marker(id)).len() == 0);
        }
        if trimmed(title).len() > 0 {
            assert(plan.updated =~= "# "@ + trimmed(title) + "\n\n"@ + plan.next_block + "\n"@);
        } else {
            assert(plan.updated =~= plan.next_block + "\n"@);
        }
    }
    match owned_lines(lines, begin_marker(id), end_marker(id))->Ok_0 {
        Some((from, to)) => {
            let previous = concat(lines.subrange(from, to));
            let brk = if finishes_with(previous, "\n"@) {
                eol
            } else {
                none
            };
            lemma_occurs_within(
                concat(lines.take(from)),
                plan.next_block,
                brk + concat(lines.skip(to)),
                plan.next_block,
            );
            assert(plan.updated =~= concat(lines.take(from)) + plan.next_block + (brk + concat(
                lines.skip(to),
            )));
        },
        None => {
            let start = note_start(text, title, eol);
            lemma_occurs_within(start, plan.next_block, eol, plan.next_block);
            if text.len() > 0 {
                let gap = if finishes_with(text, eol + eol) {
                    none
                } else if finishes_with(text, eol) {
                    eol
                } else {
                    eol + eol
                };
                let all = text + gap;
                assert(start =~= all);
                if finishes_with(text, eol + eol) {
                    assert(all =~= text);
                } else if finishes_with(text, eol) {
                    assert(text.skip(text.len() - eol.len()) == eol);
                    assert(all.skip(all.len() - (eol + eol).len()) =~= text.skip(
                        text.len() - eol.len(),
                    ) + eol);
                } else {
                    assert(all.skip(all.len() - (eol + eol).len()) =~= eol + eol);
                }
                assert(plan.updated == all + plan.next_block + eol);
            }
        },
    }
}

/// A code fence is opened by a line that begins, but for white space, with three
/// backticks or three tildes; only a line with the same characters closes it.
pub proof fn law_code_fences(open: Option<char>, lines: Seq<Seq<char>>, line: Seq<char>)
    ensures
        fence_char(line) == Some('`') <==> begins_with(trimmed(line), "```"@),
        fence_char(line) == Some('~') <==> begins_with(trimmed(line), "~~~"@),
        fence_char(line) is None <==> !begins_with(trimmed(line), "```"@) && !begins_with(
            trimmed(line),
            "~~~"@,
        ),
        fence_after(open, Seq::empty()) == open,
        ({
            let before = fence_after(open, lines);
            let after = fence_after(open, lines.push(line));
            &&& before is None ==> after == fence_char(line)
            &&& before is Some && fence_char(line) == before ==> after is None
            &&& before is Some && fence_char(line) != before ==> after == before
        }),
{
    reveal_strlit("```");
    reveal_strlit("~~~");
    assert("```"@[0] == '`' && "~~~"@[0] == '~');
    if begins_with(trimmed(line), "```"@) && begins_with(trimmed(line), "~~~"@) {
        assert(trimmed(line).take(3)[0] == '`');
        assert(trimmed(line).take(3)[0] == '~');
    }
    assert(lines.push(line).drop_last() =~= lines);
}

/// A marker counts where it is all that a line holds, but for white space, and no
/// code fence is open.
pub proof fn law_markers_count_outside_fences(lines: Seq<Seq<char>>, marker: Seq<char>, k: int)
    ensures
        marks(None, lines, marker).contains(k) <==> {
            &&& 0 <= k < lines.len()
            &&& trimmed(lines[k]) == marker
            &&& fence_char(lines[k]) is None
            &&& fence_after(None, lines.take(k)) is None
        },
        forall|i: int, j: int|
            0 <= i < j < marks(None, lines, marker).len() ==> #[trigger] marks(
                None,
                lines,
                marker,
            )[i] < #[trigger] marks(None, lines, marker)[j],
    decreases lines.len(),
{
    let all = marks(None, lines, marker);
    if lines.len() > 0 {
        let init = lines.drop_last();
        let n = lines.len() - 1;
        law_markers_count_outside_fences(init, marker, k);
        let before = marks(None, init, marker);
        assert(lines.take(n) =~= init);
        if 0 <= k < n {
            assert(init.take(k) =~= lines.take(k));
            assert(init[k] == lines[k]);
        }
        lemma_push_contains(before, n, k);
        assert forall|i: int, j: int| 0 <= i < j < all.len() implies #[trigger] all[i]
            < #[trigger] all[j] by {
            if j < before.len() {
                assert(all[i] == before[i] && all[j] == before[j]);
            } else {
                assert(all[i] == before[i]);
                law_markers_count_outside_fences(init, marker, before[i]);
                assert(before.contains(before[i]));
            }
        }
    }
}

/// The block of a note reaches from its one begin marker to its one end marker.
/// Markers that are doubled, missing or out of order, and a fence that is left
/// open, are refused; a note without markers has no block.
pub proof fn law_block_reaches_from_marker_to_marker(
    lines: Seq<Seq<char>>,
    begin: Seq<char>,
    end: Seq<char>,
)
    ensures
        ({
            let found = owned_lines(lines, begin, end);
            let begins = marks(None, lines, begin);
            let ends = marks(None, lines, end);
            let closed = fence_after(None, lines) is None;
            &&& found is Ok && found->Ok_0 is None <==> closed && begins.len() == 0 && ends.len()
                == 0
            &&& found is Ok && found->Ok_0 is Some <==> closed && begins.len() == 1 && ends.len()
                == 1 && begins[0] <= ends[0]
            &&& found is Ok && found->Ok_0 is Some ==> (found->Ok_0->0).0 == begins[0] && (
            found->Ok_0->0).1 == ends[0] + 1
        }),
{
}

/// Notes that an Apply can plan for: the block has an ID, the note is not too large
/// and is text, and its markers can be told. The plan tells the block as it was.
pub proof fn law_notes_that_can_be_planned(
    current: Seq<u8>,
    id: Seq<char>,
    markdown: Seq<char>,
    title: Seq<char>,
)
    ensures
        block_plan(current, id, markdown, title) is Ok <==> {
            &&& id.len() > 0
            &&& forall|i: int|
                0 <= i < id.len() ==> ('0' <= #[trigger] id[i] <= '9' || 'a' <= id[i] <= 'z' || 'A'
                    <= id[i] <= 'Z' || id[i] == '-' || id[i] == '_')
            &&& current.len() <= 4_194_304
            &&& valid_utf8(current)
            &&& owned_lines(
                full_lines(decode_utf8(current)),
                "<!-- log-inbox:daily:"@ + id + ":begin -->"@,
                "<!-- log-inbox:daily:"@ + id + ":end -->"@,
            ) is Ok
        },
        block_plan(current, id, markdown, title) is Ok ==> {
            let lines = full_lines(decode_utf8(current));
            let plan = block_plan(current, id, markdown, title)->Ok_0;
            match owned_lines(
                lines,
                "<!-- log-inbox:daily:"@ + id + ":begin -->"@,
                "<!-- log-inbox:daily:"@ + id + ":end -->"@,
            )->Ok_0 {
                Some((from, to)) => plan.previous_block == Some(concat(lines.subrange(from, to))),
                None => plan.previous_block is None,
            }
        },
{
    if is_block_id(id) {
        assert forall|i: int| 0 <= i < id.len() implies ('0' <= #[trigger] id[i] <= '9' || 'a'
            <= id[i] <= 'z' || 'A' <= id[i] <= 'Z' || id[i] == '-' || id[i] == '_') by {
            assert(is_id_char(id[i]));
        }
    }
}

/// Whether a day has a current candidate that can be read.
pub open spec fn has_candidate(inputs: ApplyInputs) -> bool {
    &&& inputs.day is Some
    &&& inputs.revision is Some
    &&& opt_text(inputs.day->0.current_revision_id) == Some(inputs.revision->0.id@)
    &&& inputs.revision->0.content is Ok
}

/// Whether the candidate of a day holds all that was logged and noted.
pub open spec fn holds_everything(inputs: ApplyInputs) -> bool {
    &&& !inputs.live_truncated
    &&& forall|e: Seq<char>| #[trigger]
        views(inputs.live_event_ids@).contains(e) && !views(inputs.deferred_event_ids@).contains(e)
            ==> views(inputs.snapshot_event_ids@).contains(e)
    &&& inputs.revision->0.content->Ok_0@.manual_entry_ids == Seq::new(
        inputs.manual_entries@.len(),
        |i: int| inputs.manual_entries@[i].id@,
    )
}

/// What a note begins with that a block is put into, and the template that it comes
/// from: a note that is there is what it is, and a new one is empty or the frozen
/// template, if that is whole.
pub open spec fn begins_as(inputs: ApplyInputs, start: Seq<u8>, template: Option<Seq<char>>) -> bool {
    match inputs.target {
        Some(bytes) => start == bytes@ && template is None,
        None => match opt_text(inputs.day->0.template_revision) {
            None => false,
            Some(revision) => if revision == "none"@ {
                start.len() == 0 && template is None
            } else {
                &&& inputs.template is Some
                &&& inputs.template->0.content_hash@ == revision
                &&& sha256_hex(inputs.template->0.content@) == revision
                &&& start == inputs.template->0.content@
                &&& template == Some(inputs.template->0.template_path@)
            },
        },
    }
}

proof fn lemma_stale(inputs: ApplyInputs)
    requires
        has_candidate(inputs),
    ensures
        holds_everything(inputs) <==> stale_error(
            inputs.live_truncated,
            without(views(inputs.live_event_ids@), views(inputs.deferred_event_ids@)),
            views(inputs.snapshot_event_ids@),
            inputs.revision->0.content->Ok_0@.manual_entry_ids,
            entry_ids(inputs.manual_entries@),
        ) is None,
{
    let live = views(inputs.live_event_ids@);
    let deferred = views(inputs.deferred_event_ids@);
    let known = views(inputs.snapshot_event_ids@);
    let left = without(live, deferred);
    assert(entry_ids(inputs.manual_entries@) =~= Seq::new(
        inputs.manual_entries@.len(),
        |i: int| inputs.manual_entries@[i].id@,
    ));
    assert forall|e: Seq<char>| #[trigger] left.contains(e) <==> live.contains(e)
        && !deferred.contains(e) by {
        lemma_left(live, deferred, e);
    }
    if has_new_evidence(left, known) {
        let i = choose|i: int| 0 <= i < left.len() && !known.contains(#[trigger] left[i]);
        assert(left.contains(left[i]));
        assert(live.contains(left[i]));
    } else {
        assert forall|e: Seq<char>| #[trigger] live.contains(e) && !deferred.contains(
            e,
        ) implies known.contains(e) by {
            assert(left.contains(e));
            let i = choose|i: int| 0 <= i < left.len() && left[i] == e;
            assert(known.contains(left[i]));
        }
    }
}

/// An Apply is prepared just where the day has a candidate that holds everything,
/// it is known what the note begins with, and a block can be planned. It writes the
/// Markdown of the candidate under the heading of the day, and records what the
/// note was.
pub proof fn law_apply_is_prepared_from_the_candidate(
    inputs: ApplyInputs,
    start: Seq<u8>,
    template: Option<Seq<char>>,
)
    ensures
        has_candidate(inputs) && holds_everything(inputs) && begins_as(inputs, start, template)
            ==> {
            let plan = block_plan(
                start,
                inputs.day->0.block_id@,
                preview(
                    inputs.revision->0.content->Ok_0@,
                    inputs.manual_entries@,
                    inputs.snapshot_evidence@,
                ),
                "Daily log "@ + inputs.local_date@,
            );
            let made = apply_material(inputs);
            &&& plan is Ok <==> made is Ok
            &&& plan is Ok ==> {
                &&& made->Ok_0.plan == plan->Ok_0
                &&& made->Ok_0.revision_id == inputs.revision->0.id@
                &&& made->Ok_0.revision_content_hash == inputs.revision->0.content_hash@
                &&& made->Ok_0.destination_path == inputs.day->0.destination_path@
                &&& made->Ok_0.target_exists == (inputs.target is Some)
                &&& made->Ok_0.template_used == template
                &&& inputs.target is Some ==> made->Ok_0.original_content == inputs.target->0@
                &&& inputs.target is None ==> made->Ok_0.original_content.len() == 0
            }
            &&& plan is Err ==> made->Err_0.status == 409 && made->Err_0.message == plan->Err_0
        },
        apply_material(inputs) is Ok ==> has_candidate(inputs) && holds_everything(inputs),
{
    if has_candidate(inputs) {
        lemma_stale(inputs);
        if begins_as(inputs, start, template) && start.len() == 0 {
            assert(start =~= Seq::<u8>::empty());
        }
    }
}

/// What is wrong with an Apply that is not prepared: a candidate that is not there
/// or not current and one that is out of date are conflicts, one that cannot be
/// read is a fault, and a day with too many events cannot be processed.
pub proof fn law_apply_is_refused_for_a_reason(inputs: ApplyInputs)
    ensures
        !has_candidate(inputs) ==> apply_material(inputs) is Err,
        inputs.day is None || inputs.revision is None || opt_text(
            inputs.day->0.current_revision_id,
        ) != Some(inputs.revision->0.id@) ==> apply_material(inputs)->Err_0.status == 409,
        inputs.day is Some && inputs.revision is Some && opt_text(
            inputs.day->0.current_revision_id,
        ) == Some(inputs.revision->0.id@) && inputs.revision->0.content is Err ==> apply_material(
            inputs,
        )->Err_0.status == 500,
        has_candidate(inputs) && inputs.live_truncated ==> apply_material(inputs) is Err
            && apply_material(inputs)->Err_0.status == 422,
        has_candidate(inputs) && !inputs.live_truncated && !holds_everything(inputs)
            ==> apply_material(inputs) is Err && apply_material(inputs)->Err_0.status == 409,
        has_candidate(inputs) && holds_everything(inputs) && inputs.target is None && !(exists|
            start: Seq<u8>,
            template: Option<Seq<char>>,
        | #[trigger] begins_as(inputs, start, template)) ==> apply_material(inputs) is Err
            && apply_material(inputs)->Err_0.status == 409,
{
    if has_candidate(inputs) {
        lemma_stale(inputs);
        match initial_content(
            target_view(inputs.target),
            opt_text(inputs.day->0.template_revision),
            inputs.template,
        ) {
            Ok((start, template)) => {
                assert(begins_as(inputs, start, template));
            },
            Err(_) => {},
        }
    }
}

} // verus!
