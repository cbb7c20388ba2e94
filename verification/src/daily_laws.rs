//! What every Apply plan keeps to.
use crate::daily_writer::{
    MAX_MARKDOWN_FILE_BYTES, begin_marker, block, block_hash, block_plan, end_marker,
    fence_after, fence_char, is_block_id, is_id_char, line_break, marks, note_start,
    owned_lines, text_plan, with_line_breaks,
};
use crate::digest::text_digest;
use crate::line_laws::{
    lemma_one_line_title_is_quiet, lemma_quiet_in_block, lemma_trimmed_parts, quiet_text,
};
use crate::text::{
    at_line_start, begins_with, concat, finishes_with, free_of, full_lines, is_blank,
    lemma_concat_add, lemma_concat_one, lemma_full_lines, lemma_full_lines_add,
    lemma_full_lines_of_concat, lemma_full_lines_one, lemma_replaced_free_of,
    lemma_trimmed_blank, lemma_trimmed_same, occurs, occurs_at, replaced, trim_line_end,
    trimmed, well_split,
};
use vstd::prelude::*;
use vstd::string::*;
use vstd::utf8::*;

verus! {

/// Lines that neither hold one of the two markers of a block nor leave a code
/// fence open.
pub open spec fn quiet(lines: Seq<Seq<char>>, id: Seq<char>) -> bool {
    &&& fence_after(None, lines) is None
    &&& marks(None, lines, begin_marker(id)).len() == 0
    &&& marks(None, lines, end_marker(id)).len() == 0
}

/// Markdown whose lines, as they are written into a block, are quiet.
pub open spec fn quiet_markdown(markdown: Seq<char>, eol: Seq<char>, id: Seq<char>) -> bool {
    quiet(full_lines(with_line_breaks(trimmed(markdown), eol) + eol), id)
}

/// A title that adds quiet lines to a new note.
pub open spec fn quiet_title(title: Seq<char>, eol: Seq<char>, id: Seq<char>) -> bool {
    quiet(full_lines(note_start(Seq::empty(), title, eol)), id)
}

proof fn lemma_fence_add(open: Option<char>, a: Seq<Seq<char>>, b: Seq<Seq<char>>)
    ensures
        fence_after(open, a + b) == fence_after(fence_after(open, a), b),
    decreases b.len(),
{
    if b.len() == 0 {
        assert(a + b =~= a);
    } else {
        assert((a + b).drop_last() =~= a + b.drop_last());
        lemma_fence_add(open, a, b.drop_last());
    }
}

spec fn shifted(s: Seq<int>, by: int) -> Seq<int> {
    s.map_values(|n: int| n + by)
}

proof fn lemma_marks_add(
    open: Option<char>,
    a: Seq<Seq<char>>,
    b: Seq<Seq<char>>,
    marker: Seq<char>,
)
    ensures
        marks(open, a + b, marker) == marks(open, a, marker) + shifted(
            marks(fence_after(open, a), b, marker),
            a.len() as int,
        ),
    decreases b.len(),
{
    let inner = fence_after(open, a);
    if b.len() == 0 {
        assert(a + b =~= a);
        assert(marks(open, a, marker) + shifted(marks(inner, b, marker), a.len() as int) =~= marks(
            open,
            a,
            marker,
        ));
    } else {
        assert((a + b).drop_last() =~= a + b.drop_last());
        lemma_marks_add(open, a, b.drop_last(), marker);
        lemma_fence_add(open, a, b.drop_last());
        assert(marks(open, a + b, marker) =~= marks(open, a, marker) + shifted(
            marks(inner, b, marker),
            a.len() as int,
        ));
    }
}

/// Every mark is a line of its own number, outside fenced code.
proof fn lemma_marks(open: Option<char>, lines: Seq<Seq<char>>, marker: Seq<char>, k: int)
    requires
        0 <= k < marks(open, lines, marker).len(),
    ensures
        ({
            let at = marks(open, lines, marker)[k];
            &&& 0 <= at < lines.len()
            &&& fence_after(open, lines.take(at)) is None
            &&& fence_char(lines[at]) is None
            &&& trimmed(lines[at]) == marker
        }),
    decreases lines.len(),
{
    let init = lines.drop_last();
    let before = marks(open, init, marker);
    if k < before.len() {
        lemma_marks(open, init, marker, k);
        let at = before[k];
        assert(init.take(at) =~= lines.take(at));
    } else {
        assert(lines.take(lines.len() - 1) =~= init);
    }
}

proof fn lemma_fence_one(open: Option<char>, line: Seq<char>)
    ensures
        fence_char(line) is None ==> fence_after(open, seq![line]) == open,
{
    assert(seq![line].drop_last() =~= Seq::<Seq<char>>::empty());
    assert(fence_after(open, seq![line].drop_last()) == open);
}

proof fn lemma_marks_one(line: Seq<char>, marker: Seq<char>)
    requires
        fence_char(line) is None,
    ensures
        marks(None, seq![line], marker) == (if trimmed(line) == marker {
            seq![0int]
        } else {
            Seq::empty()
        }),
{
    assert(seq![line].drop_last() =~= Seq::<Seq<char>>::empty());
    assert(marks(None, seq![line].drop_last(), marker) =~= Seq::<int>::empty());
    assert(Seq::<int>::empty().push(0) =~= seq![0int]);
}

/// What is known of a marker line.
pub proof fn lemma_marker_shape(id: Seq<char>)
    requires
        is_block_id(id),
    ensures
        ({
            let b = begin_marker(id);
            let e = end_marker(id);
            &&& b != e
            &&& b.len() > 3 && e.len() > 3
            &&& b[0] == '<' && e[0] == '<'
            &&& b.last() == '>' && e.last() == '>'
            &&& forall|i: int| 0 <= i < b.len() ==> #[trigger] b[i] != '\n' && b[i] != '\r'
            &&& forall|i: int| 0 <= i < e.len() ==> #[trigger] e[i] != '\n' && e[i] != '\r'
        }),
{
    reveal_strlit("<!-- log-inbox:daily:");
    reveal_strlit(":begin -->");
    reveal_strlit(":end -->");
    let b = begin_marker(id);
    let e = end_marker(id);
    assert(b.len() == e.len() + 2);
    let head = "<!-- log-inbox:daily:"@;
    assert forall|i: int| 0 <= i < b.len() implies #[trigger] b[i] != '\n' && b[i] != '\r' by {
        if i < head.len() {
            assert(b[i] == head[i]);
        } else if i < head.len() + id.len() {
            assert(b[i] == id[i - head.len()]);
            assert(is_id_char(id[i - head.len()]));
        } else {
            assert(b[i] == ":begin -->"@[i - head.len() - id.len()]);
        }
    }
    assert forall|i: int| 0 <= i < e.len() implies #[trigger] e[i] != '\n' && e[i] != '\r' by {
        if i < head.len() {
            assert(e[i] == head[i]);
        } else if i < head.len() + id.len() {
            assert(e[i] == id[i - head.len()]);
            assert(is_id_char(id[i - head.len()]));
        } else {
            assert(e[i] == ":end -->"@[i - head.len() - id.len()]);
        }
    }
}

/// `eol` is one of the two line breaks.
pub open spec fn is_eol(eol: Seq<char>) -> bool {
    eol == "\n"@ || eol == "\r\n"@
}

pub proof fn lemma_eol(eol: Seq<char>)
    requires
        is_eol(eol),
    ensures
        1 <= eol.len() <= 2,
        eol.last() == '\n',
        is_blank(eol),
        eol.len() == 2 ==> eol[0] == '\r',
{
    reveal_strlit("\n");
    reveal_strlit("\r\n");
}

/// A marker followed by white space is one line, the marker's.
proof fn lemma_marker_line(m: Seq<char>, tail: Seq<char>)
    requires
        m.len() > 3,
        m[0] == '<',
        m.last() == '>',
        forall|i: int| 0 <= i < m.len() ==> #[trigger] m[i] != '\n',
        tail.len() == 0 || is_eol(tail),
    ensures
        full_lines(m + tail) == seq![m + tail],
        trimmed(m + tail) == m,
        fence_char(m + tail) is None,
{
    let line = m + tail;
    if tail.len() > 0 {
        lemma_eol(tail);
    }
    assert forall|j: int| 0 <= j < line.len() - 1 implies #[trigger] line[j] != '\n' by {
        if j < m.len() {
            assert(m[j] != '\n');
        } else {
            assert(line[j] == tail[j - m.len()]);
        }
    }
    lemma_full_lines_one(line);
    lemma_trimmed_blank(m, tail);
    lemma_trimmed_same(m);
    reveal_strlit("```");
    reveal_strlit("~~~");
    assert(m.take(3)[0] == '<');
    assert("```"@[0] == '`');
    assert("~~~"@[0] == '~');
}

/// A line break more at the end changes neither the fence nor the marks.
proof fn lemma_line_break_added(text: Seq<char>, eol: Seq<char>, marker: Seq<char>)
    requires
        is_eol(eol),
        marker.len() > 0,
    ensures
        fence_after(None, full_lines(text + eol)) == fence_after(None, full_lines(text)),
        marks(None, full_lines(text + eol), marker) == marks(None, full_lines(text), marker),
        at_line_start(text + eol),
{
    lemma_eol(eol);
    reveal_strlit("```");
    reveal_strlit("~~~");
    let lines = full_lines(text);
    lemma_full_lines(text);
    if at_line_start(text) {
        lemma_full_lines_add(text, eol);
        assert forall|j: int| 0 <= j < eol.len() - 1 implies #[trigger] eol[j] != '\n' by {}
        lemma_full_lines_one(eol);
        lemma_trimmed_blank(Seq::empty(), eol);
        assert(Seq::<char>::empty() + eol =~= eol);
        assert(trimmed(eol).len() == 0);
        assert(fence_char(eol) is None);
        assert((lines + seq![eol]).drop_last() =~= lines);
        assert((lines + seq![eol]).last() == eol);
    } else {
        let last = lines.last();
        let init = lines.drop_last();
        let longer = init.push(last + eol);
        assert(full_lines(text + eol) == longer) by {
            if eol.len() == 1 {
                assert(text + eol =~= text.push('\n'));
                assert((text + eol).drop_last() =~= text);
                assert(last + eol =~= last.push('\n'));
            } else {
                let mid = text.push('\r');
                assert((text + eol).drop_last() =~= mid);
                assert(mid.drop_last() =~= text);
                let mid_lines = full_lines(mid);
                assert(mid_lines == init.push(last.push('\r')));
                assert(mid_lines.last().last() == '\r');
                assert(mid_lines.drop_last() =~= init);
                assert(last + eol =~= last.push('\r').push('\n'));
            }
        }
        lemma_trimmed_blank(last, eol);
        assert(longer.drop_last() =~= init);
        assert(longer.last() == last + eol);
    }
}


proof fn lemma_written_lines(
    head: Seq<Seq<char>>,
    first: Seq<char>,
    rest: Seq<char>,
    last: Seq<char>,
    tail: Seq<Seq<char>>,
)
    requires
        well_split(head),
        well_split(tail),
        at_line_start(concat(head)),
        full_lines(first) == seq![first],
        first.len() > 0,
        first.last() == '\n',
        rest.len() > 0,
        rest.last() == '\n',
        full_lines(last) == seq![last],
        last.len() > 0,
        tail.len() > 0 ==> last.last() == '\n',
    ensures
        full_lines(concat(head) + first + rest + last + concat(tail)) == head + seq![first]
            + full_lines(rest) + seq![last] + tail,
{
    let t0 = concat(head);
    let t1 = t0 + first;
    let t2 = t1 + rest;
    let t3 = t2 + last;
    lemma_full_lines_of_concat(head);
    lemma_full_lines_of_concat(tail);
    lemma_full_lines_add(t0, first);
    lemma_full_lines_add(t1, rest);
    lemma_full_lines_add(t2, last);
    if tail.len() == 0 {
        assert(t3 + concat(tail) =~= t3);
        assert(full_lines(t3) + tail =~= full_lines(t3));
    } else {
        lemma_full_lines_add(t3, concat(tail));
    }
}

proof fn lemma_written_marks(
    head: Seq<Seq<char>>,
    first: Seq<char>,
    inner: Seq<Seq<char>>,
    last: Seq<char>,
    tail: Seq<Seq<char>>,
    m: Seq<char>,
)
    requires
        fence_after(None, head) is None,
        fence_after(None, inner) is None,
        fence_after(None, tail) is None,
        fence_char(first) is None,
        fence_char(last) is None,
        marks(None, head, m).len() == 0,
        marks(None, inner, m).len() == 0,
        marks(None, tail, m).len() == 0,
        trimmed(first) == m || trimmed(last) == m,
        trimmed(first) != trimmed(last),
    ensures
        fence_after(None, head + seq![first] + inner + seq![last] + tail) is None,
        marks(None, head + seq![first] + inner + seq![last] + tail, m) == (if trimmed(first) == m {
            seq![head.len() as int]
        } else {
            seq![head.len() as int + inner.len() + 1]
        }),
{
    let l1 = head + seq![first];
    let l2 = l1 + inner;
    let l3 = l2 + seq![last];
    lemma_fence_add(None, head, seq![first]);
    lemma_fence_one(None, first);
    lemma_fence_add(None, l1, inner);
    lemma_fence_add(None, l2, seq![last]);
    lemma_fence_one(None, last);
    lemma_fence_add(None, l3, tail);
    lemma_marks_add(None, head, seq![first], m);
    lemma_marks_add(None, l1, inner, m);
    lemma_marks_add(None, l2, seq![last], m);
    lemma_marks_add(None, l3, tail, m);
    lemma_marks_one(first, m);
    lemma_marks_one(last, m);
    if trimmed(first) == m {
        assert(marks(None, l1, m) =~= seq![head.len() as int]);
        assert(marks(None, l2, m) =~= seq![head.len() as int]);
        assert(marks(None, l3, m) =~= seq![head.len() as int]);
        assert(marks(None, l3 + tail, m) =~= seq![head.len() as int]);
    } else {
        assert(marks(None, l1, m) =~= Seq::<int>::empty());
        assert(marks(None, l2, m) =~= Seq::<int>::empty());
        assert(marks(None, l3, m) =~= seq![head.len() as int + inner.len() + 1]);
        assert(marks(None, l3 + tail, m) =~= seq![head.len() as int + inner.len() + 1]);
    }
}

proof fn lemma_regroup(
    h: Seq<char>,
    b: Seq<char>,
    eol: Seq<char>,
    body: Seq<char>,
    e: Seq<char>,
    brk: Seq<char>,
    t: Seq<char>,
)
    ensures
        h + (b + eol + body + eol + e) + brk + t == h + (b + eol) + (body + eol) + (e + brk) + t,
{
    assert(h + (b + eol + body + eol + e) + brk + t =~= h + (b + eol) + (body + eol) + (e + brk)
        + t);
}

proof fn lemma_written_parts(
    head: Seq<Seq<char>>,
    first: Seq<char>,
    inner: Seq<Seq<char>>,
    last: Seq<char>,
    tail: Seq<Seq<char>>,
)
    ensures
        ({
            let lines = head + seq![first] + inner + seq![last] + tail;
            let n = head.len() as int;
            let to = n + inner.len() + 2;
            &&& lines.take(n) == head
            &&& lines.skip(to) == tail
            &&& concat(lines.subrange(n, to)) == first + concat(inner) + last
        }),
{
    let lines = head + seq![first] + inner + seq![last] + tail;
    let n = head.len() as int;
    let to = n + inner.len() + 2;
    assert(lines.take(n) =~= head);
    assert(lines.skip(to) =~= tail);
    assert(lines.subrange(n, to) =~= seq![first] + inner + seq![last]);
    lemma_concat_add(seq![first] + inner, seq![last]);
    lemma_concat_add(seq![first], inner);
    lemma_concat_one(first);
    lemma_concat_one(last);
}

/// Where the block stands, once it is written between quiet lines.
proof fn lemma_written(
    head: Seq<Seq<char>>,
    id: Seq<char>,
    body: Seq<char>,
    eol: Seq<char>,
    break_after: Seq<char>,
    tail: Seq<Seq<char>>,
)
    requires
        is_block_id(id),
        is_eol(eol),
        break_after == eol || (break_after.len() == 0 && tail.len() == 0),
        quiet(head, id),
        quiet(tail, id),
        quiet(full_lines(body + eol), id),
        well_split(head),
        well_split(tail),
        at_line_start(concat(head)),
    ensures
        ({
            let next = begin_marker(id) + eol + body + eol + end_marker(id);
            let updated = concat(head) + next + break_after + concat(tail);
            let lines = full_lines(updated);
            let to = head.len() + full_lines(body + eol).len() + 2;
            &&& owned_lines(lines, begin_marker(id), end_marker(id)) == Ok::<
                Option<(int, int)>,
                Seq<char>,
            >(Some((head.len() as int, to as int)))
            &&& lines.take(head.len() as int) == head
            &&& lines.skip(to as int) == tail
            &&& concat(lines.subrange(head.len() as int, to as int)) == next + break_after
        }),
{
    let b = begin_marker(id);
    let e = end_marker(id);
    lemma_marker_shape(id);
    assert(b != e);
    let first = b + eol;
    let rest = body + eol;
    let inner = full_lines(rest);
    let last = e + break_after;
    assert(full_lines(first) == seq![first] && trimmed(first) == b && fence_char(first) is None
        && first.len() > 0 && first.last() == '\n') by {
        lemma_eol(eol);
        lemma_marker_line(b, eol);
    }
    assert(full_lines(last) == seq![last] && trimmed(last) == e && fence_char(last) is None
        && last.len() > 0 && (tail.len() > 0 ==> last.last() == '\n')) by {
        lemma_eol(eol);
        lemma_marker_line(e, break_after);
    }
    assert(rest.len() > 0 && rest.last() == '\n') by {
        lemma_eol(eol);
    }
    let next = b + eol + body + eol + e;
    let updated = concat(head) + next + break_after + concat(tail);
    let lines = full_lines(updated);
    assert(lines == head + seq![first] + inner + seq![last] + tail) by {
        lemma_written_lines(head, first, rest, last, tail);
        lemma_regroup(concat(head), b, eol, body, e, break_after, concat(tail));
    }
    lemma_written_marks(head, first, inner, last, tail, b);
    lemma_written_marks(head, first, inner, last, tail, e);
    lemma_written_parts(head, first, inner, last, tail);
    assert(first + concat(inner) + last == next + break_after) by {
        lemma_full_lines(rest);
        lemma_regroup(Seq::empty(), b, eol, body, e, break_after, Seq::empty());
        assert(Seq::empty() + next + break_after + Seq::empty() =~= next + break_after);
        assert(Seq::empty() + first + rest + last + Seq::empty() =~= first + rest + last);
    }
}

/// Parts of well split lines are well split.
proof fn lemma_well_split_part(ls: Seq<Seq<char>>, from: int, to: int)
    requires
        well_split(ls),
        0 <= from <= to <= ls.len(),
    ensures
        well_split(ls.subrange(from, to)),
        to < ls.len() ==> at_line_start(concat(ls.subrange(from, to))),
        from < to ==> concat(ls.subrange(from, to)).len() > 0,
{
    let part = ls.subrange(from, to);
    assert forall|i: int| 0 <= i < part.len() implies (#[trigger] part[i]).len() > 0 by {
        assert(part[i] == ls[i + from]);
    }
    assert forall|i: int, j: int|
        0 <= i < part.len() && 0 <= j < part[i].len() - 1 implies #[trigger] part[i][j] != '\n' by {
        assert(ls[i + from][j] != '\n');
    }
    assert forall|i: int| 0 <= i < part.len() - 1 implies (#[trigger] part[i]).last() == '\n' by {
        assert(part[i] == ls[i + from]);
    }
    lemma_full_lines_of_concat(part);
    if from < to < ls.len() {
        assert(part.last() == ls[to - 1]);
    }
}

/// No mark stands before the first or after the last line of the block.
proof fn lemma_no_marks_around(
    lines: Seq<Seq<char>>,
    m: Seq<char>,
    from: int,
    to: int,
    at: int,
)
    requires
        0 <= from <= at < to <= lines.len(),
        marks(None, lines, m) == seq![at],
        fence_after(None, lines.take(to)) is None,
    ensures
        marks(None, lines.take(from), m).len() == 0,
        marks(None, lines.skip(to), m).len() == 0,
{
    let head = lines.take(from);
    let upto = lines.take(to);
    let tail = lines.skip(to);
    assert(lines =~= head + lines.skip(from));
    assert(lines =~= upto + tail);
    lemma_marks_add(None, head, lines.skip(from), m);
    lemma_marks_add(None, upto, tail, m);
    if marks(None, head, m).len() > 0 {
        lemma_marks(None, head, m, 0);
        assert(marks(None, lines, m)[0] == marks(None, head, m)[0]);
    }
    if marks(None, tail, m).len() > 0 {
        lemma_marks(None, tail, m, 0);
        let k = marks(None, upto, m).len() as int;
        assert(marks(None, lines, m)[k] == marks(None, tail, m)[0] + to);
    }
}

/// What is known of the lines round a block that a note already holds.
proof fn lemma_around_owned(lines: Seq<Seq<char>>, id: Seq<char>, from: int, to: int)
    requires
        well_split(lines),
        owned_lines(lines, begin_marker(id), end_marker(id)) == Ok::<
            Option<(int, int)>,
            Seq<char>,
        >(Some((from, to))),
    ensures
        0 <= from < to <= lines.len(),
        quiet(lines.take(from), id),
        quiet(lines.skip(to), id),
        well_split(lines.take(from)),
        well_split(lines.skip(to)),
        at_line_start(concat(lines.take(from))),
        concat(lines.subrange(from, to)).len() > 0,
        to < lines.len() ==> at_line_start(concat(lines.subrange(from, to))),
        concat(lines) == concat(lines.take(from)) + concat(lines.subrange(from, to)) + concat(
            lines.skip(to),
        ),
{
    let b = begin_marker(id);
    let e = end_marker(id);
    lemma_marks(None, lines, b, 0);
    lemma_marks(None, lines, e, 0);
    let head = lines.take(from);
    let owned = lines.subrange(from, to);
    let tail = lines.skip(to);
    let upto = lines.take(to);
    assert(upto.drop_last() =~= lines.take(to - 1));
    assert(upto.last() == lines[to - 1]);
    assert(fence_after(None, upto) is None);
    assert(lines =~= upto + tail);
    lemma_fence_add(None, upto, tail);
    assert(marks(None, lines, b) =~= seq![from]);
    assert(marks(None, lines, e) =~= seq![to - 1]);
    lemma_no_marks_around(lines, b, from, to, from);
    lemma_no_marks_around(lines, e, from, to, to - 1);
    lemma_well_split_part(lines, 0, from);
    lemma_well_split_part(lines, from, to);
    lemma_well_split_part(lines, to, lines.len() as int);
    assert(head =~= lines.subrange(0, from));
    assert(tail =~= lines.subrange(to, lines.len() as int));
    lemma_concat_add(head + owned, tail);
    lemma_concat_add(head, owned);
    assert(lines =~= head + owned + tail);
}


/// The lines before the block that an Apply writes are quiet.
proof fn lemma_note_start(text: Seq<char>, id: Seq<char>, title: Seq<char>)
    requires
        is_block_id(id),
        quiet(full_lines(text), id),
        text.len() == 0 ==> quiet_title(title, line_break(text), id),
    ensures
        quiet(full_lines(note_start(text, title, line_break(text))), id),
        at_line_start(note_start(text, title, line_break(text))),
{
    let eol = line_break(text);
    let b = begin_marker(id);
    let e = end_marker(id);
    lemma_marker_shape(id);
    lemma_eol(eol);
    if text.len() == 0 {
        assert(text =~= Seq::empty());
    } else if finishes_with(text, eol + eol) {
        let ending = text.skip(text.len() - (eol + eol).len());
        assert(ending.last() == text.last());
    } else {
        lemma_line_break_added(text, eol, b);
        lemma_line_break_added(text, eol, e);
        lemma_line_break_added(text + eol, eol, b);
        lemma_line_break_added(text + eol, eol, e);
    }
}

/// What a plan writes: the block between quiet lines.
proof fn lemma_plan(
    text: Seq<char>,
    id: Seq<char>,
    markdown: Seq<char>,
    title: Seq<char>,
) -> (r: (Seq<Seq<char>>, Seq<char>, Seq<Seq<char>>))
    requires
        is_block_id(id),
        text_plan(text, id, markdown, title) is Ok,
        quiet_markdown(markdown, line_break(text), id),
        text.len() == 0 ==> quiet_title(title, line_break(text), id),
    ensures
        ({
            let plan = text_plan(text, id, markdown, title)->Ok_0;
            let eol = line_break(text);
            let (head, brk, tail) = r;
            &&& is_eol(eol)
            &&& quiet(head, id) && quiet(tail, id)
            &&& well_split(head) && well_split(tail)
            &&& at_line_start(concat(head))
            &&& brk == eol || (brk.len() == 0 && tail.len() == 0)
            &&& plan.updated == concat(head) + plan.next_block + brk + concat(tail)
            &&& match plan.previous_block {
                Some(previous) => text == concat(head) + previous + concat(tail)
                    && previous.len() > 0 && (tail.len() > 0 ==> previous.last() == '\n'),
                None => concat(head) == note_start(text, title, eol) && tail.len() == 0,
            }
        }),
{
    let eol = line_break(text);
    let lines = full_lines(text);
    let plan = text_plan(text, id, markdown, title)->Ok_0;
    lemma_full_lines(text);
    match owned_lines(lines, begin_marker(id), end_marker(id))->Ok_0 {
        Some((from, to)) => {
            lemma_around_owned(lines, id, from, to);
            let previous = concat(lines.subrange(from, to));
            reveal_strlit("\n");
            if previous.last() == '\n' {
                assert(previous.skip(previous.len() - 1) =~= "\n"@);
            } else if finishes_with(previous, "\n"@) {
                assert(previous.skip(previous.len() - 1)[0] == '\n');
            }
            let brk = if finishes_with(previous, "\n"@) {
                eol
            } else {
                Seq::empty()
            };
            (lines.take(from), brk, lines.skip(to))
        },
        None => {
            let start = note_start(text, title, eol);
            lemma_note_start(text, id, title);
            lemma_full_lines(start);
            let head = full_lines(start);
            let tail = Seq::<Seq<char>>::empty();
            assert(plan.updated =~= concat(head) + plan.next_block + eol + concat(tail));
            (head, eol, tail)
        },
    }
}

/// Markdown and a title with which a block is found again: the Markdown closes
/// each fence that it opens and has no marker of the block outside fences, and
/// neither does the title, if it begins the note.
pub open spec fn can_be_read_back(
    text: Seq<char>,
    id: Seq<char>,
    markdown: Seq<char>,
    title: Seq<char>,
) -> bool {
    &&& quiet_text(markdown, id)
    &&& text.len() == 0 ==> free_of(title, '\n') || quiet_title(title, "\n"@, id)
}

proof fn lemma_can_be_read_back(
    text: Seq<char>,
    id: Seq<char>,
    markdown: Seq<char>,
    title: Seq<char>,
)
    requires
        is_block_id(id),
        can_be_read_back(text, id, markdown, title),
    ensures
        quiet_markdown(markdown, line_break(text), id),
        text.len() == 0 ==> quiet_title(title, line_break(text), id),
{
    lemma_quiet_in_block(markdown, line_break(text), id);
    if text.len() == 0 {
        lemma_no_crlf_if_free(text);
        lemma_crlf(text);
        if free_of(title, '\n') {
            lemma_one_line_title_is_quiet(title, line_break(text), id);
        }
    }
}

/// Reading back a written block gives the digest that the plan intended, in a
/// new note, in one that had no block and in one that had another.
pub proof fn law_applied_block_is_read_back(
    current: Seq<u8>,
    id: Seq<char>,
    markdown: Seq<char>,
    title: Seq<char>,
)
    requires
        block_plan(current, id, markdown, title) is Ok,
        can_be_read_back(decode_utf8(current), id, markdown, title),
    ensures
        ({
            let plan = block_plan(current, id, markdown, title)->Ok_0;
            block_hash(encode_utf8(plan.updated), id) == Ok::<Option<Seq<char>>, Seq<char>>(
                Some(text_digest(plan.next_block)),
            )
        }),
{
    let text = decode_utf8(current);
    lemma_can_be_read_back(text, id, markdown, title);
    let plan = text_plan(text, id, markdown, title)->Ok_0;
    let eol = line_break(text);
    let body = with_line_breaks(trimmed(markdown), eol);
    let (head, brk, tail) = lemma_plan(text, id, markdown, title);
    lemma_written(head, id, body, eol, brk, tail);
    encode_utf8_valid_utf8(plan.updated);
    encode_utf8_decode_utf8(plan.updated);
    lemma_block_ends(id, markdown, eol, brk);
}

/// The line breaks after a block are not part of it.
proof fn lemma_block_ends(id: Seq<char>, markdown: Seq<char>, eol: Seq<char>, brk: Seq<char>)
    requires
        is_block_id(id),
        is_eol(eol),
        brk == eol || brk.len() == 0,
    ensures
        trim_line_end(block(id, markdown, eol) + brk) == block(id, markdown, eol),
{
    lemma_marker_shape(id);
    let next = block(id, markdown, eol);
    assert(next.last() == '>');
    lemma_eol(eol);
    reveal_with_fuel(trim_line_end, 3);
    if brk.len() == 0 {
        assert(next + brk =~= next);
    } else if brk.len() == 1 {
        assert((next + brk).drop_last() =~= next);
    } else {
        assert((next + brk).drop_last().drop_last() =~= next);
    }
}

/// An Apply changes nothing but the block that it owns: a block that was there
/// is replaced where it stood, and a new one follows all the text of the note.
pub proof fn law_rest_of_the_note_is_kept(
    text: Seq<char>,
    id: Seq<char>,
    markdown: Seq<char>,
    title: Seq<char>,
)
    requires
        text_plan(text, id, markdown, title) is Ok,
    ensures
        ({
            let plan = text_plan(text, id, markdown, title)->Ok_0;
            match plan.previous_block {
                Some(previous) => exists|before: Seq<char>, brk: Seq<char>, after: Seq<char>|
                    {
                        &&& text == before + previous + after
                        &&& #[trigger] (before + plan.next_block + brk + after) == plan.updated
                        &&& brk.len() == 0 || brk == line_break(text)
                    },
                None => begins_with(plan.updated, text),
            }
        }),
{
    let plan = text_plan(text, id, markdown, title)->Ok_0;
    let lines = full_lines(text);
    lemma_full_lines(text);
    match owned_lines(lines, begin_marker(id), end_marker(id))->Ok_0 {
        Some((from, to)) => {
            lemma_around_owned(lines, id, from, to);
            let previous = concat(lines.subrange(from, to));
            let before = concat(lines.take(from));
            let after = concat(lines.skip(to));
            let brk = if finishes_with(previous, "\n"@) {
                line_break(text)
            } else {
                Seq::empty()
            };
            assert(before + plan.next_block + brk + after == plan.updated);
        },
        None => {
            assert(plan.updated.take(text.len() as int) =~= text);
        },
    }
}


/// A carriage return and a line feed, side by side.
spec fn has_crlf(s: Seq<char>) -> bool {
    exists|i: int| 0 <= i < s.len() - 1 && #[trigger] s[i] == '\r' && s[i + 1] == '\n'
}

proof fn lemma_crlf(s: Seq<char>)
    ensures
        occurs(s, "\r\n"@) == has_crlf(s),
{
    reveal_strlit("\r\n");
    let p = "\r\n"@;
    if occurs(s, p) {
        let at = choose|at: int| occurs_at(s, p, at);
        assert(s.subrange(at, at + 2)[0] == '\r');
        assert(s.subrange(at, at + 2)[1] == '\n');
        assert(s[at] == '\r');
    }
    if has_crlf(s) {
        let i = choose|i: int| 0 <= i < s.len() - 1 && #[trigger] s[i] == '\r' && s[i + 1] == '\n';
        assert(s.subrange(i, i + 2) =~= p);
        assert(occurs_at(s, p, i));
    }
}

proof fn lemma_crlf_add(a: Seq<char>, b: Seq<char>)
    requires
        !has_crlf(a),
        !has_crlf(b),
        a.len() == 0 || a.last() != '\r' || b.len() == 0 || b[0] != '\n',
    ensures
        !has_crlf(a + b),
{
    let s = a + b;
    if has_crlf(s) {
        let i = choose|i: int| 0 <= i < s.len() - 1 && #[trigger] s[i] == '\r' && s[i + 1] == '\n';
        if i + 1 < a.len() {
            assert(a[i] == '\r' && a[i + 1] == '\n');
        } else if i >= a.len() {
            assert(b[i - a.len()] == '\r' && b[i - a.len() + 1] == '\n');
        } else {
            assert(a.last() == '\r' && b[0] == '\n');
        }
    }
}

proof fn lemma_no_crlf_if_free(s: Seq<char>)
    requires
        free_of(s, '\r'),
    ensures
        !has_crlf(s),
{
}

/// A block with plain line breaks holds no carriage return.
pub proof fn lemma_block_plain(id: Seq<char>, markdown: Seq<char>)
    requires
        is_block_id(id),
    ensures
        free_of(block(id, markdown, "\n"@), '\r'),
{
    reveal_strlit("\n");
    reveal_strlit("\r");
    reveal_strlit("\r\n");
    let eol = "\n"@;
    let value = trimmed(markdown);
    let one = replaced(value, "\r\n"@, "\n"@);
    assert("\r"@ =~= seq!['\r']);
    lemma_replaced_free_of(one, "\r"@, "\n"@, '\r');
    let two = replaced(one, "\r"@, "\n"@);
    lemma_replaced_free_of(two, "\n"@, eol, '\r');
    lemma_marker_shape(id);
    let body = with_line_breaks(value, eol);
    let b = begin_marker(id);
    let e = end_marker(id);
    assert(free_of(b, '\r'));
    assert(free_of(e, '\r'));
    assert(free_of(b + eol, '\r'));
    assert(free_of(b + eol + body, '\r'));
    assert(free_of(b + eol + body + eol, '\r'));
    assert(free_of(b + eol + body + eol + e, '\r'));
}

/// The rewritten note uses the line break that it used before.
proof fn lemma_line_break_kept(
    head: Seq<char>,
    previous: Seq<char>,
    tail: Seq<char>,
    id: Seq<char>,
    markdown: Seq<char>,
    brk: Seq<char>,
    eol: Seq<char>,
)
    requires
        is_block_id(id),
        is_eol(eol),
        brk == eol || (brk.len() == 0 && tail.len() == 0),
        at_line_start(head),
        tail.len() > 0 ==> previous.len() > 0 && previous.last() == '\n',
        line_break(head + previous + tail) == eol,
    ensures
        line_break(head + block(id, markdown, eol) + brk + tail) == eol,
{
    let next = block(id, markdown, eol);
    let updated = head + next + brk + tail;
    let text = head + previous + tail;
    lemma_crlf(updated);
    lemma_crlf(text);
    reveal_strlit("\n");
    reveal_strlit("\r\n");
    if eol == "\r\n"@ {
        let i: int = head.len() as int + begin_marker(id).len();
        assert(updated[i] == '\r' && updated[i + 1] == '\n');
    } else {
        assert(eol == "\n"@);
        assert(!has_crlf(text)) by {
            assert("\r\n"@.len() == 2 && "\n"@.len() == 1);
        }
        assert(!has_crlf(head)) by {
            assert forall|i: int| 0 <= i < head.len() - 1 implies !(#[trigger] head[i] == '\r'
                && head[i + 1] == '\n') by {
                assert(text[i] == head[i] && text[i + 1] == head[i + 1]);
            }
        }
        assert(!has_crlf(tail)) by {
            let n: int = head.len() as int + previous.len();
            assert forall|i: int| 0 <= i < tail.len() - 1 implies !(#[trigger] tail[i] == '\r'
                && tail[i + 1] == '\n') by {
                assert(text[n + i] == tail[i] && text[n + i + 1] == tail[i + 1]);
            }
        }
        lemma_block_plain(id, markdown);
        lemma_no_crlf_if_free(next);
        lemma_crlf_add(head, next);
        assert(next[0] == '<') by {
            lemma_marker_shape(id);
        }
        assert(next.last() == '>') by {
            lemma_marker_shape(id);
        }
        assert(!has_crlf(brk)) by {
            lemma_no_crlf_if_free(brk);
        }
        lemma_crlf_add(head + next, brk);
        lemma_crlf_add(head + next + brk, tail);
    }
}

/// Planning the same Apply again on the rewritten text leaves it as it is.
proof fn lemma_second_plan(
    text: Seq<char>,
    id: Seq<char>,
    markdown: Seq<char>,
    title: Seq<char>,
    again: Seq<char>,
)
    requires
        is_block_id(id),
        text_plan(text, id, markdown, title) is Ok,
        quiet_markdown(markdown, line_break(text), id),
        text.len() == 0 ==> quiet_title(title, line_break(text), id),
        text_plan(text, id, markdown, title)->Ok_0.previous_block is None ==> line_break(
            note_start(text, title, line_break(text)),
        ) == line_break(text),
    ensures
        ({
            let first = text_plan(text, id, markdown, title)->Ok_0;
            let second = text_plan(first.updated, id, markdown, again);
            &&& second is Ok
            &&& second->Ok_0.updated == first.updated
            &&& second->Ok_0.next_block == first.next_block
            &&& second->Ok_0.previous_block is Some
            &&& trim_line_end(second->Ok_0.previous_block->0) == first.next_block
        }),
{
    let plan = text_plan(text, id, markdown, title)->Ok_0;
    let eol = line_break(text);
    let body = with_line_breaks(trimmed(markdown), eol);
    let (head, brk, tail) = lemma_plan(text, id, markdown, title);
    lemma_written(head, id, body, eol, brk, tail);
    lemma_block_ends(id, markdown, eol, brk);
    match plan.previous_block {
        Some(previous) => {
            lemma_line_break_kept(
                concat(head),
                previous,
                concat(tail),
                id,
                markdown,
                brk,
                eol,
            );
        },
        None => {
            let start = concat(head);
            assert(start + Seq::empty() + concat(tail) =~= start);
            lemma_line_break_kept(start, Seq::empty(), concat(tail), id, markdown, brk, eol);
        },
    }
    let next = plan.next_block;
    lemma_eol(eol);
    lemma_marker_shape(id);
    reveal_strlit("\n");
    let owned = next + brk;
    if brk.len() == 0 {
        assert(owned =~= next);
        assert(owned.last() == '>');
        if finishes_with(owned, "\n"@) {
            assert(owned.skip(owned.len() - 1)[0] == '>');
        }
    } else {
        assert(owned.skip(owned.len() - 1) =~= "\n"@);
    }
}

/// Whether a new block leaves the note with the line break that it used. It does
/// wherever the note does not end in a bare carriage return and a title that
/// begins a note is one line.
pub open spec fn keeps_line_break(text: Seq<char>, title: Seq<char>) -> bool {
    ||| text.len() == 0 && free_of(title, '\n')
    ||| text.len() > 0 && text.last() != '\r'
    ||| line_break(note_start(text, title, line_break(text))) == line_break(text)
}

proof fn lemma_line_break_of_start(text: Seq<char>, title: Seq<char>)
    requires
        keeps_line_break(text, title),
    ensures
        line_break(note_start(text, title, line_break(text))) == line_break(text),
{
    reveal_strlit("\n");
    reveal_strlit("\r\n");
    let eol = line_break(text);
    let start = note_start(text, title, eol);
    lemma_crlf(text);
    lemma_crlf(start);
    assert("\r\n"@.len() == 2 && "\n"@.len() == 1);
    if has_crlf(text) {
        let i = choose|i: int|
            0 <= i < text.len() - 1 && #[trigger] text[i] == '\r' && text[i + 1] == '\n';
        assert(start[i] == '\r' && start[i + 1] == '\n');
    } else if text.len() == 0 && free_of(title, '\n') {
        let t = trimmed(title);
        if t.len() == 0 {
            assert(start =~= text);
        } else {
            reveal_strlit("# ");
            let (ahead, behind) = lemma_trimmed_parts(title);
            let line = "# "@ + t;
            assert forall|i: int| 0 <= i < line.len() implies #[trigger] line[i] != '\n' by {
                if i >= 2 {
                    assert(line[i] == title[ahead.len() + i - 2]);
                }
            }
            assert(!has_crlf(line));
            assert(line.last() == t.last());
            lemma_no_crlf_if_free(eol);
            lemma_crlf_add(line, eol);
            lemma_crlf_add(line + eol, eol);
            assert(start =~= line + eol + eol);
        }
    } else if text.len() > 0 && text.last() != '\r' {
        lemma_no_crlf_if_free(eol);
        lemma_crlf_add(text, eol);
        lemma_crlf_add(text + eol, eol);
    }
}

/// Applying the same again changes nothing, whatever title the second Apply
/// gives: the note that was written has the block, and it is the one that is
/// planned.
pub proof fn law_second_apply_changes_nothing(
    current: Seq<u8>,
    id: Seq<char>,
    markdown: Seq<char>,
    title: Seq<char>,
    again: Seq<char>,
)
    requires
        block_plan(current, id, markdown, title) is Ok,
        can_be_read_back(decode_utf8(current), id, markdown, title),
        block_plan(current, id, markdown, title)->Ok_0.previous_block is None ==> keeps_line_break(
            decode_utf8(current),
            title,
        ),
        encode_utf8(block_plan(current, id, markdown, title)->Ok_0.updated).len()
            <= MAX_MARKDOWN_FILE_BYTES,
    ensures
        ({
            let first = block_plan(current, id, markdown, title)->Ok_0;
            let second = block_plan(encode_utf8(first.updated), id, markdown, again);
            &&& second is Ok
            &&& second->Ok_0.updated == first.updated
            &&& second->Ok_0.next_block == first.next_block
            &&& second->Ok_0.previous_block is Some
            &&& trim_line_end(second->Ok_0.previous_block->0) == first.next_block
            &&& text_digest(trim_line_end(second->Ok_0.previous_block->0)) == text_digest(
                first.next_block,
            )
        }),
{
    let text = decode_utf8(current);
    let first = text_plan(text, id, markdown, title)->Ok_0;
    lemma_can_be_read_back(text, id, markdown, title);
    if first.previous_block is None {
        lemma_line_break_of_start(text, title);
    }
    lemma_second_plan(text, id, markdown, title, again);
    encode_utf8_valid_utf8(first.updated);
    encode_utf8_decode_utf8(first.updated);
}

} // verus!
