//! Line breaks, and what of a text's lines does not depend on them.
use crate::daily_laws::{is_eol, lemma_eol, lemma_marker_shape, quiet, quiet_markdown, quiet_title};
use crate::daily_writer::{
    begin_marker, end_marker, fence_after, fence_char, is_block_id, marks, note_start,
    with_line_breaks,
};
use crate::text::{
    at_line_start, begins_with, free_of, full_lines, is_blank, lemma_full_lines,
    lemma_replaced_free_of, lemma_trimmed_blank, lemma_trimmed_same, pieces, replaced, trim_end,
    trim_start, trimmed, white_space,
};
use vstd::prelude::*;
use vstd::string::*;

verus! {

/// Replacing a text that begins with a character that is not there changes
/// nothing.
pub proof fn lemma_replaced_absent(s: Seq<char>, p: Seq<char>, w: Seq<char>)
    requires
        p.len() > 0,
        free_of(s, p[0]),
    ensures
        replaced(s, p, w) == s,
    decreases s.len(),
{
    if s.len() >= p.len() {
        assert(s[0] != p[0]);
        if s.take(p.len() as int) == p {
            assert(s.take(p.len() as int)[0] == s[0]);
        }
        let rest = s.drop_first();
        assert(free_of(rest, p[0])) by {
            assert forall|i: int| 0 <= i < rest.len() implies #[trigger] rest[i] != p[0] by {
                assert(rest[i] == s[i + 1]);
            }
        }
        lemma_replaced_absent(rest, p, w);
        assert(seq![s[0]] + rest =~= s);
    }
}

/// Replacing a text with itself changes nothing.
pub proof fn lemma_replaced_self(s: Seq<char>, p: Seq<char>)
    ensures
        replaced(s, p, p) == s,
    decreases s.len(),
{
    if p.len() == 0 || s.len() < p.len() {
    } else if s.take(p.len() as int) == p {
        lemma_replaced_self(s.skip(p.len() as int), p);
        assert(s.take(p.len() as int) + s.skip(p.len() as int) =~= s);
    } else {
        lemma_replaced_self(s.drop_first(), p);
        assert(seq![s[0]] + s.drop_first() =~= s);
    }
}

/// Texts can be replaced in part by part where no occurrence lies across.
proof fn lemma_replaced_add(a: Seq<char>, b: Seq<char>, p: Seq<char>, w: Seq<char>)
    requires
        p.len() == 1 || (p.len() == 2 && (a.len() == 0 || b.len() == 0 || a.last() != p[0] || b[0]
            != p[1])),
    ensures
        replaced(a + b, p, w) == replaced(a, p, w) + replaced(b, p, w),
    decreases a.len(),
{
    let all = a + b;
    if a.len() == 0 {
        assert(all =~= b);
        assert(replaced(a, p, w) =~= Seq::<char>::empty());
        assert(replaced(a, p, w) + replaced(b, p, w) =~= replaced(b, p, w));
    } else if a.len() < p.len() {
        let rest = a.drop_first();
        assert(rest =~= Seq::<char>::empty());
        assert(all.drop_first() =~= b);
        assert(replaced(a, p, w) == a);
        assert(a =~= seq![a[0]]);
        if all.len() >= 2 {
            assert(all.take(2)[0] == a[0] && all.take(2)[1] == b[0]);
            assert(all.take(2) != p);
            assert(all[0] == a[0]);
        } else {
            assert(b.len() == 0);
            assert(all =~= a);
            assert(replaced(b, p, w) == b);
            assert(a + b =~= a);
        }
    } else {
        let n = p.len() as int;
        assert(all.take(n) =~= a.take(n));
        if a.take(n) == p {
            let rest = a.skip(n);
            assert(all.skip(n) =~= rest + b);
            assert(rest.len() > 0 ==> rest.last() == a.last());
            lemma_replaced_add(rest, b, p, w);
            assert(w + (replaced(rest, p, w) + replaced(b, p, w)) =~= w + replaced(rest, p, w)
                + replaced(b, p, w));
        } else {
            let rest = a.drop_first();
            assert(all.drop_first() =~= rest + b);
            assert(all[0] == a[0]);
            assert(rest.len() > 0 ==> rest.last() == a.last());
            lemma_replaced_add(rest, b, p, w);
            assert(seq![a[0]] + (replaced(rest, p, w) + replaced(b, p, w)) =~= seq![a[0]]
                + replaced(rest, p, w) + replaced(b, p, w));
        }
    }
}

/// The text with every line break written as one line feed.
spec fn unified(value: Seq<char>) -> Seq<char> {
    replaced(replaced(value, "\r\n"@, "\n"@), "\r"@, "\n"@)
}

pub proof fn lemma_breaks()
    ensures
        "\n"@ == seq!['\n'],
        "\r"@ == seq!['\r'],
        "\r\n"@ == seq!['\r', '\n'],
{
    reveal_strlit("\n");
    reveal_strlit("\r");
    reveal_strlit("\r\n");
    assert("\n"@ =~= seq!['\n']);
    assert("\r"@ =~= seq!['\r']);
    assert("\r\n"@ =~= seq!['\r', '\n']);
}

proof fn lemma_unified(value: Seq<char>)
    ensures
        free_of(unified(value), '\r'),
        with_line_breaks(value, "\n"@) == unified(value),
{
    lemma_breaks();
    lemma_replaced_free_of(replaced(value, "\r\n"@, "\n"@), "\r"@, "\n"@, '\r');
    lemma_replaced_self(unified(value), "\n"@);
}

/// Line breaks that were written out are read back.
proof fn lemma_unified_back(u: Seq<char>)
    requires
        free_of(u, '\r'),
    ensures
        replaced(replaced(u, "\n"@, "\r\n"@), "\r\n"@, "\n"@) == u,
    decreases u.len(),
{
    lemma_breaks();
    let w = replaced(u, "\n"@, "\r\n"@);
    if u.len() > 0 {
        let rest = u.drop_first();
        assert(free_of(rest, '\r')) by {
            assert forall|i: int| 0 <= i < rest.len() implies #[trigger] rest[i] != '\r' by {
                assert(rest[i] == u[i + 1]);
            }
        }
        lemma_unified_back(rest);
        let tail = replaced(rest, "\n"@, "\r\n"@);
        assert(u.take(1) =~= seq![u[0]]);
        assert(seq![u[0]] + rest =~= u);
        if u[0] == '\n' {
            assert(u.skip(1) =~= rest);
            assert(w == "\r\n"@ + tail);
            assert(w.take(2) =~= "\r\n"@);
            assert(w.skip(2) =~= tail);
        } else {
            assert(u.take(1)[0] != "\n"@[0]);
            assert(w == seq![u[0]] + tail);
            assert(u[0] != '\r');
            assert(w.drop_first() =~= tail);
            if w.len() >= 2 {
                assert(w.take(2)[0] == u[0]);
                assert("\r\n"@[0] == '\r');
                assert(w.take(2) != "\r\n"@);
            } else {
                assert(tail =~= Seq::<char>::empty());
                assert(replaced(tail, "\r\n"@, "\n"@) == tail);
                assert(w =~= u);
            }
        }
    }
}

/// A text keeps nothing of the line breaks that it had: writing its line breaks
/// anew gives the same, however they were written before. And with plain line
/// breaks it holds no carriage return.
pub proof fn law_line_breaks_are_written_anew(
    value: Seq<char>,
    first: Seq<char>,
    second: Seq<char>,
)
    requires
        first == "\n"@ || first == "\r\n"@,
        second == "\n"@ || second == "\r\n"@,
    ensures
        with_line_breaks(with_line_breaks(value, first), second) == with_line_breaks(value, second),
        free_of(with_line_breaks(value, "\n"@), '\r'),
{
    lemma_breaks();
    lemma_unified(value);
    let u = unified(value);
    let once = with_line_breaks(value, first);
    if first == "\n"@ {
        lemma_replaced_absent(u, "\r\n"@, "\n"@);
        lemma_replaced_absent(u, "\r"@, "\n"@);
    } else {
        lemma_unified_back(u);
        lemma_replaced_absent(u, "\r"@, "\n"@);
    }
    assert(unified(once) == u);
}

pub proof fn lemma_with_line_breaks_add(a: Seq<char>, b: Seq<char>)
    requires
        a.len() == 0 || b.len() == 0 || a.last() != '\r' || b[0] != '\n',
    ensures
        with_line_breaks(a + b, "\n"@) == with_line_breaks(a, "\n"@) + with_line_breaks(b, "\n"@),
{
    lemma_breaks();
    lemma_replaced_add(a, b, "\r\n"@, "\n"@);
    let a1 = replaced(a, "\r\n"@, "\n"@);
    let b1 = replaced(b, "\r\n"@, "\n"@);
    lemma_replaced_add(a1, b1, "\r"@, "\n"@);
    lemma_replaced_add(replaced(a1, "\r"@, "\n"@), replaced(b1, "\r"@, "\n"@), "\n"@, "\n"@);
}

proof fn lemma_replaced_blank(s: Seq<char>, p: Seq<char>, w: Seq<char>)
    requires
        is_blank(s),
        is_blank(w),
    ensures
        is_blank(replaced(s, p, w)),
    decreases s.len(),
{
    if p.len() == 0 || s.len() < p.len() {
    } else if s.take(p.len() as int) == p {
        let rest = s.skip(p.len() as int);
        assert forall|i: int| 0 <= i < rest.len() implies white_space(#[trigger] rest[i]) by {
            assert(rest[i] == s[i + p.len()]);
        }
        lemma_replaced_blank(rest, p, w);
        let r = replaced(rest, p, w);
        assert forall|i: int| 0 <= i < (w + r).len() implies white_space(#[trigger] (w + r)[i]) by {
            if i < w.len() {
                assert((w + r)[i] == w[i]);
            } else {
                assert((w + r)[i] == r[i - w.len()]);
            }
        }
    } else {
        let rest = s.drop_first();
        assert forall|i: int| 0 <= i < rest.len() implies white_space(#[trigger] rest[i]) by {
            assert(rest[i] == s[i + 1]);
        }
        lemma_replaced_blank(rest, p, w);
        let r = replaced(rest, p, w);
        let all = seq![s[0]] + r;
        assert forall|i: int| 0 <= i < all.len() implies white_space(#[trigger] all[i]) by {
            if i > 0 {
                assert(all[i] == r[i - 1]);
            } else {
                assert(all[0] == s[0]);
            }
        }
    }
}

proof fn lemma_breaks_of_blank(s: Seq<char>)
    requires
        is_blank(s),
    ensures
        is_blank(with_line_breaks(s, "\n"@)),
{
    lemma_breaks();
    assert(is_blank("\n"@));
    lemma_replaced_blank(s, "\r\n"@, "\n"@);
    lemma_replaced_blank(replaced(s, "\r\n"@, "\n"@), "\r"@, "\n"@);
    lemma_replaced_blank(unified(s), "\n"@, "\n"@);
}

/// White space at the start does not change the trimmed text.
proof fn lemma_trim_start_blank(blank: Seq<char>, s: Seq<char>)
    requires
        is_blank(blank),
    ensures
        trim_start(blank + s) == trim_start(s),
    decreases blank.len(),
{
    if blank.len() == 0 {
        assert(blank + s =~= s);
    } else {
        let rest = blank.drop_first();
        assert(white_space(blank[0]));
        assert forall|i: int| 0 <= i < rest.len() implies white_space(#[trigger] rest[i]) by {
            assert(rest[i] == blank[i + 1]);
        }
        assert((blank + s).drop_first() =~= rest + s);
        assert((blank + s)[0] == blank[0]);
        lemma_trim_start_blank(rest, s);
    }
}

proof fn lemma_trim_end_parts(s: Seq<char>) -> (r: Seq<char>)
    ensures
        is_blank(r),
        s == trim_end(s) + r,
        trim_end(s).len() > 0 ==> !white_space(trim_end(s).last()) && trim_end(s)[0] == s[0],
    decreases s.len(),
{
    if s.len() > 0 && white_space(s.last()) {
        let before = lemma_trim_end_parts(s.drop_last());
        let r = before.push(s.last());
        assert(s =~= s.drop_last().push(s.last()));
        assert(trim_end(s) + r =~= (trim_end(s) + before).push(s.last()));
        r
    } else {
        assert(s + Seq::empty() =~= s);
        Seq::empty()
    }
}

proof fn lemma_trim_start_parts(s: Seq<char>) -> (r: Seq<char>)
    ensures
        is_blank(r),
        s == r + trim_start(s),
        trim_start(s).len() > 0 ==> !white_space(trim_start(s)[0]),
    decreases s.len(),
{
    if s.len() > 0 && white_space(s[0]) {
        let rest = lemma_trim_start_parts(s.drop_first());
        let r = seq![s[0]] + rest;
        assert(is_blank(r)) by {
            assert forall|i: int| 0 <= i < r.len() implies white_space(#[trigger] r[i]) by {
                if i > 0 {
                    assert(r[i] == rest[i - 1]);
                }
            }
        }
        assert(s =~= seq![s[0]] + s.drop_first());
        assert(r + trim_start(s) =~= seq![s[0]] + (rest + trim_start(s)));
        r
    } else {
        assert(Seq::empty() + s =~= s);
        Seq::empty()
    }
}

/// A text is its trimmed text between white space.
pub proof fn lemma_trimmed_parts(s: Seq<char>) -> (r: (Seq<char>, Seq<char>))
    ensures
        is_blank(r.0),
        is_blank(r.1),
        s == r.0 + trimmed(s) + r.1,
        trimmed(s).len() > 0 ==> !white_space(trimmed(s)[0]) && !white_space(trimmed(s).last()),
        trimmed(trimmed(s)) == trimmed(s),
{
    let ahead = lemma_trim_start_parts(s);
    let behind = lemma_trim_end_parts(trim_start(s));
    assert(s =~= ahead + trimmed(s) + behind);
    lemma_trimmed_same(trimmed(s));
    (ahead, behind)
}

/// What is left of some lines once they are trimmed and the blank ones are
/// dropped.
spec fn cores(lines: Seq<Seq<char>>) -> Seq<Seq<char>>
    decreases lines.len(),
{
    if lines.len() == 0 {
        Seq::empty()
    } else {
        let before = cores(lines.drop_last());
        if trimmed(lines.last()).len() == 0 {
            before
        } else {
            before.push(trimmed(lines.last()))
        }
    }
}

proof fn lemma_cores_push(lines: Seq<Seq<char>>, line: Seq<char>)
    ensures
        cores(lines.push(line)) == (if trimmed(line).len() == 0 {
            cores(lines)
        } else {
            cores(lines).push(trimmed(line))
        }),
{
    assert(lines.push(line).drop_last() =~= lines);
}

/// Markers and fences are told by what is left of the lines.
proof fn lemma_quiet_cores(lines: Seq<Seq<char>>, marker: Seq<char>)
    requires
        marker.len() > 0,
    ensures
        fence_after(None, lines) == fence_after(None, cores(lines)),
        (marks(None, lines, marker).len() == 0) == (marks(None, cores(lines), marker).len() == 0),
    decreases lines.len(),
{
    if lines.len() > 0 {
        let init = lines.drop_last();
        let line = lines.last();
        lemma_quiet_cores(init, marker);
        let parts = lemma_trimmed_parts(line);
        reveal_strlit("```");
        reveal_strlit("~~~");
        if trimmed(line).len() == 0 {
            assert(fence_char(line) is None);
        } else {
            assert(cores(lines).drop_last() =~= cores(init));
            assert(fence_char(trimmed(line)) == fence_char(line));
        }
    }
}

/// What is left of the lines of a text.
spec fn text_cores(s: Seq<char>) -> Seq<Seq<char>> {
    cores(pieces(s, '\n'))
}

proof fn lemma_text_cores_split(s: Seq<char>)
    ensures
        pieces(s, '\n').len() > 0,
        text_cores(s) == (if trimmed(pieces(s, '\n').last()).len() == 0 {
            cores(pieces(s, '\n').drop_last())
        } else {
            cores(pieces(s, '\n').drop_last()).push(trimmed(pieces(s, '\n').last()))
        }),
    decreases s.len(),
{
    if s.len() > 0 {
        lemma_text_cores_split(s.drop_last());
    }
}

proof fn lemma_trimmed_empty()
    ensures
        trimmed(Seq::<char>::empty()).len() == 0,
        trimmed(seq!['\n']).len() == 0,
{
    let none = Seq::<char>::empty();
    assert(trim_start(none) == none);
    lemma_trimmed_blank(none, seq!['\n']);
    assert(none + seq!['\n'] =~= seq!['\n']);
}

/// The lines of a text leave the same whether they keep their line breaks or
/// not.
proof fn lemma_full_lines_cores(s: Seq<char>)
    ensures
        at_line_start(s) ==> pieces(s, '\n').last().len() == 0 && cores(full_lines(s)) == cores(
            pieces(s, '\n').drop_last(),
        ),
        !at_line_start(s) ==> full_lines(s).len() > 0 && full_lines(s).last() == pieces(
            s,
            '\n',
        ).last() && cores(full_lines(s).drop_last()) == cores(pieces(s, '\n').drop_last()),
    decreases s.len(),
{
    lemma_trimmed_empty();
    if s.len() == 0 {
        assert(pieces(s, '\n').drop_last() =~= Seq::<Seq<char>>::empty());
        assert(full_lines(s) =~= Seq::<Seq<char>>::empty());
    } else {
        let init = s.drop_last();
        let c = s.last();
        lemma_full_lines_cores(init);
        lemma_text_cores_split(init);
        lemma_full_lines(init);
        let full = full_lines(init);
        let parts = pieces(init, '\n');
        let none = Seq::<char>::empty();
        if at_line_start(init) {
            assert(full_lines(s) == full.push(seq![c]));
            assert(parts.last() =~= none);
            if c == '\n' {
                lemma_cores_push(full, seq![c]);
                assert(pieces(s, '\n').drop_last() =~= parts);
            } else {
                assert(none.push(c) =~= seq![c]);
                assert(full_lines(s).drop_last() =~= full);
                assert(pieces(s, '\n').drop_last() =~= parts.drop_last());
            }
        } else {
            let line = full.last().push(c);
            assert(full_lines(s) == full.drop_last().push(line));
            if c == '\n' {
                lemma_cores_push(full.drop_last(), line);
                lemma_trimmed_blank(full.last(), seq!['\n']);
                assert(full.last() + seq!['\n'] =~= line);
                assert(pieces(s, '\n').drop_last() =~= parts);
            } else {
                assert(full_lines(s).drop_last() =~= full.drop_last());
                assert(pieces(s, '\n').drop_last() =~= parts.drop_last());
            }
        }
    }
}

proof fn lemma_line_cores(s: Seq<char>)
    ensures
        cores(full_lines(s)) == text_cores(s),
{
    lemma_full_lines_cores(s);
    lemma_text_cores_split(s);
    lemma_trimmed_empty();
    if at_line_start(s) {
        assert(pieces(s, '\n').last() =~= Seq::<char>::empty());
    } else {
        lemma_cores_push(full_lines(s).drop_last(), full_lines(s).last());
        assert(full_lines(s).drop_last().push(full_lines(s).last()) =~= full_lines(s));
    }
}

/// White space at the end leaves nothing.
proof fn lemma_cores_blank_behind(s: Seq<char>, blank: Seq<char>)
    requires
        is_blank(blank),
    ensures
        text_cores(s + blank) == text_cores(s),
    decreases blank.len(),
{
    if blank.len() == 0 {
        assert(s + blank =~= s);
    } else {
        let init = blank.drop_last();
        let c = blank.last();
        assert(white_space(blank[blank.len() - 1]));
        assert forall|i: int| 0 <= i < init.len() implies white_space(#[trigger] init[i]) by {
            assert(init[i] == blank[i]);
        }
        lemma_cores_blank_behind(s, init);
        let before = s + init;
        let all = s + blank;
        assert(all.drop_last() =~= before);
        assert(all.last() == c);
        let parts = pieces(before, '\n');
        lemma_text_cores_split(before);
        lemma_text_cores_split(all);
        if c == '\n' {
            lemma_trimmed_empty();
            assert(pieces(all, '\n').drop_last() =~= parts);
        } else {
            assert(pieces(all, '\n').drop_last() =~= parts.drop_last());
            lemma_trimmed_blank(parts.last(), seq![c]);
            assert(parts.last() + seq![c] =~= parts.last().push(c));
        }
    }
}

proof fn lemma_pieces_of_blank(blank: Seq<char>)
    requires
        is_blank(blank),
    ensures
        pieces(blank, '\n').len() > 0,
        is_blank(pieces(blank, '\n').last()),
        cores(pieces(blank, '\n').drop_last()).len() == 0,
    decreases blank.len(),
{
    if blank.len() == 0 {
        assert(pieces(blank, '\n').drop_last() =~= Seq::<Seq<char>>::empty());
    } else {
        let init = blank.drop_last();
        let c = blank.last();
        assert(white_space(blank[blank.len() - 1]));
        assert forall|i: int| 0 <= i < init.len() implies white_space(#[trigger] init[i]) by {
            assert(init[i] == blank[i]);
        }
        lemma_pieces_of_blank(init);
        let parts = pieces(init, '\n');
        if c == '\n' {
            assert(pieces(blank, '\n').drop_last() =~= parts);
            lemma_text_cores_split(init);
            let none = Seq::<char>::empty();
            lemma_trimmed_empty();
            lemma_trimmed_blank(none, parts.last());
            assert(none + parts.last() =~= parts.last());
        } else {
            assert(pieces(blank, '\n').drop_last() =~= parts.drop_last());
            let last = parts.last().push(c);
            assert forall|i: int| 0 <= i < last.len() implies white_space(#[trigger] last[i]) by {
                if i < parts.last().len() {
                    assert(last[i] == parts.last()[i]);
                }
            }
        }
    }
}

proof fn lemma_pieces_behind_blank(blank: Seq<char>, s: Seq<char>)
    requires
        is_blank(blank),
    ensures
        cores(pieces(blank + s, '\n').drop_last()) == cores(pieces(s, '\n').drop_last()),
        pieces(blank + s, '\n').last() == (if pieces(s, '\n').len() == 1 {
            pieces(blank, '\n').last() + pieces(s, '\n')[0]
        } else {
            pieces(s, '\n').last()
        }),
    decreases s.len(),
{
    lemma_pieces_of_blank(blank);
    let all = blank + s;
    let b = pieces(blank, '\n').last();
    lemma_text_cores_split(s);
    if s.len() == 0 {
        assert(all =~= blank);
        assert(pieces(s, '\n').drop_last() =~= Seq::<Seq<char>>::empty());
        assert(cores(pieces(blank, '\n').drop_last()) =~= Seq::<Seq<char>>::empty());
        assert(b + pieces(s, '\n')[0] =~= b);
    } else {
        let init = s.drop_last();
        let c = s.last();
        lemma_pieces_behind_blank(blank, init);
        lemma_text_cores_split(init);
        lemma_text_cores_split(blank + init);
        assert(all.drop_last() =~= blank + init);
        assert(all.last() == c);
        let mine = pieces(init, '\n');
        let theirs = pieces(blank + init, '\n');
        if c == '\n' {
            assert(pieces(s, '\n').drop_last() =~= mine);
            assert(pieces(all, '\n').drop_last() =~= theirs);
            if mine.len() == 1 {
                lemma_trim_start_blank(b, mine[0]);
            }
            assert(trimmed(theirs.last()) == trimmed(mine.last()));
        } else {
            assert(pieces(s, '\n').drop_last() =~= mine.drop_last());
            assert(pieces(all, '\n').drop_last() =~= theirs.drop_last());
            if mine.len() == 1 {
                assert((b + mine[0]).push(c) =~= b + mine[0].push(c));
            }
        }
    }
}

/// White space at the start leaves nothing.
proof fn lemma_cores_blank_ahead(blank: Seq<char>, s: Seq<char>)
    requires
        is_blank(blank),
    ensures
        text_cores(blank + s) == text_cores(s),
{
    lemma_pieces_of_blank(blank);
    lemma_pieces_behind_blank(blank, s);
    lemma_text_cores_split(s);
    lemma_text_cores_split(blank + s);
    if pieces(s, '\n').len() == 1 {
        lemma_trim_start_blank(pieces(blank, '\n').last(), pieces(s, '\n')[0]);
    }
}

proof fn lemma_pieces_rewritten(u: Seq<char>)
    ensures
        ({
            let w = replaced(u, "\n"@, "\r\n"@);
            &&& cores(pieces(w, '\n').drop_last()) == cores(pieces(u, '\n').drop_last())
            &&& pieces(w, '\n').last() == pieces(u, '\n').last()
        }),
    decreases u.len(),
{
    lemma_breaks();
    let w = replaced(u, "\n"@, "\r\n"@);
    if u.len() > 0 {
        let init = u.drop_last();
        let c = u.last();
        let one = seq![c];
        lemma_pieces_rewritten(init);
        assert(init + one =~= u);
        lemma_replaced_add(init, one, "\n"@, "\r\n"@);
        let before = replaced(init, "\n"@, "\r\n"@);
        let mine = pieces(init, '\n');
        let theirs = pieces(before, '\n');
        lemma_text_cores_split(init);
        lemma_text_cores_split(before);
        assert(one.take(1) =~= one);
        assert(one.skip(1) =~= Seq::<char>::empty());
        assert(one.drop_first() =~= Seq::<char>::empty());
        let none = Seq::<char>::empty();
        assert(replaced(none, "\n"@, "\r\n"@) == none);
        if c == '\n' {
            assert(replaced(one, "\n"@, "\r\n"@) =~= "\r\n"@);
            let mid = before.push('\r');
            assert(w =~= mid.push('\n'));
            assert(mid.drop_last() =~= before);
            assert(w.drop_last() =~= mid);
            assert(pieces(mid, '\n') == theirs.drop_last().push(theirs.last().push('\r')));
            assert(pieces(w, '\n').drop_last() =~= pieces(mid, '\n'));
            assert(pieces(u, '\n').drop_last() =~= mine);
            lemma_cores_push(theirs.drop_last(), theirs.last().push('\r'));
            lemma_trimmed_blank(theirs.last(), seq!['\r']);
            assert(theirs.last() + seq!['\r'] =~= theirs.last().push('\r'));
        } else {
            assert(one != "\n"@) by {
                assert(one[0] == c);
            }
            assert(replaced(one, "\n"@, "\r\n"@) =~= one);
            assert(w =~= before.push(c));
            assert(w.drop_last() =~= before);
            assert(pieces(w, '\n').drop_last() =~= theirs.drop_last());
            assert(pieces(u, '\n').drop_last() =~= mine.drop_last());
        }
    }
}

/// Markdown whose lines neither hold a marker of the block nor leave a code
/// fence open, however its line breaks are written.
pub open spec fn quiet_text(markdown: Seq<char>, id: Seq<char>) -> bool {
    quiet(full_lines(with_line_breaks(markdown, "\n"@)), id)
}

proof fn lemma_quiet_by_cores(a: Seq<char>, b: Seq<char>, id: Seq<char>)
    requires
        is_block_id(id),
        text_cores(a) == text_cores(b),
    ensures
        quiet(full_lines(a), id) == quiet(full_lines(b), id),
{
    lemma_marker_shape(id);
    lemma_line_cores(a);
    lemma_line_cores(b);
    lemma_quiet_cores(full_lines(a), begin_marker(id));
    lemma_quiet_cores(full_lines(a), end_marker(id));
    lemma_quiet_cores(full_lines(b), begin_marker(id));
    lemma_quiet_cores(full_lines(b), end_marker(id));
}

/// Markdown is as quiet when it stands in a block as it is on its own.
pub proof fn lemma_quiet_in_block(markdown: Seq<char>, eol: Seq<char>, id: Seq<char>)
    requires
        is_block_id(id),
        is_eol(eol),
    ensures
        quiet_markdown(markdown, eol, id) == quiet_text(markdown, id),
{
    lemma_breaks();
    lemma_eol(eol);
    let t = trimmed(markdown);
    let (ahead, behind) = lemma_trimmed_parts(markdown);
    let lf = "\n"@;
    lemma_with_line_breaks_add(ahead, t);
    if t.len() == 0 {
        assert(ahead + t =~= ahead);
    }
    let whole = with_line_breaks(markdown, lf);
    let own = with_line_breaks(t, lf);
    let first = with_line_breaks(ahead, lf);
    let last = with_line_breaks(behind, lf);
    lemma_breaks_of_blank(ahead);
    lemma_breaks_of_blank(behind);
    if t.len() == 0 {
        assert(t =~= Seq::<char>::empty());
        let blank = ahead + behind;
        assert(markdown =~= blank);
        assert(is_blank(blank)) by {
            assert forall|i: int| 0 <= i < blank.len() implies white_space(#[trigger] blank[i]) by {
                if i < ahead.len() {
                    assert(blank[i] == ahead[i]);
                } else {
                    assert(blank[i] == behind[i - ahead.len()]);
                }
            }
        }
        lemma_breaks_of_blank(blank);
        let none = Seq::<char>::empty();
        lemma_cores_blank_behind(none, whole);
        assert(none + whole =~= whole);
        assert(own =~= none);
    } else {
        lemma_with_line_breaks_add(ahead + t, behind);
        assert((ahead + t).last() == t.last());
        assert(whole == first + own + last);
        lemma_cores_blank_behind(first + own, last);
        lemma_cores_blank_ahead(first, own);
    }
    assert(text_cores(whole) == text_cores(own));
    let written = with_line_breaks(t, eol);
    lemma_cores_blank_behind(written, eol);
    lemma_unified(t);
    if eol == "\r\n"@ {
        lemma_pieces_rewritten(unified(t));
        lemma_text_cores_split(unified(t));
        lemma_text_cores_split(written);
    }
    assert(text_cores(written + eol) == text_cores(own));
    lemma_quiet_by_cores(whole, written + eol, id);
}

proof fn lemma_one_piece(s: Seq<char>)
    requires
        free_of(s, '\n'),
    ensures
        pieces(s, '\n') == seq![s],
    decreases s.len(),
{
    if s.len() == 0 {
        assert(s =~= Seq::<char>::empty());
    } else {
        let init = s.drop_last();
        assert forall|i: int| 0 <= i < init.len() implies #[trigger] init[i] != '\n' by {
            assert(init[i] == s[i]);
        }
        lemma_one_piece(init);
        assert(s[s.len() - 1] != '\n');
        assert(init.push(s.last()) =~= s);
        assert(pieces(s, '\n') =~= seq![s]);
    }
}

/// A title without a line break adds no marker and no fence to a new note.
pub proof fn lemma_one_line_title_is_quiet(title: Seq<char>, eol: Seq<char>, id: Seq<char>)
    requires
        is_block_id(id),
        is_eol(eol),
        free_of(title, '\n'),
    ensures
        quiet_title(title, eol, id),
{
    let t = trimmed(title);
    let none = Seq::<char>::empty();
    lemma_eol(eol);
    lemma_marker_shape(id);
    if t.len() == 0 {
        assert(full_lines(note_start(none, title, eol)) =~= Seq::<Seq<char>>::empty());
    } else {
        reveal_strlit("# ");
        reveal_strlit("```");
        reveal_strlit("~~~");
        let line = "# "@ + t;
        let start = note_start(none, title, eol);
        assert(start =~= line + eol + eol);
        let (ahead, behind) = lemma_trimmed_parts(title);
        assert forall|i: int| 0 <= i < line.len() implies #[trigger] line[i] != '\n' by {
            if i >= 2 {
                assert(line[i] == title[ahead.len() + i - 2]);
            }
        }
        lemma_cores_blank_behind(line + eol, eol);
        lemma_cores_blank_behind(line, eol);
        lemma_one_piece(line);
        assert(!white_space(line[0]));
        assert(line.last() == t.last());
        lemma_trimmed_same(line);
        lemma_text_cores_split(line);
        assert(text_cores(line) =~= seq![line]);
        lemma_line_cores(start);
        let lines = seq![line];
        assert(lines.drop_last() =~= Seq::<Seq<char>>::empty());
        assert(fence_char(line) is None) by {
            if begins_with(line, "```"@) {
                assert(line.take(3)[0] == "```"@[0]);
            }
            if begins_with(line, "~~~"@) {
                assert(line.take(3)[0] == "~~~"@[0]);
            }
        }
        assert(line[0] == '#');
        assert(begin_marker(id)[0] == '<' && end_marker(id)[0] == '<');
        assert(fence_after(None, lines.drop_last()) is None);
        assert(fence_after(None, lines) is None);
        assert(marks(None, lines.drop_last(), begin_marker(id)).len() == 0);
        assert(marks(None, lines.drop_last(), end_marker(id)).len() == 0);
        lemma_quiet_cores(full_lines(start), begin_marker(id));
        lemma_quiet_cores(full_lines(start), end_marker(id));
    }
}

/// Lines without fences and markers are quiet.
proof fn lemma_plain_lines_are_quiet(lines: Seq<Seq<char>>, id: Seq<char>)
    requires
        forall|i: int|
            0 <= i < lines.len() ==> fence_char(#[trigger] lines[i]) is None && trimmed(lines[i])
                != begin_marker(id) && trimmed(lines[i]) != end_marker(id),
    ensures
        quiet(lines, id),
    decreases lines.len(),
{
    if lines.len() > 0 {
        let init = lines.drop_last();
        assert forall|i: int| 0 <= i < init.len() implies fence_char(#[trigger] init[i]) is None
            && trimmed(init[i]) != begin_marker(id) && trimmed(init[i]) != end_marker(id) by {
            assert(init[i] == lines[i]);
        }
        lemma_plain_lines_are_quiet(init, id);
        assert(lines[lines.len() - 1] == lines.last());
    }
}

/// Markdown can be found again in a note if none of its lines opens a code fence
/// or is a marker of the block.
pub proof fn law_plain_markdown_is_quiet(markdown: Seq<char>, id: Seq<char>)
    requires
        ({
            let lines = full_lines(with_line_breaks(markdown, "\n"@));
            forall|i: int|
                0 <= i < lines.len() ==> fence_char(#[trigger] lines[i]) is None && trimmed(
                    lines[i],
                ) != begin_marker(id) && trimmed(lines[i]) != end_marker(id)
        }),
    ensures
        quiet_text(markdown, id),
{
    lemma_plain_lines_are_quiet(full_lines(with_line_breaks(markdown, "\n"@)), id);
}

} // verus!
