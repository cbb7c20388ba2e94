//! What the operations on texts keep and what they take away.
use crate::text::{
    around, first_at, full_lines, is_blank, joined, lemma_first_at_unique, occurs_at, pieces,
    replaced, trim_end, trim_start, trimmed, white_space, words,
};
use vstd::prelude::*;

verus! {

/// Trimming takes the blanks on either side away and nothing else.
pub proof fn law_blanks_are_trimmed(s: Seq<char>)
    ensures
        exists|a: Seq<char>, b: Seq<char>|
            s == #[trigger] (a + trimmed(s) + b) && is_blank(a) && is_blank(b),
        trimmed(s).len() <= s.len(),
        trimmed(s).len() > 0 ==> !white_space(trimmed(s)[0]) && !white_space(trimmed(s).last()),
{
    let t = trim_start(s);
    let a = lemma_trim_start_parts(s);
    let b = lemma_trim_end_parts(t);
    assert(s =~= a + trimmed(s) + b);
    if trimmed(s).len() > 0 {
        assert(t[0] == trimmed(s)[0]);
    }
}

proof fn lemma_trim_start_parts(s: Seq<char>) -> (a: Seq<char>)
    ensures
        is_blank(a),
        s == a + trim_start(s),
        trim_start(s).len() > 0 ==> !white_space(trim_start(s)[0]),
    decreases s.len(),
{
    if s.len() > 0 && white_space(s[0]) {
        let rest = lemma_trim_start_parts(s.drop_first());
        let a = seq![s[0]] + rest;
        assert(s.drop_first() =~= rest + trim_start(s.drop_first()));
        assert(s =~= seq![s[0]] + s.drop_first());
        assert(s =~= a + trim_start(s));
        assert forall|i: int| 0 <= i < a.len() implies white_space(#[trigger] a[i]) by {
            if i > 0 {
                assert(a[i] == rest[i - 1]);
            }
        }
        a
    } else {
        assert(s =~= Seq::<char>::empty() + s);
        Seq::empty()
    }
}

proof fn lemma_trim_end_parts(s: Seq<char>) -> (b: Seq<char>)
    ensures
        is_blank(b),
        s == trim_end(s) + b,
        trim_end(s).len() > 0 ==> !white_space(trim_end(s).last()),
    decreases s.len(),
{
    if s.len() > 0 && white_space(s.last()) {
        let rest = lemma_trim_end_parts(s.drop_last());
        let b = rest.push(s.last());
        assert(s =~= s.drop_last().push(s.last()));
        assert(s =~= trim_end(s) + b);
        assert forall|i: int| 0 <= i < b.len() implies white_space(#[trigger] b[i]) by {
            if i < rest.len() {
                assert(b[i] == rest[i]);
            }
        }
        b
    } else {
        assert(s =~= s + Seq::<char>::empty());
        Seq::empty()
    }
}

/// A text that a character does not stand in is a single piece.
pub proof fn law_piece_without_the_character(s: Seq<char>, c: char)
    requires
        !s.contains(c),
    ensures
        pieces(s, c) == seq![s],
    decreases s.len(),
{
    if s.len() == 0 {
        assert(s =~= Seq::<char>::empty());
    } else {
        let init = s.drop_last();
        if init.contains(c) {
            let i = choose|i: int| 0 <= i < init.len() && init[i] == c;
            assert(s[i] == c);
        }
        assert(s[s.len() - 1] == s.last());
        law_piece_without_the_character(init, c);
        assert(init.push(s.last()) =~= s);
        assert(pieces(s, c) =~= seq![s]);
    }
}

/// The pieces of a text are those before a separator and those after it.
pub proof fn law_pieces_are_between(a: Seq<char>, b: Seq<char>, c: char)
    ensures
        !b.contains(c) ==> pieces(a.push(c) + b, c) == pieces(a, c).push(b),
        pieces(a.push(c) + b, c) == pieces(a, c) + pieces(b, c),
{
    lemma_pieces_add(a, b, c);
    if !b.contains(c) {
        law_piece_without_the_character(b, c);
        assert(pieces(a, c) + seq![b] =~= pieces(a, c).push(b));
    }
}

proof fn lemma_pieces_some(s: Seq<char>, c: char)
    ensures
        pieces(s, c).len() > 0,
    decreases s.len(),
{
    if s.len() > 0 {
        lemma_pieces_some(s.drop_last(), c);
    }
}

proof fn lemma_pieces_add(a: Seq<char>, b: Seq<char>, c: char)
    ensures
        pieces(a.push(c) + b, c) == pieces(a, c) + pieces(b, c),
    decreases b.len(),
{
    let all = a.push(c) + b;
    if b.len() == 0 {
        assert(all =~= a.push(c));
        assert(all.drop_last() =~= a);
        assert(pieces(all, c) =~= pieces(a, c) + pieces(b, c));
    } else {
        lemma_pieces_add(a, b.drop_last(), c);
        lemma_pieces_some(b.drop_last(), c);
        assert(all.drop_last() =~= a.push(c) + b.drop_last());
        assert(all.last() == b.last());
        assert(pieces(all, c) =~= pieces(a, c) + pieces(b, c));
    }
}

/// The words of a text are those before a blank and those after it, and a text
/// without a blank is one word.
pub proof fn law_words_are_between_blanks(a: Seq<char>, b: Seq<char>, blank: char)
    requires
        white_space(blank),
    ensures
        words(a.push(blank) + b) == words(a) + words(b),
        b.len() > 0 && (forall|i: int| 0 <= i < b.len() ==> !white_space(#[trigger] b[i]))
            ==> words(b) == seq![b],
        words(Seq::empty()).len() == 0,
{
    lemma_words_add(a, b, blank);
    if b.len() > 0 && (forall|i: int| 0 <= i < b.len() ==> !white_space(#[trigger] b[i])) {
        lemma_one_word(b);
    }
}

proof fn lemma_words_some(s: Seq<char>)
    requires
        s.len() > 0,
        !white_space(s.last()),
    ensures
        words(s).len() > 0,
{
}

proof fn lemma_words_add(a: Seq<char>, b: Seq<char>, blank: char)
    requires
        white_space(blank),
    ensures
        words(a.push(blank) + b) == words(a) + words(b),
    decreases b.len(),
{
    let all = a.push(blank) + b;
    if b.len() == 0 {
        assert(all =~= a.push(blank));
        assert(all.drop_last() =~= a);
        assert(words(all) =~= words(a) + words(b));
    } else {
        let init = b.drop_last();
        lemma_words_add(a, init, blank);
        assert(all.drop_last() =~= a.push(blank) + init);
        assert(all.last() == b.last());
        if b.len() == 1 {
            assert(all[all.len() - 2] == blank);
        } else {
            assert(all[all.len() - 2] == b[b.len() - 2]);
            assert(init.last() == b[b.len() - 2]);
            if !white_space(init.last()) {
                lemma_words_some(init);
            }
        }
        assert(words(all) =~= words(a) + words(b));
    }
}

proof fn lemma_one_word(s: Seq<char>)
    requires
        s.len() > 0,
        forall|i: int| 0 <= i < s.len() ==> !white_space(#[trigger] s[i]),
    ensures
        words(s) == seq![s],
    decreases s.len(),
{
    let init = s.drop_last();
    assert(!white_space(s[s.len() - 1]));
    if s.len() == 1 {
        assert(words(init) =~= Seq::<Seq<char>>::empty());
        assert(seq![s.last()] =~= s);
        assert(words(s) =~= seq![s]);
    } else {
        assert forall|i: int| 0 <= i < init.len() implies !white_space(#[trigger] init[i]) by {
            assert(init[i] == s[i]);
        }
        assert(!white_space(s[s.len() - 2]));
        lemma_one_word(init);
        assert(init.push(s.last()) =~= s);
        assert(words(s) =~= seq![s]);
    }
}

/// Texts are joined with the separator between neighbours alone.
pub proof fn law_texts_are_joined(parts: Seq<Seq<char>>, more: Seq<char>, sep: Seq<char>)
    ensures
        joined(Seq::empty(), sep).len() == 0,
        joined(seq![more], sep) == more,
        parts.len() > 0 ==> joined(parts.push(more), sep) == joined(parts, sep) + sep + more,
{
    assert(parts.push(more).drop_last() =~= parts);
}

/// A text splits at the first place where a part stands.
pub proof fn law_text_around_a_part(a: Seq<char>, p: Seq<char>, b: Seq<char>)
    requires
        forall|k: int| 0 <= k < a.len() ==> !#[trigger] occurs_at(a + p + b, p, k),
    ensures
        around(a + p + b, p) == Some((a, b)),
{
    let s = a + p + b;
    assert(s.subrange(a.len() as int, (a.len() + p.len()) as int) =~= p);
    assert(occurs_at(s, p, a.len() as int));
    assert(first_at(s, p, 0, a.len() as int));
    let at = choose|at: int| first_at(s, p, 0, at);
    lemma_first_at_unique(s, p, at, a.len() as int);
    assert(s.take(at) =~= a);
    assert(s.skip(at + p.len()) =~= b);
}

/// What stands in no place of a text is not found, and a text without it is
/// left as it is by a replacement.
pub proof fn law_text_without_a_part(s: Seq<char>, p: Seq<char>, with: Seq<char>)
    requires
        p.len() > 0,
        forall|k: int| !#[trigger] occurs_at(s, p, k),
    ensures
        around(s, p) is None,
        replaced(s, p, with) == s,
    decreases s.len(),
{
    if s.len() >= p.len() {
        assert(s.subrange(0, p.len() as int) =~= s.take(p.len() as int));
        assert(!occurs_at(s, p, 0));
        let rest = s.drop_first();
        assert forall|k: int| !#[trigger] occurs_at(rest, p, k) by {
            if occurs_at(rest, p, k) {
                assert(rest.subrange(k, k + p.len()) =~= s.subrange(k + 1, k + 1 + p.len()));
                assert(occurs_at(s, p, k + 1));
            }
        }
        law_text_without_a_part(rest, p, with);
        assert(seq![s[0]] + rest =~= s);
    }
}

/// A replacement goes from left to right, and takes each part once.
pub proof fn law_parts_are_replaced(a: Seq<char>, p: Seq<char>, b: Seq<char>, with: Seq<char>)
    requires
        p.len() > 0,
        forall|k: int| 0 <= k < a.len() ==> !#[trigger] occurs_at(a + p + b, p, k),
    ensures
        replaced(a + p + b, p, with) == a + with + replaced(b, p, with),
    decreases a.len(),
{
    let s = a + p + b;
    if a.len() == 0 {
        assert(s.take(p.len() as int) =~= p);
        assert(s.skip(p.len() as int) =~= b);
        assert(a + with + replaced(b, p, with) =~= with + replaced(b, p, with));
    } else {
        assert(!occurs_at(s, p, 0));
        assert(s.subrange(0, p.len() as int) =~= s.take(p.len() as int));
        let rest = a.drop_first();
        assert(s.drop_first() =~= rest + p + b);
        assert forall|k: int| 0 <= k < rest.len() implies !#[trigger] occurs_at(rest + p + b, p, k) by {
            assert(!occurs_at(s, p, k + 1));
            assert((rest + p + b).subrange(k, k + p.len()) =~= s.subrange(k + 1, k + 1 + p.len()));
        }
        law_parts_are_replaced(rest, p, b, with);
        assert(seq![s[0]] + (rest + with + replaced(b, p, with)) =~= a + with + replaced(
            b,
            p,
            with,
        ));
    }
}

/// A line goes on up to its line break, and what stands before a line break are
/// lines of their own.
pub proof fn law_lines_end_at_line_breaks(a: Seq<char>, b: Seq<char>)
    requires
        !b.contains('\n'),
    ensures
        b.len() > 0 && (a.len() == 0 || a.last() == '\n') ==> full_lines(a + b) == full_lines(
            a,
        ).push(b),
        a.len() == 0 || a.last() == '\n' ==> full_lines(a + b.push('\n')) == full_lines(a).push(
            b.push('\n'),
        ),
        full_lines(Seq::empty()).len() == 0,
{
    if a.len() == 0 || a.last() == '\n' {
        lemma_line_after(a, b);
        let all = a + b.push('\n');
        assert(all.drop_last() =~= a + b);
        if b.len() == 0 {
            assert(a + b =~= a);
            if a.len() > 0 {
                lemma_last_line(a);
            }
            assert(b.push('\n') =~= seq!['\n']);
        } else {
            assert(b[b.len() - 1] == b.last());
            assert(full_lines(all) =~= full_lines(a).push(b.push('\n')));
        }
    }
}

proof fn lemma_last_line(a: Seq<char>)
    requires
        a.len() > 0,
    ensures
        full_lines(a).len() > 0,
        full_lines(a).last().len() > 0,
        full_lines(a).last().last() == a.last(),
{
}

proof fn lemma_line_after(a: Seq<char>, b: Seq<char>)
    requires
        !b.contains('\n'),
        a.len() == 0 || a.last() == '\n',
    ensures
        b.len() > 0 ==> full_lines(a + b) == full_lines(a).push(b),
    decreases b.len(),
{
    if b.len() > 0 {
        let init = b.drop_last();
        if init.contains('\n') {
            let i = choose|i: int| 0 <= i < init.len() && init[i] == '\n';
            assert(b[i] == '\n');
        }
        lemma_line_after(a, init);
        assert((a + b).drop_last() =~= a + init);
        if init.len() == 0 {
            assert(a + init =~= a);
            if a.len() > 0 {
                lemma_last_line(a);
            }
            assert(b =~= seq![b.last()]);
        } else {
            assert(b[b.len() - 2] == init.last());
            assert(init.push(b.last()) =~= b);
            assert(full_lines(a + b) =~= full_lines(a).push(b));
        }
    }
}

} // verus!
