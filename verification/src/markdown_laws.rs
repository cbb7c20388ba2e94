//! What holds of every text of a model that is shown.
use crate::markdown::{
    control_code, escaped, escaped_char, is_special, safe_text, single_line, uncontrolled,
};
use crate::text::{begins_with, free_of, joined, occurs, occurs_at, replaced, white_space, words};
use vstd::prelude::*;
use vstd::string::*;

verus! {

/// Whether a special character stands without a backslash before it.
pub open spec fn has_bare_special(s: Seq<char>) -> bool
    decreases s.len(),
{
    if s.len() == 0 {
        false
    } else if s[0] == '\\' {
        if s.len() == 1 {
            true
        } else {
            has_bare_special(s.skip(2))
        }
    } else {
        is_special(s[0]) || has_bare_special(s.drop_first())
    }
}

/// Whether every backslash stands before a special character, and every
/// special character behind a backslash.
spec fn well_escaped(s: Seq<char>) -> bool
    decreases s.len(),
{
    if s.len() == 0 {
        true
    } else if s[0] == '\\' {
        s.len() >= 2 && is_special(s[1]) && well_escaped(s.skip(2))
    } else {
        !is_special(s[0]) && well_escaped(s.drop_first())
    }
}

proof fn lemma_well_escaped_add(a: Seq<char>, b: Seq<char>)
    requires
        well_escaped(a),
        well_escaped(b),
    ensures
        well_escaped(a + b),
    decreases a.len(),
{
    if a.len() == 0 {
        assert(a + b =~= b);
    } else if a[0] == '\\' {
        assert((a + b).skip(2) =~= a.skip(2) + b);
        lemma_well_escaped_add(a.skip(2), b);
    } else {
        assert((a + b).drop_first() =~= a.drop_first() + b);
        lemma_well_escaped_add(a.drop_first(), b);
    }
}

proof fn lemma_escaped_is_well_escaped(s: Seq<char>)
    ensures
        well_escaped(escaped(s)),
    decreases s.len(),
{
    if s.len() > 0 {
        lemma_escaped_is_well_escaped(s.drop_last());
        let one = escaped_char(s.last());
        assert(well_escaped(one)) by {
            reveal_with_fuel(well_escaped, 3);
            if is_special(s.last()) {
                assert(one.skip(2) =~= Seq::<char>::empty());
            } else {
                assert(one.drop_first() =~= Seq::<char>::empty());
            }
        }
        lemma_well_escaped_add(escaped(s.drop_last()), one);
    }
}

proof fn lemma_well_escaped_rest(s: Seq<char>)
    requires
        well_escaped(s),
        begins_with(s, "://"@),
    ensures
        well_escaped(s.skip(3)),
        s.len() >= 3,
        s[0] == ':',
        s[1] == '/',
        s[2] == '/',
{
    reveal_strlit("://");
    assert(s.take(3)[0] == ':' && s.take(3)[1] == '/' && s.take(3)[2] == '/');
    reveal_with_fuel(well_escaped, 4);
    assert(s.drop_first().drop_first().drop_first() =~= s.skip(3));
}

/// Breaking up `://` leaves no special character bare.
proof fn lemma_no_bare_after_replace(s: Seq<char>)
    requires
        well_escaped(s),
    ensures
        !has_bare_special(replaced(s, "://"@, ":\u{200b}//"@)),
    decreases s.len(),
{
    reveal_strlit("://");
    reveal_strlit(":\u{200b}//");
    let p = "://"@;
    let w = ":\u{200b}//"@;
    let r = replaced(s, p, w);
    if s.len() == 0 {
    } else if s[0] == '\\' {
        let rest = s.skip(2);
        lemma_no_bare_after_replace(rest);
        let next = s.drop_first();
        assert(next.drop_first() =~= rest);
        if s.len() >= 3 {
            assert(s.take(3)[0] == '\\');
        }
        if next.len() >= 3 {
            assert(next.take(3)[0] == s[1]);
        }
        assert(r =~= seq![s[0], s[1]] + replaced(rest, p, w)) by {
            if s.len() < 3 {
                assert(r == s);
            } else {
                assert(r == seq![s[0]] + replaced(next, p, w));
                if next.len() < 3 {
                    assert(replaced(next, p, w) == next);
                    assert(replaced(rest, p, w) == rest);
                } else {
                    assert(replaced(next, p, w) == seq![next[0]] + replaced(rest, p, w));
                }
            }
        }
        assert(r.skip(2) =~= replaced(rest, p, w));
    } else if begins_with(s, p) {
        lemma_well_escaped_rest(s);
        let rest = s.skip(3);
        lemma_no_bare_after_replace(rest);
        assert(r == w + replaced(rest, p, w));
        reveal_with_fuel(has_bare_special, 5);
        assert(r.drop_first().drop_first().drop_first().drop_first() =~= replaced(rest, p, w));
    } else {
        let rest = s.drop_first();
        lemma_no_bare_after_replace(rest);
        if s.len() < 3 {
            assert(r == s);
            if rest.len() < 3 {
                assert(replaced(rest, p, w) == rest);
            }
        } else {
            assert(r == seq![s[0]] + replaced(rest, p, w));
        }
        assert(r.drop_first() =~= replaced(rest, p, w));
    }
}

/// No Markdown of a model survives: in the text that is shown, every special
/// character stands behind a backslash.
pub proof fn law_model_text_has_no_markdown(value: Seq<char>)
    ensures
        !has_bare_special(safe_text(value)),
{
    lemma_escaped_is_well_escaped(single_line(value));
    lemma_no_bare_after_replace(escaped(single_line(value)));
}

/// Breaking up every `://` leaves none.
proof fn lemma_no_url_after_replace(s: Seq<char>)
    ensures
        !occurs(replaced(s, "://"@, ":\u{200b}//"@), "://"@),
    decreases s.len(),
{
    reveal_strlit("://");
    reveal_strlit(":\u{200b}//");
    let p = "://"@;
    let w = ":\u{200b}//"@;
    let r = replaced(s, p, w);
    if s.len() < 3 {
        assert(r == s);
        if occurs(r, p) {
            let at = choose|at: int| occurs_at(r, p, at);
        }
    } else if s.take(3) == p {
        let rest = replaced(s.skip(3), p, w);
        lemma_no_url_after_replace(s.skip(3));
        assert(r == w + rest);
        if occurs(r, p) {
            let at = choose|at: int| occurs_at(r, p, at);
            assert(r.subrange(at, at + 3)[0] == r[at]);
            assert(r.subrange(at, at + 3)[1] == r[at + 1]);
            if at >= 4 {
                assert(rest.subrange(at - 4, at - 1) =~= r.subrange(at, at + 3));
                assert(occurs_at(rest, p, at - 4));
            }
        }
    } else {
        let next = s.drop_first();
        let rest = replaced(next, p, w);
        lemma_no_url_after_replace(next);
        assert(r == seq![s[0]] + rest);
        if occurs(r, p) {
            let at = choose|at: int| occurs_at(r, p, at);
            assert(r.subrange(at, at + 3)[0] == r[at]);
            assert(r.subrange(at, at + 3)[1] == r[at + 1]);
            assert(r.subrange(at, at + 3)[2] == r[at + 2]);
            if at >= 1 {
                assert(rest.subrange(at - 1, at + 2) =~= r.subrange(at, at + 3));
                assert(occurs_at(rest, p, at - 1));
            } else {
                lemma_first_of_replaced(next);
                let after = next.drop_first();
                lemma_first_of_replaced(after);
                assert(rest[0] == '/' && rest[1] == '/');
                assert(rest.drop_first() =~= replaced(after, p, w));
                assert(s.take(3) =~= p);
            }
        }
    }
}

/// A text that keeps its first slash when it is replaced had it before.
proof fn lemma_first_of_replaced(s: Seq<char>)
    ensures
        ({
            let r = replaced(s, "://"@, ":\u{200b}//"@);
            r.len() > 0 && r[0] == '/' ==> s.len() > 0 && s[0] == '/' && r.drop_first()
                == replaced(s.drop_first(), "://"@, ":\u{200b}//"@)
        }),
{
    reveal_strlit("://");
    reveal_strlit(":\u{200b}//");
    let p = "://"@;
    let w = ":\u{200b}//"@;
    let r = replaced(s, p, w);
    if s.len() < 3 {
        assert(r == s);
        if s.len() > 0 {
            assert(replaced(s.drop_first(), p, w) == s.drop_first());
        }
    } else if s.take(3) == p {
        assert(r[0] == ':');
    } else {
        assert(r == seq![s[0]] + replaced(s.drop_first(), p, w));
        assert(r.drop_first() =~= replaced(s.drop_first(), p, w));
    }
}

/// No text of a model that is shown holds `://`, so none reads as a URL.
pub proof fn law_model_text_has_no_url(value: Seq<char>)
    ensures
        !occurs(safe_text(value), "://"@),
{
    lemma_no_url_after_replace(escaped(single_line(value)));
}

/// Only characters of the words and of the separator stand in joined words.
proof fn lemma_joined_free_of_control(parts: Seq<Seq<char>>)
    requires
        forall|i: int| 0 <= i < parts.len() ==> no_control(#[trigger] parts[i]),
    ensures
        no_control(joined(parts, " "@)),
    decreases parts.len(),
{
    reveal_strlit(" ");
    if parts.len() == 1 {
        assert(no_control(parts[0]));
    } else if parts.len() > 1 {
        let init = parts.drop_last();
        assert forall|i: int| 0 <= i < init.len() implies no_control(#[trigger] init[i]) by {
            assert(init[i] == parts[i]);
        }
        lemma_joined_free_of_control(init);
        assert(no_control(parts[parts.len() - 1]));
        let a = joined(init, " "@);
        let b = parts.last();
        let all = joined(parts, " "@);
        assert(all == a + " "@ + b);
        assert forall|i: int| 0 <= i < all.len() implies !control_code(#[trigger] all[i]) by {
            if i < a.len() {
                assert(all[i] == a[i]);
            } else if i == a.len() {
                assert(all[i] == ' ');
            } else {
                assert(all[i] == b[i - a.len() - 1]);
            }
        }
    }
}

/// Without control characters, and so without line breaks.
pub open spec fn no_control(s: Seq<char>) -> bool {
    forall|i: int| 0 <= i < s.len() ==> !control_code(#[trigger] s[i])
}

proof fn lemma_words_free_of_control(s: Seq<char>)
    requires
        no_control(s),
    ensures
        forall|i: int| 0 <= i < words(s).len() ==> no_control(#[trigger] words(s)[i]),
    decreases s.len(),
{
    if s.len() > 0 {
        let init = s.drop_last();
        assert forall|i: int| 0 <= i < init.len() implies !control_code(#[trigger] init[i]) by {
            assert(init[i] == s[i]);
        }
        lemma_words_free_of_control(init);
        let before = words(init);
        let last = s.last();
        assert(last == s[s.len() - 1]);
        assert(!control_code(last));
        let all = words(s);
        assert forall|i: int| 0 <= i < all.len() implies no_control(#[trigger] all[i]) by {
            if white_space(last) {
                assert(all[i] == before[i]);
            } else if s.len() == 1 || white_space(s[s.len() - 2]) {
                if i < before.len() {
                    assert(all[i] == before[i]);
                } else {
                    assert(all[i] == seq![last]);
                }
            } else {
                lemma_word_open(init);
                if i < before.len() - 1 {
                    assert(all[i] == before[i]);
                } else {
                    assert(no_control(before[before.len() - 1]));
                    assert(all[i] == before.last().push(last));
                }
            }
        }
    }
}

/// A text that ends in a word has words.
proof fn lemma_word_open(s: Seq<char>)
    requires
        s.len() > 0,
        !white_space(s.last()),
    ensures
        words(s).len() > 0,
{
}

proof fn lemma_escaped_free_of_control(s: Seq<char>)
    requires
        no_control(s),
    ensures
        no_control(escaped(s)),
    decreases s.len(),
{
    if s.len() > 0 {
        let init = s.drop_last();
        assert forall|i: int| 0 <= i < init.len() implies !control_code(#[trigger] init[i]) by {
            assert(init[i] == s[i]);
        }
        lemma_escaped_free_of_control(init);
        assert(!control_code(s[s.len() - 1]));
        let a = escaped(init);
        let b = escaped_char(s.last());
        assert forall|i: int| 0 <= i < (a + b).len() implies !control_code(
            #[trigger] (a + b)[i],
        ) by {
            if i < a.len() {
                assert((a + b)[i] == a[i]);
            } else {
                assert((a + b)[i] == b[i - a.len()]);
            }
        }
    }
}

proof fn lemma_replaced_free_of_control(s: Seq<char>, p: Seq<char>, w: Seq<char>)
    requires
        no_control(s),
        no_control(w),
    ensures
        no_control(replaced(s, p, w)),
    decreases s.len(),
{
    if p.len() == 0 || s.len() < p.len() {
    } else if s.take(p.len() as int) == p {
        let rest = s.skip(p.len() as int);
        assert forall|i: int| 0 <= i < rest.len() implies !control_code(#[trigger] rest[i]) by {
            assert(rest[i] == s[i + p.len()]);
        }
        lemma_replaced_free_of_control(rest, p, w);
        let r = replaced(rest, p, w);
        assert forall|i: int| 0 <= i < (w + r).len() implies !control_code(
            #[trigger] (w + r)[i],
        ) by {
            if i < w.len() {
                assert((w + r)[i] == w[i]);
            } else {
                assert((w + r)[i] == r[i - w.len()]);
            }
        }
    } else {
        let rest = s.drop_first();
        assert forall|i: int| 0 <= i < rest.len() implies !control_code(#[trigger] rest[i]) by {
            assert(rest[i] == s[i + 1]);
        }
        lemma_replaced_free_of_control(rest, p, w);
        let r = replaced(rest, p, w);
        let all = seq![s[0]] + r;
        assert forall|i: int| 0 <= i < all.len() implies !control_code(#[trigger] all[i]) by {
            if i > 0 {
                assert(all[i] == r[i - 1]);
            }
        }
    }
}

/// A text of a model is shown on one line: it holds no control character.
pub proof fn law_model_text_is_one_line(value: Seq<char>)
    ensures
        no_control(safe_text(value)),
        free_of(safe_text(value), '\n'),
        free_of(safe_text(value), '\r'),
{
    let plain = uncontrolled(value);
    assert(no_control(plain));
    lemma_words_free_of_control(plain);
    lemma_joined_free_of_control(words(plain));
    lemma_escaped_free_of_control(single_line(value));
    reveal_strlit(":\u{200b}//");
    assert(no_control(":\u{200b}//"@));
    lemma_replaced_free_of_control(escaped(single_line(value)), "://"@, ":\u{200b}//"@);
}

} // verus!
