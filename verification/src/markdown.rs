//! Markdown from text that a model wrote.
use crate::text::{
    after_prefix, around, before_suffix, byte_len, bytes_in, chars_of, join, joined,
    lemma_take_step, lemma_views_push, replace, replaced, split_lines, split_once, split_words,
    strip_prefix, strip_suffix, text_lines, trim, trimmed, views, words,
};
use vstd::prelude::*;
use vstd::string::*;

verus! {

/// The characters of the Unicode category `Cc`.
pub open spec fn control_code(c: char) -> bool {
    c as u32 <= 0x1f || 0x7f <= c as u32 <= 0x9f
}

/// `char::is_control` of std: whether the character is a control code.
pub assume_specification[ char::is_control ](c: char) -> (b: bool)
    ensures
        b == control_code(c),
;

/// Characters that mean something in Markdown.
pub open spec fn is_special(c: char) -> bool {
    ||| c == '\\'
    ||| c == '`'
    ||| c == '*'
    ||| c == '_'
    ||| c == '{'
    ||| c == '}'
    ||| c == '['
    ||| c == ']'
    ||| c == '('
    ||| c == ')'
    ||| c == '<'
    ||| c == '>'
    ||| c == '#'
    ||| c == '!'
    ||| c == '|'
}

pub open spec fn uncontrolled(s: Seq<char>) -> Seq<char> {
    s.map_values(
        |c: char|
            if control_code(c) {
                ' '
            } else {
                c
            },
    )
}

/// The words of a text on one line.
pub open spec fn single_line(s: Seq<char>) -> Seq<char> {
    joined(words(uncontrolled(s)), " "@)
}

pub open spec fn escaped_char(c: char) -> Seq<char> {
    if is_special(c) {
        seq!['\\', c]
    } else {
        seq![c]
    }
}

/// The text with a backslash before every special character.
pub open spec fn escaped(s: Seq<char>) -> Seq<char>
    decreases s.len(),
{
    if s.len() == 0 {
        Seq::empty()
    } else {
        escaped(s.drop_last()) + escaped_char(s.last())
    }
}

/// A text of a model as plain words: on one line, without Markdown and
/// without anything that reads as a URL.
pub open spec fn safe_text(value: Seq<char>) -> Seq<char> {
    replaced(escaped(single_line(value)), "://"@, ":\u{200b}//"@)
}

fn special(c: char) -> (r: bool)
    ensures
        r == is_special(c),
{
    c == '\\' || c == '`' || c == '*' || c == '_' || c == '{' || c == '}' || c == '[' || c == ']'
        || c == '(' || c == ')' || c == '<' || c == '>' || c == '#' || c == '!' || c == '|'
}

pub fn safe_model_markdown_text(value: &str) -> (r: String)
    ensures
        r@ == safe_text(value@),
{
    let chars = chars_of(value);
    let mut plain: String = String::new();
    let mut i: usize = 0;
    let ghost all = uncontrolled(value@);
    assert(plain@ =~= all.take(0));
    while i < chars.len()
        invariant
            chars@ == value@,
            all == uncontrolled(value@),
            i <= chars@.len(),
            plain@ == all.take(i as int),
        decreases chars@.len() - i,
    {
        proof {
            lemma_take_step(all, i as int);
        }
        let c = chars[i];
        plain.push(
            if c.is_control() {
                ' '
            } else {
                c
            },
        );
        i += 1;
    }
    assert(all.take(i as int) =~= all);
    let parts = split_words(plain.as_str());
    let line = chars_of(join(&parts, " ").as_str());
    let mut text: String = String::new();
    let mut k: usize = 0;
    assert(line@.take(0) =~= Seq::<char>::empty());
    assert(text@ =~= Seq::<char>::empty());
    while k < line.len()
        invariant
            k <= line@.len(),
            text@ == escaped(line@.take(k as int)),
        decreases line@.len() - k,
    {
        proof {
            lemma_take_step(line@, k as int);
        }
        let ghost before = text@;
        if special(line[k]) {
            text.push('\\');
        }
        text.push(line[k]);
        assert(text@ =~= before + escaped_char(line@[k as int]));
        k += 1;
    }
    assert(line@.take(k as int) =~= line@);
    proof {
        reveal_strlit("://");
    }
    replace(text.as_str(), "://", ":\u{200b}//")
}

/// A line with a label in bold, whose text is made plain.
pub open spec fn safe_line(line: Seq<char>) -> Seq<char> {
    match around(line, ":** "@) {
        Some((label, value)) => label + ":** "@ + safe_text(value),
        None => safe_text(line),
    }
}

pub fn safe_model_markdown_line(line: &str) -> (r: String)
    ensures
        r@ == safe_line(line@),
{
    match split_once(line, ":** ") {
        Some((label, value)) => {
            let mut r = label;
            r.push_str(":** ");
            r.push_str(safe_model_markdown_text(value.as_str()).as_str());
            r
        },
        None => safe_model_markdown_text(line),
    }
}

/// Characters that a link's name cannot hold.
pub open spec fn ends_wikilink(c: char) -> bool {
    c == '\r' || c == '\n' || c == '[' || c == ']'
}

/// Whether a text is a link to a note, and nothing else.
pub open spec fn is_wikilink(link: Seq<char>) -> bool {
    match after_prefix(link, "[["@) {
        Some(rest) => match before_suffix(rest, "]]"@) {
            Some(name) => {
                &&& trimmed(name).len() > 0
                &&& forall|i: int| 0 <= i < name.len() ==> !ends_wikilink(#[trigger] name[i])
                &&& byte_len(name) <= 512
            },
            None => false,
        },
        None => false,
    }
}

pub fn valid_wikilink(link: &str) -> (r: bool)
    ensures
        r == is_wikilink(link@),
{
    let rest = match strip_prefix(link, "[[") {
        Some(rest) => rest,
        None => {
            return false;
        },
    };
    let name = match strip_suffix(rest.as_str(), "]]") {
        Some(name) => name,
        None => {
            return false;
        },
    };
    let chars = chars_of(name.as_str());
    let mut i: usize = 0;
    while i < chars.len()
        invariant
            chars@ == name@,
            i <= chars@.len(),
            after_prefix(link@, "[["@) == Some(rest@),
            before_suffix(rest@, "]]"@) == Some(name@),
            forall|k: int| 0 <= k < i ==> !ends_wikilink(#[trigger] chars@[k]),
        decreases chars@.len() - i,
    {
        let c = chars[i];
        if c == '\r' || c == '\n' || c == '[' || c == ']' {
            assert(ends_wikilink(name@[i as int]));
            return false;
        }
        i += 1;
    }
    !trim(name.as_str()).as_str().is_empty() && bytes_in(name.as_str()) <= 512
}

/// The heading of a workstream, with its links.
pub open spec fn heading(title: Seq<char>, links: Seq<Seq<char>>) -> Seq<char> {
    if links.len() == 0 {
        "### "@ + title
    } else {
        "### "@ + joined(links, " · "@) + " — "@ + title
    }
}

pub fn workstream_heading(title: &str, links: &Vec<String>) -> (r: String)
    ensures
        r@ == heading(title@, views(links@)),
{
    assert(views(links@).len() == links@.len());
    let mut r = "### ".to_owned();
    if links.len() > 0 {
        r.push_str(join(links, " · ").as_str());
        r.push_str(" — ");
    }
    r.push_str(title);
    r
}

/// A line that is a third-level heading becomes one of the fourth level.
pub open spec fn demoted(line: Seq<char>) -> Seq<char> {
    match after_prefix(line, "### "@) {
        Some(rest) => "#### "@ + rest,
        None => line,
    }
}

pub open spec fn demoted_lines(lines: Seq<Seq<char>>) -> Seq<Seq<char>> {
    lines.map_values(|line: Seq<char>| demoted(line))
}

pub open spec fn with_demoted_headings(markdown: Seq<char>) -> Seq<char> {
    joined(demoted_lines(text_lines(markdown)), "\n"@)
}

pub fn demote_workstream_headings(markdown: &str) -> (r: String)
    ensures
        r@ == with_demoted_headings(markdown@),
{
    broadcast use lemma_views_push;
    let lines = split_lines(markdown);
    let ghost all = demoted_lines(text_lines(markdown@));
    let mut out: Vec<String> = Vec::new();
    let mut i: usize = 0;
    assert(views(out@) =~= all.take(0));
    while i < lines.len()
        invariant
            i <= lines@.len(),
            views(lines@) == text_lines(markdown@),
            all == demoted_lines(text_lines(markdown@)),
            views(out@) == all.take(i as int),
        decreases lines@.len() - i,
    {
        proof {
            lemma_take_step(all, i as int);
            assert(lines@[i as int]@ == views(lines@)[i as int]);
        }
        match strip_prefix(lines[i].as_str(), "### ") {
            Some(rest) => {
                let mut line = "#### ".to_owned();
                line.push_str(rest.as_str());
                out.push(line);
            },
            None => {
                out.push(lines[i].as_str().to_owned());
            },
        }
        i += 1;
    }
    assert(all.take(i as int) =~= all);
    join(&out, "\n")
}

} // verus!
