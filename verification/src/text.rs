//! Text primitives. A text is modelled by its sequence of characters.
use vstd::prelude::*;
use vstd::string::*;
use vstd::utf8::*;

verus! {

/// The characters with the Unicode property `White_Space`.
pub open spec fn white_space(c: char) -> bool {
    let n = c as u32;
    ||| 0x09 <= n <= 0x0d
    ||| n == 0x20
    ||| n == 0x85
    ||| n == 0xa0
    ||| n == 0x1680
    ||| 0x2000 <= n <= 0x200a
    ||| n == 0x2028
    ||| n == 0x2029
    ||| n == 0x202f
    ||| n == 0x205f
    ||| n == 0x3000
}

/// `char::is_whitespace` of std: whether the character has the property
/// `White_Space`.
pub assume_specification[ char::is_whitespace ](c: char) -> (b: bool)
    ensures
        b == white_space(c),
;

/// `String::push` of std: appends one character.
pub assume_specification[ String::push ](s: &mut String, c: char)
    ensures
        final(s)@ == old(s)@.push(c),
;

/// `String::push_str` of std: appends a text.
pub assume_specification[ String::push_str ](s: &mut String, t: &str)
    ensures
        final(s)@ == old(s)@ + t@,
;

/// `==` of std on `str`: the same characters in the same order.
pub assume_specification[ <str as PartialEq<str>>::eq ](a: &str, b: &str) -> (r: bool)
    ensures
        r == (a@ == b@),
;

pub fn chars_of(s: &str) -> (r: Vec<char>)
    ensures
        r@ == s@,
{
    let mut r: Vec<char> = Vec::new();
    for c in it: s.chars()
        invariant
            it.seq() == s@,
            r@ == s@.take(it.index() as int),
    {
        r.push(c);
        assert(r@ =~= s@.take(it.index() + 1));
    }
    assert(s@.take(s@.len() as int) =~= s@);
    r
}

pub fn str_eq(a: &str, b: &str) -> (r: bool)
    ensures
        r == (a@ == b@),
{
    *a == *b
}


/// The texts of a list of strings.
pub open spec fn views(v: Seq<String>) -> Seq<Seq<char>> {
    v.map_values(|s: String| s@)
}

pub broadcast proof fn lemma_views_push(v: Seq<String>, s: String)
    ensures
        #[trigger] views(v.push(s)) == views(v).push(s@),
{
    assert(views(v.push(s)) =~= views(v).push(s@));
}

/// How a longer prefix of a sequence comes from a shorter one.
pub proof fn lemma_take_step<T>(s: Seq<T>, i: int)
    requires
        0 <= i < s.len(),
    ensures
        s.take(i + 1) == s.take(i).push(s[i]),
        s.take(i + 1).drop_last() == s.take(i),
        s.take(i + 1).last() == s[i],
        i + 1 == s.len() ==> s.take(i + 1) == s,
{
    assert(s.take(i + 1) =~= s.take(i).push(s[i]));
    assert(s.take(i + 1).drop_last() =~= s.take(i));
    if i + 1 == s.len() {
        assert(s.take(i + 1) =~= s);
    }
}

/// The text of an optional string.
pub open spec fn opt_text(o: Option<String>) -> Option<Seq<char>> {
    match o {
        Some(s) => Some(s@),
        None => None,
    }
}

/// The texts of a list, one after the other.
pub open spec fn concat(parts: Seq<Seq<char>>) -> Seq<char>
    decreases parts.len(),
{
    if parts.len() == 0 {
        Seq::empty()
    } else {
        concat(parts.drop_last()) + parts.last()
    }
}

pub proof fn lemma_concat_add(a: Seq<Seq<char>>, b: Seq<Seq<char>>)
    ensures
        concat(a + b) == concat(a) + concat(b),
    decreases b.len(),
{
    if b.len() == 0 {
        assert(a + b =~= a);
        assert(concat(a) + concat(b) =~= concat(a));
    } else {
        assert((a + b).drop_last() =~= a + b.drop_last());
        lemma_concat_add(a, b.drop_last());
        assert(concat(a + b) =~= concat(a) + concat(b));
    }
}

pub proof fn lemma_concat_one(a: Seq<char>)
    ensures
        concat(seq![a]) == a,
{
    assert(seq![a].drop_last() =~= Seq::<Seq<char>>::empty());
    assert(concat(seq![a].drop_last()) =~= Seq::<char>::empty());
    assert(concat(seq![a]) =~= a);
}

/// The text without its leading white space.
pub open spec fn trim_start(s: Seq<char>) -> Seq<char>
    decreases s.len(),
{
    if s.len() > 0 && white_space(s[0]) {
        trim_start(s.drop_first())
    } else {
        s
    }
}

/// The text without its trailing white space.
pub open spec fn trim_end(s: Seq<char>) -> Seq<char>
    decreases s.len(),
{
    if s.len() > 0 && white_space(s.last()) {
        trim_end(s.drop_last())
    } else {
        s
    }
}

/// The text without white space at either end.
pub open spec fn trimmed(s: Seq<char>) -> Seq<char> {
    trim_end(trim_start(s))
}

/// The text without the line breaks at its end.
pub open spec fn trim_line_end(s: Seq<char>) -> Seq<char>
    decreases s.len(),
{
    if s.len() > 0 && (s.last() == '\r' || s.last() == '\n') {
        trim_line_end(s.drop_last())
    } else {
        s
    }
}

pub fn string_of(chars: &Vec<char>, from: usize, to: usize) -> (r: String)
    requires
        from <= to <= chars@.len(),
    ensures
        r@ == chars@.subrange(from as int, to as int),
{
    let mut r: String = String::new();
    let mut i: usize = from;
    while i < to
        invariant
            from <= i <= to <= chars@.len(),
            r@ == chars@.subrange(from as int, i as int),
        decreases to - i,
    {
        r.push(chars[i]);
        assert(r@ =~= chars@.subrange(from as int, i + 1));
        i += 1;
    }
    r
}

/// Where the text without its leading white space starts.
fn start_of(chars: &Vec<char>) -> (i: usize)
    ensures
        i <= chars@.len(),
        trim_start(chars@) == chars@.skip(i as int),
{
    let mut i: usize = 0;
    assert(chars@.skip(0) =~= chars@);
    while i < chars.len() && chars[i].is_whitespace()
        invariant
            i <= chars@.len(),
            trim_start(chars@) == trim_start(chars@.skip(i as int)),
        decreases chars@.len() - i,
    {
        assert(chars@.skip(i as int).drop_first() =~= chars@.skip(i + 1));
        i += 1;
    }
    i
}

pub fn trim(s: &str) -> (r: String)
    ensures
        r@ == trimmed(s@),
{
    let chars = chars_of(s);
    let from: usize = start_of(&chars);
    let mut to: usize = chars.len();
    assert(chars@.subrange(from as int, to as int) =~= chars@.skip(from as int));
    while from < to && chars[to - 1].is_whitespace()
        invariant
            from <= to <= chars@.len(),
            trimmed(chars@) == trim_end(chars@.subrange(from as int, to as int)),
        decreases to,
    {
        assert(chars@.subrange(from as int, to as int).drop_last() =~= chars@.subrange(
            from as int,
            to - 1,
        ));
        to -= 1;
    }
    string_of(&chars, from, to)
}

pub fn without_line_end(s: &str) -> (r: String)
    ensures
        r@ == trim_line_end(s@),
{
    let chars = chars_of(s);
    let mut to: usize = chars.len();
    assert(chars@.subrange(0, to as int) =~= chars@);
    while 0 < to && (chars[to - 1] == '\r' || chars[to - 1] == '\n')
        invariant
            to <= chars@.len(),
            trim_line_end(chars@) == trim_line_end(chars@.subrange(0, to as int)),
        decreases to,
    {
        assert(chars@.subrange(0, to as int).drop_last() =~= chars@.subrange(0, to - 1));
        to -= 1;
    }
    string_of(&chars, 0, to)
}

/// Whether `s` begins with `p`.
pub open spec fn begins_with(s: Seq<char>, p: Seq<char>) -> bool {
    p.len() <= s.len() && s.take(p.len() as int) == p
}

/// Whether `s` finishes with `p`.
pub open spec fn finishes_with(s: Seq<char>, p: Seq<char>) -> bool {
    p.len() <= s.len() && s.skip(s.len() - p.len()) == p
}

/// Whether `p` stands in `s` at `at`.
pub open spec fn occurs_at(s: Seq<char>, p: Seq<char>, at: int) -> bool {
    0 <= at && at + p.len() <= s.len() && s.subrange(at, at + p.len()) == p
}

/// Whether `p` stands somewhere in `s`.
pub open spec fn occurs(s: Seq<char>, p: Seq<char>) -> bool {
    exists|at: int| occurs_at(s, p, at)
}

fn matches_at(s: &Vec<char>, p: &Vec<char>, at: usize) -> (r: bool)
    ensures
        r == occurs_at(s@, p@, at as int),
{
    let n: usize = s.len();
    if n < p.len() || n - p.len() < at {
        return false;
    }
    let mut i: usize = 0;
    while i < p.len()
        invariant
            i <= p@.len(),
            n == s@.len(),
            at + p@.len() <= s@.len(),
            s@.subrange(at as int, at + i) == p@.take(i as int),
        decreases p@.len() - i,
    {
        if s[at + i] != p[i] {
            assert(s@.subrange(at as int, at + p@.len())[i as int] != p@[i as int]);
            return false;
        }
        i += 1;
        assert(s@.subrange(at as int, at + i) =~= p@.take(i as int));
    }
    assert(p@.take(p@.len() as int) =~= p@);
    true
}

pub fn starts_with(s: &str, p: &str) -> (r: bool)
    ensures
        r == begins_with(s@, p@),
{
    let sc = chars_of(s);
    let pc = chars_of(p);
    let r = matches_at(&sc, &pc, 0);
    proof {
        if p@.len() <= s@.len() {
            assert(s@.subrange(0, p@.len() as int) =~= s@.take(p@.len() as int));
        }
    }
    r
}

pub fn ends_with(s: &str, p: &str) -> (r: bool)
    ensures
        r == finishes_with(s@, p@),
{
    let sc = chars_of(s);
    let pc = chars_of(p);
    if sc.len() < pc.len() {
        return false;
    }
    let at: usize = sc.len() - pc.len();
    let r = matches_at(&sc, &pc, at);
    proof {
        assert(s@.subrange(at as int, at + p@.len()) =~= s@.skip(s@.len() - p@.len()));
    }
    r
}

/// The first place at or after `from` where `p` stands in `s`.
pub open spec fn first_at(s: Seq<char>, p: Seq<char>, from: int, at: int) -> bool {
    &&& from <= at
    &&& occurs_at(s, p, at)
    &&& forall|k: int| from <= k < at ==> !occurs_at(s, p, k)
}

fn find_from(s: &Vec<char>, p: &Vec<char>, from: usize) -> (r: Option<usize>)
    ensures
        match r {
            Some(at) => first_at(s@, p@, from as int, at as int),
            None => forall|k: int| from <= k ==> !occurs_at(s@, p@, k),
        },
{
    let mut i: usize = from;
    while i < s.len()
        invariant
            from <= i,
            forall|k: int| from <= k < i ==> !occurs_at(s@, p@, k),
        decreases s@.len() - i,
    {
        if matches_at(s, p, i) {
            return Some(i);
        }
        i += 1;
    }
    if matches_at(s, p, i) {
        return Some(i);
    }
    assert forall|k: int| from <= k implies !occurs_at(s@, p@, k) by {
        if i < k {
            assert(k > s@.len());
        }
    }
    None
}

pub fn contains(s: &str, p: &str) -> (r: bool)
    ensures
        r == occurs(s@, p@),
{
    let sc = chars_of(s);
    let pc = chars_of(p);
    match find_from(&sc, &pc, 0) {
        Some(at) => {
            assert(occurs_at(s@, p@, at as int));
            true
        },
        None => false,
    }
}

/// The lines of a text, each with its line break.
pub open spec fn full_lines(s: Seq<char>) -> Seq<Seq<char>>
    decreases s.len(),
{
    if s.len() == 0 {
        Seq::empty()
    } else {
        let before = full_lines(s.drop_last());
        if before.len() == 0 || before.last().last() == '\n' {
            before.push(seq![s.last()])
        } else {
            before.drop_last().push(before.last().push(s.last()))
        }
    }
}

pub fn split_full_lines(s: &str) -> (r: Vec<String>)
    ensures
        views(r@) == full_lines(s@),
{
    broadcast use lemma_views_push;
    let chars = chars_of(s);
    let mut r: Vec<String> = Vec::new();
    let mut line: String = String::new();
    let mut i: usize = 0;
    assert(views(r@) =~= Seq::<Seq<char>>::empty());
    assert(chars@.take(0) =~= Seq::<char>::empty());
    while i < chars.len()
        invariant
            i <= chars@.len(),
            line@.len() == 0 ==> views(r@) == full_lines(chars@.take(i as int)),
            line@.len() == 0 ==> r@.len() == 0 || views(r@).last().last() == '\n',
            line@.len() > 0 ==> line@.last() != '\n',
            line@.len() > 0 ==> views(r@).push(line@) == full_lines(chars@.take(i as int)),
        decreases chars@.len() - i,
    {
        let c = chars[i];
        let ghost before = chars@.take(i as int);
        let ghost after = chars@.take(i + 1);
        let ghost old_line = line@;
        assert(after.drop_last() =~= before);
        line.push(c);
        proof {
            if old_line.len() == 0 {
                assert(line@ =~= seq![c]);
            } else {
                assert(full_lines(before).drop_last() =~= views(r@));
            }
            assert(full_lines(after) == views(r@).push(line@));
        }
        if c == '\n' {
            r.push(line);
            line = String::new();
        }
        i += 1;
    }
    assert(chars@.take(chars@.len() as int) =~= s@);
    if line.as_str().is_empty() {
        r
    } else {
        r.push(line);
        r
    }
}


/// The text with every occurrence of `p`, found from left to right, replaced.
pub open spec fn replaced(s: Seq<char>, p: Seq<char>, with: Seq<char>) -> Seq<char>
    decreases s.len(),
{
    if p.len() == 0 || s.len() < p.len() {
        s
    } else if s.take(p.len() as int) == p {
        with + replaced(s.skip(p.len() as int), p, with)
    } else {
        seq![s[0]] + replaced(s.drop_first(), p, with)
    }
}

pub fn replace(s: &str, p: &str, with: &str) -> (r: String)
    requires
        p@.len() > 0,
    ensures
        r@ == replaced(s@, p@, with@),
{
    let sc = chars_of(s);
    let pc = chars_of(p);
    let mut r: String = String::new();
    let mut i: usize = 0;
    assert(s@.skip(0) =~= s@);
    assert(r@ + replaced(s@, p@, with@) =~= replaced(s@, p@, with@));
    while i < sc.len()
        invariant
            sc@ == s@,
            pc@ == p@,
            p@.len() > 0,
            i <= sc@.len(),
            replaced(s@, p@, with@) == r@ + replaced(s@.skip(i as int), p@, with@),
        decreases sc@.len() - i,
    {
        let ghost rest = s@.skip(i as int);
        let ghost done = r@;
        let here = matches_at(&sc, &pc, i);
        proof {
            if p@.len() <= rest.len() {
                assert(rest.take(p@.len() as int) =~= s@.subrange(i as int, i + p@.len()));
            }
        }
        if here {
            r.push_str(with);
            i += pc.len();
            assert(rest.skip(p@.len() as int) =~= s@.skip(i as int));
            assert(done + (with@ + replaced(s@.skip(i as int), p@, with@)) =~= r@ + replaced(
                s@.skip(i as int),
                p@,
                with@,
            ));
        } else {
            r.push(sc[i]);
            i += 1;
            assert(rest.drop_first() =~= s@.skip(i as int));
            proof {
                if rest.len() < p@.len() {
                    assert(replaced(s@.skip(i as int), p@, with@) == s@.skip(i as int));
                }
            }
            assert(done + replaced(rest, p@, with@) =~= r@ + replaced(
                s@.skip(i as int),
                p@,
                with@,
            ));
        }
    }
    assert(s@.skip(i as int) =~= Seq::<char>::empty());
    assert(r@ + replaced(s@.skip(i as int), p@, with@) =~= r@);
    r
}

/// A line without its line break, `\n` or `\r\n`.
pub open spec fn line_content(line: Seq<char>) -> Seq<char> {
    if line.len() > 0 && line.last() == '\n' {
        let bare = line.drop_last();
        if bare.len() > 0 && bare.last() == '\r' {
            bare.drop_last()
        } else {
            bare
        }
    } else {
        line
    }
}

/// The lines of a text, without their line breaks.
pub open spec fn text_lines(s: Seq<char>) -> Seq<Seq<char>> {
    full_lines(s).map_values(|line: Seq<char>| line_content(line))
}

pub fn split_lines(s: &str) -> (r: Vec<String>)
    ensures
        views(r@) == text_lines(s@),
{
    broadcast use lemma_views_push;
    let full = split_full_lines(s);
    let mut r: Vec<String> = Vec::new();
    let mut k: usize = 0;
    assert(views(r@) =~= text_lines(s@).take(0));
    while k < full.len()
        invariant
            k <= full@.len(),
            views(full@) == full_lines(s@),
            views(r@) == text_lines(s@).take(k as int),
        decreases full@.len() - k,
    {
        let line = chars_of(full[k].as_str());
        assert(line@ == views(full@)[k as int]);
        let mut to: usize = line.len();
        if 0 < to && line[to - 1] == '\n' {
            to -= 1;
            assert(line@.subrange(0, to as int) =~= line@.drop_last());
            if 0 < to && line[to - 1] == '\r' {
                to -= 1;
                assert(line@.subrange(0, to as int) =~= line@.drop_last().drop_last());
            }
        } else {
            assert(line@.subrange(0, to as int) =~= line@);
        }
        let content = string_of(&line, 0, to);
        assert(content@ == line_content(line@));
        let ghost all = text_lines(s@);
        assert(all[k as int] == content@);
        assert(all.take(k + 1) =~= all.take(k as int).push(content@));
        r.push(content);
        k += 1;
    }
    assert(text_lines(s@).take(k as int) =~= text_lines(s@));
    r
}

/// The pieces of a text between the occurrences of `c`.
pub open spec fn pieces(s: Seq<char>, c: char) -> Seq<Seq<char>>
    decreases s.len(),
{
    if s.len() == 0 {
        seq![Seq::empty()]
    } else {
        let before = pieces(s.drop_last(), c);
        if s.last() == c {
            before.push(Seq::empty())
        } else {
            before.drop_last().push(before.last().push(s.last()))
        }
    }
}

pub fn split_char(s: &str, c: char) -> (r: Vec<String>)
    ensures
        views(r@) == pieces(s@, c),
        r@.len() > 0,
{
    broadcast use lemma_views_push;
    let chars = chars_of(s);
    let mut r: Vec<String> = Vec::new();
    let mut piece: String = String::new();
    let mut i: usize = 0;
    assert(chars@.take(0) =~= Seq::<char>::empty());
    assert(views(r@).push(piece@) =~= pieces(chars@.take(0), c));
    while i < chars.len()
        invariant
            i <= chars@.len(),
            views(r@).push(piece@) == pieces(chars@.take(i as int), c),
        decreases chars@.len() - i,
    {
        let ghost before = chars@.take(i as int);
        let ghost after = chars@.take(i + 1);
        assert(after.drop_last() =~= before);
        assert(pieces(before, c).drop_last() =~= views(r@));
        if chars[i] == c {
            r.push(piece);
            piece = String::new();
            assert(piece@ =~= Seq::<char>::empty());
        } else {
            piece.push(chars[i]);
        }
        i += 1;
    }
    assert(chars@.take(chars@.len() as int) =~= s@);
    r.push(piece);
    r
}

/// The words of a text: its longest runs without white space.
pub open spec fn words(s: Seq<char>) -> Seq<Seq<char>>
    decreases s.len(),
{
    if s.len() == 0 {
        Seq::empty()
    } else {
        let before = words(s.drop_last());
        if white_space(s.last()) {
            before
        } else if s.len() == 1 || white_space(s[s.len() - 2]) {
            before.push(seq![s.last()])
        } else {
            before.drop_last().push(before.last().push(s.last()))
        }
    }
}

pub fn split_words(s: &str) -> (r: Vec<String>)
    ensures
        views(r@) == words(s@),
{
    broadcast use lemma_views_push;
    let chars = chars_of(s);
    let mut r: Vec<String> = Vec::new();
    let mut word: String = String::new();
    let mut i: usize = 0;
    assert(views(r@) =~= Seq::<Seq<char>>::empty());
    assert(chars@.take(0) =~= Seq::<char>::empty());
    while i < chars.len()
        invariant
            i <= chars@.len(),
            (word@.len() == 0) == (i == 0 || white_space(chars@[i - 1])),
            word@.len() == 0 ==> views(r@) == words(chars@.take(i as int)),
            word@.len() > 0 ==> views(r@).push(word@) == words(chars@.take(i as int)),
        decreases chars@.len() - i,
    {
        let c = chars[i];
        let ghost before = chars@.take(i as int);
        let ghost after = chars@.take(i + 1);
        assert(after.drop_last() =~= before);
        if c.is_whitespace() {
            if !word.as_str().is_empty() {
                r.push(word);
                word = String::new();
            }
        } else {
            let ghost old_word = word@;
            word.push(c);
            proof {
                if old_word.len() == 0 {
                    assert(word@ =~= seq![c]);
                } else {
                    assert(words(before).drop_last() =~= views(r@));
                }
            }
        }
        i += 1;
    }
    assert(chars@.take(chars@.len() as int) =~= s@);
    if !word.as_str().is_empty() {
        r.push(word);
    }
    r
}

/// The texts of a list with `sep` between neighbours.
pub open spec fn joined(parts: Seq<Seq<char>>, sep: Seq<char>) -> Seq<char>
    decreases parts.len(),
{
    if parts.len() == 0 {
        Seq::empty()
    } else if parts.len() == 1 {
        parts[0]
    } else {
        joined(parts.drop_last(), sep) + sep + parts.last()
    }
}

pub fn join(parts: &Vec<String>, sep: &str) -> (r: String)
    ensures
        r@ == joined(views(parts@), sep@),
{
    let mut r: String = String::new();
    let mut i: usize = 0;
    assert(views(parts@).take(0) =~= Seq::<Seq<char>>::empty());
    while i < parts.len()
        invariant
            i <= parts@.len(),
            r@ == joined(views(parts@).take(i as int), sep@),
        decreases parts@.len() - i,
    {
        let ghost done = r@;
        if i > 0 {
            r.push_str(sep);
        }
        r.push_str(parts[i].as_str());
        assert(views(parts@).take(i + 1).drop_last() =~= views(parts@).take(i as int));
        assert(views(parts@).take(i + 1).last() == parts@[i as int]@);
        proof {
            if i == 0 {
                assert(r@ =~= parts@[0]@);
            }
        }
        i += 1;
    }
    assert(views(parts@).take(i as int) =~= views(parts@));
    r
}

/// The character of a decimal digit.
pub open spec fn digit(n: nat) -> char {
    (n + 48) as char
}

/// The decimal digits of a number, without leading zeros.
pub open spec fn decimal(n: nat) -> Seq<char>
    decreases n,
{
    if n < 10 {
        seq![digit(n)]
    } else {
        decimal(n / 10).push(digit(n % 10))
    }
}

fn digit_char(n: u64) -> (c: char)
    requires
        n < 10,
    ensures
        c == digit(n as nat),
{
    let d: u8 = n as u8;
    (d + 48) as char
}

pub fn decimal_text(n: u64) -> (r: String)
    ensures
        r@ == decimal(n as nat),
    decreases n,
{
    if n < 10 {
        let mut r: String = String::new();
        r.push(digit_char(n));
        assert(r@ =~= seq![digit(n as nat)]);
        r
    } else {
        let mut r = decimal_text(n / 10);
        r.push(digit_char(n % 10));
        r
    }
}


pub fn concat_range(parts: &Vec<String>, from: usize, to: usize) -> (r: String)
    requires
        from <= to <= parts@.len(),
    ensures
        r@ == concat(views(parts@).subrange(from as int, to as int)),
{
    let mut r: String = String::new();
    let mut i: usize = from;
    let ghost all = views(parts@);
    assert(all.subrange(from as int, from as int) =~= Seq::<Seq<char>>::empty());
    while i < to
        invariant
            from <= i <= to <= parts@.len(),
            all == views(parts@),
            r@ == concat(all.subrange(from as int, i as int)),
        decreases to - i,
    {
        r.push_str(parts[i].as_str());
        assert(all.subrange(from as int, i + 1).drop_last() =~= all.subrange(
            from as int,
            i as int,
        ));
        i += 1;
    }
    r
}


/// Lines as `full_lines` gives them: each has text, a line break only at its
/// end, and only the last one may lack it.
pub open spec fn well_split(ls: Seq<Seq<char>>) -> bool {
    &&& forall|i: int| 0 <= i < ls.len() ==> (#[trigger] ls[i]).len() > 0
    &&& forall|i: int, j: int|
        0 <= i < ls.len() && 0 <= j < ls[i].len() - 1 ==> #[trigger] ls[i][j] != '\n'
    &&& forall|i: int| 0 <= i < ls.len() - 1 ==> (#[trigger] ls[i]).last() == '\n'
}

/// Whether a text is empty or ends in a line break.
pub open spec fn at_line_start(s: Seq<char>) -> bool {
    s.len() == 0 || s.last() == '\n'
}

/// Splitting into lines loses nothing.
pub proof fn lemma_full_lines(s: Seq<char>)
    ensures
        well_split(full_lines(s)),
        concat(full_lines(s)) == s,
        s.len() > 0 ==> full_lines(s).len() > 0 && full_lines(s).last().last() == s.last(),
    decreases s.len(),
{
    if s.len() > 0 {
        let before = full_lines(s.drop_last());
        lemma_full_lines(s.drop_last());
        let after = full_lines(s);
        if before.len() == 0 || before.last().last() == '\n' {
            assert(after.drop_last() =~= before);
            assert(concat(after) =~= s);
            assert(well_split(after)) by {
                assert forall|i: int| 0 <= i < after.len() - 1 implies (#[trigger] after[i]).last()
                    == '\n' by {
                    if i < before.len() - 1 {
                        assert(before[i].last() == '\n');
                    }
                }
                assert forall|i: int, j: int|
                    0 <= i < after.len() && 0 <= j < after[i].len() - 1 implies #[trigger] after[i][j]
                    != '\n' by {
                    if i < before.len() {
                        assert(before[i][j] != '\n');
                    }
                }
            }
        } else {
            assert(after.drop_last() =~= before.drop_last());
            assert(after.last() == before.last().push(s.last()));
            assert(concat(before) == concat(before.drop_last()) + before.last());
            assert(concat(after) =~= concat(before).push(s.last()));
            assert(concat(after) =~= s);
            assert(well_split(after)) by {
                assert forall|i: int| 0 <= i < after.len() - 1 implies (#[trigger] after[i]).last()
                    == '\n' by {
                    assert(before[i].last() == '\n');
                }
                assert forall|i: int, j: int|
                    0 <= i < after.len() && 0 <= j < after[i].len() - 1 implies #[trigger] after[i][j]
                    != '\n' by {
                    if i < before.len() - 1 {
                        assert(before[i][j] != '\n');
                    } else {
                        assert(after[i].drop_last() =~= before.last());
                        assert(after[i][j] == before[i][j]);
                        if j < before[i].len() - 1 {
                            assert(before[i][j] != '\n');
                        }
                    }
                }
            }
        }
    } else {
        assert(concat(full_lines(s)) =~= s);
    }
}

/// Texts that meet at a line start split into lines on their own.
pub proof fn lemma_full_lines_add(a: Seq<char>, b: Seq<char>)
    requires
        at_line_start(a),
    ensures
        full_lines(a + b) == full_lines(a) + full_lines(b),
    decreases b.len(),
{
    if b.len() == 0 {
        assert(a + b =~= a);
        assert(full_lines(a) + full_lines(b) =~= full_lines(a));
    } else {
        assert((a + b).drop_last() =~= a + b.drop_last());
        lemma_full_lines_add(a, b.drop_last());
        lemma_full_lines(a);
        lemma_full_lines(b.drop_last());
        let head = full_lines(a);
        let before = full_lines(b.drop_last());
        if before.len() == 0 {
            assert(head + before =~= head);
        } else {
            assert((head + before).last() == before.last());
            assert((head + before).drop_last() =~= head + before.drop_last());
        }
        assert(full_lines(a + b) =~= head + full_lines(b));
    }
}

/// A line is its own only line.
pub proof fn lemma_full_lines_one(line: Seq<char>)
    requires
        line.len() > 0,
        forall|j: int| 0 <= j < line.len() - 1 ==> #[trigger] line[j] != '\n',
    ensures
        full_lines(line) == seq![line],
    decreases line.len(),
{
    let init = line.drop_last();
    if line.len() == 1 {
        assert(full_lines(init) =~= Seq::<Seq<char>>::empty());
        assert(line =~= seq![line.last()]);
        assert(full_lines(line) =~= seq![line]);
    } else {
        assert forall|j: int| 0 <= j < init.len() - 1 implies #[trigger] init[j] != '\n' by {
            assert(line[j] != '\n');
        }
        lemma_full_lines_one(init);
        assert(line[line.len() - 2] != '\n');
        assert(init.push(line.last()) =~= line);
        assert(full_lines(init).last() == init);
        assert(full_lines(line) =~= seq![line]);
    }
}

/// Lines put together split into the same lines again.
pub proof fn lemma_full_lines_of_concat(ls: Seq<Seq<char>>)
    requires
        well_split(ls),
    ensures
        full_lines(concat(ls)) == ls,
        ls.len() > 0 ==> concat(ls).len() > 0 && concat(ls).last() == ls.last().last(),
    decreases ls.len(),
{
    if ls.len() == 0 {
        assert(full_lines(concat(ls)) =~= ls);
    } else {
        let init = ls.drop_last();
        assert(well_split(init)) by {
            assert forall|i: int| 0 <= i < init.len() implies (#[trigger] init[i]).len() > 0 by {
                assert(ls[i].len() > 0);
            }
            assert forall|i: int, j: int|
                0 <= i < init.len() && 0 <= j < init[i].len() - 1 implies #[trigger] init[i][j]
                != '\n' by {
                assert(ls[i][j] != '\n');
            }
            assert forall|i: int| 0 <= i < init.len() - 1 implies (#[trigger] init[i]).last()
                == '\n' by {
                assert(ls[i].last() == '\n');
            }
        }
        lemma_full_lines_of_concat(init);
        if init.len() > 0 {
            assert(ls[init.len() - 1].last() == '\n');
        }
        lemma_full_lines_add(concat(init), ls.last());
        assert(ls.last() == ls[ls.len() - 1]);
        assert(ls.last().len() > 0);
        lemma_full_lines_one(ls.last());
        assert(full_lines(concat(ls)) =~= ls);
    }
}

/// Only white space.
pub open spec fn is_blank(s: Seq<char>) -> bool {
    forall|i: int| 0 <= i < s.len() ==> white_space(#[trigger] s[i])
}

pub proof fn lemma_trim_end_blank(s: Seq<char>, blank: Seq<char>)
    requires
        is_blank(blank),
    ensures
        trim_end(s + blank) == trim_end(s),
    decreases blank.len(),
{
    if blank.len() == 0 {
        assert(s + blank =~= s);
    } else {
        assert(white_space(blank[blank.len() - 1]));
        assert((s + blank).drop_last() =~= s + blank.drop_last());
        assert(is_blank(blank.drop_last())) by {
            assert forall|i: int| 0 <= i < blank.len() - 1 implies white_space(
                #[trigger] blank.drop_last()[i],
            ) by {
                assert(white_space(blank[i]));
            }
        }
        lemma_trim_end_blank(s, blank.drop_last());
    }
}

/// White space at the end does not change the trimmed text.
pub proof fn lemma_trimmed_blank(s: Seq<char>, blank: Seq<char>)
    requires
        is_blank(blank),
    ensures
        trimmed(s + blank) == trimmed(s),
    decreases s.len() + blank.len(),
{
    if s.len() == 0 {
        assert(s + blank =~= blank);
        if blank.len() > 0 {
            assert(white_space(blank[0]));
            let rest = blank.drop_first();
            assert(is_blank(rest)) by {
                assert forall|i: int| 0 <= i < rest.len() implies white_space(#[trigger] rest[i]) by {
                    assert(white_space(blank[i + 1]));
                }
            }
            lemma_trimmed_blank(s, rest);
            assert(s + rest =~= rest);
        }
    } else if white_space(s[0]) {
        assert((s + blank).drop_first() =~= s.drop_first() + blank);
        lemma_trimmed_blank(s.drop_first(), blank);
    } else {
        lemma_trim_end_blank(s, blank);
    }
}

/// A text that starts and ends in other characters is its own trimmed text.
pub proof fn lemma_trimmed_same(s: Seq<char>)
    requires
        s.len() > 0 ==> !white_space(s[0]) && !white_space(s.last()),
    ensures
        trimmed(s) == s,
{
}


/// Whether `c` stands nowhere in a text.
pub open spec fn free_of(s: Seq<char>, c: char) -> bool {
    forall|i: int| 0 <= i < s.len() ==> #[trigger] s[i] != c
}

/// Replacing does not bring in a character that the replacement lacks, and
/// replacing a character removes it.
pub proof fn lemma_replaced_free_of(s: Seq<char>, p: Seq<char>, with: Seq<char>, c: char)
    requires
        free_of(with, c),
        free_of(s, c) || p == seq![c],
    ensures
        free_of(replaced(s, p, with), c),
    decreases s.len(),
{
    if p.len() == 0 || s.len() < p.len() {
    } else if s.take(p.len() as int) == p {
        let rest = s.skip(p.len() as int);
        assert(free_of(s, c) ==> free_of(rest, c));
        lemma_replaced_free_of(rest, p, with, c);
    } else {
        let rest = s.drop_first();
        assert(free_of(s, c) ==> free_of(rest, c));
        lemma_replaced_free_of(rest, p, with, c);
        if p == seq![c] && s[0] == c {
            assert(s.take(1) =~= p);
        }
    }
}


/// The lower case of a text, as Unicode maps it.
pub uninterp spec fn lowercased(s: Seq<char>) -> Seq<char>;

/// Whether no capital letter of ASCII stands in a text.
pub open spec fn no_ascii_capital(s: Seq<char>) -> bool {
    forall|i: int| 0 <= i < s.len() ==> !('A' <= #[trigger] s[i] <= 'Z')
}

/// `str::to_lowercase` of std: the lower case of the text, in which no capital
/// letter of ASCII is left.
#[verifier::external_body]
pub(crate) fn lowercase(s: &str) -> (r: String)
    ensures
        r@ == lowercased(s@),
        no_ascii_capital(r@),
{
    s.to_lowercase()
}

pub open spec fn is_digit(c: char) -> bool {
    '0' <= c <= '9'
}

/// Only ASCII digits.
pub open spec fn is_digits(s: Seq<char>) -> bool {
    forall|i: int| 0 <= i < s.len() ==> is_digit(#[trigger] s[i])
}

pub fn all_digits(s: &str) -> (r: bool)
    ensures
        r == is_digits(s@),
{
    let chars = chars_of(s);
    let mut i: usize = 0;
    while i < chars.len()
        invariant
            chars@ == s@,
            i <= chars@.len(),
            forall|k: int| 0 <= k < i ==> is_digit(#[trigger] chars@[k]),
        decreases chars@.len() - i,
    {
        let c = chars[i];
        if !('0' <= c && c <= '9') {
            assert(!is_digit(s@[i as int]));
            return false;
        }
        i += 1;
    }
    true
}

/// The lower case of an ASCII letter; other characters stay.
pub open spec fn ascii_lower(c: char) -> char {
    if 'A' <= c <= 'Z' {
        (c as u8 + 32) as char
    } else {
        c
    }
}

pub open spec fn ascii_lowered(s: Seq<char>) -> Seq<char> {
    s.map_values(|c: char| ascii_lower(c))
}

fn ascii_lower_char(c: char) -> (r: char)
    ensures
        r == ascii_lower(c),
{
    if 'A' <= c && c <= 'Z' {
        let b: u8 = c as u8;
        (b + 32) as char
    } else {
        c
    }
}

pub fn ascii_lowercase(s: &str) -> (r: String)
    ensures
        r@ == ascii_lowered(s@),
{
    let chars = chars_of(s);
    let mut r: String = String::new();
    let mut i: usize = 0;
    assert(r@ =~= ascii_lowered(s@).take(0));
    while i < chars.len()
        invariant
            chars@ == s@,
            i <= chars@.len(),
            r@ == ascii_lowered(s@).take(i as int),
        decreases chars@.len() - i,
    {
        r.push(ascii_lower_char(chars[i]));
        i += 1;
        assert(r@ =~= ascii_lowered(s@).take(i as int));
    }
    assert(ascii_lowered(s@).take(i as int) =~= ascii_lowered(s@));
    r
}

pub fn eq_ignore_ascii_case(a: &str, b: &str) -> (r: bool)
    ensures
        r == (ascii_lowered(a@) == ascii_lowered(b@)),
{
    let la = ascii_lowercase(a);
    let lb = ascii_lowercase(b);
    str_eq(la.as_str(), lb.as_str())
}

/// How many characters stand before the first white space.
pub open spec fn word_len(s: Seq<char>) -> nat
    decreases s.len(),
{
    if s.len() == 0 || white_space(s[0]) {
        0
    } else {
        1 + word_len(s.drop_first())
    }
}

/// What stands before and after the first white space character.
pub open spec fn at_first_space(s: Seq<char>) -> Option<(Seq<char>, Seq<char>)> {
    let n = word_len(s) as int;
    if n >= s.len() {
        None
    } else {
        Some((s.take(n), s.skip(n + 1)))
    }
}

pub fn split_at_space(s: &str) -> (r: Option<(String, String)>)
    ensures
        match r {
            Some((a, b)) => at_first_space(s@) == Some((a@, b@)),
            None => at_first_space(s@) is None,
        },
{
    let chars = chars_of(s);
    let mut i: usize = 0;
    assert(s@.skip(0) =~= s@);
    while i < chars.len() && !chars[i].is_whitespace()
        invariant
            chars@ == s@,
            i <= chars@.len(),
            word_len(s@) == i + word_len(s@.skip(i as int)),
        decreases chars@.len() - i,
    {
        assert(s@.skip(i as int).drop_first() =~= s@.skip(i + 1));
        i += 1;
    }
    if i == chars.len() {
        return None;
    }
    let a = string_of(&chars, 0, i);
    let b = string_of(&chars, i + 1, chars.len());
    assert(a@ =~= s@.take(i as int));
    assert(b@ =~= s@.skip(i + 1));
    Some((a, b))
}

/// The text behind `p`, where `s` begins with it.
pub open spec fn after_prefix(s: Seq<char>, p: Seq<char>) -> Option<Seq<char>> {
    if begins_with(s, p) {
        Some(s.skip(p.len() as int))
    } else {
        None
    }
}

pub fn strip_prefix(s: &str, p: &str) -> (r: Option<String>)
    ensures
        opt_text(r) == after_prefix(s@, p@),
{
    if starts_with(s, p) {
        let sc = chars_of(s);
        let pc = chars_of(p);
        let rest = string_of(&sc, pc.len(), sc.len());
        assert(rest@ =~= s@.skip(p@.len() as int));
        Some(rest)
    } else {
        None
    }
}

/// The text before `p`, where `s` finishes with it.
pub open spec fn before_suffix(s: Seq<char>, p: Seq<char>) -> Option<Seq<char>> {
    if finishes_with(s, p) {
        Some(s.take(s.len() - p.len()))
    } else {
        None
    }
}

pub fn strip_suffix(s: &str, p: &str) -> (r: Option<String>)
    ensures
        opt_text(r) == before_suffix(s@, p@),
{
    if ends_with(s, p) {
        let sc = chars_of(s);
        let pc = chars_of(p);
        let rest = string_of(&sc, 0, sc.len() - pc.len());
        assert(rest@ =~= s@.take(s@.len() - p@.len()));
        Some(rest)
    } else {
        None
    }
}

/// What stands before and behind the first occurrence of `p`.
pub open spec fn around(s: Seq<char>, p: Seq<char>) -> Option<(Seq<char>, Seq<char>)> {
    if occurs(s, p) {
        let at = choose|at: int| first_at(s, p, 0, at);
        Some((s.take(at), s.skip(at + p.len())))
    } else {
        None
    }
}

pub proof fn lemma_first_at_unique(s: Seq<char>, p: Seq<char>, a: int, b: int)
    requires
        first_at(s, p, 0, a),
        first_at(s, p, 0, b),
    ensures
        a == b,
{
    if a < b {
        assert(!occurs_at(s, p, a));
    } else if b < a {
        assert(!occurs_at(s, p, b));
    }
}

pub fn split_once(s: &str, p: &str) -> (r: Option<(String, String)>)
    ensures
        match r {
            Some((a, b)) => around(s@, p@) == Some((a@, b@)),
            None => around(s@, p@) is None,
        },
{
    let sc = chars_of(s);
    let pc = chars_of(p);
    match find_from(&sc, &pc, 0) {
        Some(at) => {
            assert(occurs_at(s@, p@, at as int));
            let n: usize = sc.len();
            assert(at + pc@.len() <= n);
            let a = string_of(&sc, 0, at);
            let b = string_of(&sc, at + pc.len(), n);
            proof {
                let found = choose|found: int| first_at(s@, p@, 0, found);
                lemma_first_at_unique(s@, p@, found, at as int);
                assert(a@ =~= s@.take(at as int));
                assert(b@ =~= s@.skip(at + p@.len()));
            }
            Some((a, b))
        },
        None => None,
    }
}

/// How many bytes a text takes in UTF-8.
pub open spec fn byte_len(s: Seq<char>) -> nat {
    encode_utf8(s).len()
}

pub fn bytes_in(s: &str) -> (n: usize)
    ensures
        n == byte_len(s@),
{
    s.as_bytes().len()
}


pub fn push_texts(out: &mut Vec<String>, more: &Vec<String>)
    ensures
        views(final(out)@) == views(old(out)@) + views(more@),
{
    broadcast use lemma_views_push;
    let mut i: usize = 0;
    let ghost before = views(out@);
    let ghost all = views(more@);
    assert(before + all.take(0) =~= before);
    while i < more.len()
        invariant
            i <= more@.len(),
            all == views(more@),
            views(out@) == before + all.take(i as int),
        decreases more@.len() - i,
    {
        let ghost mid = views(out@);
        out.push(more[i].as_str().to_owned());
        proof {
            lemma_take_step(all, i as int);
            assert(views(out@) == mid.push(all[i as int]));
            assert(views(out@) =~= before + all.take(i + 1));
        }
        i += 1;
    }
    assert(all.take(i as int) =~= all);
}


pub fn copy_texts(texts: &Vec<String>) -> (r: Vec<String>)
    ensures
        views(r@) == views(texts@),
{
    let mut r: Vec<String> = Vec::new();
    assert(views(r@) =~= Seq::<Seq<char>>::empty());
    push_texts(&mut r, texts);
    assert(views(r@) =~= views(texts@));
    r
}


pub proof fn lemma_encode_add(a: Seq<char>, b: Seq<char>)
    ensures
        encode_utf8(a + b) == encode_utf8(a) + encode_utf8(b),
    decreases a.len(),
{
    if a.len() == 0 {
        assert(a + b =~= b);
        assert(encode_utf8(a) =~= Seq::<u8>::empty());
        assert(encode_utf8(a) + encode_utf8(b) =~= encode_utf8(b));
    } else {
        assert((a + b).drop_first() =~= a.drop_first() + b);
        lemma_encode_add(a.drop_first(), b);
        assert(encode_utf8(a + b) =~= encode_utf8(a) + encode_utf8(b));
    }
}

/// How many bytes a character takes in UTF-8.
pub open spec fn char_width(c: char) -> nat {
    if c as u32 <= 0x7f {
        1
    } else if c as u32 <= 0x7ff {
        2
    } else if c as u32 <= 0xffff {
        3
    } else {
        4
    }
}

pub proof fn lemma_byte_len_push(s: Seq<char>, c: char)
    ensures
        byte_len(s.push(c)) == byte_len(s) + char_width(c),
{
    assert(s.push(c) =~= s + seq![c]);
    lemma_encode_add(s, seq![c]);
    assert(seq![c].drop_first() =~= Seq::<char>::empty());
    assert(encode_utf8(Seq::<char>::empty()) =~= Seq::<u8>::empty());
    assert(encode_utf8(seq![c]).len() == char_width(c));
}

/// The longest beginning of a text that takes at most `max` bytes.
pub open spec fn cut_to(s: Seq<char>, max: nat) -> Seq<char>
    decreases s.len(),
{
    if s.len() == 0 || byte_len(s) <= max {
        s
    } else {
        cut_to(s.drop_last(), max)
    }
}

pub proof fn lemma_byte_len_grows(s: Seq<char>, n: int)
    requires
        0 <= n <= s.len(),
    ensures
        byte_len(s.take(n)) <= byte_len(s),
{
    assert(s =~= s.take(n) + s.skip(n));
    lemma_encode_add(s.take(n), s.skip(n));
}

proof fn lemma_cut_to(s: Seq<char>, max: nat, n: int)
    requires
        0 <= n < s.len(),
        byte_len(s.take(n)) <= max,
        byte_len(s.take(n + 1)) > max,
    ensures
        cut_to(s, max) == s.take(n),
    decreases s.len(),
{
    lemma_byte_len_grows(s, n + 1);
    let init = s.drop_last();
    if n + 1 == s.len() {
        assert(init =~= s.take(n));
        assert(cut_to(init, max) == init);
    } else {
        assert(init.take(n) =~= s.take(n));
        assert(init.take(n + 1) =~= s.take(n + 1));
        lemma_cut_to(init, max, n);
    }
}

/// The longest beginning of a text that takes at most `max_bytes`, and whether
/// that is all of it.
pub fn bounded_prefix(value: &str, max_bytes: usize) -> (r: (String, bool))
    ensures
        r.0@ == cut_to(value@, max_bytes as nat),
        r.1 == (byte_len(value@) <= max_bytes),
{
    if bytes_in(value) <= max_bytes {
        return (value.to_owned(), true);
    }
    let chars = chars_of(value);
    let mut used: usize = 0;
    let mut i: usize = 0;
    proof {
        assert(value@.take(0) =~= Seq::<char>::empty());
        assert(encode_utf8(Seq::<char>::empty()) =~= Seq::<u8>::empty());
    }
    while i < chars.len()
        invariant
            chars@ == value@,
            i <= chars@.len(),
            byte_len(value@) > max_bytes,
            used == byte_len(value@.take(i as int)),
            used <= max_bytes,
        decreases chars@.len() - i,
    {
        let n: u32 = chars[i] as u32;
        let width: usize = if n <= 0x7f {
            1
        } else if n <= 0x7ff {
            2
        } else if n <= 0xffff {
            3
        } else {
            4
        };
        proof {
            lemma_take_step(value@, i as int);
            lemma_byte_len_push(value@.take(i as int), value@[i as int]);
        }
        if width > max_bytes - used {
            proof {
                lemma_cut_to(value@, max_bytes as nat, i as int);
            }
            let head = string_of(&chars, 0, i);
            assert(head@ =~= value@.take(i as int));
            return (head, false);
        }
        used += width;
        i += 1;
    }
    assert(value@.take(i as int) =~= value@);
    (value.to_owned(), false)
}

/// A bounded prefix is a beginning of the text, and takes no more bytes than
/// it may.
pub proof fn law_bounded_prefix(s: Seq<char>, max: nat)
    ensures
        begins_with(s, cut_to(s, max)),
        byte_len(cut_to(s, max)) <= max,
        byte_len(s) <= max ==> cut_to(s, max) == s,
    decreases s.len(),
{
    if s.len() == 0 {
        assert(encode_utf8(s) =~= Seq::<u8>::empty());
        assert(s.take(0) =~= s);
    } else if byte_len(s) <= max {
        assert(s.take(s.len() as int) =~= s);
    } else {
        law_bounded_prefix(s.drop_last(), max);
        let cut = cut_to(s, max);
        assert(s.drop_last().take(cut.len() as int) =~= s.take(cut.len() as int));
    }
}


pub fn trim_left(s: &str) -> (r: String)
    ensures
        r@ == trim_start(s@),
{
    let chars = chars_of(s);
    let from: usize = start_of(&chars);
    let r = string_of(&chars, from, chars.len());
    assert(r@ =~= s@.skip(from as int));
    r
}


/// The number that decimal digits write.
pub open spec fn digits_value(s: Seq<char>) -> nat
    decreases s.len(),
{
    if s.len() == 0 {
        0
    } else {
        digits_value(s.drop_last()) * 10 + (s.last() as nat - 48) as nat
    }
}

/// A number is known from its decimal digits.
pub proof fn lemma_decimal_value(n: nat)
    ensures
        digits_value(decimal(n)) == n,
    decreases n,
{
    if n < 10 {
        let d = seq![digit(n)];
        assert(d.drop_last() =~= Seq::<char>::empty());
        assert(digits_value(d.drop_last()) == 0);
        assert(d.last() == digit(n));
    } else {
        lemma_decimal_value(n / 10);
        let d = decimal(n);
        assert(d.drop_last() =~= decimal(n / 10));
        assert(d.last() == digit(n % 10));
    }
}

} // verus!
