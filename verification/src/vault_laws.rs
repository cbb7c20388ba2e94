//! How the notes of a vault are named, and which of them some events lead to.
use crate::details::moment_text;
use crate::json::{JsonView, texts_in};
use crate::models::{LinkSelector, Moment, StoredLogEvent};
use crate::ordered::{increasing, lemma_ordered_set};
use crate::text::{begins_with, byte_len, trimmed, views};
use crate::vault::{
    VaultCatalog, VaultLinkRule, VaultNote, alphanumeric, event_field_values, events_contain,
    identity_meets, is_ascii_alnum, link_of, lower_chars, metadata_texts, names_identity,
    names_note, names_reference, notes_named_by, plain_identity, rule_error, rule_met,
    selector_error, some_is, some_meets, tokens,
};
use crate::vault_catalog::{hash_of, hex_digits};
use crate::vault_links::{
    ProductMapping, VaultContextConfig, all_event_links, candidate_notes, canonical_links,
    event_links, field_links, latest_or, link_by_id, links_of, metadata_fields, name_occurs,
    product_links, product_occurs, rule_applies, rule_decides, rule_links, rules_text,
    value_links, vault_context,
};
use vstd::prelude::*;
use vstd::utf8::encode_utf8;

verus! {

/// Names are compared by their letters and digits alone, in lower case: a name
/// is read piece by piece, and everything else in it falls away.
pub proof fn law_names_are_letters_and_digits(a: Seq<char>, b: Seq<char>, c: char)
    ensures
        plain_identity(a + b) == plain_identity(a) + plain_identity(b),
        alphanumeric(c) ==> plain_identity(seq![c]) == lower_chars(c),
        !alphanumeric(c) ==> plain_identity(seq![c]).len() == 0,
        plain_identity(Seq::empty()).len() == 0,
{
    lemma_identity_adds(a, b);
    assert(seq![c].drop_last() =~= Seq::<char>::empty());
    assert(plain_identity(Seq::<char>::empty()) =~= Seq::<char>::empty());
    assert(plain_identity(seq![c]) =~= if alphanumeric(c) {
        lower_chars(c)
    } else {
        Seq::empty()
    });
}

proof fn lemma_identity_adds(a: Seq<char>, b: Seq<char>)
    ensures
        plain_identity(a + b) == plain_identity(a) + plain_identity(b),
    decreases b.len(),
{
    if b.len() == 0 {
        assert(a + b =~= a);
        assert(plain_identity(a + b) =~= plain_identity(a) + plain_identity(b));
    } else {
        lemma_identity_adds(a, b.drop_last());
        assert((a + b).drop_last() =~= a + b.drop_last());
        assert((a + b).last() == b.last());
        assert(plain_identity(a + b) =~= plain_identity(a) + plain_identity(b));
    }
}

/// Whether the characters from `i` to `j` are a word: letters and digits of
/// ASCII with nothing of the kind on either side.
pub open spec fn is_word_at(s: Seq<char>, i: int, j: int) -> bool {
    &&& 0 <= i <= j <= s.len()
    &&& forall|k: int|
        i <= k < j ==> '0' <= #[trigger] s[k] <= '9' || 'a' <= s[k] <= 'z' || 'A' <= s[k] <= 'Z'
    &&& i > 0 ==> !('0' <= s[i - 1] <= '9' || 'a' <= s[i - 1] <= 'z' || 'A' <= s[i - 1] <= 'Z')
    &&& j < s.len() ==> !('0' <= s[j] <= '9' || 'a' <= s[j] <= 'z' || 'A' <= s[j] <= 'Z')
}

/// The word of a text that ends where the text ends is its last part, and each
/// other part is a word that ends earlier.
proof fn lemma_part_is_word(s: Seq<char>, k: int) -> (at: (int, int))
    requires
        0 <= k < tokens(s).len(),
    ensures
        is_word_at(s, at.0, at.1),
        tokens(s)[k] == s.subrange(at.0, at.1),
        at.1 == s.len() <==> k == tokens(s).len() - 1,
    decreases s.len(),
{
    if s.len() == 0 {
        assert(s.subrange(0, 0) =~= Seq::<char>::empty());
        (0, 0)
    } else {
        let p = s.drop_last();
        let c = s.last();
        lemma_tokens_nonempty(p);
        assert forall|n: int| 0 <= n < p.len() implies s[n] == #[trigger] p[n] by {}
        if is_ascii_alnum(c) {
            let at = lemma_part_is_word(p, k);
            if k == tokens(p).len() - 1 {
                assert(s.subrange(at.0, s.len() as int) =~= p.subrange(at.0, at.1).push(c));
                assert forall|n: int| at.0 <= n < s.len() implies is_ascii_alnum(#[trigger] s[n]) by {
                    if n < p.len() {
                        assert(is_ascii_alnum(p[n]));
                    }
                }
                assert(at.0 > 0 ==> s[at.0 - 1] == p[at.0 - 1]);
                (at.0, s.len() as int)
            } else {
                assert(s.subrange(at.0, at.1) =~= p.subrange(at.0, at.1));
                lemma_earlier_word(s, at.0, at.1);
                at
            }
        } else if k == tokens(p).len() {
            assert(s.subrange(s.len() as int, s.len() as int) =~= Seq::<char>::empty());
            (s.len() as int, s.len() as int)
        } else {
            let at = lemma_part_is_word(p, k);
            assert(s.subrange(at.0, at.1) =~= p.subrange(at.0, at.1));
            lemma_earlier_word(s, at.0, at.1);
            at
        }
    }
}

proof fn lemma_earlier_word(s: Seq<char>, i: int, j: int)
    requires
        s.len() > 0,
        is_word_at(s.drop_last(), i, j),
        j < s.len() - 1 || !is_ascii_alnum(s.last()),
    ensures
        is_word_at(s, i, j),
{
    let p = s.drop_last();
    assert forall|n: int| i <= n < j implies is_ascii_alnum(#[trigger] s[n]) by {
        assert(is_ascii_alnum(p[n]));
    }
    assert(i > 0 ==> s[i - 1] == p[i - 1]);
    assert(j < p.len() ==> s[j] == p[j]);
}

proof fn lemma_tokens_nonempty(s: Seq<char>)
    ensures
        tokens(s).len() > 0,
    decreases s.len(),
{
    if s.len() > 0 {
        lemma_tokens_nonempty(s.drop_last());
    }
}

proof fn lemma_word_is_part(s: Seq<char>, i: int, j: int) -> (k: int)
    requires
        is_word_at(s, i, j),
    ensures
        0 <= k < tokens(s).len(),
        tokens(s)[k] == s.subrange(i, j),
        j == s.len() <==> k == tokens(s).len() - 1,
    decreases s.len(),
{
    lemma_tokens_nonempty(s);
    if s.len() == 0 {
        assert(s.subrange(0, 0) =~= Seq::<char>::empty());
        0
    } else {
        let p = s.drop_last();
        let c = s.last();
        lemma_tokens_nonempty(p);
        if is_ascii_alnum(c) {
            if j == s.len() {
                assert(i < s.len());
                let k = lemma_word_is_part(p, i, j - 1);
                assert(s.subrange(i, j) =~= p.subrange(i, j - 1).push(c));
                k
            } else {
                assert(j < p.len());
                let k = lemma_word_is_part(p, i, j);
                assert(s.subrange(i, j) =~= p.subrange(i, j));
                k
            }
        } else if j == s.len() {
            assert(i == j);
            assert(s.subrange(i, j) =~= Seq::<char>::empty());
            tokens(p).len() as int
        } else {
            let k = lemma_word_is_part(p, i, j);
            assert(s.subrange(i, j) =~= p.subrange(i, j));
            k
        }
    }
}

/// A reference is named by a value that is the same name, or that has a word of
/// three bytes or more that is.
pub proof fn law_reference_is_a_name_or_a_word(reference: Seq<char>, value: Seq<char>)
    ensures
        names_reference(reference, value) <==> (plain_identity(reference) == plain_identity(value)
            || exists|i: int, j: int| #[trigger]
            is_word_at(value, i, j) && byte_len(value.subrange(i, j)) >= 3 && plain_identity(
                value.subrange(i, j),
            ) == plain_identity(reference)),
{
    if names_reference(reference, value) && plain_identity(reference) != plain_identity(value) {
        let k = choose|k: int|
            0 <= k < tokens(value).len() && byte_len(#[trigger] tokens(value)[k]) >= 3
                && plain_identity(tokens(value)[k]) == plain_identity(reference);
        let at = lemma_part_is_word(value, k);
        assert(is_word_at(value, at.0, at.1));
    }
    if exists|i: int, j: int| #[trigger]
        is_word_at(value, i, j) && byte_len(value.subrange(i, j)) >= 3 && plain_identity(
            value.subrange(i, j),
        ) == plain_identity(reference) {
        let (i, j) = choose|i: int, j: int| #[trigger]
            is_word_at(value, i, j) && byte_len(value.subrange(i, j)) >= 3 && plain_identity(
                value.subrange(i, j),
            ) == plain_identity(reference);
        let k = lemma_word_is_part(value, i, j);
        assert(byte_len(tokens(value)[k]) >= 3);
    }
}

/// A note is named by its title, its id and each of its aliases, as a whole, and
/// by each of its references; nothing else names it.
pub proof fn law_note_is_named_by_what_it_says(note: VaultNote, value: Seq<char>)
    ensures
        plain_identity(note.title@) == plain_identity(value) ==> names_note(note, value),
        plain_identity(note.id@) == plain_identity(value) ==> names_note(note, value),
        forall|i: int|
            0 <= i < note.aliases@.len() && plain_identity((#[trigger] note.aliases@[i])@)
                == plain_identity(value) ==> names_note(note, value),
        forall|i: int, k: int|
            0 <= i < note.references@.len() && 0 <= k < note.references@[i].1@.len()
                && names_reference((#[trigger] note.references@[i].1@[k])@, value) ==> names_note(
                note,
                value,
            ),
        names_note(note, value) ==> {
            ||| plain_identity(note.title@) == plain_identity(value)
            ||| plain_identity(note.id@) == plain_identity(value)
            ||| exists|i: int|
                0 <= i < note.aliases@.len() && plain_identity((#[trigger] note.aliases@[i])@)
                    == plain_identity(value)
            ||| exists|i: int, k: int|
                0 <= i < note.references@.len() && 0 <= k < note.references@[i].1@.len()
                    && names_reference((#[trigger] note.references@[i].1@[k])@, value)
        },
{
    let aliases = views(note.aliases@);
    assert forall|i: int|
        0 <= i < note.aliases@.len() && plain_identity((#[trigger] note.aliases@[i])@)
            == plain_identity(value) implies names_note(note, value) by {
        assert(aliases[i] == note.aliases@[i]@);
    }
    if some_is(aliases, value) {
        let i = choose|i: int|
            0 <= i < aliases.len() && plain_identity(#[trigger] aliases[i]) == plain_identity(value);
        assert(aliases[i] == note.aliases@[i]@);
    }
}

/// Whether a note is the first of the notes that a value names.
pub open spec fn is_first_named(notes: Seq<VaultNote>, value: Seq<char>, at: int) -> bool {
    &&& 0 <= at < notes.len()
    &&& names_note(notes[at], value)
    &&& forall|i: int| 0 <= i < at ==> !names_note(#[trigger] notes[i], value)
}

/// Every note that a value names is found, the others are not, and the first
/// found is the first of the notes.
pub proof fn law_notes_are_found_by_name(notes: Seq<VaultNote>, value: Seq<char>)
    ensures
        forall|n: VaultNote|
            (#[trigger] notes_named_by(notes, value).contains(&n)) <==> notes.contains(n)
                && names_note(n, value),
        forall|at: int| #[trigger]
            is_first_named(notes, value, at) ==> notes_named_by(notes, value).len() > 0
                && notes_named_by(notes, value)[0] == notes[at],
        notes_named_by(notes, value).len() == 0 <==> forall|i: int|
            0 <= i < notes.len() ==> !names_note(#[trigger] notes[i], value),
    decreases notes.len(),
{
    let found = notes_named_by(notes, value);
    if notes.len() > 0 {
        let init = notes.drop_last();
        let last = notes.last();
        law_notes_are_found_by_name(init, value);
        let before = notes_named_by(init, value);
        assert(notes =~= init.push(last));
        assert forall|n: VaultNote|
            (#[trigger] found.contains(&n)) <==> notes.contains(n) && names_note(n, value) by {
            lemma_push_has(init, last, n);
            lemma_push_has(before, &last, &n);
            assert(before.contains(&n) <==> init.contains(n) && names_note(n, value));
        }
        assert forall|at: int| #[trigger] is_first_named(notes, value, at) implies found.len() > 0
            && found[0] == notes[at] by {
            if at < init.len() {
                assert forall|i: int| 0 <= i < at implies !names_note(#[trigger] init[i], value) by {
                    assert(init[i] == notes[i]);
                }
                assert(is_first_named(init, value, at));
            } else {
                assert forall|i: int| 0 <= i < init.len() implies !names_note(
                    #[trigger] init[i],
                    value,
                ) by {
                    assert(init[i] == notes[i]);
                }
            }
        }
        if before.len() > 0 {
            let i = choose|i: int| 0 <= i < init.len() && names_note(#[trigger] init[i], value);
            assert(notes[i] == init[i]);
        } else {
            assert forall|i: int| 0 <= i < init.len() implies !names_note(
                #[trigger] notes[i],
                value,
            ) by {
                assert(init[i] == notes[i]);
            }
        }
        assert(notes[notes.len() - 1] == last);
    }
}

proof fn lemma_push_has<T>(init: Seq<T>, last: T, x: T)
    ensures
        init.push(last).contains(x) <==> init.contains(x) || x == last,
{
    let all = init.push(last);
    assert(all[init.len() as int] == last);
    if init.contains(x) {
        let i = choose|i: int| 0 <= i < init.len() && init[i] == x;
        assert(all[i] == x);
    }
    if all.contains(x) {
        let i = choose|i: int| 0 <= i < all.len() && all[i] == x;
        assert(i < init.len() ==> init[i] == x);
    }
}

/// A value is written as a link between double brackets, and a link as it is.
pub proof fn law_value_is_written_as_a_link(value: Seq<char>)
    ensures
        value.len() >= 2 && value[0] == '[' && value[1] == '[' ==> link_of(value) == value,
        !(value.len() >= 2 && value[0] == '[' && value[1] == '[') ==> link_of(value) == seq![
            '[',
            '[',
        ] + value + seq![']', ']'],
{
    reveal_strlit("[[");
    reveal_strlit("]]");
    assert("[["@ =~= seq!['[', '[']);
    assert("]]"@ =~= seq![']', ']']);
    if value.len() >= 2 {
        assert(value.take(2)[0] == value[0] && value.take(2)[1] == value[1]);
        if value[0] == '[' && value[1] == '[' {
            assert(value.take(2) =~= "[["@);
        }
    }
}

/// The texts of a value: a text is its own, a number is its digits, and a list
/// gives those of its items that are texts.
pub open spec fn is_text_of(value: JsonView, text: Seq<char>) -> bool {
    ||| value == JsonView::Text(text)
    ||| value == JsonView::Number(text)
    ||| value is List && value->List_0.contains(JsonView::Text(text))
}

/// Whether a text stands under a key of an event.
pub open spec fn is_under(event: StoredLogEvent, key: Seq<char>, text: Seq<char>) -> bool {
    event.field(key) is Some && is_text_of(event.field(key)->0, text)
}

pub proof fn lemma_texts_in_list(items: Seq<JsonView>, text: Seq<char>)
    ensures
        texts_in(items).contains(text) <==> items.contains(JsonView::Text(text)),
    decreases items.len(),
{
    if items.len() > 0 {
        let init = items.drop_last();
        lemma_texts_in_list(init, text);
        assert(items =~= init.push(items.last()));
        lemma_push_has(init, items.last(), JsonView::Text(text));
        match items.last().text() {
            Some(t) => {
                lemma_push_has(texts_in(init), t, text);
            },
            None => {},
        }
    }
}

pub proof fn lemma_texts_under_key(event: StoredLogEvent, key: Seq<char>, text: Seq<char>)
    ensures
        metadata_texts(event, key).contains(text) <==> is_under(event, key, text),
{
    match event.field(key) {
        Some(value) => match value {
            JsonView::List(items) => {
                lemma_texts_in_list(items, text);
            },
            JsonView::Text(t) => {
                assert(seq![t][0] == t);
            },
            JsonView::Number(t) => {
                assert(seq![t][0] == t);
            },
            _ => {},
        },
        None => {},
    }
}

pub proof fn lemma_joined_has<T>(a: Seq<T>, b: Seq<T>, x: T)
    ensures
        (a + b).contains(x) <==> a.contains(x) || b.contains(x),
{
    let all = a + b;
    if a.contains(x) {
        let i = choose|i: int| 0 <= i < a.len() && a[i] == x;
        assert(all[i] == x);
    }
    if b.contains(x) {
        let i = choose|i: int| 0 <= i < b.len() && b[i] == x;
        assert(all[a.len() + i] == x);
    }
    if all.contains(x) {
        let i = choose|i: int| 0 <= i < all.len() && all[i] == x;
        if i < a.len() {
            assert(a[i] == x);
        } else {
            assert(b[i - a.len()] == x);
        }
    }
}

/// Where an event came from is a value of its own; the modules of an event are
/// named under either of two keys, and every other field under its own.
pub open spec fn is_value_of(event: StoredLogEvent, field: Seq<char>, text: Seq<char>) -> bool {
    ||| field == "source"@ && text == event.source@
    ||| field == "module"@ && (is_under(event, "module"@, text) || is_under(
        event,
        "modules"@,
        text,
    ))
    ||| field != "source"@ && field != "module"@ && is_under(event, field, text)
}

/// The two fields with a rule of their own differ.
pub proof fn lemma_vault_fields_differ()
    ensures
        "source"@ != "module"@,
{
    reveal_strlit("source");
    reveal_strlit("module");
    assert("source"@.len() == 6);
    assert("module"@.len() == 6);
    assert("source"@[0] == 's');
    assert("module"@[0] == 'm');
}

/// What an event says in a field is what it holds there.
pub proof fn law_values_of_an_event_in_a_field(
    event: StoredLogEvent,
    field: Seq<char>,
    text: Seq<char>,
)
    ensures
        event_field_values(event, field).contains(text) <==> is_value_of(event, field, text),
{
    lemma_vault_fields_differ();
    if field == "source"@ {
        assert(seq![event.source@][0] == event.source@);
    } else if field == "module"@ {
        lemma_texts_under_key(event, "module"@, text);
        lemma_texts_under_key(event, "modules"@, text);
        lemma_joined_has(metadata_texts(event, "module"@), metadata_texts(event, "modules"@), text);
    } else {
        lemma_texts_under_key(event, field, text);
    }
}

/// Whether an event says in a field what a selector asks for: exactly that name,
/// or one that begins with it.
pub open spec fn says(event: StoredLogEvent, selector: LinkSelector) -> bool {
    exists|text: Seq<char>| #[trigger]
        is_value_of(event, selector.field@, text) && (if selector.operator@ == "prefix"@ {
            exists|rest: Seq<char>|
                plain_identity(text) == #[trigger] (plain_identity(selector.value@) + rest)
        } else {
            plain_identity(text) == plain_identity(selector.value@)
        })
}

proof fn lemma_meets_is(text: Seq<char>, selector: LinkSelector)
    ensures
        identity_meets(text, selector.operator@, selector.value@) <==> (if selector.operator@
            == "prefix"@ {
            exists|rest: Seq<char>|
                plain_identity(text) == #[trigger] (plain_identity(selector.value@) + rest)
        } else {
            plain_identity(text) == plain_identity(selector.value@)
        }),
{
    let p = plain_identity(selector.value@);
    let t = plain_identity(text);
    if begins_with(t, p) {
        assert(t =~= p + t.skip(p.len() as int));
    }
    if exists|rest: Seq<char>| t == #[trigger] (p + rest) {
        let rest = choose|rest: Seq<char>| t == #[trigger] (p + rest);
        assert(t.take(p.len() as int) =~= p);
    }
}

proof fn lemma_says(event: StoredLogEvent, selector: LinkSelector)
    ensures
        some_meets(
            event_field_values(event, selector.field@),
            selector.operator@,
            selector.value@,
        ) <==> says(event, selector),
{
    let values = event_field_values(event, selector.field@);
    if some_meets(values, selector.operator@, selector.value@) {
        let i = choose|i: int|
            0 <= i < values.len() && identity_meets(
                #[trigger] values[i],
                selector.operator@,
                selector.value@,
            );
        assert(values.contains(values[i]));
        law_values_of_an_event_in_a_field(event, selector.field@, values[i]);
        lemma_meets_is(values[i], selector);
        assert(is_value_of(event, selector.field@, values[i]));
    }
    if says(event, selector) {
        let text = choose|text: Seq<char>| #[trigger]
            is_value_of(event, selector.field@, text) && (if selector.operator@ == "prefix"@ {
                exists|rest: Seq<char>|
                    plain_identity(text) == #[trigger] (plain_identity(selector.value@) + rest)
            } else {
                plain_identity(text) == plain_identity(selector.value@)
            });
        law_values_of_an_event_in_a_field(event, selector.field@, text);
        lemma_meets_is(text, selector);
        let i = choose|i: int| 0 <= i < values.len() && values[i] == text;
        assert(identity_meets(values[i], selector.operator@, selector.value@));
    }
}

/// Whether some event says what a selector asks for.
pub open spec fn is_said(events: Seq<StoredLogEvent>, selector: LinkSelector) -> bool {
    exists|i: int| 0 <= i < events.len() && says(#[trigger] events[i], selector)
}

/// A rule is met by some events exactly where each of its selectors is: one
/// event may meet one selector, and another event the next.
pub proof fn law_rule_is_met_selector_by_selector(
    rule: VaultLinkRule,
    events: Seq<StoredLogEvent>,
)
    ensures
        rule_met(rule, events) <==> forall|k: int|
            0 <= k < rule.selectors@.len() ==> is_said(events, #[trigger] rule.selectors@[k]),
{
    assert forall|k: int| 0 <= k < rule.selectors@.len() implies (events_contain(
        events,
        (#[trigger] rule.selectors@[k]).field@,
        rule.selectors@[k].operator@,
        rule.selectors@[k].value@,
    ) <==> is_said(events, rule.selectors@[k])) by {
        let s = rule.selectors@[k];
        if events_contain(events, s.field@, s.operator@, s.value@) {
            let i = choose|i: int|
                0 <= i < events.len() && some_meets(
                    event_field_values(#[trigger] events[i], s.field@),
                    s.operator@,
                    s.value@,
                );
            lemma_says(events[i], s);
        }
        if is_said(events, s) {
            let i = choose|i: int| 0 <= i < events.len() && says(#[trigger] events[i], s);
            lemma_says(events[i], s);
            assert(some_meets(event_field_values(events[i], s.field@), s.operator@, s.value@));
        }
    }
}

/// A rule of one selector stands for a name where it is about that field and
/// asks for the name or for what it begins with.
pub proof fn law_rule_of_one_selector_stands_for_a_name(
    selectors: Seq<LinkSelector>,
    field: Seq<char>,
    value: Seq<char>,
)
    ensures
        selectors.len() != 1 ==> !names_identity(selectors, field, value),
        selectors.len() == 1 && selectors[0].field@ != field ==> !names_identity(
            selectors,
            field,
            value,
        ),
        selectors.len() == 1 && selectors[0].field@ == field && selectors[0].operator@ != "prefix"@
            ==> (names_identity(selectors, field, value) <==> plain_identity(value)
            == plain_identity(selectors[0].value@)),
        selectors.len() == 1 && selectors[0].field@ == field && selectors[0].operator@ == "prefix"@
            ==> (names_identity(selectors, field, value) <==> exists|rest: Seq<char>|
            plain_identity(value) == #[trigger] (plain_identity(selectors[0].value@) + rest)),
{
    if selectors.len() == 1 {
        lemma_meets_is(value, selectors[0]);
    }
}

/// Whether a selector of a rule is one that can be met.
pub open spec fn is_sound_selector(s: LinkSelector) -> bool {
    &&& {
        ||| s.field@ == "source"@
        ||| s.field@ == "repo"@
        ||| s.field@ == "project"@
        ||| s.field@ == "product"@
        ||| s.field@ == "app"@
        ||| s.field@ == "service"@
        ||| s.field@ == "module"@
        ||| s.field@ == "work_item"@
        ||| s.field@ == "branch"@
    }
    &&& s.operator@ == "exact"@ || s.operator@ == "prefix"@
    &&& trimmed(s.value@).len() > 0
    &&& byte_len(s.value@) <= 300
}

proof fn lemma_selector_errors(selectors: Seq<LinkSelector>)
    ensures
        selector_error(selectors) is None <==> forall|k: int|
            0 <= k < selectors.len() ==> is_sound_selector(#[trigger] selectors[k]),
    decreases selectors.len(),
{
    if selectors.len() > 0 {
        let init = selectors.drop_last();
        lemma_selector_errors(init);
        assert forall|k: int| 0 <= k < init.len() implies init[k] == #[trigger] selectors[k] by {}
        assert(selectors[selectors.len() - 1] == selectors.last());
        if selector_error(init) is Some {
            let k = choose|k: int|
                0 <= k < init.len() && !is_sound_selector(#[trigger] init[k]);
            assert(!is_sound_selector(selectors[k]));
        } else {
            assert forall|k: int| 0 <= k < init.len() implies is_sound_selector(
                #[trigger] selectors[k],
            ) by {
                assert(is_sound_selector(init[k]));
            }
        }
    }
}

/// A rule is saved exactly where it has one to eight selectors, each of them
/// sound, and leads to a note of the vault.
pub proof fn law_sound_rules_are_saved(rule: VaultLinkRule, notes: Seq<VaultNote>)
    ensures
        rule_error(rule, notes) is None <==> {
            &&& 1 <= rule.selectors@.len() <= 8
            &&& exists|i: int| 0 <= i < notes.len() && (#[trigger] notes[i]).id@ == rule.target_note_id@
            &&& forall|k: int|
                0 <= k < rule.selectors@.len() ==> is_sound_selector(#[trigger] rule.selectors@[k])
        },
{
    lemma_selector_errors(rule.selectors@);
}

/// Whether a link is that of the first note with an id.
pub open spec fn is_link_with_id(notes: Seq<VaultNote>, id: Seq<char>, link: Seq<char>) -> bool {
    exists|i: int| #[trigger] is_first_with_id(notes, id, i) && notes[i].wikilink@ == link
}

pub open spec fn is_first_with_id(notes: Seq<VaultNote>, id: Seq<char>, at: int) -> bool {
    &&& 0 <= at < notes.len()
    &&& notes[at].id@ == id
    &&& forall|i: int| 0 <= i < at ==> (#[trigger] notes[i]).id@ != id
}

/// A note is found by its id, and its link is the one that is written.
pub proof fn law_link_of_the_note_with_an_id(notes: Seq<VaultNote>, id: Seq<char>, link: Seq<char>)
    ensures
        link_by_id(notes, id) == Some(link) <==> is_link_with_id(notes, id, link),
        link_by_id(notes, id) is None <==> forall|i: int|
            0 <= i < notes.len() ==> (#[trigger] notes[i]).id@ != id,
    decreases notes.len(),
{
    if notes.len() > 0 {
        let init = notes.drop_last();
        let n = notes.len() - 1;
        law_link_of_the_note_with_an_id(init, id, link);
        assert forall|i: int| 0 <= i < init.len() implies init[i] == #[trigger] notes[i] by {}
        assert(notes[n] == notes.last());
        if link_by_id(init, id) is Some {
            let other = link_by_id(init, id)->0;
            law_link_of_the_note_with_an_id(init, id, other);
            let i = choose|i: int| #[trigger]
                is_first_with_id(init, id, i) && init[i].wikilink@ == other;
            assert forall|k: int| 0 <= k < i implies (#[trigger] notes[k]).id@ != id by {
                assert(init[k] == notes[k]);
            }
            assert(is_first_with_id(notes, id, i));
            assert(notes[i].id@ == id);
            if is_link_with_id(notes, id, link) {
                let k = choose|k: int| #[trigger]
                    is_first_with_id(notes, id, k) && notes[k].wikilink@ == link;
                assert(k == i);
            }
        } else {
            assert forall|k: int| 0 <= k < n implies (#[trigger] notes[k]).id@ != id by {
                assert(init[k].id@ != id);
            }
            if notes.last().id@ == id {
                assert(is_first_with_id(notes, id, n));
            }
            if is_link_with_id(notes, id, link) {
                let k = choose|k: int| #[trigger]
                    is_first_with_id(notes, id, k) && notes[k].wikilink@ == link;
                assert(k == n);
            }
        }
    }
}

/// Whether a link is that of a note which a value names.
pub open spec fn is_link_named(notes: Seq<VaultNote>, value: Seq<char>, link: Seq<char>) -> bool {
    exists|i: int|
        0 <= i < notes.len() && names_note(#[trigger] notes[i], value) && notes[i].wikilink@ == link
}

proof fn lemma_link_named(notes: Seq<VaultNote>, value: Seq<char>, link: Seq<char>)
    ensures
        links_of(notes_named_by(notes, value)).contains(link) <==> is_link_named(
            notes,
            value,
            link,
        ),
{
    let found = notes_named_by(notes, value);
    law_notes_are_found_by_name(notes, value);
    if links_of(found).contains(link) {
        let k = choose|k: int| 0 <= k < links_of(found).len() && links_of(found)[k] == link;
        assert(found.contains(found[k]));
        assert(found.contains(&*found[k]));
        let i = choose|i: int| 0 <= i < notes.len() && notes[i] == *found[k];
        assert(names_note(notes[i], value));
    }
    if is_link_named(notes, value, link) {
        let i = choose|i: int|
            0 <= i < notes.len() && names_note(#[trigger] notes[i], value) && notes[i].wikilink@
                == link;
        assert(notes.contains(notes[i]));
        assert(found.contains(&notes[i]));
        let k = choose|k: int| 0 <= k < found.len() && found[k] == &notes[i];
        assert(links_of(found)[k] == link);
    }
}

/// Whether a link is named by what an event says in a field.
pub open spec fn is_link_said(
    notes: Seq<VaultNote>,
    event: StoredLogEvent,
    field: Seq<char>,
    link: Seq<char>,
) -> bool {
    exists|value: Seq<char>| #[trigger]
        is_value_of(event, field, value) && is_link_named(notes, value, link)
}

proof fn lemma_value_links_has(notes: Seq<VaultNote>, values: Seq<Seq<char>>, link: Seq<char>)
    ensures
        value_links(notes, values).contains(link) <==> exists|i: int|
            0 <= i < values.len() && is_link_named(notes, #[trigger] values[i], link),
    decreases values.len(),
{
    if values.len() > 0 {
        let init = values.drop_last();
        lemma_value_links_has(notes, init, link);
        lemma_link_named(notes, values.last(), link);
        lemma_joined_has(
            value_links(notes, init),
            links_of(notes_named_by(notes, values.last())),
            link,
        );
        assert(values[values.len() - 1] == values.last());
        if value_links(notes, init).contains(link) {
            let i = choose|i: int|
                0 <= i < init.len() && is_link_named(notes, #[trigger] init[i], link);
            assert(values[i] == init[i]);
        }
        if exists|i: int| 0 <= i < values.len() && is_link_named(notes, #[trigger] values[i], link) {
            let i = choose|i: int|
                0 <= i < values.len() && is_link_named(notes, #[trigger] values[i], link);
            assert(i < init.len() ==> init[i] == values[i]);
        }
    }
}

proof fn lemma_field_values_links(
    notes: Seq<VaultNote>,
    event: StoredLogEvent,
    field: Seq<char>,
    link: Seq<char>,
)
    ensures
        value_links(notes, event_field_values(event, field)).contains(link) <==> is_link_said(
            notes,
            event,
            field,
            link,
        ),
{
    let values = event_field_values(event, field);
    lemma_value_links_has(notes, values, link);
    if value_links(notes, values).contains(link) {
        let i = choose|i: int|
            0 <= i < values.len() && is_link_named(notes, #[trigger] values[i], link);
        assert(values.contains(values[i]));
        law_values_of_an_event_in_a_field(event, field, values[i]);
        assert(is_value_of(event, field, values[i]));
    }
    if is_link_said(notes, event, field, link) {
        let value = choose|value: Seq<char>| #[trigger]
            is_value_of(event, field, value) && is_link_named(notes, value, link);
        law_values_of_an_event_in_a_field(event, field, value);
        let i = choose|i: int| 0 <= i < values.len() && values[i] == value;
        assert(is_link_named(notes, values[i], link));
    }
}

proof fn lemma_field_links_has(
    notes: Seq<VaultNote>,
    event: StoredLogEvent,
    fields: Seq<(Seq<char>, Seq<char>)>,
    link: Seq<char>,
)
    ensures
        field_links(notes, event, fields).contains(link) <==> exists|i: int|
            0 <= i < fields.len() && is_link_said(notes, event, (#[trigger] fields[i]).1, link),
    decreases fields.len(),
{
    if fields.len() > 0 {
        let init = fields.drop_last();
        lemma_field_links_has(notes, event, init, link);
        lemma_field_values_links(notes, event, fields.last().1, link);
        lemma_joined_has(
            field_links(notes, event, init),
            value_links(notes, event_field_values(event, fields.last().1)),
            link,
        );
        assert(fields[fields.len() - 1] == fields.last());
        if field_links(notes, event, init).contains(link) {
            let i = choose|i: int|
                0 <= i < init.len() && is_link_said(notes, event, (#[trigger] init[i]).1, link);
            assert(fields[i] == init[i]);
        }
        if exists|i: int|
            0 <= i < fields.len() && is_link_said(notes, event, (#[trigger] fields[i]).1, link) {
            let i = choose|i: int|
                0 <= i < fields.len() && is_link_said(notes, event, (#[trigger] fields[i]).1, link);
            assert(i < init.len() ==> init[i] == fields[i]);
        }
    }
}

/// Whether a link is named by something that an event says of itself.
pub open spec fn is_link_of_event(
    notes: Seq<VaultNote>,
    event: StoredLogEvent,
    link: Seq<char>,
) -> bool {
    ||| is_link_named(notes, event.source@, link)
    ||| is_link_said(notes, event, "repo"@, link)
    ||| is_link_said(notes, event, "project"@, link)
    ||| is_link_said(notes, event, "product"@, link)
    ||| is_link_said(notes, event, "app"@, link)
    ||| is_link_said(notes, event, "service"@, link)
    ||| is_link_said(notes, event, "module"@, link)
    ||| is_link_said(notes, event, "work_item"@, link)
    ||| is_link_said(notes, event, "branch"@, link)
}

/// Whether a link is the one that an event asks for by a canonical note: that of
/// the first note so named, or, without a vault, the name itself.
pub open spec fn is_canonical(
    catalog: VaultCatalog,
    event: StoredLogEvent,
    link: Seq<char>,
) -> bool {
    exists|value: Seq<char>| #[trigger]
        is_value_of(event, "canonical_note"@, value) && is_canonical_for(catalog, value, link)
}

pub open spec fn is_canonical_for(
    catalog: VaultCatalog,
    value: Seq<char>,
    link: Seq<char>,
) -> bool {
    ||| exists|i: int| #[trigger]
        is_first_named(catalog.notes@, value, i) && catalog.notes@[i].wikilink@ == link
    ||| !catalog.configured && link == link_of(value) && forall|i: int|
        0 <= i < catalog.notes@.len() ==> !names_note(#[trigger] catalog.notes@[i], value)
}

proof fn lemma_first_named_is(notes: Seq<VaultNote>, value: Seq<char>) -> (at: int)
    ensures
        notes_named_by(notes, value).len() > 0 ==> is_first_named(notes, value, at)
            && notes_named_by(notes, value)[0] == notes[at],
    decreases notes.len(),
{
    law_notes_are_found_by_name(notes, value);
    if notes.len() == 0 {
        0
    } else {
        let init = notes.drop_last();
        let at = lemma_first_named_is(init, value);
        law_notes_are_found_by_name(init, value);
        if notes_named_by(init, value).len() > 0 {
            assert forall|i: int| 0 <= i < at implies !names_note(#[trigger] notes[i], value) by {
                assert(init[i] == notes[i]);
            }
            at
        } else {
            assert forall|i: int| 0 <= i < init.len() implies !names_note(
                #[trigger] notes[i],
                value,
            ) by {
                assert(init[i] == notes[i]);
            }
            notes.len() - 1
        }
    }
}

proof fn lemma_canonical_for(catalog: VaultCatalog, value: Seq<char>, link: Seq<char>)
    ensures
        is_canonical_for(catalog, value, link) <==> ({
            let named = notes_named_by(catalog.notes@, value);
            if named.len() > 0 {
                named[0].wikilink@ == link
            } else {
                !catalog.configured && link == link_of(value)
            }
        }),
{
    law_notes_are_found_by_name(catalog.notes@, value);
    let at = lemma_first_named_is(catalog.notes@, value);
    if notes_named_by(catalog.notes@, value).len() > 0 {
        assert(is_first_named(catalog.notes@, value, at));
        assert(names_note(catalog.notes@[at], value));
    }
}

proof fn lemma_canonical_has(catalog: VaultCatalog, values: Seq<Seq<char>>, link: Seq<char>)
    ensures
        canonical_links(catalog, values).contains(link) <==> exists|i: int|
            0 <= i < values.len() && is_canonical_for(catalog, #[trigger] values[i], link),
    decreases values.len(),
{
    if values.len() > 0 {
        let init = values.drop_last();
        lemma_canonical_has(catalog, init, link);
        lemma_canonical_for(catalog, values.last(), link);
        let named = notes_named_by(catalog.notes@, values.last());
        let before = canonical_links(catalog, init);
        if named.len() > 0 {
            lemma_push_has(before, named[0].wikilink@, link);
        } else {
            lemma_push_has(before, link_of(values.last()), link);
        }
        assert(values[values.len() - 1] == values.last());
        if before.contains(link) {
            let i = choose|i: int|
                0 <= i < init.len() && is_canonical_for(catalog, #[trigger] init[i], link);
            assert(values[i] == init[i]);
        }
        if exists|i: int|
            0 <= i < values.len() && is_canonical_for(catalog, #[trigger] values[i], link) {
            let i = choose|i: int|
                0 <= i < values.len() && is_canonical_for(catalog, #[trigger] values[i], link);
            assert(i < init.len() ==> init[i] == values[i]);
        }
    }
}

proof fn lemma_canonical(catalog: VaultCatalog, event: StoredLogEvent, link: Seq<char>)
    ensures
        canonical_links(catalog, event_field_values(event, "canonical_note"@)).contains(link)
            <==> is_canonical(catalog, event, link),
{
    let values = event_field_values(event, "canonical_note"@);
    lemma_canonical_has(catalog, values, link);
    if canonical_links(catalog, values).contains(link) {
        let i = choose|i: int|
            0 <= i < values.len() && is_canonical_for(catalog, #[trigger] values[i], link);
        assert(values.contains(values[i]));
        law_values_of_an_event_in_a_field(event, "canonical_note"@, values[i]);
        assert(is_value_of(event, "canonical_note"@, values[i]));
    }
    if is_canonical(catalog, event, link) {
        let value = choose|value: Seq<char>| #[trigger]
            is_value_of(event, "canonical_note"@, value) && is_canonical_for(catalog, value, link);
        law_values_of_an_event_in_a_field(event, "canonical_note"@, value);
        let i = choose|i: int| 0 <= i < values.len() && values[i] == value;
        assert(is_canonical_for(catalog, values[i], link));
    }
}

/// Whether a rule is in force for an event: it is enabled, and the event says
/// what each of its selectors asks for.
pub open spec fn in_force(rule: VaultLinkRule, event: StoredLogEvent) -> bool {
    rule.enabled && forall|k: int|
        0 <= k < rule.selectors@.len() ==> says(event, #[trigger] rule.selectors@[k])
}

proof fn lemma_in_force(rule: VaultLinkRule, event: StoredLogEvent)
    ensures
        rule_applies(rule, event) <==> in_force(rule, event),
{
    law_rule_is_met_selector_by_selector(rule, seq![event]);
    assert forall|k: int| 0 <= k < rule.selectors@.len() implies (is_said(
        seq![event],
        #[trigger] rule.selectors@[k],
    ) <==> says(event, rule.selectors@[k])) by {
        assert(seq![event][0] == event);
    }
}

/// Whether a link is the one of a rule in force, where no rule in force has more
/// selectors.
pub open spec fn is_link_by_rule(
    notes: Seq<VaultNote>,
    rules: Seq<VaultLinkRule>,
    event: StoredLogEvent,
    link: Seq<char>,
) -> bool {
    exists|k: int|
        0 <= k < rules.len() && in_force(#[trigger] rules[k], event) && is_link_with_id(
            notes,
            rules[k].target_note_id@,
            link,
        ) && most_selectors(rules, event, rules[k].selectors@.len())
}

pub open spec fn most_selectors(rules: Seq<VaultLinkRule>, event: StoredLogEvent, n: nat) -> bool {
    forall|j: int|
        0 <= j < rules.len() && in_force(#[trigger] rules[j], event) ==> rules[j].selectors@.len() <= n
}

proof fn lemma_decides(rules: Seq<VaultLinkRule>, rule: VaultLinkRule, event: StoredLogEvent)
    ensures
        rule_decides(rules, rule, event) <==> in_force(rule, event) && most_selectors(
            rules,
            event,
            rule.selectors@.len(),
        ),
{
    lemma_in_force(rule, event);
    assert forall|j: int| 0 <= j < rules.len() implies (rule_applies(#[trigger] rules[j], event)
        <==> in_force(rules[j], event)) by {
        lemma_in_force(rules[j], event);
    }
}

proof fn lemma_rule_links_has(
    notes: Seq<VaultNote>,
    rules: Seq<VaultLinkRule>,
    event: StoredLogEvent,
    n: nat,
    link: Seq<char>,
)
    requires
        n <= rules.len(),
    ensures
        rule_links(notes, rules, event, n).contains(link) <==> exists|k: int|
            0 <= k < n && in_force(#[trigger] rules[k], event) && is_link_with_id(
                notes,
                rules[k].target_note_id@,
                link,
            ) && most_selectors(rules, event, rules[k].selectors@.len()),
    decreases n,
{
    if n > 0 {
        let m = (n - 1) as nat;
        lemma_rule_links_has(notes, rules, event, m, link);
        let rule = rules[n - 1];
        lemma_decides(rules, rule, event);
        law_link_of_the_note_with_an_id(notes, rule.target_note_id@, link);
        match link_by_id(notes, rule.target_note_id@) {
            Some(other) => {
                lemma_push_has(rule_links(notes, rules, event, m), other, link);
            },
            None => {},
        }
    }
}

/// What an event leads to: the notes that it asks for by name, and besides them
/// those of the rules in force for it or, where there is none, those named by
/// what it says of itself.
pub open spec fn leads_to(
    catalog: VaultCatalog,
    rules: Seq<VaultLinkRule>,
    event: StoredLogEvent,
    link: Seq<char>,
) -> bool {
    ||| is_canonical(catalog, event, link)
    ||| if exists|k: int| 0 <= k < rules.len() && in_force(#[trigger] rules[k], event) {
        is_link_by_rule(catalog.notes@, rules, event, link)
    } else {
        is_link_of_event(catalog.notes@, event, link)
    }
}

proof fn lemma_event_fields_have(notes: Seq<VaultNote>, event: StoredLogEvent, link: Seq<char>)
    ensures
        (field_links(notes, event, metadata_fields()).contains(link) || links_of(
            notes_named_by(notes, event.source@),
        ).contains(link)) <==> is_link_of_event(notes, event, link),
{
    let fields = metadata_fields();
    lemma_field_links_has(notes, event, fields, link);
    lemma_link_named(notes, event.source@, link);
    assert(fields.len() == 9);
    assert(fields[0].1 == "repo"@);
    assert(fields[1].1 == "project"@);
    assert(fields[2].1 == "product"@);
    assert(fields[3].1 == "app"@);
    assert(fields[4].1 == "service"@);
    assert(fields[5].1 == "module"@);
    assert(fields[6].1 == "module"@);
    assert(fields[7].1 == "work_item"@);
    assert(fields[8].1 == "branch"@);
}

/// The links that an event leads to are found, and no others.
pub proof fn law_links_of_an_event(
    catalog: VaultCatalog,
    rules: Seq<VaultLinkRule>,
    event: StoredLogEvent,
    link: Seq<char>,
)
    ensures
        event_links(catalog, rules, event).contains(link) <==> leads_to(
            catalog,
            rules,
            event,
            link,
        ),
{
    let notes = catalog.notes@;
    let canonical = canonical_links(catalog, event_field_values(event, "canonical_note"@));
    lemma_canonical(catalog, event, link);
    lemma_rule_links_has(notes, rules, event, rules.len(), link);
    lemma_event_fields_have(notes, event, link);
    assert forall|j: int| 0 <= j < rules.len() implies (rule_applies(#[trigger] rules[j], event)
        <==> in_force(rules[j], event)) by {
        lemma_in_force(rules[j], event);
    }
    lemma_joined_has(canonical, rule_links(notes, rules, event, rules.len()), link);
    lemma_joined_has(canonical, field_links(notes, event, metadata_fields()), link);
    lemma_joined_has(
        canonical + field_links(notes, event, metadata_fields()),
        links_of(notes_named_by(notes, event.source@)),
        link,
    );
}

/// Whether an event says a name, as a whole, where it came from or in a field
/// that names what it is about.
pub open spec fn event_says(event: StoredLogEvent, name: Seq<char>) -> bool {
    ||| is_same_said(event, "source"@, name)
    ||| is_same_said(event, "repo"@, name)
    ||| is_same_said(event, "project"@, name)
    ||| is_same_said(event, "product"@, name)
    ||| is_same_said(event, "app"@, name)
    ||| is_same_said(event, "service"@, name)
    ||| is_same_said(event, "module"@, name)
    ||| is_same_said(event, "work_item"@, name)
    ||| is_same_said(event, "branch"@, name)
}

pub open spec fn is_same_said(event: StoredLogEvent, field: Seq<char>, name: Seq<char>) -> bool {
    exists|text: Seq<char>| #[trigger]
        is_value_of(event, field, text) && plain_identity(text) == plain_identity(name)
}

proof fn lemma_exact_said(events: Seq<StoredLogEvent>, field: Seq<char>, name: Seq<char>)
    ensures
        events_contain(events, field, "exact"@, name) <==> exists|i: int|
            0 <= i < events.len() && is_same_said(#[trigger] events[i], field, name),
{
    reveal_strlit("exact");
    reveal_strlit("prefix");
    assert("exact"@.len() != "prefix"@.len());
    if events_contain(events, field, "exact"@, name) {
        let i = choose|i: int|
            0 <= i < events.len() && some_meets(
                event_field_values(#[trigger] events[i], field),
                "exact"@,
                name,
            );
        let values = event_field_values(events[i], field);
        let k = choose|k: int|
            0 <= k < values.len() && identity_meets(#[trigger] values[k], "exact"@, name);
        assert(values.contains(values[k]));
        law_values_of_an_event_in_a_field(events[i], field, values[k]);
        assert(is_value_of(events[i], field, values[k]));
        assert(is_same_said(events[i], field, name));
    }
    if exists|i: int| 0 <= i < events.len() && is_same_said(#[trigger] events[i], field, name) {
        let i = choose|i: int|
            0 <= i < events.len() && is_same_said(#[trigger] events[i], field, name);
        let text = choose|text: Seq<char>| #[trigger]
            is_value_of(events[i], field, text) && plain_identity(text) == plain_identity(name);
        let values = event_field_values(events[i], field);
        law_values_of_an_event_in_a_field(events[i], field, text);
        let k = choose|k: int| 0 <= k < values.len() && values[k] == text;
        assert(identity_meets(values[k], "exact"@, name));
        assert(some_meets(event_field_values(events[i], field), "exact"@, name));
    }
}

proof fn lemma_name_occurs(name: Seq<char>, events: Seq<StoredLogEvent>)
    ensures
        name_occurs(name, events) <==> exists|i: int|
            0 <= i < events.len() && event_says(#[trigger] events[i], name),
{
    let fields = metadata_fields();
    assert(fields.len() == 9);
    assert(fields[0].1 == "repo"@);
    assert(fields[1].1 == "project"@);
    assert(fields[2].1 == "product"@);
    assert(fields[3].1 == "app"@);
    assert(fields[4].1 == "service"@);
    assert(fields[5].1 == "module"@);
    assert(fields[6].1 == "module"@);
    assert(fields[7].1 == "work_item"@);
    assert(fields[8].1 == "branch"@);
    lemma_exact_said(events, "source"@, name);
    lemma_exact_said(events, "repo"@, name);
    lemma_exact_said(events, "project"@, name);
    lemma_exact_said(events, "product"@, name);
    lemma_exact_said(events, "app"@, name);
    lemma_exact_said(events, "service"@, name);
    lemma_exact_said(events, "module"@, name);
    lemma_exact_said(events, "work_item"@, name);
    lemma_exact_said(events, "branch"@, name);
    if exists|i: int| 0 <= i < events.len() && event_says(#[trigger] events[i], name) {
        let i = choose|i: int| 0 <= i < events.len() && event_says(#[trigger] events[i], name);
        assert(events[i] == events[i]);
    }
}

/// Whether a product is spoken of: some event says one of its aliases.
pub open spec fn is_spoken_of(product: ProductMapping, events: Seq<StoredLogEvent>) -> bool {
    exists|a: int, i: int|
        0 <= a < product.aliases@.len() && 0 <= i < events.len() && event_says(
            #[trigger] events[i],
            (#[trigger] product.aliases@[a])@,
        )
}

/// A product is found in some events where one of them says one of its aliases.
pub proof fn law_product_is_found_by_its_aliases(
    product: ProductMapping,
    events: Seq<StoredLogEvent>,
)
    ensures
        product_occurs(product, events) <==> is_spoken_of(product, events),
{
    if product_occurs(product, events) {
        let a = choose|a: int|
            0 <= a < product.aliases@.len() && name_occurs((#[trigger] product.aliases@[a])@, events);
        lemma_name_occurs(product.aliases@[a]@, events);
        let i = choose|i: int|
            0 <= i < events.len() && event_says(#[trigger] events[i], product.aliases@[a]@);
        assert(event_says(events[i], product.aliases@[a]@));
    }
    if is_spoken_of(product, events) {
        let (a, i) = choose|a: int, i: int|
            0 <= a < product.aliases@.len() && 0 <= i < events.len() && event_says(
                #[trigger] events[i],
                (#[trigger] product.aliases@[a])@,
            );
        lemma_name_occurs(product.aliases@[a]@, events);
        assert(name_occurs(product.aliases@[a]@, events));
    }
}

/// Whether a link is that of the note of a product which is spoken of.
pub open spec fn is_link_of_product(
    notes: Seq<VaultNote>,
    product: ProductMapping,
    events: Seq<StoredLogEvent>,
    link: Seq<char>,
) -> bool {
    is_spoken_of(product, events) && exists|i: int| #[trigger]
        is_first_named(notes, product.note@, i) && notes[i].wikilink@ == link
}

proof fn lemma_product_links_has(
    notes: Seq<VaultNote>,
    products: Seq<ProductMapping>,
    events: Seq<StoredLogEvent>,
    link: Seq<char>,
)
    ensures
        product_links(notes, products, events).contains(link) <==> exists|i: int|
            0 <= i < products.len() && is_link_of_product(
                notes,
                #[trigger] products[i],
                events,
                link,
            ),
    decreases products.len(),
{
    if products.len() > 0 {
        let init = products.drop_last();
        let product = products.last();
        let before = product_links(notes, init, events);
        lemma_product_links_has(notes, init, events, link);
        law_product_is_found_by_its_aliases(product, events);
        law_notes_are_found_by_name(notes, product.note@);
        let named = notes_named_by(notes, product.note@);
        if named.len() > 0 {
            let at = lemma_first_named_is(notes, product.note@);
            assert(is_first_named(notes, product.note@, at));
            lemma_push_has(before, named[0].wikilink@, link);
        }
        assert(is_link_of_product(notes, product, events, link) <==> (product_occurs(
            product,
            events,
        ) && named.len() > 0 && named[0].wikilink@ == link));
        assert(products[products.len() - 1] == product);
        if before.contains(link) {
            let i = choose|i: int|
                0 <= i < init.len() && is_link_of_product(notes, #[trigger] init[i], events, link);
            assert(products[i] == init[i]);
        }
        if exists|i: int|
            0 <= i < products.len() && is_link_of_product(
                notes,
                #[trigger] products[i],
                events,
                link,
            ) {
            let i = choose|i: int|
                0 <= i < products.len() && is_link_of_product(
                    notes,
                    #[trigger] products[i],
                    events,
                    link,
                );
            assert(i < init.len() ==> init[i] == products[i]);
        }
    }
}

proof fn lemma_all_event_links_has(
    catalog: VaultCatalog,
    rules: Seq<VaultLinkRule>,
    events: Seq<StoredLogEvent>,
    link: Seq<char>,
)
    ensures
        all_event_links(catalog, rules, events).contains(link) <==> exists|i: int|
            0 <= i < events.len() && leads_to(catalog, rules, #[trigger] events[i], link),
    decreases events.len(),
{
    if events.len() > 0 {
        let init = events.drop_last();
        lemma_all_event_links_has(catalog, rules, init, link);
        law_links_of_an_event(catalog, rules, events.last(), link);
        lemma_joined_has(
            all_event_links(catalog, rules, init),
            event_links(catalog, rules, events.last()),
            link,
        );
        assert(events[events.len() - 1] == events.last());
        if all_event_links(catalog, rules, init).contains(link) {
            let i = choose|i: int|
                0 <= i < init.len() && leads_to(catalog, rules, #[trigger] init[i], link);
            assert(events[i] == init[i]);
        }
        if exists|i: int|
            0 <= i < events.len() && leads_to(catalog, rules, #[trigger] events[i], link) {
            let i = choose|i: int|
                0 <= i < events.len() && leads_to(catalog, rules, #[trigger] events[i], link);
            assert(i < init.len() ==> init[i] == events[i]);
        }
    }
}

/// The candidates for some events are the links that an event leads to and
/// those of the products that are spoken of, each once and in order.
pub proof fn law_candidates_for_some_events(
    catalog: VaultCatalog,
    config: VaultContextConfig,
    rules: Seq<VaultLinkRule>,
    events: Seq<StoredLogEvent>,
    link: Seq<char>,
)
    ensures
        candidate_notes(catalog, config, rules, events).contains(link) <==> {
            ||| exists|i: int|
                0 <= i < events.len() && leads_to(catalog, rules, #[trigger] events[i], link)
            ||| exists|i: int|
                0 <= i < config.products@.len() && is_link_of_product(
                    catalog.notes@,
                    #[trigger] config.products@[i],
                    events,
                    link,
                )
        },
        increasing(candidate_notes(catalog, config, rules, events)),
{
    let found = all_event_links(catalog, rules, events);
    let more = product_links(catalog.notes@, config.products@, events);
    lemma_all_event_links_has(catalog, rules, events, link);
    lemma_product_links_has(catalog.notes@, config.products@, events, link);
    lemma_joined_has(found, more, link);
    lemma_ordered_set(found + more);
}

/// What is said of the vault: the daily note, the candidates, and a revision
/// that follows the catalogue and each enabled rule.
pub proof fn law_context_names_what_it_found(
    catalog: VaultCatalog,
    config: VaultContextConfig,
    rules: Seq<VaultLinkRule>,
    events: Seq<StoredLogEvent>,
    daily_note: Seq<char>,
)
    ensures
        ({
            let context = vault_context(catalog, config, rules, events, daily_note);
            let links = candidate_notes(catalog, config, rules, events);
            &&& context is Record
            &&& context.field("daily_note"@) == Some(JsonView::Text(daily_note))
            &&& context.field("candidate_notes"@) is Some
            &&& context.field("candidate_notes"@)->0 is List
            &&& (context.field("candidate_notes"@)->0)->List_0.len() == links.len()
            &&& forall|i: int|
                0 <= i < links.len() ==> #[trigger] (context.field(
                    "candidate_notes"@,
                )->0)->List_0[i] == JsonView::Text(links[i])
            &&& context.field("link_context_revision"@) == Some(
                JsonView::Text(
                    hex_digits(
                        hash_of(encode_utf8(rules_text(catalog.revision@, rules))) as nat,
                        16,
                    ),
                ),
            )
        }),
{
    reveal_strlit("daily_note");
    reveal_strlit("candidate_notes");
    reveal_strlit("link_context_revision");
    assert("daily_note"@.len() == 10);
    assert("candidate_notes"@.len() == 15);
    assert("link_context_revision"@.len() == 21);
}

/// The revision takes in each enabled rule, with when it was last changed, and
/// passes over those that are not.
pub proof fn law_revision_follows_the_enabled_rules(
    catalog: Seq<char>,
    rules: Seq<VaultLinkRule>,
    rule: VaultLinkRule,
)
    ensures
        rules_text(catalog, Seq::empty()) == catalog,
        rule.enabled ==> rules_text(catalog, rules.push(rule)) == rules_text(catalog, rules)
            + rule.id@ + moment_text(rule.updated_at),
        !rule.enabled ==> rules_text(catalog, rules.push(rule)) == rules_text(catalog, rules),
{
    assert(rules.push(rule).drop_last() =~= rules);
}

/// The daily note is the one of the latest event, and of now only where there
/// is no event.
pub proof fn law_daily_note_is_of_the_latest_event(events: Seq<StoredLogEvent>, now: Moment)
    ensures
        events.len() == 0 ==> latest_or(events, now) == now,
        events.len() > 0 ==> {
            &&& exists|i: int|
                0 <= i < events.len() && (#[trigger] events[i]).timestamp == latest_or(events, now)
            &&& forall|i: int|
                0 <= i < events.len() ==> !latest_or(events, now).is_before(
                    (#[trigger] events[i]).timestamp,
                )
        },
    decreases events.len(),
{
    if events.len() == 1 {
        assert(events[0].timestamp == latest_or(events, now));
    } else if events.len() > 1 {
        let init = events.drop_last();
        law_daily_note_is_of_the_latest_event(init, now);
        let before = latest_or(init, now);
        let latest = latest_or(events, now);
        let i = choose|i: int| 0 <= i < init.len() && (#[trigger] init[i]).timestamp == before;
        assert(events[i].timestamp == before);
        assert(events[events.len() - 1] == events.last());
        assert forall|k: int| 0 <= k < events.len() implies !latest.is_before(
            (#[trigger] events[k]).timestamp,
        ) by {
            if k < init.len() {
                assert(init[k] == events[k]);
            }
        }
    }
}

} // verus!
