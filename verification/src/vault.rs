//! Notes of a vault, and the rules that link events to them.
use crate::errors::{text2, text3};
use crate::json::{Json, JsonView, item_strings, number_string, texts_in};
use crate::models::{LinkSelector, Moment, StoredLogEvent};
use crate::text::{
    begins_with, byte_len, bytes_in, chars_of, lemma_take_step, lemma_views_push, push_texts,
    starts_with, str_eq, trim, trimmed, views,
};
use vstd::prelude::*;
use vstd::string::*;
use vstd::utf8::*;

verus! {

/// A note of a vault.
#[derive(Debug, Clone, PartialEq, Eq)]
pub struct VaultNote {
    pub id: String,
    pub title: String,
    pub wikilink: String,
    pub path: String,
    pub group: String,
    pub aliases: Vec<String>,
    pub tags: Vec<String>,
    /// Reference values by the key that they stand under, each key once, in order.
    pub references: Vec<(String, Vec<String>)>,
}

/// A rule that links events to a note. `updated_at` says which version it is.
#[derive(Debug, Clone, PartialEq, Eq)]
pub struct VaultLinkRule {
    pub id: String,
    pub selectors: Vec<LinkSelector>,
    pub target_note_id: String,
    pub enabled: bool,
    pub updated_at: Moment,
}

/// The notes of a vault, and a revision that changes with them.
#[derive(Debug, Clone, PartialEq, Eq)]
pub struct VaultCatalog {
    pub configured: bool,
    pub root: Option<String>,
    pub revision: String,
    pub notes: Vec<VaultNote>,
}

/// Whether a character is a letter or a digit of Unicode.
pub uninterp spec fn alphanumeric(c: char) -> bool;

/// `char::is_alphanumeric` of std.
pub assume_specification[ char::is_alphanumeric ](c: char) -> (b: bool)
    ensures
        b == alphanumeric(c),
;

/// The lower case of a character, which may be several.
pub uninterp spec fn lower_chars(c: char) -> Seq<char>;

/// `char::to_lowercase` of std.
#[verifier::external_body]
fn char_lowercase(c: char) -> (r: String)
    ensures
        r@ == lower_chars(c),
{
    c.to_lowercase().to_string()
}

/// The letters and digits of a text in lower case.
pub open spec fn plain_identity(s: Seq<char>) -> Seq<char>
    decreases s.len(),
{
    if s.len() == 0 {
        Seq::empty()
    } else if alphanumeric(s.last()) {
        plain_identity(s.drop_last()) + lower_chars(s.last())
    } else {
        plain_identity(s.drop_last())
    }
}

pub fn normalized_identity(value: &str) -> (r: String)
    ensures
        r@ == plain_identity(value@),
{
    let chars = chars_of(value);
    let mut r: String = String::new();
    let mut i: usize = 0;
    assert(chars@.take(0) =~= Seq::<char>::empty());
    assert(r@ =~= Seq::<char>::empty());
    while i < chars.len()
        invariant
            i <= chars@.len(),
            r@ == plain_identity(chars@.take(i as int)),
        decreases chars@.len() - i,
    {
        proof {
            lemma_take_step(chars@, i as int);
        }
        if chars[i].is_alphanumeric() {
            r.push_str(char_lowercase(chars[i]).as_str());
        }
        i += 1;
    }
    assert(chars@.take(i as int) =~= chars@);
    r
}

pub open spec fn is_ascii_alnum(c: char) -> bool {
    '0' <= c <= '9' || 'a' <= c <= 'z' || 'A' <= c <= 'Z'
}

/// The pieces of a text between its characters that are no ASCII letters or
/// digits.
pub open spec fn tokens(s: Seq<char>) -> Seq<Seq<char>>
    decreases s.len(),
{
    if s.len() == 0 {
        seq![Seq::empty()]
    } else {
        let before = tokens(s.drop_last());
        if is_ascii_alnum(s.last()) {
            before.drop_last().push(before.last().push(s.last()))
        } else {
            before.push(Seq::empty())
        }
    }
}

fn split_tokens(s: &str) -> (r: Vec<String>)
    ensures
        views(r@) == tokens(s@),
{
    broadcast use lemma_views_push;
    let chars = chars_of(s);
    let mut r: Vec<String> = Vec::new();
    let mut token: String = String::new();
    let mut i: usize = 0;
    assert(chars@.take(0) =~= Seq::<char>::empty());
    assert(views(r@).push(token@) =~= tokens(chars@.take(0)));
    while i < chars.len()
        invariant
            i <= chars@.len(),
            views(r@).push(token@) == tokens(chars@.take(i as int)),
        decreases chars@.len() - i,
    {
        proof {
            lemma_take_step(chars@, i as int);
            assert(tokens(chars@.take(i as int)).drop_last() =~= views(r@));
        }
        let c = chars[i];
        if ('0' <= c && c <= '9') || ('a' <= c && c <= 'z') || ('A' <= c && c <= 'Z') {
            token.push(c);
        } else {
            r.push(token);
            token = String::new();
            assert(token@ =~= Seq::<char>::empty());
        }
        i += 1;
    }
    assert(chars@.take(chars@.len() as int) =~= s@);
    r.push(token);
    r
}

/// Whether a value is a reference, or holds it as a token of three characters
/// or more.
pub open spec fn names_reference(reference: Seq<char>, value: Seq<char>) -> bool {
    plain_identity(reference) == plain_identity(value) || exists|i: int|
        0 <= i < tokens(value).len() && byte_len(#[trigger] tokens(value)[i]) >= 3
            && plain_identity(tokens(value)[i]) == plain_identity(reference)
}

pub fn reference_matches(reference: &str, value: &str) -> (r: bool)
    ensures
        r == names_reference(reference@, value@),
{
    let expected = normalized_identity(reference);
    if str_eq(expected.as_str(), normalized_identity(value).as_str()) {
        return true;
    }
    let parts = split_tokens(value);
    let ghost all = tokens(value@);
    let mut i: usize = 0;
    while i < parts.len()
        invariant
            i <= parts@.len(),
            views(parts@) == all,
            all == tokens(value@),
            expected@ == plain_identity(reference@),
            forall|k: int|
                0 <= k < i ==> !(byte_len(#[trigger] all[k]) >= 3 && plain_identity(all[k])
                    == plain_identity(reference@)),
        decreases parts@.len() - i,
    {
        assert(all[i as int] == parts@[i as int]@);
        if bytes_in(parts[i].as_str()) >= 3 && str_eq(
            normalized_identity(parts[i].as_str()).as_str(),
            expected.as_str(),
        ) {
            return true;
        }
        i += 1;
    }
    false
}

/// Whether one of some texts is that identity.
pub open spec fn some_is(texts: Seq<Seq<char>>, value: Seq<char>) -> bool {
    exists|i: int|
        0 <= i < texts.len() && plain_identity(#[trigger] texts[i]) == plain_identity(value)
}

/// Whether a value names one of a note's references.
pub open spec fn names_some(references: Seq<(String, Vec<String>)>, value: Seq<char>) -> bool {
    exists|i: int, k: int|
        0 <= i < references.len() && 0 <= k < references[i].1@.len() && names_reference(
            #[trigger] references[i].1@[k]@,
            value,
        )
}

/// Whether a value names a note: by its title, its ID, an alias or a reference.
pub open spec fn names_note(note: VaultNote, value: Seq<char>) -> bool {
    ||| plain_identity(note.title@) == plain_identity(value)
    ||| plain_identity(note.id@) == plain_identity(value)
    ||| some_is(views(note.aliases@), value)
    ||| names_some(note.references@, value)
}

fn value_names_note(note: &VaultNote, value: &str) -> (r: bool)
    ensures
        r == names_note(*note, value@),
{
    let expected = normalized_identity(value);
    if str_eq(normalized_identity(note.title.as_str()).as_str(), expected.as_str()) || str_eq(
        normalized_identity(note.id.as_str()).as_str(),
        expected.as_str(),
    ) {
        return true;
    }
    let ghost aliases = views(note.aliases@);
    let mut i: usize = 0;
    while i < note.aliases.len()
        invariant
            i <= note.aliases@.len(),
            aliases == views(note.aliases@),
            expected@ == plain_identity(value@),
            forall|k: int|
                0 <= k < i ==> plain_identity(#[trigger] aliases[k]) != plain_identity(value@),
        decreases note.aliases@.len() - i,
    {
        if str_eq(
            normalized_identity(note.aliases[i].as_str()).as_str(),
            expected.as_str(),
        ) {
            assert(plain_identity(aliases[i as int]) == plain_identity(value@));
            return true;
        }
        i += 1;
    }
    let mut n: usize = 0;
    while n < note.references.len()
        invariant
            n <= note.references@.len(),
            forall|a: int, b: int|
                0 <= a < n && 0 <= b < note.references@[a].1@.len() ==> !names_reference(
                    #[trigger] note.references@[a].1@[b]@,
                    value@,
                ),
        decreases note.references@.len() - n,
    {
        let values = &note.references[n].1;
        let mut k: usize = 0;
        while k < values.len()
            invariant
                n < note.references@.len(),
                *values == note.references@[n as int].1,
                k <= values@.len(),
                forall|b: int|
                    0 <= b < k ==> !names_reference(
                        #[trigger] note.references@[n as int].1@[b]@,
                        value@,
                    ),
            decreases values@.len() - k,
        {
            if reference_matches(values[k].as_str(), value) {
                assert(names_reference(note.references@[n as int].1@[k as int]@, value@));
                return true;
            }
            k += 1;
        }
        n += 1;
    }
    false
}

/// The notes that a value names.
pub open spec fn notes_named_by<'a>(notes: Seq<VaultNote>, value: Seq<char>) -> Seq<&'a VaultNote>
    decreases notes.len(),
{
    if notes.len() == 0 {
        Seq::empty()
    } else if names_note(notes.last(), value) {
        notes_named_by(notes.drop_last(), value).push(&notes.last())
    } else {
        notes_named_by(notes.drop_last(), value)
    }
}

pub fn exact_note_matches<'a>(notes: &'a Vec<VaultNote>, value: &str) -> (r: Vec<&'a VaultNote>)
    ensures
        r@ == notes_named_by(notes@, value@),
{
    let mut r: Vec<&'a VaultNote> = Vec::new();
    let mut i: usize = 0;
    assert(notes@.take(0) =~= Seq::<VaultNote>::empty());
    while i < notes.len()
        invariant
            i <= notes@.len(),
            r@ == notes_named_by(notes@.take(i as int), value@),
        decreases notes@.len() - i,
    {
        proof {
            lemma_take_step(notes@, i as int);
        }
        if value_names_note(&notes[i], value) {
            r.push(&notes[i]);
        }
        i += 1;
    }
    assert(notes@.take(i as int) =~= notes@);
    r
}

/// The first note that a value names.
pub fn find_note<'a>(notes: &'a Vec<VaultNote>, value: &str) -> (r: Option<&'a VaultNote>)
    ensures
        ({
            let named = notes_named_by(notes@, value@);
            if named.len() > 0 {
                r == Some(named[0])
            } else {
                r is None
            }
        }),
{
    let named = exact_note_matches(notes, value);
    if named.len() > 0 {
        Some(named[0])
    } else {
        None
    }
}

/// A note's name as a link.
pub open spec fn link_of(value: Seq<char>) -> Seq<char> {
    if begins_with(value, "[["@) {
        value
    } else {
        "[["@ + value + "]]"@
    }
}

pub fn wikilink(value: &str) -> (r: String)
    ensures
        r@ == link_of(value@),
{
    if starts_with(value, "[[") {
        value.to_owned()
    } else {
        text3("[[", value, "]]")
    }
}

/// The texts of a JSON value: a text, the texts of a list, or a number.
pub open spec fn value_texts(value: JsonView) -> Seq<Seq<char>> {
    match value {
        JsonView::Text(s) => seq![s],
        JsonView::List(items) => texts_in(items),
        JsonView::Number(n) => seq![n],
        _ => Seq::empty(),
    }
}

pub fn scalar_strings(value: &Json) -> (r: Vec<String>)
    ensures
        views(r@) == value_texts(value@),
{
    match value {
        Json::Text(s) => {
            let mut r: Vec<String> = Vec::new();
            r.push(s.as_str().to_owned());
            assert(views(r@) =~= value_texts(value@));
            r
        },
        Json::List(items) => item_strings(items),
        Json::Number(n) => {
            let mut r: Vec<String> = Vec::new();
            r.push(number_string(n));
            assert(views(r@) =~= value_texts(value@));
            r
        },
        _ => {
            let r: Vec<String> = Vec::new();
            assert(views(r@) =~= value_texts(value@));
            r
        },
    }
}

pub open spec fn metadata_texts(event: StoredLogEvent, key: Seq<char>) -> Seq<Seq<char>> {
    match event.field(key) {
        Some(value) => value_texts(value),
        None => Seq::empty(),
    }
}

/// The values that an event has in a field.
pub open spec fn event_field_values(event: StoredLogEvent, field: Seq<char>) -> Seq<Seq<char>> {
    if field == "source"@ {
        seq![event.source@]
    } else if field == "module"@ {
        metadata_texts(event, "module"@) + metadata_texts(event, "modules"@)
    } else {
        metadata_texts(event, field)
    }
}

fn push_metadata_texts(event: &StoredLogEvent, key: &str, out: &mut Vec<String>)
    ensures
        views(final(out)@) == views(old(out)@) + metadata_texts(*event, key@),
{
    match event.get(key) {
        Some(value) => {
            let texts = scalar_strings(value);
            push_texts(out, &texts);
        },
        None => {
            assert(views(out@) + Seq::<Seq<char>>::empty() =~= views(out@));
        },
    }
}

pub fn event_values_of(event: &StoredLogEvent, field: &str) -> (r: Vec<String>)
    ensures
        views(r@) == event_field_values(*event, field@),
{
    broadcast use lemma_views_push;
    let mut r: Vec<String> = Vec::new();
    assert(views(r@) =~= Seq::<Seq<char>>::empty());
    if str_eq(field, "source") {
        r.push(event.source.as_str().to_owned());
        assert(views(r@) =~= event_field_values(*event, field@));
    } else if str_eq(field, "module") {
        push_metadata_texts(event, "module", &mut r);
        push_metadata_texts(event, "modules", &mut r);
        assert(views(r@) =~= event_field_values(*event, field@));
    } else {
        push_metadata_texts(event, field, &mut r);
        assert(views(r@) =~= event_field_values(*event, field@));
    }
    r
}

/// Whether a value meets what is expected, as a beginning or as a whole.
pub open spec fn identity_meets(value: Seq<char>, operator: Seq<char>, expected: Seq<char>) -> bool {
    if operator == "prefix"@ {
        begins_with(plain_identity(value), plain_identity(expected))
    } else {
        plain_identity(value) == plain_identity(expected)
    }
}

fn meets(value: &str, operator: &str, expected: &str) -> (r: bool)
    ensures
        r == identity_meets(value@, operator@, expected@),
{
    let value = normalized_identity(value);
    let expected = normalized_identity(expected);
    if str_eq(operator, "prefix") {
        starts_with(value.as_str(), expected.as_str())
    } else {
        str_eq(value.as_str(), expected.as_str())
    }
}

pub open spec fn some_meets(
    values: Seq<Seq<char>>,
    operator: Seq<char>,
    expected: Seq<char>,
) -> bool {
    exists|i: int|
        0 <= i < values.len() && identity_meets(#[trigger] values[i], operator, expected)
}

/// Whether one of some events has a value in a field that meets what is
/// expected.
pub open spec fn events_contain(
    events: Seq<StoredLogEvent>,
    field: Seq<char>,
    operator: Seq<char>,
    expected: Seq<char>,
) -> bool {
    exists|i: int|
        0 <= i < events.len() && some_meets(
            event_field_values(#[trigger] events[i], field),
            operator,
            expected,
        )
}

fn some_value_fits(values: &Vec<String>, operator: &str, expected: &str) -> (r: bool)
    ensures
        r == some_meets(views(values@), operator@, expected@),
{
    let ghost all = views(values@);
    let mut i: usize = 0;
    while i < values.len()
        invariant
            i <= values@.len(),
            all == views(values@),
            forall|k: int| 0 <= k < i ==> !identity_meets(#[trigger] all[k], operator@, expected@),
        decreases values@.len() - i,
    {
        if meets(values[i].as_str(), operator, expected) {
            assert(identity_meets(all[i as int], operator@, expected@));
            return true;
        }
        i += 1;
    }
    false
}

pub fn event_contains(events: &[StoredLogEvent], field: &str, operator: &str, expected: &str) -> (r: bool)
    ensures
        r == events_contain(events@, field@, operator@, expected@),
{
    let mut i: usize = 0;
    while i < events.len()
        invariant
            i <= events@.len(),
            forall|k: int|
                0 <= k < i ==> !some_meets(
                    event_field_values(#[trigger] events@[k], field@),
                    operator@,
                    expected@,
                ),
        decreases events@.len() - i,
    {
        let values = event_values_of(&events[i], field);
        if some_value_fits(&values, operator, expected) {
            assert(some_meets(
                event_field_values(events@[i as int], field@),
                operator@,
                expected@,
            ));
            return true;
        }
        i += 1;
    }
    false
}

/// Whether some events meet every selector of a rule.
pub open spec fn rule_met(rule: VaultLinkRule, events: Seq<StoredLogEvent>) -> bool {
    forall|k: int|
        0 <= k < rule.selectors@.len() ==> events_contain(
            events,
            (#[trigger] rule.selectors@[k]).field@,
            rule.selectors@[k].operator@,
            rule.selectors@[k].value@,
        )
}

pub fn rule_matches(rule: &VaultLinkRule, events: &[StoredLogEvent]) -> (r: bool)
    ensures
        r == rule_met(*rule, events@),
{
    let mut k: usize = 0;
    while k < rule.selectors.len()
        invariant
            k <= rule.selectors@.len(),
            forall|n: int|
                0 <= n < k ==> events_contain(
                    events@,
                    (#[trigger] rule.selectors@[n]).field@,
                    rule.selectors@[n].operator@,
                    rule.selectors@[n].value@,
                ),
        decreases rule.selectors@.len() - k,
    {
        let s = &rule.selectors[k];
        if !event_contains(events, s.field.as_str(), s.operator.as_str(), s.value.as_str()) {
            assert(!events_contain(
                events@,
                rule.selectors@[k as int].field@,
                rule.selectors@[k as int].operator@,
                rule.selectors@[k as int].value@,
            ));
            return false;
        }
        k += 1;
    }
    true
}

/// Whether the only selector of a rule names an identity.
pub open spec fn names_identity(
    selectors: Seq<LinkSelector>,
    field: Seq<char>,
    value: Seq<char>,
) -> bool {
    &&& selectors.len() == 1
    &&& selectors[0].field@ == field
    &&& identity_meets(value, selectors[0].operator@, selectors[0].value@)
}

pub fn selectors_match_identity(selectors: &Vec<LinkSelector>, field: &str, value: &str) -> (r: bool)
    ensures
        r == names_identity(selectors@, field@, value@),
{
    selectors.len() == 1 && str_eq(selectors[0].field.as_str(), field) && meets(
        value,
        selectors[0].operator.as_str(),
        selectors[0].value.as_str(),
    )
}

/// A field that a rule may select by.
pub open spec fn is_rule_field(field: Seq<char>) -> bool {
    ||| field == "source"@
    ||| field == "repo"@
    ||| field == "project"@
    ||| field == "product"@
    ||| field == "app"@
    ||| field == "service"@
    ||| field == "module"@
    ||| field == "work_item"@
    ||| field == "branch"@
}

/// What is wrong with some selectors: the first fault of the first faulty one.
pub open spec fn selector_error(selectors: Seq<LinkSelector>) -> Option<Seq<char>>
    decreases selectors.len(),
{
    if selectors.len() == 0 {
        None
    } else {
        let s = selectors.last();
        match selector_error(selectors.drop_last()) {
            Some(error) => Some(error),
            None => if !is_rule_field(s.field@) {
                Some("unsupported selector field "@ + s.field@)
            } else if !(s.operator@ == "exact"@ || s.operator@ == "prefix"@) {
                Some("selector operator must be exact or prefix"@)
            } else if trimmed(s.value@).len() == 0 || byte_len(s.value@) > 300 {
                Some("selector value must contain 1 to 300 bytes"@)
            } else {
                None
            },
        }
    }
}

/// Whether a note with that ID is in a catalog.
pub open spec fn has_note(notes: Seq<VaultNote>, id: Seq<char>) -> bool {
    exists|i: int| 0 <= i < notes.len() && (#[trigger] notes[i]).id@ == id
}

/// What is wrong with a rule.
pub open spec fn rule_error(rule: VaultLinkRule, notes: Seq<VaultNote>) -> Option<Seq<char>> {
    if rule.selectors@.len() == 0 || rule.selectors@.len() > 8 {
        Some("a mapping requires 1 to 8 selectors"@)
    } else if !has_note(notes, rule.target_note_id@) {
        Some("mapping target is not present in the vault catalog"@)
    } else {
        selector_error(rule.selectors@)
    }
}

fn rule_field(field: &str) -> (r: bool)
    ensures
        r == is_rule_field(field@),
{
    str_eq(field, "source") || str_eq(field, "repo") || str_eq(field, "project") || str_eq(
        field,
        "product",
    ) || str_eq(field, "app") || str_eq(field, "service") || str_eq(field, "module") || str_eq(
        field,
        "work_item",
    ) || str_eq(field, "branch")
}

/// Whether a rule may be saved.
pub fn validate_rule(rule: &VaultLinkRule, catalog: &VaultCatalog) -> (r: Result<(), String>)
    ensures
        match rule_error(*rule, catalog.notes@) {
            Some(error) => r is Err && r->Err_0@ == error,
            None => r is Ok,
        },
{
    if rule.selectors.len() == 0 || rule.selectors.len() > 8 {
        return Err("a mapping requires 1 to 8 selectors".to_owned());
    }
    let mut found: bool = false;
    let mut n: usize = 0;
    while n < catalog.notes.len()
        invariant
            n <= catalog.notes@.len(),
            found == exists|i: int|
                0 <= i < n && (#[trigger] catalog.notes@[i]).id@ == rule.target_note_id@,
        decreases catalog.notes@.len() - n,
    {
        if str_eq(catalog.notes[n].id.as_str(), rule.target_note_id.as_str()) {
            found = true;
        }
        n += 1;
    }
    if !found {
        return Err("mapping target is not present in the vault catalog".to_owned());
    }
    let mut r: Result<(), String> = Ok(());
    let mut i: usize = 0;
    assert(rule.selectors@.take(0) =~= Seq::<LinkSelector>::empty());
    while i < rule.selectors.len()
        invariant
            i <= rule.selectors@.len(),
            match selector_error(rule.selectors@.take(i as int)) {
                Some(error) => r is Err && r->Err_0@ == error,
                None => r is Ok,
            },
        decreases rule.selectors@.len() - i,
    {
        proof {
            lemma_take_step(rule.selectors@, i as int);
        }
        let s = &rule.selectors[i];
        if r.is_ok() {
            if !rule_field(s.field.as_str()) {
                r = Err(text2("unsupported selector field ", s.field.as_str()));
            } else if !(str_eq(s.operator.as_str(), "exact") || str_eq(
                s.operator.as_str(),
                "prefix",
            )) {
                r = Err("selector operator must be exact or prefix".to_owned());
            } else if trim(s.value.as_str()).as_str().is_empty() || bytes_in(s.value.as_str())
                > 300 {
                r = Err("selector value must contain 1 to 300 bytes".to_owned());
            }
        }
        i += 1;
    }
    assert(rule.selectors@.take(i as int) =~= rule.selectors@);
    r
}

} // verus!
