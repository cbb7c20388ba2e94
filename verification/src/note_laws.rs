//! What is read from a knowledge note, and which notes are read at all.
use crate::daily_writer::{fence_after, fence_char, is_block_id};
use crate::digest::{digest, text_digest};
use crate::notes::{
    all_references, deduplicated, entry_texts, first_identity_error, frontmatter,
    frontmatter_parts, heading_in, heading_text, item_text, item_texts, last_dot, marker_id,
    name_title, normals, note_from, note_text, note_title, reference_error, reference_keys,
    reference_order, references_by_field, references_for, scalar_entry, stem, stripped,
    texts_in_keys, without_blocks,
};
use crate::ordered::lemma_push_contains;
use crate::resolution::{automatic_fields, normal_identity};
use crate::text::{
    begins_with, byte_len, finishes_with, full_lines, lowercased, occurs_at, pieces, text_lines,
    trimmed,
};
use crate::text_laws::{
    law_blanks_are_trimmed, law_piece_without_the_character, law_pieces_are_between,
    law_text_around_a_part, law_text_without_a_part,
};
use crate::vault_laws::lemma_joined_has;
use crate::yaml::{YamlView, yaml_parsed};
use vstd::prelude::*;
use vstd::string::*;

verus! {

/// Whether a line is the first heading outside fenced code, with that text.
pub open spec fn is_heading_at(lines: Seq<Seq<char>>, at: int, title: Seq<char>) -> bool {
    &&& 0 <= at < lines.len()
    &&& fence_after(None, lines.take(at)) is None
    &&& fence_char(lines[at]) is None
    &&& trimmed(lines[at]).len() > 2
    &&& trimmed(lines[at])[0] == '#'
    &&& trimmed(lines[at])[1] == ' '
    &&& title == trimmed(trimmed(lines[at]).skip(2))
    &&& title.len() > 0
}

pub open spec fn is_heading(lines: Seq<Seq<char>>, at: int) -> bool {
    exists|title: Seq<char>| #[trigger] is_heading_at(lines, at, title)
}

proof fn lemma_heading_text(line: Seq<char>, title: Seq<char>)
    ensures
        heading_text(line) == Some(title) <==> {
            &&& trimmed(line).len() > 2
            &&& trimmed(line)[0] == '#'
            &&& trimmed(line)[1] == ' '
            &&& title == trimmed(trimmed(line).skip(2))
            &&& title.len() > 0
        },
{
    reveal_strlit("# ");
    let t = trimmed(line);
    if t.len() >= 2 {
        assert(t.take(2)[0] == t[0] && t.take(2)[1] == t[1]);
        if t[0] == '#' && t[1] == ' ' {
            assert(t.take(2) =~= "# "@);
        }
        if t.len() == 2 {
            assert(t.skip(2).len() == 0);
            lemma_trimmed_len(t.skip(2));
        }
    }
}

proof fn lemma_trimmed_len(s: Seq<char>)
    ensures
        trimmed(s).len() <= s.len(),
{
    law_blanks_are_trimmed(s);
}

/// The heading of a text is its first line outside fenced code that begins with
/// a single number sign and a blank and says something.
pub proof fn law_heading_is_the_first(lines: Seq<Seq<char>>)
    ensures
        heading_in(lines) is None <==> forall|i: int|
            0 <= i < lines.len() ==> !#[trigger] is_heading(lines, i),
        forall|i: int, title: Seq<char>| #[trigger]
            is_heading_at(lines, i, title) && (forall|k: int|
                0 <= k < i ==> !#[trigger] is_heading(lines, k)) ==> heading_in(lines) == Some(title),
    decreases lines.len(),
{
    if lines.len() > 0 {
        let init = lines.drop_last();
        let n = lines.len() - 1;
        law_heading_is_the_first(init);
        assert(lines.take(n) =~= init);
        assert forall|i: int, title: Seq<char>| 0 <= i < n implies (#[trigger] is_heading_at(
            lines,
            i,
            title,
        ) <==> is_heading_at(init, i, title)) by {
            assert(lines.take(i) =~= init.take(i));
            assert(lines[i] == init[i]);
        }
        assert forall|i: int| 0 <= i < n implies (#[trigger] is_heading(lines, i) <==> is_heading(
            init,
            i,
        )) by {
            if is_heading(lines, i) {
                let title = choose|title: Seq<char>| #[trigger] is_heading_at(lines, i, title);
                assert(is_heading_at(init, i, title));
            }
            if is_heading(init, i) {
                let title = choose|title: Seq<char>| #[trigger] is_heading_at(init, i, title);
                assert(is_heading_at(lines, i, title));
            }
        }
        let open = fence_after(None, init) is None && fence_char(lines[n]) is None;
        assert forall|title: Seq<char>| #[trigger] is_heading_at(lines, n, title) <==> open
            && heading_text(lines[n]) == Some(title) by {
            lemma_heading_text(lines[n], title);
        }
        if heading_in(init) is None {
            assert forall|i: int| 0 <= i < n implies !#[trigger] is_heading(lines, i) by {
                assert(!is_heading(init, i));
            }
            if open && heading_text(lines[n]) is Some {
                assert(is_heading_at(lines, n, heading_text(lines[n])->0));
                assert(is_heading(lines, n));
            } else {
                assert forall|i: int| 0 <= i < lines.len() implies !#[trigger] is_heading(
                    lines,
                    i,
                ) by {
                    if i == n && is_heading(lines, n) {
                        let title = choose|title: Seq<char>| #[trigger]
                            is_heading_at(lines, n, title);
                        assert(false);
                    }
                }
            }
        } else {
            let k = choose|k: int| 0 <= k < init.len() && #[trigger] is_heading(init, k);
            assert(is_heading(lines, k));
        }
        assert forall|i: int, title: Seq<char>| #[trigger]
            is_heading_at(lines, i, title) && (forall|k: int|
                0 <= k < i ==> !#[trigger] is_heading(lines, k)) implies heading_in(lines) == Some(
            title,
        ) by {
            if i < n {
                assert forall|k: int| 0 <= k < i implies !#[trigger] is_heading(init, k) by {
                    assert(!is_heading(lines, k));
                }
                assert(is_heading_at(init, i, title));
            } else {
                assert forall|k: int| 0 <= k < n implies !#[trigger] is_heading(init, k) by {
                    assert(!is_heading(lines, k));
                }
                assert(heading_in(init) is None);
            }
        }
    }
}

/// The title that a note states is its title; without one it is that of the
/// first heading, and without a heading the name of its file.
pub proof fn law_title_of_a_note(stated: Option<Seq<char>>, body: Seq<char>, path: Seq<char>)
    ensures
        stated is Some ==> note_title(stated, body, path) == stated->0,
        stated is None && heading_in(text_lines(body)) is Some ==> note_title(stated, body, path)
            == heading_in(text_lines(body))->0,
        stated is None && heading_in(text_lines(body)) is None ==> note_title(stated, body, path)
            == name_title(path),
{
}

/// The name of a file goes up to its last dot, unless it begins with it.
pub proof fn law_name_without_extension(base: Seq<char>, extension: Seq<char>)
    ensures
        base.len() > 0 && !extension.contains('.') ==> stem(base.push('.') + extension) == base,
        !base.contains('.') ==> stem(base) == base,
        !extension.contains('.') ==> stem(seq!['.'] + extension) == seq!['.'] + extension,
{
    if !extension.contains('.') {
        lemma_last_dot_after(base.push('.'), extension);
        assert(last_dot(base.push('.')) == base.len() as int);
        assert((base.push('.') + extension).take(base.len() as int) =~= base);
        lemma_last_dot_after(seq!['.'], extension);
        assert(last_dot(seq!['.']) == 0);
    }
    if !base.contains('.') {
        lemma_last_dot_after(Seq::empty(), base);
        assert(Seq::<char>::empty() + base =~= base);
    }
}

proof fn lemma_last_dot_after(a: Seq<char>, b: Seq<char>)
    requires
        !b.contains('.'),
    ensures
        last_dot(a + b) == last_dot(a),
    decreases b.len(),
{
    if b.len() == 0 {
        assert(a + b =~= a);
    } else {
        let init = b.drop_last();
        assert((a + b).drop_last() =~= a + init);
        assert((a + b).last() == b.last());
        assert(b.contains(b.last())) by {
            assert(b[b.len() - 1] == b.last());
        }
        if init.contains('.') {
            let i = choose|i: int| 0 <= i < init.len() && init[i] == '.';
            assert(b[i] == '.');
        }
        lemma_last_dot_after(a, init);
    }
}

/// The title of a file in a folder is the name of the file without its
/// extension.
pub proof fn law_title_of_a_file(folder: Seq<char>, name: Seq<char>)
    requires
        name.len() > 0,
        !name.contains('/'),
        name != "."@,
        name != ".."@,
    ensures
        name_title(folder.push('/') + name) == stem(name),
        name_title(name) == stem(name),
{
    law_pieces_are_between(folder, name, '/');
    let parts = pieces(folder.push('/') + name, '/');
    assert(parts.last() == name);
    law_piece_without_the_character(name, '/');
    assert(pieces(name, '/').last() == name);
}

/// What a note states under a key is text, without the blanks around it; where
/// it states something else the note is refused.
pub proof fn law_stated_text(value: YamlView, key: Seq<char>)
    ensures
        value.entry(key) is None ==> scalar_entry(value, key) == Ok::<Option<Seq<char>>, Seq<char>>(
            None,
        ),
        value.entry(key) is Some && value.entry(key)->0 is Text ==> scalar_entry(value, key)
            == Ok::<Option<Seq<char>>, Seq<char>>(Some(trimmed((value.entry(key)->0)->Text_0))),
        value.entry(key) is Some && !(value.entry(key)->0 is Text) ==> scalar_entry(value, key)
            == Err::<Option<Seq<char>>, Seq<char>>("Knowledge note "@ + key + " must be text"@),
{
}

/// Whether an item of a list can be read, and what it then says.
pub open spec fn reads_as(item: YamlView, numbers: bool, text: Seq<char>) -> bool {
    ||| item is Text && text == trimmed(item->Text_0)
    ||| numbers && item is Number && text == item->Number_0
}

pub open spec fn can_be_read(item: YamlView, numbers: bool) -> bool {
    item is Text || numbers && item is Number
}

/// A list is read where each of its items is text, or a number where numbers
/// are allowed, and gives what its items say, in order, but for empty ones.
pub proof fn law_listed_texts(items: Seq<YamlView>, key: Seq<char>, numbers: bool)
    ensures
        item_texts(items, key, numbers) is Ok <==> forall|i: int|
            0 <= i < items.len() ==> can_be_read(#[trigger] items[i], numbers),
        item_texts(items, key, numbers) is Ok ==> forall|text: Seq<char>|
            (#[trigger] item_texts(items, key, numbers)->Ok_0.contains(text)) <==> text.len() > 0
                && says_among(items, numbers, text),
    decreases items.len(),
{
    if items.len() > 0 {
        let init = items.drop_last();
        let last = items.last();
        law_listed_texts(init, key, numbers);
        assert forall|i: int| 0 <= i < init.len() implies init[i] == #[trigger] items[i] by {}
        assert(items[items.len() - 1] == last);
        if item_texts(init, key, numbers) is Err {
            let i = choose|i: int| 0 <= i < init.len() && !can_be_read(#[trigger] init[i], numbers);
            assert(!can_be_read(items[i], numbers));
        } else {
            assert forall|i: int| 0 <= i < init.len() implies can_be_read(
                #[trigger] items[i],
                numbers,
            ) by {
                assert(can_be_read(init[i], numbers));
            }
            assert(item_text(last, numbers) is Some <==> can_be_read(last, numbers));
            if item_text(last, numbers) is Some {
                let before = item_texts(init, key, numbers)->Ok_0;
                let said = item_text(last, numbers)->0;
                assert(item_texts(items, key, numbers) is Ok);
                let all = item_texts(items, key, numbers)->Ok_0;
                assert forall|text: Seq<char>| (#[trigger] all.contains(text)) <==> text.len() > 0
                    && says_among(items, numbers, text) by {
                    lemma_says_among(items, numbers, text);
                    assert(before.contains(text) <==> text.len() > 0 && says_among(
                        init,
                        numbers,
                        text,
                    ));
                    if said.len() > 0 {
                        lemma_push_contains(before, said, text);
                    }
                    match last {
                        YamlView::Text(t) => {
                            assert(last == YamlView::Text(t));
                        },
                        _ => {},
                    }
                    assert(reads_as(last, numbers, text) <==> text == said);
                }
            }
        }
    }
}

pub open spec fn says_among(items: Seq<YamlView>, numbers: bool, text: Seq<char>) -> bool {
    exists|i: int| 0 <= i < items.len() && reads_as(#[trigger] items[i], numbers, text)
}

proof fn lemma_says_among(items: Seq<YamlView>, numbers: bool, text: Seq<char>)
    requires
        items.len() > 0,
    ensures
        says_among(items, numbers, text) <==> says_among(items.drop_last(), numbers, text)
            || reads_as(items.last(), numbers, text),
{
    let init = items.drop_last();
    if says_among(init, numbers, text) {
        let i = choose|i: int| 0 <= i < init.len() && reads_as(#[trigger] init[i], numbers, text);
        assert(items[i] == init[i]);
    }
    assert(items[items.len() - 1] == items.last());
    if says_among(items, numbers, text) {
        let i = choose|i: int| 0 <= i < items.len() && reads_as(#[trigger] items[i], numbers, text);
        assert(i < init.len() ==> init[i] == items[i]);
    }
}

/// A single value is read as a list of one, and a key that is not there as an
/// empty list.
pub proof fn law_one_text_is_a_list(value: YamlView, key: Seq<char>, numbers: bool)
    ensures
        value.entry(key) is None ==> entry_texts(value, key, numbers) == Ok::<
            Seq<Seq<char>>,
            Seq<char>,
        >(Seq::empty()),
        value.entry(key) is Some ==> {
            let item = value.entry(key)->0;
            &&& item is Text && trimmed(item->Text_0).len() > 0 ==> entry_texts(value, key, numbers)
                == Ok::<Seq<Seq<char>>, Seq<char>>(seq![trimmed(item->Text_0)])
            &&& item is Number && item->Number_0.len() > 0 && numbers ==> entry_texts(
                value,
                key,
                numbers,
            ) == Ok::<Seq<Seq<char>>, Seq<char>>(seq![item->Number_0])
            &&& item is List ==> entry_texts(value, key, numbers) == item_texts(
                item->List_0,
                key,
                numbers,
            )
        },
{
    match value.entry(key) {
        Some(item) => {
            let one = seq![item];
            assert(one.drop_last() =~= Seq::<YamlView>::empty());
            assert(one.last() == item);
            assert(item_texts(Seq::empty(), key, numbers) == Ok::<Seq<Seq<char>>, Seq<char>>(
                Seq::empty(),
            ));
            match item {
                YamlView::Text(t) => {
                    assert(Seq::<Seq<char>>::empty().push(trimmed(t)) =~= seq![trimmed(t)]);
                },
                YamlView::Number(t) => {
                    assert(Seq::<Seq<char>>::empty().push(t) =~= seq![t]);
                },
                _ => {},
            }
        },
        None => {},
    }
}

/// Of the names that differ in case or in the blanks around them alone, the
/// first is kept.
pub proof fn law_first_of_like_names_is_kept(values: Seq<Seq<char>>)
    ensures
        forall|v: Seq<char>|
            (#[trigger] deduplicated(values).contains(v)) <==> is_first_like(values, v),
        forall|i: int, j: int|
            0 <= i < j < deduplicated(values).len() ==> lowercased(
                trimmed(#[trigger] deduplicated(values)[i]),
            ) != lowercased(trimmed(#[trigger] deduplicated(values)[j])),
    decreases values.len(),
{
    if values.len() > 0 {
        let init = values.drop_last();
        let last = values.last();
        law_first_of_like_names_is_kept(init);
        let before = deduplicated(init);
        let all = deduplicated(values);
        let n = values.len() - 1;
        assert forall|i: int| 0 <= i < n implies init[i] == #[trigger] values[i] by {}
        assert forall|v: Seq<char>| (#[trigger] all.contains(v)) <==> is_first_like(values, v) by {
            lemma_push_contains(before, last, v);
            assert(before.contains(v) <==> is_first_like(init, v));
            if is_first_like(init, v) {
                let k = choose|k: int| #[trigger] is_first_like_at(init, v, k);
                assert(is_first_like_at(values, v, k));
            }
            if is_first_like(values, v) {
                let k = choose|k: int| #[trigger] is_first_like_at(values, v, k);
                if k < n {
                    assert(is_first_like_at(init, v, k));
                } else {
                    lemma_normals_contain(init, normal_identity(last));
                    if normals(init).contains(normal_identity(last)) {
                        let j = choose|j: int|
                            0 <= j < init.len() && normal_identity(#[trigger] init[j])
                                == normal_identity(last);
                        assert(values[j] == init[j]);
                        assert(false);
                    }
                }
            }
            if !normals(init).contains(normal_identity(last)) && v == last {
                lemma_normals_contain(init, normal_identity(last));
                assert(is_first_like_at(values, v, n));
            }
        }
        assert forall|i: int, j: int| 0 <= i < j < all.len() implies lowercased(
            trimmed(#[trigger] all[i]),
        ) != lowercased(trimmed(#[trigger] all[j])) by {
            if j < before.len() {
                assert(all[i] == before[i] && all[j] == before[j]);
            } else {
                assert(all[i] == before[i]);
                assert(before.contains(before[i]));
                let k = choose|k: int| #[trigger] is_first_like_at(init, before[i], k);
                lemma_normals_contain(init, normal_identity(last));
                assert(normal_identity(init[k]) != normal_identity(last));
            }
        }
    }
}

pub open spec fn is_first_like(values: Seq<Seq<char>>, v: Seq<char>) -> bool {
    exists|k: int| #[trigger] is_first_like_at(values, v, k)
}

/// Whether a name stands at a place of a list, with none like it before.
pub open spec fn is_first_like_at(values: Seq<Seq<char>>, v: Seq<char>, at: int) -> bool {
    &&& 0 <= at < values.len()
    &&& values[at] == v
    &&& forall|i: int| 0 <= i < at ==> lowercased(trimmed(#[trigger] values[i])) != lowercased(
        trimmed(v),
    )
}

proof fn lemma_normals_contain(values: Seq<Seq<char>>, name: Seq<char>)
    ensures
        normals(values).contains(name) <==> exists|i: int|
            0 <= i < values.len() && normal_identity(#[trigger] values[i]) == name,
{
    if normals(values).contains(name) {
        let i = choose|i: int| 0 <= i < normals(values).len() && normals(values)[i] == name;
        assert(normal_identity(values[i]) == name);
    }
    if exists|i: int| 0 <= i < values.len() && normal_identity(#[trigger] values[i]) == name {
        let i = choose|i: int| 0 <= i < values.len() && normal_identity(#[trigger] values[i]) == name;
        assert(normals(values)[i] == name);
    }
}

/// The fields whose references stand under two keys differ.
pub proof fn lemma_reference_fields_differ()
    ensures
        "module"@ != "work_item"@,
        "module"@ != "pull_request"@,
        "work_item"@ != "pull_request"@,
{
    reveal_strlit("module");
    reveal_strlit("work_item");
    reveal_strlit("pull_request");
    assert("module"@.len() == 6);
    assert("work_item"@.len() == 9);
    assert("pull_request"@.len() == 12);
}

/// The references of a field stand under its own name; those of modules, work
/// items and pull requests under a second name too.
pub open spec fn is_key_of(field: Seq<char>, key: Seq<char>) -> bool {
    ||| key == field
    ||| field == "module"@ && key == "modules"@
    ||| field == "work_item"@ && key == "ado"@
    ||| field == "pull_request"@ && key == "pr"@
}

proof fn lemma_keys_of(field: Seq<char>, key: Seq<char>)
    ensures
        reference_keys(field).contains(key) <==> is_key_of(field, key),
{
    lemma_reference_fields_differ();
    let keys = reference_keys(field);
    if keys.len() == 2 {
        assert(keys[0] == field);
        assert(keys.contains(keys[1]));
        assert(keys.contains(keys[0]));
    } else {
        assert(keys[0] == field);
    }
}

proof fn lemma_texts_in_keys(value: YamlView, keys: Seq<Seq<char>>)
    ensures
        texts_in_keys(value, keys) is Ok <==> forall|i: int|
            0 <= i < keys.len() ==> entry_texts(value, #[trigger] keys[i], true) is Ok,
        texts_in_keys(value, keys) is Ok ==> forall|text: Seq<char>|
            (#[trigger] texts_in_keys(value, keys)->Ok_0.contains(text)) <==> is_text_in(
                value,
                keys,
                text,
            ),
    decreases keys.len(),
{
    if keys.len() > 0 {
        let init = keys.drop_last();
        let last = keys.last();
        lemma_texts_in_keys(value, init);
        assert forall|i: int| 0 <= i < init.len() implies init[i] == #[trigger] keys[i] by {}
        assert(keys[keys.len() - 1] == last);
        if texts_in_keys(value, init) is Err {
            let i = choose|i: int|
                0 <= i < init.len() && !(entry_texts(value, #[trigger] init[i], true) is Ok);
            assert(!(entry_texts(value, keys[i], true) is Ok));
        } else {
            assert forall|i: int| 0 <= i < init.len() implies entry_texts(
                value,
                #[trigger] keys[i],
                true,
            ) is Ok by {
                assert(entry_texts(value, init[i], true) is Ok);
            }
            if entry_texts(value, last, true) is Ok {
                let before = texts_in_keys(value, init)->Ok_0;
                let more = entry_texts(value, last, true)->Ok_0;
                let all = texts_in_keys(value, keys)->Ok_0;
                assert(all == before + more);
                assert forall|text: Seq<char>| (#[trigger] all.contains(text)) <==> is_text_in(
                    value,
                    keys,
                    text,
                ) by {
                    lemma_joined_has(before, more, text);
                    assert(before.contains(text) <==> is_text_in(value, init, text));
                    if is_text_in(value, init, text) {
                        let i = choose|i: int|
                            0 <= i < init.len() && entry_has(value, #[trigger] init[i], text);
                        assert(entry_has(value, keys[i], text));
                    }
                    if is_text_in(value, keys, text) {
                        let i = choose|i: int|
                            0 <= i < keys.len() && entry_has(value, #[trigger] keys[i], text);
                        if i < init.len() {
                            assert(entry_has(value, init[i], text));
                        }
                    }
                    if more.contains(text) {
                        assert(entry_has(value, keys[keys.len() - 1], text));
                    }
                }
            }
        }
    }
}

/// Whether a note states a text under a key.
pub open spec fn entry_has(value: YamlView, key: Seq<char>, text: Seq<char>) -> bool {
    entry_texts(value, key, true) is Ok && entry_texts(value, key, true)->Ok_0.contains(text)
}

pub open spec fn is_text_in(value: YamlView, keys: Seq<Seq<char>>, text: Seq<char>) -> bool {
    exists|i: int| 0 <= i < keys.len() && entry_has(value, #[trigger] keys[i], text)
}

/// The references of a field can be read where each of its keys can, and are,
/// but for case and blanks, what stands under these keys.
pub proof fn law_references_of_a_field(value: YamlView, field: Seq<char>)
    ensures
        references_for(value, field) is Ok <==> forall|key: Seq<char>|
            is_key_of(field, key) ==> #[trigger] entry_texts(value, key, true) is Ok,
        references_for(value, field) is Ok ==> forall|text: Seq<char>, key: Seq<char>|
            is_key_of(field, key) && #[trigger] entry_has(value, key, text) ==> exists|kept: Seq<
                char,
            >| #[trigger]
                references_for(value, field)->Ok_0.contains(kept) && lowercased(trimmed(kept))
                    == lowercased(trimmed(text)),
        references_for(value, field) is Ok ==> forall|kept: Seq<char>| #[trigger]
            references_for(value, field)->Ok_0.contains(kept) ==> exists|key: Seq<char>| #[trigger]
                is_key_of(field, key) && entry_has(value, key, kept),
{
    let keys = reference_keys(field);
    lemma_texts_in_keys(value, keys);
    assert forall|key: Seq<char>| is_key_of(field, key) <==> #[trigger] keys.contains(key) by {
        lemma_keys_of(field, key);
    }
    if references_for(value, field) is Ok {
        assert forall|key: Seq<char>| is_key_of(field, key) implies #[trigger] entry_texts(
            value,
            key,
            true,
        ) is Ok by {
            assert(keys.contains(key));
            let i = choose|i: int| 0 <= i < keys.len() && keys[i] == key;
            assert(entry_texts(value, keys[i], true) is Ok);
        }
        let texts = texts_in_keys(value, keys)->Ok_0;
        let all = references_for(value, field)->Ok_0;
        law_first_of_like_names_is_kept(texts);
        assert forall|text: Seq<char>, key: Seq<char>|
            is_key_of(field, key) && #[trigger] entry_has(value, key, text) implies exists|kept: Seq<
            char,
        >| #[trigger]
            all.contains(kept) && lowercased(trimmed(kept)) == lowercased(trimmed(text)) by {
            assert(keys.contains(key));
            let i = choose|i: int| 0 <= i < keys.len() && keys[i] == key;
            assert(entry_has(value, keys[i], text));
            assert(texts.contains(text));
            let at = choose|at: int| 0 <= at < texts.len() && texts[at] == text;
            let first = lemma_first_like(texts, at);
            assert(is_first_like_at(texts, texts[first], first));
            assert(is_first_like(texts, texts[first]));
            assert(all.contains(texts[first]));
        }
        assert forall|kept: Seq<char>| #[trigger] all.contains(kept) implies exists|key: Seq<char>| #[trigger]
            is_key_of(field, key) && entry_has(value, key, kept) by {
            let k = choose|k: int| #[trigger] is_first_like_at(texts, kept, k);
            assert(texts[k] == kept);
            assert(texts.contains(kept));
            let i = choose|i: int| 0 <= i < keys.len() && entry_has(value, #[trigger] keys[i], kept);
            assert(keys.contains(keys[i]));
            assert(is_key_of(field, keys[i]));
        }
    } else {
        let i = choose|i: int|
            0 <= i < keys.len() && !(entry_texts(value, #[trigger] keys[i], true) is Ok);
        assert(keys.contains(keys[i]));
        assert(is_key_of(field, keys[i]));
    }
}

/// Where a name stands, the first like it stands there or earlier.
proof fn lemma_first_like(values: Seq<Seq<char>>, at: int) -> (first: int)
    requires
        0 <= at < values.len(),
    ensures
        is_first_like_at(values, values[first], first),
        normal_identity(values[first]) == normal_identity(values[at]),
    decreases at,
{
    if exists|i: int| 0 <= i < at && normal_identity(#[trigger] values[i]) == normal_identity(
        values[at],
    ) {
        let i = choose|i: int|
            0 <= i < at && normal_identity(#[trigger] values[i]) == normal_identity(values[at]);
        lemma_first_like(values, i)
    } else {
        assert forall|i: int| 0 <= i < at implies lowercased(trimmed(#[trigger] values[i]))
            != lowercased(trimmed(values[at])) by {
            assert(normal_identity(values[i]) != normal_identity(values[at]));
        }
        at
    }
}

proof fn lemma_reference_errors(value: YamlView, fields: Seq<Seq<char>>)
    ensures
        reference_error(value, fields) is None <==> forall|i: int|
            0 <= i < fields.len() ==> references_for(value, #[trigger] fields[i]) is Ok,
    decreases fields.len(),
{
    if fields.len() > 0 {
        let init = fields.drop_last();
        lemma_reference_errors(value, init);
        assert forall|i: int| 0 <= i < init.len() implies init[i] == #[trigger] fields[i] by {}
        assert(fields[fields.len() - 1] == fields.last());
        if reference_error(value, init) is Some {
            let i = choose|i: int|
                0 <= i < init.len() && !(references_for(value, #[trigger] init[i]) is Ok);
            assert(!(references_for(value, fields[i]) is Ok));
        } else {
            assert forall|i: int| 0 <= i < init.len() implies references_for(
                value,
                #[trigger] fields[i],
            ) is Ok by {
                assert(references_for(value, init[i]) is Ok);
            }
        }
    }
}

/// The fields by which a note can be found from what events say.
pub open spec fn is_reference_field(field: Seq<char>) -> bool {
    ||| field == "repo"@
    ||| field == "project"@
    ||| field == "product"@
    ||| field == "app"@
    ||| field == "service"@
    ||| field == "module"@
    ||| field == "work_item"@
    ||| field == "pull_request"@
}

proof fn lemma_reference_order_is(field: Seq<char>)
    ensures
        reference_order().contains(field) <==> is_reference_field(field),
        automatic_fields().contains(field) <==> is_reference_field(field),
{
    let a = reference_order();
    assert(a[0] == "repo"@ && a[1] == "project"@ && a[2] == "product"@ && a[3] == "app"@ && a[4]
        == "service"@ && a[5] == "module"@ && a[6] == "work_item"@ && a[7] == "pull_request"@);
    assert(a.len() == 8);
    let b = automatic_fields();
    assert(b[5] == "repo"@ && b[3] == "project"@ && b[2] == "product"@ && b[0] == "app"@ && b[6]
        == "service"@ && b[1] == "module"@ && b[7] == "work_item"@ && b[4] == "pull_request"@);
    assert(b.len() == 8);
}

proof fn lemma_references_by_field(value: YamlView, fields: Seq<Seq<char>>, field: Seq<char>, texts: Seq<Seq<char>>)
    ensures
        references_by_field(value, fields).contains((field, texts)) <==> fields.contains(field)
            && references_for(value, field) is Ok && references_for(value, field)->Ok_0 == texts
            && texts.len() > 0,
    decreases fields.len(),
{
    if fields.len() > 0 {
        let init = fields.drop_last();
        let last = fields.last();
        lemma_references_by_field(value, init, field, texts);
        assert(fields =~= init.push(last));
        lemma_push_contains(init, last, field);
        match references_for(value, last) {
            Ok(found) => {
                if found.len() > 0 {
                    let before = references_by_field(value, init);
                    let entry = (field, texts);
                    let all = before.push((last, found));
                    if before.contains(entry) {
                        let i = choose|i: int| 0 <= i < before.len() && before[i] == entry;
                        assert(all[i] == entry);
                    }
                    assert(all[before.len() as int] == (last, found));
                    if all.contains(entry) {
                        let i = choose|i: int| 0 <= i < all.len() && all[i] == entry;
                        assert(i < before.len() ==> before[i] == entry);
                    }
                }
            },
            Err(_) => {},
        }
    }
}

proof fn lemma_identity_errors(label: Seq<char>, values: Seq<Seq<char>>)
    requires
        label != "Knowledge note title"@,
    ensures
        first_identity_error(label, values) is None <==> forall|i: int|
            0 <= i < values.len() ==> is_sound_name(#[trigger] values[i]),
    decreases values.len(),
{
    if values.len() > 0 {
        let init = values.drop_last();
        lemma_identity_errors(label, init);
        assert forall|i: int| 0 <= i < init.len() implies init[i] == #[trigger] values[i] by {}
        assert(values[values.len() - 1] == values.last());
        if first_identity_error(label, init) is Some {
            let i = choose|i: int| 0 <= i < init.len() && !is_sound_name(#[trigger] init[i]);
            assert(!is_sound_name(values[i]));
        } else {
            assert forall|i: int| 0 <= i < init.len() implies is_sound_name(#[trigger] values[i]) by {
                assert(is_sound_name(init[i]));
            }
        }
    }
}

/// A name that says something and is not too long.
pub open spec fn is_sound_name(value: Seq<char>) -> bool {
    trimmed(value).len() > 0 && byte_len(value) <= 300
}

/// The labels of names differ.
pub proof fn lemma_labels_differ()
    ensures
        "Knowledge note title"@ != "Knowledge note alias"@,
        "Knowledge note title"@ != "Knowledge note reference"@,
        "Knowledge note alias"@ != "Knowledge note reference"@,
{
    reveal_strlit("Knowledge note title");
    reveal_strlit("Knowledge note alias");
    reveal_strlit("Knowledge note reference");
    assert("Knowledge note title"@.len() == 20);
    assert("Knowledge note alias"@.len() == 20);
    assert("Knowledge note reference"@.len() == 24);
    assert("Knowledge note title"@[15] == 't');
    assert("Knowledge note alias"@[15] == 'a');
}

/// A note is read exactly where its title, its aliases and its references can
/// be, there are not too many of them, and each says something and is not too
/// long.
pub proof fn law_sound_notes_are_read(
    path: Seq<char>,
    digest: Seq<char>,
    front: YamlView,
    body: Seq<char>,
)
    ensures
        note_from(path, digest, front, body) is Ok <==> {
            let title = note_title(scalar_entry(front, "title"@)->Ok_0, body, path);
            let aliases = entry_texts(front, "aliases"@, false);
            let references = all_references(references_by_field(front, automatic_fields()));
            &&& scalar_entry(front, "title"@) is Ok
            &&& trimmed(title).len() > 0
            &&& byte_len(title) <= 200
            &&& aliases is Ok
            &&& aliases->Ok_0.len() <= 32
            &&& forall|i: int|
                0 <= i < aliases->Ok_0.len() ==> is_sound_name(#[trigger] aliases->Ok_0[i])
            &&& forall|field: Seq<char>|
                is_reference_field(field) ==> #[trigger] references_for(front, field) is Ok
            &&& references.len() <= 64
            &&& forall|i: int| 0 <= i < references.len() ==> is_sound_name(#[trigger] references[i])
        },
{
    lemma_labels_differ();
    let aliases = entry_texts(front, "aliases"@, false);
    let references = all_references(references_by_field(front, automatic_fields()));
    if aliases is Ok {
        lemma_identity_errors("Knowledge note alias"@, aliases->Ok_0);
    }
    lemma_identity_errors("Knowledge note reference"@, references);
    lemma_reference_errors(front, reference_order());
    assert((reference_error(front, reference_order()) is None) <==> forall|field: Seq<char>|
        is_reference_field(field) ==> #[trigger] references_for(front, field) is Ok) by {
        let order = reference_order();
        if reference_error(front, order) is None {
            assert forall|field: Seq<char>| is_reference_field(field) implies #[trigger] references_for(
                front,
                field,
            ) is Ok by {
                lemma_reference_order_is(field);
                let i = choose|i: int| 0 <= i < order.len() && order[i] == field;
                assert(references_for(front, order[i]) is Ok);
            }
        } else {
            let i = choose|i: int|
                0 <= i < order.len() && !(references_for(front, #[trigger] order[i]) is Ok);
            lemma_reference_order_is(order[i]);
            assert(order.contains(order[i]));
            assert(is_reference_field(order[i]));
        }
    }
}

/// A note that is read has its path and digest, its title and text without the
/// blanks around them, the first of its like aliases, and the references of each
/// field that has any.
pub proof fn law_contents_of_a_note(
    path: Seq<char>,
    digest: Seq<char>,
    front: YamlView,
    body: Seq<char>,
    field: Seq<char>,
    texts: Seq<Seq<char>>,
)
    requires
        note_from(path, digest, front, body) is Ok,
    ensures
        ({
            let note = note_from(path, digest, front, body)->Ok_0;
            &&& note.path == path
            &&& note.source_digest == digest
            &&& note.title == trimmed(
                note_title(scalar_entry(front, "title"@)->Ok_0, body, path),
            )
            &&& note.usable_content == trimmed(body)
            &&& note.usable_digest == text_digest(trimmed(body))
            &&& forall|v: Seq<char>|
                (#[trigger] note.aliases.contains(v)) <==> is_first_like(
                    entry_texts(front, "aliases"@, false)->Ok_0,
                    v,
                )
            &&& note.references.contains((field, texts)) <==> is_reference_field(field)
                && references_for(front, field)->Ok_0 == texts && texts.len() > 0
        }),
{
    law_sound_notes_are_read(path, digest, front, body);
    law_first_of_like_names_is_kept(entry_texts(front, "aliases"@, false)->Ok_0);
    lemma_references_by_field(front, automatic_fields(), field, texts);
    lemma_reference_order_is(field);
}

/// The properties of a note stand between two lines of three dashes at its
/// beginning, and what follows is its body.
pub proof fn law_properties_come_first(yaml: Seq<char>, body: Seq<char>)
    requires
        forall|k: int|
            0 <= k < yaml.len() ==> !#[trigger] occurs_at(yaml + "\n---\n"@ + body, "\n---\n"@, k),
    ensures
        frontmatter_parts("---\n"@ + (yaml + "\n---\n"@ + body)) == Ok::<
            Option<(Seq<char>, Seq<char>)>,
            Seq<char>,
        >(Some((yaml, body))),
{
    let rest = yaml + "\n---\n"@ + body;
    let text = "---\n"@ + rest;
    assert(text.take("---\n"@.len() as int) =~= "---\n"@);
    assert(text.skip("---\n"@.len() as int) =~= rest);
    law_text_around_a_part(yaml, "\n---\n"@, body);
}

/// A note that does not begin with three dashes has no properties, and one whose
/// properties do not end is refused.
pub proof fn law_notes_without_properties(text: Seq<char>)
    ensures
        !begins_with(text, "---\n"@) ==> frontmatter(text) == Ok::<
            (Option<YamlView>, Seq<char>),
            Seq<char>,
        >((None, text)),
        begins_with(text, "---\n"@) && (forall|k: int|
            !#[trigger] occurs_at(text.skip(4), "\n---\n"@, k)) && !finishes_with(
            text.skip(4),
            "\n---"@,
        ) ==> frontmatter(text) is Err,
        begins_with(text, "---\n"@) && (forall|k: int|
            !#[trigger] occurs_at(text.skip(4), "\n---\n"@, k)) && finishes_with(
            text.skip(4),
            "\n---"@,
        ) ==> frontmatter_parts(text) == Ok::<Option<(Seq<char>, Seq<char>)>, Seq<char>>(
            Some((text.subrange(4, text.len() - 4), Seq::empty())),
        ),
{
    reveal_strlit("---\n");
    reveal_strlit("\n---\n");
    reveal_strlit("\n---");
    if begins_with(text, "---\n"@) && (forall|k: int|
        !#[trigger] occurs_at(text.skip(4), "\n---\n"@, k)) {
        law_text_without_a_part(text.skip(4), "\n---\n"@, Seq::empty());
        if finishes_with(text.skip(4), "\n---"@) {
            assert(text.skip(4).take(text.skip(4).len() - 4) =~= text.subrange(4, text.len() - 4));
        }
    }
}

/// The properties of a note are read as they stand, and only a mapping or
/// nothing is accepted.
pub proof fn law_properties_are_a_mapping(text: Seq<char>, yaml: Seq<char>, body: Seq<char>)
    requires
        frontmatter_parts(text) == Ok::<Option<(Seq<char>, Seq<char>)>, Seq<char>>(
            Some((yaml, body)),
        ),
    ensures
        frontmatter(text) is Ok <==> yaml_parsed(yaml) is Some && (
        yaml_parsed(yaml)->0.untagged() is Record || yaml_parsed(yaml)->0.untagged() is Null),
        frontmatter(text) is Ok ==> frontmatter(text)->Ok_0 == (yaml_parsed(yaml), body),
{
}

/// Whether a line opens or closes a block outside fenced code.
pub open spec fn is_marker(lines: Seq<Seq<char>>, line: Seq<char>) -> bool {
    &&& fence_after(None, lines) is None
    &&& fence_char(line) is None
    &&& marker_id(line, ":begin -->"@) is Some || marker_id(line, ":end -->"@) is Some
}

/// Lines outside blocks are kept as they are, and lines within a block are left
/// out.
pub proof fn law_lines_outside_blocks_are_kept(lines: Seq<Seq<char>>, line: Seq<char>)
    requires
        !is_marker(lines, line),
    ensures
        stripped(lines.push(line)).block == stripped(lines).block,
        stripped(lines.push(line)).sound == stripped(lines).sound,
        stripped(lines).block is None ==> stripped(lines.push(line)).kept == stripped(lines).kept
            + line,
        stripped(lines).block is Some ==> stripped(lines.push(line)).kept == stripped(lines).kept,
{
    assert(lines.push(line).drop_last() =~= lines);
}

/// A marker itself is left out. One that opens a block is sound where none is
/// open, and one that closes a block where that very block is.
pub proof fn law_markers_are_left_out(lines: Seq<Seq<char>>, line: Seq<char>)
    requires
        is_marker(lines, line),
    ensures
        stripped(lines.push(line)).kept == stripped(lines).kept,
        marker_id(line, ":begin -->"@) is Some ==> stripped(lines.push(line)).block == marker_id(
            line,
            ":begin -->"@,
        ),
        marker_id(line, ":begin -->"@) is Some ==> (stripped(lines.push(line)).sound <==> stripped(
            lines,
        ).sound && stripped(lines).block is None),
        marker_id(line, ":begin -->"@) is None ==> stripped(lines.push(line)).block is None,
        marker_id(line, ":begin -->"@) is None ==> (stripped(lines.push(line)).sound <==> stripped(
            lines,
        ).sound && stripped(lines).block == marker_id(line, ":end -->"@)),
{
    assert(lines.push(line).drop_last() =~= lines);
}

/// A text is given back without its blocks where its markers are sound and no
/// block is left open.
pub proof fn law_unsound_markers_are_refused(text: Seq<char>)
    ensures
        without_blocks(text) is Ok <==> stripped(full_lines(text)).sound && stripped(
            full_lines(text),
        ).block is None,
        without_blocks(text) is Ok ==> without_blocks(text)->Ok_0 == stripped(
            full_lines(text),
        ).kept,
{
}

/// Whether a line names a block as its marker does.
pub proof fn law_marker_names_its_block(id: Seq<char>, ending: Seq<char>, line: Seq<char>)
    requires
        trimmed(line) == "<!-- log-inbox:daily:"@ + id + ending,
    ensures
        is_block_id(id) ==> marker_id(line, ending) == Some(id),
        !is_block_id(id) ==> marker_id(line, ending) is None,
{
    let t = trimmed(line);
    let head = "<!-- log-inbox:daily:"@;
    assert(t =~= head + (id + ending));
    assert(t.take(head.len() as int) =~= head);
    assert(t.skip(head.len() as int) =~= id + ending);
    let rest = id + ending;
    assert(rest.skip(rest.len() - ending.len()) =~= ending);
    assert(rest.take(rest.len() - ending.len()) =~= id);
}

/// A note without a byte order mark and without carriage returns is read as it
/// is, and a byte order mark at its beginning is passed over.
pub proof fn law_text_of_a_note(content: Seq<char>)
    requires
        !content.contains('\r'),
    ensures
        content.len() == 0 || content[0] != '\u{feff}' ==> note_text(content) == content,
        note_text(seq!['\u{feff}'] + content) == content,
{
    reveal_strlit("\u{feff}");
    reveal_strlit("\r\n");
    reveal_strlit("\r");
    assert("\u{feff}"@ =~= seq!['\u{feff}']);
    assert forall|k: int| !#[trigger] occurs_at(content, "\r\n"@, k) by {
        if occurs_at(content, "\r\n"@, k) {
            assert(content.subrange(k, k + 2)[0] == content[k]);
        }
    }
    assert forall|k: int| !#[trigger] occurs_at(content, "\r"@, k) by {
        if occurs_at(content, "\r"@, k) {
            assert(content.subrange(k, k + 1)[0] == content[k]);
        }
    }
    law_text_without_a_part(content, "\r\n"@, "\n"@);
    law_text_without_a_part(content, "\r"@, "\n"@);
    let marked = seq!['\u{feff}'] + content;
    assert(marked.take(1) =~= "\u{feff}"@);
    assert(marked.skip(1) =~= content);
    if content.len() > 0 {
        assert(content.take(1)[0] == content[0]);
    }
}

} // verus!
