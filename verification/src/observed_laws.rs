//! What the files of a vault are catalogued as, and which names of events are
//! reported for it.
use crate::json::JsonView;
use crate::models::StoredLogEvent;
use crate::notes::{last_dot, stem};
use crate::ordered::{
    lemma_ordered_set, lemma_precedes_irreflexive, lemma_push_contains, ordered_set, precedes,
};
use crate::text::{
    ascii_lower, ascii_lowered, begins_with, joined, occurs_at, pieces, trimmed, views,
};
use crate::text_laws::{
    law_piece_without_the_character, law_pieces_are_between, law_text_around_a_part,
    law_text_without_a_part, law_texts_are_joined,
};
use crate::vault::{
    VaultCatalog, VaultLinkRule, VaultNote, metadata_texts, names_identity, notes_named_by,
    value_texts,
};
use crate::vault_catalog::{
    VaultContextProvider, VaultFile, VaultFiles, catalog_is, file_link, file_references,
    file_title, frontmatter_text, given, indexed_note_is, indexed_titles, is_markdown_name,
    lies_below, link_target, note_id, note_is, path_parts, reference_key_order, regex_groups,
    targets_of, title_count, wiki_link_pattern, with_slashes,
};
use crate::vault_laws::{
    is_link_with_id, is_under, law_link_of_the_note_with_an_id, lemma_joined_has,
    lemma_texts_under_key,
};
use crate::vault_links::{link_by_id, metadata_fields};
use crate::vault_observed::{
    SeenView, SightingView, field_sightings, identities_seen, identity_links, is_seen,
    report_of, resolved_links, seen_before, sightings, times_shown, value_sightings,
};
use vstd::prelude::*;
use vstd::string::*;

verus! {

/// A link leads to what stands before its label and its heading, without the
/// blanks around it.
pub proof fn law_target_of_a_link(target: Seq<char>, rest: Seq<char>)
    requires
        !target.contains('|'),
        !target.contains('#'),
    ensures
        link_target(target) == trimmed(target),
        link_target(target.push('|') + rest) == trimmed(target),
        !rest.contains('|') ==> link_target(target.push('#') + rest) == trimmed(target),
{
    law_piece_without_the_character(target, '|');
    law_piece_without_the_character(target, '#');
    law_pieces_are_between(target, rest, '|');
    lemma_first_piece(target, pieces(rest, '|'));
    if !rest.contains('|') {
        let all = target.push('#') + rest;
        if all.contains('|') {
            let i = choose|i: int| 0 <= i < all.len() && all[i] == '|';
            if i < target.len() {
                assert(target[i] == '|');
            } else if i > target.len() {
                assert(rest[i - target.len() - 1] == '|');
            }
        }
        law_piece_without_the_character(all, '|');
        law_pieces_are_between(target, rest, '#');
        lemma_first_piece(target, pieces(rest, '#'));
    }
}

proof fn lemma_first_piece(first: Seq<char>, rest: Seq<Seq<char>>)
    ensures
        (seq![first] + rest)[0] == first,
{
}

/// The targets of a text are those of its links that lead somewhere.
pub proof fn law_targets_of_links(groups: Seq<Option<Seq<char>>>, target: Seq<char>)
    ensures
        targets_of(groups).contains(target) <==> target.len() > 0 && exists|i: int|
            0 <= i < groups.len() && (#[trigger] groups[i]) is Some && link_target(groups[i]->0)
                == target,
    decreases groups.len(),
{
    if groups.len() > 0 {
        let init = groups.drop_last();
        law_targets_of_links(init, target);
        assert(groups[groups.len() - 1] == groups.last());
        if groups.last() is Some {
            lemma_push_contains(targets_of(init), link_target(groups.last()->0), target);
        }
        if exists|i: int|
            0 <= i < init.len() && (#[trigger] init[i]) is Some && link_target(init[i]->0)
                == target {
            let i = choose|i: int|
                0 <= i < init.len() && (#[trigger] init[i]) is Some && link_target(init[i]->0)
                    == target;
            assert(groups[i] == init[i]);
        }
        if exists|i: int|
            0 <= i < groups.len() && (#[trigger] groups[i]) is Some && link_target(groups[i]->0)
                == target {
            let i = choose|i: int|
                0 <= i < groups.len() && (#[trigger] groups[i]) is Some && link_target(
                    groups[i]->0,
                ) == target;
            assert(i < init.len() ==> init[i] == groups[i]);
        }
    }
}

/// The properties of a file stand between three dashes at its beginning and the
/// next three that begin a line.
pub proof fn law_properties_of_a_file(yaml: Seq<char>, rest: Seq<char>)
    requires
        forall|k: int|
            0 <= k < yaml.len() ==> !#[trigger] occurs_at(yaml + "\n---"@ + rest, "\n---"@, k),
    ensures
        frontmatter_text("---\n"@ + (yaml + "\n---"@ + rest)) == Some(yaml),
{
    let after = yaml + "\n---"@ + rest;
    let text = "---\n"@ + after;
    assert(text.take("---\n"@.len() as int) =~= "---\n"@);
    assert(text.skip("---\n"@.len() as int) =~= after);
    law_text_around_a_part(yaml, "\n---"@, rest);
}

/// A file that does not begin with three dashes has no properties.
pub proof fn law_file_without_properties(contents: Seq<char>)
    requires
        !begins_with(contents, "---\n"@),
    ensures
        frontmatter_text(contents) is None,
{
}

/// A note in a folder is known by its path without the extension, its title is
/// the name of its file, and it belongs to the outermost folder of its path.
pub proof fn law_note_of_a_file(
    note: VaultNote,
    file: VaultFile,
    link: Seq<char>,
    folder: Seq<char>,
    name: Seq<char>,
)
    requires
        file.path@ == folder.push('/') + name,
        !name.contains('/'),
        !file.path@.contains('\\'),
        note_is(note, file, link),
    ensures
        note.title@ == stem(name),
        note.id@ == folder + seq!['/'] + stem(name),
        note.path@ == file.path@,
        note.wikilink@ == link,
        !folder.contains('/') ==> note.group@ == folder,
        note.group@ == pieces(folder, '/')[0],
        views(note.aliases@) == views(file.aliases@),
        views(note.tags@) == views(file.tags@),
{
    reveal_strlit("/");
    reveal_strlit("\\");
    assert("/"@ =~= seq!['/']);
    law_pieces_are_between(folder, name, '/');
    let parts = pieces(folder, '/');
    lemma_pieces_nonempty(folder);
    assert(pieces(file.path@, '/') == parts.push(name));
    assert(parts.push(name).drop_last() =~= parts);
    law_texts_are_joined(parts, stem(name), "/"@);
    lemma_pieces_joined(folder, '/');
    if !folder.contains('/') {
        law_piece_without_the_character(folder, '/');
    }
    let id = folder + seq!['/'] + stem(name);
    lemma_stem_part(name);
    lemma_no_backslash(file.path@);
    assert forall|i: int| 0 <= i < id.len() implies id[i] != '\\' by {
        assert(id[i] == file.path@[i]);
        assert(file.path@.contains(file.path@[i]));
    }
    lemma_no_backslash(id);
}

proof fn lemma_stem_part(name: Seq<char>)
    ensures
        stem(name).len() <= name.len(),
        forall|i: int| 0 <= i < stem(name).len() ==> stem(name)[i] == name[i],
{
    lemma_last_dot_in(name);
}

proof fn lemma_last_dot_in(s: Seq<char>)
    ensures
        -1 <= last_dot(s) < s.len(),
    decreases s.len(),
{
    if s.len() > 0 {
        lemma_last_dot_in(s.drop_last());
    }
}

proof fn lemma_no_backslash(s: Seq<char>)
    requires
        forall|i: int| 0 <= i < s.len() ==> s[i] != '\\',
    ensures
        with_slashes(s) == s,
{
    reveal_strlit("\\");
    assert forall|k: int| !#[trigger] occurs_at(s, "\\"@, k) by {
        if occurs_at(s, "\\"@, k) {
            assert(s.subrange(k, k + 1)[0] == s[k]);
        }
    }
    law_text_without_a_part(s, "\\"@, "/"@);
}

proof fn lemma_pieces_nonempty(s: Seq<char>)
    ensures
        pieces(s, '/').len() > 0,
    decreases s.len(),
{
    if s.len() > 0 {
        lemma_pieces_nonempty(s.drop_last());
    }
}

/// The pieces of a text, joined again, are the text.
pub proof fn lemma_pieces_joined(s: Seq<char>, c: char)
    ensures
        joined(pieces(s, c), seq![c]) == s,
        pieces(s, c).len() > 0,
    decreases s.len(),
{
    if s.len() == 0 {
        assert(s =~= Seq::<char>::empty());
    } else {
        let init = s.drop_last();
        lemma_pieces_joined(init, c);
        let before = pieces(init, c);
        assert(s =~= init.push(s.last()));
        if s.last() == c {
            law_texts_are_joined(before, Seq::empty(), seq![c]);
            assert(init + seq![c] + Seq::<char>::empty() =~= s);
        } else {
            let all = pieces(s, c);
            if before.len() == 1 {
                assert(all =~= seq![before[0].push(s.last())]);
                law_texts_are_joined(before, before[0].push(s.last()), seq![c]);
            } else {
                let head = before.drop_last();
                assert(all == head.push(before.last().push(s.last())));
                assert(before =~= head.push(before.last()));
                law_texts_are_joined(head, before.last().push(s.last()), seq![c]);
                law_texts_are_joined(head, before.last(), seq![c]);
                assert(joined(head, seq![c]) + seq![c] + before.last().push(s.last()) =~= (joined(
                    head,
                    seq![c],
                ) + seq![c] + before.last()).push(s.last()));
            }
        }
    }
}

proof fn lemma_title_count(files: Seq<VaultFile>, title: Seq<char>)
    ensures
        title_count(files, title) == 0 <==> forall|i: int|
            0 <= i < files.len() ==> file_title(#[trigger] files[i]) != title,
        title_count(files, title) > 1 <==> exists|i: int, j: int|
            0 <= i < j < files.len() && file_title(#[trigger] files[i]) == title && file_title(
                #[trigger] files[j],
            ) == title,
    decreases files.len(),
{
    if files.len() > 0 {
        let init = files.drop_last();
        let n = files.len() - 1;
        lemma_title_count(init, title);
        assert(files[n] == files.last());
        assert forall|i: int| 0 <= i < n implies init[i] == #[trigger] files[i] by {}
        if title_count(init, title) == 0 {
            assert forall|i: int| 0 <= i < n implies file_title(#[trigger] files[i]) != title by {
                assert(file_title(init[i]) != title);
            }
        } else {
            let i = choose|i: int| 0 <= i < init.len() && file_title(#[trigger] init[i]) == title;
            assert(file_title(files[i]) == title);
            if file_title(files.last()) == title {
                assert(file_title(files[i]) == title && file_title(files[n]) == title);
            } else if title_count(init, title) > 1 {
                let (a, b) = choose|a: int, b: int|
                    0 <= a < b < init.len() && file_title(#[trigger] init[a]) == title
                        && file_title(#[trigger] init[b]) == title;
                assert(file_title(files[a]) == title && file_title(files[b]) == title);
            } else {
                if exists|a: int, b: int|
                    0 <= a < b < files.len() && file_title(#[trigger] files[a]) == title
                        && file_title(#[trigger] files[b]) == title {
                    let (a, b) = choose|a: int, b: int|
                        0 <= a < b < files.len() && file_title(#[trigger] files[a]) == title
                            && file_title(#[trigger] files[b]) == title;
                    assert(file_title(init[a]) == title && file_title(init[b]) == title);
                }
            }
        }
    }
}

/// A note is linked by its title where no other file has it, and by its path
/// where one has.
pub proof fn law_link_of_a_file(files: Seq<VaultFile>, at: int)
    requires
        0 <= at < files.len(),
    ensures
        (forall|i: int|
            0 <= i < files.len() && i != at ==> file_title(#[trigger] files[i]) != file_title(
                files[at],
            )) ==> file_link(files, files[at]) == "[["@ + file_title(files[at]) + "]]"@,
        (exists|i: int|
            0 <= i < files.len() && i != at && file_title(#[trigger] files[i]) == file_title(
                files[at],
            )) ==> file_link(files, files[at]) == "[["@ + with_slashes(note_id(files[at].path@))
            + "]]"@,
{
    let title = file_title(files[at]);
    lemma_title_count(files, title);
    if exists|i: int|
        0 <= i < files.len() && i != at && file_title(#[trigger] files[i]) == title {
        let i = choose|i: int|
            0 <= i < files.len() && i != at && file_title(#[trigger] files[i]) == title;
        if i < at {
            assert(file_title(files[i]) == title && file_title(files[at]) == title);
        } else {
            assert(file_title(files[at]) == title && file_title(files[i]) == title);
        }
    } else if title_count(files, title) > 1 {
        let (i, j) = choose|i: int, j: int|
            0 <= i < j < files.len() && file_title(#[trigger] files[i]) == title && file_title(
                #[trigger] files[j],
            ) == title;
        assert(i == at && j == at);
    }
}

/// A file refers to what it states under the four keys of references, each with
/// its texts.
pub proof fn law_references_of_a_file(
    extra: Map<Seq<char>, JsonView>,
    keys: Seq<Seq<char>>,
    key: Seq<char>,
    texts: Seq<Seq<char>>,
)
    ensures
        file_references(extra, keys).contains((key, texts)) <==> keys.contains(key)
            && extra.dom().contains(key) && texts == value_texts(extra[key]),
        reference_key_order().contains(key) <==> key == "ado"@ || key == "pr"@ || key
            == "pull_request"@ || key == "work_item"@,
    decreases keys.len(),
{
    let order = reference_key_order();
    assert(order.len() == 4 && order[0] == "ado"@ && order[1] == "pr"@ && order[2]
        == "pull_request"@ && order[3] == "work_item"@);
    if keys.len() > 0 {
        let init = keys.drop_last();
        let last = keys.last();
        law_references_of_a_file(extra, init, key, texts);
        assert(keys =~= init.push(last));
        lemma_push_contains(init, last, key);
        if extra.dom().contains(last) {
            lemma_push_contains(
                file_references(extra, init),
                (last, value_texts(extra[last])),
                (key, texts),
            );
        }
    }
}

/// Without a folder the notes of a vault are those that its index links to, and
/// without either there is no vault.
pub proof fn law_vault_without_a_folder(
    catalog: VaultCatalog,
    provider: VaultContextProvider,
    files: VaultFiles,
    title: Seq<char>,
)
    requires
        provider.vault_dir is None,
        catalog_is(catalog, provider, files),
    ensures
        files.product_index is None ==> !catalog.configured && catalog.notes@.len() == 0
            && catalog.root is None && catalog.revision@ == "unconfigured"@,
        files.product_index is Some ==> catalog.configured,
        files.product_index is Some ==> ((exists|i: int|
            0 <= i < catalog.notes@.len() && (#[trigger] catalog.notes@[i]).title@ == title) <==> (
        exists|groups: Seq<Option<Seq<char>>>|
            regex_groups(wiki_link_pattern(), files.product_index->0@) == Some(groups)
                && #[trigger] targets_of(groups).contains(title))),
        files.product_index is Some ==> forall|i: int|
            0 <= i < catalog.notes@.len() ==> (#[trigger] catalog.notes@[i]).id@
                == catalog.notes@[i].title@ && catalog.notes@[i].path@ == catalog.notes@[i].title@
                + ".md"@,
{
    if files.product_index is Some {
        let index = files.product_index->0@;
        let titles = indexed_titles(index);
        let found = match regex_groups(wiki_link_pattern(), index) {
            Some(groups) => groups,
            None => Seq::empty(),
        };
        lemma_ordered_set(targets_of(found));
        assert(titles.contains(title) <==> targets_of(found).contains(title));
        if regex_groups(wiki_link_pattern(), index) is None {
            assert(targets_of(found) =~= Seq::<Seq<char>>::empty());
        }
        assert forall|i: int| 0 <= i < catalog.notes@.len() implies (
        #[trigger] catalog.notes@[i]).title@ == titles[i] by {
            assert(indexed_note_is(catalog.notes@[i], titles[i]));
        }
        if titles.contains(title) {
            let i = choose|i: int| 0 <= i < titles.len() && titles[i] == title;
            assert(catalog.notes@[i].title@ == title);
        }
        if exists|i: int|
            0 <= i < catalog.notes@.len() && (#[trigger] catalog.notes@[i]).title@ == title {
            let i = choose|i: int|
                0 <= i < catalog.notes@.len() && (#[trigger] catalog.notes@[i]).title@ == title;
            assert(titles.contains(titles[i]));
        }
    }
}

/// A setting that is empty is none.
pub proof fn law_empty_settings_are_none(value: Option<Seq<char>>)
    ensures
        value is None ==> given(value) is None,
        value is Some && value->0.len() == 0 ==> given(value) is None,
        value is Some && value->0.len() > 0 ==> given(value) == value,
{
}

/// A path lies in a folder where it begins with all the names of the folder's
/// path, whole ones; in the folder that has no names lies everything.
pub proof fn law_path_in_a_folder(folder: Seq<char>, below: Seq<char>)
    requires
        folder.len() > 0,
        folder[0] != '/',
        path_parts(pieces(folder, '/')) == pieces(folder, '/'),
    ensures
        lies_below(folder, folder),
        lies_below(folder.push('/') + below, folder),
{
    reveal_strlit("/");
    law_pieces_are_between(folder, below, '/');
    let a = pieces(folder, '/');
    let b = pieces(below, '/');
    let path = folder.push('/') + below;
    assert(folder.take(1)[0] == folder[0]);
    assert(path.take(1)[0] == folder[0]);
    lemma_pieces_nonempty(folder);
    lemma_path_parts_begin(a, b);
    assert(a.take(a.len() as int) =~= a);
}

proof fn lemma_path_parts_begin(a: Seq<Seq<char>>, b: Seq<Seq<char>>)
    ensures
        path_parts(a).len() <= path_parts(a + b).len(),
        path_parts(a + b).take(path_parts(a).len() as int) == path_parts(a),
    decreases b.len(),
{
    if b.len() == 0 {
        assert(a + b =~= a);
        assert(path_parts(a).take(path_parts(a).len() as int) =~= path_parts(a));
    } else {
        lemma_path_parts_begin(a, b.drop_last());
        assert((a + b).drop_last() =~= a + b.drop_last());
        assert(path_parts(a + b).take(path_parts(a).len() as int) =~= path_parts(a));
    }
}

/// A path whose first name is another does not lie in a folder.
pub proof fn law_path_elsewhere(path: Seq<char>, folder: Seq<char>)
    requires
        lies_below(path, folder),
        path_parts(pieces(folder, '/')).len() > 0,
    ensures
        path_parts(pieces(path, '/')).len() >= path_parts(pieces(folder, '/')).len(),
        forall|i: int|
            0 <= i < path_parts(pieces(folder, '/')).len() ==> path_parts(pieces(path, '/'))[i]
                == #[trigger] path_parts(pieces(folder, '/'))[i],
        begins_with(path, "/"@) == begins_with(folder, "/"@),
{
    let mine = path_parts(pieces(path, '/'));
    let base = path_parts(pieces(folder, '/'));
    assert forall|i: int| 0 <= i < base.len() implies mine[i] == #[trigger] base[i] by {
        assert(mine.take(base.len() as int)[i] == mine[i]);
    }
}

/// A Markdown file has the extension `md`, in either case, behind a name.
pub proof fn law_markdown_files(base: Seq<char>, extension: Seq<char>)
    requires
        base.len() > 0,
        !extension.contains('.'),
    ensures
        is_markdown_name(base.push('.') + extension) <==> extension.len() == 2 && (extension[0]
            == 'm' || extension[0] == 'M') && (extension[1] == 'd' || extension[1] == 'D'),
{
    let name = base.push('.') + extension;
    lemma_last_dot_is(base, extension);
    assert(name.skip(last_dot(name) + 1) =~= extension);
    reveal_strlit("md");
    assert("md"@.len() == 2 && "md"@[0] == 'm' && "md"@[1] == 'd');
    assert(ascii_lowered(extension).len() == extension.len());
    if extension.len() == 2 {
        let low = ascii_lowered(extension);
        assert(low[0] == ascii_lower(extension[0]));
        assert(low[1] == ascii_lower(extension[1]));
        lemma_lower_is('m', extension[0]);
        lemma_lower_is('d', extension[1]);
        assert(ascii_lower(extension[0]) == 'm' && ascii_lower(extension[1]) == 'd' ==> low
            =~= "md"@);
    }
}

proof fn lemma_lower_is(low: char, c: char)
    requires
        low == 'm' || low == 'd',
    ensures
        ascii_lower(c) == low <==> c == low || (low == 'm' && c == 'M') || (low == 'd' && c == 'D'),
{
}

proof fn lemma_last_dot_is(base: Seq<char>, extension: Seq<char>)
    requires
        !extension.contains('.'),
    ensures
        last_dot(base.push('.') + extension) == base.len(),
    decreases extension.len(),
{
    let all = base.push('.') + extension;
    if extension.len() == 0 {
        assert(all =~= base.push('.'));
    } else {
        let init = extension.drop_last();
        assert(all.drop_last() =~= base.push('.') + init);
        assert(extension[extension.len() - 1] == extension.last());
        if init.contains('.') {
            let i = choose|i: int| 0 <= i < init.len() && init[i] == '.';
            assert(extension[i] == '.');
        }
        lemma_last_dot_is(base, init);
    }
}

/// The values of an event that are looked for: where it came from, and what it
/// says under the keys of names, blank ones aside.
pub open spec fn is_shown_by(event: StoredLogEvent, s: SightingView) -> bool {
    &&& s.message == event.message@
    &&& trimmed(s.value).len() > 0
    &&& {
        ||| s.field == "source"@ && s.value == event.source@
        ||| s.field == "repo"@ && is_under(event, "repo"@, s.value)
        ||| s.field == "project"@ && is_under(event, "project"@, s.value)
        ||| s.field == "product"@ && is_under(event, "product"@, s.value)
        ||| s.field == "app"@ && is_under(event, "app"@, s.value)
        ||| s.field == "service"@ && is_under(event, "service"@, s.value)
        ||| s.field == "module"@ && is_under(event, "modules"@, s.value)
        ||| s.field == "module"@ && is_under(event, "module"@, s.value)
        ||| s.field == "work_item"@ && is_under(event, "work_item"@, s.value)
        ||| s.field == "branch"@ && is_under(event, "branch"@, s.value)
    }
}

proof fn lemma_value_sightings(
    field: Seq<char>,
    values: Seq<Seq<char>>,
    message: Seq<char>,
    s: SightingView,
)
    ensures
        value_sightings(field, values, message).contains(s) <==> s.field == field && s.message
            == message && trimmed(s.value).len() > 0 && values.contains(s.value),
    decreases values.len(),
{
    if values.len() > 0 {
        let init = values.drop_last();
        lemma_value_sightings(field, init, message, s);
        assert(values =~= init.push(values.last()));
        lemma_push_contains(init, values.last(), s.value);
        lemma_push_contains(
            value_sightings(field, init, message),
            SightingView { field, value: values.last(), message },
            s,
        );
    }
}

proof fn lemma_field_sightings(
    event: StoredLogEvent,
    fields: Seq<(Seq<char>, Seq<char>)>,
    s: SightingView,
)
    ensures
        field_sightings(event, fields).contains(s) <==> exists|i: int|
            0 <= i < fields.len() && is_sighting_in(event, #[trigger] fields[i], s),
    decreases fields.len(),
{
    if fields.len() > 0 {
        let init = fields.drop_last();
        let last = fields.last();
        lemma_field_sightings(event, init, s);
        let values = metadata_texts(event, last.0);
        lemma_value_sightings(last.1, values, event.message@, s);
        lemma_texts_under_key(event, last.0, s.value);
        lemma_joined_has(
            field_sightings(event, init),
            value_sightings(last.1, values, event.message@),
            s,
        );
        assert(fields[fields.len() - 1] == last);
        if field_sightings(event, init).contains(s) {
            let i = choose|i: int|
                0 <= i < init.len() && is_sighting_in(event, #[trigger] init[i], s);
            assert(fields[i] == init[i]);
        }
        if exists|i: int| 0 <= i < fields.len() && is_sighting_in(event, #[trigger] fields[i], s) {
            let i = choose|i: int|
                0 <= i < fields.len() && is_sighting_in(event, #[trigger] fields[i], s);
            assert(i < init.len() ==> init[i] == fields[i]);
        }
    }
}

pub open spec fn is_sighting_in(
    event: StoredLogEvent,
    key: (Seq<char>, Seq<char>),
    s: SightingView,
) -> bool {
    s.field == key.1 && s.message == event.message@ && trimmed(s.value).len() > 0 && is_under(
        event,
        key.0,
        s.value,
    )
}

/// Every name that an event shows is seen, with its message, and nothing else.
pub proof fn law_names_are_seen(events: Seq<StoredLogEvent>, s: SightingView)
    ensures
        sightings(events).contains(s) <==> exists|i: int|
            0 <= i < events.len() && is_shown_by(#[trigger] events[i], s),
    decreases events.len(),
{
    if events.len() > 0 {
        let init = events.drop_last();
        let event = events.last();
        law_names_are_seen(init, s);
        let from = value_sightings("source"@, seq![event.source@], event.message@);
        let fields = metadata_fields();
        lemma_value_sightings("source"@, seq![event.source@], event.message@, s);
        assert(seq![event.source@].contains(s.value) <==> s.value == event.source@) by {
            assert(seq![event.source@][0] == event.source@);
        }
        lemma_field_sightings(event, fields, s);
        assert(fields.len() == 9);
        assert(fields[0] == ("repo"@, "repo"@));
        assert(fields[1] == ("project"@, "project"@));
        assert(fields[2] == ("product"@, "product"@));
        assert(fields[3] == ("app"@, "app"@));
        assert(fields[4] == ("service"@, "service"@));
        assert(fields[5] == ("modules"@, "module"@));
        assert(fields[6] == ("module"@, "module"@));
        assert(fields[7] == ("work_item"@, "work_item"@));
        assert(fields[8] == ("branch"@, "branch"@));
        assert((from.contains(s) || field_sightings(event, fields).contains(s)) <==> is_shown_by(
            event,
            s,
        ));
        lemma_joined_has(sightings(init), from, s);
        lemma_joined_has(sightings(init) + from, field_sightings(event, fields), s);
        assert(events[events.len() - 1] == event);
        if sightings(init).contains(s) {
            let i = choose|i: int| 0 <= i < init.len() && is_shown_by(#[trigger] init[i], s);
            assert(events[i] == init[i]);
        }
        if exists|i: int| 0 <= i < events.len() && is_shown_by(#[trigger] events[i], s) {
            let i = choose|i: int| 0 <= i < events.len() && is_shown_by(#[trigger] events[i], s);
            assert(i < init.len() ==> init[i] == events[i]);
        }
    }
}

/// A name is counted as often as it is seen.
pub proof fn law_names_are_counted(
    a: Seq<SightingView>,
    s: SightingView,
    field: Seq<char>,
    value: Seq<char>,
)
    ensures
        times_shown(Seq::empty(), field, value) == 0,
        s.field == field && s.value == value ==> times_shown(a.push(s), field, value)
            == times_shown(a, field, value) + 1,
        s.field != field || s.value != value ==> times_shown(a.push(s), field, value)
            == times_shown(a, field, value),
{
    assert(a.push(s).drop_last() =~= a);
}

/// Whether a name is seen first at a place.
pub open spec fn is_first_seen(all: Seq<SightingView>, at: int) -> bool {
    &&& 0 <= at < all.len()
    &&& forall|i: int|
        0 <= i < at ==> (#[trigger] all[i]).field != all[at].field || all[i].value != all[at].value
}

/// Each name that is seen is reported once, with how often it is seen and the
/// message of the first event that shows it.
pub proof fn law_each_name_is_reported_once(all: Seq<SightingView>, n: nat)
    requires
        n <= all.len(),
    ensures
        forall|seen: SeenView|
            (#[trigger] identities_seen(all, n).contains(seen)) <==> exists|at: int| #[trigger]
                is_first_seen(all, at) && at < n && is_report_of(all, at, seen),
        forall|i: int, j: int|
            0 <= i < j < identities_seen(all, n).len() ==> (
            #[trigger] identities_seen(all, n)[i]).field != (
            #[trigger] identities_seen(all, n)[j]).field || identities_seen(all, n)[i].value
                != identities_seen(all, n)[j].value,
        forall|i: int|
            0 <= i < n ==> is_seen(
                identities_seen(all, n),
                (#[trigger] all[i]).field,
                all[i].value,
            ),
    decreases n,
{
    if n > 0 {
        let m = (n - 1) as nat;
        law_each_name_is_reported_once(all, m);
        let before = identities_seen(all, m);
        let found = identities_seen(all, n);
        let s = all[n - 1];
        let new = SeenView {
            field: s.field,
            value: s.value,
            event_count: times_shown(all, s.field, s.value),
            message: s.message,
        };
        assert(is_seen(before, s.field, s.value) <==> !is_first_seen(all, n - 1)) by {
            if is_seen(before, s.field, s.value) {
                let k = choose|k: int|
                    0 <= k < before.len() && (#[trigger] before[k]).field == s.field
                        && before[k].value == s.value;
                assert(before.contains(before[k]));
                let at = choose|at: int| #[trigger]
                    is_first_seen(all, at) && at < m && is_report_of(all, at, before[k]);
                assert(all[at].field == s.field && all[at].value == s.value);
            }
            if !is_first_seen(all, n - 1) {
                let i = choose|i: int|
                    0 <= i < n - 1 && (#[trigger] all[i]).field == s.field && all[i].value
                        == s.value;
                assert(is_seen(before, all[i].field, all[i].value));
            }
        }
        assert forall|seen: SeenView|
            (#[trigger] found.contains(seen)) <==> exists|at: int| #[trigger]
                is_first_seen(all, at) && at < n && is_report_of(all, at, seen) by {
            lemma_push_contains(before, new, seen);
            assert(before.contains(seen) <==> exists|at: int| #[trigger]
                is_first_seen(all, at) && at < m && is_report_of(all, at, seen));
            if exists|at: int| #[trigger]
                is_first_seen(all, at) && at < n && is_report_of(all, at, seen) {
                let at = choose|at: int| #[trigger]
                    is_first_seen(all, at) && at < n && is_report_of(all, at, seen);
                if at == n - 1 {
                    assert(seen == new);
                }
            }
            if before.contains(seen) {
                let at = choose|at: int| #[trigger]
                    is_first_seen(all, at) && at < m && is_report_of(all, at, seen);
                assert(is_first_seen(all, at) && at < n);
            }
            if is_first_seen(all, n - 1) && seen == new {
                assert(is_report_of(all, n - 1, seen));
            }
        }
        assert forall|i: int, j: int| 0 <= i < j < found.len() implies (#[trigger] found[i]).field
            != (#[trigger] found[j]).field || found[i].value != found[j].value by {
            assert(found[i] == before[i]);
            if j < before.len() {
                assert(found[j] == before[j]);
            }
        }
        assert forall|i: int| 0 <= i < n implies is_seen(
            found,
            (#[trigger] all[i]).field,
            all[i].value,
        ) by {
            if i < m {
                assert(is_seen(before, all[i].field, all[i].value));
                let k = choose|k: int|
                    0 <= k < before.len() && (#[trigger] before[k]).field == all[i].field
                        && before[k].value == all[i].value;
                assert(found[k] == before[k]);
            } else if is_seen(before, s.field, s.value) {
            } else {
                assert(found[before.len() as int] == new);
            }
        }
    }
}

pub open spec fn is_report_of(all: Seq<SightingView>, at: int, seen: SeenView) -> bool {
    &&& seen.field == all[at].field
    &&& seen.value == all[at].value
    &&& seen.message == all[at].message
    &&& seen.event_count == times_shown(all, all[at].field, all[at].value)
}

/// The names that are seen most come first, then the order is that of the
/// fields and of the names.
pub proof fn law_frequent_names_come_first(a: SeenView, b: SeenView)
    ensures
        a.event_count > b.event_count ==> seen_before(a, b),
        a.event_count < b.event_count ==> !seen_before(a, b),
        a.event_count == b.event_count && a.field != b.field ==> (seen_before(a, b) <==> precedes(
            a.field,
            b.field,
        )),
        a.event_count == b.event_count && a.field == b.field ==> (seen_before(a, b) <==> precedes(
            a.value,
            b.value,
        )),
{
    lemma_precedes_irreflexive(a.field);
}

/// A name is resolved by the rules that stand for it; only where none does, and
/// a single note has that name, by this note.
pub proof fn law_notes_of_a_name(
    notes: Seq<VaultNote>,
    rules: Seq<VaultLinkRule>,
    field: Seq<char>,
    value: Seq<char>,
    link: Seq<char>,
)
    ensures
        identity_links(notes, rules, field, value).contains(link) <==> exists|k: int|
            0 <= k < rules.len() && (#[trigger] rules[k]).enabled && names_identity(
                rules[k].selectors@,
                field,
                value,
            ) && is_link_with_id(notes, rules[k].target_note_id@, link),
        identity_links(notes, rules, field, value).len() > 0 ==> (resolved_links(
            notes,
            rules,
            field,
            value,
        ).contains(link) <==> identity_links(notes, rules, field, value).contains(link)),
        identity_links(notes, rules, field, value).len() == 0 && notes_named_by(notes, value).len()
            == 1 ==> resolved_links(notes, rules, field, value) == seq![
            notes_named_by(notes, value)[0].wikilink@,
        ],
        identity_links(notes, rules, field, value).len() == 0 && notes_named_by(notes, value).len()
            != 1 ==> resolved_links(notes, rules, field, value).len() == 0,
{
    lemma_identity_links(notes, rules, field, value, link);
    let found = identity_links(notes, rules, field, value);
    lemma_ordered_set(found);
    let by_rule = ordered_set(found);
    if found.len() > 0 {
        assert(found.contains(found[0]));
        assert(by_rule.contains(found[0]));
    } else {
        assert(by_rule.len() == 0) by {
            if by_rule.len() > 0 {
                assert(by_rule.contains(by_rule[0]));
                assert(found.contains(by_rule[0]));
            }
        }
    }
}

proof fn lemma_identity_links(
    notes: Seq<VaultNote>,
    rules: Seq<VaultLinkRule>,
    field: Seq<char>,
    value: Seq<char>,
    link: Seq<char>,
)
    ensures
        identity_links(notes, rules, field, value).contains(link) <==> exists|k: int|
            0 <= k < rules.len() && (#[trigger] rules[k]).enabled && names_identity(
                rules[k].selectors@,
                field,
                value,
            ) && is_link_with_id(notes, rules[k].target_note_id@, link),
    decreases rules.len(),
{
    if rules.len() > 0 {
        let init = rules.drop_last();
        let rule = rules.last();
        lemma_identity_links(notes, init, field, value, link);
        law_link_of_the_note_with_an_id(notes, rule.target_note_id@, link);
        let before = identity_links(notes, init, field, value);
        if link_by_id(notes, rule.target_note_id@) is Some {
            lemma_push_contains(before, link_by_id(notes, rule.target_note_id@)->0, link);
        }
        assert(rules[rules.len() - 1] == rule);
        if before.contains(link) {
            let k = choose|k: int|
                0 <= k < init.len() && (#[trigger] init[k]).enabled && names_identity(
                    init[k].selectors@,
                    field,
                    value,
                ) && is_link_with_id(notes, init[k].target_note_id@, link);
            assert(rules[k] == init[k]);
        }
        if exists|k: int|
            0 <= k < rules.len() && (#[trigger] rules[k]).enabled && names_identity(
                rules[k].selectors@,
                field,
                value,
            ) && is_link_with_id(notes, rules[k].target_note_id@, link) {
            let k = choose|k: int|
                0 <= k < rules.len() && (#[trigger] rules[k]).enabled && names_identity(
                    rules[k].selectors@,
                    field,
                    value,
                ) && is_link_with_id(notes, rules[k].target_note_id@, link);
            assert(k < init.len() ==> init[k] == rules[k]);
        }
    }
}

/// A name is reported as resolved where it stands for one note, as ambiguous
/// where it stands for several or several have the name, and else as unresolved;
/// the notes that have the name are suggested.
pub proof fn law_report_of_a_name(
    seen: SeenView,
    notes: Seq<VaultNote>,
    rules: Seq<VaultLinkRule>,
)
    ensures
        ({
            let r = report_of(seen, notes, rules);
            let named = notes_named_by(notes, seen.value);
            &&& r.field == seen.field
            &&& r.value == seen.value
            &&& r.event_count == seen.event_count
            &&& r.resolved_notes == resolved_links(notes, rules, seen.field, seen.value)
            &&& r.resolved_notes.len() == 1 ==> r.status == "resolved"@
            &&& r.resolved_notes.len() > 1 ==> r.status == "ambiguous"@
            &&& r.resolved_notes.len() == 0 && named.len() > 1 ==> r.status == "ambiguous"@
            &&& r.resolved_notes.len() == 0 && named.len() <= 1 ==> r.status == "unresolved"@
            &&& r.suggestions.len() == named.len()
            &&& forall|i: int|
                0 <= i < named.len() ==> (#[trigger] r.suggestions[i]).0 == named[i].id@
                    && r.suggestions[i].1 == "Exact title or alias"@
            &&& seen.message.len() <= 180 ==> r.sample_message == seen.message
            &&& seen.message.len() > 180 ==> r.sample_message == seen.message.take(180)
        }),
{
}

} // verus!
