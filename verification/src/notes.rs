//! Reading notes: frontmatter, titles, aliases and references.
use crate::daily_writer::{
    block, block_id_is_valid, fence_after, fence_char, is_block_id, line_fence, marker_error,
};
use crate::digest::{digest_of_text, text_digest};
use crate::ordered::contains_text;
use crate::resolution::{
    ParsedKnowledgeNote, automatic_field_names, automatic_fields, normal_identity,
    normalize_identity,
};
use crate::text::{
    after_prefix, around, before_suffix, byte_len, bytes_in, chars_of, full_lines,
    lemma_take_step, lemma_views_push, opt_text, pieces, push_texts, replace, replaced,
    split_char, split_full_lines, split_lines, split_once, str_eq, string_of, strip_prefix,
    strip_suffix, text_lines, trim, trimmed, views,
};
use crate::yaml::{
    YamlView, yaml_contents, yaml_error, yaml_get, yaml_is_mapping, yaml_is_null, yaml_items,
    yaml_items_view, yaml_number, yaml_parse, yaml_parsed, yaml_text,
};
use vstd::prelude::*;
use vstd::string::*;
use vstd::utf8::*;

verus! {

/// The longest title of a note, in bytes.
pub const MAX_TITLE_BYTES: usize = 200;

/// The most aliases that a note may have.
pub const MAX_ALIAS_COUNT: usize = 32;

/// The most references that a note may have.
pub const MAX_REFERENCE_COUNT: usize = 64;

/// The longest identity, in bytes.
pub const MAX_IDENTITY_BYTES: usize = 300;

/// A note of the workspace as it was read.
#[derive(Debug, Clone, PartialEq, Eq)]
pub struct WorkspaceMarkdownDocument {
    pub path: String,
    pub content: String,
    pub content_digest: String,
}

/// The block ID in a line that is a marker with that ending.
pub open spec fn marker_id(line: Seq<char>, ending: Seq<char>) -> Option<Seq<char>> {
    match after_prefix(trimmed(line), "<!-- log-inbox:daily:"@) {
        Some(rest) => match before_suffix(rest, ending) {
            Some(id) => if is_block_id(id) {
                Some(id)
            } else {
                None
            },
            None => None,
        },
        None => None,
    }
}

/// How far the managed blocks of a text are taken out.
pub struct Stripped {
    /// The block that is open.
    pub block: Option<Seq<char>>,
    /// The text outside blocks.
    pub kept: Seq<char>,
    /// Whether every marker stood in its place.
    pub sound: bool,
}

/// Takes out managed blocks, whatever their ID. Markers in fenced code are text.
pub open spec fn stripped(lines: Seq<Seq<char>>) -> Stripped
    decreases lines.len(),
{
    if lines.len() == 0 {
        Stripped { block: None, kept: Seq::empty(), sound: true }
    } else {
        let before = stripped(lines.drop_last());
        let line = lines.last();
        let outside_code = fence_after(None, lines.drop_last()) is None && fence_char(line) is None;
        let begins = marker_id(line, ":begin -->"@);
        let ends = marker_id(line, ":end -->"@);
        if outside_code && begins is Some {
            Stripped { block: begins, sound: before.sound && before.block is None, ..before }
        } else if outside_code && ends is Some {
            Stripped { block: None, sound: before.sound && before.block == ends, ..before }
        } else if before.block is Some {
            before
        } else {
            Stripped { kept: before.kept + line, ..before }
        }
    }
}

/// The text without its managed blocks.
pub open spec fn without_blocks(text: Seq<char>) -> Result<Seq<char>, Seq<char>> {
    let state = stripped(full_lines(text));
    if state.sound && state.block is None {
        Ok(state.kept)
    } else {
        Err(marker_error())
    }
}

fn block_id_of(line: &str, ending: &str) -> (r: Option<String>)
    ensures
        opt_text(r) == marker_id(line@, ending@),
{
    match strip_prefix(trim(line).as_str(), "<!-- log-inbox:daily:") {
        Some(rest) => match strip_suffix(rest.as_str(), ending) {
            Some(id) => {
                if block_id_is_valid(id.as_str()) {
                    Some(id)
                } else {
                    None
                }
            },
            None => None,
        },
        None => None,
    }
}

/// Takes the managed blocks out of a text.
pub fn strip_managed_daily_blocks(text: &str) -> (r: Result<String, String>)
    ensures
        match without_blocks(text@) {
            Ok(kept) => r is Ok && r->Ok_0@ == kept,
            Err(error) => r is Err && r->Err_0@ == error,
        },
{
    let lines = split_full_lines(text);
    let ghost all = views(lines@);
    let mut fence: Option<char> = None;
    let mut block: Option<String> = None;
    let mut kept: String = String::new();
    let mut sound: bool = true;
    let mut i: usize = 0;
    assert(all.take(0) =~= Seq::<Seq<char>>::empty());
    assert(kept@ =~= Seq::<char>::empty());
    while i < lines.len()
        invariant
            i <= lines@.len(),
            all == views(lines@),
            fence == fence_after(None, all.take(i as int)),
            ({
                let state = stripped(all.take(i as int));
                &&& opt_text(block) == state.block
                &&& kept@ == state.kept
                &&& sound == state.sound
            }),
        decreases lines@.len() - i,
    {
        proof {
            lemma_take_step(all, i as int);
        }
        let line: &str = lines[i].as_str();
        let mark = line_fence(trim(line).as_str());
        let begins = block_id_of(line, ":begin -->");
        let ends = block_id_of(line, ":end -->");
        let outside_code = fence.is_none() && mark.is_none();
        if outside_code && begins.is_some() {
            if block.is_some() {
                sound = false;
            }
            block = begins;
        } else if outside_code && ends.is_some() {
            let fits = match (&block, &ends) {
                (Some(open), Some(id)) => str_eq(open.as_str(), id.as_str()),
                _ => false,
            };
            if !fits {
                sound = false;
            }
            block = None;
        } else if block.is_none() {
            kept.push_str(line);
        }
        if let Some(character) = mark {
            match fence {
                None => {
                    fence = Some(character);
                },
                Some(open) => {
                    if open == character {
                        fence = None;
                    }
                },
            }
        }
        i += 1;
    }
    assert(all.take(i as int) =~= all);
    if sound && block.is_none() {
        Ok(kept)
    } else {
        Err("managed Daily markers are missing, duplicated, or out of order".to_owned())
    }
}

/// The frontmatter of a note, as YAML text, and what follows it.
pub open spec fn frontmatter_parts(text: Seq<char>) -> Result<
    Option<(Seq<char>, Seq<char>)>,
    Seq<char>,
> {
    match after_prefix(text, "---\n"@) {
        None => Ok(None),
        Some(rest) => match around(rest, "\n---\n"@) {
            Some(parts) => Ok(Some(parts)),
            None => match before_suffix(rest, "\n---"@) {
                Some(yaml) => Ok(Some((yaml, Seq::empty()))),
                None => Err("Knowledge note frontmatter is not terminated"@),
            },
        },
    }
}

/// The frontmatter of a note, where it has one, and its body.
pub open spec fn frontmatter(text: Seq<char>) -> Result<
    (Option<YamlView>, Seq<char>),
    Seq<char>,
> {
    match frontmatter_parts(text) {
        Err(error) => Err(error),
        Ok(None) => Ok((None, text)),
        Ok(Some((yaml, body))) => match yaml_parsed(yaml) {
            None => Err("Knowledge note frontmatter is invalid: "@ + yaml_error(yaml)),
            Some(value) => if value.untagged() is Record || value.untagged() is Null {
                Ok((Some(value), body))
            } else {
                Err("Knowledge note frontmatter must be a mapping"@)
            },
        },
    }
}

fn split_frontmatter(text: &str) -> (r: Result<(Option<serde_yaml::Value>, String), String>)
    ensures
        match frontmatter(text@) {
            Ok((value, body)) => {
                &&& r is Ok
                &&& (r->Ok_0).1@ == body
                &&& match (r->Ok_0).0 {
                    Some(v) => value == Some(yaml_contents(v)),
                    None => value is None,
                }
            },
            Err(error) => r is Err && r->Err_0@ == error,
        },
{
    let rest = match strip_prefix(text, "---\n") {
        Some(rest) => rest,
        None => {
            return Ok((None, text.to_owned()));
        },
    };
    let (yaml, body) = match split_once(rest.as_str(), "\n---\n") {
        Some(parts) => parts,
        None => match strip_suffix(rest.as_str(), "\n---") {
            Some(yaml) => {
                let body = String::new();
                assert(body@ =~= Seq::<char>::empty());
                (yaml, body)
            },
            None => {
                return Err("Knowledge note frontmatter is not terminated".to_owned());
            },
        },
    };
    match yaml_parse(yaml.as_str()) {
        Err(error) => {
            let mut message = "Knowledge note frontmatter is invalid: ".to_owned();
            message.push_str(error.as_str());
            Err(message)
        },
        Ok(value) => {
            if !yaml_is_mapping(&value) && !yaml_is_null(&value) {
                Err("Knowledge note frontmatter must be a mapping".to_owned())
            } else {
                Ok((Some(value), body))
            }
        },
    }
}

/// The text in an entry of the frontmatter.
pub open spec fn scalar_entry(value: YamlView, key: Seq<char>) -> Result<
    Option<Seq<char>>,
    Seq<char>,
> {
    match value.entry(key) {
        None => Ok(None),
        Some(YamlView::Text(s)) => Ok(Some(trimmed(s))),
        Some(_) => Err("Knowledge note "@ + key + " must be text"@),
    }
}

fn scalar_string(value: &serde_yaml::Value, key: &str) -> (r: Result<Option<String>, String>)
    ensures
        match scalar_entry(yaml_contents(*value), key@) {
            Ok(text) => r is Ok && opt_text(r->Ok_0) == text,
            Err(error) => r is Err && r->Err_0@ == error,
        },
{
    match yaml_get(value, key) {
        None => Ok(None),
        Some(entry) => match yaml_text(entry) {
            Some(s) => Ok(Some(trim(s.as_str()))),
            None => {
                let mut message = "Knowledge note ".to_owned();
                message.push_str(key);
                message.push_str(" must be text");
                Err(message)
            },
        },
    }
}

/// The text of one value of a list, or of a number where numbers count.
pub open spec fn item_text(item: YamlView, allow_number: bool) -> Option<Seq<char>> {
    match item {
        YamlView::Text(s) => Some(trimmed(s)),
        YamlView::Number(n) => if allow_number {
            Some(n)
        } else {
            None
        },
        _ => None,
    }
}

pub open spec fn item_error(key: Seq<char>, allow_number: bool) -> Seq<char> {
    "Knowledge note "@ + key + " must contain only "@ + if allow_number {
        "text or numbers"@
    } else {
        "text"@
    }
}

pub open spec fn item_texts(items: Seq<YamlView>, key: Seq<char>, allow_number: bool) -> Result<
    Seq<Seq<char>>,
    Seq<char>,
>
    decreases items.len(),
{
    if items.len() == 0 {
        Ok(Seq::empty())
    } else {
        match item_texts(items.drop_last(), key, allow_number) {
            Err(error) => Err(error),
            Ok(before) => match item_text(items.last(), allow_number) {
                None => Err(item_error(key, allow_number)),
                Some(text) => if text.len() > 0 {
                    Ok(before.push(text))
                } else {
                    Ok(before)
                },
            },
        }
    }
}

/// The texts in an entry of the frontmatter, which holds one or a list.
pub open spec fn entry_texts(value: YamlView, key: Seq<char>, allow_number: bool) -> Result<
    Seq<Seq<char>>,
    Seq<char>,
> {
    match value.entry(key) {
        None => Ok(Seq::empty()),
        Some(YamlView::List(items)) => item_texts(items, key, allow_number),
        Some(item) => item_texts(seq![item], key, allow_number),
    }
}

/// Whether a list of strings, or why there is none, says what a specification says.
pub open spec fn texts_result(
    r: Result<Vec<String>, String>,
    view: Result<Seq<Seq<char>>, Seq<char>>,
) -> bool {
    match view {
        Ok(texts) => r is Ok && views(r->Ok_0@) == texts,
        Err(error) => r is Err && r->Err_0@ == error,
    }
}

fn strings(value: &serde_yaml::Value, key: &str, allow_number: bool) -> (r: Result<
    Vec<String>,
    String,
>)
    ensures
        texts_result(r, entry_texts(yaml_contents(*value), key@, allow_number)),
{
    broadcast use lemma_views_push;
    let entry = match yaml_get(value, key) {
        None => {
            let none: Vec<String> = Vec::new();
            assert(views(none@) =~= Seq::<Seq<char>>::empty());
            return Ok(none);
        },
        Some(entry) => entry,
    };
    let items: Vec<&serde_yaml::Value> = match yaml_items(entry) {
        Some(items) => items,
        None => {
            let mut one: Vec<&serde_yaml::Value> = Vec::new();
            one.push(entry);
            assert(yaml_items_view(one@) =~= seq![yaml_contents(*entry)]);
            one
        },
    };
    let ghost all = yaml_items_view(items@);
    let mut output: Vec<String> = Vec::new();
    let mut i: usize = 0;
    assert(all.take(0) =~= Seq::<YamlView>::empty());
    assert(views(output@) =~= Seq::<Seq<char>>::empty());
    while i < items.len()
        invariant
            i <= items@.len(),
            all == yaml_items_view(items@),
            entry_texts(yaml_contents(*value), key@, allow_number) == item_texts(
                all,
                key@,
                allow_number,
            ),
            item_texts(all.take(i as int), key@, allow_number) == Ok::<Seq<Seq<char>>, Seq<char>>(
                views(output@),
            ),
        decreases items@.len() - i,
    {
        proof {
            lemma_take_step(all, i as int);
            assert(all[i as int] == yaml_contents(*items@[i as int]));
        }
        let text = match yaml_text(items[i]) {
            Some(s) => Some(trim(s.as_str())),
            None => {
                if allow_number {
                    yaml_number(items[i])
                } else {
                    None
                }
            },
        };
        assert(opt_text(text) == item_text(all[i as int], allow_number));
        match text {
            Some(text) => {
                let ghost before = views(output@);
                let ghost said = text@;
                if !text.as_str().is_empty() {
                    output.push(text);
                    assert(views(output@) == before.push(said));
                }
            },
            None => {
                proof {
                    lemma_item_error(all, key@, allow_number, i + 1);
                }
                let mut message = "Knowledge note ".to_owned();
                message.push_str(key);
                message.push_str(" must contain only ");
                message.push_str(
                    if allow_number {
                        "text or numbers"
                    } else {
                        "text"
                    },
                );
                return Err(message);
            },
        }
        i += 1;
    }
    assert(all.take(i as int) =~= all);
    Ok(output)
}

/// An error in the first items of a list is the error of the list.
proof fn lemma_item_error(items: Seq<YamlView>, key: Seq<char>, allow_number: bool, n: int)
    requires
        0 <= n <= items.len(),
        item_texts(items.take(n), key, allow_number) is Err,
    ensures
        item_texts(items, key, allow_number) == item_texts(items.take(n), key, allow_number),
    decreases items.len() - n,
{
    if n < items.len() {
        lemma_take_step(items, n);
        lemma_item_error(items, key, allow_number, n + 1);
    } else {
        assert(items.take(n) =~= items);
    }
}


/// The title in a line that is a first-level heading.
pub open spec fn heading_text(line: Seq<char>) -> Option<Seq<char>> {
    match after_prefix(trimmed(line), "# "@) {
        Some(title) => if trimmed(title).len() > 0 {
            Some(trimmed(title))
        } else {
            None
        },
        None => None,
    }
}

/// The first first-level heading outside fenced code.
pub open spec fn heading_in(lines: Seq<Seq<char>>) -> Option<Seq<char>>
    decreases lines.len(),
{
    if lines.len() == 0 {
        None
    } else {
        match heading_in(lines.drop_last()) {
            Some(title) => Some(title),
            None => if fence_after(None, lines.drop_last()) is None && fence_char(
                lines.last(),
            ) is None {
                heading_text(lines.last())
            } else {
                None
            },
        }
    }
}

fn first_heading(body: &str) -> (r: Option<String>)
    ensures
        opt_text(r) == heading_in(text_lines(body@)),
{
    let lines = split_lines(body);
    let ghost all = views(lines@);
    let mut fence: Option<char> = None;
    let mut found: Option<String> = None;
    let mut i: usize = 0;
    assert(all.take(0) =~= Seq::<Seq<char>>::empty());
    while i < lines.len()
        invariant
            i <= lines@.len(),
            all == views(lines@),
            fence == fence_after(None, all.take(i as int)),
            opt_text(found) == heading_in(all.take(i as int)),
        decreases lines@.len() - i,
    {
        proof {
            lemma_take_step(all, i as int);
        }
        let line = trim(lines[i].as_str());
        match line_fence(line.as_str()) {
            Some(character) => match fence {
                None => {
                    fence = Some(character);
                },
                Some(open) => {
                    if open == character {
                        fence = None;
                    }
                },
            },
            None => {
                if fence.is_none() && found.is_none() {
                    if let Some(title) = strip_prefix(line.as_str(), "# ") {
                        let title = trim(title.as_str());
                        if !title.as_str().is_empty() {
                            found = Some(title);
                        }
                    }
                }
            },
        }
        i += 1;
    }
    assert(all.take(i as int) =~= all);
    found
}

/// The last of some path components that is not empty or `.`.
pub open spec fn last_component(parts: Seq<Seq<char>>) -> Option<Seq<char>>
    decreases parts.len(),
{
    if parts.len() == 0 {
        None
    } else if parts.last().len() > 0 && parts.last() != "."@ {
        Some(parts.last())
    } else {
        last_component(parts.drop_last())
    }
}

/// Where the last dot stands.
pub open spec fn last_dot(s: Seq<char>) -> int
    decreases s.len(),
{
    if s.len() == 0 {
        -1
    } else if s.last() == '.' {
        s.len() - 1
    } else {
        last_dot(s.drop_last())
    }
}

/// A file name without its extension; a leading dot begins no extension.
pub open spec fn stem(name: Seq<char>) -> Seq<char> {
    if last_dot(name) > 0 {
        name.take(last_dot(name))
    } else {
        name
    }
}

/// The title that a note has from its file name.
pub open spec fn name_title(path: Seq<char>) -> Seq<char> {
    match last_component(pieces(path, '/')) {
        Some(name) => if name == ".."@ {
            path
        } else {
            stem(name)
        },
        None => path,
    }
}

pub fn stem_of(name: &str) -> (r: String)
    ensures
        r@ == stem(name@),
{
    let chars = chars_of(name);
    let mut i: usize = chars.len();
    assert(chars@.take(i as int) =~= chars@);
    while i > 0 && chars[i - 1] != '.'
        invariant
            i <= chars@.len(),
            last_dot(chars@) == last_dot(chars@.take(i as int)),
        decreases i,
    {
        assert(chars@.take(i as int).drop_last() =~= chars@.take(i - 1));
        i -= 1;
    }
    if i > 1 {
        let head = string_of(&chars, 0, i - 1);
        assert(head@ =~= name@.take(i - 1));
        head
    } else {
        name.to_owned()
    }
}

fn filename_title(path: &str) -> (r: String)
    ensures
        r@ == name_title(path@),
{
    let parts = split_char(path, '/');
    let mut i: usize = parts.len();
    let ghost all = views(parts@);
    assert(all.take(i as int) =~= all);
    while i > 0
        invariant
            i <= parts@.len(),
            all == views(parts@),
            all == pieces(path@, '/'),
            last_component(all) == last_component(all.take(i as int)),
        decreases i,
    {
        assert(all.take(i as int).drop_last() =~= all.take(i - 1));
        let part: &str = parts[i - 1].as_str();
        if !part.is_empty() && !str_eq(part, ".") {
            if str_eq(part, "..") {
                return path.to_owned();
            }
            return stem_of(part);
        }
        i -= 1;
    }
    path.to_owned()
}

/// Why an identity is not accepted, if it is not.
pub open spec fn identity_error(label: Seq<char>, value: Seq<char>) -> Option<Seq<char>> {
    if trimmed(value).len() == 0 || byte_len(value) > MAX_IDENTITY_BYTES {
        Some(label + " must contain 1-300 bytes"@)
    } else if label == "Knowledge note title"@ && byte_len(value) > MAX_TITLE_BYTES {
        Some("Knowledge note title must contain 1-200 bytes"@)
    } else {
        None
    }
}

pub fn validate_identity(label: &str, value: &str) -> (r: Result<(), String>)
    ensures
        match identity_error(label@, value@) {
            Some(error) => r is Err && r->Err_0@ == error,
            None => r is Ok,
        },
{
    let size: usize = bytes_in(value);
    if trim(value).as_str().is_empty() || size > MAX_IDENTITY_BYTES {
        let mut message = label.to_owned();
        message.push_str(" must contain 1-300 bytes");
        return Err(message);
    }
    if str_eq(label, "Knowledge note title") && size > MAX_TITLE_BYTES {
        return Err("Knowledge note title must contain 1-200 bytes".to_owned());
    }
    Ok(())
}

/// The error of the first identity of a list that is not accepted.
pub open spec fn first_identity_error(label: Seq<char>, values: Seq<Seq<char>>) -> Option<
    Seq<char>,
>
    decreases values.len(),
{
    if values.len() == 0 {
        None
    } else {
        match first_identity_error(label, values.drop_last()) {
            Some(error) => Some(error),
            None => identity_error(label, values.last()),
        }
    }
}

fn validate_identities(label: &str, values: &Vec<String>) -> (r: Result<(), String>)
    ensures
        match first_identity_error(label@, views(values@)) {
            Some(error) => r is Err && r->Err_0@ == error,
            None => r is Ok,
        },
{
    let ghost all = views(values@);
    let mut r: Result<(), String> = Ok(());
    let mut i: usize = 0;
    assert(all.take(0) =~= Seq::<Seq<char>>::empty());
    while i < values.len()
        invariant
            i <= values@.len(),
            all == views(values@),
            match first_identity_error(label@, all.take(i as int)) {
                Some(error) => r is Err && r->Err_0@ == error,
                None => r is Ok,
            },
        decreases values@.len() - i,
    {
        proof {
            lemma_take_step(all, i as int);
        }
        if r.is_ok() {
            r = validate_identity(label, values[i].as_str());
        }
        i += 1;
    }
    assert(all.take(i as int) =~= all);
    r
}

pub open spec fn normals(values: Seq<Seq<char>>) -> Seq<Seq<char>> {
    values.map_values(|v: Seq<char>| normal_identity(v))
}

/// The first of the values that are the same identity.
pub open spec fn deduplicated(values: Seq<Seq<char>>) -> Seq<Seq<char>>
    decreases values.len(),
{
    if values.len() == 0 {
        Seq::empty()
    } else {
        let before = deduplicated(values.drop_last());
        if normals(values.drop_last()).contains(normal_identity(values.last())) {
            before
        } else {
            before.push(values.last())
        }
    }
}

pub fn deduplicate(values: &Vec<String>) -> (r: Vec<String>)
    ensures
        views(r@) == deduplicated(views(values@)),
{
    broadcast use lemma_views_push;
    let ghost all = views(values@);
    let ghost all_normal = normals(all);
    let mut seen: Vec<String> = Vec::new();
    let mut r: Vec<String> = Vec::new();
    let mut i: usize = 0;
    assert(all.take(0) =~= Seq::<Seq<char>>::empty());
    assert(views(r@) =~= Seq::<Seq<char>>::empty());
    assert(views(seen@) =~= all_normal.take(0));
    while i < values.len()
        invariant
            i <= values@.len(),
            all == views(values@),
            all_normal == normals(all),
            views(seen@) == all_normal.take(i as int),
            views(r@) == deduplicated(all.take(i as int)),
        decreases values@.len() - i,
    {
        proof {
            lemma_take_step(all, i as int);
            lemma_take_step(all_normal, i as int);
            assert(normals(all.take(i as int)) =~= all_normal.take(i as int));
        }
        let key = normalize_identity(values[i].as_str());
        if !contains_text(&seen, key.as_str()) {
            r.push(values[i].as_str().to_owned());
        }
        seen.push(key);
        i += 1;
    }
    assert(all.take(i as int) =~= all);
    r
}

/// The fields of the frontmatter that hold references, and the keys that
/// stand for each.
pub open spec fn reference_keys(field: Seq<char>) -> Seq<Seq<char>> {
    if field == "module"@ {
        seq!["module"@, "modules"@]
    } else if field == "work_item"@ {
        seq!["work_item"@, "ado"@]
    } else if field == "pull_request"@ {
        seq!["pull_request"@, "pr"@]
    } else {
        seq![field]
    }
}

/// The fields that hold references, in the order in which they are read.
pub open spec fn reference_order() -> Seq<Seq<char>> {
    seq![
        "repo"@,
        "project"@,
        "product"@,
        "app"@,
        "service"@,
        "module"@,
        "work_item"@,
        "pull_request"@,
    ]
}

/// The texts in several entries of the frontmatter.
pub open spec fn texts_in_keys(value: YamlView, keys: Seq<Seq<char>>) -> Result<
    Seq<Seq<char>>,
    Seq<char>,
>
    decreases keys.len(),
{
    if keys.len() == 0 {
        Ok(Seq::empty())
    } else {
        match texts_in_keys(value, keys.drop_last()) {
            Err(error) => Err(error),
            Ok(before) => match entry_texts(value, keys.last(), true) {
                Err(error) => Err(error),
                Ok(texts) => Ok(before + texts),
            },
        }
    }
}

/// The references of a note in a field.
pub open spec fn references_for(value: YamlView, field: Seq<char>) -> Result<
    Seq<Seq<char>>,
    Seq<char>,
> {
    match texts_in_keys(value, reference_keys(field)) {
        Err(error) => Err(error),
        Ok(texts) => Ok(deduplicated(texts)),
    }
}

/// The first error that reading the references of some fields meets.
pub open spec fn reference_error(value: YamlView, fields: Seq<Seq<char>>) -> Option<Seq<char>>
    decreases fields.len(),
{
    if fields.len() == 0 {
        None
    } else {
        match reference_error(value, fields.drop_last()) {
            Some(error) => Some(error),
            None => match references_for(value, fields.last()) {
                Err(error) => Some(error),
                Ok(_) => None,
            },
        }
    }
}

/// The references of a note by field, without fields that have none.
pub open spec fn references_by_field(value: YamlView, fields: Seq<Seq<char>>) -> Seq<
    (Seq<char>, Seq<Seq<char>>),
>
    decreases fields.len(),
{
    if fields.len() == 0 {
        Seq::empty()
    } else {
        let before = references_by_field(value, fields.drop_last());
        match references_for(value, fields.last()) {
            Ok(texts) => if texts.len() > 0 {
                before.push((fields.last(), texts))
            } else {
                before
            },
            Err(_) => before,
        }
    }
}

pub open spec fn pair_views(v: Seq<(String, Vec<String>)>) -> Seq<(Seq<char>, Seq<Seq<char>>)> {
    v.map_values(|p: (String, Vec<String>)| (p.0@, views(p.1@)))
}

pub open spec fn all_references(references: Seq<(Seq<char>, Seq<Seq<char>>)>) -> Seq<Seq<char>>
    decreases references.len(),
{
    if references.len() == 0 {
        Seq::empty()
    } else {
        all_references(references.drop_last()) + references.last().1
    }
}

fn read_field_references(value: &serde_yaml::Value, field: &str) -> (r: Result<Vec<String>, String>)
    ensures
        texts_result(r, references_for(yaml_contents(*value), field@)),
{
    broadcast use lemma_views_push;
    let mut keys: Vec<String> = Vec::new();
    if str_eq(field, "module") {
        keys.push("module".to_owned());
        keys.push("modules".to_owned());
    } else if str_eq(field, "work_item") {
        keys.push("work_item".to_owned());
        keys.push("ado".to_owned());
    } else if str_eq(field, "pull_request") {
        keys.push("pull_request".to_owned());
        keys.push("pr".to_owned());
    } else {
        keys.push(field.to_owned());
    }
    let ghost all = reference_keys(field@);
    assert(views(keys@) =~= all);
    let ghost v = yaml_contents(*value);
    let mut values: Vec<String> = Vec::new();
    let mut i: usize = 0;
    assert(all.take(0) =~= Seq::<Seq<char>>::empty());
    assert(views(values@) =~= Seq::<Seq<char>>::empty());
    while i < keys.len()
        invariant
            i <= keys@.len(),
            v == yaml_contents(*value),
            all == reference_keys(field@),
            views(keys@) == all,
            texts_in_keys(v, all.take(i as int)) == Ok::<Seq<Seq<char>>, Seq<char>>(views(values@)),
        decreases keys@.len() - i,
    {
        proof {
            lemma_take_step(all, i as int);
            assert(all[i as int] == keys@[i as int]@);
        }
        match strings(value, keys[i].as_str(), true) {
            Ok(texts) => {
                push_texts(&mut values, &texts);
            },
            Err(error) => {
                proof {
                    lemma_keys_error(v, all, i + 1);
                }
                return Err(error);
            },
        }
        i += 1;
    }
    assert(all.take(i as int) =~= all);
    Ok(deduplicate(&values))
}

proof fn lemma_keys_error(value: YamlView, keys: Seq<Seq<char>>, n: int)
    requires
        0 <= n <= keys.len(),
        texts_in_keys(value, keys.take(n)) is Err,
    ensures
        texts_in_keys(value, keys) == texts_in_keys(value, keys.take(n)),
    decreases keys.len() - n,
{
    if n < keys.len() {
        lemma_take_step(keys, n);
        lemma_keys_error(value, keys, n + 1);
    } else {
        assert(keys.take(n) =~= keys);
    }
}


/// What a frontmatter says; a note without one has an empty one.
pub open spec fn or_empty(value: Option<YamlView>) -> YamlView {
    match value {
        Some(v) => v,
        None => YamlView::Null,
    }
}

pub open spec fn value_view(value: Option<serde_yaml::Value>) -> YamlView {
    match value {
        Some(v) => yaml_contents(v),
        None => YamlView::Null,
    }
}

/// The text of a note without a byte order mark, with plain line breaks.
pub open spec fn note_text(content: Seq<char>) -> Seq<char> {
    let text = match after_prefix(content, "\u{feff}"@) {
        Some(rest) => rest,
        None => content,
    };
    replaced(replaced(text, "\r\n"@, "\n"@), "\r"@, "\n"@)
}

pub struct NoteView {
    pub path: Seq<char>,
    pub title: Seq<char>,
    pub aliases: Seq<Seq<char>>,
    pub references: Seq<(Seq<char>, Seq<Seq<char>>)>,
    pub source_digest: Seq<char>,
    pub usable_digest: Seq<char>,
    pub usable_content: Seq<char>,
}

impl View for ParsedKnowledgeNote {
    type V = NoteView;

    open spec fn view(&self) -> NoteView {
        NoteView {
            path: self.path@,
            title: self.title@,
            aliases: views(self.aliases@),
            references: pair_views(self.references@),
            source_digest: self.source_digest@,
            usable_digest: self.usable_digest@,
            usable_content: self.usable_content@,
        }
    }
}

/// A note's title: the one in its frontmatter, its first heading, or its name.
pub open spec fn note_title(
    stated: Option<Seq<char>>,
    body: Seq<char>,
    path: Seq<char>,
) -> Seq<char> {
    match stated {
        Some(title) => title,
        None => match heading_in(text_lines(body)) {
            Some(title) => title,
            None => name_title(path),
        },
    }
}

/// A note from its frontmatter and its body.
pub open spec fn note_from(
    path: Seq<char>,
    source_digest: Seq<char>,
    front: YamlView,
    body: Seq<char>,
) -> Result<NoteView, Seq<char>> {
    match scalar_entry(front, "title"@) {
        Err(error) => Err(error),
        Ok(stated) => {
            let title = note_title(stated, body, path);
            let aliases = entry_texts(front, "aliases"@, false);
            let references = references_by_field(front, automatic_fields());
            if identity_error("Knowledge note title"@, title) is Some {
                Err(identity_error("Knowledge note title"@, title)->0)
            } else if aliases is Err {
                Err(aliases->Err_0)
            } else if aliases->Ok_0.len() > MAX_ALIAS_COUNT {
                Err("Knowledge note has more than 32 aliases"@)
            } else if first_identity_error("Knowledge note alias"@, aliases->Ok_0) is Some {
                Err(first_identity_error("Knowledge note alias"@, aliases->Ok_0)->0)
            } else if reference_error(front, reference_order()) is Some {
                Err(reference_error(front, reference_order())->0)
            } else if all_references(references).len() > MAX_REFERENCE_COUNT {
                Err("Knowledge note has more than 64 references"@)
            } else if first_identity_error(
                "Knowledge note reference"@,
                all_references(references),
            ) is Some {
                Err(
                    first_identity_error(
                        "Knowledge note reference"@,
                        all_references(references),
                    )->0,
                )
            } else {
                Ok(
                    NoteView {
                        path,
                        title: trimmed(title),
                        aliases: deduplicated(aliases->Ok_0),
                        references,
                        source_digest,
                        usable_digest: text_digest(trimmed(body)),
                        usable_content: trimmed(body),
                    },
                )
            }
        },
    }
}

/// The note that a document holds, or why it holds none.
pub open spec fn note_of(document: WorkspaceMarkdownDocument) -> Result<NoteView, Seq<char>> {
    match without_blocks(note_text(document.content@)) {
        Err(error) => Err(error),
        Ok(text) => match frontmatter(text) {
            Err(error) => Err(error),
            Ok((value, body)) => note_from(
                document.path@,
                document.content_digest@,
                or_empty(value),
                body,
            ),
        },
    }
}

fn reference_field_order() -> (r: Vec<String>)
    ensures
        views(r@) == reference_order(),
{
    let mut r: Vec<String> = Vec::new();
    r.push("repo".to_owned());
    r.push("project".to_owned());
    r.push("product".to_owned());
    r.push("app".to_owned());
    r.push("service".to_owned());
    r.push("module".to_owned());
    r.push("work_item".to_owned());
    r.push("pull_request".to_owned());
    assert(views(r@) =~= reference_order());
    r
}

fn check_references(value: &serde_yaml::Value) -> (r: Result<(), String>)
    ensures
        match reference_error(yaml_contents(*value), reference_order()) {
            Some(error) => r is Err && r->Err_0@ == error,
            None => r is Ok,
        },
{
    let fields = reference_field_order();
    let ghost all = reference_order();
    let ghost v = yaml_contents(*value);
    let mut r: Result<(), String> = Ok(());
    let mut i: usize = 0;
    assert(all.take(0) =~= Seq::<Seq<char>>::empty());
    while i < fields.len()
        invariant
            i <= fields@.len(),
            all == views(fields@),
            v == yaml_contents(*value),
            match reference_error(v, all.take(i as int)) {
                Some(error) => r is Err && r->Err_0@ == error,
                None => r is Ok,
            },
        decreases fields@.len() - i,
    {
        proof {
            lemma_take_step(all, i as int);
            assert(all[i as int] == fields@[i as int]@);
        }
        if r.is_ok() {
            r = match read_field_references(value, fields[i].as_str()) {
                Ok(_) => Ok(()),
                Err(error) => Err(error),
            };
        }
        i += 1;
    }
    assert(all.take(i as int) =~= all);
    r
}

fn collect_references(value: &serde_yaml::Value) -> (r: (Vec<(String, Vec<String>)>, Vec<String>))
    ensures
        pair_views(r.0@) == references_by_field(yaml_contents(*value), automatic_fields()),
        views(r.1@) == all_references(pair_views(r.0@)),
{
    let fields = automatic_field_names();
    let ghost all = automatic_fields();
    let ghost v = yaml_contents(*value);
    let mut references: Vec<(String, Vec<String>)> = Vec::new();
    let mut flat: Vec<String> = Vec::new();
    let mut i: usize = 0;
    assert(all.take(0) =~= Seq::<Seq<char>>::empty());
    assert(pair_views(references@) =~= Seq::<(Seq<char>, Seq<Seq<char>>)>::empty());
    assert(views(flat@) =~= Seq::<Seq<char>>::empty());
    while i < fields.len()
        invariant
            i <= fields@.len(),
            all == views(fields@),
            v == yaml_contents(*value),
            pair_views(references@) == references_by_field(v, all.take(i as int)),
            views(flat@) == all_references(pair_views(references@)),
        decreases fields@.len() - i,
    {
        proof {
            lemma_take_step(all, i as int);
            assert(all[i as int] == fields@[i as int]@);
        }
        if let Ok(texts) = read_field_references(value, fields[i].as_str()) {
            assert(views(texts@).len() == texts@.len());
            if texts.len() > 0 {
                let ghost before = pair_views(references@);
                let ghost pair = (all[i as int], views(texts@));
                push_texts(&mut flat, &texts);
                references.push((fields[i].as_str().to_owned(), texts));
                assert(pair_views(references@) =~= before.push(pair));
                assert(before.push(pair).drop_last() =~= before);
            }
        }
        i += 1;
    }
    assert(all.take(i as int) =~= all);
    (references, flat)
}

proof fn lemma_no_references(fields: Seq<Seq<char>>)
    ensures
        references_by_field(YamlView::Null, fields).len() == 0,
        reference_error(YamlView::Null, fields) is None,
    decreases fields.len(),
{
    if fields.len() > 0 {
        lemma_no_references(fields.drop_last());
        lemma_no_texts(reference_keys(fields.last()));
    }
}

proof fn lemma_no_texts(keys: Seq<Seq<char>>)
    ensures
        texts_in_keys(YamlView::Null, keys) == Ok::<Seq<Seq<char>>, Seq<char>>(Seq::empty()),
    decreases keys.len(),
{
    if keys.len() > 0 {
        lemma_no_texts(keys.drop_last());
        assert(Seq::<Seq<char>>::empty() + Seq::<Seq<char>>::empty() =~= Seq::<
            Seq<char>,
        >::empty());
    }
}

/// Reads a note: its title, aliases, references and usable text.
pub fn parse_knowledge_note(document: &WorkspaceMarkdownDocument) -> (r: Result<
    ParsedKnowledgeNote,
    String,
>)
    ensures
        match note_of(*document) {
            Ok(note) => r is Ok && r->Ok_0@ == note,
            Err(error) => r is Err && r->Err_0@ == error,
        },
{
    proof {
        reveal_strlit("\r\n");
        reveal_strlit("\r");
    }
    let text = match strip_prefix(document.content.as_str(), "\u{feff}") {
        Some(rest) => rest,
        None => document.content.as_str().to_owned(),
    };
    let text = replace(text.as_str(), "\r\n", "\n");
    let text = replace(text.as_str(), "\r", "\n");
    let text = match strip_managed_daily_blocks(text.as_str()) {
        Ok(text) => text,
        Err(error) => {
            return Err(error);
        },
    };
    let (value, body) = match split_frontmatter(text.as_str()) {
        Ok(parts) => parts,
        Err(error) => {
            return Err(error);
        },
    };
    note_from_parts(document, value, body)
}

fn note_from_parts(
    document: &WorkspaceMarkdownDocument,
    value: Option<serde_yaml::Value>,
    body: String,
) -> (r: Result<ParsedKnowledgeNote, String>)
    ensures
        match note_from(document.path@, document.content_digest@, value_view(value), body@) {
            Ok(note) => r is Ok && r->Ok_0@ == note,
            Err(error) => r is Err && r->Err_0@ == error,
        },
{
    let stated = match &value {
        Some(v) => match scalar_string(v, "title") {
            Ok(stated) => stated,
            Err(error) => {
                return Err(error);
            },
        },
        None => None,
    };
    let title = match stated {
        Some(title) => title,
        None => match first_heading(body.as_str()) {
            Some(title) => title,
            None => filename_title(document.path.as_str()),
        },
    };
    if let Err(error) = validate_identity("Knowledge note title", title.as_str()) {
        return Err(error);
    }
    let aliases: Vec<String> = match &value {
        Some(v) => match strings(v, "aliases", false) {
            Ok(aliases) => aliases,
            Err(error) => {
                return Err(error);
            },
        },
        None => {
            let none: Vec<String> = Vec::new();
            assert(views(none@) =~= Seq::<Seq<char>>::empty());
            none
        },
    };
    assert(views(aliases@).len() == aliases@.len());
    if aliases.len() > MAX_ALIAS_COUNT {
        return Err("Knowledge note has more than 32 aliases".to_owned());
    }
    if let Err(error) = validate_identities("Knowledge note alias", &aliases) {
        return Err(error);
    }
    let (references, flat): (Vec<(String, Vec<String>)>, Vec<String>) = match &value {
        Some(v) => {
            if let Err(error) = check_references(v) {
                return Err(error);
            }
            collect_references(v)
        },
        None => {
            let references: Vec<(String, Vec<String>)> = Vec::new();
            let flat: Vec<String> = Vec::new();
            proof {
                lemma_no_references(automatic_fields());
                lemma_no_references(reference_order());
                assert(pair_views(references@) =~= references_by_field(
                    YamlView::Null,
                    automatic_fields(),
                ));
                assert(views(flat@) =~= all_references(pair_views(references@)));
            }
            (references, flat)
        },
    };
    assert(views(flat@).len() == flat@.len());
    if flat.len() > MAX_REFERENCE_COUNT {
        return Err("Knowledge note has more than 64 references".to_owned());
    }
    if let Err(error) = validate_identities("Knowledge note reference", &flat) {
        return Err(error);
    }
    let usable_content = trim(body.as_str());
    let usable_digest = digest_of_text(usable_content.as_str());
    Ok(
        ParsedKnowledgeNote {
            path: document.path.as_str().to_owned(),
            title: trim(title.as_str()),
            aliases: deduplicate(&aliases),
            references,
            source_digest: document.content_digest.as_str().to_owned(),
            usable_digest,
            usable_content,
        },
    )
}

} // verus!
