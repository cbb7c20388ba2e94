//! Reading the catalog of a vault.
use crate::errors::{text2, text3};
use crate::json::{
    Json, JsonView, field_in, field_of, fields_view, json_of_text, json_of_texts, json_text,
};
use crate::notes::{last_dot, pair_views, stem, stem_of};
use crate::ordered::{
    Ranked, lemma_list_order, lemma_list_precedes_asymmetric, lemma_ranked_len,
    lemma_ranked_order, list_less, list_precedes, ordered_set, ordered_set_of, ranked,
    sort_ranked,
};
use crate::requests::{listed, setting_list, str_view};
use crate::snapshot::{reference_fields, references_json, text_list};
use crate::text::{
    after_prefix, around, ascii_lowered, begins_with, chars_of, copy_texts,
    eq_ignore_ascii_case, join, joined, lemma_take_step, lemma_views_push, opt_text, pieces,
    replace, replaced, split_char, split_once, starts_with, str_eq, string_of, strip_prefix,
    trim, trimmed, views,
};
use crate::vault::{VaultCatalog, VaultNote, link_of, scalar_strings, value_texts, wikilink};
use vstd::prelude::*;
use vstd::string::*;
use vstd::utf8::*;

verus! {

/// Where a vault and its settings are. Folders that are excluded are named
/// relative to the vault.
#[derive(Debug, Clone, PartialEq, Eq)]
pub struct VaultContextProvider {
    pub config_path: Option<String>,
    pub product_index_path: Option<String>,
    pub vault_dir: Option<String>,
    pub excluded_prefixes: Vec<String>,
}

/// A note file of a vault: its path relative to the vault, and what its
/// frontmatter says.
#[derive(Debug)]
pub struct VaultFile {
    pub path: String,
    pub aliases: Vec<String>,
    pub tags: Vec<String>,
    pub extra: Vec<(String, Json)>,
}

/// What was read of a vault: its note files in any order, or the text of a
/// product index and the folder that it stands in.
#[derive(Debug)]
pub struct VaultFiles {
    pub notes: Vec<VaultFile>,
    pub product_index: Option<String>,
    pub product_index_folder: Option<String>,
}

/// One step of the hash that revisions are made of.
pub open spec fn hash_step(hash: u64, byte: u8) -> u64 {
    (hash ^ (byte as u64)).wrapping_mul(0x100000001b3)
}

pub open spec fn hash_of(bytes: Seq<u8>) -> u64
    decreases bytes.len(),
{
    if bytes.len() == 0 {
        0xcbf29ce484222325
    } else {
        hash_step(hash_of(bytes.drop_last()), bytes.last())
    }
}

/// The character of a lowercase hexadecimal digit.
pub open spec fn hex_lower(n: nat) -> char {
    if n < 10 {
        (n + 48) as char
    } else {
        (n + 87) as char
    }
}

/// The last `digits` hexadecimal digits of a number.
pub open spec fn hex_digits(n: nat, digits: nat) -> Seq<char>
    decreases digits,
{
    if digits == 0 {
        Seq::empty()
    } else {
        hex_digits(n / 16, (digits - 1) as nat).push(hex_lower(n % 16))
    }
}

fn hex_text(n: u64, digits: usize) -> (r: String)
    ensures
        r@ == hex_digits(n as nat, digits as nat),
    decreases digits,
{
    if digits == 0 {
        let r = String::new();
        assert(r@ =~= Seq::<char>::empty());
        r
    } else {
        let mut r = hex_text(n / 16, digits - 1);
        let d: u8 = (n % 16) as u8;
        r.push(
            if d < 10 {
                (d + 48) as char
            } else {
                (d + 87) as char
            },
        );
        r
    }
}

/// A hash of some bytes that does not depend on the process, in 16 hexadecimal
/// digits.
pub fn stable_hash(bytes: &[u8]) -> (r: String)
    ensures
        r@ == hex_digits(hash_of(bytes@) as nat, 16),
{
    let mut hash: u64 = 0xcbf29ce484222325;
    let mut i: usize = 0;
    assert(bytes@.take(0) =~= Seq::<u8>::empty());
    while i < bytes.len()
        invariant
            i <= bytes@.len(),
            hash == hash_of(bytes@.take(i as int)),
        decreases bytes@.len() - i,
    {
        proof {
            lemma_take_step(bytes@, i as int);
        }
        hash = (hash ^ (bytes[i] as u64)).wrapping_mul(0x100000001b3);
        i += 1;
    }
    assert(bytes@.take(i as int) =~= bytes@);
    hex_text(hash, 16)
}

/// The JSON text of a note, with its fields in the order that they have.
pub open spec fn note_json(note: VaultNote) -> Seq<char> {
    "{\"id\":"@ + json_text(JsonView::Text(note.id@)) + ",\"title\":"@ + json_text(
        JsonView::Text(note.title@),
    ) + ",\"wikilink\":"@ + json_text(JsonView::Text(note.wikilink@)) + ",\"path\":"@ + json_text(
        JsonView::Text(note.path@),
    ) + ",\"group\":"@ + json_text(JsonView::Text(note.group@)) + ",\"aliases\":"@ + json_text(
        text_list(views(note.aliases@)),
    ) + ",\"tags\":"@ + json_text(text_list(views(note.tags@))) + ",\"references\":"@ + json_text(
        JsonView::Record(reference_fields(note.references@)),
    ) + "}"@
}

pub open spec fn note_jsons(notes: Seq<VaultNote>) -> Seq<Seq<char>> {
    notes.map_values(|n: VaultNote| note_json(n))
}

/// The revision of some notes: a hash of their JSON text.
pub open spec fn notes_revision(notes: Seq<VaultNote>) -> Seq<char> {
    hex_digits(
        hash_of(encode_utf8("["@ + joined(note_jsons(notes), ","@) + "]"@)) as nat,
        16,
    )
}

fn note_json_text(note: &VaultNote) -> (r: String)
    ensures
        r@ == note_json(*note),
{
    let mut r = "{\"id\":".to_owned();
    r.push_str(json_of_text(note.id.as_str()).to_text().as_str());
    r.push_str(",\"title\":");
    r.push_str(json_of_text(note.title.as_str()).to_text().as_str());
    r.push_str(",\"wikilink\":");
    r.push_str(json_of_text(note.wikilink.as_str()).to_text().as_str());
    r.push_str(",\"path\":");
    r.push_str(json_of_text(note.path.as_str()).to_text().as_str());
    r.push_str(",\"group\":");
    r.push_str(json_of_text(note.group.as_str()).to_text().as_str());
    r.push_str(",\"aliases\":");
    r.push_str(json_of_texts(&note.aliases).to_text().as_str());
    r.push_str(",\"tags\":");
    r.push_str(json_of_texts(&note.tags).to_text().as_str());
    r.push_str(",\"references\":");
    r.push_str(references_json(&note.references).to_text().as_str());
    r.push_str("}");
    r
}

fn catalog_revision(notes: &Vec<VaultNote>) -> (r: String)
    ensures
        r@ == notes_revision(notes@),
{
    broadcast use lemma_views_push;
    let ghost all = note_jsons(notes@);
    let mut texts: Vec<String> = Vec::new();
    let mut i: usize = 0;
    assert(views(texts@) =~= all.take(0));
    while i < notes.len()
        invariant
            i <= notes@.len(),
            all == note_jsons(notes@),
            views(texts@) == all.take(i as int),
        decreases notes@.len() - i,
    {
        proof {
            lemma_take_step(all, i as int);
        }
        texts.push(note_json_text(&notes[i]));
        i += 1;
    }
    assert(all.take(i as int) =~= all);
    let text = text3("[", join(&texts, ",").as_str(), "]");
    stable_hash(text.as_str().as_bytes())
}

/// The first group of each match of a regular expression in a text, where the
/// group takes part; none where the pattern is no regular expression.
pub uninterp spec fn regex_groups(pattern: Seq<char>, text: Seq<char>) -> Option<
    Seq<Option<Seq<char>>>,
>;

pub open spec fn group_views(groups: Seq<Option<String>>) -> Seq<Option<Seq<char>>> {
    groups.map_values(|g: Option<String>| opt_text(g))
}

/// `Regex::new`, `Regex::captures_iter` and `Captures::get` of the crate regex.
#[verifier::external_body]
fn first_groups(pattern: &str, text: &str) -> (r: Option<Vec<Option<String>>>)
    ensures
        match r {
            Some(groups) => regex_groups(pattern@, text@) == Some(group_views(groups@)),
            None => regex_groups(pattern@, text@) is None,
        },
{
    let regex = regex::Regex::new(pattern).ok()?;
    let groups = regex.captures_iter(text).map(|found| found.get(1));
    Some(groups.map(|group| group.map(|part| part.as_str().to_owned())).collect())
}

/// The note that a link names: what stands before `|` and `#`.
pub open spec fn link_target(target: Seq<char>) -> Seq<char> {
    trimmed(pieces(pieces(target, '|')[0], '#')[0])
}

/// The notes that some links name.
pub open spec fn targets_of(groups: Seq<Option<Seq<char>>>) -> Seq<Seq<char>>
    decreases groups.len(),
{
    if groups.len() == 0 {
        Seq::empty()
    } else {
        let before = targets_of(groups.drop_last());
        match groups.last() {
            Some(target) => if link_target(target).len() > 0 {
                before.push(link_target(target))
            } else {
                before
            },
            None => before,
        }
    }
}

/// The notes that some links name, each once, in order.
pub fn link_targets(groups: &Vec<Option<String>>) -> (r: Vec<String>)
    ensures
        views(r@) == ordered_set(targets_of(group_views(groups@))),
{
    broadcast use lemma_views_push;
    let ghost all = group_views(groups@);
    let mut found: Vec<String> = Vec::new();
    let mut i: usize = 0;
    assert(all.take(0) =~= Seq::<Option<Seq<char>>>::empty());
    assert(views(found@) =~= Seq::<Seq<char>>::empty());
    while i < groups.len()
        invariant
            i <= groups@.len(),
            all == group_views(groups@),
            views(found@) == targets_of(all.take(i as int)),
        decreases groups@.len() - i,
    {
        proof {
            lemma_take_step(all, i as int);
        }
        if let Some(target) = &groups[i] {
            let bars = split_char(target.as_str(), '|');
            assert(bars@[0]@ == views(bars@)[0]);
            let marks = split_char(bars[0].as_str(), '#');
            assert(marks@[0]@ == views(marks@)[0]);
            let note = trim(marks[0].as_str());
            if !note.as_str().is_empty() {
                found.push(note);
            }
        }
        i += 1;
    }
    assert(all.take(i as int) =~= all);
    ordered_set_of(&found)
}

/// The pattern of a wiki link.
pub open spec fn wiki_link_pattern() -> Seq<char> {
    "\\[\\[([^\\]]+)\\]\\]"@
}

/// The notes that the wiki links of a text name, each once, in order.
pub fn wiki_link_targets(markdown: &str) -> (r: Vec<String>)
    ensures
        views(r@) == ordered_set(
            targets_of(
                match regex_groups(wiki_link_pattern(), markdown@) {
                    Some(groups) => groups,
                    None => Seq::empty(),
                },
            ),
        ),
{
    let groups: Vec<Option<String>> = match first_groups("\\[\\[([^\\]]+)\\]\\]", markdown) {
        Some(groups) => groups,
        None => {
            let none: Vec<Option<String>> = Vec::new();
            assert(group_views(none@) =~= Seq::<Option<Seq<char>>>::empty());
            none
        },
    };
    link_targets(&groups)
}

/// The YAML text of a note's frontmatter.
pub open spec fn frontmatter_text(contents: Seq<char>) -> Option<Seq<char>> {
    match after_prefix(contents, "---\n"@) {
        Some(rest) => match around(rest, "\n---"@) {
            Some((yaml, _)) => Some(yaml),
            None => None,
        },
        None => None,
    }
}

pub fn frontmatter_yaml(contents: &str) -> (r: Option<String>)
    ensures
        opt_text(r) == frontmatter_text(contents@),
{
    match strip_prefix(contents, "---\n") {
        Some(rest) => match split_once(rest.as_str(), "\n---") {
            Some((yaml, _)) => Some(yaml),
            None => None,
        },
        None => None,
    }
}

/// The path of a note without the extension of its file.
pub open spec fn note_id(path: Seq<char>) -> Seq<char> {
    let parts = pieces(path, '/');
    joined(parts.drop_last().push(stem(parts.last())), "/"@)
}

/// A path with slashes in place of backslashes.
pub open spec fn with_slashes(path: Seq<char>) -> Seq<char> {
    replaced(path, "\\"@, "/"@)
}

fn slashes_in(path: &str) -> (r: String)
    ensures
        r@ == with_slashes(path@),
{
    proof {
        reveal_strlit("\\");
    }
    replace(path, "\\", "/")
}

/// The references of a note: the values under the keys that hold them.
pub open spec fn file_references(extra: Map<Seq<char>, JsonView>, keys: Seq<Seq<char>>) -> Seq<
    (Seq<char>, Seq<Seq<char>>),
>
    decreases keys.len(),
{
    if keys.len() == 0 {
        Seq::empty()
    } else {
        let before = file_references(extra, keys.drop_last());
        match field_in(extra, keys.last()) {
            Some(value) => before.push((keys.last(), value_texts(value))),
            None => before,
        }
    }
}

pub open spec fn reference_key_order() -> Seq<Seq<char>> {
    seq!["ado"@, "pr"@, "pull_request"@, "work_item"@]
}

/// Whether a note is what its file says, with that link.
pub open spec fn note_is(note: VaultNote, file: VaultFile, link: Seq<char>) -> bool {
    &&& note.id@ == with_slashes(note_id(file.path@))
    &&& note.title@ == stem(pieces(file.path@, '/').last())
    &&& note.wikilink@ == link
    &&& note.path@ == with_slashes(file.path@)
    &&& note.group@ == pieces(file.path@, '/')[0]
    &&& views(note.aliases@) == views(file.aliases@)
    &&& views(note.tags@) == views(file.tags@)
    &&& pair_views(note.references@) == file_references(
        fields_view(file.extra@),
        reference_key_order(),
    )
}

fn read_references(extra: &Vec<(String, Json)>) -> (r: Vec<(String, Vec<String>)>)
    ensures
        pair_views(r@) == file_references(fields_view(extra@), reference_key_order()),
{
    let mut keys: Vec<String> = Vec::new();
    keys.push("ado".to_owned());
    keys.push("pr".to_owned());
    keys.push("pull_request".to_owned());
    keys.push("work_item".to_owned());
    let ghost all = reference_key_order();
    assert(views(keys@) =~= all);
    let ghost fields = fields_view(extra@);
    let mut r: Vec<(String, Vec<String>)> = Vec::new();
    let mut i: usize = 0;
    assert(all.take(0) =~= Seq::<Seq<char>>::empty());
    assert(pair_views(r@) =~= Seq::<(Seq<char>, Seq<Seq<char>>)>::empty());
    while i < keys.len()
        invariant
            i <= keys@.len(),
            all == views(keys@),
            fields == fields_view(extra@),
            pair_views(r@) == file_references(fields, all.take(i as int)),
        decreases keys@.len() - i,
    {
        proof {
            lemma_take_step(all, i as int);
        }
        if let Some(value) = field_of(extra, keys[i].as_str()) {
            let texts = scalar_strings(value);
            let ghost before = pair_views(r@);
            let ghost pair = (all[i as int], views(texts@));
            r.push((keys[i].as_str().to_owned(), texts));
            assert(pair_views(r@) =~= before.push(pair));
        }
        i += 1;
    }
    assert(all.take(i as int) =~= all);
    r
}

pub open spec fn file_title(file: VaultFile) -> Seq<char> {
    stem(pieces(file.path@, '/').last())
}

/// How many files have that title.
pub open spec fn title_count(files: Seq<VaultFile>, title: Seq<char>) -> nat
    decreases files.len(),
{
    if files.len() == 0 {
        0
    } else {
        title_count(files.drop_last(), title) + if file_title(files.last()) == title {
            1nat
        } else {
            0nat
        }
    }
}

/// The link of a note: by its title, or by its ID where several notes share
/// the title.
pub open spec fn file_link(files: Seq<VaultFile>, file: VaultFile) -> Seq<char> {
    "[["@ + (if title_count(files, file_title(file)) > 1 {
        with_slashes(note_id(file.path@))
    } else {
        file_title(file)
    }) + "]]"@
}

fn last_piece_stem(path: &str) -> (r: String)
    ensures
        r@ == stem(pieces(path@, '/').last()),
{
    let parts = split_char(path, '/');
    let last: usize = parts.len() - 1;
    assert(views(parts@).last() == parts@[last as int]@);
    stem_of(parts[last].as_str())
}

fn id_of_path(path: &str) -> (r: String)
    ensures
        r@ == with_slashes(note_id(path@)),
{
    broadcast use lemma_views_push;
    let mut parts = split_char(path, '/');
    let ghost all = views(parts@);
    let last: usize = parts.len() - 1;
    assert(all.last() == parts@[last as int]@);
    let name = stem_of(parts[last].as_str());
    let ghost before = parts@;
    parts.set(last, name);
    assert(views(parts@) =~= all.drop_last().push(name@));
    slashes_in(join(&parts, "/").as_str())
}

fn count_title(files: &Vec<VaultFile>, title: &str) -> (r: usize)
    ensures
        r == title_count(files@, title@),
{
    let mut r: usize = 0;
    let mut i: usize = 0;
    assert(files@.take(0) =~= Seq::<VaultFile>::empty());
    while i < files.len()
        invariant
            i <= files@.len(),
            r <= i,
            r == title_count(files@.take(i as int), title@),
        decreases files@.len() - i,
    {
        proof {
            lemma_take_step(files@, i as int);
        }
        if str_eq(last_piece_stem(files[i].path.as_str()).as_str(), title) {
            r += 1;
        }
        i += 1;
    }
    assert(files@.take(i as int) =~= files@);
    r
}

fn note_of_file(files: &Vec<VaultFile>, file: &VaultFile) -> (r: VaultNote)
    ensures
        note_is(r, *file, file_link(files@, *file)),
{
    let id = id_of_path(file.path.as_str());
    let title = last_piece_stem(file.path.as_str());
    let count: usize = count_title(files, title.as_str());
    let link = if count > 1 {
        text3("[[", id.as_str(), "]]")
    } else {
        text3("[[", title.as_str(), "]]")
    };
    let parts = split_char(file.path.as_str(), '/');
    assert(parts@[0]@ == views(parts@)[0]);
    VaultNote {
        id,
        title,
        wikilink: link,
        path: slashes_in(file.path.as_str()),
        group: parts[0].as_str().to_owned(),
        aliases: copy_texts(&file.aliases),
        tags: copy_texts(&file.tags),
        references: read_references(&file.extra),
    }
}

/// Whether a note is the one that a product index names.
pub open spec fn indexed_note_is(note: VaultNote, title: Seq<char>) -> bool {
    &&& note.id@ == title
    &&& note.title@ == title
    &&& note.wikilink@ == link_of(title)
    &&& note.path@ == title + ".md"@
    &&& note.group@.len() == 0
    &&& note.aliases@.len() == 0
    &&& note.tags@.len() == 0
    &&& note.references@.len() == 0
}

/// The notes that a product index names.
pub open spec fn indexed_titles(index: Seq<char>) -> Seq<Seq<char>> {
    ordered_set(
        targets_of(
            match regex_groups(wiki_link_pattern(), index) {
                Some(groups) => groups,
                None => Seq::empty(),
            },
        ),
    )
}

impl Ranked for VaultFile {
    /// By the components of the paths, from the first on.
    open spec fn ranks_before(&self, other: &Self) -> bool {
        list_precedes(
            path_parts(pieces(self.path@, '/')),
            path_parts(pieces(other.path@, '/')),
        )
    }

    fn is_before(&self, other: &Self) -> (r: bool) {
        let mine = components(self.path.as_str());
        let theirs = components(other.path.as_str());
        list_less(&mine, &theirs)
    }
}

pub open spec fn file_refs<'a>(files: Seq<VaultFile>) -> Seq<&'a VaultFile> {
    Seq::new(files.len(), |i: int| &files[i])
}

/// The note files of a vault in the order of their paths.
pub open spec fn in_path_order<'a>(files: Seq<VaultFile>) -> Seq<&'a VaultFile> {
    ranked(file_refs(files))
}

/// Whether a catalog is the one of a vault as it was read. Its notes stand in the
/// order of their paths.
pub open spec fn catalog_is(
    catalog: VaultCatalog,
    provider: VaultContextProvider,
    files: VaultFiles,
) -> bool {
    match (provider.vault_dir, files.product_index) {
        (Some(root), _) => {
            &&& catalog.configured
            &&& opt_text(catalog.root) == Some(root@)
            &&& catalog.revision@ == notes_revision(catalog.notes@)
            &&& catalog.notes@.len() == files.notes@.len()
            &&& forall|i: int|
                0 <= i < catalog.notes@.len() ==> note_is(
                    #[trigger] catalog.notes@[i],
                    *in_path_order(files.notes@)[i],
                    file_link(files.notes@, *in_path_order(files.notes@)[i]),
                )
        },
        (None, Some(index)) => {
            let titles = indexed_titles(index@);
            &&& catalog.configured
            &&& opt_text(catalog.root) == opt_text(files.product_index_folder)
            &&& catalog.revision@ == notes_revision(catalog.notes@)
            &&& catalog.notes@.len() == titles.len()
            &&& forall|i: int|
                0 <= i < catalog.notes@.len() ==> indexed_note_is(
                    #[trigger] catalog.notes@[i],
                    titles[i],
                )
        },
        (None, None) => {
            &&& !catalog.configured
            &&& catalog.root is None
            &&& catalog.revision@ == "unconfigured"@
            &&& catalog.notes@.len() == 0
        },
    }
}

/// A setting that is there and not empty.
pub open spec fn given(value: Option<Seq<char>>) -> Option<Seq<char>> {
    match value {
        Some(text) => if text.len() == 0 {
            None
        } else {
            Some(text)
        },
        None => None,
    }
}

pub fn given_text(value: Option<&str>) -> (r: Option<String>)
    ensures
        opt_text(r) == given(str_view(value)),
{
    match value {
        Some(text) => if text.is_empty() {
            None
        } else {
            Some(text.to_owned())
        },
        None => None,
    }
}

/// Whether a path leads from the root of the file system.
pub open spec fn is_rooted(path: Seq<char>) -> bool {
    begins_with(path, "/"@)
}

/// The components of a path: what stands between slashes. Empty parts count
/// for nothing, nor does a dot that does not begin the path.
pub open spec fn path_parts(parts: Seq<Seq<char>>) -> Seq<Seq<char>>
    decreases parts.len(),
{
    if parts.len() == 0 {
        Seq::empty()
    } else {
        let before = path_parts(parts.drop_last());
        if parts.last().len() == 0 || (parts.last() == "."@ && parts.len() > 1) {
            before
        } else {
            before.push(parts.last())
        }
    }
}

/// Whether a path lies below a folder or is it.
pub open spec fn lies_below(path: Seq<char>, folder: Seq<char>) -> bool {
    let mine = path_parts(pieces(path, '/'));
    let base = path_parts(pieces(folder, '/'));
    &&& is_rooted(path) == is_rooted(folder)
    &&& base.len() <= mine.len()
    &&& mine.take(base.len() as int) == base
}

fn components(path: &str) -> (r: Vec<String>)
    ensures
        views(r@) == path_parts(pieces(path@, '/')),
{
    broadcast use lemma_views_push;
    let parts = split_char(path, '/');
    let ghost all = pieces(path@, '/');
    let mut r: Vec<String> = Vec::new();
    let mut i: usize = 0;
    assert(all.take(0) =~= Seq::<Seq<char>>::empty());
    assert(views(r@) =~= Seq::<Seq<char>>::empty());
    while i < parts.len()
        invariant
            i <= parts@.len(),
            all == views(parts@),
            views(r@) == path_parts(all.take(i as int)),
        decreases parts@.len() - i,
    {
        proof {
            lemma_take_step(all, i as int);
        }
        let part: &str = parts[i].as_str();
        if !(part.is_empty() || (str_eq(part, ".") && i > 0)) {
            r.push(part.to_owned());
        }
        i += 1;
    }
    assert(all.take(i as int) =~= all);
    r
}

fn path_lies_below(path: &str, folder: &str) -> (r: bool)
    ensures
        r == lies_below(path@, folder@),
{
    let mine = components(path);
    let base = components(folder);
    let ghost m = views(mine@);
    let ghost b = views(base@);
    if starts_with(path, "/") != starts_with(folder, "/") || base.len() > mine.len() {
        return false;
    }
    let mut i: usize = 0;
    while i < base.len()
        invariant
            i <= base@.len() <= mine@.len(),
            m == views(mine@),
            b == views(base@),
            m == path_parts(pieces(path@, '/')),
            b == path_parts(pieces(folder@, '/')),
            m.take(i as int) == b.take(i as int),
        decreases base@.len() - i,
    {
        if !str_eq(mine[i].as_str(), base[i].as_str()) {
            assert(m.take(b.len() as int)[i as int] != b[i as int]);
            return false;
        }
        proof {
            lemma_take_step(m, i as int);
            lemma_take_step(b, i as int);
        }
        i += 1;
    }
    assert(b.take(i as int) =~= b);
    true
}

/// Whether a file name ends in the extension of a Markdown file.
pub open spec fn is_markdown_name(name: Seq<char>) -> bool {
    last_dot(name) > 0 && ascii_lowered(name.skip(last_dot(name) + 1)) == "md"@
}

pub fn has_markdown_extension(name: &str) -> (r: bool)
    ensures
        r == is_markdown_name(name@),
{
    let chars = chars_of(name);
    let mut i: usize = chars.len();
    assert(chars@.take(i as int) =~= chars@);
    while i > 0 && chars[i - 1] != '.'
        invariant
            i <= chars@.len(),
            last_dot(chars@) == last_dot(chars@.take(i as int)),
        decreases i,
    {
        assert(chars@.take(i as int).drop_last() =~= chars@.take(i - 1));
        i -= 1;
    }
    if i > 1 {
        let tail = string_of(&chars, i, chars.len());
        assert(tail@ =~= name@.skip(i as int));
        proof {
            reveal_strlit("md");
            assert(ascii_lowered("md"@) =~= "md"@);
        }
        eq_ignore_ascii_case(tail.as_str(), "md")
    } else {
        false
    }
}

impl VaultContextProvider {
    /// A provider with the paths and the list of excluded folders that the
    /// settings give.
    pub fn from_values(
        config_path: Option<&str>,
        product_index_path: Option<&str>,
        vault_dir: Option<&str>,
        excluded: Option<&str>,
    ) -> (r: VaultContextProvider)
        ensures
            opt_text(r.config_path) == given(str_view(config_path)),
            opt_text(r.product_index_path) == given(str_view(product_index_path)),
            opt_text(r.vault_dir) == given(str_view(vault_dir)),
            views(r.excluded_prefixes@) == listed(
                pieces(
                    match excluded {
                        Some(text) => text@,
                        None => "00 Inbox,01 Work Log,.obsidian"@,
                    },
                    ',',
                ),
            ),
    {
        VaultContextProvider {
            config_path: given_text(config_path),
            product_index_path: given_text(product_index_path),
            vault_dir: given_text(vault_dir),
            excluded_prefixes: setting_list(
                match excluded {
                    Some(text) => text,
                    None => "00 Inbox,01 Work Log,.obsidian",
                },
            ),
        }
    }

    /// Whether an entry of the vault is left out: one in an excluded folder, or
    /// one whose name begins with a dot. `path` is relative to the vault.
    pub fn leaves_out(&self, path: &str, name: &str) -> (r: bool)
        ensures
            r == (begins_with(name@, "."@) || exists|i: int|
                0 <= i < self.excluded_prefixes@.len() && lies_below(
                    path@,
                    (#[trigger] self.excluded_prefixes@[i])@,
                )),
    {
        if starts_with(name, ".") {
            return true;
        }
        let mut i: usize = 0;
        while i < self.excluded_prefixes.len()
            invariant
                i <= self.excluded_prefixes@.len(),
                forall|k: int|
                    0 <= k < i ==> !lies_below(path@, (#[trigger] self.excluded_prefixes@[k])@),
            decreases self.excluded_prefixes@.len() - i,
        {
            if path_lies_below(path, self.excluded_prefixes[i].as_str()) {
                assert(lies_below(path@, self.excluded_prefixes@[i as int]@));
                return true;
            }
            i += 1;
        }
        false
    }

    /// The catalog of the vault: the notes of its folder, or those that a
    /// product index names.
    pub fn catalog(&self, files: &VaultFiles) -> (r: VaultCatalog)
        ensures
            catalog_is(r, *self, *files),
    {
        match &self.vault_dir {
            Some(root) => {
                let mut found: Vec<&VaultFile> = Vec::new();
                let mut i: usize = 0;
                while i < files.notes.len()
                    invariant
                        i <= files.notes@.len(),
                        found@ =~= file_refs(files.notes@).take(i as int),
                    decreases files.notes@.len() - i,
                {
                    found.push(&files.notes[i]);
                    i += 1;
                }
                assert(found@ =~= file_refs(files.notes@));
                let sorted = sort_ranked(&found);
                proof {
                    lemma_ranked_len(found@);
                }
                let mut notes: Vec<VaultNote> = Vec::new();
                let mut i: usize = 0;
                while i < sorted.len()
                    invariant
                        sorted@ == in_path_order(files.notes@),
                        i <= sorted@.len(),
                        notes@.len() == i,
                        forall|k: int|
                            0 <= k < i ==> note_is(
                                #[trigger] notes@[k],
                                *in_path_order(files.notes@)[k],
                                file_link(files.notes@, *in_path_order(files.notes@)[k]),
                            ),
                    decreases sorted@.len() - i,
                {
                    notes.push(note_of_file(&files.notes, sorted[i]));
                    i += 1;
                }
                VaultCatalog {
                    configured: true,
                    root: Some(root.as_str().to_owned()),
                    revision: catalog_revision(&notes),
                    notes,
                }
            },
            None => self.legacy_catalog(files),
        }
    }

    fn legacy_catalog(&self, files: &VaultFiles) -> (r: VaultCatalog)
        requires
            self.vault_dir is None,
        ensures
            catalog_is(r, *self, *files),
    {
        match &files.product_index {
            None => VaultCatalog {
                configured: false,
                root: None,
                revision: "unconfigured".to_owned(),
                notes: Vec::new(),
            },
            Some(index) => {
                let titles = wiki_link_targets(index.as_str());
                let ghost all = indexed_titles(index@);
                let mut notes: Vec<VaultNote> = Vec::new();
                let mut i: usize = 0;
                assert(views(titles@).len() == titles@.len());
                while i < titles.len()
                    invariant
                        i <= titles@.len(),
                        views(titles@) == all,
                        notes@.len() == i,
                        forall|k: int| 0 <= k < i ==> indexed_note_is(#[trigger] notes@[k], all[k]),
                    decreases titles@.len() - i,
                {
                    let title: &str = titles[i].as_str();
                    assert(title@ == all[i as int]);
                    let group = String::new();
                    notes.push(
                        VaultNote {
                            id: title.to_owned(),
                            title: title.to_owned(),
                            wikilink: wikilink(title),
                            path: text2(title, ".md"),
                            group,
                            aliases: Vec::new(),
                            tags: Vec::new(),
                            references: Vec::new(),
                        },
                    );
                    i += 1;
                }
                let root = match &files.product_index_folder {
                    Some(folder) => Some(folder.as_str().to_owned()),
                    None => None,
                };
                VaultCatalog {
                    configured: true,
                    root,
                    revision: catalog_revision(&notes),
                    notes,
                }
            },
        }
    }
}

/// The notes of a vault stand in its catalog in the order of their paths,
/// whatever order they were found in, and none is lost or doubled.
pub proof fn law_catalog_is_in_path_order(
    catalog: VaultCatalog,
    provider: VaultContextProvider,
    files: VaultFiles,
)
    requires
        provider.vault_dir is Some,
        catalog_is(catalog, provider, files),
    ensures
        catalog.notes@.len() == files.notes@.len(),
        forall|i: int|
            0 <= i < catalog.notes@.len() ==> note_is(
                #[trigger] catalog.notes@[i],
                *in_path_order(files.notes@)[i],
                file_link(files.notes@, *in_path_order(files.notes@)[i]),
            ),
        in_path_order(files.notes@).to_multiset() == file_refs(files.notes@).to_multiset(),
        forall|i: int, j: int|
            0 <= i < j < files.notes@.len() ==> !list_precedes(
                path_parts(pieces((#[trigger] in_path_order(files.notes@)[j]).path@, '/')),
                path_parts(pieces((#[trigger] in_path_order(files.notes@)[i]).path@, '/')),
            ),
{
    assert forall|a: &VaultFile, b: &VaultFile| #[trigger] a.ranks_before(b) implies !b.ranks_before(
        a,
    ) by {
        lemma_list_precedes_asymmetric(
            path_parts(pieces(a.path@, '/')),
            path_parts(pieces(b.path@, '/')),
        );
    }
    assert forall|a: &VaultFile, b: &VaultFile, c: &VaultFile|
        !(#[trigger] b.ranks_before(a)) && !(#[trigger] c.ranks_before(
            b,
        )) implies !c.ranks_before(a) by {
        lemma_list_order(
            path_parts(pieces(a.path@, '/')),
            path_parts(pieces(b.path@, '/')),
            path_parts(pieces(c.path@, '/')),
        );
    }
    let refs = file_refs(files.notes@);
    lemma_ranked_order(refs);
    lemma_ranked_len(refs);
    assert forall|i: int, j: int| 0 <= i < j < files.notes@.len() implies !list_precedes(
        path_parts(pieces((#[trigger] in_path_order(files.notes@)[j]).path@, '/')),
        path_parts(pieces((#[trigger] in_path_order(files.notes@)[i]).path@, '/')),
    ) by {
        assert(!ranked(refs)[j].ranks_before(ranked(refs)[i]));
    }
}

} // verus!
