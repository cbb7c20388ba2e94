//! The Knowledge context that a Daily candidate was generated with.
use crate::digest::digest;
use crate::errors::{ApiError, checks, conflict_of};
use crate::json::{
    Json, JsonView, empty_record, fields_view, json_of_number, json_of_text, lemma_list_view,
    list_view, number_view, optional_text_view, put,
};
use crate::models::{ContextMapping, KnowledgeCollection};
use crate::ordered::{contains_text, ordered_set, ordered_set_of};
use crate::resolution::CatalogNote;
use crate::revisions::{
    DailyRevisionContent, DailyWorkstream, DailyWorkstreamView, daily_workstream_views,
};
use crate::snapshot::{
    CatalogReport, catalog_digest, catalog_sha, configuration_digest, configuration_sha,
};
use crate::text::{lemma_take_step, lemma_views_push, str_eq, views};
use vstd::prelude::*;
use vstd::string::*;

verus! {

/// A context snapshot as it was frozen. `created_at` is written out.
#[derive(Debug)]
pub struct ContextSnapshot {
    pub id: String,
    pub snapshot_digest: String,
    pub created_at: String,
    pub payload: Json,
}

/// The record that a value holds; other values hold an empty one.
pub open spec fn or_record(value: Option<JsonView>) -> JsonView {
    match value {
        Some(value) => value,
        None => JsonView::Record(Map::empty()),
    }
}

/// What may be shown of a diagnosis: counts, and no names.
pub open spec fn public_counts(d: JsonView) -> Map<Seq<char>, JsonView> {
    Map::empty().insert("missing_root_count"@, number_view(d.length_field("missing_roots"@))).insert(
        "oversized_note_count"@,
        number_view(d.count_field("oversized_note_count"@)),
    ).insert(
        "unreadable_note_count"@,
        number_view(d.count_field("unreadable_note_count"@)),
    ).insert("invalid_note_count"@, number_view(d.count_field("invalid_note_count"@))).insert(
        "invalid_mapping_count"@,
        number_view(d.count_field("invalid_mapping_count"@)),
    ).insert(
        "ambiguous_group_count"@,
        number_view(d.count_field("ambiguous_group_count"@)),
    )
}

fn public_count_fields(d: &Json) -> (r: Vec<(String, Json)>)
    ensures
        fields_view(r@) == public_counts(d@),
{
    let mut fields = empty_record();
    put(
        &mut fields,
        "missing_root_count",
        json_of_number(d.get_length("missing_roots") as u64),
    );
    put(
        &mut fields,
        "oversized_note_count",
        json_of_number(d.get_count("oversized_note_count")),
    );
    put(
        &mut fields,
        "unreadable_note_count",
        json_of_number(d.get_count("unreadable_note_count")),
    );
    put(&mut fields, "invalid_note_count", json_of_number(d.get_count("invalid_note_count")));
    put(
        &mut fields,
        "invalid_mapping_count",
        json_of_number(d.get_count("invalid_mapping_count")),
    );
    put(
        &mut fields,
        "ambiguous_group_count",
        json_of_number(d.get_count("ambiguous_group_count")),
    );
    fields
}

/// The diagnosis of a resolution as it may be shown.
pub fn public_knowledge_diagnostics(diagnostics: &Json) -> (r: Json)
    ensures
        r@ == JsonView::Record(public_counts(diagnostics@)),
{
    Json::Record(public_count_fields(diagnostics))
}

/// A context snapshot as it may be shown: what it holds is counted, not named.
pub open spec fn public_snapshot(snapshot: ContextSnapshot) -> JsonView {
    let payload = snapshot.payload@;
    let diagnostics = or_record(payload.field("diagnostics"@));
    JsonView::Record(
        Map::empty().insert("id"@, JsonView::Text(snapshot.id@)).insert(
            "snapshot_digest"@,
            JsonView::Text(snapshot.snapshot_digest@),
        ).insert("created_at"@, JsonView::Text(snapshot.created_at@)).insert(
            "resolver_version"@,
            optional_text_view(payload.text_field("resolver_version"@)),
        ).insert("used_note_count"@, number_view(payload.length_field("used_notes"@))).insert(
            "resolved_group_count"@,
            number_view(payload.length_field("resolved_groups"@)),
        ).insert("excerpt_count"@, number_view(payload.length_field("excerpts"@))).insert(
            "diagnostics"@,
            JsonView::Record(
                public_counts(diagnostics).insert(
                    "resolution_failed"@,
                    JsonView::Bool(diagnostics.field("resolution_error_code"@) is Some),
                ),
            ),
        ),
    )
}

pub fn json_of_optional_str(o: Option<&str>) -> (r: Json)
    ensures
        r@ == (match o {
            Some(s) => JsonView::Text(s@),
            None => JsonView::Null,
        }),
{
    match o {
        Some(s) => json_of_text(s),
        None => Json::Null,
    }
}

pub fn public_context_snapshot(snapshot: &ContextSnapshot) -> (r: Json)
    ensures
        r@ == public_snapshot(*snapshot),
{
    let payload = &snapshot.payload;
    let none = Json::Record(empty_record());
    let diagnostics: &Json = match payload.get("diagnostics") {
        Some(diagnostics) => diagnostics,
        None => &none,
    };
    let mut shown = public_count_fields(diagnostics);
    put(
        &mut shown,
        "resolution_failed",
        Json::Bool(diagnostics.get("resolution_error_code").is_some()),
    );
    let mut fields = empty_record();
    put(&mut fields, "id", json_of_text(snapshot.id.as_str()));
    put(&mut fields, "snapshot_digest", json_of_text(snapshot.snapshot_digest.as_str()));
    put(&mut fields, "created_at", json_of_text(snapshot.created_at.as_str()));
    put(
        &mut fields,
        "resolver_version",
        json_of_optional_str(payload.get_text("resolver_version")),
    );
    put(&mut fields, "used_note_count", json_of_number(payload.get_length("used_notes") as u64));
    put(
        &mut fields,
        "resolved_group_count",
        json_of_number(payload.get_length("resolved_groups") as u64),
    );
    put(&mut fields, "excerpt_count", json_of_number(payload.get_length("excerpts") as u64));
    put(&mut fields, "diagnostics", Json::Record(shown));
    Json::Record(fields)
}

/// The links of the workstream with that ID; of two the later counts.
pub open spec fn links_attached(ws: Seq<DailyWorkstreamView>, id: Seq<char>) -> Seq<Seq<char>>
    decreases ws.len(),
{
    if ws.len() == 0 {
        Seq::empty()
    } else if ws.last().work.id == id {
        ws.last().links
    } else {
        links_attached(ws.drop_last(), id)
    }
}

pub open spec fn content_workstreams(content: Option<&DailyRevisionContent>) -> Seq<
    DailyWorkstreamView,
> {
    match content {
        Some(content) => content@.workstreams,
        None => Seq::empty(),
    }
}

pub fn link_is_attached(content: Option<&DailyRevisionContent>, id: &str, link: &str) -> (r: bool)
    ensures
        r == links_attached(content_workstreams(content), id@).contains(link@),
{
    let ws: &Vec<DailyWorkstream> = match content {
        Some(content) => &content.workstreams,
        None => {
            return false;
        },
    };
    let ghost all = daily_workstream_views(ws@);
    let mut i: usize = ws.len();
    assert(all.take(i as int) =~= all);
    while i > 0
        invariant
            i <= ws@.len(),
            all == daily_workstream_views(ws@),
            all == content_workstreams(content),
            links_attached(all, id@) == links_attached(all.take(i as int), id@),
        decreases i,
    {
        assert(all.take(i as int).drop_last() =~= all.take(i - 1));
        assert(all[i - 1] == ws@[i - 1]@);
        if str_eq(ws[i - 1].id.as_str(), id) {
            return contains_text(&ws[i - 1].canonical_links, link);
        }
        i -= 1;
    }
    false
}

/// The paths of the notes that a candidate still links to.
pub open spec fn attached_paths(groups: Seq<JsonView>, ws: Seq<DailyWorkstreamView>) -> Seq<Seq<char>>
    decreases groups.len(),
{
    if groups.len() == 0 {
        Seq::empty()
    } else {
        let before = attached_paths(groups.drop_last(), ws);
        let g = groups.last();
        match (
            g.text_field("canonical_group_id"@),
            g.text_field("canonical_link"@),
            g.text_field("canonical_note_path"@),
        ) {
            (Some(id), Some(link), Some(path)) => if links_attached(ws, id).contains(link) {
                before.push(path)
            } else {
                before
            },
            _ => before,
        }
    }
}

/// The items in a field that holds a list; otherwise none.
pub open spec fn items_of(value: JsonView, key: Seq<char>) -> Seq<JsonView> {
    match value.list_field(key) {
        Some(items) => items,
        None => Seq::empty(),
    }
}

/// The texts of one field of some items.
pub open spec fn field_of_items(items: Seq<JsonView>, key: Seq<char>) -> Seq<Seq<char>>
    decreases items.len(),
{
    if items.len() == 0 {
        Seq::empty()
    } else {
        let before = field_of_items(items.drop_last(), key);
        match items.last().text_field(key) {
            Some(text) => before.push(text),
            None => before,
        }
    }
}

/// The notes that a candidate depends on: those of its excerpts, or else those
/// that it links to.
pub open spec fn relevant_paths(payload: JsonView, ws: Seq<DailyWorkstreamView>) -> Seq<Seq<char>> {
    let excerpts = ordered_set(field_of_items(items_of(payload, "excerpts"@), "note_path"@));
    if excerpts.len() == 0 {
        ordered_set(attached_paths(items_of(payload, "resolved_groups"@), ws))
    } else {
        excerpts
    }
}

/// The texts of one field of the items of a list.
pub fn texts_of_items(value: &Json, list: &str, key: &str) -> (r: Vec<String>)
    ensures
        views(r@) == field_of_items(items_of(value@, list@), key@),
{
    broadcast use lemma_views_push;
    let mut r: Vec<String> = Vec::new();
    assert(views(r@) =~= Seq::<Seq<char>>::empty());
    if let Some(items) = value.get_list(list) {
        let ghost all = list_view(items@);
        let mut i: usize = 0;
        proof {
            lemma_list_view(items@);
            assert(all.take(0) =~= Seq::<JsonView>::empty());
        }
        while i < items.len()
            invariant
                i <= items@.len(),
                all == list_view(items@),
                all.len() == items@.len(),
                forall|k: int| 0 <= k < items@.len() ==> all[k] == (#[trigger] items@[k])@,
                views(r@) == field_of_items(all.take(i as int), key@),
            decreases items@.len() - i,
        {
            proof {
                lemma_take_step(all, i as int);
            }
            if let Some(text) = items[i].get_text(key) {
                r.push(text.to_owned());
            }
            i += 1;
        }
        assert(all.take(i as int) =~= all);
    }
    r
}

fn attached_context_note_paths(content: Option<&DailyRevisionContent>, payload: &Json) -> (r: Vec<
    String,
>)
    ensures
        views(r@) == attached_paths(
            items_of(payload@, "resolved_groups"@),
            content_workstreams(content),
        ),
{
    broadcast use lemma_views_push;
    let ghost ws = content_workstreams(content);
    let mut r: Vec<String> = Vec::new();
    assert(views(r@) =~= Seq::<Seq<char>>::empty());
    if let Some(items) = payload.get_list("resolved_groups") {
        let ghost all = list_view(items@);
        let mut i: usize = 0;
        proof {
            lemma_list_view(items@);
            assert(all.take(0) =~= Seq::<JsonView>::empty());
        }
        while i < items.len()
            invariant
                i <= items@.len(),
                ws == content_workstreams(content),
                all == list_view(items@),
                all.len() == items@.len(),
                forall|k: int| 0 <= k < items@.len() ==> all[k] == (#[trigger] items@[k])@,
                views(r@) == attached_paths(all.take(i as int), ws),
            decreases items@.len() - i,
        {
            proof {
                lemma_take_step(all, i as int);
            }
            let group = &items[i];
            if let Some(id) = group.get_text("canonical_group_id") {
                if let Some(link) = group.get_text("canonical_link") {
                    if let Some(path) = group.get_text("canonical_note_path") {
                        if link_is_attached(content, id, link) {
                            r.push(path.to_owned());
                        }
                    }
                }
            }
            i += 1;
        }
        assert(all.take(i as int) =~= all);
    }
    r
}

pub fn context_relevant_note_paths(content: Option<&DailyRevisionContent>, payload: &Json) -> (r: Vec<
    String,
>)
    ensures
        views(r@) == relevant_paths(payload@, content_workstreams(content)),
{
    let excerpts = ordered_set_of(&texts_of_items(payload, "excerpts", "note_path"));
    assert(views(excerpts@).len() == excerpts@.len());
    if excerpts.len() == 0 {
        ordered_set_of(&attached_context_note_paths(content, payload))
    } else {
        excerpts
    }
}

/// What the sources of a context are like now.
#[derive(Debug, Clone, PartialEq, Eq)]
pub struct Fingerprints {
    pub note_paths: Vec<String>,
    /// The digest of each note's usable text, by path.
    pub usable_digests: Vec<(String, String)>,
    pub configuration_digest: String,
    pub catalog_digest: String,
}

/// How a frozen context compares with its sources.
#[derive(Debug, Clone, Copy, PartialEq, Eq)]
pub struct ContextFreshness {
    pub status: &'static str,
    pub message: &'static str,
}

pub struct FreshnessView {
    pub status: Seq<char>,
    pub message: Seq<char>,
}

impl View for ContextFreshness {
    type V = FreshnessView;

    open spec fn view(&self) -> FreshnessView {
        FreshnessView { status: self.status@, message: self.message@ }
    }
}

pub open spec fn fresh(status: Seq<char>, message: Seq<char>) -> FreshnessView {
    FreshnessView { status, message }
}

/// The digest by a path; of two the later counts.
pub open spec fn digest_at(digests: Seq<(String, String)>, path: Seq<char>) -> Option<Seq<char>>
    decreases digests.len(),
{
    if digests.len() == 0 {
        None
    } else if digests.last().0@ == path {
        Some(digests.last().1@)
    } else {
        digest_at(digests.drop_last(), path)
    }
}

/// Whether a note that was used still has the text that it had.
pub open spec fn note_unchanged(note: JsonView, digests: Seq<(String, String)>) -> bool {
    match (note.text_field("path"@), note.text_field("usable_digest"@)) {
        (Some(path), Some(digest)) => digest_at(digests, path) == Some(digest),
        _ => true,
    }
}

pub open spec fn notes_unchanged(notes: Seq<JsonView>, digests: Seq<(String, String)>) -> bool {
    forall|i: int| 0 <= i < notes.len() ==> note_unchanged(#[trigger] notes[i], digests)
}

/// Whether the notes that a candidate depends on are all there.
pub open spec fn all_present(paths: Seq<Seq<char>>, present: Seq<Seq<char>>) -> bool {
    forall|i: int| 0 <= i < paths.len() ==> present.contains(#[trigger] paths[i])
}

/// Whether references are configured: a collection or a mapping is enabled.
pub open spec fn has_references(
    collections: Seq<KnowledgeCollection>,
    mappings: Seq<ContextMapping>,
) -> bool {
    ||| exists|i: int| 0 <= i < collections.len() && (#[trigger] collections[i]).enabled
    ||| exists|i: int| 0 <= i < mappings.len() && (#[trigger] mappings[i]).enabled
}

pub fn references_configured(
    collections: &Vec<KnowledgeCollection>,
    mappings: &Vec<ContextMapping>,
) -> (r: bool)
    ensures
        r == has_references(collections@, mappings@),
{
    let mut i: usize = 0;
    while i < collections.len()
        invariant
            i <= collections@.len(),
            forall|k: int| 0 <= k < i ==> !(#[trigger] collections@[k]).enabled,
        decreases collections@.len() - i,
    {
        if collections[i].enabled {
            return true;
        }
        i += 1;
    }
    let mut k: usize = 0;
    while k < mappings.len()
        invariant
            k <= mappings@.len(),
            forall|n: int| 0 <= n < k ==> !(#[trigger] mappings@[n]).enabled,
        decreases mappings@.len() - k,
    {
        if mappings[k].enabled {
            return true;
        }
        k += 1;
    }
    false
}

/// How a frozen context compares with its sources. `configured` says whether
/// references are configured now; `now` is what the sources are like, where
/// that could be found out; `expected_resolver` is the version of the rules by
/// which a context would be made now.
pub open spec fn freshness(
    payload: JsonView,
    ws: Seq<DailyWorkstreamView>,
    configured: bool,
    now: Option<Fingerprints>,
    expected_resolver: Seq<char>,
    root_binding: Seq<char>,
) -> FreshnessView {
    if payload.text_field("reference_mode"@) == Some("none"@) {
        fresh("none"@, "Generated without reference notes."@)
    } else if payload.text_field("resolver_version"@) == Some("none"@) {
        if configured {
            fresh("changed"@, "Reference notes are now configured. Regenerate to use them."@)
        } else {
            fresh("none"@, "This draft did not use reference notes."@)
        }
    } else {
        match now {
            None => fresh(
                "unavailable"@,
                "Frozen links are preserved, but their current sources could not be checked."@,
            ),
            Some(now) => if !all_present(relevant_paths(payload, ws), views(now.note_paths@)) {
                fresh(
                    "invalid"@,
                    "A canonical note used by this revision was removed or excluded. Regenerate before Apply."@,
                )
            } else if payload.text_field("resolver_version"@) == Some(expected_resolver)
                && payload.text_field("root_binding"@) == Some(root_binding)
                && payload.text_field("configuration_digest"@) == Some(now.configuration_digest@)
                && payload.text_field("catalog_digest"@) == Some(now.catalog_digest@)
                && notes_unchanged(items_of(payload, "used_notes"@), now.usable_digests@) {
                if items_of(payload, "excerpts"@).len() > 0 {
                    fresh(
                        "current"@,
                        "Knowledge links and excerpts match the frozen candidate."@,
                    )
                } else {
                    fresh("current"@, "Knowledge links match the frozen candidate."@)
                }
            } else {
                fresh(
                    "changed"@,
                    "Knowledge links, excerpts, or source metadata changed. Regenerate to use the latest setup."@,
                )
            },
        }
    }
}

fn find_digest(digests: &Vec<(String, String)>, path: &str, digest: &str) -> (r: bool)
    ensures
        r == (digest_at(digests@, path@) == Some(digest@)),
{
    let mut i: usize = digests.len();
    assert(digests@.take(i as int) =~= digests@);
    while i > 0
        invariant
            i <= digests@.len(),
            digest_at(digests@, path@) == digest_at(digests@.take(i as int), path@),
        decreases i,
    {
        assert(digests@.take(i as int).drop_last() =~= digests@.take(i - 1));
        if str_eq(digests[i - 1].0.as_str(), path) {
            return str_eq(digests[i - 1].1.as_str(), digest);
        }
        i -= 1;
    }
    false
}

fn used_notes_unchanged(payload: &Json, digests: &Vec<(String, String)>) -> (r: bool)
    ensures
        r == notes_unchanged(items_of(payload@, "used_notes"@), digests@),
{
    if let Some(notes) = payload.get_list("used_notes") {
        let ghost all = list_view(notes@);
        let mut i: usize = 0;
        proof {
            lemma_list_view(notes@);
        }
        while i < notes.len()
            invariant
                i <= notes@.len(),
                all == list_view(notes@),
                all == items_of(payload@, "used_notes"@),
                all.len() == notes@.len(),
                forall|k: int| 0 <= k < notes@.len() ==> all[k] == (#[trigger] notes@[k])@,
                forall|k: int| 0 <= k < i ==> note_unchanged(#[trigger] all[k], digests@),
            decreases notes@.len() - i,
        {
            let note = &notes[i];
            assert(all[i as int] == note@);
            if let Some(path) = note.get_text("path") {
                if let Some(digest) = note.get_text("usable_digest") {
                    if !find_digest(digests, path, digest) {
                        assert(!note_unchanged(all[i as int], digests@));
                        return false;
                    }
                }
            }
            i += 1;
        }
    }
    true
}

fn paths_present(paths: &Vec<String>, present: &Vec<String>) -> (r: bool)
    ensures
        r == all_present(views(paths@), views(present@)),
{
    let ghost all = views(paths@);
    let mut i: usize = 0;
    while i < paths.len()
        invariant
            i <= paths@.len(),
            all == views(paths@),
            forall|k: int| 0 <= k < i ==> views(present@).contains(#[trigger] all[k]),
        decreases paths@.len() - i,
    {
        if !contains_text(present, paths[i].as_str()) {
            assert(!views(present@).contains(all[i as int]));
            return false;
        }
        i += 1;
    }
    true
}

pub fn field_is_text(payload: &Json, key: &str, text: &str) -> (r: bool)
    ensures
        r == (payload@.text_field(key@) == Some(text@)),
{
    match payload.get_text(key) {
        Some(value) => str_eq(value, text),
        None => false,
    }
}

/// How a frozen context compares with its sources. `expected_resolver` is the
/// version of the rules by which a context would be made now.
pub fn current_context_freshness(
    payload: &Json,
    content: Option<&DailyRevisionContent>,
    collections: &Vec<KnowledgeCollection>,
    mappings: &Vec<ContextMapping>,
    now: &Option<Fingerprints>,
    expected_resolver: &str,
    root_binding: &str,
) -> (r: ContextFreshness)
    ensures
        r@ == freshness(
            payload@,
            content_workstreams(content),
            has_references(collections@, mappings@),
            *now,
            expected_resolver@,
            root_binding@,
        ),
{
    if field_is_text(payload, "reference_mode", "none") {
        return ContextFreshness {
            status: "none",
            message: "Generated without reference notes.",
        };
    }
    if field_is_text(payload, "resolver_version", "none") {
        return if references_configured(collections, mappings) {
            ContextFreshness {
                status: "changed",
                message: "Reference notes are now configured. Regenerate to use them.",
            }
        } else {
            ContextFreshness {
                status: "none",
                message: "This draft did not use reference notes.",
            }
        };
    }
    let now: &Fingerprints = match now {
        Some(now) => now,
        None => {
            return ContextFreshness {
                status: "unavailable",
                message: "Frozen links are preserved, but their current sources could not be checked.",
            };
        },
    };
    let paths = context_relevant_note_paths(content, payload);
    if !paths_present(&paths, &now.note_paths) {
        return ContextFreshness {
            status: "invalid",
            message: "A canonical note used by this revision was removed or excluded. Regenerate before Apply.",
        };
    }
    if field_is_text(payload, "resolver_version", expected_resolver) && field_is_text(
        payload,
        "root_binding",
        root_binding,
    ) && field_is_text(payload, "configuration_digest", now.configuration_digest.as_str())
        && field_is_text(payload, "catalog_digest", now.catalog_digest.as_str())
        && used_notes_unchanged(payload, &now.usable_digests) {
        let excerpts: usize = payload.get_length("excerpts");
        if excerpts > 0 {
            ContextFreshness {
                status: "current",
                message: "Knowledge links and excerpts match the frozen candidate.",
            }
        } else {
            ContextFreshness {
                status: "current",
                message: "Knowledge links match the frozen candidate.",
            }
        }
    } else {
        ContextFreshness {
            status: "changed",
            message: "Knowledge links, excerpts, or source metadata changed. Regenerate to use the latest setup.",
        }
    }
}

/// Whether a candidate with that context may be applied: not if a note that it
/// depends on is gone.
pub fn ensure_context_applyable(freshness: &ContextFreshness) -> (r: Result<(), ApiError>)
    ensures
        checks(
            r,
            if freshness@.status == "invalid"@ {
                Some(
                    conflict_of(
                        "a canonical note used by this candidate was removed or excluded; regenerate before Apply"@,
                    ),
                )
            } else {
                None
            },
        ),
{
    if str_eq(freshness.status, "invalid") {
        Err(
            ApiError::conflict(
                "a canonical note used by this candidate was removed or excluded; regenerate before Apply",
            ),
        )
    } else {
        Ok(())
    }
}

/// The paths of some catalog notes.
pub open spec fn catalog_paths(notes: Seq<CatalogNote>) -> Seq<Seq<char>> {
    notes.map_values(|n: CatalogNote| n.note.path@)
}

pub open spec fn pair_texts(pairs: Seq<(String, String)>) -> Seq<(Seq<char>, Seq<char>)> {
    pairs.map_values(|p: (String, String)| (p.0@, p.1@))
}

pub open spec fn catalog_digests(notes: Seq<CatalogNote>) -> Seq<(Seq<char>, Seq<char>)> {
    notes.map_values(|n: CatalogNote| (n.note.path@, n.note.usable_digest@))
}

/// What the sources of a context are like now.
pub fn current_fingerprints(
    root_binding: &str,
    collections: &Vec<KnowledgeCollection>,
    mappings: &Vec<ContextMapping>,
    catalog: &CatalogReport,
) -> (r: Fingerprints)
    ensures
        views(r.note_paths@) == catalog_paths(catalog.notes@),
        pair_texts(r.usable_digests@) == catalog_digests(catalog.notes@),
        r.configuration_digest@ == configuration_sha(root_binding@, collections@, mappings@),
        r.catalog_digest@ == catalog_sha(catalog.notes@),
{
    broadcast use lemma_views_push;
    let ghost paths = catalog_paths(catalog.notes@);
    let ghost digests = catalog_digests(catalog.notes@);
    let mut note_paths: Vec<String> = Vec::new();
    let mut usable_digests: Vec<(String, String)> = Vec::new();
    let mut i: usize = 0;
    assert(views(note_paths@) =~= paths.take(0));
    assert(pair_texts(usable_digests@) =~= digests.take(0));
    while i < catalog.notes.len()
        invariant
            i <= catalog.notes@.len(),
            paths == catalog_paths(catalog.notes@),
            digests == catalog_digests(catalog.notes@),
            views(note_paths@) == paths.take(i as int),
            pair_texts(usable_digests@) == digests.take(i as int),
        decreases catalog.notes@.len() - i,
    {
        proof {
            lemma_take_step(paths, i as int);
            lemma_take_step(digests, i as int);
        }
        let note = &catalog.notes[i].note;
        note_paths.push(note.path.as_str().to_owned());
        let ghost before = pair_texts(usable_digests@);
        let pair = (note.path.as_str().to_owned(), note.usable_digest.as_str().to_owned());
        usable_digests.push(pair);
        assert(pair_texts(usable_digests@) =~= before.push((pair.0@, pair.1@)));
        i += 1;
    }
    assert(paths.take(i as int) =~= paths);
    assert(digests.take(i as int) =~= digests);
    Fingerprints {
        note_paths,
        usable_digests,
        configuration_digest: configuration_digest(root_binding, collections, mappings),
        catalog_digest: catalog_digest(&catalog.notes),
    }
}

} // verus!
