//! The snapshot of what events were resolved to.
use crate::digest::{digest, digest_of_text, sha256_hex, text_digest};
use crate::json::{
    Json, JsonView, empty_list, empty_record, fields_view, json_of_number, json_of_option,
    json_of_text, json_of_texts, json_text, list_view, number_view, optional_text_view,
    push_item, put, text_views,
};
use crate::knowledge::{
    KnowledgeResolution, MAX_CONTEXT_SNAPSHOT_BYTES, OutcomeView, ResolvedGroup, ResolvedView,
    event_refs, group_keys, outcome, refs, resolve_groups, resolved_views,
};
use crate::models::{
    ContextMapping, KnowledgeCollection, LinkSelector, StoredLogEvent, enabled_collections,
    enabled_mappings, sorted_collections, sorted_mappings,
};
use crate::ordered::{lemma_ranked_len, ordered_set, ordered_set_of, ranked};
use crate::resolution::{CatalogNote, ParsedKnowledgeNote};
use crate::text::{
    byte_len, bytes_in, lemma_take_step, lemma_views_push, opt_text, push_texts, str_eq, views,
};
use crate::vault_links::vault_context;
use vstd::prelude::*;
use vstd::string::*;
use vstd::utf8::*;

verus! {

/// The version of the rules by which notes are found for events.
pub const RESOLVER_VERSION: &'static str = "exact-v1";

pub open spec fn canonical_ids(groups: Seq<ResolvedView>) -> Seq<Seq<char>> {
    groups.map_values(|g: ResolvedView| g.canonical_group_id)
}

pub open spec fn group_links(groups: Seq<ResolvedView>) -> Seq<Seq<char>> {
    groups.map_values(|g: ResolvedView| g.link)
}

pub open spec fn group_paths(groups: Seq<ResolvedView>) -> Seq<Seq<char>> {
    groups.map_values(|g: ResolvedView| g.path)
}

/// The groups that were brought together under `id`.
pub open spec fn under(groups: Seq<ResolvedView>, id: Seq<char>) -> Seq<ResolvedView>
    decreases groups.len(),
{
    if groups.len() == 0 {
        Seq::empty()
    } else if groups.last().canonical_group_id == id {
        under(groups.drop_last(), id).push(groups.last())
    } else {
        under(groups.drop_last(), id)
    }
}

pub open spec fn group_evidence(groups: Seq<ResolvedView>) -> Seq<Seq<char>>
    decreases groups.len(),
{
    if groups.len() == 0 {
        Seq::empty()
    } else {
        group_evidence(groups.drop_last()) + groups.last().event_ids
    }
}

/// The groups that got another ID than their own.
pub open spec fn alias_fields(groups: Seq<ResolvedView>) -> Map<Seq<char>, JsonView>
    decreases groups.len(),
{
    if groups.len() == 0 {
        Map::empty()
    } else {
        let before = alias_fields(groups.drop_last());
        let group = groups.last();
        if group.canonical_group_id != group.source_group_id {
            before.insert(group.source_group_id, JsonView::Text(group.canonical_group_id))
        } else {
            before
        }
    }
}

pub open spec fn text_list(texts: Seq<Seq<char>>) -> JsonView {
    JsonView::List(text_views(texts))
}

/// The links of each of the groups `ids`.
pub open spec fn link_fields(groups: Seq<ResolvedView>, ids: Seq<Seq<char>>) -> Map<
    Seq<char>,
    JsonView,
>
    decreases ids.len(),
{
    if ids.len() == 0 {
        Map::empty()
    } else {
        link_fields(groups, ids.drop_last()).insert(
            ids.last(),
            text_list(ordered_set(group_links(under(groups, ids.last())))),
        )
    }
}

/// The evidence of each of the groups `ids`.
pub open spec fn evidence_fields(groups: Seq<ResolvedView>, ids: Seq<Seq<char>>) -> Map<
    Seq<char>,
    JsonView,
>
    decreases ids.len(),
{
    if ids.len() == 0 {
        Map::empty()
    } else {
        evidence_fields(groups, ids.drop_last()).insert(
            ids.last(),
            text_list(ordered_set(group_evidence(under(groups, ids.last())))),
        )
    }
}

pub open spec fn resolved_record(group: ResolvedView) -> JsonView {
    JsonView::Record(
        Map::empty().insert("source_group_id"@, JsonView::Text(group.source_group_id)).insert(
            "canonical_group_id"@,
            JsonView::Text(group.canonical_group_id),
        ).insert("canonical_note_path"@, JsonView::Text(group.path)).insert(
            "canonical_link"@,
            JsonView::Text(group.link),
        ).insert("reason"@, JsonView::Text(group.reason)).insert(
            "matched_fields"@,
            text_list(group.matched_fields),
        ),
    )
}

pub open spec fn resolved_list(groups: Seq<ResolvedView>) -> Seq<JsonView> {
    groups.map_values(|g: ResolvedView| resolved_record(g))
}

pub open spec fn reference_fields(references: Seq<(String, Vec<String>)>) -> Map<
    Seq<char>,
    JsonView,
>
    decreases references.len(),
{
    if references.len() == 0 {
        Map::empty()
    } else {
        reference_fields(references.drop_last()).insert(
            references.last().0@,
            text_list(views(references.last().1@)),
        )
    }
}

/// How a note takes part in resolution.
pub open spec fn note_fields(note: ParsedKnowledgeNote) -> Map<Seq<char>, JsonView> {
    Map::empty().insert("path"@, JsonView::Text(note.path@)).insert(
        "title"@,
        JsonView::Text(note.title@),
    ).insert("aliases"@, text_list(views(note.aliases@))).insert(
        "references"@,
        JsonView::Record(reference_fields(note.references@)),
    )
}

pub open spec fn catalog_list(catalog: Seq<CatalogNote>) -> Seq<JsonView> {
    catalog.map_values(
        |n: CatalogNote|
            JsonView::Record(
                note_fields(n.note).insert("collection_ids"@, text_list(views(n.collection_ids@))),
            ),
    )
}

/// The digest of a JSON value's compact text.
pub open spec fn json_sha(v: JsonView) -> Seq<char> {
    text_digest(json_text(v))
}

pub open spec fn used_record(n: CatalogNote) -> JsonView {
    JsonView::Record(
        Map::empty().insert("path"@, JsonView::Text(n.note.path@)).insert(
            "title"@,
            JsonView::Text(n.note.title@),
        ).insert(
            "resolution_digest"@,
            JsonView::Text(json_sha(JsonView::Record(note_fields(n.note)))),
        ).insert("collection_ids"@, text_list(views(n.collection_ids@))),
    )
}

/// The note of the catalog with that path.
pub open spec fn note_at(catalog: Seq<CatalogNote>, path: Seq<char>) -> Option<CatalogNote>
    decreases catalog.len(),
{
    if catalog.len() == 0 {
        None
    } else if catalog[0].note.path@ == path {
        Some(catalog[0])
    } else {
        note_at(catalog.drop_first(), path)
    }
}

/// The notes of the catalog among some paths.
pub open spec fn used_list(catalog: Seq<CatalogNote>, paths: Seq<Seq<char>>) -> Seq<JsonView>
    decreases paths.len(),
{
    if paths.len() == 0 {
        Seq::empty()
    } else {
        let before = used_list(catalog, paths.drop_last());
        match note_at(catalog, paths.last()) {
            Some(n) => before.push(used_record(n)),
            None => before,
        }
    }
}

pub open spec fn collection_record(c: &KnowledgeCollection) -> JsonView {
    JsonView::Record(
        Map::empty().insert("id"@, JsonView::Text(c.id@)).insert(
            "revision_digest"@,
            JsonView::Text(c.revision_digest@),
        ),
    )
}

pub open spec fn collection_list(cs: Seq<&KnowledgeCollection>) -> Seq<JsonView> {
    cs.map_values(|c: &KnowledgeCollection| collection_record(c))
}

pub open spec fn selector_record(s: LinkSelector) -> JsonView {
    JsonView::Record(
        Map::empty().insert("field"@, JsonView::Text(s.field@)).insert(
            "operator"@,
            JsonView::Text(s.operator@),
        ).insert("value"@, JsonView::Text(s.value@)),
    )
}

pub open spec fn selector_list(ss: Seq<LinkSelector>) -> Seq<JsonView> {
    ss.map_values(|s: LinkSelector| selector_record(s))
}

/// What a mapping says, without its ID.
pub open spec fn mapping_rule(m: &ContextMapping) -> Map<Seq<char>, JsonView> {
    Map::empty().insert("selectors"@, JsonView::List(selector_list(m.selectors@))).insert(
        "canonical_note_path"@,
        JsonView::Text(m.canonical_note_path@),
    ).insert("source_identity"@, optional_text_view(opt_text(m.source_identity))).insert(
        "source_digest"@,
        optional_text_view(opt_text(m.source_digest)),
    )
}

pub open spec fn mapping_record(m: &ContextMapping) -> JsonView {
    JsonView::Record(
        Map::empty().insert("id"@, JsonView::Text(m.id@)).insert(
            "revision_digest"@,
            JsonView::Text(json_sha(JsonView::Record(mapping_rule(m)))),
        ),
    )
}

pub open spec fn mapping_list(ms: Seq<&ContextMapping>) -> Seq<JsonView> {
    ms.map_values(|m: &ContextMapping| mapping_record(m))
}

fn group_list_record(group: &ResolvedGroup) -> (r: Json)
    ensures
        r@ == resolved_record(group@),
{
    let mut fields = empty_record();
    put(&mut fields, "source_group_id", json_of_text(group.source_group_id.as_str()));
    put(&mut fields, "canonical_group_id", json_of_text(group.canonical_group_id.as_str()));
    put(&mut fields, "canonical_note_path", json_of_text(group.path.as_str()));
    put(&mut fields, "canonical_link", json_of_text(group.link.as_str()));
    put(&mut fields, "reason", json_of_text(group.reason.as_str()));
    put(&mut fields, "matched_fields", json_of_texts(&group.matched_fields));
    Json::Record(fields)
}

fn resolved_json(groups: &Vec<ResolvedGroup>) -> (r: Json)
    ensures
        r@ == JsonView::List(resolved_list(resolved_views(groups@))),
{
    let mut items = empty_list();
    let mut i: usize = 0;
    let ghost all = resolved_list(resolved_views(groups@));
    assert(list_view(items@) =~= all.take(0));
    while i < groups.len()
        invariant
            i <= groups@.len(),
            all == resolved_list(resolved_views(groups@)),
            list_view(items@) == all.take(i as int),
        decreases groups@.len() - i,
    {
        proof {
            lemma_take_step(all, i as int);
        }
        push_item(&mut items, group_list_record(&groups[i]));
        i += 1;
    }
    assert(all.take(i as int) =~= all);
    Json::List(items)
}

pub fn references_json(references: &Vec<(String, Vec<String>)>) -> (r: Json)
    ensures
        r@ == JsonView::Record(reference_fields(references@)),
{
    let mut fields = empty_record();
    let mut i: usize = 0;
    assert(references@.take(0) =~= Seq::<(String, Vec<String>)>::empty());
    while i < references.len()
        invariant
            i <= references@.len(),
            fields_view(fields@) == reference_fields(references@.take(i as int)),
        decreases references@.len() - i,
    {
        proof {
            lemma_take_step(references@, i as int);
        }
        put(&mut fields, references[i].0.as_str(), json_of_texts(&references[i].1));
        i += 1;
    }
    assert(references@.take(i as int) =~= references@);
    Json::Record(fields)
}

fn note_record(note: &ParsedKnowledgeNote) -> (r: Vec<(String, Json)>)
    ensures
        fields_view(r@) == note_fields(*note),
{
    let mut fields = empty_record();
    put(&mut fields, "path", json_of_text(note.path.as_str()));
    put(&mut fields, "title", json_of_text(note.title.as_str()));
    put(&mut fields, "aliases", json_of_texts(&note.aliases));
    put(&mut fields, "references", references_json(&note.references));
    fields
}

fn catalog_json(catalog: &Vec<CatalogNote>) -> (r: Json)
    ensures
        r@ == JsonView::List(catalog_list(catalog@)),
{
    let mut items = empty_list();
    let mut i: usize = 0;
    let ghost all = catalog_list(catalog@);
    assert(list_view(items@) =~= all.take(0));
    while i < catalog.len()
        invariant
            i <= catalog@.len(),
            all == catalog_list(catalog@),
            list_view(items@) == all.take(i as int),
        decreases catalog@.len() - i,
    {
        proof {
            lemma_take_step(all, i as int);
        }
        let mut fields = note_record(&catalog[i].note);
        put(&mut fields, "collection_ids", json_of_texts(&catalog[i].collection_ids));
        push_item(&mut items, Json::Record(fields));
        i += 1;
    }
    assert(all.take(i as int) =~= all);
    Json::List(items)
}

/// The digest of a catalog: of what its notes are resolved by.
pub open spec fn catalog_sha(catalog: Seq<CatalogNote>) -> Seq<char> {
    json_sha(JsonView::List(catalog_list(catalog)))
}

pub fn catalog_digest(catalog: &Vec<CatalogNote>) -> (r: String)
    ensures
        r@ == catalog_sha(catalog@),
{
    json_digest(&catalog_json(catalog))
}

pub fn json_digest(payload: &Json) -> (r: String)
    ensures
        r@ == json_sha(payload@),
{
    digest_of_text(payload.to_text().as_str())
}

fn used_note_record(n: &CatalogNote) -> (r: Json)
    ensures
        r@ == used_record(*n),
{
    let rule = Json::Record(note_record(&n.note));
    let mut fields = empty_record();
    put(&mut fields, "path", json_of_text(n.note.path.as_str()));
    put(&mut fields, "title", json_of_text(n.note.title.as_str()));
    put(&mut fields, "resolution_digest", json_of_text(json_digest(&rule).as_str()));
    put(&mut fields, "collection_ids", json_of_texts(&n.collection_ids));
    Json::Record(fields)
}

pub fn find_catalog_note<'a>(catalog: &'a Vec<CatalogNote>, path: &str) -> (r: Option<
    &'a CatalogNote,
>)
    ensures
        match r {
            Some(n) => note_at(catalog@, path@) == Some(*n),
            None => note_at(catalog@, path@) is None,
        },
{
    let mut i: usize = 0;
    assert(catalog@.skip(0) =~= catalog@);
    while i < catalog.len()
        invariant
            i <= catalog@.len(),
            note_at(catalog@, path@) == note_at(catalog@.skip(i as int), path@),
        decreases catalog@.len() - i,
    {
        assert(catalog@.skip(i as int).drop_first() =~= catalog@.skip(i + 1));
        if str_eq(catalog[i].note.path.as_str(), path) {
            return Some(&catalog[i]);
        }
        i += 1;
    }
    None
}

fn used_json(catalog: &Vec<CatalogNote>, paths: &Vec<String>) -> (r: Json)
    ensures
        r@ == JsonView::List(used_list(catalog@, views(paths@))),
{
    let mut items = empty_list();
    let mut i: usize = 0;
    let ghost all = views(paths@);
    assert(all.take(0) =~= Seq::<Seq<char>>::empty());
    while i < paths.len()
        invariant
            i <= paths@.len(),
            all == views(paths@),
            list_view(items@) == used_list(catalog@, all.take(i as int)),
        decreases paths@.len() - i,
    {
        proof {
            lemma_take_step(all, i as int);
        }
        if let Some(n) = find_catalog_note(catalog, paths[i].as_str()) {
            push_item(&mut items, used_note_record(n));
        }
        i += 1;
    }
    assert(all.take(i as int) =~= all);
    Json::List(items)
}

fn collection_json(c: &KnowledgeCollection) -> (r: Json)
    ensures
        r@ == collection_record(c),
{
    let mut fields = empty_record();
    put(&mut fields, "id", json_of_text(c.id.as_str()));
    put(&mut fields, "revision_digest", json_of_text(c.revision_digest.as_str()));
    Json::Record(fields)
}

fn collections_json(cs: &Vec<&KnowledgeCollection>) -> (r: Json)
    ensures
        r@ == JsonView::List(collection_list(cs@)),
{
    let mut items = empty_list();
    let mut i: usize = 0;
    let ghost all = collection_list(cs@);
    assert(list_view(items@) =~= all.take(0));
    while i < cs.len()
        invariant
            i <= cs@.len(),
            all == collection_list(cs@),
            list_view(items@) == all.take(i as int),
        decreases cs@.len() - i,
    {
        proof {
            lemma_take_step(all, i as int);
        }
        push_item(&mut items, collection_json(cs[i]));
        i += 1;
    }
    assert(all.take(i as int) =~= all);
    Json::List(items)
}

pub fn selectors_json(ss: &Vec<LinkSelector>) -> (r: Json)
    ensures
        r@ == JsonView::List(selector_list(ss@)),
{
    let mut items = empty_list();
    let mut i: usize = 0;
    let ghost all = selector_list(ss@);
    assert(list_view(items@) =~= all.take(0));
    while i < ss.len()
        invariant
            i <= ss@.len(),
            all == selector_list(ss@),
            list_view(items@) == all.take(i as int),
        decreases ss@.len() - i,
    {
        proof {
            lemma_take_step(all, i as int);
        }
        let mut fields = empty_record();
        put(&mut fields, "field", json_of_text(ss[i].field.as_str()));
        put(&mut fields, "operator", json_of_text(ss[i].operator.as_str()));
        put(&mut fields, "value", json_of_text(ss[i].value.as_str()));
        push_item(&mut items, Json::Record(fields));
        i += 1;
    }
    assert(all.take(i as int) =~= all);
    Json::List(items)
}

fn mapping_rule_json(m: &ContextMapping) -> (r: Vec<(String, Json)>)
    ensures
        fields_view(r@) == mapping_rule(m),
{
    let mut fields = empty_record();
    put(&mut fields, "selectors", selectors_json(&m.selectors));
    put(&mut fields, "canonical_note_path", json_of_text(m.canonical_note_path.as_str()));
    put(&mut fields, "source_identity", json_of_option(&m.source_identity));
    put(&mut fields, "source_digest", json_of_option(&m.source_digest));
    fields
}

fn mappings_json(ms: &Vec<&ContextMapping>) -> (r: Json)
    ensures
        r@ == JsonView::List(mapping_list(ms@)),
{
    let mut items = empty_list();
    let mut i: usize = 0;
    let ghost all = mapping_list(ms@);
    assert(list_view(items@) =~= all.take(0));
    while i < ms.len()
        invariant
            i <= ms@.len(),
            all == mapping_list(ms@),
            list_view(items@) == all.take(i as int),
        decreases ms@.len() - i,
    {
        proof {
            lemma_take_step(all, i as int);
        }
        let rule = Json::Record(mapping_rule_json(ms[i]));
        let mut fields = empty_record();
        put(&mut fields, "id", json_of_text(ms[i].id.as_str()));
        put(&mut fields, "revision_digest", json_of_text(json_digest(&rule).as_str()));
        push_item(&mut items, Json::Record(fields));
        i += 1;
    }
    assert(all.take(i as int) =~= all);
    Json::List(items)
}


fn under_id<'a>(groups: &'a Vec<ResolvedGroup>, id: &str) -> (r: Vec<&'a ResolvedGroup>)
    ensures
        r@.map_values(|g: &ResolvedGroup| g@) == under(resolved_views(groups@), id@),
{
    let mut r: Vec<&'a ResolvedGroup> = Vec::new();
    let mut i: usize = 0;
    let ghost all = resolved_views(groups@);
    assert(r@.map_values(|g: &ResolvedGroup| g@) =~= under(all.take(0), id@));
    while i < groups.len()
        invariant
            i <= groups@.len(),
            all == resolved_views(groups@),
            r@.map_values(|g: &ResolvedGroup| g@) == under(all.take(i as int), id@),
        decreases groups@.len() - i,
    {
        proof {
            lemma_take_step(all, i as int);
        }
        if str_eq(groups[i].canonical_group_id.as_str(), id) {
            let ghost before = r@;
            r.push(&groups[i]);
            assert(r@.map_values(|g: &ResolvedGroup| g@) =~= before.map_values(
                |g: &ResolvedGroup| g@,
            ).push(groups@[i as int]@));
        }
        i += 1;
    }
    assert(all.take(i as int) =~= all);
    r
}

/// The links and the evidence of the groups under `id`.
fn collected(groups: &Vec<ResolvedGroup>, id: &str) -> (r: (Vec<String>, Vec<String>))
    ensures
        views(r.0@) == ordered_set(group_links(under(resolved_views(groups@), id@))),
        views(r.1@) == ordered_set(group_evidence(under(resolved_views(groups@), id@))),
{
    broadcast use lemma_views_push;
    let members = under_id(groups, id);
    let mut links: Vec<String> = Vec::new();
    let mut evidence: Vec<String> = Vec::new();
    let mut i: usize = 0;
    let ghost all = under(resolved_views(groups@), id@);
    let ghost all_links = group_links(all);
    assert(members@.map_values(|g: &ResolvedGroup| g@).len() == members@.len());
    assert(views(links@) =~= all_links.take(0));
    assert(views(evidence@) =~= group_evidence(all.take(0)));
    while i < members.len()
        invariant
            i <= members@.len(),
            members@.len() == all.len(),
            all == members@.map_values(|g: &ResolvedGroup| g@),
            all_links == group_links(all),
            views(links@) == all_links.take(i as int),
            views(evidence@) == group_evidence(all.take(i as int)),
        decreases members@.len() - i,
    {
        proof {
            lemma_take_step(all, i as int);
            lemma_take_step(all_links, i as int);
            assert(all[i as int] == members@[i as int]@);
        }
        links.push(members[i].link.as_str().to_owned());
        push_texts(&mut evidence, &members[i].event_ids);
        i += 1;
    }
    assert(all.take(i as int) =~= all);
    assert(all_links.take(i as int) =~= all_links);
    (ordered_set_of(&links), ordered_set_of(&evidence))
}

fn alias_json(groups: &Vec<ResolvedGroup>) -> (r: Json)
    ensures
        r@ == JsonView::Record(alias_fields(resolved_views(groups@))),
{
    let mut fields = empty_record();
    let mut i: usize = 0;
    let ghost all = resolved_views(groups@);
    assert(all.take(0) =~= Seq::<ResolvedView>::empty());
    while i < groups.len()
        invariant
            i <= groups@.len(),
            all == resolved_views(groups@),
            fields_view(fields@) == alias_fields(all.take(i as int)),
        decreases groups@.len() - i,
    {
        proof {
            lemma_take_step(all, i as int);
        }
        let group = &groups[i];
        if !str_eq(group.canonical_group_id.as_str(), group.source_group_id.as_str()) {
            put(
                &mut fields,
                group.source_group_id.as_str(),
                json_of_text(group.canonical_group_id.as_str()),
            );
        }
        i += 1;
    }
    assert(all.take(i as int) =~= all);
    Json::Record(fields)
}

/// The links and the evidence of each group, by the IDs in `ids`.
fn links_and_evidence_json(groups: &Vec<ResolvedGroup>, ids: &Vec<String>) -> (r: (Json, Json))
    ensures
        r.0@ == JsonView::Record(link_fields(resolved_views(groups@), views(ids@))),
        r.1@ == JsonView::Record(evidence_fields(resolved_views(groups@), views(ids@))),
{
    let mut links = empty_record();
    let mut evidence = empty_record();
    let mut i: usize = 0;
    let ghost all = views(ids@);
    let ghost rs = resolved_views(groups@);
    assert(all.take(0) =~= Seq::<Seq<char>>::empty());
    while i < ids.len()
        invariant
            i <= ids@.len(),
            all == views(ids@),
            rs == resolved_views(groups@),
            fields_view(links@) == link_fields(rs, all.take(i as int)),
            fields_view(evidence@) == evidence_fields(rs, all.take(i as int)),
        decreases ids@.len() - i,
    {
        proof {
            lemma_take_step(all, i as int);
        }
        let (group_links, group_evidence) = collected(groups, ids[i].as_str());
        put(&mut links, ids[i].as_str(), json_of_texts(&group_links));
        put(&mut evidence, ids[i].as_str(), json_of_texts(&group_evidence));
        i += 1;
    }
    assert(all.take(i as int) =~= all);
    (Json::Record(links), Json::Record(evidence))
}

/// The digest of a snapshot, unless the snapshot is too large to keep.
pub fn context_snapshot_digest(payload: &Json) -> (r: Result<String, String>)
    ensures
        byte_len(json_text(payload@)) > MAX_CONTEXT_SNAPSHOT_BYTES ==> r is Err && r->Err_0@
            == "Knowledge context snapshot exceeds 1048576 bytes"@,
        byte_len(json_text(payload@)) <= MAX_CONTEXT_SNAPSHOT_BYTES ==> r is Ok && r->Ok_0@
            == json_sha(payload@),
{
    let text = payload.to_text();
    if bytes_in(text.as_str()) > MAX_CONTEXT_SNAPSHOT_BYTES {
        return Err("Knowledge context snapshot exceeds 1048576 bytes".to_owned());
    }
    Ok(digest_of_text(text.as_str()))
}

/// The eight bytes of a number, the highest first.
pub open spec fn big_endian(n: u64) -> Seq<u8> {
    seq![
        (n / 0x100_0000_0000_0000) as u8,
        (n / 0x1_0000_0000_0000 % 256) as u8,
        (n / 0x100_0000_0000 % 256) as u8,
        (n / 0x1_0000_0000 % 256) as u8,
        (n / 0x100_0000 % 256) as u8,
        (n / 0x1_0000 % 256) as u8,
        (n / 0x100 % 256) as u8,
        (n % 256) as u8,
    ]
}

/// Some bytes behind their number.
pub open spec fn framed(bytes: Seq<u8>) -> Seq<u8> {
    big_endian(bytes.len() as u64) + bytes
}

fn push_framed(out: &mut Vec<u8>, bytes: &[u8])
    ensures
        final(out)@ == old(out)@ + framed(bytes@),
{
    let ghost before = out@;
    let n: u64 = bytes.len() as u64;
    out.push((n / 0x100_0000_0000_0000) as u8);
    out.push((n / 0x1_0000_0000_0000 % 256) as u8);
    out.push((n / 0x100_0000_0000 % 256) as u8);
    out.push((n / 0x1_0000_0000 % 256) as u8);
    out.push((n / 0x100_0000 % 256) as u8);
    out.push((n / 0x1_0000 % 256) as u8);
    out.push((n / 0x100 % 256) as u8);
    out.push((n % 256) as u8);
    assert(out@ =~= before + big_endian(n));
    out.extend_from_slice(bytes);
    assert(out@ =~= before + framed(bytes@));
}

/// A mapping with its ID.
pub open spec fn full_mapping_record(m: &ContextMapping) -> JsonView {
    JsonView::Record(mapping_rule(m).insert("id"@, JsonView::Text(m.id@)))
}

pub open spec fn framed_collections(cs: Seq<&KnowledgeCollection>) -> Seq<u8>
    decreases cs.len(),
{
    if cs.len() == 0 {
        Seq::empty()
    } else {
        framed_collections(cs.drop_last()) + framed(
            encode_utf8(json_text(collection_record(cs.last()))),
        )
    }
}

pub open spec fn framed_mappings(ms: Seq<&ContextMapping>) -> Seq<u8>
    decreases ms.len(),
{
    if ms.len() == 0 {
        Seq::empty()
    } else {
        framed_mappings(ms.drop_last()) + framed(
            encode_utf8(json_text(full_mapping_record(ms.last()))),
        )
    }
}

/// The digest of what decides how events are resolved: the workspace, and the
/// enabled collections and mappings in the order of their IDs.
pub open spec fn configuration_sha(
    root_binding: Seq<char>,
    collections: Seq<KnowledgeCollection>,
    mappings: Seq<ContextMapping>,
) -> Seq<char> {
    sha256_hex(
        framed(encode_utf8(root_binding)) + framed_collections(
            ranked(enabled_collections(collections)),
        ) + framed_mappings(ranked(enabled_mappings(mappings))),
    )
}

pub fn configuration_digest(
    root_binding: &str,
    collections: &Vec<KnowledgeCollection>,
    mappings: &Vec<ContextMapping>,
) -> (r: String)
    ensures
        r@ == configuration_sha(root_binding@, collections@, mappings@),
{
    let mut bytes: Vec<u8> = Vec::new();
    push_framed(&mut bytes, root_binding.as_bytes());
    let ghost head = bytes@;
    assert(head =~= framed(encode_utf8(root_binding@)));
    let cs = sorted_collections(collections);
    let mut i: usize = 0;
    assert(cs@.take(0) =~= Seq::<&KnowledgeCollection>::empty());
    assert(bytes@ =~= head + framed_collections(cs@.take(0)));
    while i < cs.len()
        invariant
            i <= cs@.len(),
            bytes@ == head + framed_collections(cs@.take(i as int)),
        decreases cs@.len() - i,
    {
        proof {
            lemma_take_step(cs@, i as int);
        }
        let text = collection_json(cs[i]).to_text();
        push_framed(&mut bytes, text.as_str().as_bytes());
        assert(bytes@ =~= head + framed_collections(cs@.take(i + 1)));
        i += 1;
    }
    assert(cs@.take(i as int) =~= cs@);
    let ghost both = bytes@;
    let ms = sorted_mappings(mappings);
    let mut k: usize = 0;
    assert(ms@.take(0) =~= Seq::<&ContextMapping>::empty());
    assert(bytes@ =~= both + framed_mappings(ms@.take(0)));
    while k < ms.len()
        invariant
            k <= ms@.len(),
            bytes@ == both + framed_mappings(ms@.take(k as int)),
        decreases ms@.len() - k,
    {
        proof {
            lemma_take_step(ms@, k as int);
        }
        let mut fields = mapping_rule_json(ms[k]);
        put(&mut fields, "id", json_of_text(ms[k].id.as_str()));
        let text = Json::Record(fields).to_text();
        push_framed(&mut bytes, text.as_str().as_bytes());
        assert(bytes@ =~= both + framed_mappings(ms@.take(k + 1)));
        k += 1;
    }
    assert(ms@.take(k as int) =~= ms@);
    digest(bytes.as_slice())
}

/// What was found when the catalog was read.
pub struct CatalogReport {
    pub notes: Vec<CatalogNote>,
    pub missing_roots: Vec<String>,
    pub oversized_note_count: usize,
    pub unreadable_note_count: usize,
    pub invalid_note_count: usize,
}

pub open spec fn diagnostics_record(catalog: CatalogReport, result: OutcomeView) -> JsonView {
    JsonView::Record(
        Map::empty().insert("missing_roots"@, text_list(views(catalog.missing_roots@))).insert(
            "oversized_note_count"@,
            number_view(catalog.oversized_note_count as nat),
        ).insert(
            "unreadable_note_count"@,
            number_view(catalog.unreadable_note_count as nat),
        ).insert("invalid_note_count"@, number_view(catalog.invalid_note_count as nat)).insert(
            "invalid_mapping_count"@,
            number_view(result.invalid),
        ).insert("ambiguous_group_count"@, number_view(result.ambiguous)),
    )
}

/// The IDs under which groups were brought together.
pub open spec fn workstream_ids(result: OutcomeView) -> Seq<Seq<char>> {
    ordered_set(canonical_ids(result.resolved))
}

/// What a resolution records.
pub open spec fn snapshot_record(
    root_binding: Seq<char>,
    collections: Seq<KnowledgeCollection>,
    mappings: Seq<ContextMapping>,
    catalog: CatalogReport,
    result: OutcomeView,
) -> JsonView {
    JsonView::Record(
        Map::empty().insert("schema_version"@, number_view(1)).insert(
            "resolver_version"@,
            JsonView::Text(RESOLVER_VERSION@),
        ).insert("root_binding"@, JsonView::Text(root_binding)).insert(
            "configuration_digest"@,
            JsonView::Text(configuration_sha(root_binding, collections, mappings)),
        ).insert(
            "collections"@,
            JsonView::List(collection_list(ranked(enabled_collections(collections)))),
        ).insert(
            "mappings"@,
            JsonView::List(mapping_list(ranked(enabled_mappings(mappings)))),
        ).insert(
            "catalog_digest"@,
            JsonView::Text(catalog_sha(catalog.notes@)),
        ).insert("catalog_note_count"@, number_view(catalog.notes@.len())).insert(
            "used_notes"@,
            JsonView::List(used_list(catalog.notes@, ordered_set(group_paths(result.resolved)))),
        ).insert("resolved_groups"@, JsonView::List(resolved_list(result.resolved))).insert(
            "group_aliases"@,
            JsonView::Record(alias_fields(result.resolved)),
        ).insert(
            "workstream_links"@,
            JsonView::Record(link_fields(result.resolved, workstream_ids(result))),
        ).insert(
            "workstream_evidence"@,
            JsonView::Record(evidence_fields(result.resolved, workstream_ids(result))),
        ).insert("diagnostics"@, diagnostics_record(catalog, result)),
    )
}

/// What a resolution hands to the model: the links that it may use.
pub open spec fn vault_record(result: OutcomeView) -> JsonView {
    JsonView::Record(
        Map::empty().insert(
            "candidate_notes"@,
            text_list(ordered_set(group_links(result.resolved))),
        ).insert(
            "workstream_links"@,
            JsonView::Record(link_fields(result.resolved, workstream_ids(result))),
        ).insert("group_aliases"@, JsonView::Record(alias_fields(result.resolved))).insert(
            "knowledge"@,
            JsonView::Record(
                Map::empty().insert("resolver_version"@, JsonView::Text(RESOLVER_VERSION@)).insert(
                    "context_is_background_only"@,
                    JsonView::Bool(true),
                ).insert("excerpts"@, JsonView::List(Seq::empty())),
            ),
        ),
    )
}

fn columns(groups: &Vec<ResolvedGroup>) -> (r: (Vec<String>, Vec<String>, Vec<String>))
    ensures
        views(r.0@) == canonical_ids(resolved_views(groups@)),
        views(r.1@) == group_links(resolved_views(groups@)),
        views(r.2@) == group_paths(resolved_views(groups@)),
{
    broadcast use lemma_views_push;
    let mut ids: Vec<String> = Vec::new();
    let mut links: Vec<String> = Vec::new();
    let mut paths: Vec<String> = Vec::new();
    let mut i: usize = 0;
    let ghost rs = resolved_views(groups@);
    let ghost all_ids = canonical_ids(rs);
    let ghost all_links = group_links(rs);
    let ghost all_paths = group_paths(rs);
    assert(views(ids@) =~= all_ids.take(0));
    assert(views(links@) =~= all_links.take(0));
    assert(views(paths@) =~= all_paths.take(0));
    while i < groups.len()
        invariant
            i <= groups@.len(),
            rs == resolved_views(groups@),
            all_ids == canonical_ids(rs),
            all_links == group_links(rs),
            all_paths == group_paths(rs),
            views(ids@) == all_ids.take(i as int),
            views(links@) == all_links.take(i as int),
            views(paths@) == all_paths.take(i as int),
        decreases groups@.len() - i,
    {
        proof {
            lemma_take_step(all_ids, i as int);
            lemma_take_step(all_links, i as int);
            lemma_take_step(all_paths, i as int);
        }
        ids.push(groups[i].canonical_group_id.as_str().to_owned());
        links.push(groups[i].link.as_str().to_owned());
        paths.push(groups[i].path.as_str().to_owned());
        i += 1;
    }
    assert(all_ids.take(i as int) =~= all_ids);
    assert(all_links.take(i as int) =~= all_links);
    assert(all_paths.take(i as int) =~= all_paths);
    (ids, links, paths)
}

/// What becomes of the events, given the notes that are there.
pub open spec fn knowledge_outcome(
    mappings: Seq<ContextMapping>,
    events: Seq<StoredLogEvent>,
    catalog: CatalogReport,
    existing: Seq<Seq<char>>,
) -> OutcomeView {
    outcome(
        existing,
        catalog.notes@,
        ranked(enabled_mappings(mappings)),
        refs(events),
        ordered_set(group_keys(refs(events))),
    )
}

/// Resolves events against the enabled collections and mappings. `catalog` is
/// what the enabled collections hold; `existing` are the paths of the notes
/// that are there, as far as mappings name them.
pub fn resolve_knowledge(
    root_binding: &str,
    collections: &Vec<KnowledgeCollection>,
    mappings: &Vec<ContextMapping>,
    events: &Vec<StoredLogEvent>,
    catalog: &CatalogReport,
    existing: &Vec<String>,
) -> (r: Result<Option<KnowledgeResolution>, String>)
    requires
        (events@.len() + 1) * (mappings@.len() + 1) <= usize::MAX,
    ensures
        ({
            let result = knowledge_outcome(mappings@, events@, *catalog, views(existing@));
            let snapshot = snapshot_record(
                root_binding@,
                collections@,
                mappings@,
                *catalog,
                result,
            );
            if enabled_collections(collections@).len() == 0 && enabled_mappings(mappings@).len()
                == 0 {
                r is Ok && r->Ok_0 is None
            } else if byte_len(json_text(snapshot)) > MAX_CONTEXT_SNAPSHOT_BYTES {
                r is Err && r->Err_0@ == "Knowledge context snapshot exceeds 1048576 bytes"@
            } else {
                &&& r is Ok && r->Ok_0 is Some
                &&& (r->Ok_0->0).snapshot_payload@ == snapshot
                &&& (r->Ok_0->0).vault_context@ == vault_record(result)
            }
        }),
{
    let cs = sorted_collections(collections);
    let ms = sorted_mappings(mappings);
    proof {
        lemma_ranked_len(enabled_collections(collections@));
        lemma_ranked_len(enabled_mappings(mappings@));
        let a = events@.len() + 1;
        let b = ms@.len() + 1;
        let c = mappings@.len() + 1;
        assert(a * b <= a * c) by (nonlinear_arith)
            requires
                b <= c,
                a >= 0,
        ;
    }
    if cs.len() == 0 && ms.len() == 0 {
        return Ok(None);
    }
    let all = event_refs(events);
    let result = resolve_groups(existing, &catalog.notes, &ms, &all);
    let (ids, links, paths) = columns(&result.resolved);
    let ids = ordered_set_of(&ids);
    let candidate_notes = ordered_set_of(&links);
    let used_paths = ordered_set_of(&paths);
    let (links_json, evidence_json) = links_and_evidence_json(&result.resolved, &ids);
    let aliases_json = alias_json(&result.resolved);

    let mut diagnostics = empty_record();
    put(&mut diagnostics, "missing_roots", json_of_texts(&catalog.missing_roots));
    put(
        &mut diagnostics,
        "oversized_note_count",
        json_of_number(catalog.oversized_note_count as u64),
    );
    put(
        &mut diagnostics,
        "unreadable_note_count",
        json_of_number(catalog.unreadable_note_count as u64),
    );
    put(&mut diagnostics, "invalid_note_count", json_of_number(catalog.invalid_note_count as u64));
    put(&mut diagnostics, "invalid_mapping_count", json_of_number(result.invalid as u64));
    put(&mut diagnostics, "ambiguous_group_count", json_of_number(result.ambiguous as u64));

    let mut payload = empty_record();
    put(&mut payload, "schema_version", json_of_number(1));
    put(&mut payload, "resolver_version", json_of_text(RESOLVER_VERSION));
    put(&mut payload, "root_binding", json_of_text(root_binding));
    let configuration = configuration_digest(root_binding, collections, mappings);
    put(&mut payload, "configuration_digest", json_of_text(configuration.as_str()));
    put(&mut payload, "collections", collections_json(&cs));
    put(&mut payload, "mappings", mappings_json(&ms));
    let digest_of_catalog = catalog_digest(&catalog.notes);
    put(&mut payload, "catalog_digest", json_of_text(digest_of_catalog.as_str()));
    put(&mut payload, "catalog_note_count", json_of_number(catalog.notes.len() as u64));
    put(&mut payload, "used_notes", used_json(&catalog.notes, &used_paths));
    put(&mut payload, "resolved_groups", resolved_json(&result.resolved));
    put(&mut payload, "group_aliases", aliases_json.copy());
    put(&mut payload, "workstream_links", links_json.copy());
    put(&mut payload, "workstream_evidence", evidence_json);
    put(&mut payload, "diagnostics", Json::Record(diagnostics));
    let snapshot_payload = Json::Record(payload);
    match context_snapshot_digest(&snapshot_payload) {
        Ok(_) => {},
        Err(error) => {
            return Err(error);
        },
    }
    let mut knowledge = empty_record();
    put(&mut knowledge, "resolver_version", json_of_text(RESOLVER_VERSION));
    put(&mut knowledge, "context_is_background_only", Json::Bool(true));
    put(&mut knowledge, "excerpts", Json::List(empty_list()));
    let mut context = empty_record();
    put(&mut context, "candidate_notes", json_of_texts(&candidate_notes));
    put(&mut context, "workstream_links", links_json);
    put(&mut context, "group_aliases", aliases_json);
    put(&mut context, "knowledge", Json::Record(knowledge));
    Ok(Some(KnowledgeResolution { snapshot_payload, vault_context: Json::Record(context) }))
}

} // verus!
