//! What a frozen context records, and what its digests take in.
use crate::digest::{sha256_hex, text_digest};
use crate::identity::group_key;
use crate::json::{JsonView, json_text};
use crate::knowledge::{group_keys, outcome, refs, with_key};
use crate::models::{
    ContextMapping, KnowledgeCollection, LinkSelector, StoredLogEvent, enabled_collections,
    enabled_mappings,
};
use crate::ordered::{
    Ranked, increasing, lemma_ordered_set, lemma_push_contains, ordered_set, precedes, ranked,
};
use crate::resolution::{CatalogNote, ParsedKnowledgeNote};
use crate::snapshot::{
    CatalogReport, big_endian, catalog_list, catalog_sha, collection_list, collection_record,
    configuration_sha, framed, framed_collections, framed_mappings, full_mapping_record,
    knowledge_outcome, mapping_list, mapping_rule, note_at, note_fields, reference_fields,
    selector_list, text_list, used_list, used_record,
};
use crate::text::views;
use vstd::prelude::*;
use vstd::string::*;
use vstd::utf8::encode_utf8;

verus! {

/// The enabled collections and mappings are used, and no others.
pub proof fn law_enabled_ones_are_used(
    collections: Seq<KnowledgeCollection>,
    mappings: Seq<ContextMapping>,
    c: KnowledgeCollection,
    m: ContextMapping,
)
    ensures
        enabled_collections(collections).contains(&c) <==> collections.contains(c) && c.enabled,
        enabled_mappings(mappings).contains(&m) <==> mappings.contains(m) && m.enabled,
{
    lemma_enabled_collections(collections, c);
    lemma_enabled_mappings(mappings, m);
}

proof fn lemma_enabled_collections(all: Seq<KnowledgeCollection>, c: KnowledgeCollection)
    ensures
        enabled_collections(all).contains(&c) <==> all.contains(c) && c.enabled,
    decreases all.len(),
{
    if all.len() > 0 {
        let init = all.drop_last();
        lemma_enabled_collections(init, c);
        assert(all =~= init.push(all.last()));
        lemma_push_contains(init, all.last(), c);
        lemma_push_contains(enabled_collections(init), &all.last(), &c);
    }
}

proof fn lemma_enabled_mappings(all: Seq<ContextMapping>, m: ContextMapping)
    ensures
        enabled_mappings(all).contains(&m) <==> all.contains(m) && m.enabled,
    decreases all.len(),
{
    if all.len() > 0 {
        let init = all.drop_last();
        lemma_enabled_mappings(init, m);
        assert(all =~= init.push(all.last()));
        lemma_push_contains(init, all.last(), m);
        lemma_push_contains(enabled_mappings(init), &all.last(), &m);
    }
}

/// Collections and mappings are recorded in the order of their ids.
pub proof fn law_recorded_in_order(
    a: KnowledgeCollection,
    b: KnowledgeCollection,
    m: ContextMapping,
    n: ContextMapping,
)
    ensures
        a.ranks_before(&b) <==> precedes(a.id@, b.id@),
        m.ranks_before(&n) <==> precedes(m.id@, n.id@),
{
}

/// The keys of a note differ.
pub proof fn lemma_note_keys_differ()
    ensures
        "path"@ != "title"@,
        "path"@ != "aliases"@,
        "path"@ != "references"@,
        "path"@ != "collection_ids"@,
        "path"@ != "resolution_digest"@,
        "title"@ != "aliases"@,
        "title"@ != "references"@,
        "title"@ != "collection_ids"@,
        "title"@ != "resolution_digest"@,
        "aliases"@ != "references"@,
        "aliases"@ != "collection_ids"@,
        "aliases"@ != "resolution_digest"@,
        "references"@ != "collection_ids"@,
        "references"@ != "resolution_digest"@,
        "collection_ids"@ != "resolution_digest"@,
{
    reveal_strlit("path");
    reveal_strlit("title");
    reveal_strlit("aliases");
    reveal_strlit("references");
    reveal_strlit("collection_ids");
    reveal_strlit("resolution_digest");
    assert("path"@.len() == 4);
    assert("title"@.len() == 5);
    assert("aliases"@.len() == 7);
    assert("references"@.len() == 10);
    assert("collection_ids"@.len() == 14);
    assert("resolution_digest"@.len() == 17);
}

/// A note is found again by its path, its title, its aliases and its
/// references.
pub proof fn law_note_is_recorded(note: ParsedKnowledgeNote)
    ensures
        ({
            let r = JsonView::Record(note_fields(note));
            &&& r.field("path"@) == Some(JsonView::Text(note.path@))
            &&& r.field("title"@) == Some(JsonView::Text(note.title@))
            &&& r.field("aliases"@) == Some(text_list(views(note.aliases@)))
            &&& r.field("references"@) == Some(
                JsonView::Record(reference_fields(note.references@)),
            )
        }),
{
    lemma_note_keys_differ();
}

/// References are recorded under their fields, each with all of its values.
pub proof fn law_references_are_recorded(
    references: Seq<(String, Vec<String>)>,
    entry: (String, Vec<String>),
    key: Seq<char>,
)
    ensures
        reference_fields(Seq::empty()).dom() =~= Set::empty(),
        reference_fields(references.push(entry)).dom().contains(entry.0@),
        reference_fields(references.push(entry))[entry.0@] == text_list(views(entry.1@)),
        key != entry.0@ ==> (reference_fields(references.push(entry)).dom().contains(key)
            <==> reference_fields(references).dom().contains(key)),
        key != entry.0@ && reference_fields(references).dom().contains(key) ==> reference_fields(
            references.push(entry),
        )[key] == reference_fields(references)[key],
{
    assert(references.push(entry).drop_last() =~= references);
}

/// The catalogue is recorded note by note, each with its collections.
pub proof fn law_catalog_is_recorded(catalog: Seq<CatalogNote>, at: int)
    requires
        0 <= at < catalog.len(),
    ensures
        catalog_list(catalog).len() == catalog.len(),
        catalog_list(catalog)[at].field("path"@) == Some(JsonView::Text(catalog[at].note.path@)),
        catalog_list(catalog)[at].field("title"@) == Some(JsonView::Text(catalog[at].note.title@)),
        catalog_list(catalog)[at].field("aliases"@) == Some(
            text_list(views(catalog[at].note.aliases@)),
        ),
        catalog_list(catalog)[at].field("references"@) == Some(
            JsonView::Record(reference_fields(catalog[at].note.references@)),
        ),
        catalog_list(catalog)[at].field("collection_ids"@) == Some(
            text_list(views(catalog[at].collection_ids@)),
        ),
        catalog_sha(catalog) == text_digest(json_text(JsonView::List(catalog_list(catalog)))),
{
    lemma_note_keys_differ();
}

/// A used note is recorded with a digest of what it is found by, so that a later
/// change of it shows.
pub proof fn law_used_note_is_recorded(n: CatalogNote)
    ensures
        used_record(n).field("path"@) == Some(JsonView::Text(n.note.path@)),
        used_record(n).field("title"@) == Some(JsonView::Text(n.note.title@)),
        used_record(n).field("collection_ids"@) == Some(text_list(views(n.collection_ids@))),
        used_record(n).field("resolution_digest"@) == Some(
            JsonView::Text(text_digest(json_text(JsonView::Record(note_fields(n.note))))),
        ),
{
    lemma_note_keys_differ();
}

proof fn lemma_note_at(catalog: Seq<CatalogNote>, path: Seq<char>)
    ensures
        note_at(catalog, path) is Some ==> catalog.contains(note_at(catalog, path)->0) && note_at(
            catalog,
            path,
        )->0.note.path@ == path,
        note_at(catalog, path) is None <==> forall|i: int|
            0 <= i < catalog.len() ==> (#[trigger] catalog[i]).note.path@ != path,
    decreases catalog.len(),
{
    if catalog.len() > 0 {
        let rest = catalog.drop_first();
        lemma_note_at(rest, path);
        if catalog[0].note.path@ == path {
            assert(catalog.contains(catalog[0]));
        } else if note_at(rest, path) is Some {
            let i = choose|i: int| 0 <= i < rest.len() && rest[i] == note_at(rest, path)->0;
            assert(catalog[i + 1] == rest[i]);
        } else {
            assert forall|i: int| 0 <= i < catalog.len() implies (#[trigger] catalog[i]).note.path@
                != path by {
                if i > 0 {
                    assert(rest[i - 1] == catalog[i]);
                }
            }
        }
    }
}

/// Each used note of the catalogue is recorded, in the order of the paths.
pub proof fn law_used_notes_are_recorded(
    catalog: Seq<CatalogNote>,
    paths: Seq<Seq<char>>,
    path: Seq<char>,
)
    ensures
        used_list(catalog, Seq::empty()).len() == 0,
        (forall|i: int| 0 <= i < catalog.len() ==> (#[trigger] catalog[i]).note.path@ != path)
            ==> used_list(catalog, paths.push(path)) == used_list(catalog, paths),
        !(forall|i: int| 0 <= i < catalog.len() ==> (#[trigger] catalog[i]).note.path@ != path)
            ==> exists|n: CatalogNote| #[trigger]
            catalog.contains(n) && n.note.path@ == path && used_list(catalog, paths.push(path))
                == used_list(catalog, paths).push(used_record(n)),
{
    assert(paths.push(path).drop_last() =~= paths);
    lemma_note_at(catalog, path);
    if note_at(catalog, path) is Some {
        assert(catalog.contains(note_at(catalog, path)->0));
    }
}

/// The keys of collections, selectors and mappings differ.
pub proof fn lemma_rule_record_keys_differ()
    ensures
        "id"@ != "revision_digest"@,
        "id"@ != "field"@,
        "id"@ != "operator"@,
        "id"@ != "value"@,
        "id"@ != "selectors"@,
        "id"@ != "canonical_note_path"@,
        "id"@ != "source_identity"@,
        "id"@ != "source_digest"@,
        "revision_digest"@ != "field"@,
        "revision_digest"@ != "operator"@,
        "revision_digest"@ != "value"@,
        "revision_digest"@ != "selectors"@,
        "revision_digest"@ != "canonical_note_path"@,
        "revision_digest"@ != "source_identity"@,
        "revision_digest"@ != "source_digest"@,
        "field"@ != "operator"@,
        "field"@ != "value"@,
        "field"@ != "selectors"@,
        "field"@ != "canonical_note_path"@,
        "field"@ != "source_identity"@,
        "field"@ != "source_digest"@,
        "operator"@ != "value"@,
        "operator"@ != "selectors"@,
        "operator"@ != "canonical_note_path"@,
        "operator"@ != "source_identity"@,
        "operator"@ != "source_digest"@,
        "value"@ != "selectors"@,
        "value"@ != "canonical_note_path"@,
        "value"@ != "source_identity"@,
        "value"@ != "source_digest"@,
        "selectors"@ != "canonical_note_path"@,
        "selectors"@ != "source_identity"@,
        "selectors"@ != "source_digest"@,
        "canonical_note_path"@ != "source_identity"@,
        "canonical_note_path"@ != "source_digest"@,
        "source_identity"@ != "source_digest"@,
{
    reveal_strlit("id");
    reveal_strlit("revision_digest");
    reveal_strlit("field");
    reveal_strlit("operator");
    reveal_strlit("value");
    reveal_strlit("selectors");
    reveal_strlit("canonical_note_path");
    reveal_strlit("source_identity");
    reveal_strlit("source_digest");
    assert("id"@.len() == 2);
    assert("revision_digest"@.len() == 15);
    assert("field"@.len() == 5);
    assert("operator"@.len() == 8);
    assert("value"@.len() == 5);
    assert("selectors"@.len() == 9);
    assert("canonical_note_path"@.len() == 19);
    assert("source_identity"@.len() == 15);
    assert("source_digest"@.len() == 13);
    assert("revision_digest"@[0] == 'r');
    assert("source_identity"@[0] == 's');
    assert("field"@[0] == 'f');
    assert("value"@[0] == 'v');
}

/// A collection is recorded by its id and its revision.
pub proof fn law_collection_is_recorded(collections: Seq<&KnowledgeCollection>, at: int)
    requires
        0 <= at < collections.len(),
    ensures
        collection_list(collections).len() == collections.len(),
        collection_list(collections)[at].field("id"@) == Some(JsonView::Text(collections[at].id@)),
        collection_list(collections)[at].field("revision_digest"@) == Some(
            JsonView::Text(collections[at].revision_digest@),
        ),
{
    lemma_rule_record_keys_differ();
}

/// A selector is recorded with its field, its operator and its value.
pub proof fn law_selector_is_recorded(selectors: Seq<LinkSelector>, at: int)
    requires
        0 <= at < selectors.len(),
    ensures
        selector_list(selectors).len() == selectors.len(),
        selector_list(selectors)[at].field("field"@) == Some(JsonView::Text(selectors[at].field@)),
        selector_list(selectors)[at].field("operator"@) == Some(
            JsonView::Text(selectors[at].operator@),
        ),
        selector_list(selectors)[at].field("value"@) == Some(JsonView::Text(selectors[at].value@)),
{
    lemma_rule_record_keys_differ();
}

/// A mapping is recorded with its selectors, its note and its source; in a
/// snapshot its id stands with a digest of these.
pub proof fn law_mapping_is_recorded(mappings: Seq<&ContextMapping>, at: int)
    requires
        0 <= at < mappings.len(),
    ensures
        ({
            let m = mappings[at];
            let r = full_mapping_record(m);
            let shown = mapping_list(mappings)[at];
            &&& mapping_list(mappings).len() == mappings.len()
            &&& r.field("id"@) == Some(JsonView::Text(m.id@))
            &&& r.field("selectors"@) == Some(JsonView::List(selector_list(m.selectors@)))
            &&& r.field("canonical_note_path"@) == Some(JsonView::Text(m.canonical_note_path@))
            &&& m.source_identity is Some ==> r.field("source_identity"@) == Some(
                JsonView::Text(m.source_identity->0@),
            )
            &&& m.source_identity is None ==> r.field("source_identity"@) == Some(JsonView::Null)
            &&& m.source_digest is Some ==> r.field("source_digest"@) == Some(
                JsonView::Text(m.source_digest->0@),
            )
            &&& m.source_digest is None ==> r.field("source_digest"@) == Some(JsonView::Null)
            &&& shown.field("id"@) == Some(JsonView::Text(m.id@))
            &&& exists|rule: JsonView|
                shown.field("revision_digest"@) == Some(
                    JsonView::Text(#[trigger] text_digest(json_text(rule))),
                ) && rule.field("selectors"@) == r.field("selectors"@) && rule.field(
                    "canonical_note_path"@,
                ) == r.field("canonical_note_path"@) && rule.field("source_identity"@) == r.field(
                    "source_identity"@,
                ) && rule.field("source_digest"@) == r.field("source_digest"@)
        }),
{
    lemma_rule_record_keys_differ();
    let m = mappings[at];
    let rule = JsonView::Record(mapping_rule(m));
    let shown = mapping_list(mappings)[at];
    assert(shown.field("revision_digest"@) == Some(
        JsonView::Text(text_digest(json_text(rule))),
    ));
    assert(rule.field("selectors"@) == Some(JsonView::List(selector_list(m.selectors@))));
}

/// A framed part begins with its length in eight bytes, the highest first, so
/// that parts that follow each other cannot be taken for others.
pub proof fn law_frames_tell_their_length(bytes: Seq<u8>)
    requires
        bytes.len() <= u64::MAX,
    ensures
        framed(bytes).len() == bytes.len() + 8,
        framed(bytes).skip(8) == bytes,
        framed(bytes)[0] * 0x100_0000_0000_0000 + framed(bytes)[1] * 0x1_0000_0000_0000 + framed(
            bytes,
        )[2] * 0x100_0000_0000 + framed(bytes)[3] * 0x1_0000_0000 + framed(bytes)[4] * 0x100_0000
            + framed(bytes)[5] * 0x1_0000 + framed(bytes)[6] * 0x100 + framed(bytes)[7]
            == bytes.len(),
{
    let n = bytes.len() as u64;
    let head = big_endian(n);
    assert(head.len() == 8);
    assert(framed(bytes).skip(8) =~= bytes);
    lemma_bytes_of(n);
    assert forall|i: int| 0 <= i < 8 implies #[trigger] framed(bytes)[i] == head[i] by {}
}

/// The bytes of a number, from the highest to the lowest, make it up again.
#[verifier::spinoff_prover]
#[verifier::rlimit(60)]
proof fn lemma_bytes_of(n: u64)
    ensures
        big_endian(n).len() == 8,
        big_endian(n)[0] * 0x100_0000_0000_0000 + big_endian(n)[1] * 0x1_0000_0000_0000
            + big_endian(n)[2] * 0x100_0000_0000 + big_endian(n)[3] * 0x1_0000_0000 + big_endian(
            n,
        )[4] * 0x100_0000 + big_endian(n)[5] * 0x1_0000 + big_endian(n)[6] * 0x100 + big_endian(
            n,
        )[7] == n,
{
    let high = n / 0x1_0000_0000;
    let low = n % 0x1_0000_0000;
    assert(n / 0x100_0000_0000_0000 == high / 0x100_0000);
    assert(n / 0x1_0000_0000_0000 % 256 == high / 0x1_0000 % 256);
    assert(n / 0x100_0000_0000 % 256 == high / 0x100 % 256);
    assert(n / 0x1_0000_0000 % 256 == high % 256);
    assert(n / 0x100_0000 % 256 == low / 0x100_0000);
    assert(n / 0x1_0000 % 256 == low / 0x1_0000 % 256);
    assert(n / 0x100 % 256 == low / 0x100 % 256);
    assert(n % 256 == low % 256);
    lemma_four_bytes(high);
    lemma_four_bytes(low);
}

#[verifier::spinoff_prover]
#[verifier::rlimit(60)]
proof fn lemma_four_bytes(n: u64)
    requires
        n < 0x1_0000_0000,
    ensures
        n / 0x100_0000 < 256,
        (n / 0x100_0000) * 0x100_0000 + (n / 0x1_0000 % 256) * 0x1_0000 + (n / 0x100 % 256) * 0x100
            + n % 256 == n,
{
}

/// The digest of a configuration takes in the workspace, each enabled
/// collection and each enabled mapping.
pub proof fn law_digest_covers_the_configuration(
    root_binding: Seq<char>,
    collections: Seq<KnowledgeCollection>,
    mappings: Seq<ContextMapping>,
    cs: Seq<&KnowledgeCollection>,
    c: &KnowledgeCollection,
    ms: Seq<&ContextMapping>,
    m: &ContextMapping,
)
    ensures
        configuration_sha(root_binding, collections, mappings) == sha256_hex(
            framed(encode_utf8(root_binding)) + framed_collections(
                ranked(enabled_collections(collections)),
            ) + framed_mappings(ranked(enabled_mappings(mappings))),
        ),
        framed_collections(Seq::empty()).len() == 0,
        framed_collections(cs.push(c)) == framed_collections(cs) + framed(
            encode_utf8(json_text(collection_record(c))),
        ),
        framed_mappings(Seq::empty()).len() == 0,
        framed_mappings(ms.push(m)) == framed_mappings(ms) + framed(
            encode_utf8(json_text(full_mapping_record(m))),
        ),
{
    assert(cs.push(c).drop_last() =~= cs);
    assert(ms.push(m).drop_last() =~= ms);
}

/// Every group that an event belongs to is looked at, once, with the enabled
/// mappings.
pub proof fn law_every_group_is_resolved(
    mappings: Seq<ContextMapping>,
    events: Seq<StoredLogEvent>,
    catalog: CatalogReport,
    existing: Seq<Seq<char>>,
)
    ensures
        exists|ids: Seq<Seq<char>>, all: Seq<&StoredLogEvent>| #[trigger]
            are_groups_of(ids, all, events) && knowledge_outcome(
                mappings,
                events,
                catalog,
                existing,
            ) == outcome(existing, catalog.notes@, ranked(enabled_mappings(mappings)), all, ids),
{
    let all = refs(events);
    let keys = group_keys(all);
    let ids = ordered_set(keys);
    lemma_ordered_set(keys);
    assert forall|i: int| 0 <= i < events.len() implies ids.contains(
        group_key(#[trigger] events[i]),
    ) by {
        assert(keys[i] == group_key(events[i]));
        assert(keys.contains(keys[i]));
    }
    assert forall|k: int| 0 <= k < ids.len() implies belongs_to_some(#[trigger] ids[k], events) by {
        assert(ids.contains(ids[k]));
        assert(keys.contains(ids[k]));
        let i = choose|i: int| 0 <= i < keys.len() && keys[i] == ids[k];
        assert(group_key(events[i]) == ids[k]);
    }
    assert(are_groups_of(ids, all, events));
}

pub open spec fn belongs_to_some(id: Seq<char>, events: Seq<StoredLogEvent>) -> bool {
    exists|i: int| 0 <= i < events.len() && group_key(#[trigger] events[i]) == id
}

/// Whether some ids are those of the groups of events, each once and in order.
pub open spec fn are_groups_of(
    ids: Seq<Seq<char>>,
    all: Seq<&StoredLogEvent>,
    events: Seq<StoredLogEvent>,
) -> bool {
    &&& increasing(ids)
    &&& all.len() == events.len()
    &&& forall|i: int| 0 <= i < events.len() ==> *(#[trigger] all[i]) == events[i]
    &&& forall|i: int| 0 <= i < events.len() ==> ids.contains(group_key(#[trigger] events[i]))
    &&& forall|k: int| 0 <= k < ids.len() ==> belongs_to_some(#[trigger] ids[k], events)
}

/// The members of a group are the events that have its key, in their order.
pub proof fn law_members_of_a_group<'a>(
    events: Seq<&'a StoredLogEvent>,
    event: &'a StoredLogEvent,
    id: Seq<char>,
)
    ensures
        with_key(Seq::empty(), group_keys(Seq::empty()), id).len() == 0,
        group_key(*event) == id ==> with_key(
            events.push(event),
            group_keys(events.push(event)),
            id,
        ) == with_key(events, group_keys(events), id).push(event),
        group_key(*event) != id ==> with_key(
            events.push(event),
            group_keys(events.push(event)),
            id,
        ) == with_key(events, group_keys(events), id),
{
    assert(events.push(event).drop_last() =~= events);
    assert(group_keys(events.push(event)).drop_last() =~= group_keys(events));
}

} // verus!
