//! What is recorded of resolved references, and how a record compares with what is
//! there now.
use crate::context::{
    ContextSnapshot, Fingerprints, all_present, attached_paths, digest_at, field_of_items,
    freshness, has_references, items_of, links_attached, note_unchanged, notes_unchanged,
    public_snapshot, relevant_paths,
};
use crate::digest::{digest, text_digest};
use crate::identity::group_key;
use crate::json::{JsonView, number_view, text_views, texts_in, texts_of_field};
use crate::knowledge::{
    OutcomeView, ResolvedView, breaks_link, event_ids, group_keys, note_link, outcome, with_key,
};
use crate::models::{ContextMapping, KnowledgeCollection, StoredLogEvent};
use crate::ordered::{increasing, lemma_ordered_set, lemma_push_contains, ordered_set};
use crate::resolution::{CatalogNote, ResolutionView, group_resolution};
use crate::revisions::DailyWorkstreamView;
use crate::snapshot::{
    CatalogReport, alias_fields, canonical_ids, catalog_sha, configuration_sha, evidence_fields,
    group_evidence, group_links, link_fields, resolved_record, snapshot_record, text_list,
    under, vault_record,
};
use crate::text::{byte_len, free_of, views};
use vstd::prelude::*;
use vstd::string::*;

verus! {

/// The events of a group.
pub open spec fn members_of<'a>(events: Seq<&'a StoredLogEvent>, id: Seq<char>) -> Seq<&'a StoredLogEvent> {
    events.filter(|e: &StoredLogEvent| group_key(*e) == id)
}

proof fn lemma_members<'a>(events: Seq<&'a StoredLogEvent>, id: Seq<char>)
    ensures
        with_key(events, group_keys(events), id) == members_of(events, id),
    decreases events.len(),
{
    reveal(Seq::filter);
    if events.len() > 0 {
        lemma_members(events.drop_last(), id);
        assert(group_keys(events).drop_last() =~= group_keys(events.drop_last()));
    }
}

/// Whether a text is the link to a note: the path of the note without its
/// extension in double brackets, where that can be a link.
pub open spec fn is_link_to(link: Seq<char>, path: Seq<char>) -> bool {
    exists|name: Seq<char>|
        {
            &&& path == #[trigger] (name + ".md"@)
            &&& link == "[["@ + name + "]]"@
            &&& name.len() > 0
            &&& free_of(name, '\r') && free_of(name, '\n')
            &&& free_of(name, '[') && free_of(name, ']')
            &&& free_of(name, '|') && free_of(name, '#') && free_of(name, '^')
            &&& byte_len(name) + 4 <= 512
        }
}

/// A note is linked by its path without the extension; a path that could not stand
/// in a link has none.
pub proof fn law_link_of_a_note(path: Seq<char>, link: Seq<char>)
    ensures
        note_link(path) == Some(link) <==> is_link_to(link, path),
{
    reveal_strlit(".md");
    let end = ".md"@;
    if note_link(path) == Some(link) {
        let name = path.take(path.len() - 3);
        assert(path.skip(path.len() - 3) == end);
        assert(path =~= name + end);
        assert forall|i: int| 0 <= i < name.len() implies !breaks_link(#[trigger] name[i]) by {}
        assert(is_link_to(link, path)) by {
            assert(free_of(name, '\r') && free_of(name, '\n') && free_of(name, '[') && free_of(
                name,
                ']',
            ) && free_of(name, '|') && free_of(name, '#') && free_of(name, '^'));
        }
    }
    if is_link_to(link, path) {
        let name = choose|name: Seq<char>|
            {
                &&& path == #[trigger] (name + ".md"@)
                &&& link == "[["@ + name + "]]"@
                &&& name.len() > 0
                &&& free_of(name, '\r') && free_of(name, '\n')
                &&& free_of(name, '[') && free_of(name, ']')
                &&& free_of(name, '|') && free_of(name, '#') && free_of(name, '^')
                &&& byte_len(name) + 4 <= 512
            };
        assert(path.skip(path.len() - 3) =~= end);
        assert(path.take(path.len() - 3) =~= name);
        assert forall|i: int| 0 <= i < name.len() implies !breaks_link(#[trigger] name[i]) by {}
    }
}

/// Whether an entry is what is recorded of a group: the note that it was resolved
/// to, the link to it, why, and its events. A group that merges goes by the note,
/// any other by itself.
pub open spec fn is_group_entry(
    existing: Seq<Seq<char>>,
    catalog: Seq<CatalogNote>,
    mappings: Seq<&ContextMapping>,
    events: Seq<&StoredLogEvent>,
    id: Seq<char>,
    entry: ResolvedView,
) -> bool {
    let members = members_of(events, id);
    let found = group_resolution(existing, catalog, mappings, members);
    &&& found is Resolved
    &&& entry.source_group_id == id
    &&& entry.path == found->path
    &&& entry.reason == found->reason
    &&& entry.matched_fields == found->matched_fields
    &&& is_link_to(entry.link, found->path)
    &&& entry.canonical_group_id == (if found->merge_group {
        "canonical:"@ + text_digest(found->path).take(24)
    } else {
        id
    })
    &&& entry.event_ids == Seq::new(members.len(), |i: int| members[i].id@)
}

/// A group is recorded just where it is resolved to a note that can be linked; and
/// nothing else is recorded.
pub proof fn law_resolved_groups_are_recorded(
    existing: Seq<Seq<char>>,
    catalog: Seq<CatalogNote>,
    mappings: Seq<&ContextMapping>,
    events: Seq<&StoredLogEvent>,
    ids: Seq<Seq<char>>,
    entry: ResolvedView,
)
    ensures
        outcome(existing, catalog, mappings, events, ids).resolved.contains(entry) <==> exists|
            id: Seq<char>,
        | #[trigger]
            ids.contains(id) && is_group_entry(existing, catalog, mappings, events, id, entry),
    decreases ids.len(),
{
    if ids.len() > 0 {
        let init = ids.drop_last();
        let id = ids.last();
        law_resolved_groups_are_recorded(existing, catalog, mappings, events, init, entry);
        assert(ids =~= init.push(id));
        lemma_push_contains(init, id, id);
        assert(ids.contains(id));
        lemma_members(events, id);
        let members = members_of(events, id);
        let before = outcome(existing, catalog, mappings, events, init);
        let after = outcome(existing, catalog, mappings, events, ids);
        let found = group_resolution(existing, catalog, mappings, members);
        assert(event_ids(members) =~= Seq::new(members.len(), |i: int| members[i].id@));
        if exists|o: Seq<char>| #[trigger]
            init.contains(o) && is_group_entry(existing, catalog, mappings, events, o, entry) {
            let o = choose|o: Seq<char>| #[trigger]
                init.contains(o) && is_group_entry(
                    existing,
                    catalog,
                    mappings,
                    events,
                    o,
                    entry,
                );
            lemma_push_contains(init, id, o);
            assert(ids.contains(o));
        }
        if exists|o: Seq<char>| #[trigger]
            ids.contains(o) && is_group_entry(existing, catalog, mappings, events, o, entry) {
            let o = choose|o: Seq<char>| #[trigger]
                ids.contains(o) && is_group_entry(existing, catalog, mappings, events, o, entry);
            lemma_push_contains(init, id, o);
            if init.contains(o) {
                assert(init.contains(o) && is_group_entry(
                    existing,
                    catalog,
                    mappings,
                    events,
                    o,
                    entry,
                ));
            }
        }
        if found is Resolved {
            law_link_of_a_note(found->path, entry.link);
            if let Some(link) = note_link(found->path) {
                law_link_of_a_note(found->path, link);
                let own = after.resolved.last();
                assert(after.resolved == before.resolved.push(own));
                lemma_push_contains(before.resolved, own, entry);
                if is_group_entry(existing, catalog, mappings, events, id, entry) {
                    assert(entry == own);
                }
                assert(is_group_entry(existing, catalog, mappings, events, id, own));
            } else {
                assert(after.resolved == before.resolved);
            }
        } else {
            assert(after.resolved == before.resolved);
        }
    }
}

/// Groups that could mean several notes are counted.
pub proof fn law_ambiguous_groups_are_counted(
    existing: Seq<Seq<char>>,
    catalog: Seq<CatalogNote>,
    mappings: Seq<&ContextMapping>,
    events: Seq<&StoredLogEvent>,
    ids: Seq<Seq<char>>,
)
    ensures
        outcome(existing, catalog, mappings, events, ids).ambiguous == ids.filter(
            |id: Seq<char>|
                group_resolution(existing, catalog, mappings, members_of(events, id))
                    == ResolutionView::Ambiguous,
        ).len(),
    decreases ids.len(),
{
    reveal(Seq::filter);
    if ids.len() > 0 {
        law_ambiguous_groups_are_counted(existing, catalog, mappings, events, ids.drop_last());
        lemma_members(events, ids.last());
    }
}

proof fn lemma_under(groups: Seq<ResolvedView>, id: Seq<char>, g: ResolvedView)
    ensures
        under(groups, id).contains(g) <==> groups.contains(g) && g.canonical_group_id == id,
    decreases groups.len(),
{
    if groups.len() > 0 {
        let init = groups.drop_last();
        lemma_under(init, id, g);
        assert(groups =~= init.push(groups.last()));
        lemma_push_contains(init, groups.last(), g);
        lemma_push_contains(under(init, id), groups.last(), g);
    }
}

proof fn lemma_group_evidence(groups: Seq<ResolvedView>, e: Seq<char>)
    ensures
        group_evidence(groups).contains(e) <==> exists|g: ResolvedView| #[trigger]
            groups.contains(g) && g.event_ids.contains(e),
    decreases groups.len(),
{
    if groups.len() > 0 {
        let init = groups.drop_last();
        let last = groups.last();
        lemma_group_evidence(init, e);
        assert(groups =~= init.push(last));
        let a = group_evidence(init);
        let b = last.event_ids;
        let all = a + b;
        if a.contains(e) {
            let k = choose|k: int| 0 <= k < a.len() && a[k] == e;
            assert(all[k] == e);
            let g = choose|g: ResolvedView| #[trigger]
                init.contains(g) && g.event_ids.contains(e);
            lemma_push_contains(init, last, g);
            assert(groups.contains(g));
        }
        if b.contains(e) {
            let k = choose|k: int| 0 <= k < b.len() && b[k] == e;
            assert(all[a.len() + k] == e);
            lemma_push_contains(init, last, last);
            assert(groups.contains(last));
        }
        if all.contains(e) {
            let k = choose|k: int| 0 <= k < all.len() && all[k] == e;
            if k < a.len() {
                assert(a[k] == e);
            } else {
                assert(b[k - a.len()] == e);
            }
        }
        if exists|g: ResolvedView| #[trigger] groups.contains(g) && g.event_ids.contains(e) {
            let g = choose|g: ResolvedView| #[trigger]
                groups.contains(g) && g.event_ids.contains(e);
            lemma_push_contains(init, last, g);
            if init.contains(g) {
                assert(init.contains(g) && g.event_ids.contains(e));
            }
        }
    }
}

/// Whether a value is the list of some texts.
pub open spec fn is_list_of(value: JsonView, texts: Seq<Seq<char>>) -> bool {
    value == JsonView::List(Seq::new(texts.len(), |i: int| JsonView::Text(texts[i])))
}

/// Whether a list holds some texts, each once and in order.
pub open spec fn lists_texts(value: JsonView, holds: spec_fn(Seq<char>) -> bool) -> bool {
    exists|texts: Seq<Seq<char>>|
        {
            &&& #[trigger] is_list_of(value, texts)
            &&& increasing(texts)
            &&& forall|t: Seq<char>| #[trigger] texts.contains(t) <==> holds(t)
        }
}

proof fn lemma_lists(texts: Seq<Seq<char>>, holds: spec_fn(Seq<char>) -> bool)
    requires
        forall|t: Seq<char>| #[trigger] texts.contains(t) <==> holds(t),
    ensures
        lists_texts(text_list(ordered_set(texts)), holds),
{
    lemma_ordered_set(texts);
    let set = ordered_set(texts);
    assert(text_views(set) =~= Seq::new(set.len(), |i: int| JsonView::Text(set[i])));
    assert(is_list_of(text_list(set), set));
    assert forall|t: Seq<char>| #[trigger] set.contains(t) <==> holds(t) by {
        assert(texts.contains(t) <==> holds(t));
    }
}

/// A workstream is given the links of the groups that go by it, and their events
/// are its evidence: each once and in order, and no others. A workstream that no
/// group goes by is given nothing.
pub proof fn law_workstreams_get_the_links_of_their_groups(
    groups: Seq<ResolvedView>,
    ids: Seq<Seq<char>>,
    id: Seq<char>,
)
    ensures
        link_fields(groups, ids).dom().contains(id) <==> ids.contains(id),
        evidence_fields(groups, ids).dom().contains(id) <==> ids.contains(id),
        ids.contains(id) ==> lists_texts(
            link_fields(groups, ids)[id],
            |l: Seq<char>|
                exists|g: ResolvedView| #[trigger]
                    groups.contains(g) && g.canonical_group_id == id && g.link == l,
        ),
        ids.contains(id) ==> lists_texts(
            evidence_fields(groups, ids)[id],
            |e: Seq<char>|
                exists|g: ResolvedView| #[trigger]
                    groups.contains(g) && g.canonical_group_id == id && g.event_ids.contains(e),
        ),
    decreases ids.len(),
{
    if ids.len() > 0 {
        let init = ids.drop_last();
        law_workstreams_get_the_links_of_their_groups(groups, init, id);
        assert(ids =~= init.push(ids.last()));
        lemma_push_contains(init, ids.last(), id);
        if id == ids.last() {
            let own = under(groups, id);
            let links = group_links(own);
            let holds = |l: Seq<char>|
                exists|g: ResolvedView| #[trigger]
                    groups.contains(g) && g.canonical_group_id == id && g.link == l;
            assert forall|l: Seq<char>| #[trigger] links.contains(l) <==> holds(l) by {
                if links.contains(l) {
                    let k = choose|k: int| 0 <= k < links.len() && links[k] == l;
                    assert(own.contains(own[k]));
                    lemma_under(groups, id, own[k]);
                    assert(groups.contains(own[k]));
                }
                if holds(l) {
                    let g = choose|g: ResolvedView| #[trigger]
                        groups.contains(g) && g.canonical_group_id == id && g.link == l;
                    lemma_under(groups, id, g);
                    let k = choose|k: int| 0 <= k < own.len() && own[k] == g;
                    assert(links[k] == l);
                }
            }
            lemma_lists(links, holds);
            let events = group_evidence(own);
            let cited = |e: Seq<char>|
                exists|g: ResolvedView| #[trigger]
                    groups.contains(g) && g.canonical_group_id == id && g.event_ids.contains(e);
            assert forall|e: Seq<char>| #[trigger] events.contains(e) <==> cited(e) by {
                lemma_group_evidence(own, e);
                if events.contains(e) {
                    let g = choose|g: ResolvedView| #[trigger]
                        own.contains(g) && g.event_ids.contains(e);
                    lemma_under(groups, id, g);
                    assert(groups.contains(g));
                }
                if cited(e) {
                    let g = choose|g: ResolvedView| #[trigger]
                        groups.contains(g) && g.canonical_group_id == id && g.event_ids.contains(
                            e,
                        );
                    lemma_under(groups, id, g);
                    assert(own.contains(g));
                }
            }
            lemma_lists(events, cited);
        }
    }
}

/// A group that goes by a note has that recorded as its other name, and no other
/// group has one.
pub proof fn law_merged_groups_have_another_name(groups: Seq<ResolvedView>, id: Seq<char>)
    ensures
        alias_fields(groups).dom().contains(id) <==> exists|g: ResolvedView| #[trigger]
            groups.contains(g) && g.source_group_id == id && g.canonical_group_id != id,
        alias_fields(groups).dom().contains(id) ==> exists|g: ResolvedView| #[trigger]
            groups.contains(g) && g.source_group_id == id && g.canonical_group_id != id
                && alias_fields(groups)[id] == JsonView::Text(g.canonical_group_id),
    decreases groups.len(),
{
    if groups.len() > 0 {
        let init = groups.drop_last();
        let last = groups.last();
        law_merged_groups_have_another_name(init, id);
        assert(groups =~= init.push(last));
        lemma_push_contains(init, last, last);
        assert(groups.contains(last));
        if alias_fields(init).dom().contains(id) {
            let g = choose|g: ResolvedView| #[trigger]
                init.contains(g) && g.source_group_id == id && g.canonical_group_id != id
                    && alias_fields(init)[id] == JsonView::Text(g.canonical_group_id);
            lemma_push_contains(init, last, g);
            assert(groups.contains(g));
        }
        if exists|g: ResolvedView| #[trigger]
            groups.contains(g) && g.source_group_id == id && g.canonical_group_id != id {
            let g = choose|g: ResolvedView| #[trigger]
                groups.contains(g) && g.source_group_id == id && g.canonical_group_id != id;
            lemma_push_contains(init, last, g);
            if init.contains(g) {
                assert(init.contains(g) && g.source_group_id == id && g.canonical_group_id != id);
            }
        }
    }
}

/// What the model gets of resolved references: the links of all groups, each once
/// and in order, the links of each workstream, the other names of groups, and the
/// word that notes are background only.
pub proof fn law_model_gets_the_resolved_links(result: OutcomeView)
    ensures
        ({
            let told = vault_record(result);
            &&& told.field("candidate_notes"@) is Some
            &&& lists_texts(
                told.field("candidate_notes"@)->0,
                |l: Seq<char>|
                    exists|g: ResolvedView| #[trigger] result.resolved.contains(g) && g.link == l,
            )
            &&& told.field("workstream_links"@) == Some(
                JsonView::Record(
                    link_fields(
                        result.resolved,
                        ordered_set(
                            Seq::new(
                                result.resolved.len(),
                                |i: int| result.resolved[i].canonical_group_id,
                            ),
                        ),
                    ),
                ),
            )
            &&& told.field("group_aliases"@) == Some(
                JsonView::Record(alias_fields(result.resolved)),
            )
            &&& told.field("knowledge"@) is Some
            &&& told.field("knowledge"@)->0.field("context_is_background_only"@) == Some(
                JsonView::Bool(true),
            )
            &&& told.field("knowledge"@)->0.field("excerpts"@) == Some(
                JsonView::List(Seq::empty()),
            )
        }),
{
    reveal_strlit("candidate_notes");
    reveal_strlit("workstream_links");
    reveal_strlit("group_aliases");
    reveal_strlit("knowledge");
    assert("candidate_notes"@.len() == 15);
    assert("workstream_links"@.len() == 16);
    assert("group_aliases"@.len() == 13);
    assert("knowledge"@.len() == 9);
    reveal_strlit("resolver_version");
    reveal_strlit("context_is_background_only");
    reveal_strlit("excerpts");
    assert("resolver_version"@.len() == 16);
    assert("context_is_background_only"@.len() == 26);
    assert("excerpts"@.len() == 8);
    let rs = result.resolved;
    assert(canonical_ids(rs) =~= Seq::new(rs.len(), |i: int| rs[i].canonical_group_id));
    let links = group_links(rs);
    let holds = |l: Seq<char>|
        exists|g: ResolvedView| #[trigger] rs.contains(g) && g.link == l;
    assert forall|l: Seq<char>| #[trigger] links.contains(l) <==> holds(l) by {
        if links.contains(l) {
            let k = choose|k: int| 0 <= k < links.len() && links[k] == l;
            assert(rs.contains(rs[k]));
        }
        if holds(l) {
            let g = choose|g: ResolvedView| #[trigger] rs.contains(g) && g.link == l;
            let k = choose|k: int| 0 <= k < rs.len() && rs[k] == g;
            assert(links[k] == l);
        }
    }
    lemma_lists(links, holds);
}

/// What is recorded of a group can be read from its record.
pub proof fn law_group_record(group: ResolvedView)
    ensures
        ({
            let r = resolved_record(group);
            &&& r.text_field("source_group_id"@) == Some(group.source_group_id)
            &&& r.text_field("canonical_group_id"@) == Some(group.canonical_group_id)
            &&& r.text_field("canonical_note_path"@) == Some(group.path)
            &&& r.text_field("canonical_link"@) == Some(group.link)
            &&& r.text_field("reason"@) == Some(group.reason)
            &&& texts_of_field(r, "matched_fields"@) == group.matched_fields
        }),
{
    reveal_strlit("source_group_id");
    reveal_strlit("canonical_group_id");
    reveal_strlit("canonical_note_path");
    reveal_strlit("canonical_link");
    reveal_strlit("reason");
    reveal_strlit("matched_fields");
    assert("source_group_id"@.len() == 15);
    assert("canonical_group_id"@.len() == 18);
    assert("canonical_note_path"@.len() == 19);
    assert("canonical_link"@.len() == 14);
    assert("reason"@.len() == 6);
    assert("matched_fields"@.len() == 14);
    assert("canonical_link"@[0] == 'c');
    assert("matched_fields"@[0] == 'm');
    lemma_texts_of_list(group.matched_fields);
}

pub proof fn lemma_texts_of_list(texts: Seq<Seq<char>>)
    ensures
        texts_in(text_views(texts)) == texts,
    decreases texts.len(),
{
    let items = text_views(texts);
    if texts.len() == 0 {
        assert(items =~= Seq::<JsonView>::empty());
        assert(texts =~= Seq::<Seq<char>>::empty());
    } else {
        let init = texts.drop_last();
        lemma_texts_of_list(init);
        assert(items.drop_last() =~= text_views(init));
        assert(items.last() == JsonView::Text(texts.last()));
        assert(init.push(texts.last()) =~= texts);
    }
}

/// What was found and what was left out is recorded under its own name.
pub proof fn law_snapshot_records_its_findings(
    root_binding: Seq<char>,
    collections: Seq<KnowledgeCollection>,
    mappings: Seq<ContextMapping>,
    catalog: CatalogReport,
    result: OutcomeView,
)
    ensures
        ({
            let r = snapshot_record(root_binding, collections, mappings, catalog, result);
            let d = r.field("diagnostics"@);
            &&& r.text_field("resolver_version"@) == Some("exact-v1"@)
            &&& r.text_field("root_binding"@) == Some(root_binding)
            &&& r.field("catalog_note_count"@) == Some(number_view(catalog.notes@.len()))
            &&& r.list_field("resolved_groups"@) is Some
            &&& r.list_field("resolved_groups"@)->0.len() == result.resolved.len()
            &&& forall|i: int|
                0 <= i < result.resolved.len() ==> #[trigger] r.list_field(
                    "resolved_groups"@,
                )->0[i] == resolved_record(result.resolved[i])
            &&& r.field("group_aliases"@) == Some(JsonView::Record(alias_fields(result.resolved)))
            &&& r.text_field("catalog_digest"@) == Some(catalog_sha(catalog.notes@))
            &&& r.text_field("configuration_digest"@) == Some(
                configuration_sha(root_binding, collections, mappings),
            )
            &&& d is Some
            &&& d->0.field("missing_roots"@) == Some(text_list(views(catalog.missing_roots@)))
            &&& d->0.field("oversized_note_count"@) == Some(
                number_view(catalog.oversized_note_count as nat),
            )
            &&& d->0.field("unreadable_note_count"@) == Some(
                number_view(catalog.unreadable_note_count as nat),
            )
            &&& d->0.field("invalid_note_count"@) == Some(
                number_view(catalog.invalid_note_count as nat),
            )
            &&& d->0.field("invalid_mapping_count"@) == Some(number_view(result.invalid))
            &&& d->0.field("ambiguous_group_count"@) == Some(number_view(result.ambiguous))
        }),
{
    reveal_strlit("schema_version");
    reveal_strlit("resolver_version");
    reveal_strlit("root_binding");
    reveal_strlit("configuration_digest");
    reveal_strlit("collections");
    reveal_strlit("mappings");
    reveal_strlit("catalog_digest");
    reveal_strlit("catalog_note_count");
    reveal_strlit("used_notes");
    reveal_strlit("resolved_groups");
    reveal_strlit("group_aliases");
    reveal_strlit("workstream_links");
    reveal_strlit("workstream_evidence");
    reveal_strlit("diagnostics");
    assert("schema_version"@.len() == 14);
    assert("resolver_version"@.len() == 16);
    assert("root_binding"@.len() == 12);
    assert("configuration_digest"@.len() == 20);
    assert("collections"@.len() == 11);
    assert("mappings"@.len() == 8);
    assert("catalog_digest"@.len() == 14);
    assert("catalog_note_count"@.len() == 18);
    assert("used_notes"@.len() == 10);
    assert("resolved_groups"@.len() == 15);
    assert("group_aliases"@.len() == 13);
    assert("workstream_links"@.len() == 16);
    assert("workstream_evidence"@.len() == 19);
    assert("diagnostics"@.len() == 11);
    assert("schema_version"@[0] == 's');
    assert("catalog_digest"@[0] == 'c');
    assert("resolver_version"@[0] == 'r');
    assert("workstream_links"@[0] == 'w');
    assert("collections"@[0] == 'c');
    assert("diagnostics"@[0] == 'd');
    reveal_strlit("missing_roots");
    reveal_strlit("oversized_note_count");
    reveal_strlit("unreadable_note_count");
    reveal_strlit("invalid_note_count");
    reveal_strlit("invalid_mapping_count");
    reveal_strlit("ambiguous_group_count");
    assert("missing_roots"@.len() == 13);
    assert("oversized_note_count"@.len() == 20);
    assert("unreadable_note_count"@.len() == 21);
    assert("invalid_note_count"@.len() == 18);
    assert("invalid_mapping_count"@.len() == 21);
    assert("ambiguous_group_count"@.len() == 21);
    assert("unreadable_note_count"@[0] == 'u');
    assert("invalid_mapping_count"@[0] == 'i');
    assert("ambiguous_group_count"@[0] == 'a');
}

/// Whether a revision depends on a note: on those that it has excerpts of or, where
/// it has none, on those whose links stand in its workstreams.
pub open spec fn depends_on(payload: JsonView, ws: Seq<DailyWorkstreamView>, path: Seq<char>) -> bool {
    if exists|i: int| #[trigger] excerpt_names(payload, i, None) {
        exists|i: int| #[trigger] excerpt_names(payload, i, Some(path))
    } else {
        exists|i: int| #[trigger] group_attaches(payload, ws, i, path)
    }
}

/// Whether an excerpt names a note, or any where none is given.
pub open spec fn excerpt_names(payload: JsonView, i: int, path: Option<Seq<char>>) -> bool {
    &&& payload.list_field("excerpts"@) is Some
    &&& 0 <= i < payload.list_field("excerpts"@)->0.len()
    &&& payload.list_field("excerpts"@)->0[i].text_field("note_path"@) is Some
    &&& path is Some ==> payload.list_field("excerpts"@)->0[i].text_field("note_path"@) == path
}

/// Whether the link of a recorded group stands in its workstream.
pub open spec fn group_attaches(
    payload: JsonView,
    ws: Seq<DailyWorkstreamView>,
    i: int,
    path: Seq<char>,
) -> bool {
    &&& payload.list_field("resolved_groups"@) is Some
    &&& 0 <= i < payload.list_field("resolved_groups"@)->0.len()
    &&& {
        let g = payload.list_field("resolved_groups"@)->0[i];
        &&& g.text_field("canonical_note_path"@) == Some(path)
        &&& g.text_field("canonical_group_id"@) is Some
        &&& g.text_field("canonical_link"@) is Some
        &&& exists|k: int| #[trigger]
            is_last_with_id(ws, k, g.text_field("canonical_group_id"@)->0) && ws[k].links.contains(
                g.text_field("canonical_link"@)->0,
            )
    }
}

/// Whether a workstream is the last with an ID.
pub open spec fn is_last_with_id(ws: Seq<DailyWorkstreamView>, k: int, id: Seq<char>) -> bool {
    &&& 0 <= k < ws.len()
    &&& ws[k].work.id == id
    &&& forall|j: int| k < j < ws.len() ==> (#[trigger] ws[j]).work.id != id
}

proof fn lemma_links_attached(ws: Seq<DailyWorkstreamView>, id: Seq<char>, link: Seq<char>)
    ensures
        links_attached(ws, id).contains(link) <==> exists|k: int| #[trigger]
            is_last_with_id(ws, k, id) && ws[k].links.contains(link),
    decreases ws.len(),
{
    if ws.len() > 0 {
        let init = ws.drop_last();
        lemma_links_attached(init, id, link);
        let n = ws.len() - 1;
        if ws.last().work.id == id {
            assert(is_last_with_id(ws, n, id));
            if exists|k: int| #[trigger] is_last_with_id(ws, k, id) && ws[k].links.contains(link) {
                let k = choose|k: int| #[trigger]
                    is_last_with_id(ws, k, id) && ws[k].links.contains(link);
                if k < n {
                    assert(ws[n].work.id != id);
                }
            }
        } else {
            if links_attached(init, id).contains(link) {
                let k = choose|k: int| #[trigger]
                    is_last_with_id(init, k, id) && init[k].links.contains(link);
                assert(is_last_with_id(ws, k, id)) by {
                    assert forall|j: int| k < j < ws.len() implies (#[trigger] ws[j]).work.id
                        != id by {
                        if j < n {
                            assert(init[j] == ws[j]);
                        }
                    }
                }
            }
            if exists|k: int| #[trigger] is_last_with_id(ws, k, id) && ws[k].links.contains(link) {
                let k = choose|k: int| #[trigger]
                    is_last_with_id(ws, k, id) && ws[k].links.contains(link);
                assert(is_last_with_id(init, k, id)) by {
                    assert forall|j: int| k < j < init.len() implies (#[trigger] init[j]).work.id
                        != id by {
                        assert(init[j] == ws[j]);
                    }
                }
            }
        }
    }
}

proof fn lemma_field_of_items(items: Seq<JsonView>, key: Seq<char>, v: Seq<char>)
    ensures
        field_of_items(items, key).contains(v) <==> exists|i: int|
            0 <= i < items.len() && (#[trigger] items[i]).text_field(key) == Some(v),
        field_of_items(items, key).len() > 0 <==> exists|i: int|
            0 <= i < items.len() && (#[trigger] items[i]).text_field(key) is Some,
    decreases items.len(),
{
    if items.len() > 0 {
        let init = items.drop_last();
        let last = items.last();
        let n = items.len() - 1;
        lemma_field_of_items(init, key, v);
        assert(items[n] == last);
        let before = field_of_items(init, key);
        if last.text_field(key) is Some {
            lemma_push_contains(before, last.text_field(key)->0, v);
        }
        if exists|i: int| 0 <= i < init.len() && (#[trigger] init[i]).text_field(key) == Some(v) {
            let i = choose|i: int|
                0 <= i < init.len() && (#[trigger] init[i]).text_field(key) == Some(v);
            assert(items[i].text_field(key) == Some(v));
        }
        if exists|i: int| 0 <= i < init.len() && (#[trigger] init[i]).text_field(key) is Some {
            let i = choose|i: int|
                0 <= i < init.len() && (#[trigger] init[i]).text_field(key) is Some;
            assert(items[i].text_field(key) is Some);
        }
        if exists|i: int| 0 <= i < items.len() && (#[trigger] items[i]).text_field(key) == Some(v) {
            let i = choose|i: int|
                0 <= i < items.len() && (#[trigger] items[i]).text_field(key) == Some(v);
            if i < n {
                assert(init[i].text_field(key) == Some(v));
            }
        }
        if exists|i: int| 0 <= i < items.len() && (#[trigger] items[i]).text_field(key) is Some {
            let i = choose|i: int|
                0 <= i < items.len() && (#[trigger] items[i]).text_field(key) is Some;
            if i < n {
                assert(init[i].text_field(key) is Some);
            }
        }
    }
}

spec fn item_attaches(g: JsonView, ws: Seq<DailyWorkstreamView>, path: Seq<char>) -> bool {
    &&& g.text_field("canonical_note_path"@) == Some(path)
    &&& g.text_field("canonical_group_id"@) is Some
    &&& g.text_field("canonical_link"@) is Some
    &&& links_attached(ws, g.text_field("canonical_group_id"@)->0).contains(
        g.text_field("canonical_link"@)->0,
    )
}

proof fn lemma_attached_paths(groups: Seq<JsonView>, ws: Seq<DailyWorkstreamView>, path: Seq<char>)
    ensures
        attached_paths(groups, ws).contains(path) <==> exists|i: int|
            0 <= i < groups.len() && item_attaches(#[trigger] groups[i], ws, path),
    decreases groups.len(),
{
    if groups.len() > 0 {
        let init = groups.drop_last();
        let last = groups.last();
        let n = groups.len() - 1;
        assert(groups[n] == last);
        lemma_attached_paths(init, ws, path);
        let before = attached_paths(init, ws);
        if last.text_field("canonical_note_path"@) is Some {
            lemma_push_contains(before, last.text_field("canonical_note_path"@)->0, path);
        }
        if exists|i: int| 0 <= i < init.len() && item_attaches(#[trigger] init[i], ws, path) {
            let i = choose|i: int|
                0 <= i < init.len() && item_attaches(#[trigger] init[i], ws, path);
            assert(item_attaches(groups[i], ws, path));
        }
        if exists|i: int| 0 <= i < groups.len() && item_attaches(#[trigger] groups[i], ws, path) {
            let i = choose|i: int|
                0 <= i < groups.len() && item_attaches(#[trigger] groups[i], ws, path);
            if i < n {
                assert(item_attaches(init[i], ws, path));
            }
        }
    }
}

/// The notes that a revision depends on are those that it has excerpts of or,
/// where it has none, those whose links stand in its workstreams.
pub proof fn law_notes_that_a_revision_depends_on(
    payload: JsonView,
    ws: Seq<DailyWorkstreamView>,
    path: Seq<char>,
)
    ensures
        relevant_paths(payload, ws).contains(path) <==> depends_on(payload, ws, path),
{
    let items = items_of(payload, "excerpts"@);
    let named = field_of_items(items, "note_path"@);
    let groups = items_of(payload, "resolved_groups"@);
    let attached = attached_paths(groups, ws);
    lemma_field_of_items(items, "note_path"@, path);
    lemma_ordered_set(named);
    lemma_ordered_set(attached);
    lemma_attached_paths(groups, ws, path);
    if named.len() > 0 {
        assert(named.contains(named[0]));
        assert(ordered_set(named).contains(named[0]));
        let i = choose|i: int|
            0 <= i < items.len() && (#[trigger] items[i]).text_field("note_path"@) is Some;
        assert(excerpt_names(payload, i, None));
        if named.contains(path) {
            let k = choose|k: int|
                0 <= k < items.len() && (#[trigger] items[k]).text_field("note_path"@) == Some(
                    path,
                );
            assert(excerpt_names(payload, k, Some(path)));
        }
        if exists|k: int| #[trigger] excerpt_names(payload, k, Some(path)) {
            let k = choose|k: int| #[trigger] excerpt_names(payload, k, Some(path));
            assert(items[k].text_field("note_path"@) == Some(path));
        }
    } else {
        if ordered_set(named).len() > 0 {
            assert(ordered_set(named).contains(ordered_set(named)[0]));
        }
        if exists|i: int| #[trigger] excerpt_names(payload, i, None) {
            let i = choose|i: int| #[trigger] excerpt_names(payload, i, None);
            assert(items[i].text_field("note_path"@) is Some);
        }
        if attached.contains(path) {
            let i = choose|i: int|
                0 <= i < groups.len() && item_attaches(#[trigger] groups[i], ws, path);
            let g = groups[i];
            lemma_links_attached(
                ws,
                g.text_field("canonical_group_id"@)->0,
                g.text_field("canonical_link"@)->0,
            );
            assert(group_attaches(payload, ws, i, path));
        }
        if exists|i: int| #[trigger] group_attaches(payload, ws, i, path) {
            let i = choose|i: int| #[trigger] group_attaches(payload, ws, i, path);
            let g = groups[i];
            lemma_links_attached(
                ws,
                g.text_field("canonical_group_id"@)->0,
                g.text_field("canonical_link"@)->0,
            );
            assert(item_attaches(groups[i], ws, path));
        }
    }
}

/// Whether a note that was used reads otherwise now: what is known last of its text
/// is not what was frozen.
pub open spec fn reads_otherwise(note: JsonView, digests: Seq<(String, String)>) -> bool {
    &&& note.text_field("path"@) is Some
    &&& note.text_field("usable_digest"@) is Some
    &&& !exists|k: int| #[trigger]
        is_last_digest(digests, k, note.text_field("path"@)->0) && digests[k].1@
            == note.text_field("usable_digest"@)->0
}

/// Whether a digest is the last for a path.
pub open spec fn is_last_digest(digests: Seq<(String, String)>, k: int, path: Seq<char>) -> bool {
    &&& 0 <= k < digests.len()
    &&& digests[k].0@ == path
    &&& forall|j: int| k < j < digests.len() ==> (#[trigger] digests[j]).0@ != path
}

proof fn lemma_digest_at(digests: Seq<(String, String)>, path: Seq<char>, digest: Seq<char>)
    ensures
        digest_at(digests, path) == Some(digest) <==> exists|k: int| #[trigger]
            is_last_digest(digests, k, path) && digests[k].1@ == digest,
    decreases digests.len(),
{
    if digests.len() > 0 {
        let init = digests.drop_last();
        let n = digests.len() - 1;
        lemma_digest_at(init, path, digest);
        if digests.last().0@ == path {
            assert(is_last_digest(digests, n, path));
            if exists|k: int| #[trigger]
                is_last_digest(digests, k, path) && digests[k].1@ == digest {
                let k = choose|k: int| #[trigger]
                    is_last_digest(digests, k, path) && digests[k].1@ == digest;
                if k < n {
                    assert(digests[n].0@ != path);
                }
            }
        } else {
            if digest_at(init, path) == Some(digest) {
                let k = choose|k: int| #[trigger]
                    is_last_digest(init, k, path) && init[k].1@ == digest;
                assert(is_last_digest(digests, k, path)) by {
                    assert forall|j: int| k < j < digests.len() implies (
                    #[trigger] digests[j]).0@ != path by {
                        if j < n {
                            assert(init[j] == digests[j]);
                        }
                    }
                }
            }
            if exists|k: int| #[trigger]
                is_last_digest(digests, k, path) && digests[k].1@ == digest {
                let k = choose|k: int| #[trigger]
                    is_last_digest(digests, k, path) && digests[k].1@ == digest;
                assert(is_last_digest(init, k, path)) by {
                    assert forall|j: int| k < j < init.len() implies (#[trigger] init[j]).0@
                        != path by {
                        assert(init[j] == digests[j]);
                    }
                }
            }
        }
    }
}

/// Whether a frozen context is just what it would be now: made by the same rules,
/// in the same place, from the same configuration and catalog, and every note that
/// it used reads the same.
pub open spec fn is_what_it_would_be(
    payload: JsonView,
    now: Fingerprints,
    expected_resolver: Seq<char>,
    root_binding: Seq<char>,
) -> bool {
    &&& payload.text_field("resolver_version"@) == Some(expected_resolver)
    &&& payload.text_field("root_binding"@) == Some(root_binding)
    &&& payload.text_field("configuration_digest"@) == Some(now.configuration_digest@)
    &&& payload.text_field("catalog_digest"@) == Some(now.catalog_digest@)
    &&& payload.list_field("used_notes"@) is Some ==> forall|i: int|
        0 <= i < payload.list_field("used_notes"@)->0.len() ==> !reads_otherwise(
            #[trigger] payload.list_field("used_notes"@)->0[i],
            now.usable_digests@,
        )
}

/// How a frozen context compares with what is there: without references there is
/// nothing to compare; where nothing can be found out it cannot be told; a note
/// that the revision depends on and that is gone makes it invalid; and else it is
/// current just where it is what it would be now.
pub proof fn law_freshness_of_a_context(
    payload: JsonView,
    ws: Seq<DailyWorkstreamView>,
    configured: bool,
    now: Option<Fingerprints>,
    expected_resolver: Seq<char>,
    root_binding: Seq<char>,
)
    ensures
        ({
            let status = freshness(
                payload,
                ws,
                configured,
                now,
                expected_resolver,
                root_binding,
            ).status;
            let without = payload.text_field("reference_mode"@) == Some("none"@);
            let unresolved = !without && payload.text_field("resolver_version"@) == Some("none"@);
            let compared = !without && !unresolved;
            let gone = exists|p: Seq<char>| #[trigger]
                depends_on(payload, ws, p) && !views(now->0.note_paths@).contains(p);
            &&& status == "none"@ <==> without || (unresolved && !configured)
            &&& status == "unavailable"@ <==> compared && now is None
            &&& status == "invalid"@ <==> compared && now is Some && gone
            &&& status == "current"@ <==> compared && now is Some && !gone && is_what_it_would_be(
                payload,
                now->0,
                expected_resolver,
                root_binding,
            )
            &&& status == "changed"@ <==> (unresolved && configured) || (compared && now is Some
                && !gone && !is_what_it_would_be(payload, now->0, expected_resolver, root_binding))
        }),
{
    reveal_strlit("none");
    reveal_strlit("unavailable");
    reveal_strlit("invalid");
    reveal_strlit("current");
    reveal_strlit("changed");
    assert("none"@.len() == 4);
    assert("unavailable"@.len() == 11);
    assert("invalid"@.len() == 7);
    assert("current"@.len() == 7);
    assert("changed"@.len() == 7);
    assert("invalid"@[0] == 'i');
    assert("current"@[0] == 'c');
    assert("changed"@[0] == 'c');
    assert("current"@[1] == 'u');
    assert("changed"@[1] == 'h');
    if now is Some {
        let paths = relevant_paths(payload, ws);
        let there = views(now->0.note_paths@);
        let gone = exists|p: Seq<char>| #[trigger] depends_on(payload, ws, p) && !there.contains(p);
        assert(all_present(paths, there) <==> !gone) by {
            if gone {
                let p = choose|p: Seq<char>| #[trigger]
                    depends_on(payload, ws, p) && !there.contains(p);
                law_notes_that_a_revision_depends_on(payload, ws, p);
                let i = choose|i: int| 0 <= i < paths.len() && paths[i] == p;
                assert(!there.contains(paths[i]));
            }
            if !all_present(paths, there) {
                let i = choose|i: int| 0 <= i < paths.len() && !there.contains(#[trigger] paths[i]);
                assert(paths.contains(paths[i]));
                law_notes_that_a_revision_depends_on(payload, ws, paths[i]);
            }
        }
        let used = items_of(payload, "used_notes"@);
        let digests = now->0.usable_digests@;
        assert forall|n: JsonView| #[trigger] note_unchanged(n, digests) == !reads_otherwise(
            n,
            digests,
        ) by {
            if n.text_field("path"@) is Some && n.text_field("usable_digest"@) is Some {
                lemma_digest_at(
                    digests,
                    n.text_field("path"@)->0,
                    n.text_field("usable_digest"@)->0,
                );
            }
        }
        assert(notes_unchanged(used, digests) <==> (payload.list_field("used_notes"@) is Some
            ==> forall|i: int|
            0 <= i < payload.list_field("used_notes"@)->0.len() ==> !reads_otherwise(
                #[trigger] payload.list_field("used_notes"@)->0[i],
                digests,
            ))) by {
            if notes_unchanged(used, digests) && payload.list_field("used_notes"@) is Some {
                assert forall|i: int|
                    0 <= i < payload.list_field("used_notes"@)->0.len() implies !reads_otherwise(
                    #[trigger] payload.list_field("used_notes"@)->0[i],
                    digests,
                ) by {
                    assert(note_unchanged(used[i], digests));
                }
            }
        }
    }
}

/// References are configured just where a collection or a mapping is enabled.
pub proof fn law_enabled_references_count(
    collections: Seq<KnowledgeCollection>,
    mappings: Seq<ContextMapping>,
)
    ensures
        has_references(collections, mappings) <==> (exists|c: KnowledgeCollection| #[trigger]
            collections.contains(c) && c.enabled) || (exists|m: ContextMapping| #[trigger]
            mappings.contains(m) && m.enabled),
{
    if exists|i: int| 0 <= i < collections.len() && (#[trigger] collections[i]).enabled {
        let i = choose|i: int| 0 <= i < collections.len() && (#[trigger] collections[i]).enabled;
        assert(collections.contains(collections[i]));
    }
    if exists|i: int| 0 <= i < mappings.len() && (#[trigger] mappings[i]).enabled {
        let i = choose|i: int| 0 <= i < mappings.len() && (#[trigger] mappings[i]).enabled;
        assert(mappings.contains(mappings[i]));
    }
    if exists|c: KnowledgeCollection| #[trigger] collections.contains(c) && c.enabled {
        let c = choose|c: KnowledgeCollection| #[trigger] collections.contains(c) && c.enabled;
        let i = choose|i: int| 0 <= i < collections.len() && collections[i] == c;
        assert(collections[i].enabled);
    }
    if exists|m: ContextMapping| #[trigger] mappings.contains(m) && m.enabled {
        let m = choose|m: ContextMapping| #[trigger] mappings.contains(m) && m.enabled;
        let i = choose|i: int| 0 <= i < mappings.len() && mappings[i] == m;
        assert(mappings[i].enabled);
    }
}

/// What is shown of a frozen context are its identity and counts: no path, title or
/// link of a note.
pub proof fn law_contexts_are_shown_as_counts(snapshot: ContextSnapshot, key: Seq<char>)
    ensures
        ({
            let r = public_snapshot(snapshot);
            let p = snapshot.payload@;
            &&& r.field("id"@) == Some(JsonView::Text(snapshot.id@))
            &&& r.field("snapshot_digest"@) == Some(JsonView::Text(snapshot.snapshot_digest@))
            &&& r.field("created_at"@) == Some(JsonView::Text(snapshot.created_at@))
            &&& r.field("used_note_count"@) == Some(number_view(p.length_field("used_notes"@)))
            &&& r.field("resolved_group_count"@) == Some(
                number_view(p.length_field("resolved_groups"@)),
            )
            &&& r.field("excerpt_count"@) == Some(number_view(p.length_field("excerpts"@)))
            &&& r.field(key) is Some ==> key == "id"@ || key == "snapshot_digest"@ || key
                == "created_at"@ || key == "resolver_version"@ || key == "used_note_count"@ || key
                == "resolved_group_count"@ || key == "excerpt_count"@ || key == "diagnostics"@
        }),
{
    reveal_strlit("id");
    reveal_strlit("snapshot_digest");
    reveal_strlit("created_at");
    reveal_strlit("resolver_version");
    reveal_strlit("used_note_count");
    reveal_strlit("resolved_group_count");
    reveal_strlit("excerpt_count");
    reveal_strlit("diagnostics");
    assert("id"@.len() == 2);
    assert("snapshot_digest"@.len() == 15);
    assert("created_at"@.len() == 10);
    assert("resolver_version"@.len() == 16);
    assert("used_note_count"@.len() == 15);
    assert("resolved_group_count"@.len() == 20);
    assert("excerpt_count"@.len() == 13);
    assert("diagnostics"@.len() == 11);
    assert("snapshot_digest"@[0] == 's');
    assert("used_note_count"@[0] == 'u');
}

} // verus!
