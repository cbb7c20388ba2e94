//! What is kept in a frozen context and read back from it.
use crate::context::{field_of_items, items_of, json_of_optional_str, texts_of_items};
use crate::context_report::{
    KnowledgeExcerptExclusionRequest, exclusion_pair, exclusion_pairs, frozen_exclusions,
    frozen_pairs, law_ordered_pairs_are_a_set, lemma_pair_order, ordered_pairs, pair_precedes,
    pairs_increase,
};
use crate::json::{
    Json, JsonView, empty_list, empty_record, fields_view, json_of_text, json_of_texts,
    list_view, optional_text_view, push_item, put,
};
use crate::knowledge::{OutcomeView, ResolvedView};
use crate::models::{ContextMapping, KnowledgeCollection};
use crate::ordered::{ordered_set, ordered_set_of};
use crate::snapshot::{
    CatalogReport, RESOLVER_VERSION, alias_fields, group_links, link_fields, resolved_list,
    resolved_record, snapshot_record, text_list, vault_record, workstream_ids,
};
use crate::text::lemma_take_step;
use vstd::prelude::*;
use vstd::string::*;

verus! {

/// A field of a record; a record without fields where there is none.
pub open spec fn field_or_empty(value: JsonView, key: Seq<char>) -> JsonView {
    match value.field(key) {
        Some(found) => found,
        None => JsonView::Record(Map::empty()),
    }
}

/// The context for the model that a frozen context stands for: the links of its
/// groups, and its excerpts.
pub open spec fn context_of_snapshot(payload: JsonView) -> JsonView {
    JsonView::Record(
        Map::empty().insert(
            "candidate_notes"@,
            text_list(
                ordered_set(
                    field_of_items(items_of(payload, "resolved_groups"@), "canonical_link"@),
                ),
            ),
        ).insert("workstream_links"@, field_or_empty(payload, "workstream_links"@)).insert(
            "group_aliases"@,
            field_or_empty(payload, "group_aliases"@),
        ).insert(
            "knowledge"@,
            JsonView::Record(
                Map::empty().insert(
                    "resolver_version"@,
                    optional_text_view(payload.text_field("resolver_version"@)),
                ).insert("context_is_background_only"@, JsonView::Bool(true)).insert(
                    "excerpts"@,
                    JsonView::List(items_of(payload, "excerpts"@)),
                ),
            ),
        ),
    )
}

fn copied_field(value: &Json, key: &str) -> (r: Json)
    ensures
        r@ == field_or_empty(value@, key@),
{
    match value.get(key) {
        Some(found) => found.copy(),
        None => Json::Record(empty_record()),
    }
}

fn copied_items(value: &Json, key: &str) -> (r: Json)
    ensures
        r@ == JsonView::List(items_of(value@, key@)),
{
    match value.get(key) {
        Some(found) => match found {
            Json::List(_) => found.copy(),
            _ => Json::List(empty_list()),
        },
        None => Json::List(empty_list()),
    }
}

/// The context for the model that a frozen context stands for.
pub fn vault_context_from_snapshot(payload: &Json) -> (r: Json)
    ensures
        r@ == context_of_snapshot(payload@),
{
    let links = texts_of_items(payload, "resolved_groups", "canonical_link");
    let mut knowledge = empty_record();
    put(
        &mut knowledge,
        "resolver_version",
        json_of_optional_str(payload.get_text("resolver_version")),
    );
    put(&mut knowledge, "context_is_background_only", Json::Bool(true));
    put(&mut knowledge, "excerpts", copied_items(payload, "excerpts"));
    let mut context = empty_record();
    put(&mut context, "candidate_notes", json_of_texts(&ordered_set_of(&links)));
    put(&mut context, "workstream_links", copied_field(payload, "workstream_links"));
    put(&mut context, "group_aliases", copied_field(payload, "group_aliases"));
    put(&mut context, "knowledge", Json::Record(knowledge));
    Json::Record(context)
}

proof fn lemma_resolved_links(groups: Seq<ResolvedView>)
    ensures
        field_of_items(resolved_list(groups), "canonical_link"@) == group_links(groups),
    decreases groups.len(),
{
    let items = resolved_list(groups);
    let links = group_links(groups);
    if groups.len() == 0 {
        assert(items =~= Seq::<JsonView>::empty());
        assert(links =~= Seq::<Seq<char>>::empty());
    } else {
        let init = groups.drop_last();
        lemma_resolved_links(init);
        assert(items.drop_last() =~= resolved_list(init));
        assert(links =~= group_links(init).push(groups.last().link));
        reveal_strlit("canonical_link");
        reveal_strlit("reason");
        reveal_strlit("matched_fields");
        assert("canonical_link"@.len() == 14 && "reason"@.len() == 6);
        assert("canonical_link"@[0] == 'c' && "matched_fields"@[0] == 'm');
        let last = items.last();
        assert(last == resolved_record(groups.last()));
        assert(last.text_field("canonical_link"@) == Some(groups.last().link));
    }
}

/// What a resolution handed to the model is what its frozen record stands for:
/// a candidate can be generated anew from the record alone.
pub proof fn law_frozen_context_is_the_one_resolved(
    root_binding: Seq<char>,
    collections: Seq<KnowledgeCollection>,
    mappings: Seq<ContextMapping>,
    catalog: CatalogReport,
    result: OutcomeView,
)
    ensures
        context_of_snapshot(snapshot_record(root_binding, collections, mappings, catalog, result))
            == vault_record(result),
{
    reveal_strlit("schema_version");
    reveal_strlit("resolver_version");
    reveal_strlit("root_binding");
    reveal_strlit("configuration_digest");
    reveal_strlit("collections");
    reveal_strlit("mappings");
    reveal_strlit("catalog_digest");
    reveal_strlit("catalog_note_count");
    reveal_strlit("used_notes");
    reveal_strlit("resolved_groups");
    reveal_strlit("group_aliases");
    reveal_strlit("workstream_links");
    reveal_strlit("workstream_evidence");
    reveal_strlit("diagnostics");
    reveal_strlit("excerpts");
    let payload = snapshot_record(root_binding, collections, mappings, catalog, result);
    assert("schema_version"@.len() == 14 && "schema_version"@[0] == 's');
    assert("resolver_version"@.len() == 16 && "resolver_version"@[0] == 'r');
    assert("root_binding"@.len() == 12 && "root_binding"@[0] == 'r');
    assert("configuration_digest"@.len() == 20 && "configuration_digest"@[0] == 'c');
    assert("collections"@.len() == 11 && "collections"@[0] == 'c');
    assert("mappings"@.len() == 8 && "mappings"@[0] == 'm');
    assert("catalog_digest"@.len() == 14 && "catalog_digest"@[0] == 'c');
    assert("catalog_note_count"@.len() == 18 && "catalog_note_count"@[0] == 'c');
    assert("used_notes"@.len() == 10 && "used_notes"@[0] == 'u');
    assert("resolved_groups"@.len() == 15 && "resolved_groups"@[0] == 'r');
    assert("group_aliases"@.len() == 13 && "group_aliases"@[0] == 'g');
    assert("workstream_links"@.len() == 16 && "workstream_links"@[0] == 'w');
    assert("workstream_evidence"@.len() == 19 && "workstream_evidence"@[0] == 'w');
    assert("diagnostics"@.len() == 11 && "diagnostics"@[0] == 'd');
    assert("excerpts"@.len() == 8 && "excerpts"@[0] == 'e');
    assert(payload.field("resolved_groups"@) == Some(
        JsonView::List(resolved_list(result.resolved)),
    ));
    assert(payload.field("group_aliases"@) == Some(
        JsonView::Record(alias_fields(result.resolved)),
    ));
    assert(payload.field("workstream_links"@) == Some(
        JsonView::Record(link_fields(result.resolved, workstream_ids(result))),
    ));
    assert(payload.field("resolver_version"@) == Some(JsonView::Text(RESOLVER_VERSION@)));
    assert(payload.field("excerpts"@) is None);
    lemma_resolved_links(result.resolved);
}

/// An exclusion as it is kept.
pub open spec fn exclusion_record(pair: (Seq<char>, Seq<char>)) -> JsonView {
    JsonView::Record(
        Map::empty().insert("workstream_id"@, JsonView::Text(pair.0)).insert(
            "note_path"@,
            JsonView::Text(pair.1),
        ),
    )
}

pub open spec fn exclusion_records(pairs: Seq<(Seq<char>, Seq<char>)>) -> Seq<JsonView> {
    pairs.map_values(|pair: (Seq<char>, Seq<char>)| exclusion_record(pair))
}

/// A context that was made with some exclusions; without any it is left as it
/// is.
pub open spec fn with_exclusions(
    payload: Map<Seq<char>, JsonView>,
    pairs: Seq<(Seq<char>, Seq<char>)>,
) -> Map<Seq<char>, JsonView> {
    if pairs.len() == 0 {
        payload
    } else {
        payload.insert("applied_exclusions"@, JsonView::List(exclusion_records(pairs)))
    }
}

/// Notes in a context which exclusions it was made with.
pub fn keep_exclusions(
    payload: &mut Vec<(String, Json)>,
    exclusions: &Vec<KnowledgeExcerptExclusionRequest>,
)
    ensures
        fields_view(final(payload)@) == with_exclusions(
            fields_view(old(payload)@),
            exclusion_pairs(exclusions@),
        ),
{
    let ghost pairs = exclusion_pairs(exclusions@);
    assert(pairs.len() == exclusions@.len());
    if exclusions.len() == 0 {
        return ;
    }
    let ghost all = exclusion_records(pairs);
    let mut items = empty_list();
    let mut i: usize = 0;
    assert(list_view(items@) =~= all.take(0));
    while i < exclusions.len()
        invariant
            i <= exclusions@.len(),
            pairs == exclusion_pairs(exclusions@),
            all == exclusion_records(pairs),
            list_view(items@) == all.take(i as int),
        decreases exclusions@.len() - i,
    {
        proof {
            lemma_take_step(all, i as int);
            assert(pairs[i as int] == exclusion_pair(exclusions@[i as int]));
        }
        let mut fields = empty_record();
        put(&mut fields, "workstream_id", json_of_text(exclusions[i].workstream_id.as_str()));
        put(&mut fields, "note_path", json_of_text(exclusions[i].note_path.as_str()));
        push_item(&mut items, Json::Record(fields));
        i += 1;
    }
    assert(all.take(i as int) =~= all);
    put(payload, "applied_exclusions", Json::List(items));
}

proof fn lemma_kept_pairs(pairs: Seq<(Seq<char>, Seq<char>)>)
    ensures
        frozen_pairs(exclusion_records(pairs)) == pairs,
    decreases pairs.len(),
{
    let items = exclusion_records(pairs);
    if pairs.len() == 0 {
        assert(items =~= Seq::<JsonView>::empty());
        assert(pairs =~= Seq::<(Seq<char>, Seq<char>)>::empty());
    } else {
        let init = pairs.drop_last();
        let pair = pairs.last();
        lemma_kept_pairs(init);
        assert(items.drop_last() =~= exclusion_records(init));
        assert(items.last() == exclusion_record(pair));
        reveal_strlit("workstream_id");
        reveal_strlit("note_path");
        assert("workstream_id"@.len() == 13 && "note_path"@.len() == 9);
        assert(exclusion_record(pair).text_field("workstream_id"@) == Some(pair.0));
        assert(exclusion_record(pair).text_field("note_path"@) == Some(pair.1));
        assert(init.push(pair) =~= pairs);
    }
}

proof fn lemma_ordered_already(pairs: Seq<(Seq<char>, Seq<char>)>)
    requires
        pairs_increase(pairs),
    ensures
        ordered_pairs(pairs) == pairs,
    decreases pairs.len(),
{
    if pairs.len() == 0 {
        assert(pairs =~= Seq::<(Seq<char>, Seq<char>)>::empty());
    } else {
        let init = pairs.drop_last();
        assert(pairs_increase(init)) by {
            assert forall|i: int, j: int| 0 <= i < j < init.len() implies pair_precedes(
                #[trigger] init[i],
                #[trigger] init[j],
            ) by {
                assert(pair_precedes(pairs[i], pairs[j]));
            }
        }
        lemma_ordered_already(init);
        assert(init.push(pairs.last()) =~= pairs);
        if init.len() == 0 {
            assert(init =~= Seq::<(Seq<char>, Seq<char>)>::empty());
            assert(seq![pairs.last()] =~= pairs);
        } else {
            assert(pair_precedes(pairs[init.len() - 1], pairs[pairs.len() - 1]));
            assert(init.last() == pairs[init.len() - 1]);
            lemma_pair_order(init.last(), init.last(), init.last());
        }
    }
}

/// The exclusions that a context was made with are read back from it, each once
/// and in order.
pub proof fn law_kept_exclusions_are_read_back(
    payload: Map<Seq<char>, JsonView>,
    requested: Seq<(Seq<char>, Seq<char>)>,
)
    ensures
        requested.len() > 0 ==> frozen_exclusions(
            JsonView::Record(with_exclusions(payload, ordered_pairs(requested))),
        ) == ordered_pairs(requested),
{
    let pairs = ordered_pairs(requested);
    law_ordered_pairs_are_a_set(requested);
    if requested.len() > 0 {
        assert(requested.contains(requested[0]));
        assert(pairs.contains(requested[0]));
        assert(pairs.len() > 0);
        lemma_kept_pairs(pairs);
        lemma_ordered_already(pairs);
        let kept = JsonView::Record(with_exclusions(payload, pairs));
        assert(kept.field("applied_exclusions"@) == Some(JsonView::List(exclusion_records(pairs))));
    }
}

} // verus!
