//! What holds of every resolution of events to notes.
use crate::models::{ContextMapping, StoredLogEvent};
use crate::ordered::{lemma_ordered_set, ordered_set};
use crate::resolution::{
    CatalogNote, ParsedKnowledgeNote, ResolutionView, alias_matches, automatic_fields,
    automatic_resolution, broken_count, group_identities, group_resolution, has_durable,
    heaviest, is_durable, lighter, mapping_fields, mapping_met, mapping_paths, match_reason,
    matched_fields, matching, named_notes, of_weight, reviewed, title_matches, weight,
};
use vstd::prelude::*;
use vstd::string::*;

verus! {

/// A saved mapping comes before the catalog: where a group meets one, what the
/// catalog holds makes no difference.
pub proof fn law_saved_mapping_comes_first(
    existing: Seq<Seq<char>>,
    catalog: Seq<CatalogNote>,
    other_catalog: Seq<CatalogNote>,
    mappings: Seq<&ContextMapping>,
    events: Seq<&StoredLogEvent>,
)
    requires
        matching(mappings, events).len() > 0,
    ensures
        group_resolution(existing, catalog, mappings, events) == group_resolution(
            existing,
            other_catalog,
            mappings,
            events,
        ),
{
    lemma_some_is_heaviest(matching(mappings, events));
}

/// A saved mapping to a note that is not there gives no link, and does not
/// fall through to a match with the catalog.
pub proof fn law_broken_mapping_gives_no_link(
    existing: Seq<Seq<char>>,
    catalog: Seq<CatalogNote>,
    mappings: Seq<&ContextMapping>,
    events: Seq<&StoredLogEvent>,
    i: int,
)
    requires
        0 <= i < reviewed(mappings, events).len(),
        !existing.contains(reviewed(mappings, events)[i].canonical_note_path@),
    ensures
        group_resolution(existing, catalog, mappings, events) == ResolutionView::Unresolved,
{
    lemma_broken(reviewed(mappings, events), existing, i);
}

/// Saved mappings to different notes, and names that several notes bear, give
/// no link.
pub proof fn law_ambiguity_gives_no_link(
    existing: Seq<Seq<char>>,
    catalog: Seq<CatalogNote>,
    mappings: Seq<&ContextMapping>,
    events: Seq<&StoredLogEvent>,
)
    ensures
        ordered_set(mapping_paths(reviewed(mappings, events))).len() > 1 ==> !(group_resolution(
            existing,
            catalog,
            mappings,
            events,
        ) is Resolved),
        matching(mappings, events).len() == 0 && named_notes(catalog, events).len() > 1
            ==> group_resolution(existing, catalog, mappings, events)
            == ResolutionView::Ambiguous,
{
    assert(matching(mappings, events).len() == 0 ==> reviewed(mappings, events).len() == 0);
}

/// A group is linked only to a note that a saved mapping names and that is
/// there, or to the one note of the catalog that the events name.
pub proof fn law_link_has_a_ground(
    existing: Seq<Seq<char>>,
    catalog: Seq<CatalogNote>,
    mappings: Seq<&ContextMapping>,
    events: Seq<&StoredLogEvent>,
)
    requires
        group_resolution(existing, catalog, mappings, events) is Resolved,
    ensures
        ({
            let path = group_resolution(existing, catalog, mappings, events)->path;
            let chosen = reviewed(mappings, events);
            if chosen.len() > 0 {
                existing.contains(path) && mapping_paths(chosen).contains(path)
            } else {
                named_notes(catalog, events).len() == 1 && named_notes(
                    catalog,
                    events,
                )[0].note.path@ == path
            }
        }),
{
    let chosen = reviewed(mappings, events);
    if chosen.len() > 0 {
        let paths = ordered_set(mapping_paths(chosen));
        lemma_ordered_set(mapping_paths(chosen));
        assert(paths.contains(paths[0]));
        let i = choose|i: int|
            0 <= i < mapping_paths(chosen).len() && mapping_paths(chosen)[i] == paths[0];
        if !existing.contains(chosen[i].canonical_note_path@) {
            lemma_broken(chosen, existing, i);
        }
    }
}

/// The mappings that decide are met by the group, and no mapping that is met
/// is more specific.
pub proof fn law_most_specific_mapping_decides(
    mappings: Seq<&ContextMapping>,
    events: Seq<&StoredLogEvent>,
)
    ensures
        forall|i: int|
            0 <= i < reviewed(mappings, events).len() ==> mapping_met(
                *#[trigger] reviewed(mappings, events)[i],
                events,
            ),
        forall|i: int, k: int|
            0 <= i < reviewed(mappings, events).len() && 0 <= k < matching(mappings, events).len()
                ==> !lighter(
                weight(*#[trigger] reviewed(mappings, events)[i]),
                weight(*#[trigger] matching(mappings, events)[k]),
            ),
{
    let met = matching(mappings, events);
    lemma_matching(mappings, events);
    lemma_heaviest(met);
    lemma_of_weight(met, heaviest(met));
    assert forall|i: int| 0 <= i < reviewed(mappings, events).len() implies mapping_met(
        *#[trigger] reviewed(mappings, events)[i],
        events,
    ) by {
        let m = reviewed(mappings, events)[i];
        let k = choose|k: int| 0 <= k < met.len() && met[k] == m;
        assert(mapping_met(*met[k], events));
    }
}

/// Names of sources and branches link nothing by themselves: groups with the
/// same identities in the other fields are resolved the same by the catalog.
pub proof fn law_transient_names_do_not_link(
    catalog: Seq<CatalogNote>,
    events: Seq<&StoredLogEvent>,
    others: Seq<&StoredLogEvent>,
)
    requires
        forall|i: int|
            0 <= i < automatic_fields().len() ==> group_identities(
                events,
                #[trigger] automatic_fields()[i],
            ) == group_identities(others, automatic_fields()[i]),
    ensures
        automatic_resolution(catalog, events) == automatic_resolution(catalog, others),
        !automatic_fields().contains("source"@),
        !automatic_fields().contains("branch"@),
{
    lemma_same_named(catalog, events, others);
    let fields = automatic_fields();
    assert forall|n: ParsedKnowledgeNote| #[trigger]
        match_reason(n, events) == match_reason(n, others) by {
        assert forall|i: int| 0 <= i < fields.len() implies title_matches(
            n,
            events,
            #[trigger] fields[i],
        ) == title_matches(n, others, fields[i]) by {}
        assert forall|i: int| 0 <= i < fields.len() implies alias_matches(
            n,
            events,
            #[trigger] fields[i],
        ) == alias_matches(n, others, fields[i]) by {}
    }
    let named = named_notes(catalog, events);
    if named.len() > 0 {
        lemma_same_fields(named[0].note, events, others, fields);
    }
    reveal_strlit("app");
    reveal_strlit("module");
    reveal_strlit("product");
    reveal_strlit("project");
    reveal_strlit("pull_request");
    reveal_strlit("repo");
    reveal_strlit("service");
    reveal_strlit("work_item");
    reveal_strlit("source");
    reveal_strlit("branch");
    assert("source"@[0] == 's' && "service"@[0] == 's' && "source"@[1] == 'o' && "service"@[1]
        == 'e');
    assert forall|i: int| 0 <= i < fields.len() implies #[trigger] fields[i] != "source"@
        && fields[i] != "branch"@ by {
        assert("branch"@[0] == 'b');
        assert("source"@[1] == 'o');
        if i == 0 {
            assert("app"@[0] == 'a');
        } else if i == 1 {
            assert("module"@[0] == 'm');
        } else if i == 2 {
            assert("product"@[0] == 'p');
        } else if i == 3 {
            assert("project"@[0] == 'p');
        } else if i == 4 {
            assert("pull_request"@[0] == 'p');
        } else if i == 5 {
            assert("repo"@[0] == 'r');
        } else if i == 6 {
            assert("service"@[1] == 'e');
        } else {
            assert("work_item"@[0] == 'w');
        }
    }
}

proof fn lemma_same_fields(
    note: ParsedKnowledgeNote,
    events: Seq<&StoredLogEvent>,
    others: Seq<&StoredLogEvent>,
    fields: Seq<Seq<char>>,
)
    requires
        forall|i: int|
            0 <= i < fields.len() ==> group_identities(events, #[trigger] fields[i])
                == group_identities(others, fields[i]),
    ensures
        matched_fields(note, events, fields) == matched_fields(note, others, fields),
    decreases fields.len(),
{
    if fields.len() > 0 {
        let init = fields.drop_last();
        assert forall|i: int| 0 <= i < init.len() implies group_identities(
            events,
            #[trigger] init[i],
        ) == group_identities(others, init[i]) by {
            assert(init[i] == fields[i]);
        }
        lemma_same_fields(note, events, others, init);
        assert(fields[fields.len() - 1] == fields.last());
    }
}

proof fn lemma_same_named(
    catalog: Seq<CatalogNote>,
    events: Seq<&StoredLogEvent>,
    others: Seq<&StoredLogEvent>,
)
    requires
        forall|i: int|
            0 <= i < automatic_fields().len() ==> group_identities(
                events,
                #[trigger] automatic_fields()[i],
            ) == group_identities(others, automatic_fields()[i]),
    ensures
        named_notes(catalog, events) == named_notes(catalog, others),
    decreases catalog.len(),
{
    if catalog.len() > 0 {
        lemma_same_named(catalog.drop_last(), events, others);
        lemma_same_fields(catalog.last().note, events, others, automatic_fields());
    }
}

proof fn lemma_broken(mappings: Seq<&ContextMapping>, existing: Seq<Seq<char>>, i: int)
    requires
        0 <= i < mappings.len(),
        !existing.contains(mappings[i].canonical_note_path@),
    ensures
        broken_count(mappings, existing) > 0,
    decreases mappings.len(),
{
    if i < mappings.len() - 1 {
        assert(mappings.drop_last()[i] == mappings[i]);
        lemma_broken(mappings.drop_last(), existing, i);
    }
}

proof fn lemma_matching(mappings: Seq<&ContextMapping>, events: Seq<&StoredLogEvent>)
    ensures
        forall|k: int|
            0 <= k < matching(mappings, events).len() ==> mapping_met(
                *#[trigger] matching(mappings, events)[k],
                events,
            ),
    decreases mappings.len(),
{
    if mappings.len() > 0 {
        lemma_matching(mappings.drop_last(), events);
        let before = matching(mappings.drop_last(), events);
        assert forall|k: int| 0 <= k < matching(mappings, events).len() implies mapping_met(
            *#[trigger] matching(mappings, events)[k],
            events,
        ) by {
            if k < before.len() {
                assert(matching(mappings, events)[k] == before[k]);
            }
        }
    }
}

proof fn lemma_heaviest(mappings: Seq<&ContextMapping>)
    ensures
        forall|k: int|
            0 <= k < mappings.len() ==> !lighter(
                heaviest(mappings),
                weight(*#[trigger] mappings[k]),
            ),
    decreases mappings.len(),
{
    if mappings.len() > 0 {
        let init = mappings.drop_last();
        lemma_heaviest(init);
        assert forall|k: int| 0 <= k < mappings.len() implies !lighter(
            heaviest(mappings),
            weight(*#[trigger] mappings[k]),
        ) by {
            if k < init.len() {
                assert(init[k] == mappings[k]);
                assert(!lighter(heaviest(init), weight(*init[k])));
            }
        }
    }
}

/// One of some mappings has the weight of the most specific.
proof fn lemma_some_is_heaviest(mappings: Seq<&ContextMapping>)
    requires
        mappings.len() > 0,
    ensures
        of_weight(mappings, heaviest(mappings)).len() > 0,
{
    lemma_reaches_heaviest(mappings);
    let k = choose|k: int| 0 <= k < mappings.len() && weight(*mappings[k]) == heaviest(mappings);
    lemma_of_weight_has(mappings, heaviest(mappings), k);
}

proof fn lemma_reaches_heaviest(mappings: Seq<&ContextMapping>)
    requires
        mappings.len() > 0,
    ensures
        exists|k: int|
            0 <= k < mappings.len() && weight(*#[trigger] mappings[k]) == heaviest(mappings),
    decreases mappings.len(),
{
    let init = mappings.drop_last();
    let last = mappings.len() - 1;
    assert(mappings[last] == mappings.last());
    if init.len() > 0 {
        lemma_reaches_heaviest(init);
        let k = choose|k: int| 0 <= k < init.len() && weight(*init[k]) == heaviest(init);
        assert(mappings[k] == init[k]);
        if lighter(heaviest(init), weight(*mappings.last())) {
            assert(weight(*mappings[last]) == heaviest(mappings));
        } else {
            assert(weight(*mappings[k]) == heaviest(mappings));
        }
    } else {
        assert(heaviest(init) == (0nat, 0nat));
        if !lighter((0nat, 0nat), weight(*mappings.last())) {
            assert(weight(*mappings[last]) == heaviest(mappings));
        } else {
            assert(weight(*mappings[last]) == heaviest(mappings));
        }
    }
}

proof fn lemma_of_weight_has(mappings: Seq<&ContextMapping>, w: (nat, nat), k: int)
    requires
        0 <= k < mappings.len(),
        weight(*mappings[k]) == w,
    ensures
        of_weight(mappings, w).len() > 0,
    decreases mappings.len(),
{
    if k < mappings.len() - 1 {
        assert(mappings.drop_last()[k] == mappings[k]);
        lemma_of_weight_has(mappings.drop_last(), w, k);
    }
}

proof fn lemma_of_weight(mappings: Seq<&ContextMapping>, w: (nat, nat))
    ensures
        forall|i: int|
            0 <= i < of_weight(mappings, w).len() ==> weight(
                *#[trigger] of_weight(mappings, w)[i],
            ) == w && mappings.contains(of_weight(mappings, w)[i]),
    decreases mappings.len(),
{
    if mappings.len() > 0 {
        let init = mappings.drop_last();
        lemma_of_weight(init, w);
        let before = of_weight(init, w);
        assert forall|i: int| 0 <= i < of_weight(mappings, w).len() implies weight(
            *#[trigger] of_weight(mappings, w)[i],
        ) == w && mappings.contains(of_weight(mappings, w)[i]) by {
            if i < before.len() {
                assert(of_weight(mappings, w)[i] == before[i]);
                let k = choose|k: int| 0 <= k < init.len() && init[k] == before[i];
                assert(mappings[k] == before[i]);
            } else {
                assert(mappings[mappings.len() - 1] == mappings.last());
            }
        }
    }
}

/// Groups are merged under a note only where a work item or a pull request was
/// matched: a broader match links groups and leaves them apart.
pub proof fn law_only_durable_matches_merge(
    existing: Seq<Seq<char>>,
    catalog: Seq<CatalogNote>,
    mappings: Seq<&ContextMapping>,
    events: Seq<&StoredLogEvent>,
)
    ensures
        match group_resolution(existing, catalog, mappings, events) {
            ResolutionView::Resolved { merge_group, matched_fields, .. } => merge_group
                == has_durable(matched_fields),
            _ => true,
        },
{
    lemma_durable_set(mapping_fields(reviewed(mappings, events)));
}

proof fn lemma_durable_set(fields: Seq<Seq<char>>)
    ensures
        has_durable(ordered_set(fields)) == has_durable(fields),
{
    let set = ordered_set(fields);
    lemma_ordered_set(fields);
    if has_durable(fields) {
        let i = choose|i: int| 0 <= i < fields.len() && is_durable(#[trigger] fields[i]);
        assert(fields.contains(fields[i]));
        assert(set.contains(fields[i]));
        let k = choose|k: int| 0 <= k < set.len() && set[k] == fields[i];
        assert(is_durable(set[k]));
    }
    if has_durable(set) {
        let i = choose|i: int| 0 <= i < set.len() && is_durable(#[trigger] set[i]);
        assert(set.contains(set[i]));
        assert(fields.contains(set[i]));
        let k = choose|k: int| 0 <= k < fields.len() && fields[k] == set[i];
        assert(is_durable(fields[k]));
    }
}

} // verus!
