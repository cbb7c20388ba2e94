//! What a saved mapping and the name of a note are matched against, and what is
//! linked then.
use crate::json::JsonView;
use crate::models::{ContextMapping, LinkSelector, StoredLogEvent};
use crate::ordered::{
    increasing, lemma_ordered_set, lemma_precedes_irreflexive, lemma_push_contains, ordered_set,
    precedes,
};
use crate::resolution::{
    CatalogNote, ParsedKnowledgeNote, ResolutionView, alias_matches, automatic_fields,
    broken_count, event_meets, event_values, exact_count, group_identities, group_resolution,
    group_values, has_durable, heaviest, is_durable, lighter, mapping_fields, mapping_met,
    mapping_paths, matched_fields, matching, named_notes, nonempty, normal_identity, of_weight,
    reference_named, references_in, reviewed, scalars, scalars_in, scalars_of_field,
    selector_fields, selector_met, shares, title_matches, value_meets, weight,
};
use crate::text::{lowercased, occurs, trimmed, views};
use vstd::prelude::*;
use vstd::string::*;

verus! {

/// The fields of an event that hold names of their own.
pub open spec fn is_named_field(field: Seq<char>) -> bool {
    ||| field == "repo"@
    ||| field == "project"@
    ||| field == "product"@
    ||| field == "app"@
    ||| field == "service"@
    ||| field == "work_item"@
    ||| field == "pull_request"@
    ||| field == "branch"@
}

proof fn lemma_field_names()
    ensures
        "source"@ != "module"@,
        forall|f: Seq<char>| #[trigger] is_named_field(f) ==> f != "source"@ && f != "module"@,
{
    reveal_strlit("source");
    reveal_strlit("module");
    reveal_strlit("repo");
    reveal_strlit("project");
    reveal_strlit("product");
    reveal_strlit("app");
    reveal_strlit("service");
    reveal_strlit("work_item");
    reveal_strlit("pull_request");
    reveal_strlit("branch");
    assert("source"@[0] == 's' && "source"@[1] == 'o' && "module"@[0] == 'm');
    assert("repo"@[0] == 'r' && "project"@[0] == 'p' && "product"@[0] == 'p' && "app"@[0] == 'a');
    assert("service"@[1] == 'e' && "service"@[0] == 's' && "work_item"@[0] == 'w');
    assert("pull_request"@[0] == 'p' && "branch"@[0] == 'b');
}

/// What a metadata field says: a text says itself, a number how it is written,
/// and a list what its items say; anything else says nothing.
pub proof fn law_scalars_of_a_value(value: JsonView)
    ensures
        match value {
            JsonView::Text(s) => scalars(value) == seq![trimmed(s)],
            JsonView::Number(n) => scalars(value) == seq![n],
            JsonView::List(items) => forall|v: Seq<char>| #[trigger]
                scalars(value).contains(v) <==> exists|i: int|
                    0 <= i < items.len() && scalars(#[trigger] items[i]).contains(v),
            _ => scalars(value).len() == 0,
        },
{
    if let JsonView::List(items) = value {
        assert forall|v: Seq<char>| #[trigger] scalars(value).contains(v) <==> exists|i: int|
            0 <= i < items.len() && scalars(#[trigger] items[i]).contains(v) by {
            lemma_scalars_in(items, v);
        }
    }
}

proof fn lemma_add_contains(a: Seq<Seq<char>>, b: Seq<Seq<char>>, v: Seq<char>)
    ensures
        (a + b).contains(v) <==> a.contains(v) || b.contains(v),
{
    let all = a + b;
    if a.contains(v) {
        let k = choose|k: int| 0 <= k < a.len() && a[k] == v;
        assert(all[k] == v);
    }
    if b.contains(v) {
        let k = choose|k: int| 0 <= k < b.len() && b[k] == v;
        assert(all[a.len() + k] == v);
    }
    if all.contains(v) {
        let k = choose|k: int| 0 <= k < all.len() && all[k] == v;
        if k < a.len() {
            assert(a[k] == v);
        } else {
            assert(b[k - a.len()] == v);
        }
    }
}

proof fn lemma_scalars_in(items: Seq<JsonView>, v: Seq<char>)
    ensures
        scalars_in(items).contains(v) <==> exists|i: int|
            0 <= i < items.len() && scalars(#[trigger] items[i]).contains(v),
    decreases items.len(),
{
    if items.len() > 0 {
        let init = items.drop_last();
        lemma_scalars_in(init, v);
        lemma_add_contains(scalars_in(init), scalars(items.last()), v);
        if scalars_in(init).contains(v) {
            let i = choose|i: int| 0 <= i < init.len() && scalars(#[trigger] init[i]).contains(v);
            assert(scalars(items[i]).contains(v));
        }
        if scalars(items.last()).contains(v) {
            assert(scalars(items[items.len() - 1]).contains(v));
        }
        if exists|i: int| 0 <= i < items.len() && scalars(#[trigger] items[i]).contains(v) {
            let i = choose|i: int| 0 <= i < items.len() && scalars(#[trigger] items[i]).contains(v);
            if i < init.len() {
                assert(scalars(init[i]).contains(v));
            }
        }
    }
}

/// Where an event gives its names: its source, its modules under two keys, and
/// every other name under the key that it is called by; no other field gives
/// any.
pub proof fn law_names_of_an_event(event: StoredLogEvent, field: Seq<char>)
    ensures
        field == "source"@ ==> event_values(event, field) == seq![trimmed(event.source@)],
        is_named_field(field) ==> event_values(event, field) == (match event.field(field) {
            Some(value) => scalars(value),
            None => Seq::empty(),
        }),
        field == "module"@ ==> forall|v: Seq<char>| #[trigger]
            event_values(event, field).contains(v) <==> (event.field("module"@) is Some && scalars(
                event.field("module"@)->0,
            ).contains(v)) || (event.field("modules"@) is Some && scalars(
                event.field("modules"@)->0,
            ).contains(v)),
        field != "source"@ && field != "module"@ && !is_named_field(field) ==> event_values(
            event,
            field,
        ).len() == 0,
{
    lemma_field_names();
    if field == "module"@ {
        let a = scalars_of_field(event, "module"@);
        let b = scalars_of_field(event, "modules"@);
        assert forall|v: Seq<char>| #[trigger] event_values(event, field).contains(v) <==> (
        event.field("module"@) is Some && scalars(event.field("module"@)->0).contains(v)) || (
        event.field("modules"@) is Some && scalars(event.field("modules"@)->0).contains(v)) by {
            lemma_add_contains(a, b, v);
        }
    }
}

proof fn lemma_operators_differ()
    ensures
        "exact"@ != "contains"@,
{
    reveal_strlit("exact");
    reveal_strlit("contains");
    assert("exact"@.len() != "contains"@.len());
}

/// An exact selector is met by an event just where the event gives, in the
/// selector's field, a name that is the selector's value but for case and white
/// space at the ends. A name that is longer or shorter does not meet it.
pub proof fn law_exact_selector_needs_the_whole_name(selector: LinkSelector, event: StoredLogEvent)
    requires
        selector.operator@ == "exact"@,
    ensures
        selector_met(selector, event) <==> exists|v: Seq<char>| #[trigger]
            event_values(event, selector.field@).contains(v) && v.len() > 0 && lowercased(
                trimmed(v),
            ) == lowercased(trimmed(selector.value@)),
        (forall|v: Seq<char>| #[trigger]
            event_values(event, selector.field@).contains(v) ==> lowercased(trimmed(v)).len()
                != lowercased(trimmed(selector.value@)).len()) ==> !selector_met(selector, event),
{
    let values = event_values(event, selector.field@);
    if selector_met(selector, event) {
        let i = choose|i: int|
            0 <= i < values.len() && (#[trigger] values[i]).len() > 0 && value_meets(
                values[i],
                selector,
            );
        assert(values.contains(values[i]));
    }
    if exists|v: Seq<char>| #[trigger]
        values.contains(v) && v.len() > 0 && lowercased(trimmed(v)) == lowercased(
            trimmed(selector.value@),
        ) {
        let v = choose|v: Seq<char>| #[trigger]
            values.contains(v) && v.len() > 0 && lowercased(trimmed(v)) == lowercased(
                trimmed(selector.value@),
            );
        let i = choose|i: int| 0 <= i < values.len() && values[i] == v;
        assert(values[i].len() > 0 && value_meets(values[i], selector));
    }
}

/// A selector by part is met just where a name holds the selector's value
/// somewhere, without regard to case; and no other operator is ever met.
pub proof fn law_partial_selector_needs_a_part(selector: LinkSelector, event: StoredLogEvent)
    ensures
        selector.operator@ == "contains"@ ==> (selector_met(selector, event) <==> exists|
            v: Seq<char>,
        | #[trigger]
            event_values(event, selector.field@).contains(v) && v.len() > 0 && occurs(
                lowercased(trimmed(v)),
                lowercased(trimmed(selector.value@)),
            )),
        selector.operator@ != "exact"@ && selector.operator@ != "contains"@ ==> !selector_met(
            selector,
            event,
        ),
{
    lemma_operators_differ();
    let values = event_values(event, selector.field@);
    let part = lowercased(trimmed(selector.value@));
    if selector.operator@ == "contains"@ {
        if selector_met(selector, event) {
            let i = choose|i: int|
                0 <= i < values.len() && (#[trigger] values[i]).len() > 0 && value_meets(
                    values[i],
                    selector,
                );
            assert(values.contains(values[i]));
        }
        if exists|v: Seq<char>| #[trigger]
            values.contains(v) && v.len() > 0 && occurs(lowercased(trimmed(v)), part) {
            let v = choose|v: Seq<char>| #[trigger]
                values.contains(v) && v.len() > 0 && occurs(lowercased(trimmed(v)), part);
            let i = choose|i: int| 0 <= i < values.len() && values[i] == v;
            assert(values[i].len() > 0 && value_meets(values[i], selector));
        }
    }
}

/// Whether an event meets every one of some selectors.
pub open spec fn meets_each(selectors: Seq<LinkSelector>, event: StoredLogEvent) -> bool {
    forall|k: int| 0 <= k < selectors.len() ==> selector_met(#[trigger] selectors[k], event)
}

/// A mapping is met by a group just where one event of the group meets every
/// selector of it: what several events say apart does not add up.
pub proof fn law_one_event_meets_every_selector(
    mapping: ContextMapping,
    events: Seq<&StoredLogEvent>,
)
    ensures
        mapping_met(mapping, events) <==> exists|i: int|
            0 <= i < events.len() && meets_each(mapping.selectors@, *#[trigger] events[i]),
{
    if mapping_met(mapping, events) {
        let i = choose|i: int|
            0 <= i < events.len() && event_meets(mapping, *#[trigger] events[i]);
        assert(meets_each(mapping.selectors@, *events[i]));
    }
    if exists|i: int|
        0 <= i < events.len() && meets_each(mapping.selectors@, *#[trigger] events[i]) {
        let i = choose|i: int|
            0 <= i < events.len() && meets_each(mapping.selectors@, *#[trigger] events[i]);
        assert(event_meets(mapping, *events[i]));
    }
}

proof fn lemma_matching_is_met(
    mappings: Seq<&ContextMapping>,
    events: Seq<&StoredLogEvent>,
    m: &ContextMapping,
)
    ensures
        matching(mappings, events).contains(m) <==> mappings.contains(m) && mapping_met(*m, events),
    decreases mappings.len(),
{
    if mappings.len() > 0 {
        let init = mappings.drop_last();
        lemma_matching_is_met(init, events, m);
        assert(mappings =~= init.push(mappings.last()));
        lemma_push_contains(init, mappings.last(), m);
        lemma_push_contains(matching(init, events), mappings.last(), m);
    }
}

proof fn lemma_of_weight_is(mappings: Seq<&ContextMapping>, w: (nat, nat), m: &ContextMapping)
    ensures
        of_weight(mappings, w).contains(m) <==> mappings.contains(m) && weight(*m) == w,
    decreases mappings.len(),
{
    if mappings.len() > 0 {
        let init = mappings.drop_last();
        lemma_of_weight_is(init, w, m);
        assert(mappings =~= init.push(mappings.last()));
        lemma_push_contains(init, mappings.last(), m);
        lemma_push_contains(of_weight(init, w), mappings.last(), m);
    }
}

proof fn lemma_heaviest_is(mappings: Seq<&ContextMapping>, m: &ContextMapping)
    requires
        mappings.contains(m),
    ensures
        !lighter(heaviest(mappings), weight(*m)),
        exists|k: int|
            0 <= k < mappings.len() && weight(*#[trigger] mappings[k]) == heaviest(mappings),
    decreases mappings.len(),
{
    let init = mappings.drop_last();
    let last = mappings.len() - 1;
    assert(mappings =~= init.push(mappings.last()));
    lemma_push_contains(init, mappings.last(), m);
    assert(mappings[last] == mappings.last());
    if init.len() > 0 {
        assert(init.contains(init[0]));
        lemma_heaviest_is(init, init[0]);
        let k = choose|k: int| 0 <= k < init.len() && weight(*#[trigger] init[k]) == heaviest(init);
        assert(mappings[k] == init[k]);
        if init.contains(m) {
            lemma_heaviest_is(init, m);
        }
        if lighter(heaviest(init), weight(*mappings.last())) {
            assert(weight(*mappings[last]) == heaviest(mappings));
        } else {
            assert(weight(*mappings[k]) == heaviest(mappings));
        }
    } else {
        assert(heaviest(init) == (0nat, 0nat));
        assert(weight(*mappings[last]) == heaviest(mappings));
    }
}

/// The number of selectors of a mapping that ask for the whole name.
pub open spec fn whole_names(selectors: Seq<LinkSelector>) -> nat {
    selectors.filter(|s: LinkSelector| s.operator@ == "exact"@).len()
}

proof fn lemma_whole_names(selectors: Seq<LinkSelector>)
    ensures
        exact_count(selectors) == whole_names(selectors),
    decreases selectors.len(),
{
    let exact = |s: LinkSelector| s.operator@ == "exact"@;
    reveal(Seq::filter);
    if selectors.len() > 0 {
        lemma_whole_names(selectors.drop_last());
    }
}

/// Whether a mapping says more than another: it has more selectors, or as many
/// and more of them ask for the whole name.
pub open spec fn says_more(a: ContextMapping, b: ContextMapping) -> bool {
    ||| a.selectors@.len() > b.selectors@.len()
    ||| a.selectors@.len() == b.selectors@.len() && whole_names(a.selectors@) > whole_names(
        b.selectors@,
    )
}

/// The mappings that decide on a group are just those that the group meets and
/// that no other mapping which it meets says more than.
pub proof fn law_mapping_that_says_most_decides(
    mappings: Seq<&ContextMapping>,
    events: Seq<&StoredLogEvent>,
    m: &ContextMapping,
)
    ensures
        reviewed(mappings, events).contains(m) <==> {
            &&& mappings.contains(m)
            &&& mapping_met(*m, events)
            &&& forall|o: &ContextMapping| #[trigger]
                mappings.contains(o) && mapping_met(*o, events) ==> !says_more(*o, *m)
        },
{
    let met = matching(mappings, events);
    let top = heaviest(met);
    lemma_matching_is_met(mappings, events, m);
    lemma_of_weight_is(met, top, m);
    lemma_whole_names(m.selectors@);
    if reviewed(mappings, events).contains(m) {
        assert forall|o: &ContextMapping| #[trigger]
            mappings.contains(o) && mapping_met(*o, events) implies !says_more(*o, *m) by {
            lemma_matching_is_met(mappings, events, o);
            lemma_heaviest_is(met, o);
            lemma_whole_names(o.selectors@);
        }
    }
    if met.contains(m) && (forall|o: &ContextMapping| #[trigger]
        mappings.contains(o) && mapping_met(*o, events) ==> !says_more(*o, *m)) {
        lemma_heaviest_is(met, m);
        let k = choose|k: int| 0 <= k < met.len() && weight(*#[trigger] met[k]) == top;
        assert(met.contains(met[k]));
        lemma_matching_is_met(mappings, events, met[k]);
        lemma_whole_names(met[k].selectors@);
        assert(!says_more(*met[k], *m));
    }
}

proof fn lemma_nothing_broken(mappings: Seq<&ContextMapping>, existing: Seq<Seq<char>>)
    requires
        forall|m: &ContextMapping| #[trigger]
            mappings.contains(m) ==> existing.contains(m.canonical_note_path@),
    ensures
        broken_count(mappings, existing) == 0,
    decreases mappings.len(),
{
    if mappings.len() > 0 {
        let init = mappings.drop_last();
        assert(mappings =~= init.push(mappings.last()));
        assert forall|m: &ContextMapping| #[trigger] init.contains(m) implies existing.contains(
            m.canonical_note_path@,
        ) by {
            lemma_push_contains(init, mappings.last(), m);
            assert(mappings.contains(m));
        }
        lemma_nothing_broken(init, existing);
        lemma_push_contains(init, mappings.last(), mappings.last());
        assert(mappings.contains(mappings.last()));
    }
}

proof fn lemma_mapping_fields(mappings: Seq<&ContextMapping>, field: Seq<char>)
    ensures
        mapping_fields(mappings).contains(field) <==> exists|m: &ContextMapping, k: int|
            mappings.contains(m) && 0 <= k < m.selectors@.len() && (
            #[trigger] m.selectors@[k]).field@ == field,
    decreases mappings.len(),
{
    if mappings.len() > 0 {
        let init = mappings.drop_last();
        let last = mappings.last();
        lemma_mapping_fields(init, field);
        assert(mappings =~= init.push(last));
        let own = selector_fields(last.selectors@);
        lemma_add_contains(mapping_fields(init), own, field);
        if own.contains(field) {
            let k = choose|k: int| 0 <= k < own.len() && own[k] == field;
            lemma_push_contains(init, last, last);
            assert(mappings.contains(last) && last.selectors@[k].field@ == field);
        }
        if mapping_fields(init).contains(field) {
            let (m, k) = choose|m: &ContextMapping, k: int|
                init.contains(m) && 0 <= k < m.selectors@.len() && (
                #[trigger] m.selectors@[k]).field@ == field;
            lemma_push_contains(init, last, m);
            assert(mappings.contains(m) && m.selectors@[k].field@ == field);
        }
        if exists|m: &ContextMapping, k: int|
            mappings.contains(m) && 0 <= k < m.selectors@.len() && (
            #[trigger] m.selectors@[k]).field@ == field {
            let (m, k) = choose|m: &ContextMapping, k: int|
                mappings.contains(m) && 0 <= k < m.selectors@.len() && (
                #[trigger] m.selectors@[k]).field@ == field;
            lemma_push_contains(init, last, m);
            if init.contains(m) {
                assert(init.contains(m) && m.selectors@[k].field@ == field);
            } else {
                assert(own[k] == field);
            }
        }
    }
}

/// Where the mappings that decide on a group all name one note that is there,
/// the group is linked to it, by a saved mapping. What was matched are the fields
/// of their selectors; groups merge under the note just where one of these is a
/// work item or a pull request.
pub proof fn law_saved_mapping_links_its_note(
    existing: Seq<Seq<char>>,
    catalog: Seq<CatalogNote>,
    mappings: Seq<&ContextMapping>,
    events: Seq<&StoredLogEvent>,
    path: Seq<char>,
)
    requires
        reviewed(mappings, events).len() > 0,
        forall|m: &ContextMapping| #[trigger]
            reviewed(mappings, events).contains(m) ==> m.canonical_note_path@ == path,
        existing.contains(path),
    ensures
        ({
            let chosen = reviewed(mappings, events);
            let found = group_resolution(existing, catalog, mappings, events);
            &&& found is Resolved
            &&& found->path == path
            &&& found->reason == "saved_mapping"@
            &&& found->merge_group <==> exists|m: &ContextMapping, k: int|
                chosen.contains(m) && 0 <= k < m.selectors@.len() && ((
                #[trigger] m.selectors@[k]).field@ == "work_item"@ || m.selectors@[k].field@
                    == "pull_request"@)
            &&& forall|f: Seq<char>| #[trigger]
                found->matched_fields.contains(f) <==> exists|m: &ContextMapping, k: int|
                    chosen.contains(m) && 0 <= k < m.selectors@.len() && (
                    #[trigger] m.selectors@[k]).field@ == f
        }),
{
    let chosen = reviewed(mappings, events);
    let paths = mapping_paths(chosen);
    assert forall|m: &ContextMapping| #[trigger] chosen.contains(m) implies existing.contains(
        m.canonical_note_path@,
    ) by {}
    lemma_nothing_broken(chosen, existing);
    lemma_ordered_set(paths);
    let set = ordered_set(paths);
    assert(chosen.contains(chosen[0]));
    assert(paths[0] == path);
    assert(paths.contains(path));
    assert(set.contains(path));
    assert forall|i: int| 0 <= i < set.len() implies #[trigger] set[i] == path by {
        assert(set.contains(set[i]));
        let k = choose|k: int| 0 <= k < paths.len() && paths[k] == set[i];
        assert(chosen.contains(chosen[k]));
    }
    if set.len() > 1 {
        assert(precedes(set[0], set[1]));
        lemma_precedes_irreflexive(path);
    }
    assert(set.len() == 1 && set[0] == path);
    let fields = mapping_fields(chosen);
    lemma_ordered_set(fields);
    assert forall|f: Seq<char>| #[trigger]
        ordered_set(fields).contains(f) <==> exists|m: &ContextMapping, k: int|
            chosen.contains(m) && 0 <= k < m.selectors@.len() && (
            #[trigger] m.selectors@[k]).field@ == f by {
        lemma_mapping_fields(chosen, f);
        assert(ordered_set(fields).contains(f) <==> fields.contains(f));
    }
    if has_durable(fields) {
        let i = choose|i: int| 0 <= i < fields.len() && is_durable(#[trigger] fields[i]);
        assert(fields.contains(fields[i]));
        lemma_mapping_fields(chosen, fields[i]);
    }
    if exists|m: &ContextMapping, k: int|
        chosen.contains(m) && 0 <= k < m.selectors@.len() && ((#[trigger] m.selectors@[k]).field@
            == "work_item"@ || m.selectors@[k].field@ == "pull_request"@) {
        let (m, k) = choose|m: &ContextMapping, k: int|
            chosen.contains(m) && 0 <= k < m.selectors@.len() && ((
            #[trigger] m.selectors@[k]).field@ == "work_item"@ || m.selectors@[k].field@
                == "pull_request"@);
        lemma_mapping_fields(chosen, m.selectors@[k].field@);
        let i = choose|i: int| 0 <= i < fields.len() && fields[i] == m.selectors@[k].field@;
        assert(is_durable(fields[i]));
    }
}

/// Mappings that decide and name different notes that are all there leave it
/// open which one is meant.
pub proof fn law_different_mapped_notes_are_ambiguous(
    existing: Seq<Seq<char>>,
    catalog: Seq<CatalogNote>,
    mappings: Seq<&ContextMapping>,
    events: Seq<&StoredLogEvent>,
    a: &ContextMapping,
    b: &ContextMapping,
)
    requires
        reviewed(mappings, events).contains(a),
        reviewed(mappings, events).contains(b),
        a.canonical_note_path@ != b.canonical_note_path@,
        forall|m: &ContextMapping| #[trigger]
            reviewed(mappings, events).contains(m) ==> existing.contains(m.canonical_note_path@),
    ensures
        group_resolution(existing, catalog, mappings, events) == ResolutionView::Ambiguous,
{
    let chosen = reviewed(mappings, events);
    let paths = mapping_paths(chosen);
    lemma_nothing_broken(chosen, existing);
    lemma_ordered_set(paths);
    let i = choose|i: int| 0 <= i < chosen.len() && chosen[i] == a;
    let k = choose|k: int| 0 <= k < chosen.len() && chosen[k] == b;
    assert(paths[i] == a.canonical_note_path@ && paths[k] == b.canonical_note_path@);
    assert(paths.contains(paths[i]) && paths.contains(paths[k]));
    let set = ordered_set(paths);
    assert(set.contains(paths[i]) && set.contains(paths[k]));
}

proof fn lemma_group_values(events: Seq<&StoredLogEvent>, field: Seq<char>, v: Seq<char>)
    ensures
        group_values(events, field).contains(v) <==> exists|i: int|
            0 <= i < events.len() && event_values(*#[trigger] events[i], field).contains(v),
    decreases events.len(),
{
    if events.len() > 0 {
        let init = events.drop_last();
        lemma_group_values(init, field, v);
        lemma_add_contains(group_values(init, field), event_values(*events.last(), field), v);
        if group_values(init, field).contains(v) {
            let i = choose|i: int|
                0 <= i < init.len() && event_values(*#[trigger] init[i], field).contains(v);
            assert(event_values(*events[i], field).contains(v));
        }
        if event_values(*events.last(), field).contains(v) {
            assert(event_values(*events[events.len() - 1], field).contains(v));
        }
        if exists|i: int|
            0 <= i < events.len() && event_values(*#[trigger] events[i], field).contains(v) {
            let i = choose|i: int|
                0 <= i < events.len() && event_values(*#[trigger] events[i], field).contains(v);
            if i < init.len() {
                assert(event_values(*init[i], field).contains(v));
            }
        }
    }
}

proof fn lemma_nonempty(xs: Seq<Seq<char>>, v: Seq<char>)
    ensures
        nonempty(xs).contains(v) <==> xs.contains(v) && v.len() > 0,
    decreases xs.len(),
{
    if xs.len() > 0 {
        let init = xs.drop_last();
        lemma_nonempty(init, v);
        assert(xs =~= init.push(xs.last()));
        lemma_push_contains(init, xs.last(), v);
        lemma_push_contains(nonempty(init), xs.last(), v);
    }
}

/// The names that a group gives in a field are the names that its events give,
/// each once and in order; an empty name is none.
pub proof fn law_names_of_a_group(events: Seq<&StoredLogEvent>, field: Seq<char>)
    ensures
        increasing(group_identities(events, field)),
        forall|v: Seq<char>| #[trigger]
            group_identities(events, field).contains(v) <==> v.len() > 0 && exists|i: int|
                0 <= i < events.len() && event_values(*#[trigger] events[i], field).contains(v),
{
    let values = group_values(events, field);
    lemma_ordered_set(nonempty(values));
    assert forall|v: Seq<char>| #[trigger]
        group_identities(events, field).contains(v) <==> v.len() > 0 && exists|i: int|
            0 <= i < events.len() && event_values(*#[trigger] events[i], field).contains(v) by {
        lemma_nonempty(values, v);
        lemma_group_values(events, field, v);
    }
}

/// Whether a group gives, in a field, a name that is `name` but for case and
/// white space at the ends.
pub open spec fn group_gives(events: Seq<&StoredLogEvent>, field: Seq<char>, name: Seq<char>) -> bool {
    exists|v: Seq<char>| #[trigger]
        group_identities(events, field).contains(v) && lowercased(trimmed(v)) == lowercased(
            trimmed(name),
        )
}

proof fn lemma_shares(events: Seq<&StoredLogEvent>, field: Seq<char>, names: Seq<Seq<char>>)
    ensures
        shares(group_identities(events, field), names) <==> exists|k: int|
            0 <= k < names.len() && group_gives(events, field, #[trigger] names[k]),
{
    let values = group_identities(events, field);
    if shares(values, names) {
        let (i, k) = choose|i: int, k: int|
            0 <= i < values.len() && 0 <= k < names.len() && normal_identity(#[trigger] values[i])
                == normal_identity(#[trigger] names[k]);
        assert(values.contains(values[i]));
        assert(group_gives(events, field, names[k]));
    }
    if exists|k: int| 0 <= k < names.len() && group_gives(events, field, #[trigger] names[k]) {
        let k = choose|k: int|
            0 <= k < names.len() && group_gives(events, field, #[trigger] names[k]);
        let v = choose|v: Seq<char>| #[trigger]
            values.contains(v) && lowercased(trimmed(v)) == lowercased(trimmed(names[k]));
        let i = choose|i: int| 0 <= i < values.len() && values[i] == v;
        assert(normal_identity(values[i]) == normal_identity(names[k]));
    }
}

/// Whether a note refers to `name` under a field.
pub open spec fn note_refers_to(note: ParsedKnowledgeNote, field: Seq<char>, name: Seq<char>) -> bool {
    exists|k: int|
        0 <= k < note.references@.len() && (#[trigger] note.references@[k]).0@ == field && (forall|
            j: int,
        |
            0 <= j < k ==> (#[trigger] note.references@[j]).0@ != field) && views(
            note.references@[k].1@,
        ).contains(name)
}

proof fn lemma_references(references: Seq<(String, Vec<String>)>, field: Seq<char>)
    ensures
        match first_reference(references, field) {
            Some(k) => {
                &&& 0 <= k < references.len()
                &&& references[k].0@ == field
                &&& forall|j: int| 0 <= j < k ==> (#[trigger] references[j]).0@ != field
                &&& references_in(references, field) == views(references[k].1@)
            },
            None => {
                &&& forall|j: int| 0 <= j < references.len() ==> (#[trigger] references[j]).0@ != field
                &&& references_in(references, field).len() == 0
            },
        },
    decreases references.len(),
{
    if references.len() > 0 && references[0].0@ != field {
        let rest = references.drop_first();
        lemma_references(rest, field);
        match first_reference(rest, field) {
            Some(k) => {
                assert(rest[k] == references[k + 1]);
                assert forall|j: int| 0 <= j < k + 1 implies (#[trigger] references[j]).0@
                    != field by {
                    if j > 0 {
                        assert(references[j] == rest[j - 1]);
                    }
                }
            },
            None => {
                assert forall|j: int| 0 <= j < references.len() implies (
                #[trigger] references[j]).0@ != field by {
                    if j > 0 {
                        assert(references[j] == rest[j - 1]);
                    }
                }
            },
        }
    }
}

spec fn first_reference(references: Seq<(String, Vec<String>)>, field: Seq<char>) -> Option<int>
    decreases references.len(),
{
    if references.len() == 0 {
        None
    } else if references[0].0@ == field {
        Some(0)
    } else {
        match first_reference(references.drop_first(), field) {
            Some(k) => Some(k + 1),
            None => None,
        }
    }
}

/// Whether a group gives the title of a note, one of its aliases, or a name that
/// the note refers to under that field.
pub open spec fn field_names_note(
    note: ParsedKnowledgeNote,
    events: Seq<&StoredLogEvent>,
    field: Seq<char>,
) -> bool {
    ||| group_gives(events, field, note.title@)
    ||| exists|a: Seq<char>| #[trigger]
        views(note.aliases@).contains(a) && group_gives(events, field, a)
    ||| exists|r: Seq<char>| #[trigger]
        note_refers_to(note, field, r) && group_gives(events, field, r)
}

proof fn lemma_title(note: ParsedKnowledgeNote, events: Seq<&StoredLogEvent>, field: Seq<char>)
    ensures
        title_matches(note, events, field) == group_gives(events, field, note.title@),
{
    let names = seq![note.title@];
    lemma_shares(events, field, names);
    assert(names[0] == note.title@);
}

proof fn lemma_alias(note: ParsedKnowledgeNote, events: Seq<&StoredLogEvent>, field: Seq<char>)
    ensures
        alias_matches(note, events, field) <==> exists|a: Seq<char>| #[trigger]
            views(note.aliases@).contains(a) && group_gives(events, field, a),
{
    let names = views(note.aliases@);
    lemma_shares(events, field, names);
    if alias_matches(note, events, field) {
        let k = choose|k: int|
            0 <= k < names.len() && group_gives(events, field, #[trigger] names[k]);
        assert(names.contains(names[k]));
    }
    if exists|a: Seq<char>| #[trigger] names.contains(a) && group_gives(events, field, a) {
        let a = choose|a: Seq<char>| #[trigger]
            names.contains(a) && group_gives(events, field, a);
        let k = choose|k: int| 0 <= k < names.len() && names[k] == a;
        assert(group_gives(events, field, names[k]));
    }
}

proof fn lemma_reference(note: ParsedKnowledgeNote, events: Seq<&StoredLogEvent>, field: Seq<char>)
    ensures
        reference_named(note, events, field) <==> exists|r: Seq<char>| #[trigger]
            note_refers_to(note, field, r) && group_gives(events, field, r),
{
    let all = note.references@;
    let names = references_in(all, field);
    lemma_references(all, field);
    lemma_shares(events, field, names);
    if reference_named(note, events, field) {
        let k = choose|k: int|
            0 <= k < names.len() && group_gives(events, field, #[trigger] names[k]);
        assert(names.contains(names[k]));
        let at = first_reference(all, field)->0;
        assert(all[at].0@ == field);
        assert(note_refers_to(note, field, names[k]));
    }
    if exists|r: Seq<char>| #[trigger]
        note_refers_to(note, field, r) && group_gives(events, field, r) {
        let r = choose|r: Seq<char>| #[trigger]
            note_refers_to(note, field, r) && group_gives(events, field, r);
        let k = choose|k: int|
            0 <= k < all.len() && (#[trigger] all[k]).0@ == field && (forall|j: int|
                0 <= j < k ==> (#[trigger] all[j]).0@ != field) && views(all[k].1@).contains(r);
        let at = first_reference(all, field)->0;
        assert(all[at].0@ == field);
        assert(at == k) by {
            if at < k {
                assert(all[at].0@ != field);
            }
            if k < at {
                assert(all[k].0@ != field);
            }
        }
        let n = choose|n: int| 0 <= n < names.len() && names[n] == r;
        assert(group_gives(events, field, names[n]));
    }
}

proof fn lemma_matched_fields(
    note: ParsedKnowledgeNote,
    events: Seq<&StoredLogEvent>,
    fields: Seq<Seq<char>>,
    f: Seq<char>,
)
    ensures
        matched_fields(note, events, fields).contains(f) <==> fields.contains(f)
            && field_names_note(note, events, f),
    decreases fields.len(),
{
    if fields.len() > 0 {
        let init = fields.drop_last();
        let last = fields.last();
        lemma_matched_fields(note, events, init, f);
        assert(fields =~= init.push(last));
        lemma_push_contains(init, last, f);
        lemma_push_contains(matched_fields(note, events, init), last, f);
        lemma_title(note, events, last);
        lemma_alias(note, events, last);
        lemma_reference(note, events, last);
    }
}

/// The fields in which a note may be named without a saved mapping.
pub open spec fn links_by_itself(field: Seq<char>) -> bool {
    ||| field == "repo"@
    ||| field == "project"@
    ||| field == "product"@
    ||| field == "app"@
    ||| field == "service"@
    ||| field == "module"@
    ||| field == "work_item"@
    ||| field == "pull_request"@
}

proof fn lemma_automatic_fields(f: Seq<char>)
    ensures
        automatic_fields().contains(f) <==> links_by_itself(f),
{
    let all = automatic_fields();
    assert(all[0] == "app"@ && all[1] == "module"@ && all[2] == "product"@ && all[3]
        == "project"@ && all[4] == "pull_request"@ && all[5] == "repo"@ && all[6] == "service"@
        && all[7] == "work_item"@);
}

/// Whether a group names a note.
pub open spec fn group_names_note(note: ParsedKnowledgeNote, events: Seq<&StoredLogEvent>) -> bool {
    exists|f: Seq<char>| #[trigger] links_by_itself(f) && field_names_note(note, events, f)
}

proof fn lemma_names_note(note: ParsedKnowledgeNote, events: Seq<&StoredLogEvent>)
    ensures
        matched_fields(note, events, automatic_fields()).len() > 0 <==> group_names_note(
            note,
            events,
        ),
{
    let found = matched_fields(note, events, automatic_fields());
    if found.len() > 0 {
        assert(found.contains(found[0]));
        lemma_matched_fields(note, events, automatic_fields(), found[0]);
        lemma_automatic_fields(found[0]);
    }
    if group_names_note(note, events) {
        let f = choose|f: Seq<char>| #[trigger]
            links_by_itself(f) && field_names_note(note, events, f);
        lemma_automatic_fields(f);
        lemma_matched_fields(note, events, automatic_fields(), f);
    }
}

proof fn lemma_none_named(catalog: Seq<CatalogNote>, events: Seq<&StoredLogEvent>)
    requires
        forall|k: int|
            0 <= k < catalog.len() ==> !group_names_note(#[trigger] catalog[k].note, events),
    ensures
        named_notes(catalog, events).len() == 0,
    decreases catalog.len(),
{
    if catalog.len() > 0 {
        let init = catalog.drop_last();
        assert forall|k: int| 0 <= k < init.len() implies !group_names_note(
            #[trigger] init[k].note,
            events,
        ) by {
            assert(init[k] == catalog[k]);
        }
        lemma_none_named(init, events);
        assert(catalog[catalog.len() - 1] == catalog.last());
        lemma_names_note(catalog.last().note, events);
    }
}

proof fn lemma_one_named(catalog: Seq<CatalogNote>, events: Seq<&StoredLogEvent>, at: int)
    requires
        0 <= at < catalog.len(),
        forall|k: int|
            0 <= k < catalog.len() ==> (group_names_note(#[trigger] catalog[k].note, events) <==> k
                == at),
    ensures
        named_notes(catalog, events) == seq![catalog[at]],
    decreases catalog.len(),
{
    let init = catalog.drop_last();
    lemma_names_note(catalog.last().note, events);
    assert(catalog[catalog.len() - 1] == catalog.last());
    if at == catalog.len() - 1 {
        assert forall|k: int| 0 <= k < init.len() implies !group_names_note(
            #[trigger] init[k].note,
            events,
        ) by {
            assert(init[k] == catalog[k]);
        }
        lemma_none_named(init, events);
        assert(named_notes(init, events) =~= Seq::<CatalogNote>::empty());
        assert(Seq::<CatalogNote>::empty().push(catalog[at]) =~= seq![catalog[at]]);
    } else {
        assert forall|k: int| 0 <= k < init.len() implies (group_names_note(
            #[trigger] init[k].note,
            events,
        ) <==> k == at) by {
            assert(init[k] == catalog[k]);
        }
        lemma_one_named(init, events, at);
    }
}

proof fn lemma_some_named(catalog: Seq<CatalogNote>, events: Seq<&StoredLogEvent>, a: int)
    requires
        0 <= a < catalog.len(),
        group_names_note(catalog[a].note, events),
    ensures
        named_notes(catalog, events).len() > 0,
    decreases catalog.len(),
{
    let init = catalog.drop_last();
    lemma_names_note(catalog.last().note, events);
    if a < init.len() {
        assert(init[a] == catalog[a]);
        lemma_some_named(init, events, a);
    }
}

proof fn lemma_two_named(catalog: Seq<CatalogNote>, events: Seq<&StoredLogEvent>, a: int, b: int)
    requires
        0 <= a < b < catalog.len(),
        group_names_note(catalog[a].note, events),
        group_names_note(catalog[b].note, events),
    ensures
        named_notes(catalog, events).len() > 1,
    decreases catalog.len(),
{
    let init = catalog.drop_last();
    lemma_names_note(catalog.last().note, events);
    assert(init[a] == catalog[a]);
    if b < init.len() {
        assert(init[b] == catalog[b]);
        lemma_two_named(init, events, a, b);
    } else {
        lemma_some_named(init, events, a);
    }
}

proof fn lemma_unmapped(mappings: Seq<&ContextMapping>, events: Seq<&StoredLogEvent>)
    requires
        forall|m: &ContextMapping| #[trigger] mappings.contains(m) ==> !mapping_met(*m, events),
    ensures
        reviewed(mappings, events).len() == 0,
{
    let chosen = reviewed(mappings, events);
    if chosen.len() > 0 {
        assert(chosen.contains(chosen[0]));
        law_mapping_that_says_most_decides(mappings, events, chosen[0]);
    }
}

/// A group that meets no saved mapping is linked to the one note of the catalog
/// that it names: by its title first, then by an alias, then by a reference. The
/// fields that name it are what was matched; groups merge under it just where one
/// of these is a work item or a pull request.
pub proof fn law_only_named_note_is_linked(
    existing: Seq<Seq<char>>,
    catalog: Seq<CatalogNote>,
    mappings: Seq<&ContextMapping>,
    events: Seq<&StoredLogEvent>,
    at: int,
)
    requires
        forall|m: &ContextMapping| #[trigger] mappings.contains(m) ==> !mapping_met(*m, events),
        0 <= at < catalog.len(),
        forall|k: int|
            0 <= k < catalog.len() ==> (group_names_note(#[trigger] catalog[k].note, events) <==> k
                == at),
    ensures
        ({
            let note = catalog[at].note;
            let found = group_resolution(existing, catalog, mappings, events);
            &&& found is Resolved
            &&& found->path == note.path@
            &&& forall|f: Seq<char>| #[trigger]
                found->matched_fields.contains(f) <==> links_by_itself(f) && field_names_note(
                    note,
                    events,
                    f,
                )
            &&& found->merge_group <==> field_names_note(note, events, "work_item"@)
                || field_names_note(note, events, "pull_request"@)
            &&& found->reason == "exact_title"@ <==> exists|f: Seq<char>| #[trigger]
                links_by_itself(f) && group_gives(events, f, note.title@)
            &&& found->reason == "exact_alias"@ ==> exists|f: Seq<char>, a: Seq<char>|
                #[trigger] links_by_itself(f) && #[trigger] views(note.aliases@).contains(a)
                    && group_gives(events, f, a)
            &&& found->reason == "exact_reference"@ <==> !(exists|f: Seq<char>| #[trigger]
                links_by_itself(f) && (group_gives(events, f, note.title@) || exists|a: Seq<char>|
                    #[trigger] views(note.aliases@).contains(a) && group_gives(events, f, a)))
        }),
{
    let note = catalog[at].note;
    let fields = automatic_fields();
    lemma_unmapped(mappings, events);
    lemma_one_named(catalog, events, at);
    let found = matched_fields(note, events, fields);
    assert forall|f: Seq<char>| #[trigger]
        found.contains(f) <==> links_by_itself(f) && field_names_note(note, events, f) by {
        lemma_matched_fields(note, events, fields, f);
        lemma_automatic_fields(f);
    }
    if has_durable(found) {
        let i = choose|i: int| 0 <= i < found.len() && is_durable(#[trigger] found[i]);
        assert(found.contains(found[i]));
    }
    assert(found.contains("work_item"@) ==> has_durable(found)) by {
        if found.contains("work_item"@) {
            let i = choose|i: int| 0 <= i < found.len() && found[i] == "work_item"@;
            assert(is_durable(found[i]));
        }
    }
    assert(found.contains("pull_request"@) ==> has_durable(found)) by {
        if found.contains("pull_request"@) {
            let i = choose|i: int| 0 <= i < found.len() && found[i] == "pull_request"@;
            assert(is_durable(found[i]));
        }
    }
    reveal_strlit("exact_title");
    reveal_strlit("exact_alias");
    reveal_strlit("exact_reference");
    assert("exact_title"@[6] == 't' && "exact_alias"@[6] == 'a' && "exact_reference"@[6] == 'r');
    let by_title = exists|i: int|
        0 <= i < fields.len() && title_matches(note, events, #[trigger] fields[i]);
    let by_alias = exists|i: int|
        0 <= i < fields.len() && alias_matches(note, events, #[trigger] fields[i]);
    if by_title {
        let i = choose|i: int|
            0 <= i < fields.len() && title_matches(note, events, #[trigger] fields[i]);
        lemma_title(note, events, fields[i]);
        assert(fields.contains(fields[i]));
        lemma_automatic_fields(fields[i]);
        assert(links_by_itself(fields[i]) && group_gives(events, fields[i], note.title@));
    }
    if exists|f: Seq<char>| #[trigger]
        links_by_itself(f) && group_gives(events, f, note.title@) {
        let f = choose|f: Seq<char>| #[trigger]
            links_by_itself(f) && group_gives(events, f, note.title@);
        lemma_automatic_fields(f);
        lemma_title(note, events, f);
        let i = choose|i: int| 0 <= i < fields.len() && fields[i] == f;
        assert(title_matches(note, events, fields[i]));
    }
    if by_alias {
        let i = choose|i: int|
            0 <= i < fields.len() && alias_matches(note, events, #[trigger] fields[i]);
        lemma_alias(note, events, fields[i]);
        assert(fields.contains(fields[i]));
        lemma_automatic_fields(fields[i]);
        let a = choose|a: Seq<char>| #[trigger]
            views(note.aliases@).contains(a) && group_gives(events, fields[i], a);
        assert(links_by_itself(fields[i]) && views(note.aliases@).contains(a));
    }
    if exists|f: Seq<char>| #[trigger]
        links_by_itself(f) && exists|a: Seq<char>| #[trigger]
            views(note.aliases@).contains(a) && group_gives(events, f, a) {
        let f = choose|f: Seq<char>| #[trigger]
            links_by_itself(f) && exists|a: Seq<char>| #[trigger]
                views(note.aliases@).contains(a) && group_gives(events, f, a);
        lemma_automatic_fields(f);
        lemma_alias(note, events, f);
        let i = choose|i: int| 0 <= i < fields.len() && fields[i] == f;
        assert(alias_matches(note, events, fields[i]));
    }
}

/// A group that meets no saved mapping and names no note of the catalog, or
/// several, is not linked.
pub proof fn law_unnamed_and_ambiguous_notes_are_not_linked(
    existing: Seq<Seq<char>>,
    catalog: Seq<CatalogNote>,
    mappings: Seq<&ContextMapping>,
    events: Seq<&StoredLogEvent>,
)
    requires
        forall|m: &ContextMapping| #[trigger] mappings.contains(m) ==> !mapping_met(*m, events),
    ensures
        (forall|k: int|
            0 <= k < catalog.len() ==> !group_names_note(#[trigger] catalog[k].note, events))
            ==> group_resolution(existing, catalog, mappings, events) == ResolutionView::Unresolved,
        forall|a: int, b: int|
            0 <= a < b < catalog.len() && group_names_note(#[trigger] catalog[a].note, events)
                && group_names_note(#[trigger] catalog[b].note, events) ==> group_resolution(
                existing,
                catalog,
                mappings,
                events,
            ) == ResolutionView::Ambiguous,
{
    lemma_unmapped(mappings, events);
    if forall|k: int|
        0 <= k < catalog.len() ==> !group_names_note(#[trigger] catalog[k].note, events) {
        lemma_none_named(catalog, events);
    }
    assert forall|a: int, b: int|
        0 <= a < b < catalog.len() && group_names_note(#[trigger] catalog[a].note, events)
            && group_names_note(#[trigger] catalog[b].note, events) implies group_resolution(
        existing,
        catalog,
        mappings,
        events,
    ) == ResolutionView::Ambiguous by {
        lemma_two_named(catalog, events, a, b);
    }
}

} // verus!
