//! Which names are shown to the owner for want of a note, and how notes are
//! searched.
use crate::curation::{
    OccurrenceView, UnresolvedView, at_most, field_occurrences, identity_at, is_open, later,
    latest, name_holds, notes_holding, occurrences, options_of, resolved_sources, selects,
    shown_before, shown_order, tally, value_occurrences,
};
use crate::json::JsonView;
use crate::knowledge::{group_keys, with_key};
use crate::models::{ContextMapping, IgnoredContextIdentity, StoredLogEvent};
use crate::note_laws::is_reference_field;
use crate::ordered::{
    Ranked, lemma_precedes_irreflexive, lemma_precedes_total, lemma_precedes_transitive,
    lemma_push_contains, placed_by, precedes, sorted_by,
};
use crate::resolution::{CatalogNote, automatic_fields, group_identities, normal_identity};
use crate::text::{byte_len, lowercased, occurs, trimmed, views};
use crate::vault_laws::lemma_joined_has;
use vstd::prelude::*;
use vstd::string::*;

verus! {

/// Whether a relation orders values: no two come before each other, and not to
/// come after is transitive.
pub open spec fn is_an_order<V>(before: spec_fn(V, V) -> bool) -> bool {
    &&& forall|a: V, b: V| #[trigger] before(a, b) ==> !before(b, a)
    &&& forall|a: V, b: V, c: V|
        !(#[trigger] before(b, a)) && !(#[trigger] before(c, b)) ==> !before(c, a)
}

/// Whether no value of a list comes before one that stands ahead of it.
pub open spec fn in_order<V>(s: Seq<V>, before: spec_fn(V, V) -> bool) -> bool {
    forall|i: int, j: int| 0 <= i < j < s.len() ==> !before(#[trigger] s[j], #[trigger] s[i])
}

proof fn lemma_placed_by_in_order<V>(s: Seq<V>, x: V, before: spec_fn(V, V) -> bool)
    requires
        is_an_order(before),
        in_order(s, before),
    ensures
        in_order(placed_by(s, x, before), before),
        placed_by(s, x, before).to_multiset() =~= s.to_multiset().insert(x),
        forall|i: int|
            0 <= i < placed_by(s, x, before).len() ==> #[trigger] placed_by(s, x, before)[i] == x
                || s.contains(placed_by(s, x, before)[i]),
    decreases s.len(),
{
    broadcast use vstd::seq_lib::group_to_multiset_ensures;

    let all = placed_by(s, x, before);
    if s.len() > 0 && before(x, s.last()) {
        let init = s.drop_last();
        assert forall|i: int, j: int| 0 <= i < j < init.len() implies !before(
            #[trigger] init[j],
            #[trigger] init[i],
        ) by {
            assert(init[i] == s[i] && init[j] == s[j]);
        }
        lemma_placed_by_in_order(init, x, before);
        let rest = placed_by(init, x, before);
        assert(s =~= init.push(s.last()));
        assert forall|i: int| 0 <= i < rest.len() implies !before(s.last(), #[trigger] rest[i]) by {
            if rest[i] != x {
                let k = choose|k: int| 0 <= k < init.len() && init[k] == rest[i];
                assert(s[k] == rest[i]);
                assert(!before(s[s.len() - 1], s[k]));
            }
        }
        assert forall|i: int, j: int| 0 <= i < j < all.len() implies !before(
            #[trigger] all[j],
            #[trigger] all[i],
        ) by {
            assert(all[i] == rest[i]);
            if j < rest.len() {
                assert(all[j] == rest[j]);
            }
        }
        assert forall|i: int| 0 <= i < all.len() implies #[trigger] all[i] == x || s.contains(
            all[i],
        ) by {
            if i < rest.len() {
                if rest[i] != x {
                    let k = choose|k: int| 0 <= k < init.len() && init[k] == rest[i];
                    assert(s[k] == all[i]);
                }
            } else {
                assert(s[s.len() - 1] == all[i]);
            }
        }
    } else {
        assert forall|i: int, j: int| 0 <= i < j < all.len() implies !before(
            #[trigger] all[j],
            #[trigger] all[i],
        ) by {
            if j < s.len() {
                assert(all[i] == s[i] && all[j] == s[j]);
            } else {
                assert(all[i] == s[i]);
                if i < s.len() - 1 {
                    assert(!before(s[s.len() - 1], s[i]));
                }
            }
        }
        assert forall|i: int| 0 <= i < all.len() implies #[trigger] all[i] == x || s.contains(
            all[i],
        ) by {
            if i < s.len() {
                assert(s[i] == all[i]);
            }
        }
    }
}

/// Sorting puts values in order, and loses and doubles none.
pub proof fn law_sorting_keeps_every_value<V>(s: Seq<V>, before: spec_fn(V, V) -> bool)
    requires
        is_an_order(before),
    ensures
        in_order(sorted_by(s, before), before),
        sorted_by(s, before).to_multiset() =~= s.to_multiset(),
        sorted_by(s, before).len() == s.len(),
    decreases s.len(),
{
    broadcast use vstd::seq_lib::group_to_multiset_ensures;

    if s.len() > 0 {
        let init = s.drop_last();
        law_sorting_keeps_every_value(init, before);
        lemma_placed_by_in_order(sorted_by(init, before), s.last(), before);
        assert(s =~= init.push(s.last()));
    }
    assert(sorted_by(s, before).to_multiset().len() == s.to_multiset().len());
}

/// A note is found by a part of its title, its path or one of its aliases,
/// whatever the case, and by nothing else.
pub proof fn law_notes_are_searched(catalog: Seq<CatalogNote>, query: Seq<char>, n: CatalogNote)
    ensures
        notes_holding(catalog, query).contains(&n) <==> catalog.contains(n) && {
            let part = lowercased(trimmed(query));
            ||| occurs(lowercased(trimmed(n.note.title@)), part)
            ||| occurs(lowercased(trimmed(n.note.path@)), part)
            ||| exists|i: int|
                0 <= i < n.note.aliases@.len() && occurs(
                    lowercased(trimmed((#[trigger] n.note.aliases@[i])@)),
                    part,
                )
        },
    decreases catalog.len(),
{
    let aliases = views(n.note.aliases@);
    if exists|i: int|
        0 <= i < n.note.aliases@.len() && occurs(
            lowercased(trimmed((#[trigger] n.note.aliases@[i])@)),
            lowercased(trimmed(query)),
        ) {
        let i = choose|i: int|
            0 <= i < n.note.aliases@.len() && occurs(
                lowercased(trimmed((#[trigger] n.note.aliases@[i])@)),
                lowercased(trimmed(query)),
            );
        assert(name_holds(aliases[i], query));
    }
    if exists|i: int| 0 <= i < n.note.aliases@.len() && name_holds(#[trigger] aliases[i], query) {
        let i = choose|i: int|
            0 <= i < n.note.aliases@.len() && name_holds(#[trigger] aliases[i], query);
        assert(aliases[i] == n.note.aliases@[i]@);
    }
    if catalog.len() > 0 {
        let init = catalog.drop_last();
        law_notes_are_searched(init, query, n);
        assert(catalog =~= init.push(catalog.last()));
        lemma_push_contains(init, catalog.last(), n);
        lemma_push_contains(notes_holding(init, query), &catalog.last(), &n);
    }
}

/// Found notes stand in the order of their titles, whatever the case, and notes
/// of one title in that of their paths.
pub proof fn law_found_notes_are_in_order(a: CatalogNote, b: CatalogNote)
    ensures
        a.ranks_before(&b) <==> precedes(
            lowercased(trimmed(a.note.title@)),
            lowercased(trimmed(b.note.title@)),
        ) || (lowercased(trimmed(a.note.title@)) == lowercased(trimmed(b.note.title@)) && precedes(
            a.note.path@,
            b.note.path@,
        )),
{
}

/// A found note is shown with its path, its title and its collections, and at
/// most as many as were asked for.
pub proof fn law_found_notes_are_shown(notes: Seq<&CatalogNote>, limit: nat)
    ensures
        ({
            let shown = at_most(options_of(notes), limit);
            &&& shown.len() == if notes.len() <= limit { notes.len() } else { limit }
            &&& forall|i: int|
                0 <= i < shown.len() ==> (#[trigger] shown[i]).path == notes[i].note.path@
                    && shown[i].title == notes[i].note.title@ && shown[i].collection_ids.len()
                    == notes[i].collection_ids@.len()
            &&& forall|i: int, k: int|
                0 <= i < shown.len() && 0 <= k < shown[i].collection_ids.len()
                    ==> #[trigger] shown[i].collection_ids[k] == notes[i].collection_ids@[k]@
        }),
{
}

/// A name is open where it is not too long, no enabled mapping asks for exactly
/// it, and the owner has not set it aside.
pub proof fn law_open_names(
    mappings: Seq<ContextMapping>,
    ignored: Seq<IgnoredContextIdentity>,
    field: Seq<char>,
    value: Seq<char>,
)
    ensures
        byte_len(value) > 300 ==> !is_open(mappings, ignored, field, value),
        forall|i: int, k: int|
            0 <= i < mappings.len() && mappings[i].enabled && 0 <= k < mappings[i].selectors@.len()
                && (#[trigger] mappings[i].selectors@[k]).field@ == field
                && mappings[i].selectors@[k].operator@ == "exact"@ && lowercased(
                trimmed(mappings[i].selectors@[k].value@),
            ) == lowercased(trimmed(value)) ==> !is_open(mappings, ignored, field, value),
        forall|i: int|
            0 <= i < ignored.len() && (#[trigger] ignored[i]).field@ == field
                && ignored[i].normalized_value@ == lowercased(trimmed(value)) ==> !is_open(
                mappings,
                ignored,
                field,
                value,
            ),
        byte_len(value) <= 300 && (forall|i: int, k: int|
            0 <= i < mappings.len() && mappings[i].enabled && 0 <= k < mappings[i].selectors@.len()
                ==> (#[trigger] mappings[i].selectors@[k]).field@ != field
                || mappings[i].selectors@[k].operator@ != "exact"@ || lowercased(
                trimmed(mappings[i].selectors@[k].value@),
            ) != lowercased(trimmed(value))) && (forall|i: int|
            0 <= i < ignored.len() ==> (#[trigger] ignored[i]).field@ != field
                || ignored[i].normalized_value@ != lowercased(trimmed(value))) ==> is_open(
            mappings,
            ignored,
            field,
            value,
        ),
{
    assert forall|i: int, k: int|
        0 <= i < mappings.len() && mappings[i].enabled && 0 <= k < mappings[i].selectors@.len()
            && (#[trigger] mappings[i].selectors@[k]).field@ == field
            && mappings[i].selectors@[k].operator@ == "exact"@ && lowercased(
            trimmed(mappings[i].selectors@[k].value@),
        ) == lowercased(trimmed(value)) implies !is_open(mappings, ignored, field, value) by {
        assert(selects(mappings[i].selectors@[k], field, normal_identity(value)));
    }
}

/// A name of a group that is open, with how many events the group has and when
/// the latest of them was.
pub open spec fn is_open_occurrence(
    mappings: Seq<ContextMapping>,
    ignored: Seq<IgnoredContextIdentity>,
    members: Seq<&StoredLogEvent>,
    o: OccurrenceView,
) -> bool {
    &&& is_reference_field(o.field)
    &&& group_identities(members, o.field).contains(o.value)
    &&& is_open(mappings, ignored, o.field, o.value)
    &&& o.event_count == members.len()
    &&& o.latest_at == latest(members)
}

proof fn lemma_value_occurrences(
    mappings: Seq<ContextMapping>,
    ignored: Seq<IgnoredContextIdentity>,
    members: Seq<&StoredLogEvent>,
    field: Seq<char>,
    values: Seq<Seq<char>>,
    o: OccurrenceView,
)
    ensures
        value_occurrences(mappings, ignored, members, field, values).contains(o) <==> {
            &&& o.field == field
            &&& values.contains(o.value)
            &&& is_open(mappings, ignored, field, o.value)
            &&& o.event_count == members.len()
            &&& o.latest_at == latest(members)
        },
    decreases values.len(),
{
    if values.len() > 0 {
        let init = values.drop_last();
        lemma_value_occurrences(mappings, ignored, members, field, init, o);
        assert(values =~= init.push(values.last()));
        lemma_push_contains(init, values.last(), o.value);
        if is_open(mappings, ignored, field, values.last()) {
            lemma_push_contains(
                value_occurrences(mappings, ignored, members, field, init),
                OccurrenceView {
                    field,
                    value: values.last(),
                    event_count: members.len(),
                    latest_at: latest(members),
                },
                o,
            );
        }
    }
}

proof fn lemma_field_occurrences(
    mappings: Seq<ContextMapping>,
    ignored: Seq<IgnoredContextIdentity>,
    members: Seq<&StoredLogEvent>,
    fields: Seq<Seq<char>>,
    o: OccurrenceView,
)
    ensures
        field_occurrences(mappings, ignored, members, fields).contains(o) <==> {
            &&& fields.contains(o.field)
            &&& group_identities(members, o.field).contains(o.value)
            &&& is_open(mappings, ignored, o.field, o.value)
            &&& o.event_count == members.len()
            &&& o.latest_at == latest(members)
        },
    decreases fields.len(),
{
    if fields.len() > 0 {
        let init = fields.drop_last();
        let last = fields.last();
        lemma_field_occurrences(mappings, ignored, members, init, o);
        assert(fields =~= init.push(last));
        lemma_push_contains(init, last, o.field);
        let values = group_identities(members, last);
        lemma_value_occurrences(mappings, ignored, members, last, values, o);
        lemma_joined_has(
            field_occurrences(mappings, ignored, members, init),
            value_occurrences(mappings, ignored, members, last, values),
            o,
        );
    }
}

/// The names that are looked at are those of the groups that led to no note,
/// and of these groups every open one.
pub proof fn law_names_of_unresolved_groups(
    mappings: Seq<ContextMapping>,
    ignored: Seq<IgnoredContextIdentity>,
    resolved: Seq<Seq<char>>,
    events: Seq<&StoredLogEvent>,
    ids: Seq<Seq<char>>,
    o: OccurrenceView,
)
    ensures
        occurrences(mappings, ignored, resolved, events, ids).contains(o) <==> exists|i: int|
            0 <= i < ids.len() && !resolved.contains(#[trigger] ids[i]) && is_open_occurrence(
                mappings,
                ignored,
                with_key(events, group_keys(events), ids[i]),
                o,
            ),
    decreases ids.len(),
{
    if ids.len() > 0 {
        let init = ids.drop_last();
        let last = ids.last();
        law_names_of_unresolved_groups(mappings, ignored, resolved, events, init, o);
        let members = with_key(events, group_keys(events), last);
        lemma_field_occurrences(mappings, ignored, members, automatic_fields(), o);
        lemma_automatic_field(o.field);
        let before = occurrences(mappings, ignored, resolved, events, init);
        lemma_joined_has(
            before,
            field_occurrences(mappings, ignored, members, automatic_fields()),
            o,
        );
        assert(ids[ids.len() - 1] == last);
        if before.contains(o) {
            let i = choose|i: int|
                0 <= i < init.len() && !resolved.contains(#[trigger] init[i])
                    && is_open_occurrence(
                    mappings,
                    ignored,
                    with_key(events, group_keys(events), init[i]),
                    o,
                );
            assert(ids[i] == init[i]);
        }
        if exists|i: int|
            0 <= i < ids.len() && !resolved.contains(#[trigger] ids[i]) && is_open_occurrence(
                mappings,
                ignored,
                with_key(events, group_keys(events), ids[i]),
                o,
            ) {
            let i = choose|i: int|
                0 <= i < ids.len() && !resolved.contains(#[trigger] ids[i]) && is_open_occurrence(
                    mappings,
                    ignored,
                    with_key(events, group_keys(events), ids[i]),
                    o,
                );
            assert(i < init.len() ==> init[i] == ids[i]);
        }
    }
}

proof fn lemma_automatic_field(field: Seq<char>)
    ensures
        automatic_fields().contains(field) <==> is_reference_field(field),
{
    let b = automatic_fields();
    assert(b[5] == "repo"@ && b[3] == "project"@ && b[2] == "product"@ && b[0] == "app"@ && b[6]
        == "service"@ && b[1] == "module"@ && b[7] == "work_item"@ && b[4] == "pull_request"@);
    assert(b.len() == 8);
}

/// The occurrences of one name.
pub open spec fn of_name(
    occurrences: Seq<OccurrenceView>,
    field: Seq<char>,
    name: Seq<char>,
) -> Seq<OccurrenceView>
    decreases occurrences.len(),
{
    if occurrences.len() == 0 {
        Seq::empty()
    } else {
        let before = of_name(occurrences.drop_last(), field, name);
        let o = occurrences.last();
        if o.field == field && lowercased(trimmed(o.value)) == name {
            before.push(o)
        } else {
            before
        }
    }
}

pub open spec fn total_events(occurrences: Seq<OccurrenceView>) -> nat
    decreases occurrences.len(),
{
    if occurrences.len() == 0 {
        0
    } else {
        total_events(occurrences.drop_last()) + occurrences.last().event_count
    }
}

/// Whether a tallied name says of its occurrences how many there are, how many
/// events they have, which is the latest and how it is written shortest.
pub open spec fn sums_up(u: UnresolvedView, os: Seq<OccurrenceView>) -> bool {
    &&& os.len() > 0
    &&& u.group_count == os.len()
    &&& u.event_count == total_events(os)
    &&& forall|i: int| 0 <= i < os.len() ==> !u.latest_at.is_before((#[trigger] os[i]).latest_at)
    &&& exists|i: int| 0 <= i < os.len() && (#[trigger] os[i]).latest_at == u.latest_at
    &&& forall|i: int|
        0 <= i < os.len() ==> byte_len(u.value) <= byte_len((#[trigger] os[i]).value)
    &&& exists|i: int| 0 <= i < os.len() && (#[trigger] os[i]).value == u.value
}

proof fn lemma_identity_at(us: Seq<UnresolvedView>, field: Seq<char>, name: Seq<char>)
    ensures
        -1 <= identity_at(us, field, name) < us.len(),
        identity_at(us, field, name) >= 0 ==> us[identity_at(us, field, name)].field == field
            && us[identity_at(us, field, name)].normalized_value == name,
        identity_at(us, field, name) < 0 ==> forall|k: int|
            0 <= k < us.len() ==> (#[trigger] us[k]).field != field || us[k].normalized_value
                != name,
    decreases us.len(),
{
    if us.len() > 0 {
        let init = us.drop_last();
        lemma_identity_at(init, field, name);
        if identity_at(us, field, name) < 0 {
            assert forall|k: int| 0 <= k < us.len() implies (#[trigger] us[k]).field != field
                || us[k].normalized_value != name by {
                if k < init.len() {
                    assert(init[k] == us[k]);
                }
            }
        }
    }
}

proof fn lemma_sums_up_more(
    old: UnresolvedView,
    os: Seq<OccurrenceView>,
    o: OccurrenceView,
    u: UnresolvedView,
)
    requires
        sums_up(old, os),
        u.group_count == old.group_count + 1,
        u.event_count == old.event_count + o.event_count,
        u.latest_at == later(old.latest_at, o.latest_at),
        u.value == (if byte_len(o.value) < byte_len(old.value) {
            o.value
        } else {
            old.value
        }),
    ensures
        sums_up(u, os.push(o)),
{
    let all = os.push(o);
    assert(all.drop_last() =~= os);
    assert(all[os.len() as int] == o);
    let a = choose|a: int| 0 <= a < os.len() && (#[trigger] os[a]).latest_at == old.latest_at;
    assert(all[a] == os[a]);
    let b = choose|b: int| 0 <= b < os.len() && (#[trigger] os[b]).value == old.value;
    assert(all[b] == os[b]);
    assert forall|i: int| 0 <= i < all.len() implies !u.latest_at.is_before(
        (#[trigger] all[i]).latest_at,
    ) && byte_len(u.value) <= byte_len(all[i].value) by {
        if i < os.len() {
            assert(all[i] == os[i]);
        }
    }
}

proof fn lemma_tally(os: Seq<OccurrenceView>)
    ensures
        forall|i: int|
            0 <= i < tally(os).len() ==> sums_up(
                #[trigger] tally(os)[i],
                of_name(os, tally(os)[i].field, tally(os)[i].normalized_value),
            ),
        forall|i: int, j: int|
            0 <= i < j < tally(os).len() ==> (#[trigger] tally(os)[i]).field != (
            #[trigger] tally(os)[j]).field || tally(os)[i].normalized_value
                != tally(os)[j].normalized_value,
    decreases os.len(),
{
    if os.len() > 0 {
        let init = os.drop_last();
        let o = os.last();
        let name = normal_identity(o.value);
        lemma_tally(init);
        let before = tally(init);
        let all = tally(os);
        let at = identity_at(before, o.field, name);
        lemma_identity_at(before, o.field, name);
        lemma_of_name_absent(init, o.field, name);
        assert forall|i: int| 0 <= i < all.len() implies sums_up(
            #[trigger] all[i],
            of_name(os, all[i].field, all[i].normalized_value),
        ) by {
            if i < before.len() {
                assert(sums_up(
                    before[i],
                    of_name(init, before[i].field, before[i].normalized_value),
                ));
                assert(all[i].field == before[i].field);
                assert(all[i].normalized_value == before[i].normalized_value);
                if at >= 0 && i == at {
                    lemma_sums_up_more(before[i], of_name(init, o.field, name), o, all[i]);
                } else {
                    assert(all[i] == before[i]);
                    if at >= 0 && at != i {
                        if at < i {
                            assert(before[at].field != before[i].field
                                || before[at].normalized_value != before[i].normalized_value);
                        } else {
                            assert(before[i].field != before[at].field
                                || before[i].normalized_value != before[at].normalized_value);
                        }
                    }
                }
            } else {
                assert(of_name(init, o.field, name).len() == 0);
                let one = of_name(os, o.field, name);
                assert(one =~= seq![o]);
                assert(one.drop_last() =~= Seq::<OccurrenceView>::empty());
                assert(total_events(one.drop_last()) == 0);
                assert(one[0] == o);
            }
        }
        assert forall|i: int, j: int| 0 <= i < j < all.len() implies (#[trigger] all[i]).field != (
        #[trigger] all[j]).field || all[i].normalized_value != all[j].normalized_value by {
            assert(all[i].field == before[i].field && all[i].normalized_value
                == before[i].normalized_value);
            if j < before.len() {
                assert(all[j].field == before[j].field && all[j].normalized_value
                    == before[j].normalized_value);
            }
        }
    }
}

/// A name that no tallied name is has no occurrence.
proof fn lemma_of_name_absent(os: Seq<OccurrenceView>, field: Seq<char>, name: Seq<char>)
    ensures
        (forall|k: int|
            0 <= k < tally(os).len() ==> (#[trigger] tally(os)[k]).field != field
                || tally(os)[k].normalized_value != name) ==> of_name(os, field, name).len() == 0,
    decreases os.len(),
{
    if os.len() > 0 && (forall|k: int|
        0 <= k < tally(os).len() ==> (#[trigger] tally(os)[k]).field != field
            || tally(os)[k].normalized_value != name) {
        let init = os.drop_last();
        let o = os.last();
        let n = normal_identity(o.value);
        let before = tally(init);
        let all = tally(os);
        let at = identity_at(before, o.field, n);
        lemma_identity_at(before, o.field, n);
        assert forall|k: int| 0 <= k < before.len() implies (#[trigger] before[k]).field != field
            || before[k].normalized_value != name by {
            assert(all[k].field == before[k].field && all[k].normalized_value
                == before[k].normalized_value);
        }
        lemma_of_name_absent(init, field, name);
        if at >= 0 {
            assert(all[at].field == o.field && all[at].normalized_value == n);
        } else {
            assert(all[before.len() as int].field == o.field);
        }
    }
}

/// Each name that is shown sums up all the occurrences of it, no name is shown
/// twice, and none is left out.
pub proof fn law_names_are_tallied(os: Seq<OccurrenceView>)
    ensures
        forall|i: int|
            0 <= i < tally(os).len() ==> sums_up(
                #[trigger] tally(os)[i],
                of_name(os, tally(os)[i].field, tally(os)[i].normalized_value),
            ),
        forall|i: int, j: int|
            0 <= i < j < tally(os).len() ==> (#[trigger] tally(os)[i]).field != (
            #[trigger] tally(os)[j]).field || tally(os)[i].normalized_value
                != tally(os)[j].normalized_value,
        forall|field: Seq<char>, name: Seq<char>|
            (#[trigger] of_name(os, field, name)).len() > 0 ==> exists|k: int|
                0 <= k < tally(os).len() && (#[trigger] tally(os)[k]).field == field
                    && tally(os)[k].normalized_value == name,
{
    lemma_tally(os);
    assert forall|field: Seq<char>, name: Seq<char>|
        (#[trigger] of_name(os, field, name)).len() > 0 implies exists|k: int|
        0 <= k < tally(os).len() && (#[trigger] tally(os)[k]).field == field
            && tally(os)[k].normalized_value == name by {
        lemma_of_name_absent(os, field, name);
    }
}

/// The fields that names stand in differ.
pub proof fn lemma_priority_fields_differ()
    ensures
        "product"@ != "project"@,
        "product"@ != "repo"@,
        "product"@ != "app"@,
        "product"@ != "service"@,
        "product"@ != "module"@,
        "product"@ != "work_item"@,
        "product"@ != "pull_request"@,
        "project"@ != "repo"@,
        "project"@ != "app"@,
        "project"@ != "service"@,
        "project"@ != "module"@,
        "project"@ != "work_item"@,
        "project"@ != "pull_request"@,
        "repo"@ != "app"@,
        "repo"@ != "service"@,
        "repo"@ != "module"@,
        "repo"@ != "work_item"@,
        "repo"@ != "pull_request"@,
        "app"@ != "service"@,
        "app"@ != "module"@,
        "app"@ != "work_item"@,
        "app"@ != "pull_request"@,
        "service"@ != "module"@,
        "service"@ != "work_item"@,
        "service"@ != "pull_request"@,
        "module"@ != "work_item"@,
        "module"@ != "pull_request"@,
        "work_item"@ != "pull_request"@,
{
    reveal_strlit("product");
    reveal_strlit("project");
    reveal_strlit("repo");
    reveal_strlit("app");
    reveal_strlit("service");
    reveal_strlit("module");
    reveal_strlit("work_item");
    reveal_strlit("pull_request");
    assert("product"@.len() == 7);
    assert("project"@.len() == 7);
    assert("repo"@.len() == 4);
    assert("app"@.len() == 3);
    assert("service"@.len() == 7);
    assert("module"@.len() == 6);
    assert("work_item"@.len() == 9);
    assert("pull_request"@.len() == 12);
    assert("product"@[3] == 'd');
    assert("project"@[3] == 'j');
    assert("product"@[0] == 'p');
    assert("service"@[0] == 's');
    assert("project"@[0] == 'p');
}

/// Names of products come first, then those of projects, repositories, apps,
/// services, modules, work items and pull requests; of one field those with the
/// most events come first, and of these the first in the alphabet.
pub proof fn law_names_are_shown_by_importance(a: UnresolvedView, b: UnresolvedView)
    ensures
        a.field == b.field ==> (shown_before(a, b) <==> a.event_count > b.event_count || (
        a.event_count == b.event_count && precedes(a.normalized_value, b.normalized_value))),
        is_up_to(a.field, "product"@) && is_from(b.field, "project"@) ==> shown_before(a, b),
        is_up_to(a.field, "project"@) && is_from(b.field, "repo"@) ==> shown_before(a, b),
        is_up_to(a.field, "repo"@) && is_from(b.field, "app"@) ==> shown_before(a, b),
        is_up_to(a.field, "app"@) && is_from(b.field, "service"@) ==> shown_before(a, b),
        is_up_to(a.field, "service"@) && is_from(b.field, "module"@) ==> shown_before(a, b),
        is_up_to(a.field, "module"@) && is_from(b.field, "work_item"@) ==> shown_before(a, b),
        is_up_to(a.field, "work_item"@) && is_from(b.field, "pull_request"@) ==> shown_before(a, b),
        is_an_order(shown_order()),
{
    lemma_priority_fields_differ();
    assert forall|x: UnresolvedView, y: UnresolvedView| #[trigger] shown_order()(x, y) implies !shown_order()(
        y,
        x,
    ) by {
        lemma_precedes_asymmetric(x.normalized_value, y.normalized_value);
    }
    assert forall|x: UnresolvedView, y: UnresolvedView, z: UnresolvedView|
        !(#[trigger] shown_order()(y, x)) && !(#[trigger] shown_order()(z, y)) implies !shown_order()(
        z,
        x,
    ) by {
        lemma_precedes_total(x.normalized_value, y.normalized_value);
        lemma_precedes_total(y.normalized_value, z.normalized_value);
        lemma_precedes_total(x.normalized_value, z.normalized_value);
        lemma_precedes_not_after(x.normalized_value, y.normalized_value, z.normalized_value);
    }
}

pub proof fn lemma_precedes_asymmetric(a: Seq<char>, b: Seq<char>)
    ensures
        precedes(a, b) ==> !precedes(b, a),
{
    if precedes(a, b) && precedes(b, a) {
        lemma_precedes_transitive(a, b, a);
        lemma_precedes_irreflexive(a);
    }
}

pub proof fn lemma_precedes_not_after(a: Seq<char>, b: Seq<char>, c: Seq<char>)
    ensures
        !precedes(b, a) && !precedes(c, b) ==> !precedes(c, a),
{
    lemma_precedes_total(a, b);
    lemma_precedes_total(b, c);
    if !precedes(b, a) && !precedes(c, b) && precedes(c, a) {
        if precedes(a, b) {
            lemma_precedes_transitive(c, a, b);
        }
        lemma_precedes_irreflexive(a);
    }
}

/// Whether a field is as important as another or more.
pub open spec fn is_up_to(field: Seq<char>, other: Seq<char>) -> bool {
    ||| other == "product"@ && (field == "product"@)
    ||| other == "project"@ && (field == "product"@ || field == "project"@)
    ||| other == "repo"@ && (field == "product"@ || field == "project"@ || field == "repo"@)
    ||| other == "app"@ && (field == "product"@ || field == "project"@ || field == "repo"@ || field == "app"@)
    ||| other == "service"@ && (field == "product"@ || field == "project"@ || field == "repo"@ || field == "app"@ || field == "service"@)
    ||| other == "module"@ && (field == "product"@ || field == "project"@ || field == "repo"@ || field == "app"@ || field == "service"@ || field == "module"@)
    ||| other == "work_item"@ && (field == "product"@ || field == "project"@ || field == "repo"@ || field == "app"@ || field == "service"@ || field == "module"@ || field == "work_item"@)
    ||| other == "pull_request"@ && (field == "product"@ || field == "project"@ || field == "repo"@ || field == "app"@ || field == "service"@ || field == "module"@ || field == "work_item"@ || field == "pull_request"@)
}

/// Whether a field is as important as another or less.
pub open spec fn is_from(field: Seq<char>, other: Seq<char>) -> bool {
    ||| other == "product"@ && (field == "product"@ || field == "project"@ || field == "repo"@ || field == "app"@ || field == "service"@ || field == "module"@ || field == "work_item"@ || field == "pull_request"@)
    ||| other == "project"@ && (field == "project"@ || field == "repo"@ || field == "app"@ || field == "service"@ || field == "module"@ || field == "work_item"@ || field == "pull_request"@)
    ||| other == "repo"@ && (field == "repo"@ || field == "app"@ || field == "service"@ || field == "module"@ || field == "work_item"@ || field == "pull_request"@)
    ||| other == "app"@ && (field == "app"@ || field == "service"@ || field == "module"@ || field == "work_item"@ || field == "pull_request"@)
    ||| other == "service"@ && (field == "service"@ || field == "module"@ || field == "work_item"@ || field == "pull_request"@)
    ||| other == "module"@ && (field == "module"@ || field == "work_item"@ || field == "pull_request"@)
    ||| other == "work_item"@ && (field == "work_item"@ || field == "pull_request"@)
    ||| other == "pull_request"@ && (field == "pull_request"@)
}

/// A group led to a note where it is recorded among the resolved ones.
pub proof fn law_resolved_groups_are_passed_over(groups: Seq<JsonView>, id: Seq<char>)
    ensures
        resolved_sources(groups).contains(id) <==> exists|i: int|
            0 <= i < groups.len() && (#[trigger] groups[i]).text_field("source_group_id"@) == Some(
                id,
            ),
    decreases groups.len(),
{
    if groups.len() > 0 {
        let init = groups.drop_last();
        law_resolved_groups_are_passed_over(init, id);
        assert(groups[groups.len() - 1] == groups.last());
        if groups.last().text_field("source_group_id"@) is Some {
            lemma_push_contains(
                resolved_sources(init),
                groups.last().text_field("source_group_id"@)->0,
                id,
            );
        }
        if resolved_sources(init).contains(id) {
            let i = choose|i: int|
                0 <= i < init.len() && (#[trigger] init[i]).text_field("source_group_id"@) == Some(
                    id,
                );
            assert(groups[i] == init[i]);
        }
        if exists|i: int|
            0 <= i < groups.len() && (#[trigger] groups[i]).text_field("source_group_id"@) == Some(
                id,
            ) {
            let i = choose|i: int|
                0 <= i < groups.len() && (#[trigger] groups[i]).text_field("source_group_id"@)
                    == Some(id);
            assert(i < init.len() ==> init[i] == groups[i]);
        }
    }
}

} // verus!
