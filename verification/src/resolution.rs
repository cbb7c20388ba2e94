//! Which note a group of events belongs to.
use crate::json::{Json, JsonView, lemma_list_view, list_view, number_string};
use crate::models::{ContextMapping, LinkSelector, StoredLogEvent};
use crate::ordered::{contains_text, ordered_set, ordered_set_of};
use crate::text::{
    contains, lemma_take_step, lemma_views_push, lowercase, lowercased, occurs, str_eq, trim,
    trimmed, views,
};
use vstd::prelude::*;
use vstd::string::*;

verus! {

/// What is known of one note.
#[derive(Debug, Clone, PartialEq, Eq)]
pub struct ParsedKnowledgeNote {
    pub path: String,
    pub title: String,
    pub aliases: Vec<String>,
    /// Reference values by field, each field once.
    pub references: Vec<(String, Vec<String>)>,
    pub source_digest: String,
    pub usable_digest: String,
    pub usable_content: String,
}

/// A note and the collections that it belongs to.
#[derive(Debug, Clone, PartialEq, Eq)]
pub struct CatalogNote {
    pub note: ParsedKnowledgeNote,
    pub collection_ids: Vec<String>,
}

/// An identity without regard to case or to white space at the ends.
pub open spec fn normal_identity(value: Seq<char>) -> Seq<char> {
    lowercased(trimmed(value))
}

pub fn normalize_identity(value: &str) -> (r: String)
    ensures
        r@ == normal_identity(value@),
{
    lowercase(trim(value).as_str())
}

/// The texts and numbers in a JSON value.
pub open spec fn scalars(value: JsonView) -> Seq<Seq<char>>
    decreases value,
{
    match value {
        JsonView::Text(s) => seq![trimmed(s)],
        JsonView::Number(n) => seq![n],
        JsonView::List(items) => scalars_in(items),
        _ => Seq::empty(),
    }
}

pub open spec fn scalars_in(items: Seq<JsonView>) -> Seq<Seq<char>>
    decreases items,
{
    if items.len() == 0 {
        Seq::empty()
    } else {
        scalars_in(items.drop_last()) + scalars(items.last())
    }
}

/// Appends the texts and numbers in a JSON value.
fn json_scalar_strings(value: &Json, out: &mut Vec<String>)
    ensures
        views(final(out)@) == views(old(out)@) + scalars(value@),
    decreases value,
{
    broadcast use lemma_views_push;
    match value {
        Json::Text(s) => {
            let ghost before = views(out@);
            out.push(trim(s.as_str()));
            assert(views(out@) =~= before + scalars(value@));
        },
        Json::Number(n) => {
            let ghost before = views(out@);
            out.push(number_string(n));
            assert(views(out@) =~= before + scalars(value@));
        },
        Json::List(items) => {
            let ghost before = views(out@);
            let ghost all = list_view(items@);
            let mut i: usize = 0;
            proof {
                lemma_list_view(items@);
                assert(all.take(0) =~= Seq::<JsonView>::empty());
                assert(before + scalars_in(all.take(0)) =~= before);
            }
            while i < items.len()
                invariant
                    i <= items@.len(),
                    decreases_to!(value => items@),
                    all == list_view(items@),
                    all.len() == items@.len(),
                    forall|k: int| 0 <= k < items@.len() ==> all[k] == (#[trigger] items@[k])@,
                    views(out@) == before + scalars_in(all.take(i as int)),
                decreases items@.len() - i,
            {
                let ghost mid = views(out@);
                json_scalar_strings(&items[i], out);
                proof {
                    assert(all.take(i + 1).drop_last() =~= all.take(i as int));
                    assert(all.take(i + 1).last() == items@[i as int]@);
                    assert(views(out@) =~= before + scalars_in(all.take(i + 1)));
                }
                i += 1;
            }
            assert(all.take(i as int) =~= all);
        },
        _ => {
            assert(views(out@) =~= views(out@) + scalars(value@));
        },
    }
}

/// Whether the identities in a field may link a note without a saved mapping.
pub open spec fn is_automatic(field: Seq<char>) -> bool {
    ||| field == "repo"@
    ||| field == "project"@
    ||| field == "product"@
    ||| field == "app"@
    ||| field == "service"@
    ||| field == "module"@
    ||| field == "work_item"@
    ||| field == "pull_request"@
}

pub fn automatic_identity_field(field: &str) -> (r: bool)
    ensures
        r == is_automatic(field@),
{
    str_eq(field, "repo") || str_eq(field, "project") || str_eq(field, "product") || str_eq(
        field,
        "app",
    ) || str_eq(field, "service") || str_eq(field, "module") || str_eq(field, "work_item")
        || str_eq(field, "pull_request")
}

pub open spec fn scalars_of_field(event: StoredLogEvent, key: Seq<char>) -> Seq<Seq<char>> {
    match event.field(key) {
        Some(value) => scalars(value),
        None => Seq::empty(),
    }
}

/// The identities that an event gives for a field, blank ones among them.
pub open spec fn event_values(event: StoredLogEvent, field: Seq<char>) -> Seq<Seq<char>> {
    if field == "source"@ {
        seq![trimmed(event.source@)]
    } else if field == "module"@ {
        scalars_of_field(event, "module"@) + scalars_of_field(event, "modules"@)
    } else if field == "branch"@ || is_automatic(field) {
        scalars_of_field(event, field)
    } else {
        Seq::empty()
    }
}

fn push_scalars(event: &StoredLogEvent, key: &str, out: &mut Vec<String>)
    ensures
        views(final(out)@) == views(old(out)@) + scalars_of_field(*event, key@),
{
    match event.get(key) {
        Some(value) => json_scalar_strings(value, out),
        None => {
            assert(views(out@) + Seq::<Seq<char>>::empty() =~= views(out@));
        },
    }
}

fn push_event_values(event: &StoredLogEvent, field: &str, out: &mut Vec<String>)
    ensures
        views(final(out)@) == views(old(out)@) + event_values(*event, field@),
{
    broadcast use lemma_views_push;
    let ghost before = views(out@);
    if str_eq(field, "source") {
        out.push(trim(event.source.as_str()));
        assert(views(out@) =~= before + event_values(*event, field@));
    } else if str_eq(field, "module") {
        push_scalars(event, "module", out);
        push_scalars(event, "modules", out);
        assert(views(out@) =~= before + event_values(*event, field@));
    } else if str_eq(field, "branch") || automatic_identity_field(field) {
        push_scalars(event, field, out);
    } else {
        assert(views(out@) + Seq::<Seq<char>>::empty() =~= views(out@));
    }
}

pub open spec fn group_values(events: Seq<&StoredLogEvent>, field: Seq<char>) -> Seq<Seq<char>>
    decreases events.len(),
{
    if events.len() == 0 {
        Seq::empty()
    } else {
        group_values(events.drop_last(), field) + event_values(*events.last(), field)
    }
}

/// The texts of a list that are not empty.
pub open spec fn nonempty(xs: Seq<Seq<char>>) -> Seq<Seq<char>>
    decreases xs.len(),
{
    if xs.len() == 0 {
        Seq::empty()
    } else if xs.last().len() > 0 {
        nonempty(xs.drop_last()).push(xs.last())
    } else {
        nonempty(xs.drop_last())
    }
}

/// The different identities that a group of events gives for a field, in order.
pub open spec fn group_identities(events: Seq<&StoredLogEvent>, field: Seq<char>) -> Seq<
    Seq<char>,
> {
    ordered_set(nonempty(group_values(events, field)))
}

pub fn keep_nonempty(xs: &Vec<String>) -> (r: Vec<String>)
    ensures
        views(r@) == nonempty(views(xs@)),
{
    broadcast use lemma_views_push;
    let mut r: Vec<String> = Vec::new();
    let mut i: usize = 0;
    let ghost all = views(xs@);
    assert(views(r@) =~= nonempty(all.take(0)));
    while i < xs.len()
        invariant
            i <= xs@.len(),
            all == views(xs@),
            views(r@) == nonempty(all.take(i as int)),
        decreases xs@.len() - i,
    {
        assert(all.take(i + 1).drop_last() =~= all.take(i as int));
        assert(all.take(i + 1).last() == xs@[i as int]@);
        if !xs[i].as_str().is_empty() {
            r.push(xs[i].as_str().to_owned());
        }
        i += 1;
    }
    assert(all.take(i as int) =~= all);
    r
}

pub fn field_identities(events: &Vec<&StoredLogEvent>, field: &str) -> (r: Vec<String>)
    ensures
        views(r@) == group_identities(events@, field@),
{
    let mut values: Vec<String> = Vec::new();
    let mut i: usize = 0;
    assert(events@.take(0) =~= Seq::<&StoredLogEvent>::empty());
    assert(views(values@) =~= Seq::<Seq<char>>::empty());
    while i < events.len()
        invariant
            i <= events@.len(),
            views(values@) == group_values(events@.take(i as int), field@),
        decreases events@.len() - i,
    {
        push_event_values(events[i], field, &mut values);
        assert(events@.take(i + 1).drop_last() =~= events@.take(i as int));
        i += 1;
    }
    assert(events@.take(i as int) =~= events@);
    ordered_set_of(&keep_nonempty(&values))
}

/// Whether one of an event's identities meets a selector.
pub open spec fn selector_met(selector: LinkSelector, event: StoredLogEvent) -> bool {
    some_value_meets(event_values(event, selector.field@), selector)
}

pub open spec fn some_value_meets(values: Seq<Seq<char>>, selector: LinkSelector) -> bool {
    exists|i: int|
        0 <= i < values.len() && (#[trigger] values[i]).len() > 0 && value_meets(
            values[i],
            selector,
        )
}

/// Whether an identity meets the value of a selector.
pub open spec fn value_meets(value: Seq<char>, selector: LinkSelector) -> bool {
    let candidate = normal_identity(value);
    let expected = normal_identity(selector.value@);
    if selector.operator@ == "exact"@ {
        candidate == expected
    } else if selector.operator@ == "contains"@ {
        occurs(candidate, expected)
    } else {
        false
    }
}

fn selector_matches_event(selector: &LinkSelector, event: &StoredLogEvent) -> (r: bool)
    ensures
        r == selector_met(*selector, *event),
{
    let expected = normalize_identity(selector.value.as_str());
    let mut values: Vec<String> = Vec::new();
    push_event_values(event, selector.field.as_str(), &mut values);
    let ghost all = event_values(*event, selector.field@);
    assert(views(values@) =~= all);
    let mut i: usize = 0;
    while i < values.len()
        invariant
            i <= values@.len(),
            all == event_values(*event, selector.field@),
            views(values@) == all,
            expected@ == normal_identity(selector.value@),
            forall|k: int|
                0 <= k < i ==> !((#[trigger] all[k]).len() > 0 && value_meets(all[k], *selector)),
        decreases values@.len() - i,
    {
        assert(all[i as int] == values@[i as int]@);
        if !values[i].as_str().is_empty() {
            let candidate = normalize_identity(values[i].as_str());
            let met = if str_eq(selector.operator.as_str(), "exact") {
                str_eq(candidate.as_str(), expected.as_str())
            } else if str_eq(selector.operator.as_str(), "contains") {
                contains(candidate.as_str(), expected.as_str())
            } else {
                false
            };
            if met {
                return true;
            }
        }
        i += 1;
    }
    false
}

/// Whether one event of a group meets every selector of a mapping.
pub open spec fn mapping_met(mapping: ContextMapping, events: Seq<&StoredLogEvent>) -> bool {
    exists|i: int| 0 <= i < events.len() && event_meets(mapping, *#[trigger] events[i])
}

pub open spec fn event_meets(mapping: ContextMapping, event: StoredLogEvent) -> bool {
    forall|k: int|
        0 <= k < mapping.selectors@.len() ==> selector_met(
            #[trigger] mapping.selectors@[k],
            event,
        )
}

fn mapping_matches(mapping: &ContextMapping, events: &Vec<&StoredLogEvent>) -> (r: bool)
    ensures
        r == mapping_met(*mapping, events@),
{
    let mut i: usize = 0;
    while i < events.len()
        invariant
            i <= events@.len(),
            forall|n: int| 0 <= n < i ==> !event_meets(*mapping, *#[trigger] events@[n]),
        decreases events@.len() - i,
    {
        let mut met: bool = true;
        let mut k: usize = 0;
        while k < mapping.selectors.len()
            invariant
                i < events@.len(),
                k <= mapping.selectors@.len(),
                met == forall|n: int|
                    0 <= n < k ==> selector_met(
                        #[trigger] mapping.selectors@[n],
                        *events@[i as int],
                    ),
            decreases mapping.selectors@.len() - k,
        {
            if !selector_matches_event(&mapping.selectors[k], events[i]) {
                met = false;
            }
            k += 1;
        }
        if met {
            assert(event_meets(*mapping, *events@[i as int]));
            return true;
        }
        i += 1;
    }
    false
}


/// The mappings that a group of events meets.
pub open spec fn matching<'a>(
    mappings: Seq<&'a ContextMapping>,
    events: Seq<&StoredLogEvent>,
) -> Seq<&'a ContextMapping>
    decreases mappings.len(),
{
    if mappings.len() == 0 {
        Seq::empty()
    } else if mapping_met(*mappings.last(), events) {
        matching(mappings.drop_last(), events).push(mappings.last())
    } else {
        matching(mappings.drop_last(), events)
    }
}

pub open spec fn exact_count(selectors: Seq<LinkSelector>) -> nat
    decreases selectors.len(),
{
    if selectors.len() == 0 {
        0
    } else {
        exact_count(selectors.drop_last()) + if selectors.last().operator@ == "exact"@ {
            1nat
        } else {
            0nat
        }
    }
}

/// How specific a mapping is: its selectors, then how many are exact.
pub open spec fn weight(mapping: ContextMapping) -> (nat, nat) {
    (mapping.selectors@.len(), exact_count(mapping.selectors@))
}

pub open spec fn lighter(a: (nat, nat), b: (nat, nat)) -> bool {
    a.0 < b.0 || (a.0 == b.0 && a.1 < b.1)
}

/// The weight of the most specific of some mappings.
pub open spec fn heaviest(mappings: Seq<&ContextMapping>) -> (nat, nat)
    decreases mappings.len(),
{
    if mappings.len() == 0 {
        (0, 0)
    } else {
        let before = heaviest(mappings.drop_last());
        if lighter(before, weight(*mappings.last())) {
            weight(*mappings.last())
        } else {
            before
        }
    }
}

pub open spec fn of_weight<'a>(mappings: Seq<&'a ContextMapping>, w: (nat, nat)) -> Seq<
    &'a ContextMapping,
>
    decreases mappings.len(),
{
    if mappings.len() == 0 {
        Seq::empty()
    } else if weight(*mappings.last()) == w {
        of_weight(mappings.drop_last(), w).push(mappings.last())
    } else {
        of_weight(mappings.drop_last(), w)
    }
}

/// The most specific of the mappings that a group of events meets.
pub open spec fn reviewed<'a>(
    mappings: Seq<&'a ContextMapping>,
    events: Seq<&StoredLogEvent>,
) -> Seq<&'a ContextMapping> {
    let met = matching(mappings, events);
    of_weight(met, heaviest(met))
}

fn count_exact(selectors: &Vec<LinkSelector>) -> (n: usize)
    ensures
        n == exact_count(selectors@),
        n <= selectors@.len(),
{
    let mut n: usize = 0;
    let mut i: usize = 0;
    assert(selectors@.take(0) =~= Seq::<LinkSelector>::empty());
    while i < selectors.len()
        invariant
            i <= selectors@.len(),
            n <= i,
            n == exact_count(selectors@.take(i as int)),
        decreases selectors@.len() - i,
    {
        assert(selectors@.take(i + 1).drop_last() =~= selectors@.take(i as int));
        if str_eq(selectors[i].operator.as_str(), "exact") {
            n += 1;
        }
        i += 1;
    }
    assert(selectors@.take(i as int) =~= selectors@);
    n
}

fn reviewed_mappings<'a>(
    mappings: &Vec<&'a ContextMapping>,
    events: &Vec<&StoredLogEvent>,
) -> (r: Vec<&'a ContextMapping>)
    ensures
        r@ == reviewed(mappings@, events@),
{
    let mut met: Vec<&'a ContextMapping> = Vec::new();
    let mut best: (usize, usize) = (0, 0);
    let mut i: usize = 0;
    assert(mappings@.take(0) =~= Seq::<&ContextMapping>::empty());
    while i < mappings.len()
        invariant
            i <= mappings@.len(),
            met@ == matching(mappings@.take(i as int), events@),
            best.0 == heaviest(met@).0,
            best.1 == heaviest(met@).1,
        decreases mappings@.len() - i,
    {
        assert(mappings@.take(i + 1).drop_last() =~= mappings@.take(i as int));
        let mapping: &'a ContextMapping = mappings[i];
        if mapping_matches(mapping, events) {
            let ghost before = met@;
            met.push(mapping);
            assert(met@.drop_last() =~= before);
            let exact: usize = count_exact(&mapping.selectors);
            let size: usize = mapping.selectors.len();
            if best.0 < size || (best.0 == size && best.1 < exact) {
                best = (size, exact);
            }
        }
        i += 1;
    }
    assert(mappings@.take(i as int) =~= mappings@);
    let mut r: Vec<&'a ContextMapping> = Vec::new();
    let mut k: usize = 0;
    let ghost w = heaviest(met@);
    assert(met@.take(0) =~= Seq::<&ContextMapping>::empty());
    while k < met.len()
        invariant
            k <= met@.len(),
            w == heaviest(met@),
            best.0 == w.0,
            best.1 == w.1,
            r@ == of_weight(met@.take(k as int), w),
        decreases met@.len() - k,
    {
        assert(met@.take(k + 1).drop_last() =~= met@.take(k as int));
        let mapping: &'a ContextMapping = met[k];
        let exact: usize = count_exact(&mapping.selectors);
        if mapping.selectors.len() == best.0 && exact == best.1 {
            r.push(mapping);
        }
        k += 1;
    }
    assert(met@.take(k as int) =~= met@);
    r
}

/// How a group of events was resolved.
#[derive(Debug, Clone, PartialEq, Eq)]
pub enum GroupResolution {
    Resolved { path: String, reason: String, merge_group: bool, matched_fields: Vec<String> },
    Ambiguous,
    Unresolved,
}

pub enum ResolutionView {
    Resolved {
        path: Seq<char>,
        reason: Seq<char>,
        merge_group: bool,
        matched_fields: Seq<Seq<char>>,
    },
    Ambiguous,
    Unresolved,
}

impl View for GroupResolution {
    type V = ResolutionView;

    open spec fn view(&self) -> ResolutionView {
        match self {
            GroupResolution::Resolved { path, reason, merge_group, matched_fields } =>
                ResolutionView::Resolved {
                path: path@,
                reason: reason@,
                merge_group: *merge_group,
                matched_fields: views(matched_fields@),
            },
            GroupResolution::Ambiguous => ResolutionView::Ambiguous,
            GroupResolution::Unresolved => ResolutionView::Unresolved,
        }
    }
}

/// Fields that name one piece of work, across repositories and sources.
pub open spec fn is_durable(field: Seq<char>) -> bool {
    field == "work_item"@ || field == "pull_request"@
}

pub open spec fn has_durable(fields: Seq<Seq<char>>) -> bool {
    exists|i: int| 0 <= i < fields.len() && is_durable(#[trigger] fields[i])
}

pub open spec fn selector_fields(selectors: Seq<LinkSelector>) -> Seq<Seq<char>> {
    selectors.map_values(|s: LinkSelector| s.field@)
}

pub open spec fn mapping_paths(mappings: Seq<&ContextMapping>) -> Seq<Seq<char>> {
    mappings.map_values(|m: &ContextMapping| m.canonical_note_path@)
}

pub open spec fn mapping_fields(mappings: Seq<&ContextMapping>) -> Seq<Seq<char>>
    decreases mappings.len(),
{
    if mappings.len() == 0 {
        Seq::empty()
    } else {
        mapping_fields(mappings.drop_last()) + selector_fields(mappings.last().selectors@)
    }
}

/// How many mappings name a note that is not there.
pub open spec fn broken_count(mappings: Seq<&ContextMapping>, existing: Seq<Seq<char>>) -> nat
    decreases mappings.len(),
{
    if mappings.len() == 0 {
        0
    } else {
        broken_count(mappings.drop_last(), existing) + if existing.contains(
            mappings.last().canonical_note_path@,
        ) {
            0nat
        } else {
            1nat
        }
    }
}

/// What saved mappings say of a group: nothing without a mapping; no link where
/// one of them is broken; else their one note.
pub open spec fn mapped_resolution(
    chosen: Seq<&ContextMapping>,
    existing: Seq<Seq<char>>,
) -> Option<ResolutionView> {
    let paths = ordered_set(mapping_paths(chosen));
    if chosen.len() == 0 {
        None
    } else if broken_count(chosen, existing) > 0 {
        Some(ResolutionView::Unresolved)
    } else if paths.len() == 1 {
        Some(
            ResolutionView::Resolved {
                path: paths[0],
                reason: "saved_mapping"@,
                merge_group: has_durable(mapping_fields(chosen)),
                matched_fields: ordered_set(mapping_fields(chosen)),
            },
        )
    } else {
        Some(ResolutionView::Ambiguous)
    }
}

pub fn has_durable_field(fields: &Vec<String>) -> (r: bool)
    ensures
        r == has_durable(views(fields@)),
{
    let mut i: usize = 0;
    while i < fields.len()
        invariant
            i <= fields@.len(),
            forall|k: int| 0 <= k < i ==> !is_durable(#[trigger] views(fields@)[k]),
        decreases fields@.len() - i,
    {
        if str_eq(fields[i].as_str(), "work_item") || str_eq(fields[i].as_str(), "pull_request") {
            assert(is_durable(views(fields@)[i as int]));
            return true;
        }
        i += 1;
    }
    false
}

fn push_selector_fields(selectors: &Vec<LinkSelector>, out: &mut Vec<String>)
    ensures
        views(final(out)@) == views(old(out)@) + selector_fields(selectors@),
{
    broadcast use lemma_views_push;
    let mut i: usize = 0;
    let ghost before = views(out@);
    let ghost all = selector_fields(selectors@);
    assert(before + all.take(0) =~= before);
    while i < selectors.len()
        invariant
            i <= selectors@.len(),
            all == selector_fields(selectors@),
            views(out@) == before + all.take(i as int),
        decreases selectors@.len() - i,
    {
        let ghost mid = views(out@);
        out.push(selectors[i].field.as_str().to_owned());
        proof {
            lemma_take_step(all, i as int);
            assert(all[i as int] == selectors@[i as int].field@);
            assert(views(out@) == mid.push(all[i as int]));
            assert(views(out@) =~= before + all.take(i + 1));
        }
        i += 1;
    }
    assert(all.take(i as int) =~= all);
}

fn resolve_mapped(
    chosen: &Vec<&ContextMapping>,
    existing: &Vec<String>,
    invalid_mapping_count: &mut usize,
) -> (r: Option<GroupResolution>)
    requires
        *old(invalid_mapping_count) + chosen@.len() <= usize::MAX,
    ensures
        match r {
            Some(resolution) => mapped_resolution(chosen@, views(existing@)) == Some(resolution@),
            None => mapped_resolution(chosen@, views(existing@)) is None,
        },
        *final(invalid_mapping_count) == *old(invalid_mapping_count) + broken_count(
            chosen@,
            views(existing@),
        ),
{
    broadcast use lemma_views_push;
    let mut paths: Vec<String> = Vec::new();
    let mut fields: Vec<String> = Vec::new();
    let mut broken: usize = 0;
    let mut i: usize = 0;
    let ghost notes = views(existing@);
    let ghost all = mapping_paths(chosen@);
    assert(chosen@.take(0) =~= Seq::<&ContextMapping>::empty());
    assert(views(paths@) =~= all.take(0));
    assert(views(fields@) =~= Seq::<Seq<char>>::empty());
    while i < chosen.len()
        invariant
            i <= chosen@.len(),
            notes == views(existing@),
            all == mapping_paths(chosen@),
            broken <= i,
            broken == broken_count(chosen@.take(i as int), notes),
            views(paths@) == all.take(i as int),
            views(fields@) == mapping_fields(chosen@.take(i as int)),
        decreases chosen@.len() - i,
    {
        assert(chosen@.take(i + 1).drop_last() =~= chosen@.take(i as int));
        let mapping: &ContextMapping = chosen[i];
        if !contains_text(existing, mapping.canonical_note_path.as_str()) {
            broken += 1;
        }
        paths.push(mapping.canonical_note_path.as_str().to_owned());
        push_selector_fields(&mapping.selectors, &mut fields);
        proof {
            lemma_take_step(all, i as int);
        }
        i += 1;
    }
    assert(chosen@.take(i as int) =~= chosen@);
    assert(all.take(i as int) =~= all);
    *invalid_mapping_count = *invalid_mapping_count + broken;
    if chosen.len() == 0 {
        return None;
    }
    if broken > 0 {
        return Some(GroupResolution::Unresolved);
    }
    let mut unique = ordered_set_of(&paths);
    assert(views(unique@).len() == unique@.len());
    if unique.len() == 1 {
        let path = unique[0].as_str().to_owned();
        assert(path@ == views(unique@)[0]);
        Some(
            GroupResolution::Resolved {
                path,
                reason: "saved_mapping".to_owned(),
                merge_group: has_durable_field(&fields),
                matched_fields: ordered_set_of(&fields),
            },
        )
    } else {
        Some(GroupResolution::Ambiguous)
    }
}


/// The fields whose identities may link a note without a saved mapping, in order.
pub open spec fn automatic_fields() -> Seq<Seq<char>> {
    seq![
        "app"@,
        "module"@,
        "product"@,
        "project"@,
        "pull_request"@,
        "repo"@,
        "service"@,
        "work_item"@,
    ]
}

pub fn automatic_field_names() -> (r: Vec<String>)
    ensures
        views(r@) == automatic_fields(),
{
    let mut r: Vec<String> = Vec::new();
    r.push("app".to_owned());
    r.push("module".to_owned());
    r.push("product".to_owned());
    r.push("project".to_owned());
    r.push("pull_request".to_owned());
    r.push("repo".to_owned());
    r.push("service".to_owned());
    r.push("work_item".to_owned());
    assert(views(r@) =~= automatic_fields());
    r
}

/// Whether two lists share a name, without regard to case.
pub open spec fn shares(values: Seq<Seq<char>>, names: Seq<Seq<char>>) -> bool {
    exists|i: int, k: int|
        0 <= i < values.len() && 0 <= k < names.len() && normal_identity(#[trigger] values[i])
            == normal_identity(#[trigger] names[k])
}

/// The reference values of a note in a field.
pub open spec fn references_in(references: Seq<(String, Vec<String>)>, field: Seq<char>) -> Seq<
    Seq<char>,
>
    decreases references.len(),
{
    if references.len() == 0 {
        Seq::empty()
    } else if references[0].0@ == field {
        views(references[0].1@)
    } else {
        references_in(references.drop_first(), field)
    }
}

pub open spec fn title_matches(
    note: ParsedKnowledgeNote,
    events: Seq<&StoredLogEvent>,
    field: Seq<char>,
) -> bool {
    shares(group_identities(events, field), seq![note.title@])
}

pub open spec fn alias_matches(
    note: ParsedKnowledgeNote,
    events: Seq<&StoredLogEvent>,
    field: Seq<char>,
) -> bool {
    shares(group_identities(events, field), views(note.aliases@))
}

pub open spec fn reference_named(
    note: ParsedKnowledgeNote,
    events: Seq<&StoredLogEvent>,
    field: Seq<char>,
) -> bool {
    shares(group_identities(events, field), references_in(note.references@, field))
}

/// The fields in which a note is named by its title, an alias or a reference.
pub open spec fn matched_fields(
    note: ParsedKnowledgeNote,
    events: Seq<&StoredLogEvent>,
    fields: Seq<Seq<char>>,
) -> Seq<Seq<char>>
    decreases fields.len(),
{
    if fields.len() == 0 {
        Seq::empty()
    } else {
        let before = matched_fields(note, events, fields.drop_last());
        let field = fields.last();
        if title_matches(note, events, field) || alias_matches(note, events, field)
            || reference_named(note, events, field) {
            before.push(field)
        } else {
            before
        }
    }
}

/// The strongest way in which a note is named.
pub open spec fn match_reason(note: ParsedKnowledgeNote, events: Seq<&StoredLogEvent>) -> Seq<
    char,
> {
    let fields = automatic_fields();
    if exists|i: int| 0 <= i < fields.len() && title_matches(note, events, #[trigger] fields[i]) {
        "exact_title"@
    } else if exists|i: int|
        0 <= i < fields.len() && alias_matches(note, events, #[trigger] fields[i]) {
        "exact_alias"@
    } else {
        "exact_reference"@
    }
}

/// The notes that a group of events names.
pub open spec fn named_notes(catalog: Seq<CatalogNote>, events: Seq<&StoredLogEvent>) -> Seq<
    CatalogNote,
>
    decreases catalog.len(),
{
    if catalog.len() == 0 {
        Seq::empty()
    } else {
        let before = named_notes(catalog.drop_last(), events);
        if matched_fields(catalog.last().note, events, automatic_fields()).len() > 0 {
            before.push(catalog.last())
        } else {
            before
        }
    }
}

/// What the catalog says of a group: its one note that the events name.
pub open spec fn automatic_resolution(
    catalog: Seq<CatalogNote>,
    events: Seq<&StoredLogEvent>,
) -> ResolutionView {
    let named = named_notes(catalog, events);
    if named.len() == 0 {
        ResolutionView::Unresolved
    } else if named.len() == 1 {
        let fields = matched_fields(named[0].note, events, automatic_fields());
        ResolutionView::Resolved {
            path: named[0].note.path@,
            reason: match_reason(named[0].note, events),
            merge_group: has_durable(fields),
            matched_fields: fields,
        }
    } else {
        ResolutionView::Ambiguous
    }
}

/// How a group of events is resolved: by its saved mappings, and where it meets
/// none, by the catalog.
pub open spec fn group_resolution(
    existing: Seq<Seq<char>>,
    catalog: Seq<CatalogNote>,
    mappings: Seq<&ContextMapping>,
    events: Seq<&StoredLogEvent>,
) -> ResolutionView {
    match mapped_resolution(reviewed(mappings, events), existing) {
        Some(resolution) => resolution,
        None => automatic_resolution(catalog, events),
    }
}

fn share_a_name(values: &Vec<String>, names: &Vec<String>) -> (r: bool)
    ensures
        r == shares(views(values@), views(names@)),
{
    let ghost vs = views(values@);
    let ghost ns = views(names@);
    let mut i: usize = 0;
    while i < values.len()
        invariant
            i <= values@.len(),
            vs == views(values@),
            ns == views(names@),
            forall|a: int, b: int|
                0 <= a < i && 0 <= b < ns.len() ==> normal_identity(#[trigger] vs[a])
                    != normal_identity(#[trigger] ns[b]),
        decreases values@.len() - i,
    {
        let value = normalize_identity(values[i].as_str());
        let mut k: usize = 0;
        while k < names.len()
            invariant
                i < values@.len(),
                k <= names@.len(),
                vs == views(values@),
                ns == views(names@),
                value@ == normal_identity(vs[i as int]),
                forall|b: int|
                    0 <= b < k ==> normal_identity(vs[i as int]) != normal_identity(
                        #[trigger] ns[b],
                    ),
            decreases names@.len() - k,
        {
            let name = normalize_identity(names[k].as_str());
            if str_eq(value.as_str(), name.as_str()) {
                assert(normal_identity(vs[i as int]) == normal_identity(ns[k as int]));
                return true;
            }
            k += 1;
        }
        i += 1;
    }
    false
}

fn references_of<'a>(references: &'a Vec<(String, Vec<String>)>, field: &str) -> (r: Option<
    &'a Vec<String>,
>)
    ensures
        match r {
            Some(values) => references_in(references@, field@) == views(values@),
            None => references_in(references@, field@).len() == 0,
        },
{
    let mut i: usize = 0;
    assert(references@.skip(0) =~= references@);
    while i < references.len()
        invariant
            i <= references@.len(),
            references_in(references@, field@) == references_in(
                references@.skip(i as int),
                field@,
            ),
        decreases references@.len() - i,
    {
        assert(references@.skip(i as int).drop_first() =~= references@.skip(i + 1));
        if str_eq(references[i].0.as_str(), field) {
            return Some(&references[i].1);
        }
        i += 1;
    }
    None
}

/// How a note is named: in which fields, and whether by its title or an alias.
struct NoteMatch {
    fields: Vec<String>,
    by_title: bool,
    by_alias: bool,
}

spec fn named_by_title(note: ParsedKnowledgeNote, events: Seq<&StoredLogEvent>, upto: int) -> bool {
    exists|i: int|
        0 <= i < upto && title_matches(note, events, #[trigger] automatic_fields()[i])
}

spec fn named_by_alias(note: ParsedKnowledgeNote, events: Seq<&StoredLogEvent>, upto: int) -> bool {
    exists|i: int|
        0 <= i < upto && alias_matches(note, events, #[trigger] automatic_fields()[i])
}

/// The identities of a group in each of the automatic fields.
spec fn identities_by_field(
    identities: Seq<Vec<String>>,
    events: Seq<&StoredLogEvent>,
) -> bool {
    &&& identities.len() == automatic_fields().len()
    &&& forall|i: int|
        0 <= i < identities.len() ==> views((#[trigger] identities[i])@) == group_identities(
            events,
            automatic_fields()[i],
        )
}

fn match_note(
    note: &ParsedKnowledgeNote,
    Ghost(events): Ghost<Seq<&StoredLogEvent>>,
    names: &Vec<String>,
    identities: &Vec<Vec<String>>,
) -> (r: NoteMatch)
    requires
        views(names@) == automatic_fields(),
        identities_by_field(identities@, events),
    ensures
        views(r.fields@) == matched_fields(*note, events, automatic_fields()),
        r.by_title == named_by_title(*note, events, automatic_fields().len() as int),
        r.by_alias == named_by_alias(*note, events, automatic_fields().len() as int),
{
    broadcast use lemma_views_push;
    let mut fields: Vec<String> = Vec::new();
    let mut by_title: bool = false;
    let mut by_alias: bool = false;
    let mut titles: Vec<String> = Vec::new();
    titles.push(note.title.as_str().to_owned());
    assert(views(titles@) =~= seq![note.title@]);
    let ghost all = automatic_fields();
    assert(views(fields@) =~= matched_fields(*note, events, all.take(0)));
    assert(names@.len() == views(names@).len());
    let mut i: usize = 0;
    while i < names.len()
        invariant
            i <= names@.len(),
            all == automatic_fields(),
            views(names@) == all,
            names@.len() == all.len(),
            identities_by_field(identities@, events),
            views(titles@) == seq![note.title@],
            views(fields@) == matched_fields(*note, events, all.take(i as int)),
            by_title == named_by_title(*note, events, i as int),
            by_alias == named_by_alias(*note, events, i as int),
        decreases names@.len() - i,
    {
        let field: &String = &names[i];
        assert(field@ == all[i as int]);
        let values: &Vec<String> = &identities[i];
        let title = share_a_name(values, &titles);
        let alias = share_a_name(values, &note.aliases);
        let reference = match references_of(&note.references, field.as_str()) {
            Some(references) => share_a_name(values, references),
            None => false,
        };
        assert(reference == reference_named(*note, events, field@));
        proof {
            lemma_take_step(all, i as int);
        }
        if title || alias || reference {
            fields.push(field.as_str().to_owned());
        }
        by_title = by_title || title;
        by_alias = by_alias || alias;
        proof {
            if title {
                assert(title_matches(*note, events, all[i as int]));
            }
            if alias {
                assert(alias_matches(*note, events, all[i as int]));
            }
        }
        i += 1;
    }
    assert(all.take(i as int) =~= all);
    NoteMatch { fields, by_title, by_alias }
}

fn resolve_automatic(catalog: &Vec<CatalogNote>, events: &Vec<&StoredLogEvent>) -> (r:
    GroupResolution)
    ensures
        r@ == automatic_resolution(catalog@, events@),
{
    let names = automatic_field_names();
    let mut identities: Vec<Vec<String>> = Vec::new();
    let mut n: usize = 0;
    assert(names@.len() == views(names@).len());
    while n < names.len()
        invariant
            n <= names@.len(),
            views(names@) == automatic_fields(),
            names@.len() == automatic_fields().len(),
            identities@.len() == n,
            forall|i: int|
                0 <= i < n ==> views((#[trigger] identities@[i])@) == group_identities(
                    events@,
                    automatic_fields()[i],
                ),
        decreases names@.len() - n,
    {
        assert(names@[n as int]@ == views(names@)[n as int]);
        identities.push(field_identities(events, names[n].as_str()));
        n += 1;
    }
    let mut found: Option<(usize, NoteMatch)> = None;
    let mut i: usize = 0;
    assert(catalog@.take(0) =~= Seq::<CatalogNote>::empty());
    while i < catalog.len()
        invariant
            i <= catalog@.len(),
            views(names@) == automatic_fields(),
            identities_by_field(identities@, events@),
            ({
                let named = named_notes(catalog@.take(i as int), events@);
                match found {
                    None => named.len() == 0,
                    Some((at, m)) => {
                        &&& at < i
                        &&& named.len() == 1
                        &&& named[0] == catalog@[at as int]
                        &&& views(m.fields@) == matched_fields(
                            catalog@[at as int].note,
                            events@,
                            automatic_fields(),
                        )
                        &&& m.by_title == named_by_title(
                            catalog@[at as int].note,
                            events@,
                            automatic_fields().len() as int,
                        )
                        &&& m.by_alias == named_by_alias(
                            catalog@[at as int].note,
                            events@,
                            automatic_fields().len() as int,
                        )
                    },
                }
            }),
        decreases catalog@.len() - i,
    {
        proof {
            lemma_take_step(catalog@, i as int);
        }
        let m = match_note(&catalog[i].note, Ghost(events@), &names, &identities);
        assert(views(m.fields@).len() == m.fields@.len());
        if m.fields.len() > 0 {
            if found.is_some() {
                proof {
                    lemma_named_grows(catalog@, events@, i + 1);
                }
                return GroupResolution::Ambiguous;
            }
            found = Some((i, m));
        }
        i += 1;
    }
    assert(catalog@.take(i as int) =~= catalog@);
    match found {
        None => GroupResolution::Unresolved,
        Some((at, m)) => {
            let reason: &str = if m.by_title {
                "exact_title"
            } else if m.by_alias {
                "exact_alias"
            } else {
                "exact_reference"
            };
            GroupResolution::Resolved {
                path: catalog[at].note.path.as_str().to_owned(),
                reason: reason.to_owned(),
                merge_group: has_durable_field(&m.fields),
                matched_fields: m.fields,
            }
        },
    }
}

proof fn lemma_named_grows(catalog: Seq<CatalogNote>, events: Seq<&StoredLogEvent>, upto: int)
    requires
        0 <= upto <= catalog.len(),
    ensures
        named_notes(catalog.take(upto), events).len() <= named_notes(catalog, events).len(),
    decreases catalog.len() - upto,
{
    if upto < catalog.len() {
        lemma_take_step(catalog, upto);
        lemma_named_grows(catalog, events, upto + 1);
    } else {
        assert(catalog.take(upto) =~= catalog);
    }
}

/// Resolves a group of events. `existing` holds the paths of the notes that are
/// there, as far as mappings name them.
pub fn resolve_group(
    existing: &Vec<String>,
    catalog: &Vec<CatalogNote>,
    mappings: &Vec<&ContextMapping>,
    events: &Vec<&StoredLogEvent>,
    invalid_mapping_count: &mut usize,
) -> (r: GroupResolution)
    requires
        *old(invalid_mapping_count) + mappings@.len() <= usize::MAX,
    ensures
        r@ == group_resolution(views(existing@), catalog@, mappings@, events@),
        *final(invalid_mapping_count) == *old(invalid_mapping_count) + broken_count(
            reviewed(mappings@, events@),
            views(existing@),
        ),
{
    let chosen = reviewed_mappings(mappings, events);
    proof {
        lemma_reviewed_len(mappings@, events@);
    }
    match resolve_mapped(&chosen, existing, invalid_mapping_count) {
        Some(resolution) => resolution,
        None => resolve_automatic(catalog, events),
    }
}

pub proof fn lemma_reviewed_len(mappings: Seq<&ContextMapping>, events: Seq<&StoredLogEvent>)
    ensures
        reviewed(mappings, events).len() <= mappings.len(),
{
    let met = matching(mappings, events);
    lemma_matching_len(mappings, events);
    lemma_of_weight_len(met, heaviest(met));
}

proof fn lemma_matching_len(mappings: Seq<&ContextMapping>, events: Seq<&StoredLogEvent>)
    ensures
        matching(mappings, events).len() <= mappings.len(),
    decreases mappings.len(),
{
    if mappings.len() > 0 {
        lemma_matching_len(mappings.drop_last(), events);
    }
}

proof fn lemma_of_weight_len(mappings: Seq<&ContextMapping>, w: (nat, nat))
    ensures
        of_weight(mappings, w).len() <= mappings.len(),
    decreases mappings.len(),
{
    if mappings.len() > 0 {
        lemma_of_weight_len(mappings.drop_last(), w);
    }
}

} // verus!
