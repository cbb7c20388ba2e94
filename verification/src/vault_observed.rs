//! The identities that events show, and the notes that they stand for.
use crate::curation::at_most;
use crate::details::field_pair_views;
use crate::models::StoredLogEvent;
use crate::ordered::{
    Ranked, lemma_ranked_views, ordered_set, ordered_set_of, precedes, sort_ranked, sorted_by,
    str_less, views_of,
};
use crate::text::{
    chars_of, lemma_take_step, lemma_views_push, str_eq, string_of, trim, trimmed, views,
};
use crate::vault::{
    VaultCatalog, VaultLinkRule, VaultNote, exact_note_matches, metadata_texts, names_identity,
    notes_named_by, scalar_strings, selectors_match_identity,
};
use crate::vault_catalog::{VaultContextProvider, VaultFiles, catalog_is, note_id};
use crate::vault_links::{link_by_id, link_with_id, metadata_field_list, metadata_fields};
use vstd::prelude::*;
use vstd::string::*;

verus! {

/// A note that an identity may stand for.
#[derive(Debug, Clone, PartialEq, Eq)]
pub struct LinkSuggestion {
    pub note_id: String,
    pub reason: String,
}

/// An identity that events show.
#[derive(Debug, Clone, PartialEq, Eq)]
pub struct ObservedIdentity {
    pub field: String,
    pub value: String,
    pub event_count: usize,
    pub status: String,
    pub resolved_notes: Vec<String>,
    pub suggestions: Vec<LinkSuggestion>,
    pub sample_message: String,
}

pub struct ObservedView {
    pub field: Seq<char>,
    pub value: Seq<char>,
    pub event_count: nat,
    pub status: Seq<char>,
    pub resolved_notes: Seq<Seq<char>>,
    pub suggestions: Seq<(Seq<char>, Seq<char>)>,
    pub sample_message: Seq<char>,
}

pub open spec fn suggestion_views(s: Seq<LinkSuggestion>) -> Seq<(Seq<char>, Seq<char>)> {
    s.map_values(|x: LinkSuggestion| (x.note_id@, x.reason@))
}

impl View for ObservedIdentity {
    type V = ObservedView;

    open spec fn view(&self) -> ObservedView {
        ObservedView {
            field: self.field@,
            value: self.value@,
            event_count: self.event_count as nat,
            status: self.status@,
            resolved_notes: views(self.resolved_notes@),
            suggestions: suggestion_views(self.suggestions@),
            sample_message: self.sample_message@,
        }
    }
}

/// A value that an event has in a field.
struct Sighting<'a> {
    field: &'static str,
    value: String,
    message: &'a str,
}

pub struct SightingView {
    pub field: Seq<char>,
    pub value: Seq<char>,
    pub message: Seq<char>,
}

impl<'a> View for Sighting<'a> {
    type V = SightingView;

    closed spec fn view(&self) -> SightingView {
        SightingView { field: self.field@, value: self.value@, message: self.message@ }
    }
}

spec fn sighting_views(s: Seq<Sighting>) -> Seq<SightingView> {
    s.map_values(|x: Sighting| x@)
}

/// The values of a field that are not blank.
pub open spec fn value_sightings(
    field: Seq<char>,
    values: Seq<Seq<char>>,
    message: Seq<char>,
) -> Seq<SightingView>
    decreases values.len(),
{
    if values.len() == 0 {
        Seq::empty()
    } else {
        let before = value_sightings(field, values.drop_last(), message);
        if trimmed(values.last()).len() == 0 {
            before
        } else {
            before.push(SightingView { field, value: values.last(), message })
        }
    }
}

/// What an event shows under some metadata keys.
pub open spec fn field_sightings(
    event: StoredLogEvent,
    fields: Seq<(Seq<char>, Seq<char>)>,
) -> Seq<SightingView>
    decreases fields.len(),
{
    if fields.len() == 0 {
        Seq::empty()
    } else {
        field_sightings(event, fields.drop_last()) + value_sightings(
            fields.last().1,
            metadata_texts(event, fields.last().0),
            event.message@,
        )
    }
}

/// What some events show: their sources, and their metadata.
pub open spec fn sightings(events: Seq<StoredLogEvent>) -> Seq<SightingView>
    decreases events.len(),
{
    if events.len() == 0 {
        Seq::empty()
    } else {
        let event = events.last();
        sightings(events.drop_last()) + value_sightings(
            "source"@,
            seq![event.source@],
            event.message@,
        ) + field_sightings(event, metadata_fields())
    }
}

/// How often an identity is shown.
pub open spec fn times_shown(all: Seq<SightingView>, field: Seq<char>, value: Seq<char>) -> nat
    decreases all.len(),
{
    if all.len() == 0 {
        0
    } else {
        times_shown(all.drop_last(), field, value) + if all.last().field == field
            && all.last().value == value {
            1nat
        } else {
            0nat
        }
    }
}

/// An identity, how often it is shown, and the message that showed it first.
struct SeenIdentity<'a> {
    field: &'static str,
    value: String,
    event_count: usize,
    message: &'a str,
}

pub struct SeenView {
    pub field: Seq<char>,
    pub value: Seq<char>,
    pub event_count: nat,
    pub message: Seq<char>,
}

impl<'a> View for SeenIdentity<'a> {
    type V = SeenView;

    closed spec fn view(&self) -> SeenView {
        SeenView {
            field: self.field@,
            value: self.value@,
            event_count: self.event_count as nat,
            message: self.message@,
        }
    }
}

spec fn seen_views(s: Seq<SeenIdentity>) -> Seq<SeenView> {
    s.map_values(|x: SeenIdentity| x@)
}

pub open spec fn is_seen(seen: Seq<SeenView>, field: Seq<char>, value: Seq<char>) -> bool {
    exists|k: int|
        0 <= k < seen.len() && (#[trigger] seen[k]).field == field && seen[k].value == value
}

/// The identities among the first `n` sightings, each once.
pub open spec fn identities_seen(all: Seq<SightingView>, n: nat) -> Seq<SeenView>
    decreases n,
{
    if n == 0 {
        Seq::empty()
    } else {
        let before = identities_seen(all, (n - 1) as nat);
        let s = all[n - 1];
        if is_seen(before, s.field, s.value) {
            before
        } else {
            before.push(
                SeenView {
                    field: s.field,
                    value: s.value,
                    event_count: times_shown(all, s.field, s.value),
                    message: s.message,
                },
            )
        }
    }
}

/// The most frequent first, then by field, then by value.
pub open spec fn seen_before(a: SeenView, b: SeenView) -> bool {
    a.event_count > b.event_count || (a.event_count == b.event_count && (precedes(a.field, b.field)
        || (a.field == b.field && precedes(a.value, b.value))))
}

pub open spec fn seen_order() -> spec_fn(SeenView, SeenView) -> bool {
    |a: SeenView, b: SeenView| seen_before(a, b)
}

impl<'a> Ranked for SeenIdentity<'a> {
    closed spec fn ranks_before(&self, other: &Self) -> bool {
        seen_before(self@, other@)
    }

    fn is_before(&self, other: &Self) -> (r: bool) {
        self.event_count > other.event_count || (self.event_count == other.event_count && (
        str_less(self.field, other.field) || (str_eq(self.field, other.field) && str_less(
            self.value.as_str(),
            other.value.as_str(),
        ))))
    }
}

/// The links of the rules that name an identity alone.
pub open spec fn identity_links(
    notes: Seq<VaultNote>,
    rules: Seq<VaultLinkRule>,
    field: Seq<char>,
    value: Seq<char>,
) -> Seq<Seq<char>>
    decreases rules.len(),
{
    if rules.len() == 0 {
        Seq::empty()
    } else {
        let before = identity_links(notes, rules.drop_last(), field, value);
        let rule = rules.last();
        match link_by_id(notes, rule.target_note_id@) {
            Some(link) => if rule.enabled && names_identity(rule.selectors@, field, value) {
                before.push(link)
            } else {
                before
            },
            None => before,
        }
    }
}

/// The notes that an identity stands for: those of its rules, or the only note
/// that it names.
pub open spec fn resolved_links(
    notes: Seq<VaultNote>,
    rules: Seq<VaultLinkRule>,
    field: Seq<char>,
    value: Seq<char>,
) -> Seq<Seq<char>> {
    let by_rule = ordered_set(identity_links(notes, rules, field, value));
    let named = notes_named_by(notes, value);
    if by_rule.len() == 0 && named.len() == 1 {
        seq![named[0].wikilink@]
    } else {
        by_rule
    }
}

pub open spec fn suggestions_of(named: Seq<&VaultNote>) -> Seq<(Seq<char>, Seq<char>)> {
    named.map_values(|n: &VaultNote| (n.id@, "Exact title or alias"@))
}

pub open spec fn observed_status(resolved: nat, suggested: nat) -> Seq<char> {
    if resolved == 1 {
        "resolved"@
    } else if resolved > 1 || suggested > 1 {
        "ambiguous"@
    } else {
        "unresolved"@
    }
}

/// What is reported of an identity.
pub open spec fn report_of(
    seen: SeenView,
    notes: Seq<VaultNote>,
    rules: Seq<VaultLinkRule>,
) -> ObservedView {
    let resolved = resolved_links(notes, rules, seen.field, seen.value);
    let named = notes_named_by(notes, seen.value);
    ObservedView {
        field: seen.field,
        value: seen.value,
        event_count: seen.event_count,
        status: observed_status(resolved.len(), named.len()),
        resolved_notes: resolved,
        suggestions: suggestions_of(named),
        sample_message: at_most(seen.message, 180),
    }
}

pub open spec fn reports_of(
    seen: Seq<SeenView>,
    notes: Seq<VaultNote>,
    rules: Seq<VaultLinkRule>,
) -> Seq<ObservedView> {
    seen.map_values(|s: SeenView| report_of(s, notes, rules))
}

pub open spec fn observed_views(s: Seq<ObservedIdentity>) -> Seq<ObservedView> {
    s.map_values(|o: ObservedIdentity| o@)
}

/// The identities that events show, the most frequent first.
pub open spec fn observations(
    events: Seq<StoredLogEvent>,
    notes: Seq<VaultNote>,
    rules: Seq<VaultLinkRule>,
) -> Seq<ObservedView> {
    let all = sightings(events);
    reports_of(sorted_by(identities_seen(all, all.len()), seen_order()), notes, rules)
}

fn add_observed<'a>(
    out: &mut Vec<Sighting<'a>>,
    field: &'static str,
    values: &Vec<String>,
    message: &'a str,
)
    ensures
        sighting_views(final(out)@) == sighting_views(old(out)@) + value_sightings(
            field@,
            views(values@),
            message@,
        ),
{
    let ghost before = sighting_views(out@);
    let ghost all = views(values@);
    let mut i: usize = 0;
    assert(all.take(0) =~= Seq::<Seq<char>>::empty());
    assert(before + Seq::<SightingView>::empty() =~= before);
    while i < values.len()
        invariant
            i <= values@.len(),
            all == views(values@),
            sighting_views(out@) == before + value_sightings(
                field@,
                all.take(i as int),
                message@,
            ),
        decreases values@.len() - i,
    {
        proof {
            lemma_take_step(all, i as int);
        }
        if !trim(values[i].as_str()).as_str().is_empty() {
            let ghost mid = sighting_views(out@);
            let ghost done = value_sightings(field@, all.take(i as int), message@);
            let one = Sighting { field, value: values[i].as_str().to_owned(), message };
            out.push(one);
            assert(sighting_views(out@) =~= mid.push(one@));
            assert((before + done).push(one@) =~= before + done.push(one@));
        }
        i += 1;
    }
    assert(all.take(i as int) =~= all);
}

fn add_event<'a>(out: &mut Vec<Sighting<'a>>, event: &'a StoredLogEvent)
    ensures
        sighting_views(final(out)@) == sighting_views(old(out)@) + value_sightings(
            "source"@,
            seq![event.source@],
            event.message@,
        ) + field_sightings(*event, metadata_fields()),
{
    let mut sources: Vec<String> = Vec::new();
    sources.push(event.source.as_str().to_owned());
    assert(views(sources@) =~= seq![event.source@]);
    add_observed(out, "source", &sources, event.message.as_str());
    let fields = metadata_field_list();
    let ghost all = metadata_fields();
    let ghost before = sighting_views(out@);
    let mut i: usize = 0;
    assert(all.take(0) =~= Seq::<(Seq<char>, Seq<char>)>::empty());
    assert(before + Seq::<SightingView>::empty() =~= before);
    while i < fields.len()
        invariant
            i <= fields@.len(),
            all == field_pair_views(fields@),
            sighting_views(out@) == before + field_sightings(*event, all.take(i as int)),
        decreases fields@.len() - i,
    {
        proof {
            lemma_take_step(all, i as int);
        }
        let ghost done = field_sightings(*event, all.take(i as int));
        let values: Vec<String> = match event.get(fields[i].0) {
            Some(value) => scalar_strings(value),
            None => {
                let none: Vec<String> = Vec::new();
                assert(views(none@) =~= Seq::<Seq<char>>::empty());
                none
            },
        };
        add_observed(out, fields[i].1, &values, event.message.as_str());
        assert(before + done + value_sightings(
            all[i as int].1,
            views(values@),
            event.message@,
        ) =~= before + (done + value_sightings(all[i as int].1, views(values@), event.message@)));
        i += 1;
    }
    assert(all.take(i as int) =~= all);
}

fn count_shown(all: &Vec<Sighting>, field: &str, value: &str) -> (r: usize)
    ensures
        r == times_shown(sighting_views(all@), field@, value@),
{
    let ghost views = sighting_views(all@);
    let mut r: usize = 0;
    let mut i: usize = 0;
    assert(views.take(0) =~= Seq::<SightingView>::empty());
    while i < all.len()
        invariant
            i <= all@.len(),
            r <= i,
            views == sighting_views(all@),
            r == times_shown(views.take(i as int), field@, value@),
        decreases all@.len() - i,
    {
        proof {
            lemma_take_step(views, i as int);
        }
        if str_eq(all[i].field, field) && str_eq(all[i].value.as_str(), value) {
            r += 1;
        }
        i += 1;
    }
    assert(views.take(i as int) =~= views);
    r
}

fn seen_already(seen: &Vec<SeenIdentity>, field: &str, value: &str) -> (r: bool)
    ensures
        r == is_seen(seen_views(seen@), field@, value@),
{
    let ghost all = seen_views(seen@);
    let mut i: usize = 0;
    while i < seen.len()
        invariant
            i <= seen@.len(),
            all == seen_views(seen@),
            forall|k: int|
                0 <= k < i ==> !((#[trigger] all[k]).field == field@ && all[k].value == value@),
        decreases seen@.len() - i,
    {
        assert(all[i as int] == seen@[i as int]@);
        if str_eq(seen[i].field, field) && str_eq(seen[i].value.as_str(), value) {
            return true;
        }
        i += 1;
    }
    false
}

fn all_seen<'a>(all: &Vec<Sighting<'a>>) -> (r: Vec<SeenIdentity<'a>>)
    ensures
        seen_views(r@) == identities_seen(sighting_views(all@), all@.len()),
{
    let ghost views = sighting_views(all@);
    let mut r: Vec<SeenIdentity<'a>> = Vec::new();
    let mut i: usize = 0;
    assert(seen_views(r@) =~= Seq::<SeenView>::empty());
    while i < all.len()
        invariant
            i <= all@.len(),
            views == sighting_views(all@),
            seen_views(r@) == identities_seen(views, i as nat),
        decreases all@.len() - i,
    {
        let s = &all[i];
        assert(views[i as int] == s@);
        if !seen_already(&r, s.field, s.value.as_str()) {
            let ghost before = seen_views(r@);
            let one = SeenIdentity {
                field: s.field,
                value: s.value.as_str().to_owned(),
                event_count: count_shown(all, s.field, s.value.as_str()),
                message: s.message,
            };
            r.push(one);
            assert(seen_views(r@) =~= before.push(one@));
        }
        i += 1;
    }
    r
}

fn links_of_identity(
    notes: &Vec<VaultNote>,
    rules: &[VaultLinkRule],
    field: &str,
    value: &str,
) -> (r: Vec<String>)
    ensures
        views(r@) == identity_links(notes@, rules@, field@, value@),
{
    broadcast use lemma_views_push;
    let mut r: Vec<String> = Vec::new();
    let mut i: usize = 0;
    assert(rules@.take(0) =~= Seq::<VaultLinkRule>::empty());
    assert(views(r@) =~= Seq::<Seq<char>>::empty());
    while i < rules.len()
        invariant
            i <= rules@.len(),
            views(r@) == identity_links(notes@, rules@.take(i as int), field@, value@),
        decreases rules@.len() - i,
    {
        proof {
            lemma_take_step(rules@, i as int);
        }
        let rule = &rules[i];
        if let Some(link) = link_with_id(notes, rule.target_note_id.as_str()) {
            if rule.enabled && selectors_match_identity(&rule.selectors, field, value) {
                r.push(link);
            }
        }
        i += 1;
    }
    assert(rules@.take(i as int) =~= rules@);
    r
}

fn suggest(named: &Vec<&VaultNote>) -> (r: Vec<LinkSuggestion>)
    ensures
        suggestion_views(r@) == suggestions_of(named@),
{
    let ghost all = suggestions_of(named@);
    let mut r: Vec<LinkSuggestion> = Vec::new();
    let mut i: usize = 0;
    assert(suggestion_views(r@) =~= all.take(0));
    while i < named.len()
        invariant
            i <= named@.len(),
            all == suggestions_of(named@),
            suggestion_views(r@) == all.take(i as int),
        decreases named@.len() - i,
    {
        proof {
            lemma_take_step(all, i as int);
        }
        let ghost before = suggestion_views(r@);
        let one = LinkSuggestion {
            note_id: named[i].id.as_str().to_owned(),
            reason: "Exact title or alias".to_owned(),
        };
        r.push(one);
        assert(suggestion_views(r@) =~= before.push((one.note_id@, one.reason@)));
        i += 1;
    }
    assert(all.take(i as int) =~= all);
    r
}

fn first_chars(s: &str, limit: usize) -> (r: String)
    ensures
        r@ == at_most(s@, limit as nat),
{
    let chars = chars_of(s);
    if chars.len() <= limit {
        s.to_owned()
    } else {
        let r = string_of(&chars, 0, limit);
        assert(r@ =~= s@.take(limit as int));
        r
    }
}

fn report(seen: &SeenIdentity, notes: &Vec<VaultNote>, rules: &[VaultLinkRule]) -> (r: ObservedIdentity)
    ensures
        r@ == report_of(seen@, notes@, rules@),
{
    let named = exact_note_matches(notes, seen.value.as_str());
    let links = links_of_identity(notes, rules, seen.field, seen.value.as_str());
    let mut resolved = ordered_set_of(&links);
    assert(views(resolved@).len() == resolved@.len());
    if resolved.len() == 0 && named.len() == 1 {
        resolved.push(named[0].wikilink.as_str().to_owned());
    }
    assert(views(resolved@) =~= resolved_links(notes@, rules@, seen.field@, seen.value@));
    let status = if resolved.len() == 1 {
        "resolved"
    } else if resolved.len() > 1 || named.len() > 1 {
        "ambiguous"
    } else {
        "unresolved"
    };
    ObservedIdentity {
        field: seen.field.to_owned(),
        value: seen.value.as_str().to_owned(),
        event_count: seen.event_count,
        status: status.to_owned(),
        resolved_notes: resolved,
        suggestions: suggest(&named),
        sample_message: first_chars(seen.message, 180),
    }
}

fn observe(events: &[StoredLogEvent], notes: &Vec<VaultNote>, rules: &[VaultLinkRule]) -> (r: Vec<
    ObservedIdentity,
>)
    ensures
        observed_views(r@) == observations(events@, notes@, rules@),
{
    let mut all: Vec<Sighting> = Vec::new();
    let mut i: usize = 0;
    assert(events@.take(0) =~= Seq::<StoredLogEvent>::empty());
    assert(sighting_views(all@) =~= Seq::<SightingView>::empty());
    while i < events.len()
        invariant
            i <= events@.len(),
            sighting_views(all@) == sightings(events@.take(i as int)),
        decreases events@.len() - i,
    {
        proof {
            lemma_take_step(events@, i as int);
        }
        add_event(&mut all, &events[i]);
        i += 1;
    }
    assert(events@.take(i as int) =~= events@);
    let seen = all_seen(&all);
    let ghost found = seen_views(seen@);
    let mut items: Vec<&SeenIdentity> = Vec::new();
    let mut k: usize = 0;
    while k < seen.len()
        invariant
            k <= seen@.len(),
            items@.len() == k,
            forall|n: int| 0 <= n < k ==> *(#[trigger] items@[n]) == seen@[n],
        decreases seen@.len() - k,
    {
        items.push(&seen[k]);
        k += 1;
    }
    assert(views_of(items@) =~= found);
    let sorted = sort_ranked(&items);
    proof {
        lemma_ranked_views(items@, seen_order());
    }
    let ghost order = views_of(sorted@);
    let ghost reports = reports_of(order, notes@, rules@);
    let mut r: Vec<ObservedIdentity> = Vec::new();
    let mut n: usize = 0;
    assert(observed_views(r@) =~= reports.take(0));
    while n < sorted.len()
        invariant
            n <= sorted@.len(),
            order == views_of(sorted@),
            reports == reports_of(order, notes@, rules@),
            observed_views(r@) == reports.take(n as int),
        decreases sorted@.len() - n,
    {
        proof {
            lemma_take_step(reports, n as int);
        }
        let ghost before = observed_views(r@);
        let one = report(sorted[n], notes, rules);
        assert(order[n as int] == sorted@[n as int]@);
        r.push(one);
        assert(observed_views(r@) =~= before.push(one@));
        n += 1;
    }
    assert(reports.take(n as int) =~= reports);
    r
}

impl VaultContextProvider {
    /// The identities that some events show and the notes of the vault that
    /// they stand for, the most frequent first.
    pub fn observed(&self, files: &VaultFiles, rules: &[VaultLinkRule], events: &[StoredLogEvent]) -> (r:
        Vec<ObservedIdentity>)
        ensures
            exists|catalog: VaultCatalog| #[trigger]
                catalog_is(catalog, *self, *files) && observed_views(r@) == observations(
                    events@,
                    catalog.notes@,
                    rules@,
                ),
    {
        let catalog = self.catalog(files);
        observe(events, &catalog.notes, rules)
    }
}

} // verus!
