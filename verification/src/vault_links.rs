//! Which notes of a vault the events of a day belong to.
use crate::details::{field_pair_views, moment_text, text_of_moment};
use crate::errors::text2;
use crate::json::{Json, JsonView, empty_record, json_of_text, json_of_texts, put};
use crate::models::{Moment, StoredLogEvent};
use crate::ordered::{lemma_ordered_set, ordered_set, ordered_set_of};
use crate::snapshot::text_list;
use crate::text::{lemma_take_step, lemma_views_push, opt_text, push_texts, str_eq, views};
use crate::vault::{
    VaultCatalog, VaultLinkRule, VaultNote, event_contains, event_field_values, event_values_of,
    events_contain, exact_note_matches, find_note, link_of, notes_named_by, rule_matches,
    rule_met, wikilink,
};
use crate::vault_catalog::{
    VaultContextProvider, VaultFiles, catalog_is, hash_of, hex_digits, stable_hash,
};
use vstd::prelude::*;
use vstd::slice::slice_subrange;
use vstd::string::*;
use vstd::utf8::*;
use std::fmt::Write;

verus! {

/// A product note and the names that stand for it.
#[derive(Debug, Clone, PartialEq, Eq)]
pub struct ProductMapping {
    pub note: String,
    pub aliases: Vec<String>,
}

/// How daily notes are named, and the product notes.
#[derive(Debug, Clone, PartialEq, Eq)]
pub struct VaultContextConfig {
    pub daily_note_format: String,
    pub products: Vec<ProductMapping>,
}

pub fn default_daily_note_format() -> (r: String)
    ensures
        r@ == "Daily log %b %-d"@,
{
    "Daily log %b %-d".to_owned()
}

impl Default for VaultContextConfig {
    fn default() -> (r: Self)
        ensures
            r.daily_note_format@ == "Daily log %b %-d"@,
            r.products@.len() == 0,
    {
        VaultContextConfig {
            daily_note_format: default_daily_note_format(),
            products: Vec::new(),
        }
    }
}

/// The metadata keys that identify an event, each with the field it counts as.
pub open spec fn metadata_fields() -> Seq<(Seq<char>, Seq<char>)> {
    seq![
        ("repo"@, "repo"@),
        ("project"@, "project"@),
        ("product"@, "product"@),
        ("app"@, "app"@),
        ("service"@, "service"@),
        ("modules"@, "module"@),
        ("module"@, "module"@),
        ("work_item"@, "work_item"@),
        ("branch"@, "branch"@),
    ]
}

pub fn metadata_field_list() -> (r: Vec<(&'static str, &'static str)>)
    ensures
        field_pair_views(r@) == metadata_fields(),
{
    let mut r: Vec<(&'static str, &'static str)> = Vec::new();
    r.push(("repo", "repo"));
    r.push(("project", "project"));
    r.push(("product", "product"));
    r.push(("app", "app"));
    r.push(("service", "service"));
    r.push(("modules", "module"));
    r.push(("module", "module"));
    r.push(("work_item", "work_item"));
    r.push(("branch", "branch"));
    assert(field_pair_views(r@) =~= metadata_fields());
    r
}

/// The links of some notes.
pub open spec fn links_of(notes: Seq<&VaultNote>) -> Seq<Seq<char>> {
    notes.map_values(|n: &VaultNote| n.wikilink@)
}

/// The links of the notes that some values name.
pub open spec fn value_links(notes: Seq<VaultNote>, values: Seq<Seq<char>>) -> Seq<Seq<char>>
    decreases values.len(),
{
    if values.len() == 0 {
        Seq::empty()
    } else {
        value_links(notes, values.drop_last()) + links_of(notes_named_by(notes, values.last()))
    }
}

/// The links of the notes that the fields of an event name.
pub open spec fn field_links(
    notes: Seq<VaultNote>,
    event: StoredLogEvent,
    fields: Seq<(Seq<char>, Seq<char>)>,
) -> Seq<Seq<char>>
    decreases fields.len(),
{
    if fields.len() == 0 {
        Seq::empty()
    } else {
        field_links(notes, event, fields.drop_last()) + value_links(
            notes,
            event_field_values(event, fields.last().1),
        )
    }
}

/// The links of the notes that an event names itself: the first note of each
/// value, or the value where there is no vault.
pub open spec fn canonical_links(catalog: VaultCatalog, values: Seq<Seq<char>>) -> Seq<Seq<char>>
    decreases values.len(),
{
    if values.len() == 0 {
        Seq::empty()
    } else {
        let before = canonical_links(catalog, values.drop_last());
        let named = notes_named_by(catalog.notes@, values.last());
        if named.len() > 0 {
            before.push(named[0].wikilink@)
        } else if !catalog.configured {
            before.push(link_of(values.last()))
        } else {
            before
        }
    }
}

/// Whether a rule is enabled and met by an event.
pub open spec fn rule_applies(rule: VaultLinkRule, event: StoredLogEvent) -> bool {
    rule.enabled && rule_met(rule, seq![event])
}

/// Whether a rule applies to an event and no applicable rule has more
/// selectors.
pub open spec fn rule_decides(
    rules: Seq<VaultLinkRule>,
    rule: VaultLinkRule,
    event: StoredLogEvent,
) -> bool {
    &&& rule_applies(rule, event)
    &&& forall|k: int|
        0 <= k < rules.len() && rule_applies(#[trigger] rules[k], event) ==> rules[k].selectors@.len()
            <= rule.selectors@.len()
}

/// Whether some rule applies to an event.
pub open spec fn has_rule(rules: Seq<VaultLinkRule>, event: StoredLogEvent) -> bool {
    exists|k: int| 0 <= k < rules.len() && rule_applies(#[trigger] rules[k], event)
}

/// The link of the first note with that ID.
pub open spec fn link_by_id(notes: Seq<VaultNote>, id: Seq<char>) -> Option<Seq<char>>
    decreases notes.len(),
{
    if notes.len() == 0 {
        None
    } else {
        match link_by_id(notes.drop_last(), id) {
            Some(link) => Some(link),
            None => if notes.last().id@ == id {
                Some(notes.last().wikilink@)
            } else {
                None
            },
        }
    }
}

/// The links of the rules among the first `n` that decide.
pub open spec fn rule_links(
    notes: Seq<VaultNote>,
    rules: Seq<VaultLinkRule>,
    event: StoredLogEvent,
    n: nat,
) -> Seq<Seq<char>>
    decreases n,
{
    if n == 0 {
        Seq::empty()
    } else {
        let before = rule_links(notes, rules, event, (n - 1) as nat);
        let rule = rules[n - 1];
        match link_by_id(notes, rule.target_note_id@) {
            Some(link) => if rule_decides(rules, rule, event) {
                before.push(link)
            } else {
                before
            },
            None => before,
        }
    }
}

/// The links that one event leads to. Where a rule applies, the rules with the
/// most selectors decide; else the values of its fields do.
pub open spec fn event_links(
    catalog: VaultCatalog,
    rules: Seq<VaultLinkRule>,
    event: StoredLogEvent,
) -> Seq<Seq<char>> {
    let canonical = canonical_links(catalog, event_field_values(event, "canonical_note"@));
    if has_rule(rules, event) {
        canonical + rule_links(catalog.notes@, rules, event, rules.len())
    } else {
        canonical + field_links(catalog.notes@, event, metadata_fields()) + links_of(
            notes_named_by(catalog.notes@, event.source@),
        )
    }
}

/// The links that some events lead to.
pub open spec fn all_event_links(
    catalog: VaultCatalog,
    rules: Seq<VaultLinkRule>,
    events: Seq<StoredLogEvent>,
) -> Seq<Seq<char>>
    decreases events.len(),
{
    if events.len() == 0 {
        Seq::empty()
    } else {
        all_event_links(catalog, rules, events.drop_last()) + event_links(
            catalog,
            rules,
            events.last(),
        )
    }
}

fn push_links(out: &mut Vec<String>, notes: &Vec<&VaultNote>)
    ensures
        views(final(out)@) == views(old(out)@) + links_of(notes@),
{
    broadcast use lemma_views_push;
    let ghost before = views(out@);
    let ghost all = links_of(notes@);
    let mut i: usize = 0;
    assert(before + all.take(0) =~= before);
    while i < notes.len()
        invariant
            i <= notes@.len(),
            all == links_of(notes@),
            views(out@) == before + all.take(i as int),
        decreases notes@.len() - i,
    {
        proof {
            lemma_take_step(all, i as int);
        }
        let ghost mid = views(out@);
        out.push(notes[i].wikilink.as_str().to_owned());
        assert(views(out@) == mid.push(all[i as int]));
        assert(before + all.take(i + 1) =~= (before + all.take(i as int)).push(all[i as int]));
        i += 1;
    }
    assert(all.take(i as int) =~= all);
}

fn links_of_values(notes: &Vec<VaultNote>, values: &Vec<String>) -> (r: Vec<String>)
    ensures
        views(r@) == value_links(notes@, views(values@)),
{
    let ghost all = views(values@);
    let mut r: Vec<String> = Vec::new();
    let mut i: usize = 0;
    assert(all.take(0) =~= Seq::<Seq<char>>::empty());
    assert(views(r@) =~= Seq::<Seq<char>>::empty());
    while i < values.len()
        invariant
            i <= values@.len(),
            all == views(values@),
            views(r@) == value_links(notes@, all.take(i as int)),
        decreases values@.len() - i,
    {
        proof {
            lemma_take_step(all, i as int);
        }
        let named = exact_note_matches(notes, values[i].as_str());
        push_links(&mut r, &named);
        i += 1;
    }
    assert(all.take(i as int) =~= all);
    r
}

fn links_of_fields(notes: &Vec<VaultNote>, event: &StoredLogEvent) -> (r: Vec<String>)
    ensures
        views(r@) == field_links(notes@, *event, metadata_fields()),
{
    let fields = metadata_field_list();
    let ghost all = metadata_fields();
    let mut r: Vec<String> = Vec::new();
    let mut i: usize = 0;
    assert(all.take(0) =~= Seq::<(Seq<char>, Seq<char>)>::empty());
    assert(views(r@) =~= Seq::<Seq<char>>::empty());
    while i < fields.len()
        invariant
            i <= fields@.len(),
            all == field_pair_views(fields@),
            views(r@) == field_links(notes@, *event, all.take(i as int)),
        decreases fields@.len() - i,
    {
        proof {
            lemma_take_step(all, i as int);
        }
        let values = event_values_of(event, fields[i].1);
        let links = links_of_values(notes, &values);
        push_texts(&mut r, &links);
        i += 1;
    }
    assert(all.take(i as int) =~= all);
    r
}

fn canonical_links_of(catalog: &VaultCatalog, values: &Vec<String>) -> (r: Vec<String>)
    ensures
        views(r@) == canonical_links(*catalog, views(values@)),
{
    broadcast use lemma_views_push;
    let ghost all = views(values@);
    let mut r: Vec<String> = Vec::new();
    let mut i: usize = 0;
    assert(all.take(0) =~= Seq::<Seq<char>>::empty());
    assert(views(r@) =~= Seq::<Seq<char>>::empty());
    while i < values.len()
        invariant
            i <= values@.len(),
            all == views(values@),
            views(r@) == canonical_links(*catalog, all.take(i as int)),
        decreases values@.len() - i,
    {
        proof {
            lemma_take_step(all, i as int);
        }
        match find_note(&catalog.notes, values[i].as_str()) {
            Some(note) => {
                r.push(note.wikilink.as_str().to_owned());
            },
            None => if !catalog.configured {
                r.push(wikilink(values[i].as_str()));
            },
        }
        i += 1;
    }
    assert(all.take(i as int) =~= all);
    r
}

pub fn link_with_id(notes: &Vec<VaultNote>, id: &str) -> (r: Option<String>)
    ensures
        opt_text(r) == link_by_id(notes@, id@),
{
    let mut r: Option<String> = None;
    let mut i: usize = 0;
    assert(notes@.take(0) =~= Seq::<VaultNote>::empty());
    while i < notes.len()
        invariant
            i <= notes@.len(),
            opt_text(r) == link_by_id(notes@.take(i as int), id@),
        decreases notes@.len() - i,
    {
        proof {
            lemma_take_step(notes@, i as int);
        }
        if r.is_none() && str_eq(notes[i].id.as_str(), id) {
            r = Some(notes[i].wikilink.as_str().to_owned());
        }
        i += 1;
    }
    assert(notes@.take(i as int) =~= notes@);
    r
}

fn applies(rule: &VaultLinkRule, events: &[StoredLogEvent], at: usize) -> (r: bool)
    requires
        at < events@.len(),
    ensures
        r == rule_applies(*rule, events@[at as int]),
{
    let all: usize = events.len();
    assert(at < all);
    let one = slice_subrange(events, at, at + 1);
    assert(one@ =~= seq![events@[at as int]]);
    rule.enabled && rule_matches(rule, one)
}

/// The most selectors that an applicable rule has; none where no rule applies.
fn specificity(rules: &[VaultLinkRule], events: &[StoredLogEvent], at: usize) -> (r: Option<usize>)
    requires
        at < events@.len(),
    ensures
        match r {
            Some(n) => {
                &&& exists|k: int|
                    0 <= k < rules@.len() && rule_applies(#[trigger] rules@[k], events@[at as int])
                        && rules@[k].selectors@.len() == n
                &&& forall|k: int|
                    0 <= k < rules@.len() && rule_applies(#[trigger] rules@[k], events@[at as int])
                        ==> rules@[k].selectors@.len() <= n
            },
            None => !has_rule(rules@, events@[at as int]),
        },
{
    let ghost event = events@[at as int];
    let mut r: Option<usize> = None;
    let mut i: usize = 0;
    while i < rules.len()
        invariant
            i <= rules@.len(),
            at < events@.len(),
            event == events@[at as int],
            match r {
                Some(n) => {
                    &&& exists|k: int|
                        0 <= k < i && rule_applies(#[trigger] rules@[k], event)
                            && rules@[k].selectors@.len() == n
                    &&& forall|k: int|
                        0 <= k < i && rule_applies(#[trigger] rules@[k], event)
                            ==> rules@[k].selectors@.len() <= n
                },
                None => forall|k: int|
                    0 <= k < i ==> !rule_applies(#[trigger] rules@[k], event),
            },
        decreases rules@.len() - i,
    {
        if applies(&rules[i], events, at) {
            let n: usize = rules[i].selectors.len();
            assert(rule_applies(rules@[i as int], event));
            match r {
                Some(most) => if most < n {
                    r = Some(n);
                },
                None => {
                    r = Some(n);
                },
            }
        }
        i += 1;
    }
    r
}

fn links_of_rules(
    notes: &Vec<VaultNote>,
    rules: &[VaultLinkRule],
    events: &[StoredLogEvent],
    at: usize,
    most: usize,
) -> (r: Vec<String>)
    requires
        at < events@.len(),
        exists|k: int|
            0 <= k < rules@.len() && rule_applies(#[trigger] rules@[k], events@[at as int])
                && rules@[k].selectors@.len() == most,
        forall|k: int|
            0 <= k < rules@.len() && rule_applies(#[trigger] rules@[k], events@[at as int])
                ==> rules@[k].selectors@.len() <= most,
    ensures
        views(r@) == rule_links(notes@, rules@, events@[at as int], rules@.len()),
{
    broadcast use lemma_views_push;
    let ghost event = events@[at as int];
    let mut r: Vec<String> = Vec::new();
    let mut i: usize = 0;
    assert(views(r@) =~= Seq::<Seq<char>>::empty());
    while i < rules.len()
        invariant
            i <= rules@.len(),
            at < events@.len(),
            event == events@[at as int],
            exists|k: int|
                0 <= k < rules@.len() && rule_applies(#[trigger] rules@[k], event)
                    && rules@[k].selectors@.len() == most,
            forall|k: int|
                0 <= k < rules@.len() && rule_applies(#[trigger] rules@[k], event)
                    ==> rules@[k].selectors@.len() <= most,
            views(r@) == rule_links(notes@, rules@, event, i as nat),
        decreases rules@.len() - i,
    {
        let rule = &rules[i];
        let decides = applies(rule, events, at) && rule.selectors.len() == most;
        assert(decides == rule_decides(rules@, rules@[i as int], event));
        if let Some(link) = link_with_id(notes, rule.target_note_id.as_str()) {
            if decides {
                r.push(link);
            }
        }
        i += 1;
    }
    r
}

fn links_of_event(
    catalog: &VaultCatalog,
    rules: &[VaultLinkRule],
    events: &[StoredLogEvent],
    at: usize,
) -> (r: Vec<String>)
    requires
        at < events@.len(),
    ensures
        views(r@) == event_links(*catalog, rules@, events@[at as int]),
{
    let event = &events[at];
    let values = event_values_of(event, "canonical_note");
    let mut r = canonical_links_of(catalog, &values);
    match specificity(rules, events, at) {
        Some(most) => {
            let links = links_of_rules(&catalog.notes, rules, events, at, most);
            push_texts(&mut r, &links);
        },
        None => {
            let links = links_of_fields(&catalog.notes, event);
            push_texts(&mut r, &links);
            let named = exact_note_matches(&catalog.notes, event.source.as_str());
            push_links(&mut r, &named);
        },
    }
    r
}

/// Whether some event has one of the names of a product, in a field that
/// identifies events.
pub open spec fn product_occurs(product: ProductMapping, events: Seq<StoredLogEvent>) -> bool {
    exists|i: int|
        0 <= i < product.aliases@.len() && name_occurs((#[trigger] product.aliases@[i])@, events)
}

pub open spec fn name_occurs(name: Seq<char>, events: Seq<StoredLogEvent>) -> bool {
    events_contain(events, "source"@, "exact"@, name) || exists|k: int|
        0 <= k < metadata_fields().len() && events_contain(
            events,
            (#[trigger] metadata_fields()[k]).1,
            "exact"@,
            name,
        )
}

/// The links of the products that occur.
pub open spec fn product_links(
    notes: Seq<VaultNote>,
    products: Seq<ProductMapping>,
    events: Seq<StoredLogEvent>,
) -> Seq<Seq<char>>
    decreases products.len(),
{
    if products.len() == 0 {
        Seq::empty()
    } else {
        let before = product_links(notes, products.drop_last(), events);
        let named = notes_named_by(notes, products.last().note@);
        if product_occurs(products.last(), events) && named.len() > 0 {
            before.push(named[0].wikilink@)
        } else {
            before
        }
    }
}

fn occurs_as(name: &str, events: &[StoredLogEvent]) -> (r: bool)
    ensures
        r == name_occurs(name@, events@),
{
    if event_contains(events, "source", "exact", name) {
        return true;
    }
    let fields = metadata_field_list();
    let ghost all = metadata_fields();
    let mut k: usize = 0;
    while k < fields.len()
        invariant
            k <= fields@.len(),
            all == metadata_fields(),
            all == field_pair_views(fields@),
            !events_contain(events@, "source"@, "exact"@, name@),
            forall|n: int|
                0 <= n < k ==> !events_contain(
                    events@,
                    (#[trigger] metadata_fields()[n]).1,
                    "exact"@,
                    name@,
                ),
        decreases fields@.len() - k,
    {
        assert(fields@[k as int].1@ == metadata_fields()[k as int].1);
        if event_contains(events, fields[k].1, "exact", name) {
            return true;
        }
        k += 1;
    }
    false
}

fn links_of_products(
    notes: &Vec<VaultNote>,
    products: &Vec<ProductMapping>,
    events: &[StoredLogEvent],
) -> (r: Vec<String>)
    ensures
        views(r@) == product_links(notes@, products@, events@),
{
    broadcast use lemma_views_push;
    let mut r: Vec<String> = Vec::new();
    let mut i: usize = 0;
    assert(products@.take(0) =~= Seq::<ProductMapping>::empty());
    assert(views(r@) =~= Seq::<Seq<char>>::empty());
    while i < products.len()
        invariant
            i <= products@.len(),
            views(r@) == product_links(notes@, products@.take(i as int), events@),
        decreases products@.len() - i,
    {
        proof {
            lemma_take_step(products@, i as int);
        }
        let product = &products[i];
        let mut found: bool = false;
        let mut k: usize = 0;
        while k < product.aliases.len()
            invariant
                k <= product.aliases@.len(),
                found == exists|n: int|
                    0 <= n < k && name_occurs((#[trigger] product.aliases@[n])@, events@),
            decreases product.aliases@.len() - k,
        {
            if occurs_as(product.aliases[k].as_str(), events) {
                found = true;
            }
            k += 1;
        }
        if found {
            if let Some(note) = find_note(notes, product.note.as_str()) {
                r.push(note.wikilink.as_str().to_owned());
            }
        }
        i += 1;
    }
    assert(products@.take(i as int) =~= products@);
    r
}

/// The text that a revision of the rules is made of.
pub open spec fn rules_text(catalog: Seq<char>, rules: Seq<VaultLinkRule>) -> Seq<char>
    decreases rules.len(),
{
    if rules.len() == 0 {
        catalog
    } else {
        let before = rules_text(catalog, rules.drop_last());
        if rules.last().enabled {
            before + rules.last().id@ + moment_text(rules.last().updated_at)
        } else {
            before
        }
    }
}

/// A revision that changes with the catalog and the enabled rules.
pub fn context_revision(catalog: &str, rules: &[VaultLinkRule]) -> (r: String)
    ensures
        r@ == hex_digits(hash_of(encode_utf8(rules_text(catalog@, rules@))) as nat, 16),
{
    let mut text = catalog.to_owned();
    let mut i: usize = 0;
    assert(rules@.take(0) =~= Seq::<VaultLinkRule>::empty());
    while i < rules.len()
        invariant
            i <= rules@.len(),
            text@ == rules_text(catalog@, rules@.take(i as int)),
        decreases rules@.len() - i,
    {
        proof {
            lemma_take_step(rules@, i as int);
        }
        if rules[i].enabled {
            text.push_str(rules[i].id.as_str());
            text.push_str(text_of_moment(&rules[i].updated_at).as_str());
        }
        i += 1;
    }
    assert(rules@.take(i as int) =~= rules@);
    stable_hash(text.as_str().as_bytes())
}

/// The notes that some events lead to, each once, in order.
pub open spec fn candidate_notes(
    catalog: VaultCatalog,
    config: VaultContextConfig,
    rules: Seq<VaultLinkRule>,
    events: Seq<StoredLogEvent>,
) -> Seq<Seq<char>> {
    ordered_set(
        all_event_links(catalog, rules, events) + product_links(
            catalog.notes@,
            config.products@,
            events,
        ),
    )
}

/// What is said of a vault for some events.
pub open spec fn vault_context(
    catalog: VaultCatalog,
    config: VaultContextConfig,
    rules: Seq<VaultLinkRule>,
    events: Seq<StoredLogEvent>,
    daily_note: Seq<char>,
) -> JsonView {
    JsonView::Record(
        Map::<Seq<char>, JsonView>::empty().insert("daily_note"@, JsonView::Text(daily_note)).insert(
            "candidate_notes"@,
            text_list(candidate_notes(catalog, config, rules, events)),
        ).insert(
            "link_context_revision"@,
            JsonView::Text(
                hex_digits(
                    hash_of(encode_utf8(rules_text(catalog.revision@, rules))) as nat,
                    16,
                ),
            ),
        ),
    )
}

/// What is said of a vault for some events, with the name of their daily note.
pub fn context_of_events(
    catalog: &VaultCatalog,
    config: &VaultContextConfig,
    rules: &[VaultLinkRule],
    events: &[StoredLogEvent],
    daily_note: &str,
) -> (r: Json)
    ensures
        r@ == vault_context(*catalog, *config, rules@, events@, daily_note@),
{
    let mut links: Vec<String> = Vec::new();
    let mut i: usize = 0;
    assert(events@.take(0) =~= Seq::<StoredLogEvent>::empty());
    assert(views(links@) =~= Seq::<Seq<char>>::empty());
    while i < events.len()
        invariant
            i <= events@.len(),
            views(links@) == all_event_links(*catalog, rules@, events@.take(i as int)),
        decreases events@.len() - i,
    {
        proof {
            lemma_take_step(events@, i as int);
        }
        let more = links_of_event(catalog, rules, events, i);
        push_texts(&mut links, &more);
        i += 1;
    }
    assert(events@.take(i as int) =~= events@);
    let more = links_of_products(&catalog.notes, &config.products, events);
    push_texts(&mut links, &more);
    let candidates = ordered_set_of(&links);
    let mut fields = empty_record();
    put(&mut fields, "daily_note", json_of_text(daily_note));
    put(&mut fields, "candidate_notes", json_of_texts(&candidates));
    put(
        &mut fields,
        "link_context_revision",
        json_of_text(context_revision(catalog.revision.as_str(), rules).as_str()),
    );
    Json::Record(fields)
}

/// A moment in UTC in a format; none where a date and time cannot hold the
/// moment or the format is not one.
pub uninterp spec fn formatted(seconds: i64, nanos: u32, format: Seq<char>) -> Option<Seq<char>>;

/// `DateTime::from_timestamp` and `DateTime::format` of chrono.
#[verifier::external_body]
pub(crate) fn formatted_moment(seconds: i64, nanos: u32, format: &str) -> (r: Option<String>)
    ensures
        opt_text(r) == formatted(seconds, nanos, format@),
{
    let moment = chrono::DateTime::from_timestamp(seconds, nanos)?;
    let mut text = String::new();
    write!(text, "{}", moment.format(format)).ok()?;
    Some(text)
}

/// The latest moment of some events; `now` where there is none.
pub open spec fn latest_or(events: Seq<StoredLogEvent>, now: Moment) -> Moment
    decreases events.len(),
{
    if events.len() == 0 {
        now
    } else if events.len() == 1 {
        events[0].timestamp
    } else {
        let before = latest_or(events.drop_last(), now);
        if before.is_before(events.last().timestamp) {
            events.last().timestamp
        } else {
            before
        }
    }
}

impl VaultContextProvider {
    /// What is said of the vault for some events. The daily note is the one of
    /// the latest event, or of `now` where there is none.
    pub fn for_events(
        &self,
        files: &VaultFiles,
        config: &VaultContextConfig,
        rules: &[VaultLinkRule],
        events: &[StoredLogEvent],
        now: &Moment,
    ) -> (r: Result<Json, String>)
        ensures
            ({
                let day = latest_or(events@, *now);
                match formatted(day.seconds, day.nanos, config.daily_note_format@) {
                    Some(daily_note) => r is Ok && exists|catalog: VaultCatalog| #[trigger]
                        catalog_is(catalog, *self, *files) && r->Ok_0@ == vault_context(
                            catalog,
                            *config,
                            rules@,
                            events@,
                            daily_note,
                        ),
                    None => r is Err && r->Err_0@ == "invalid daily note format "@
                        + config.daily_note_format@,
                }
            }),
    {
        let mut day: Moment = *now;
        let mut i: usize = 0;
        assert(events@.take(0) =~= Seq::<StoredLogEvent>::empty());
        while i < events.len()
            invariant
                i <= events@.len(),
                day == latest_or(events@.take(i as int), *now),
            decreases events@.len() - i,
        {
            proof {
                lemma_take_step(events@, i as int);
            }
            if i == 0 || day.before(&events[i].timestamp) {
                day = events[i].timestamp;
            }
            i += 1;
        }
        assert(events@.take(i as int) =~= events@);
        match formatted_moment(day.seconds, day.nanos, config.daily_note_format.as_str()) {
            Some(daily_note) => {
                let catalog = self.catalog(files);
                Ok(context_of_events(&catalog, config, rules, events, daily_note.as_str()))
            },
            None => Err(
                text2("invalid daily note format ", config.daily_note_format.as_str()),
            ),
        }
    }
}

/// Every note that an event leads to is among the candidates, whatever rules
/// the other events meet.
pub proof fn law_each_event_keeps_its_notes(
    catalog: VaultCatalog,
    config: VaultContextConfig,
    rules: Seq<VaultLinkRule>,
    events: Seq<StoredLogEvent>,
    at: int,
    link: Seq<char>,
)
    requires
        0 <= at < events.len(),
        event_links(catalog, rules, events[at]).contains(link),
    ensures
        candidate_notes(catalog, config, rules, events).contains(link),
{
    lemma_event_links_kept(catalog, rules, events, at, link);
    let found = all_event_links(catalog, rules, events);
    let all = found + product_links(catalog.notes@, config.products@, events);
    let k = choose|k: int| 0 <= k < found.len() && found[k] == link;
    assert(all[k] == link);
    lemma_ordered_set(all);
    assert(all.contains(link));
}

proof fn lemma_event_links_kept(
    catalog: VaultCatalog,
    rules: Seq<VaultLinkRule>,
    events: Seq<StoredLogEvent>,
    at: int,
    link: Seq<char>,
)
    requires
        0 <= at < events.len(),
        event_links(catalog, rules, events[at]).contains(link),
    ensures
        all_event_links(catalog, rules, events).contains(link),
    decreases events.len(),
{
    let before = all_event_links(catalog, rules, events.drop_last());
    let last = event_links(catalog, rules, events.last());
    if at == events.len() - 1 {
        let k = choose|k: int| 0 <= k < last.len() && last[k] == link;
        assert((before + last)[before.len() + k] == link);
    } else {
        lemma_event_links_kept(catalog, rules, events.drop_last(), at, link);
        let k = choose|k: int| 0 <= k < before.len() && before[k] == link;
        assert((before + last)[k] == link);
    }
}

/// Whether a link is that of a note in the catalog.
pub open spec fn is_note_link(notes: Seq<VaultNote>, link: Seq<char>) -> bool {
    exists|i: int| 0 <= i < notes.len() && (#[trigger] notes[i]).wikilink@ == link
}

pub open spec fn are_note_links(notes: Seq<VaultNote>, links: Seq<Seq<char>>) -> bool {
    forall|i: int| 0 <= i < links.len() ==> is_note_link(notes, #[trigger] links[i])
}

proof fn lemma_named_links(notes: Seq<VaultNote>, upto: Seq<VaultNote>, value: Seq<char>)
    requires
        forall|i: int| 0 <= i < upto.len() ==> is_note_link(notes, (#[trigger] upto[i]).wikilink@),
    ensures
        are_note_links(notes, links_of(notes_named_by(upto, value))),
    decreases upto.len(),
{
    if upto.len() > 0 {
        let init = upto.drop_last();
        assert forall|i: int| 0 <= i < init.len() implies is_note_link(
            notes,
            (#[trigger] init[i]).wikilink@,
        ) by {
            assert(init[i] == upto[i]);
        }
        lemma_named_links(notes, init, value);
        let before = links_of(notes_named_by(init, value));
        let all = links_of(notes_named_by(upto, value));
        assert(is_note_link(notes, upto[upto.len() - 1].wikilink@));
        assert forall|i: int| 0 <= i < all.len() implies is_note_link(notes, #[trigger] all[i]) by {
            if i < before.len() {
                assert(all[i] == before[i]);
            }
        }
    }
}

proof fn lemma_own_links(notes: Seq<VaultNote>, value: Seq<char>)
    ensures
        are_note_links(notes, links_of(notes_named_by(notes, value))),
{
    assert forall|i: int| 0 <= i < notes.len() implies is_note_link(
        notes,
        (#[trigger] notes[i]).wikilink@,
    ) by {}
    lemma_named_links(notes, notes, value);
}

proof fn lemma_value_links(notes: Seq<VaultNote>, values: Seq<Seq<char>>)
    ensures
        are_note_links(notes, value_links(notes, values)),
    decreases values.len(),
{
    if values.len() > 0 {
        lemma_value_links(notes, values.drop_last());
        lemma_own_links(notes, values.last());
    }
}

proof fn lemma_field_links(
    notes: Seq<VaultNote>,
    event: StoredLogEvent,
    fields: Seq<(Seq<char>, Seq<char>)>,
)
    ensures
        are_note_links(notes, field_links(notes, event, fields)),
    decreases fields.len(),
{
    if fields.len() > 0 {
        lemma_field_links(notes, event, fields.drop_last());
        lemma_value_links(notes, event_field_values(event, fields.last().1));
    }
}

proof fn lemma_first_link(notes: Seq<VaultNote>, value: Seq<char>)
    requires
        notes_named_by(notes, value).len() > 0,
    ensures
        is_note_link(notes, notes_named_by(notes, value)[0].wikilink@),
{
    lemma_own_links(notes, value);
    assert(is_note_link(notes, links_of(notes_named_by(notes, value))[0]));
}

proof fn lemma_canonical_links(catalog: VaultCatalog, values: Seq<Seq<char>>)
    requires
        catalog.configured,
    ensures
        are_note_links(catalog.notes@, canonical_links(catalog, values)),
    decreases values.len(),
{
    if values.len() > 0 {
        lemma_canonical_links(catalog, values.drop_last());
        if notes_named_by(catalog.notes@, values.last()).len() > 0 {
            lemma_first_link(catalog.notes@, values.last());
        }
    }
}

proof fn lemma_link_by_id(notes: Seq<VaultNote>, id: Seq<char>)
    requires
        link_by_id(notes, id) is Some,
    ensures
        is_note_link(notes, link_by_id(notes, id)->0),
    decreases notes.len(),
{
    let init = notes.drop_last();
    if link_by_id(init, id) is Some {
        lemma_link_by_id(init, id);
        let k = choose|k: int|
            0 <= k < init.len() && (#[trigger] init[k]).wikilink@ == link_by_id(init, id)->0;
        assert(notes[k].wikilink@ == link_by_id(notes, id)->0);
    } else {
        assert(notes[notes.len() - 1].wikilink@ == link_by_id(notes, id)->0);
    }
}

proof fn lemma_rule_links(
    notes: Seq<VaultNote>,
    rules: Seq<VaultLinkRule>,
    event: StoredLogEvent,
    n: nat,
)
    requires
        n <= rules.len(),
    ensures
        are_note_links(notes, rule_links(notes, rules, event, n)),
    decreases n,
{
    if n > 0 {
        lemma_rule_links(notes, rules, event, (n - 1) as nat);
        let id = rules[n - 1].target_note_id@;
        if link_by_id(notes, id) is Some {
            lemma_link_by_id(notes, id);
        }
    }
}

proof fn lemma_all_event_links(
    catalog: VaultCatalog,
    rules: Seq<VaultLinkRule>,
    events: Seq<StoredLogEvent>,
)
    requires
        catalog.configured,
    ensures
        are_note_links(catalog.notes@, all_event_links(catalog, rules, events)),
    decreases events.len(),
{
    if events.len() > 0 {
        let event = events.last();
        lemma_all_event_links(catalog, rules, events.drop_last());
        lemma_canonical_links(catalog, event_field_values(event, "canonical_note"@));
        lemma_rule_links(catalog.notes@, rules, event, rules.len());
        lemma_field_links(catalog.notes@, event, metadata_fields());
        lemma_own_links(catalog.notes@, event.source@);
    }
}

proof fn lemma_product_links(
    notes: Seq<VaultNote>,
    products: Seq<ProductMapping>,
    events: Seq<StoredLogEvent>,
)
    ensures
        are_note_links(notes, product_links(notes, products, events)),
    decreases products.len(),
{
    if products.len() > 0 {
        lemma_product_links(notes, products.drop_last(), events);
        if notes_named_by(notes, products.last().note@).len() > 0 {
            lemma_first_link(notes, products.last().note@);
        }
    }
}

/// With a vault, every candidate is the link of a note in it.
pub proof fn law_candidates_are_notes_of_the_vault(
    catalog: VaultCatalog,
    config: VaultContextConfig,
    rules: Seq<VaultLinkRule>,
    events: Seq<StoredLogEvent>,
)
    requires
        catalog.configured,
    ensures
        are_note_links(catalog.notes@, candidate_notes(catalog, config, rules, events)),
{
    let found = all_event_links(catalog, rules, events);
    let more = product_links(catalog.notes@, config.products@, events);
    let all = found + more;
    lemma_all_event_links(catalog, rules, events);
    lemma_product_links(catalog.notes@, config.products@, events);
    lemma_ordered_set(all);
    let shown = candidate_notes(catalog, config, rules, events);
    assert forall|i: int| 0 <= i < shown.len() implies is_note_link(
        catalog.notes@,
        #[trigger] shown[i],
    ) by {
        assert(shown.contains(shown[i]));
        assert(all.contains(shown[i]));
        let k = choose|k: int| 0 <= k < all.len() && all[k] == shown[i];
        if k < found.len() {
            assert(all[k] == found[k]);
        } else {
            assert(all[k] == more[k - found.len()]);
        }
    }
}

} // verus!
