//! What holds of every report on an earlier setup.
use crate::migration::{
    CutoverInputs, Findings, IgnoredLinkIdentity, ItemView, LegacyEntry, LegacyFolder,
    all_findings, has_unsupported, item_order, rule_status, rule_target, sorted_findings,
    text_order, with_entries, with_events, with_folder, with_ignored, with_preferences,
    with_rules,
};
use crate::models::StoredLogEvent;
use crate::ordered::{lemma_sorted_by_contains, placed_by, sorted_by};
use crate::text::views;
use crate::vault::{VaultCatalog, VaultLinkRule};
use vstd::prelude::*;
use vstd::string::*;

verus! {

proof fn lemma_placed_by_len<V>(s: Seq<V>, x: V, before: spec_fn(V, V) -> bool)
    ensures
        placed_by(s, x, before).len() == s.len() + 1,
    decreases s.len(),
{
    if s.len() > 0 && before(x, s.last()) {
        lemma_placed_by_len(s.drop_last(), x, before);
    }
}

proof fn lemma_sorted_by_len<V>(s: Seq<V>, before: spec_fn(V, V) -> bool)
    ensures
        sorted_by(s, before).len() == s.len(),
    decreases s.len(),
{
    if s.len() > 0 {
        lemma_sorted_by_len(s.drop_last(), before);
        lemma_placed_by_len(sorted_by(s.drop_last(), before), s.last(), before);
    }
}

proof fn lemma_rules_block(
    found: Findings,
    rules: Seq<VaultLinkRule>,
    catalog: Option<VaultCatalog>,
    existing: Seq<Seq<char>>,
    i: int,
)
    requires
        0 <= i < rules.len(),
        rule_status(rules[i], rule_target(rules[i], catalog, existing)) != "ready"@,
    ensures
        with_rules(found, rules, catalog, existing).blockers.len() > 0,
    decreases rules.len(),
{
    if i < rules.len() - 1 {
        lemma_rules_block(found, rules.drop_last(), catalog, existing, i);
    }
}

proof fn lemma_blockers_stay(found: Findings, inputs: CutoverInputs)
    ensures
        with_folder(
            with_events(
                with_preferences(with_ignored(found, inputs.ignored@), inputs.preferences@),
                inputs.events@,
            ),
            inputs.folder,
        ).blockers.len() >= found.blockers.len(),
{
    let a = with_ignored(found, inputs.ignored@);
    lemma_ignored_blockers(found, inputs.ignored@);
    let b = with_preferences(a, inputs.preferences@);
    lemma_preference_blockers(a, inputs.preferences@);
    let c = with_events(b, inputs.events@);
    lemma_event_blockers(b, inputs.events@);
    if let LegacyFolder::Entries(entries) = inputs.folder {
        lemma_entry_blockers(c, entries@);
    }
}

proof fn lemma_ignored_blockers(found: Findings, ignored: Seq<IgnoredLinkIdentity>)
    ensures
        with_ignored(found, ignored).blockers == found.blockers,
    decreases ignored.len(),
{
    if ignored.len() > 0 {
        lemma_ignored_blockers(found, ignored.drop_last());
    }
}

proof fn lemma_preference_blockers(found: Findings, preferences: Seq<(String, String)>)
    ensures
        with_preferences(found, preferences).blockers == found.blockers,
    decreases preferences.len(),
{
    if preferences.len() > 0 {
        lemma_preference_blockers(found, preferences.drop_last());
    }
}

proof fn lemma_event_blockers(found: Findings, events: Seq<StoredLogEvent>)
    ensures
        with_events(found, events).blockers == found.blockers,
    decreases events.len(),
{
    if events.len() > 0 {
        lemma_event_blockers(found, events.drop_last());
    }
}

proof fn lemma_entry_blockers(found: Findings, entries: Seq<LegacyEntry>)
    ensures
        with_entries(found, entries).blockers.len() >= found.blockers.len(),
    decreases entries.len(),
{
    if entries.len() > 0 {
        lemma_entry_blockers(found, entries.drop_last());
    }
}

/// A report that is ready has a reviewed note for every rule.
pub proof fn law_ready_report_resolves_every_rule(inputs: CutoverInputs, i: int)
    requires
        0 <= i < inputs.rules@.len(),
        sorted_findings(all_findings(inputs)).blockers.len() == 0,
    ensures
        rule_target(inputs.rules@[i], inputs.catalog, views(inputs.existing_paths@)) is Some,
        !has_unsupported(inputs.rules@[i].selectors@),
{
    let existing = views(inputs.existing_paths@);
    let rules = with_rules(Findings::nothing(), inputs.rules@, inputs.catalog, existing);
    lemma_sorted_by_len(all_findings(inputs).blockers, text_order());
    lemma_blockers_stay(rules, inputs);
    if rule_status(
        inputs.rules@[i],
        rule_target(inputs.rules@[i], inputs.catalog, existing),
    ) != "ready"@ {
        lemma_rules_block(Findings::nothing(), inputs.rules@, inputs.catalog, existing, i);
    }
    reveal_strlit("ready");
    reveal_strlit("conflict");
    reveal_strlit("unresolved");
    assert("conflict"@.len() != "ready"@.len());
    assert("unresolved"@.len() != "ready"@.len());
}

/// Whether every proposal among some items is kept as it is.
pub open spec fn keeps_proposals(items: Seq<ItemView>) -> bool {
    forall|i: int|
        0 <= i < items.len() && (#[trigger] items[i]).kind == "proposal_file"@ ==> items[i].action
            == "preserve"@
}

proof fn lemma_kinds()
    ensures
        "context_mapping"@ != "proposal_file"@,
        "ignored_context_identity"@ != "proposal_file"@,
        "legacy_preference"@ != "proposal_file"@,
        "manual_event"@ != "proposal_file"@,
{
    reveal_strlit("context_mapping");
    reveal_strlit("ignored_context_identity");
    reveal_strlit("legacy_preference");
    reveal_strlit("manual_event");
    reveal_strlit("proposal_file");
    assert("context_mapping"@.len() != "proposal_file"@.len());
    assert("ignored_context_identity"@.len() != "proposal_file"@.len());
    assert("legacy_preference"@.len() != "proposal_file"@.len());
    assert("manual_event"@.len() != "proposal_file"@.len());
}

proof fn lemma_rules_keep(
    found: Findings,
    rules: Seq<VaultLinkRule>,
    catalog: Option<VaultCatalog>,
    existing: Seq<Seq<char>>,
)
    requires
        keeps_proposals(found.items),
    ensures
        keeps_proposals(with_rules(found, rules, catalog, existing).items),
    decreases rules.len(),
{
    lemma_kinds();
    if rules.len() > 0 {
        lemma_rules_keep(found, rules.drop_last(), catalog, existing);
    }
}

proof fn lemma_ignored_keep(found: Findings, ignored: Seq<IgnoredLinkIdentity>)
    requires
        keeps_proposals(found.items),
    ensures
        keeps_proposals(with_ignored(found, ignored).items),
    decreases ignored.len(),
{
    lemma_kinds();
    if ignored.len() > 0 {
        lemma_ignored_keep(found, ignored.drop_last());
    }
}

proof fn lemma_preferences_keep(found: Findings, preferences: Seq<(String, String)>)
    requires
        keeps_proposals(found.items),
    ensures
        keeps_proposals(with_preferences(found, preferences).items),
    decreases preferences.len(),
{
    lemma_kinds();
    if preferences.len() > 0 {
        lemma_preferences_keep(found, preferences.drop_last());
    }
}

proof fn lemma_events_keep(found: Findings, events: Seq<StoredLogEvent>)
    requires
        keeps_proposals(found.items),
    ensures
        keeps_proposals(with_events(found, events).items),
    decreases events.len(),
{
    lemma_kinds();
    if events.len() > 0 {
        lemma_events_keep(found, events.drop_last());
    }
}

proof fn lemma_entries_keep(found: Findings, entries: Seq<LegacyEntry>)
    requires
        keeps_proposals(found.items),
    ensures
        keeps_proposals(with_entries(found, entries).items),
    decreases entries.len(),
{
    if entries.len() > 0 {
        lemma_entries_keep(found, entries.drop_last());
    }
}

/// Every proposal that a report lists is kept as it is, whether or not it can
/// be read.
pub proof fn law_proposals_are_preserved(inputs: CutoverInputs)
    ensures
        keeps_proposals(sorted_findings(all_findings(inputs)).items),
{
    let existing = views(inputs.existing_paths@);
    let a = with_rules(Findings::nothing(), inputs.rules@, inputs.catalog, existing);
    lemma_rules_keep(Findings::nothing(), inputs.rules@, inputs.catalog, existing);
    let b = with_ignored(a, inputs.ignored@);
    lemma_ignored_keep(a, inputs.ignored@);
    let c = with_preferences(b, inputs.preferences@);
    lemma_preferences_keep(b, inputs.preferences@);
    let d = with_events(c, inputs.events@);
    lemma_events_keep(c, inputs.events@);
    if let LegacyFolder::Entries(entries) = inputs.folder {
        lemma_entries_keep(d, entries@);
    }
    let found = all_findings(inputs).items;
    let sorted = sorted_findings(all_findings(inputs)).items;
    assert forall|i: int|
        0 <= i < sorted.len() && (#[trigger] sorted[i]).kind == "proposal_file"@ implies sorted[i].action
        == "preserve"@ by {
        assert(sorted.contains(sorted[i]));
        lemma_sorted_by_contains(found, item_order(), sorted[i]);
        let k = choose|k: int| 0 <= k < found.len() && found[k] == sorted[i];
        assert(found[k].kind == "proposal_file"@);
    }
}

} // verus!
