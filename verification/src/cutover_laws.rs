//! What is found of an older installation, and what becomes of each part.
use crate::curation_laws::{
    law_sorting_keeps_every_value, lemma_precedes_asymmetric, lemma_precedes_not_after,
};
use crate::details::record_moment;
use crate::digest::{sha256_hex, text_digest};
use crate::json::{JsonView, fields_view};
use crate::migration::{
    CutoverInputs, Findings, IgnoredLinkIdentity, ItemView, LegacyEntry, LegacyFolder,
    all_findings, entry_item, event_item, event_source, has_unsupported, ignored_item,
    ignored_source, is_legacy_key, is_manual, is_read, is_structure_key, is_unsupported,
    item_order, paths_by_id, preference_item, rule_item, rule_source, rule_target,
    sorted_findings, text_order, with_entries, with_events, with_folder, with_ignored,
    with_legacy_entry, with_preference, with_preferences, with_rule, with_rules,
};
use crate::models::{LinkSelector, StoredLogEvent};
use crate::ordered::{
    lemma_precedes_irreflexive, lemma_precedes_total, lemma_push_contains,
    lemma_sorted_by_contains, precedes,
};
use crate::proposal_inbox::is_proposal_file;
use crate::snapshot::{json_sha, selector_list};
use crate::text::{begins_with, byte_len, decimal, lowercased, trimmed, views};
use crate::vault::{VaultCatalog, VaultLinkRule, VaultNote};
use vstd::prelude::*;
use vstd::string::*;

verus! {

/// The notes that have an id.
pub proof fn law_notes_with_an_id(notes: Seq<VaultNote>, note: VaultNote, id: Seq<char>)
    ensures
        paths_by_id(Seq::empty(), id).len() == 0,
        note.id@ == id ==> paths_by_id(notes.push(note), id) == paths_by_id(notes, id).push(
            note.path@,
        ),
        note.id@ != id ==> paths_by_id(notes.push(note), id) == paths_by_id(notes, id),
{
    assert(notes.push(note).drop_last() =~= notes);
}

/// A rule leads to a note where a single note has its id and that note is
/// there.
pub proof fn law_target_of_a_rule(
    rule: VaultLinkRule,
    catalog: Option<VaultCatalog>,
    existing: Seq<Seq<char>>,
    path: Seq<char>,
)
    ensures
        catalog is None ==> rule_target(rule, catalog, existing) is None,
        catalog is Some ==> (rule_target(rule, catalog, existing) == Some(path) <==> paths_by_id(
            catalog->0.notes@,
            rule.target_note_id@,
        ) == seq![path] && existing.contains(path)),
{
    if catalog is Some {
        let paths = paths_by_id(catalog->0.notes@, rule.target_note_id@);
        if paths.len() == 1 {
            assert(paths =~= seq![paths[0]]);
        }
        if paths == seq![path] {
            assert(paths[0] == path);
        }
    }
}

/// Whether a selector can be carried over.
pub open spec fn is_carried_over(s: LinkSelector) -> bool {
    s.operator@ == "exact"@ || s.operator@ == "contains"@
}

/// What can become of a rule differs.
pub proof fn lemma_rule_statuses_differ()
    ensures
        "conflict"@ != "unresolved"@,
        "conflict"@ != "ready"@,
        "unresolved"@ != "ready"@,
{
    reveal_strlit("conflict");
    reveal_strlit("unresolved");
    reveal_strlit("ready");
    assert("conflict"@.len() == 8);
    assert("unresolved"@.len() == 10);
    assert("ready"@.len() == 5);
}

/// The keys of a rule differ.
pub proof fn lemma_rule_keys_differ()
    ensures
        "id"@ != "selectors"@,
        "id"@ != "target_note_id"@,
        "id"@ != "enabled"@,
        "id"@ != "target_path"@,
        "selectors"@ != "target_note_id"@,
        "selectors"@ != "enabled"@,
        "selectors"@ != "target_path"@,
        "target_note_id"@ != "enabled"@,
        "target_note_id"@ != "target_path"@,
        "enabled"@ != "target_path"@,
{
    reveal_strlit("id");
    reveal_strlit("selectors");
    reveal_strlit("target_note_id");
    reveal_strlit("enabled");
    reveal_strlit("target_path");
    assert("id"@.len() == 2);
    assert("selectors"@.len() == 9);
    assert("target_note_id"@.len() == 14);
    assert("enabled"@.len() == 7);
    assert("target_path"@.len() == 11);
}

/// A rule is imported where each of its selectors can be carried over and it
/// leads to a note; else it is kept and the owner is asked.
pub proof fn law_rules_are_imported_or_kept(
    found: Findings,
    rule: VaultLinkRule,
    catalog: Option<VaultCatalog>,
    existing: Seq<Seq<char>>,
)
    ensures
        ({
            let target = rule_target(rule, catalog, existing);
            let sound = forall|i: int|
                0 <= i < rule.selectors@.len() ==> is_carried_over(#[trigger] rule.selectors@[i]);
            let after = with_rule(found, rule, catalog, existing);
            let item = after.items.last();
            &&& after.warnings == found.warnings
            &&& after.items.len() == found.items.len() + 1
            &&& after.items.drop_last() == found.items
            &&& item.kind == "context_mapping"@
            &&& item.source_identity == "vault_link_rule:"@ + rule.id@
            &&& item.source_digest == json_sha(rule_source(rule))
            &&& sound && target is Some ==> item.status == "ready"@ && item.action == "import"@
                && after.blockers == found.blockers
            &&& !(sound && target is Some) ==> item.action == "preserve"@ && after.blockers
                == found.blockers.push(
                "Legacy link rule "@ + rule.id@ + " needs a reviewed canonical note"@,
            )
            &&& !sound ==> item.status == "conflict"@
            &&& sound && target is None ==> item.status == "unresolved"@
            &&& item.details.field("selectors"@) == Some(
                JsonView::List(selector_list(rule.selectors@)),
            )
            &&& item.details.field("target_note_id"@) == Some(
                JsonView::Text(rule.target_note_id@),
            )
            &&& target is Some ==> item.details.field("target_path"@) == Some(
                JsonView::Text(target->0),
            )
            &&& target is None ==> item.details.field("target_path"@) == Some(JsonView::Null)
            &&& item.details.field("enabled"@) == Some(JsonView::Bool(rule.enabled))
        }),
{
    lemma_rule_statuses_differ();
    lemma_rule_keys_differ();
    let target = rule_target(rule, catalog, existing);
    let sound = forall|i: int|
        0 <= i < rule.selectors@.len() ==> is_carried_over(#[trigger] rule.selectors@[i]);
    assert(sound <==> !has_unsupported(rule.selectors@)) by {
        if has_unsupported(rule.selectors@) {
            let i = choose|i: int|
                0 <= i < rule.selectors@.len() && is_unsupported(#[trigger] rule.selectors@[i]);
            assert(!is_carried_over(rule.selectors@[i]));
        } else {
            assert forall|i: int| 0 <= i < rule.selectors@.len() implies is_carried_over(
                #[trigger] rule.selectors@[i],
            ) by {
                assert(!is_unsupported(rule.selectors@[i]));
            }
        }
    }
    assert(with_rule(found, rule, catalog, existing).items.drop_last() =~= found.items);
}

/// A rule is told apart by all that it says.
pub proof fn law_digest_of_a_rule(rule: VaultLinkRule)
    ensures
        rule_source(rule).field("id"@) == Some(JsonView::Text(rule.id@)),
        rule_source(rule).field("selectors"@) == Some(
            JsonView::List(selector_list(rule.selectors@)),
        ),
        rule_source(rule).field("target_note_id"@) == Some(JsonView::Text(rule.target_note_id@)),
        rule_source(rule).field("enabled"@) == Some(JsonView::Bool(rule.enabled)),
{
    lemma_rule_keys_differ();
}

/// The keys of a name that was set aside differ.
pub proof fn lemma_set_aside_keys_differ()
    ensures
        "id"@ != "field"@,
        "id"@ != "value"@,
        "id"@ != "normalized_value"@,
        "field"@ != "value"@,
        "field"@ != "normalized_value"@,
        "value"@ != "normalized_value"@,
{
    reveal_strlit("id");
    reveal_strlit("field");
    reveal_strlit("value");
    reveal_strlit("normalized_value");
    assert("id"@.len() == 2);
    assert("field"@.len() == 5);
    assert("value"@.len() == 5);
    assert("normalized_value"@.len() == 16);
    assert("field"@[0] == 'f');
    assert("value"@[0] == 'v');
}

/// A name that was set aside is imported as it is.
pub proof fn law_names_set_aside_are_imported(found: Findings, ignored: Seq<IgnoredLinkIdentity>, one: IgnoredLinkIdentity)
    ensures
        with_ignored(found, Seq::empty()) == found,
        with_ignored(found, ignored.push(one)).items == with_ignored(found, ignored).items.push(
            ignored_item(one),
        ),
        with_ignored(found, ignored.push(one)).blockers == with_ignored(found, ignored).blockers,
        with_ignored(found, ignored.push(one)).warnings == with_ignored(found, ignored).warnings,
        ignored_item(one).kind == "ignored_context_identity"@,
        ignored_item(one).source_identity == "ignored_link_identity:"@ + one.id@,
        ignored_item(one).action == "import"@,
        ignored_item(one).status == "ready"@,
        ignored_item(one).source_digest == json_sha(ignored_source(one)),
        ignored_source(one).field("id"@) == Some(JsonView::Text(one.id@)),
        ignored_source(one).field("field"@) == Some(JsonView::Text(one.field@)),
        ignored_source(one).field("value"@) == Some(JsonView::Text(one.value@)),
        ignored_item(one).details.field("field"@) == Some(JsonView::Text(one.field@)),
        ignored_item(one).details.field("value"@) == Some(JsonView::Text(one.value@)),
        ignored_item(one).details.field("normalized_value"@) == Some(
            JsonView::Text(lowercased(trimmed(one.value@))),
        ),
{
    lemma_set_aside_keys_differ();
    assert(ignored.push(one).drop_last() =~= ignored);
}

/// Whether a preference is one of the known ones of an older installation.
pub open spec fn is_old_preference(key: Seq<char>) -> bool {
    ||| key == "browser_vault_catalog"@
    ||| key == "consolidation_instructions"@
    ||| key == "daily_consolidation_prompt"@
    ||| key == "ingest_url"@
    ||| key == "agent_name"@
    ||| key == "source_prefix"@
    ||| key == "default_host"@
    ||| key == "extra_instructions"@
}

/// A preference on the structure of the vault is kept, with a warning; a known
/// one is removed once all is imported, and others are passed over.
pub proof fn law_preferences_are_kept_or_removed(found: Findings, key: Seq<char>, value: Seq<char>)
    ensures
        ({
            let after = with_preference(found, key, value);
            let structure = begins_with(key, "knowledge_destinations_v1:"@);
            let item = after.items.last();
            &&& after.blockers == found.blockers
            &&& !structure && !is_old_preference(key) ==> after == found
            &&& structure || is_old_preference(key) ==> {
                &&& after.items == found.items.push(item)
                &&& item.kind == "legacy_preference"@
                &&& item.source_identity == "app_preference:"@ + key
                &&& item.source_digest == text_digest(value)
                &&& item.status == "ready"@
                &&& item.details.field("key"@) == Some(JsonView::Text(key))
                &&& item.details.field("byte_size"@) == Some(
                    JsonView::Number(decimal(byte_len(value))),
                )
            }
            &&& structure ==> item.action == "preserve"@ && after.warnings == found.warnings.push(
                "Legacy Structure preference "@ + key
                    + " is preserved as a suggestion and will not change the reviewed Daily convention"@,
            )
            &&& !structure && is_old_preference(key) ==> item.action == "remove_after_import"@
                && after.warnings == found.warnings
        }),
{
    reveal_strlit("key");
    reveal_strlit("byte_size");
    assert("key"@.len() == 3);
    assert("byte_size"@.len() == 9);
    let after = with_preference(found, key, value);
    if is_structure_key(key) || is_legacy_key(key) {
        assert(after.items =~= found.items.push(after.items.last()));
    }
}

/// The keys of an event differ.
pub proof fn lemma_event_keys_differ()
    ensures
        "id"@ != "timestamp"@,
        "id"@ != "source"@,
        "id"@ != "message"@,
        "id"@ != "metadata"@,
        "id"@ != "event_id"@,
        "timestamp"@ != "source"@,
        "timestamp"@ != "message"@,
        "timestamp"@ != "metadata"@,
        "timestamp"@ != "event_id"@,
        "source"@ != "message"@,
        "source"@ != "metadata"@,
        "source"@ != "event_id"@,
        "message"@ != "metadata"@,
        "message"@ != "event_id"@,
        "metadata"@ != "event_id"@,
{
    reveal_strlit("id");
    reveal_strlit("timestamp");
    reveal_strlit("source");
    reveal_strlit("message");
    reveal_strlit("metadata");
    reveal_strlit("event_id");
    assert("id"@.len() == 2);
    assert("timestamp"@.len() == 9);
    assert("source"@.len() == 6);
    assert("message"@.len() == 7);
    assert("metadata"@.len() == 8);
    assert("event_id"@.len() == 8);
    assert("metadata"@[0] == 'm');
    assert("event_id"@[0] == 'e');
}

/// An event that the owner wrote by hand is imported, and the others are passed
/// over.
pub proof fn law_manual_events_are_imported(
    found: Findings,
    events: Seq<StoredLogEvent>,
    event: StoredLogEvent,
)
    ensures
        with_events(found, Seq::empty()) == found,
        event.source@ == "manual/dashboard"@ || event.text_field("entry_kind"@) == Some("manual"@)
            ==> with_events(found, events.push(event)).items == with_events(
            found,
            events,
        ).items.push(event_item(event)),
        !(event.source@ == "manual/dashboard"@ || event.text_field("entry_kind"@) == Some(
            "manual"@,
        )) ==> with_events(found, events.push(event)) == with_events(found, events),
        with_events(found, events.push(event)).blockers == with_events(found, events).blockers,
        with_events(found, events.push(event)).warnings == with_events(found, events).warnings,
        event_item(event).kind == "manual_event"@,
        event_item(event).source_identity == "log_event:"@ + event.id@,
        event_item(event).action == "import"@,
        event_item(event).status == "ready"@,
        event_item(event).details.field("event_id"@) == Some(JsonView::Text(event.id@)),
        event_item(event).details.field("timestamp"@) == Some(
            JsonView::Text(record_moment(event.timestamp)),
        ),
        event_item(event).source_digest == json_sha(event_source(event)),
        event_source(event).field("id"@) == Some(JsonView::Text(event.id@)),
        event_source(event).field("timestamp"@) == Some(
            JsonView::Text(record_moment(event.timestamp)),
        ),
        event_source(event).field("source"@) == Some(JsonView::Text(event.source@)),
        event_source(event).field("message"@) == Some(JsonView::Text(event.message@)),
        event_source(event).field("metadata"@) == Some(
            JsonView::Record(fields_view(event.metadata@)),
        ),
{
    lemma_event_keys_differ();
    assert(events.push(event).drop_last() =~= events);
}

/// The keys of a proposal file differ.
pub proof fn lemma_entry_keys_differ()
    ensures
        "filename"@ != "byte_size"@,
        "filename"@ != "inspection"@,
        "byte_size"@ != "inspection"@,
{
    reveal_strlit("filename");
    reveal_strlit("byte_size");
    reveal_strlit("inspection");
    assert("filename"@.len() == 8);
    assert("byte_size"@.len() == 9);
    assert("inspection"@.len() == 10);
}

/// What lies in the folder of proposals is kept: a proposal as an item, what is
/// none with a warning, and one that is too large stands in the way.
pub proof fn law_proposal_folder_is_kept(found: Findings, entry: LegacyEntry)
    ensures
        ({
            let after = with_legacy_entry(found, entry);
            let proposal = entry.is_plain_file && is_proposal_file(entry.name@);
            let item = after.items.last();
            &&& !entry.is_plain_file ==> after.items == found.items && after.blockers
                == found.blockers && after.warnings == found.warnings.push(
                "Unrecognized proposal-directory entry is preserved: "@ + entry.name@,
            )
            &&& entry.is_plain_file && !proposal ==> after.items == found.items && after.blockers
                == found.blockers && after.warnings == found.warnings.push(
                "Non-Markdown proposal-directory file is preserved: "@ + entry.name@,
            )
            &&& proposal && entry.byte_size > 4194304 ==> after.items == found.items
                && after.warnings == found.warnings && after.blockers == found.blockers.push(
                "Legacy proposal exceeds 4 MiB and is preserved: "@ + entry.name@,
            )
            &&& proposal && entry.byte_size <= 4194304 ==> {
                &&& after.blockers == found.blockers
                &&& after.items == found.items.push(item)
                &&& item.kind == "proposal_file"@
                &&& item.source_identity == "proposal_file:"@ + entry.name@
                &&& item.source_digest == sha256_hex(entry.contents@)
                &&& item.action == "preserve"@
                &&& item.details.field("filename"@) == Some(JsonView::Text(entry.name@))
                &&& item.details.field("byte_size"@) == Some(
                    JsonView::Number(decimal(entry.contents@.len())),
                )
                &&& item.details.field("inspection"@) is Some
                &&& entry.inspection is Ok ==> item.status == "ready"@ && after.warnings
                    == found.warnings && item.details.field("inspection"@)->0
                    == entry.inspection->Ok_0@
                &&& entry.inspection is Err ==> item.status == "unparseable"@ && after.warnings
                    == found.warnings.push(
                    "Unparseable legacy proposal is preserved: "@ + entry.name@,
                ) && item.details.field("inspection"@)->0.field("error"@) == Some(
                    JsonView::Text(entry.inspection->Err_0@),
                )
            }
        }),
{
    lemma_entry_keys_differ();
    let after = with_legacy_entry(found, entry);
    if is_read(entry) {
        assert(after.items =~= found.items.push(after.items.last()));
    }
}

/// Each part of an older installation is looked at: every rule, every name that
/// was set aside, every preference and event and every file of the proposals.
pub proof fn law_every_part_is_looked_at(
    found: Findings,
    inputs: CutoverInputs,
    rules: Seq<VaultLinkRule>,
    rule: VaultLinkRule,
    preferences: Seq<(String, String)>,
    preference: (String, String),
    entries: Seq<LegacyEntry>,
    entry: LegacyEntry,
)
    ensures
        with_rules(found, Seq::empty(), inputs.catalog, views(inputs.existing_paths@)) == found,
        with_rules(found, rules.push(rule), inputs.catalog, views(inputs.existing_paths@))
            == with_rule(
            with_rules(found, rules, inputs.catalog, views(inputs.existing_paths@)),
            rule,
            inputs.catalog,
            views(inputs.existing_paths@),
        ),
        with_preferences(found, Seq::empty()) == found,
        with_preferences(found, preferences.push(preference)) == with_preference(
            with_preferences(found, preferences),
            preference.0@,
            preference.1@,
        ),
        with_entries(found, Seq::empty()) == found,
        with_entries(found, entries.push(entry)) == with_legacy_entry(
            with_entries(found, entries),
            entry,
        ),
        with_folder(found, LegacyFolder::Missing) == found,
        with_folder(found, LegacyFolder::Unsafe).blockers == found.blockers.push(
            "Legacy proposal location is not a safe directory"@,
        ),
        with_folder(found, LegacyFolder::Unsafe).items == found.items,
        inputs.folder is Entries ==> with_folder(found, inputs.folder) == with_entries(
            found,
            inputs.folder->Entries_0@,
        ),
{
    assert(rules.push(rule).drop_last() =~= rules);
    assert(preferences.push(preference).drop_last() =~= preferences);
    assert(entries.push(entry).drop_last() =~= entries);
}

/// The report lists what was found, items by their kind and source, and
/// blockers and warnings in the order of their texts; nothing is lost.
pub proof fn law_findings_are_listed_in_order(found: Findings)
    ensures
        ({
            let sorted = sorted_findings(found);
            &&& sorted.items.to_multiset() =~= found.items.to_multiset()
            &&& sorted.blockers.to_multiset() =~= found.blockers.to_multiset()
            &&& sorted.warnings.to_multiset() =~= found.warnings.to_multiset()
            &&& sorted.blockers.len() == found.blockers.len()
            &&& forall|i: int, j: int|
                0 <= i < j < sorted.items.len() ==> !precedes(
                    (#[trigger] sorted.items[j]).kind,
                    (#[trigger] sorted.items[i]).kind,
                ) && (sorted.items[i].kind == sorted.items[j].kind ==> !precedes(
                    sorted.items[j].source_identity,
                    sorted.items[i].source_identity,
                ))
            &&& forall|i: int, j: int|
                0 <= i < j < sorted.blockers.len() ==> !precedes(
                    #[trigger] sorted.blockers[j],
                    #[trigger] sorted.blockers[i],
                )
            &&& forall|i: int, j: int|
                0 <= i < j < sorted.warnings.len() ==> !precedes(
                    #[trigger] sorted.warnings[j],
                    #[trigger] sorted.warnings[i],
                )
        }),
{
    assert forall|x: Seq<char>, y: Seq<char>| #[trigger] text_order()(x, y) implies !text_order()(
        y,
        x,
    ) by {
        lemma_precedes_asymmetric(x, y);
    }
    assert forall|x: Seq<char>, y: Seq<char>, z: Seq<char>|
        !(#[trigger] text_order()(y, x)) && !(#[trigger] text_order()(z, y)) implies !text_order()(
        z,
        x,
    ) by {
        lemma_precedes_not_after(x, y, z);
    }
    assert forall|x: ItemView, y: ItemView| #[trigger] item_order()(x, y) implies !item_order()(
        y,
        x,
    ) by {
        lemma_precedes_asymmetric(x.kind, y.kind);
        lemma_precedes_asymmetric(x.source_identity, y.source_identity);
        lemma_precedes_irreflexive(x.kind);
    }
    assert forall|x: ItemView, y: ItemView, z: ItemView|
        !(#[trigger] item_order()(y, x)) && !(#[trigger] item_order()(z, y)) implies !item_order()(
        z,
        x,
    ) by {
        lemma_precedes_not_after(x.kind, y.kind, z.kind);
        lemma_precedes_not_after(x.source_identity, y.source_identity, z.source_identity);
        lemma_precedes_total(x.kind, y.kind);
        lemma_precedes_total(y.kind, z.kind);
        lemma_precedes_irreflexive(x.kind);
        lemma_precedes_irreflexive(y.kind);
        lemma_precedes_asymmetric(x.kind, y.kind);
        lemma_precedes_asymmetric(y.kind, z.kind);
    }
    law_sorting_keeps_every_value(found.items, item_order());
    law_sorting_keeps_every_value(found.blockers, text_order());
    law_sorting_keeps_every_value(found.warnings, text_order());
    let sorted = sorted_findings(found);
    assert forall|i: int, j: int| 0 <= i < j < sorted.items.len() implies !precedes(
        (#[trigger] sorted.items[j]).kind,
        (#[trigger] sorted.items[i]).kind,
    ) && (sorted.items[i].kind == sorted.items[j].kind ==> !precedes(
        sorted.items[j].source_identity,
        sorted.items[i].source_identity,
    )) by {
        assert(!item_order()(sorted.items[j], sorted.items[i]));
    }
    assert forall|i: int, j: int| 0 <= i < j < sorted.blockers.len() implies !precedes(
        #[trigger] sorted.blockers[j],
        #[trigger] sorted.blockers[i],
    ) by {
        assert(!text_order()(sorted.blockers[j], sorted.blockers[i]));
    }
    assert forall|i: int, j: int| 0 <= i < j < sorted.warnings.len() implies !precedes(
        #[trigger] sorted.warnings[j],
        #[trigger] sorted.warnings[i],
    ) by {
        assert(!text_order()(sorted.warnings[j], sorted.warnings[i]));
    }
}

proof fn lemma_with_rules_holds(found: Findings, rules: Seq<VaultLinkRule>, catalog: Option<VaultCatalog>, existing: Seq<Seq<char>>, item: ItemView)
    ensures
        found.items.contains(item) ==> with_rules(found, rules, catalog, existing).items.contains(item),
        forall|i: int|
            0 <= i < rules.len() && item == rule_item((#[trigger] rules[i]), rule_target(rules[i], catalog, existing)) ==> with_rules(
                found,
                rules, catalog, existing,
            ).items.contains(item),
    decreases rules.len(),
{
    if rules.len() > 0 {
        let init = rules.drop_last();
        lemma_with_rules_holds(found, init, catalog, existing, item);
        let before = with_rules(found, init, catalog, existing);
        let after = with_rules(found, rules, catalog, existing);
        assert(rules[rules.len() - 1] == rules.last());
        assert forall|i: int| 0 <= i < init.len() implies init[i] == #[trigger] rules[i] by {}
        if after.items.len() > before.items.len() {
            assert(after.items =~= before.items.push(after.items.last()));
            lemma_push_contains(before.items, after.items.last(), item);
        } else {
            assert(after.items =~= before.items);
        }
        assert forall|i: int|
            0 <= i < rules.len() && item == rule_item((#[trigger] rules[i]), rule_target(rules[i], catalog, existing)) implies after.items.contains(
            item,
        ) by {
            if i < init.len() {
                assert(item == rule_item(init[i], rule_target(init[i], catalog, existing)));
            }
        }
    }
}

proof fn lemma_with_ignored_holds(found: Findings, ignored: Seq<IgnoredLinkIdentity>, item: ItemView)
    ensures
        found.items.contains(item) ==> with_ignored(found, ignored).items.contains(item),
        forall|i: int|
            0 <= i < ignored.len() && item == ignored_item((#[trigger] ignored[i])) ==> with_ignored(
                found,
                ignored,
            ).items.contains(item),
    decreases ignored.len(),
{
    if ignored.len() > 0 {
        let init = ignored.drop_last();
        lemma_with_ignored_holds(found, init, item);
        let before = with_ignored(found, init);
        let after = with_ignored(found, ignored);
        assert(ignored[ignored.len() - 1] == ignored.last());
        assert forall|i: int| 0 <= i < init.len() implies init[i] == #[trigger] ignored[i] by {}
        if after.items.len() > before.items.len() {
            assert(after.items =~= before.items.push(after.items.last()));
            lemma_push_contains(before.items, after.items.last(), item);
        } else {
            assert(after.items =~= before.items);
        }
        assert forall|i: int|
            0 <= i < ignored.len() && item == ignored_item((#[trigger] ignored[i])) implies after.items.contains(
            item,
        ) by {
            if i < init.len() {
                assert(item == ignored_item(init[i]));
            }
        }
    }
}

proof fn lemma_with_preferences_holds(found: Findings, preferences: Seq<(String, String)>, item: ItemView)
    ensures
        found.items.contains(item) ==> with_preferences(found, preferences).items.contains(item),
        forall|i: int|
            0 <= i < preferences.len() && (is_structure_key((#[trigger] preferences[i]).0@) || is_legacy_key(preferences[i].0@)) && item == preference_item(preferences[i].0@, preferences[i].1@) ==> with_preferences(
                found,
                preferences,
            ).items.contains(item),
    decreases preferences.len(),
{
    if preferences.len() > 0 {
        let init = preferences.drop_last();
        lemma_with_preferences_holds(found, init, item);
        let before = with_preferences(found, init);
        let after = with_preferences(found, preferences);
        assert(preferences[preferences.len() - 1] == preferences.last());
        assert forall|i: int| 0 <= i < init.len() implies init[i] == #[trigger] preferences[i] by {}
        if after.items.len() > before.items.len() {
            assert(after.items =~= before.items.push(after.items.last()));
            lemma_push_contains(before.items, after.items.last(), item);
        } else {
            assert(after.items =~= before.items);
        }
        assert forall|i: int|
            0 <= i < preferences.len() && (is_structure_key((#[trigger] preferences[i]).0@) || is_legacy_key(preferences[i].0@)) && item == preference_item(preferences[i].0@, preferences[i].1@) implies after.items.contains(
            item,
        ) by {
            if i < init.len() {
                assert((is_structure_key(init[i].0@) || is_legacy_key(init[i].0@)) && item == preference_item(init[i].0@, init[i].1@));
            }
        }
    }
}

proof fn lemma_with_events_holds(found: Findings, events: Seq<StoredLogEvent>, item: ItemView)
    ensures
        found.items.contains(item) ==> with_events(found, events).items.contains(item),
        forall|i: int|
            0 <= i < events.len() && is_manual((#[trigger] events[i])) && item == event_item(events[i]) ==> with_events(
                found,
                events,
            ).items.contains(item),
    decreases events.len(),
{
    if events.len() > 0 {
        let init = events.drop_last();
        lemma_with_events_holds(found, init, item);
        let before = with_events(found, init);
        let after = with_events(found, events);
        assert(events[events.len() - 1] == events.last());
        assert forall|i: int| 0 <= i < init.len() implies init[i] == #[trigger] events[i] by {}
        if after.items.len() > before.items.len() {
            assert(after.items =~= before.items.push(after.items.last()));
            lemma_push_contains(before.items, after.items.last(), item);
        } else {
            assert(after.items =~= before.items);
        }
        assert forall|i: int|
            0 <= i < events.len() && is_manual((#[trigger] events[i])) && item == event_item(events[i]) implies after.items.contains(
            item,
        ) by {
            if i < init.len() {
                assert(is_manual(init[i]) && item == event_item(init[i]));
            }
        }
    }
}

proof fn lemma_with_entries_holds(found: Findings, entries: Seq<LegacyEntry>, item: ItemView)
    ensures
        found.items.contains(item) ==> with_entries(found, entries).items.contains(item),
        forall|i: int|
            0 <= i < entries.len() && is_read((#[trigger] entries[i])) && item == entry_item(entries[i]) ==> with_entries(
                found,
                entries,
            ).items.contains(item),
    decreases entries.len(),
{
    if entries.len() > 0 {
        let init = entries.drop_last();
        lemma_with_entries_holds(found, init, item);
        let before = with_entries(found, init);
        let after = with_entries(found, entries);
        assert(entries[entries.len() - 1] == entries.last());
        assert forall|i: int| 0 <= i < init.len() implies init[i] == #[trigger] entries[i] by {}
        if after.items.len() > before.items.len() {
            assert(after.items =~= before.items.push(after.items.last()));
            lemma_push_contains(before.items, after.items.last(), item);
        } else {
            assert(after.items =~= before.items);
        }
        assert forall|i: int|
            0 <= i < entries.len() && is_read((#[trigger] entries[i])) && item == entry_item(entries[i]) implies after.items.contains(
            item,
        ) by {
            if i < init.len() {
                assert(is_read(init[i]) && item == entry_item(init[i]));
            }
        }
    }
}

/// Whether an item stands for some part of an older installation.
pub open spec fn stands_for_a_part(inputs: CutoverInputs, item: ItemView) -> bool {
    ||| exists|i: int|
        0 <= i < inputs.rules@.len() && item == rule_item(
            #[trigger] inputs.rules@[i],
            rule_target(inputs.rules@[i], inputs.catalog, views(inputs.existing_paths@)),
        )
    ||| exists|i: int|
        0 <= i < inputs.ignored@.len() && item == ignored_item(#[trigger] inputs.ignored@[i])
    ||| exists|i: int|
        0 <= i < inputs.preferences@.len() && (begins_with(
            (#[trigger] inputs.preferences@[i]).0@,
            "knowledge_destinations_v1:"@,
        ) || is_old_preference(inputs.preferences@[i].0@)) && item == preference_item(
            inputs.preferences@[i].0@,
            inputs.preferences@[i].1@,
        )
    ||| exists|i: int|
        0 <= i < inputs.events@.len() && is_manual(#[trigger] inputs.events@[i]) && item
            == event_item(inputs.events@[i])
    ||| inputs.folder is Entries && exists|i: int|
        0 <= i < inputs.folder->Entries_0@.len() && is_read(
            #[trigger] inputs.folder->Entries_0@[i],
        ) && item == entry_item(inputs.folder->Entries_0@[i])
}

/// The item of every part of an older installation is in the report.
pub proof fn law_report_lists_every_part(inputs: CutoverInputs, item: ItemView)
    requires
        stands_for_a_part(inputs, item),
    ensures
        sorted_findings(all_findings(inputs)).items.contains(item),
{
    let existing = views(inputs.existing_paths@);
    let a = with_rules(Findings::nothing(), inputs.rules@, inputs.catalog, existing);
    let b = with_ignored(a, inputs.ignored@);
    let c = with_preferences(b, inputs.preferences@);
    let d = with_events(c, inputs.events@);
    lemma_with_rules_holds(Findings::nothing(), inputs.rules@, inputs.catalog, existing, item);
    lemma_with_ignored_holds(a, inputs.ignored@, item);
    lemma_with_preferences_holds(b, inputs.preferences@, item);
    lemma_with_events_holds(c, inputs.events@, item);
    if inputs.folder is Entries {
        lemma_with_entries_holds(d, inputs.folder->Entries_0@, item);
    }
    assert(all_findings(inputs) == with_folder(d, inputs.folder));
    assert(all_findings(inputs).items.contains(item));
    lemma_sorted_by_contains(all_findings(inputs).items, item_order(), item);
}

} // verus!
