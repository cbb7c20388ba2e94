//! The report on what an earlier setup has left, and what becomes of it.
use crate::details::{moment_in_record, record_moment};
use crate::digest::{digest, digest_of_text, sha256_hex, text_digest};
use crate::errors::{text2, text3};
use crate::json::{
    Json, JsonView, empty_record, fields_view, json_of_number, json_of_option, json_of_text,
    json_of_texts, json_text, number_view, optional_text_view, put, quoted, quoted_text,
};
use crate::models::{LinkSelector, StoredLogEvent};
use crate::ordered::{
    Ranked, contains_text, lemma_ranked_views, precedes, sort_ranked, sorted_by, str_less,
    views_of,
};
use crate::prompt::copy_fields;
use crate::proposal_inbox::{has_proposal_extension, is_proposal_file};
use crate::snapshot::{json_digest, json_sha, selector_list, selectors_json, text_list};
use crate::text::{
    begins_with, byte_len, bytes_in, chars_of, join, joined, lemma_take_step, lemma_views_push,
    lowercase, lowercased, opt_text, starts_with, str_eq, string_of, trim, trimmed, views,
};
use crate::vault::{VaultCatalog, VaultLinkRule, VaultNote};
use vstd::prelude::*;
use vstd::string::*;

verus! {

/// The largest proposal that is read.
pub const MAX_PROPOSAL_BYTES: u64 = 4_194_304;

/// One thing that was found, and what becomes of it.
#[derive(Debug)]
pub struct CutoverItem {
    pub kind: String,
    pub source_identity: String,
    pub source_digest: String,
    pub action: String,
    pub status: String,
    pub details: Json,
}

pub struct ItemView {
    pub kind: Seq<char>,
    pub source_identity: Seq<char>,
    pub source_digest: Seq<char>,
    pub action: Seq<char>,
    pub status: Seq<char>,
    pub details: JsonView,
}

impl View for CutoverItem {
    type V = ItemView;

    open spec fn view(&self) -> ItemView {
        ItemView {
            kind: self.kind@,
            source_identity: self.source_identity@,
            source_digest: self.source_digest@,
            action: self.action@,
            status: self.status@,
            details: self.details@,
        }
    }
}

/// What was found, in the order of its kinds and identities.
#[derive(Debug)]
pub struct CutoverReport {
    pub operation_id: String,
    pub report_digest: String,
    pub workspace_id: String,
    pub root_binding: String,
    pub ready: bool,
    pub items: Vec<CutoverItem>,
    pub blockers: Vec<String>,
    pub warnings: Vec<String>,
}

/// An identity that an earlier setup did not show for review.
#[derive(Debug, Clone, PartialEq, Eq)]
pub struct IgnoredLinkIdentity {
    pub id: String,
    pub field: String,
    pub value: String,
}

/// An entry of the folder that proposals were kept in. `contents` is what the
/// file holds where it is read, and `inspection` what it says as a proposal.
#[derive(Debug)]
pub struct LegacyEntry {
    pub name: String,
    pub is_plain_file: bool,
    pub byte_size: u64,
    pub contents: Vec<u8>,
    pub inspection: Result<Json, String>,
}

/// The folder that proposals were kept in.
#[derive(Debug)]
pub enum LegacyFolder {
    /// There is none.
    Missing,
    /// It is a link, or no folder.
    Unsafe,
    /// It has these entries.
    Entries(Vec<LegacyEntry>),
}

/// What a report is made of. `existing_paths` are the paths of notes that are
/// there.
#[derive(Debug)]
pub struct CutoverInputs {
    pub workspace_id: String,
    pub saved_binding: String,
    pub mounted_binding: String,
    pub rules: Vec<VaultLinkRule>,
    pub catalog: Option<VaultCatalog>,
    pub existing_paths: Vec<String>,
    pub ignored: Vec<IgnoredLinkIdentity>,
    pub preferences: Vec<(String, String)>,
    pub events: Vec<StoredLogEvent>,
    pub folder: LegacyFolder,
}

/// What was found so far.
struct Inventory {
    items: Vec<CutoverItem>,
    blockers: Vec<String>,
    warnings: Vec<String>,
}

pub struct Findings {
    pub items: Seq<ItemView>,
    pub blockers: Seq<Seq<char>>,
    pub warnings: Seq<Seq<char>>,
}

pub open spec fn item_views(s: Seq<CutoverItem>) -> Seq<ItemView> {
    s.map_values(|i: CutoverItem| i@)
}

impl View for Inventory {
    type V = Findings;

    closed spec fn view(&self) -> Findings {
        Findings {
            items: item_views(self.items@),
            blockers: views(self.blockers@),
            warnings: views(self.warnings@),
        }
    }
}

impl Findings {
    pub open spec fn nothing() -> Findings {
        Findings { items: Seq::empty(), blockers: Seq::empty(), warnings: Seq::empty() }
    }

    pub open spec fn with_item(self, item: ItemView) -> Findings {
        Findings { items: self.items.push(item), ..self }
    }

    pub open spec fn with_blocker(self, text: Seq<char>) -> Findings {
        Findings { blockers: self.blockers.push(text), ..self }
    }

    pub open spec fn with_warning(self, text: Seq<char>) -> Findings {
        Findings { warnings: self.warnings.push(text), ..self }
    }
}

impl Inventory {
    fn add(&mut self, item: CutoverItem)
        ensures
            final(self)@ == old(self)@.with_item(item@),
    {
        let ghost before = item_views(self.items@);
        self.items.push(item);
        assert(item_views(self.items@) =~= before.push(item@));
    }

    fn block(&mut self, text: String)
        ensures
            final(self)@ == old(self)@.with_blocker(text@),
    {
        let ghost before = views(self.blockers@);
        self.blockers.push(text);
        assert(views(self.blockers@) =~= before.push(text@));
    }

    fn warn(&mut self, text: String)
        ensures
            final(self)@ == old(self)@.with_warning(text@),
    {
        let ghost before = views(self.warnings@);
        self.warnings.push(text);
        assert(views(self.warnings@) =~= before.push(text@));
    }
}

/// A link rule as its digest sees it.
pub open spec fn rule_source(rule: VaultLinkRule) -> JsonView {
    JsonView::Record(
        Map::<Seq<char>, JsonView>::empty().insert("id"@, JsonView::Text(rule.id@)).insert(
            "selectors"@,
            JsonView::List(selector_list(rule.selectors@)),
        ).insert("target_note_id"@, JsonView::Text(rule.target_note_id@)).insert(
            "enabled"@,
            JsonView::Bool(rule.enabled),
        ),
    )
}

/// Whether a selector cannot be kept as it is.
pub open spec fn is_unsupported(s: LinkSelector) -> bool {
    !(s.operator@ == "exact"@ || s.operator@ == "contains"@)
}

pub open spec fn has_unsupported(selectors: Seq<LinkSelector>) -> bool {
    exists|i: int| 0 <= i < selectors.len() && is_unsupported(#[trigger] selectors[i])
}

/// The paths of the notes with an ID.
pub open spec fn paths_by_id(notes: Seq<VaultNote>, id: Seq<char>) -> Seq<Seq<char>>
    decreases notes.len(),
{
    if notes.len() == 0 {
        Seq::empty()
    } else if notes.last().id@ == id {
        paths_by_id(notes.drop_last(), id).push(notes.last().path@)
    } else {
        paths_by_id(notes.drop_last(), id)
    }
}

/// The note that a rule leads to: the only one with its ID, where it is there.
pub open spec fn rule_target(
    rule: VaultLinkRule,
    catalog: Option<VaultCatalog>,
    existing: Seq<Seq<char>>,
) -> Option<Seq<char>> {
    match catalog {
        Some(catalog) => {
            let paths = paths_by_id(catalog.notes@, rule.target_note_id@);
            if paths.len() == 1 && existing.contains(paths[0]) {
                Some(paths[0])
            } else {
                None
            }
        },
        None => None,
    }
}

pub open spec fn rule_status(rule: VaultLinkRule, target: Option<Seq<char>>) -> Seq<char> {
    if has_unsupported(rule.selectors@) {
        "conflict"@
    } else if target is None {
        "unresolved"@
    } else {
        "ready"@
    }
}

pub open spec fn rule_item(rule: VaultLinkRule, target: Option<Seq<char>>) -> ItemView {
    ItemView {
        kind: "context_mapping"@,
        source_identity: "vault_link_rule:"@ + rule.id@,
        source_digest: json_sha(rule_source(rule)),
        action: if rule_status(rule, target) == "ready"@ {
            "import"@
        } else {
            "preserve"@
        },
        status: rule_status(rule, target),
        details: JsonView::Record(
            Map::<Seq<char>, JsonView>::empty().insert(
                "selectors"@,
                JsonView::List(selector_list(rule.selectors@)),
            ).insert("target_note_id"@, JsonView::Text(rule.target_note_id@)).insert(
                "target_path"@,
                optional_text_view(target),
            ).insert("enabled"@, JsonView::Bool(rule.enabled)),
        ),
    }
}

pub open spec fn with_rule(
    found: Findings,
    rule: VaultLinkRule,
    catalog: Option<VaultCatalog>,
    existing: Seq<Seq<char>>,
) -> Findings {
    let target = rule_target(rule, catalog, existing);
    let item = rule_item(rule, target);
    if item.status == "ready"@ {
        found.with_item(item)
    } else {
        found.with_blocker(
            "Legacy link rule "@ + rule.id@ + " needs a reviewed canonical note"@,
        ).with_item(item)
    }
}

pub open spec fn with_rules(
    found: Findings,
    rules: Seq<VaultLinkRule>,
    catalog: Option<VaultCatalog>,
    existing: Seq<Seq<char>>,
) -> Findings
    decreases rules.len(),
{
    if rules.len() == 0 {
        found
    } else {
        with_rule(
            with_rules(found, rules.drop_last(), catalog, existing),
            rules.last(),
            catalog,
            existing,
        )
    }
}

fn unsupported(selectors: &Vec<LinkSelector>) -> (r: bool)
    ensures
        r == has_unsupported(selectors@),
{
    let mut i: usize = 0;
    while i < selectors.len()
        invariant
            i <= selectors@.len(),
            forall|k: int| 0 <= k < i ==> !is_unsupported(#[trigger] selectors@[k]),
        decreases selectors@.len() - i,
    {
        let operator: &str = selectors[i].operator.as_str();
        if !(str_eq(operator, "exact") || str_eq(operator, "contains")) {
            assert(is_unsupported(selectors@[i as int]));
            return true;
        }
        i += 1;
    }
    false
}

fn paths_with_id(notes: &Vec<VaultNote>, id: &str) -> (r: Vec<String>)
    ensures
        views(r@) == paths_by_id(notes@, id@),
{
    broadcast use lemma_views_push;
    let mut r: Vec<String> = Vec::new();
    let mut i: usize = 0;
    assert(notes@.take(0) =~= Seq::<VaultNote>::empty());
    assert(views(r@) =~= Seq::<Seq<char>>::empty());
    while i < notes.len()
        invariant
            i <= notes@.len(),
            views(r@) == paths_by_id(notes@.take(i as int), id@),
        decreases notes@.len() - i,
    {
        proof {
            lemma_take_step(notes@, i as int);
        }
        if str_eq(notes[i].id.as_str(), id) {
            r.push(notes[i].path.as_str().to_owned());
        }
        i += 1;
    }
    assert(notes@.take(i as int) =~= notes@);
    r
}

fn target_of(rule: &VaultLinkRule, catalog: &Option<VaultCatalog>, existing: &Vec<String>) -> (r: Option<
    String,
>)
    ensures
        opt_text(r) == rule_target(*rule, *catalog, views(existing@)),
{
    match catalog {
        None => None,
        Some(catalog) => {
            let mut paths = paths_with_id(&catalog.notes, rule.target_note_id.as_str());
            assert(views(paths@).len() == paths@.len());
            if paths.len() == 1 {
                assert(paths@[0]@ == views(paths@)[0]);
                if contains_text(existing, paths[0].as_str()) {
                    return Some(paths[0].as_str().to_owned());
                }
            }
            None
        },
    }
}

fn inventory_rule(
    rule: &VaultLinkRule,
    catalog: &Option<VaultCatalog>,
    existing: &Vec<String>,
    found: &mut Inventory,
)
    ensures
        final(found)@ == with_rule(old(found)@, *rule, *catalog, views(existing@)),
{
    let target = target_of(rule, catalog, existing);
    let status: &str = if unsupported(&rule.selectors) {
        "conflict"
    } else if target.is_none() {
        "unresolved"
    } else {
        "ready"
    };
    assert(status@ == rule_status(*rule, opt_text(target)));
    let ready: bool = str_eq(status, "ready");
    if !ready {
        found.block(
            text3("Legacy link rule ", rule.id.as_str(), " needs a reviewed canonical note"),
        );
    }
    let mut source = empty_record();
    put(&mut source, "id", json_of_text(rule.id.as_str()));
    put(&mut source, "selectors", selectors_json(&rule.selectors));
    put(&mut source, "target_note_id", json_of_text(rule.target_note_id.as_str()));
    put(&mut source, "enabled", Json::Bool(rule.enabled));
    let mut details = empty_record();
    put(&mut details, "selectors", selectors_json(&rule.selectors));
    put(&mut details, "target_note_id", json_of_text(rule.target_note_id.as_str()));
    put(&mut details, "target_path", json_of_option(&target));
    put(&mut details, "enabled", Json::Bool(rule.enabled));
    let source = Json::Record(source);
    found.add(
        CutoverItem {
            kind: "context_mapping".to_owned(),
            source_identity: text2("vault_link_rule:", rule.id.as_str()),
            source_digest: json_digest(&source),
            action: (if ready {
                "import"
            } else {
                "preserve"
            }).to_owned(),
            status: status.to_owned(),
            details: Json::Record(details),
        },
    );
}

fn inventory_rules(
    rules: &Vec<VaultLinkRule>,
    catalog: &Option<VaultCatalog>,
    existing: &Vec<String>,
    found: &mut Inventory,
)
    ensures
        final(found)@ == with_rules(old(found)@, rules@, *catalog, views(existing@)),
{
    let ghost before = found@;
    let mut i: usize = 0;
    assert(rules@.take(0) =~= Seq::<VaultLinkRule>::empty());
    while i < rules.len()
        invariant
            i <= rules@.len(),
            found@ == with_rules(before, rules@.take(i as int), *catalog, views(existing@)),
        decreases rules@.len() - i,
    {
        proof {
            lemma_take_step(rules@, i as int);
        }
        inventory_rule(&rules[i], catalog, existing, found);
        i += 1;
    }
    assert(rules@.take(i as int) =~= rules@);
}

pub open spec fn ignored_source(ignored: IgnoredLinkIdentity) -> JsonView {
    JsonView::Record(
        Map::<Seq<char>, JsonView>::empty().insert("id"@, JsonView::Text(ignored.id@)).insert(
            "field"@,
            JsonView::Text(ignored.field@),
        ).insert("value"@, JsonView::Text(ignored.value@)),
    )
}

pub open spec fn ignored_item(ignored: IgnoredLinkIdentity) -> ItemView {
    ItemView {
        kind: "ignored_context_identity"@,
        source_identity: "ignored_link_identity:"@ + ignored.id@,
        source_digest: json_sha(ignored_source(ignored)),
        action: "import"@,
        status: "ready"@,
        details: JsonView::Record(
            Map::<Seq<char>, JsonView>::empty().insert(
                "field"@,
                JsonView::Text(ignored.field@),
            ).insert("value"@, JsonView::Text(ignored.value@)).insert(
                "normalized_value"@,
                JsonView::Text(lowercased(trimmed(ignored.value@))),
            ),
        ),
    }
}

pub open spec fn with_ignored(found: Findings, ignored: Seq<IgnoredLinkIdentity>) -> Findings
    decreases ignored.len(),
{
    if ignored.len() == 0 {
        found
    } else {
        with_ignored(found, ignored.drop_last()).with_item(ignored_item(ignored.last()))
    }
}

fn inventory_ignores(ignored: &Vec<IgnoredLinkIdentity>, found: &mut Inventory)
    ensures
        final(found)@ == with_ignored(old(found)@, ignored@),
{
    let ghost before = found@;
    let mut i: usize = 0;
    assert(ignored@.take(0) =~= Seq::<IgnoredLinkIdentity>::empty());
    while i < ignored.len()
        invariant
            i <= ignored@.len(),
            found@ == with_ignored(before, ignored@.take(i as int)),
        decreases ignored@.len() - i,
    {
        proof {
            lemma_take_step(ignored@, i as int);
        }
        let one = &ignored[i];
        let mut source = empty_record();
        put(&mut source, "id", json_of_text(one.id.as_str()));
        put(&mut source, "field", json_of_text(one.field.as_str()));
        put(&mut source, "value", json_of_text(one.value.as_str()));
        let mut details = empty_record();
        put(&mut details, "field", json_of_text(one.field.as_str()));
        put(&mut details, "value", json_of_text(one.value.as_str()));
        put(
            &mut details,
            "normalized_value",
            json_of_text(lowercase(trim(one.value.as_str()).as_str()).as_str()),
        );
        let source = Json::Record(source);
        found.add(
            CutoverItem {
                kind: "ignored_context_identity".to_owned(),
                source_identity: text2("ignored_link_identity:", one.id.as_str()),
                source_digest: json_digest(&source),
                action: "import".to_owned(),
                status: "ready".to_owned(),
                details: Json::Record(details),
            },
        );
        i += 1;
    }
    assert(ignored@.take(i as int) =~= ignored@);
}

/// Whether a preference belongs to the earlier setup.
pub open spec fn is_legacy_key(key: Seq<char>) -> bool {
    ||| key == "browser_vault_catalog"@
    ||| key == "consolidation_instructions"@
    ||| key == "daily_consolidation_prompt"@
    ||| key == "ingest_url"@
    ||| key == "agent_name"@
    ||| key == "source_prefix"@
    ||| key == "default_host"@
    ||| key == "extra_instructions"@
}

/// Whether a preference says where notes were put.
pub open spec fn is_structure_key(key: Seq<char>) -> bool {
    begins_with(key, "knowledge_destinations_v1:"@)
}

pub open spec fn preference_item(key: Seq<char>, value: Seq<char>) -> ItemView {
    ItemView {
        kind: "legacy_preference"@,
        source_identity: "app_preference:"@ + key,
        source_digest: text_digest(value),
        action: if is_structure_key(key) {
            "preserve"@
        } else {
            "remove_after_import"@
        },
        status: "ready"@,
        details: JsonView::Record(
            Map::<Seq<char>, JsonView>::empty().insert("key"@, JsonView::Text(key)).insert(
                "byte_size"@,
                number_view(byte_len(value)),
            ),
        ),
    }
}

pub open spec fn with_preference(found: Findings, key: Seq<char>, value: Seq<char>) -> Findings {
    if is_structure_key(key) {
        found.with_warning(
            "Legacy Structure preference "@ + key
                + " is preserved as a suggestion and will not change the reviewed Daily convention"@,
        ).with_item(preference_item(key, value))
    } else if is_legacy_key(key) {
        found.with_item(preference_item(key, value))
    } else {
        found
    }
}

pub open spec fn with_preferences(found: Findings, preferences: Seq<(String, String)>) -> Findings
    decreases preferences.len(),
{
    if preferences.len() == 0 {
        found
    } else {
        with_preference(
            with_preferences(found, preferences.drop_last()),
            preferences.last().0@,
            preferences.last().1@,
        )
    }
}

fn legacy_key(key: &str) -> (r: bool)
    ensures
        r == is_legacy_key(key@),
{
    str_eq(key, "browser_vault_catalog") || str_eq(key, "consolidation_instructions") || str_eq(
        key,
        "daily_consolidation_prompt",
    ) || str_eq(key, "ingest_url") || str_eq(key, "agent_name") || str_eq(key, "source_prefix")
        || str_eq(key, "default_host") || str_eq(key, "extra_instructions")
}

fn inventory_preference(key: &str, value: &str, found: &mut Inventory)
    ensures
        final(found)@ == with_preference(old(found)@, key@, value@),
{
    let structure: bool = starts_with(key, "knowledge_destinations_v1:");
    if !structure && !legacy_key(key) {
        return ;
    }
    if structure {
        found.warn(
            text3(
                "Legacy Structure preference ",
                key,
                " is preserved as a suggestion and will not change the reviewed Daily convention",
            ),
        );
    }
    let mut details = empty_record();
    put(&mut details, "key", json_of_text(key));
    put(&mut details, "byte_size", json_of_number(bytes_in(value) as u64));
    found.add(
        CutoverItem {
            kind: "legacy_preference".to_owned(),
            source_identity: text2("app_preference:", key),
            source_digest: digest_of_text(value),
            action: (if structure {
                "preserve"
            } else {
                "remove_after_import"
            }).to_owned(),
            status: "ready".to_owned(),
            details: Json::Record(details),
        },
    );
}

fn inventory_preferences(preferences: &Vec<(String, String)>, found: &mut Inventory)
    ensures
        final(found)@ == with_preferences(old(found)@, preferences@),
{
    let ghost before = found@;
    let mut i: usize = 0;
    assert(preferences@.take(0) =~= Seq::<(String, String)>::empty());
    while i < preferences.len()
        invariant
            i <= preferences@.len(),
            found@ == with_preferences(before, preferences@.take(i as int)),
        decreases preferences@.len() - i,
    {
        proof {
            lemma_take_step(preferences@, i as int);
        }
        inventory_preference(preferences[i].0.as_str(), preferences[i].1.as_str(), found);
        i += 1;
    }
    assert(preferences@.take(i as int) =~= preferences@);
}

/// Whether the owner has written an event.
pub open spec fn is_manual(event: StoredLogEvent) -> bool {
    event.source@ == "manual/dashboard"@ || event.text_field("entry_kind"@) == Some("manual"@)
}

pub open spec fn event_source(event: StoredLogEvent) -> JsonView {
    JsonView::Record(
        Map::<Seq<char>, JsonView>::empty().insert("id"@, JsonView::Text(event.id@)).insert(
            "timestamp"@,
            JsonView::Text(record_moment(event.timestamp)),
        ).insert("source"@, JsonView::Text(event.source@)).insert(
            "message"@,
            JsonView::Text(event.message@),
        ).insert("metadata"@, JsonView::Record(fields_view(event.metadata@))),
    )
}

pub open spec fn event_item(event: StoredLogEvent) -> ItemView {
    ItemView {
        kind: "manual_event"@,
        source_identity: "log_event:"@ + event.id@,
        source_digest: json_sha(event_source(event)),
        action: "import"@,
        status: "ready"@,
        details: JsonView::Record(
            Map::<Seq<char>, JsonView>::empty().insert("event_id"@, JsonView::Text(event.id@)).insert(
                "timestamp"@,
                JsonView::Text(record_moment(event.timestamp)),
            ),
        ),
    }
}

pub open spec fn with_events(found: Findings, events: Seq<StoredLogEvent>) -> Findings
    decreases events.len(),
{
    if events.len() == 0 {
        found
    } else {
        let before = with_events(found, events.drop_last());
        if is_manual(events.last()) {
            before.with_item(event_item(events.last()))
        } else {
            before
        }
    }
}

fn manual(event: &StoredLogEvent) -> (r: bool)
    ensures
        r == is_manual(*event),
{
    str_eq(event.source.as_str(), "manual/dashboard") || match event.get_text("entry_kind") {
        Some(kind) => str_eq(kind, "manual"),
        None => false,
    }
}

fn inventory_manual_events(events: &Vec<StoredLogEvent>, found: &mut Inventory)
    ensures
        final(found)@ == with_events(old(found)@, events@),
{
    let ghost before = found@;
    let mut i: usize = 0;
    assert(events@.take(0) =~= Seq::<StoredLogEvent>::empty());
    while i < events.len()
        invariant
            i <= events@.len(),
            found@ == with_events(before, events@.take(i as int)),
        decreases events@.len() - i,
    {
        proof {
            lemma_take_step(events@, i as int);
        }
        let event = &events[i];
        if manual(event) {
            let time = moment_in_record(&event.timestamp);
            let mut source = empty_record();
            put(&mut source, "id", json_of_text(event.id.as_str()));
            put(&mut source, "timestamp", json_of_text(time.as_str()));
            put(&mut source, "source", json_of_text(event.source.as_str()));
            put(&mut source, "message", json_of_text(event.message.as_str()));
            put(&mut source, "metadata", Json::Record(copy_fields(&event.metadata)));
            let mut details = empty_record();
            put(&mut details, "event_id", json_of_text(event.id.as_str()));
            put(&mut details, "timestamp", json_of_text(time.as_str()));
            let source = Json::Record(source);
            found.add(
                CutoverItem {
                    kind: "manual_event".to_owned(),
                    source_identity: text2("log_event:", event.id.as_str()),
                    source_digest: json_digest(&source),
                    action: "import".to_owned(),
                    status: "ready".to_owned(),
                    details: Json::Record(details),
                },
            );
        }
        i += 1;
    }
    assert(events@.take(i as int) =~= events@);
}

/// Whether an entry is a proposal that is read.
pub open spec fn is_read(entry: LegacyEntry) -> bool {
    entry.is_plain_file && is_proposal_file(entry.name@) && entry.byte_size <= MAX_PROPOSAL_BYTES
}

pub open spec fn entry_item(entry: LegacyEntry) -> ItemView {
    ItemView {
        kind: "proposal_file"@,
        source_identity: "proposal_file:"@ + entry.name@,
        source_digest: sha256_hex(entry.contents@),
        action: "preserve"@,
        status: if entry.inspection is Ok {
            "ready"@
        } else {
            "unparseable"@
        },
        details: JsonView::Record(
            Map::<Seq<char>, JsonView>::empty().insert(
                "filename"@,
                JsonView::Text(entry.name@),
            ).insert("byte_size"@, number_view(entry.contents@.len())).insert(
                "inspection"@,
                match entry.inspection {
                    Ok(proposal) => proposal@,
                    Err(error) => JsonView::Record(
                        Map::<Seq<char>, JsonView>::empty().insert(
                            "error"@,
                            JsonView::Text(error@),
                        ),
                    ),
                },
            ),
        ),
    }
}

pub open spec fn with_legacy_entry(found: Findings, entry: LegacyEntry) -> Findings {
    if !entry.is_plain_file {
        found.with_warning("Unrecognized proposal-directory entry is preserved: "@ + entry.name@)
    } else if !is_proposal_file(entry.name@) {
        found.with_warning("Non-Markdown proposal-directory file is preserved: "@ + entry.name@)
    } else if entry.byte_size > MAX_PROPOSAL_BYTES {
        found.with_blocker("Legacy proposal exceeds 4 MiB and is preserved: "@ + entry.name@)
    } else if entry.inspection is Err {
        found.with_warning("Unparseable legacy proposal is preserved: "@ + entry.name@).with_item(
            entry_item(entry),
        )
    } else {
        found.with_item(entry_item(entry))
    }
}

pub open spec fn with_entries(found: Findings, entries: Seq<LegacyEntry>) -> Findings
    decreases entries.len(),
{
    if entries.len() == 0 {
        found
    } else {
        with_legacy_entry(with_entries(found, entries.drop_last()), entries.last())
    }
}

pub open spec fn with_folder(found: Findings, folder: LegacyFolder) -> Findings {
    match folder {
        LegacyFolder::Missing => found,
        LegacyFolder::Unsafe => found.with_blocker(
            "Legacy proposal location is not a safe directory"@,
        ),
        LegacyFolder::Entries(entries) => with_entries(found, entries@),
    }
}

/// Whether an entry is a proposal that is read.
pub fn reads_entry(entry: &LegacyEntry) -> (r: bool)
    ensures
        r == is_read(*entry),
{
    entry.is_plain_file && has_proposal_extension(entry.name.as_str()) && entry.byte_size
        <= MAX_PROPOSAL_BYTES
}

fn inventory_entry(entry: &LegacyEntry, found: &mut Inventory)
    ensures
        final(found)@ == with_legacy_entry(old(found)@, *entry),
{
    let name: &str = entry.name.as_str();
    if !entry.is_plain_file {
        found.warn(text2("Unrecognized proposal-directory entry is preserved: ", name));
        return ;
    }
    if !has_proposal_extension(name) {
        found.warn(text2("Non-Markdown proposal-directory file is preserved: ", name));
        return ;
    }
    if entry.byte_size > MAX_PROPOSAL_BYTES {
        found.block(text2("Legacy proposal exceeds 4 MiB and is preserved: ", name));
        return ;
    }
    let inspection = match &entry.inspection {
        Ok(proposal) => proposal.copy(),
        Err(error) => {
            found.warn(text2("Unparseable legacy proposal is preserved: ", name));
            let mut fields = empty_record();
            put(&mut fields, "error", json_of_text(error.as_str()));
            Json::Record(fields)
        },
    };
    let mut details = empty_record();
    put(&mut details, "filename", json_of_text(name));
    put(&mut details, "byte_size", json_of_number(entry.contents.len() as u64));
    put(&mut details, "inspection", inspection);
    found.add(
        CutoverItem {
            kind: "proposal_file".to_owned(),
            source_identity: text2("proposal_file:", name),
            source_digest: digest(entry.contents.as_slice()),
            action: "preserve".to_owned(),
            status: (if entry.inspection.is_ok() {
                "ready"
            } else {
                "unparseable"
            }).to_owned(),
            details: Json::Record(details),
        },
    );
}

fn inventory_proposals(folder: &LegacyFolder, found: &mut Inventory)
    ensures
        final(found)@ == with_folder(old(found)@, *folder),
{
    match folder {
        LegacyFolder::Missing => {},
        LegacyFolder::Unsafe => {
            found.block("Legacy proposal location is not a safe directory".to_owned());
        },
        LegacyFolder::Entries(entries) => {
            let ghost before = found@;
            let mut i: usize = 0;
            assert(entries@.take(0) =~= Seq::<LegacyEntry>::empty());
            while i < entries.len()
                invariant
                    i <= entries@.len(),
                    found@ == with_entries(before, entries@.take(i as int)),
                decreases entries@.len() - i,
            {
                proof {
                    lemma_take_step(entries@, i as int);
                }
                inventory_entry(&entries[i], found);
                i += 1;
            }
            assert(entries@.take(i as int) =~= entries@);
        },
    }
}

impl Ranked for CutoverItem {
    /// By kind, then by identity.
    open spec fn ranks_before(&self, other: &Self) -> bool {
        item_before(self@, other@)
    }

    fn is_before(&self, other: &Self) -> (r: bool) {
        str_less(self.kind.as_str(), other.kind.as_str()) || (str_eq(
            self.kind.as_str(),
            other.kind.as_str(),
        ) && str_less(self.source_identity.as_str(), other.source_identity.as_str()))
    }
}

pub open spec fn item_before(a: ItemView, b: ItemView) -> bool {
    precedes(a.kind, b.kind) || (a.kind == b.kind && precedes(a.source_identity, b.source_identity))
}

pub open spec fn item_order() -> spec_fn(ItemView, ItemView) -> bool {
    |a: ItemView, b: ItemView| item_before(a, b)
}

impl Ranked for String {
    open spec fn ranks_before(&self, other: &Self) -> bool {
        precedes(self@, other@)
    }

    fn is_before(&self, other: &Self) -> (r: bool) {
        str_less(self.as_str(), other.as_str())
    }
}

pub open spec fn text_order() -> spec_fn(Seq<char>, Seq<char>) -> bool {
    |a: Seq<char>, b: Seq<char>| precedes(a, b)
}

fn sort_texts(texts: &Vec<String>) -> (r: Vec<String>)
    ensures
        views(r@) == sorted_by(views(texts@), text_order()),
{
    broadcast use lemma_views_push;
    let mut items: Vec<&String> = Vec::new();
    let mut i: usize = 0;
    while i < texts.len()
        invariant
            i <= texts@.len(),
            items@.len() == i,
            forall|k: int| 0 <= k < i ==> *(#[trigger] items@[k]) == texts@[k],
        decreases texts@.len() - i,
    {
        items.push(&texts[i]);
        i += 1;
    }
    assert(views_of(items@) =~= views(texts@));
    let sorted = sort_ranked(&items);
    proof {
        lemma_ranked_views(items@, text_order());
    }
    let ghost order = views_of(sorted@);
    let mut r: Vec<String> = Vec::new();
    let mut k: usize = 0;
    assert(views(r@) =~= order.take(0));
    while k < sorted.len()
        invariant
            k <= sorted@.len(),
            order == views_of(sorted@),
            views(r@) == order.take(k as int),
        decreases sorted@.len() - k,
    {
        proof {
            lemma_take_step(order, k as int);
        }
        r.push(sorted[k].as_str().to_owned());
        k += 1;
    }
    assert(order.take(k as int) =~= order);
    r
}

fn sort_items(found: &Vec<CutoverItem>) -> (r: Vec<CutoverItem>)
    ensures
        item_views(r@) == sorted_by(item_views(found@), item_order()),
{
    let mut items: Vec<&CutoverItem> = Vec::new();
    let mut i: usize = 0;
    while i < found.len()
        invariant
            i <= found@.len(),
            items@.len() == i,
            forall|k: int| 0 <= k < i ==> *(#[trigger] items@[k]) == found@[k],
        decreases found@.len() - i,
    {
        items.push(&found[i]);
        i += 1;
    }
    assert(views_of(items@) =~= item_views(found@));
    let sorted = sort_ranked(&items);
    proof {
        lemma_ranked_views(items@, item_order());
    }
    let ghost order = views_of(sorted@);
    let mut r: Vec<CutoverItem> = Vec::new();
    let mut k: usize = 0;
    assert(item_views(r@) =~= order.take(0));
    while k < sorted.len()
        invariant
            k <= sorted@.len(),
            order == views_of(sorted@),
            item_views(r@) == order.take(k as int),
        decreases sorted@.len() - k,
    {
        proof {
            lemma_take_step(order, k as int);
        }
        let ghost before = item_views(r@);
        let item = sorted[k];
        let copy = CutoverItem {
            kind: item.kind.as_str().to_owned(),
            source_identity: item.source_identity.as_str().to_owned(),
            source_digest: item.source_digest.as_str().to_owned(),
            action: item.action.as_str().to_owned(),
            status: item.status.as_str().to_owned(),
            details: item.details.copy(),
        };
        r.push(copy);
        assert(item_views(r@) =~= before.push(copy@));
        k += 1;
    }
    assert(order.take(k as int) =~= order);
    r
}

/// The JSON text of an item, with its fields in the order that they have.
pub open spec fn item_json(item: ItemView) -> Seq<char> {
    "{\"kind\":"@ + quoted(item.kind) + ",\"source_identity\":"@ + quoted(item.source_identity)
        + ",\"source_digest\":"@ + quoted(item.source_digest) + ",\"action\":"@ + quoted(
        item.action,
    ) + ",\"status\":"@ + quoted(item.status) + ",\"details\":"@ + json_text(item.details) + "}"@
}

pub open spec fn item_jsons(items: Seq<ItemView>) -> Seq<Seq<char>> {
    items.map_values(|i: ItemView| item_json(i))
}

/// The JSON text of a report, with its fields in the order that they have.
pub open spec fn report_json(workspace_id: Seq<char>, root_binding: Seq<char>, sorted: Findings) -> Seq<
    char,
> {
    "{\"workspace_id\":"@ + quoted(workspace_id) + ",\"root_binding\":"@ + quoted(root_binding)
        + ",\"items\":["@ + joined(item_jsons(sorted.items), ","@) + "],\"blockers\":"@ + json_text(
        text_list(sorted.blockers),
    ) + ",\"warnings\":"@ + json_text(text_list(sorted.warnings)) + "}"@
}

fn item_json_text(item: &CutoverItem) -> (r: String)
    ensures
        r@ == item_json(item@),
{
    let mut r = "{\"kind\":".to_owned();
    r.push_str(quoted_text(item.kind.as_str()).as_str());
    r.push_str(",\"source_identity\":");
    r.push_str(quoted_text(item.source_identity.as_str()).as_str());
    r.push_str(",\"source_digest\":");
    r.push_str(quoted_text(item.source_digest.as_str()).as_str());
    r.push_str(",\"action\":");
    r.push_str(quoted_text(item.action.as_str()).as_str());
    r.push_str(",\"status\":");
    r.push_str(quoted_text(item.status.as_str()).as_str());
    r.push_str(",\"details\":");
    r.push_str(item.details.to_text().as_str());
    r.push_str("}");
    r
}

fn report_text(workspace_id: &str, root_binding: &str, sorted: &Inventory) -> (r: String)
    ensures
        r@ == report_json(workspace_id@, root_binding@, sorted@),
{
    broadcast use lemma_views_push;
    let ghost all = item_jsons(item_views(sorted.items@));
    let mut texts: Vec<String> = Vec::new();
    let mut i: usize = 0;
    assert(views(texts@) =~= all.take(0));
    while i < sorted.items.len()
        invariant
            i <= sorted.items@.len(),
            all == item_jsons(item_views(sorted.items@)),
            views(texts@) == all.take(i as int),
        decreases sorted.items@.len() - i,
    {
        proof {
            lemma_take_step(all, i as int);
        }
        texts.push(item_json_text(&sorted.items[i]));
        i += 1;
    }
    assert(all.take(i as int) =~= all);
    let mut r = "{\"workspace_id\":".to_owned();
    r.push_str(quoted_text(workspace_id).as_str());
    r.push_str(",\"root_binding\":");
    r.push_str(quoted_text(root_binding).as_str());
    r.push_str(",\"items\":[");
    r.push_str(join(&texts, ",").as_str());
    r.push_str("],\"blockers\":");
    r.push_str(json_of_texts(&sorted.blockers).to_text().as_str());
    r.push_str(",\"warnings\":");
    r.push_str(json_of_texts(&sorted.warnings).to_text().as_str());
    r.push_str("}");
    r
}

/// All that was found.
pub open spec fn all_findings(inputs: CutoverInputs) -> Findings {
    with_folder(
        with_events(
            with_preferences(
                with_ignored(
                    with_rules(
                        Findings::nothing(),
                        inputs.rules@,
                        inputs.catalog,
                        views(inputs.existing_paths@),
                    ),
                    inputs.ignored@,
                ),
                inputs.preferences@,
            ),
            inputs.events@,
        ),
        inputs.folder,
    )
}

pub open spec fn sorted_findings(found: Findings) -> Findings {
    Findings {
        items: sorted_by(found.items, item_order()),
        blockers: sorted_by(found.blockers, text_order()),
        warnings: sorted_by(found.warnings, text_order()),
    }
}

/// The report on what was found. It is ready where nothing stands in its way.
pub fn inventory_cutover(inputs: &CutoverInputs) -> (r: Result<CutoverReport, String>)
    ensures
        r is Ok == (inputs.saved_binding@ == inputs.mounted_binding@),
        r is Err ==> r->Err_0@ == "active workspace binding changed"@,
        r is Ok ==> ({
            let sorted = sorted_findings(all_findings(*inputs));
            let digest = text_digest(
                report_json(inputs.workspace_id@, inputs.mounted_binding@, sorted),
            );
            let report = r->Ok_0;
            &&& report.operation_id@ == "refocus_"@ + digest.take(24)
            &&& report.report_digest@ == digest
            &&& report.workspace_id@ == inputs.workspace_id@
            &&& report.root_binding@ == inputs.mounted_binding@
            &&& report.ready == (sorted.blockers.len() == 0)
            &&& item_views(report.items@) == sorted.items
            &&& views(report.blockers@) == sorted.blockers
            &&& views(report.warnings@) == sorted.warnings
        }),
{
    if !str_eq(inputs.saved_binding.as_str(), inputs.mounted_binding.as_str()) {
        return Err("active workspace binding changed".to_owned());
    }
    let mut found = Inventory { items: Vec::new(), blockers: Vec::new(), warnings: Vec::new() };
    proof {
        assert(item_views(found.items@) =~= Seq::<ItemView>::empty());
        assert(views(found.blockers@) =~= Seq::<Seq<char>>::empty());
        assert(found@ == Findings::nothing());
    }
    inventory_rules(&inputs.rules, &inputs.catalog, &inputs.existing_paths, &mut found);
    inventory_ignores(&inputs.ignored, &mut found);
    inventory_preferences(&inputs.preferences, &mut found);
    inventory_manual_events(&inputs.events, &mut found);
    inventory_proposals(&inputs.folder, &mut found);
    let sorted = Inventory {
        items: sort_items(&found.items),
        blockers: sort_texts(&found.blockers),
        warnings: sort_texts(&found.warnings),
    };
    assert(sorted@ == sorted_findings(all_findings(*inputs)));
    let binding: &str = inputs.mounted_binding.as_str();
    let text = report_text(inputs.workspace_id.as_str(), binding, &sorted);
    let report_digest = digest_of_text(text.as_str());
    let digits = chars_of(report_digest.as_str());
    let head = string_of(&digits, 0, 24);
    assert(head@ =~= report_digest@.take(24));
    let ready: bool = sorted.blockers.len() == 0;
    assert(views(sorted.blockers@).len() == sorted.blockers@.len());
    Ok(
        CutoverReport {
            operation_id: text2("refocus_", head.as_str()),
            report_digest,
            workspace_id: inputs.workspace_id.as_str().to_owned(),
            root_binding: binding.to_owned(),
            ready,
            items: sorted.items,
            blockers: sorted.blockers,
            warnings: sorted.warnings,
        },
    )
}

} // verus!
