//! Notes of a vault and the rules that link events to them.
use log_inbox::json::{parse_json, Json};
use log_inbox::models::{LinkSelector, Moment, StoredLogEvent};
use log_inbox::vault::{reference_matches, rule_matches, validate_rule, VaultCatalog, VaultLinkRule};
use log_inbox::vault_catalog::{
    frontmatter_yaml, has_markdown_extension, link_targets, stable_hash, wiki_link_targets,
    VaultContextProvider, VaultFile, VaultFiles,
};
use log_inbox::vault_links::{context_revision, ProductMapping, VaultContextConfig};

fn moment() -> Moment {
    // 2026-09-09T10:00:00Z
    Moment { seconds: 1_788_948_000, nanos: 0 }
}

fn metadata(text: &str) -> Vec<(String, Json)> {
    match parse_json(text).unwrap() {
        Json::Record(fields) => fields,
        other => panic!("{other:?}"),
    }
}

fn event(text: &str) -> StoredLogEvent {
    StoredLogEvent {
        id: "evt_1".to_owned(),
        received_at: moment(),
        timestamp: moment(),
        source: "agent/host".to_owned(),
        level: "info".to_owned(),
        message: "activity".to_owned(),
        metadata: metadata(text),
        fingerprint: None,
        truncated: false,
        reviewed: false,
    }
}

fn selector(field: &str, operator: &str, value: &str) -> LinkSelector {
    LinkSelector {
        field: field.to_owned(),
        operator: operator.to_owned(),
        value: value.to_owned(),
    }
}

fn rule(id: &str, selectors: Vec<LinkSelector>, target: &str) -> VaultLinkRule {
    VaultLinkRule {
        id: id.to_owned(),
        selectors,
        target_note_id: target.to_owned(),
        enabled: true,
        updated_at: moment(),
    }
}

fn provider() -> VaultContextProvider {
    VaultContextProvider {
        config_path: None,
        product_index_path: None,
        vault_dir: Some("/vault".to_owned()),
        excluded_prefixes: Vec::new(),
    }
}

fn file(path: &str, aliases: &[&str], tags: &[&str], extra: &str) -> VaultFile {
    VaultFile {
        path: path.to_owned(),
        aliases: aliases.iter().map(|text| text.to_string()).collect(),
        tags: tags.iter().map(|text| text.to_string()).collect(),
        extra: metadata(extra),
    }
}

fn files(notes: Vec<VaultFile>) -> VaultFiles {
    VaultFiles { notes, product_index: None, product_index_folder: None }
}

fn candidates(files: &VaultFiles, rules: &[VaultLinkRule], events: &[StoredLogEvent]) -> String {
    provider()
        .for_events(files, &VaultContextConfig::default(), rules, events, &moment())
        .unwrap()
        .get("candidate_notes")
        .unwrap()
        .to_text()
}

#[test]
fn reads_aliases_and_array_metadata_from_an_arbitrary_vault() {
    let contents = "---\naliases:\n  - portal-api\ntags:\n  - product/portal\n---\n# Customer Portal\n";
    assert_eq!(
        frontmatter_yaml(contents).unwrap(),
        "aliases:\n  - portal-api\ntags:\n  - product/portal"
    );
    let notes = files(vec![file(
        "Knowledge/Products/Customer Portal.md",
        &["portal-api"],
        &["product/portal"],
        "{}",
    )]);
    let events = vec![event("{\"product\":[\"portal-api\",\"companion\"]}")];
    assert_eq!(candidates(&notes, &[], &events), "[\"[[Customer Portal]]\"]");
}

#[test]
fn applies_generic_conditional_rules() {
    let rule = rule(
        "rule_1",
        vec![
            selector("repo", "exact", "portal-api"),
            selector("branch", "prefix", "feature/navigation"),
        ],
        "Record Navigation",
    );
    let event = event("{\"repo\":\"portal-api\",\"branch\":\"feature/navigation-v2\"}");
    assert!(rule_matches(&rule, &[event]));
}

#[test]
fn discovers_wiki_links_without_assuming_folder_names() {
    assert_eq!(
        wiki_link_targets("- [[Customer Portal]]\n- [[Billing#Ops|Billing]]"),
        ["Billing", "Customer Portal"]
    );
}

#[test]
fn matches_a_reference_inside_composite_metadata() {
    assert!(reference_matches("12345", "12345; follow-up task 67890"));
    assert!(!reference_matches("12345", "follow-up task 67890"));
}

#[test]
fn specific_rules_do_not_hide_other_workstreams() {
    let notes = files(vec![
        file("Notes/Customer Portal.md", &["portal-api"], &[], "{}"),
        file("Notes/Record Navigation.md", &[], &[], "{}"),
    ]);
    let rule = rule(
        "rule_navigation",
        vec![selector("repo", "exact", "navigation-api")],
        "Notes/Record Navigation",
    );
    let events =
        vec![event("{\"repo\":\"navigation-api\"}"), event("{\"repo\":\"portal-api\"}")];
    assert_eq!(
        candidates(&notes, &[rule], &events),
        "[\"[[Customer Portal]]\",\"[[Record Navigation]]\"]"
    );
}

#[test]
fn the_rule_with_the_most_selectors_decides() {
    let notes = files(vec![file("A.md", &[], &[], "{}"), file("B.md", &[], &[], "{}")]);
    let broad = rule("rule_a", vec![selector("repo", "exact", "one")], "A");
    let narrow = rule(
        "rule_b",
        vec![selector("repo", "exact", "one"), selector("branch", "prefix", "main")],
        "B",
    );
    let mut off = rule(
        "rule_c",
        vec![
            selector("repo", "exact", "one"),
            selector("branch", "prefix", "main"),
            selector("source", "prefix", "agent"),
        ],
        "A",
    );
    off.enabled = false;
    let events = vec![event("{\"repo\":\"one\",\"branch\":\"main-2\"}")];
    assert_eq!(candidates(&notes, &[broad, narrow, off], &events), "[\"[[B]]\"]");
}

#[test]
fn notes_that_share_a_title_are_linked_by_their_path() {
    let notes = files(vec![
        file("A/Portal.md", &[], &[], "{\"ado\":[\"123\"],\"pr\":7}"),
        file("B/Portal.md", &[], &[], "{}"),
        file("Other.md", &[], &[], "{}"),
    ]);
    let catalog = provider().catalog(&notes);
    let links: Vec<&str> = catalog.notes.iter().map(|note| note.wikilink.as_str()).collect();
    assert_eq!(links, ["[[A/Portal]]", "[[B/Portal]]", "[[Other]]"]);
    assert_eq!(catalog.notes[0].group, "A");
    assert_eq!(
        catalog.notes[0].references,
        vec![
            ("ado".to_owned(), vec!["123".to_owned()]),
            ("pr".to_owned(), vec!["7".to_owned()]),
        ]
    );
    let json = "[{\"id\":\"A/Portal\",\"title\":\"Portal\",\"wikilink\":\"[[A/Portal]]\",\"path\":\"A/Portal.md\",\"group\":\"A\",\"aliases\":[],\"tags\":[],\"references\":{\"ado\":[\"123\"],\"pr\":[\"7\"]}},{\"id\":\"B/Portal\",\"title\":\"Portal\",\"wikilink\":\"[[B/Portal]]\",\"path\":\"B/Portal.md\",\"group\":\"B\",\"aliases\":[],\"tags\":[],\"references\":{}},{\"id\":\"Other\",\"title\":\"Other\",\"wikilink\":\"[[Other]]\",\"path\":\"Other.md\",\"group\":\"Other.md\",\"aliases\":[],\"tags\":[],\"references\":{}}]";
    assert_eq!(catalog.revision, stable_hash(json.as_bytes()));
}

#[test]
fn without_a_vault_the_product_index_names_the_notes() {
    let mut without = provider();
    without.vault_dir = None;
    let mut index = files(Vec::new());
    assert_eq!(without.catalog(&index).revision, "unconfigured");
    assert!(!without.catalog(&index).configured);
    index.product_index = Some("[[Portal]] and [[ Billing |x]]".to_owned());
    index.product_index_folder = Some("/index".to_owned());
    let catalog = without.catalog(&index);
    assert!(catalog.configured);
    assert_eq!(catalog.root, Some("/index".to_owned()));
    assert_eq!(catalog.notes[0].wikilink, "[[Billing]]");
    assert_eq!(catalog.notes[1].path, "Portal.md");
}

#[test]
fn the_daily_note_is_the_one_of_the_latest_event() {
    let mut late = event("{\"canonical_note\":\"Portal\",\"app\":\"shop\"}");
    late.timestamp = Moment { seconds: 1_788_948_000 + 86_400, nanos: 0 };
    let notes = files(vec![file("Portal.md", &[], &[], "{}"), file("Shop.md", &[], &[], "{}")]);
    let config = VaultContextConfig {
        daily_note_format: "Daily log %b %-d".to_owned(),
        products: vec![ProductMapping {
            note: "Portal".to_owned(),
            aliases: vec!["SHOP".to_owned()],
        }],
    };
    let context =
        provider().for_events(&notes, &config, &[], &[late, event("{}")], &moment()).unwrap();
    assert_eq!(context.get_text("daily_note"), Some("Daily log Sep 10"));
    assert_eq!(
        context.get("candidate_notes").unwrap().to_text(),
        "[\"[[Portal]]\",\"[[Shop]]\"]"
    );
    let bad = VaultContextConfig { daily_note_format: "%Q!".to_owned(), products: Vec::new() };
    assert_eq!(
        provider().for_events(&notes, &bad, &[], &[], &moment()).unwrap_err(),
        "invalid daily note format %Q!"
    );
}

#[test]
fn a_revision_hashes_the_catalog_and_the_enabled_rules() {
    assert_eq!(stable_hash(b""), "cbf29ce484222325");
    assert_eq!(stable_hash(b"a"), "af63dc4c8601ec8c");
    let mut off = rule("off", Vec::new(), "A");
    off.enabled = false;
    assert_eq!(
        context_revision("rev", &[rule("on", Vec::new(), "A"), off]),
        stable_hash(b"revon2026-09-09T10:00:00+00:00")
    );
}

#[test]
fn identities_are_counted_and_resolved() {
    let notes = files(vec![
        file("Portal.md", &["portal-api"], &[], "{}"),
        file("One.md", &["shared"], &[], "{}"),
        file("Two.md", &["shared"], &[], "{}"),
    ]);
    let events = vec![
        event("{\"repo\":\"portal-api\",\"modules\":[\"shared\",\" \"]}"),
        event("{\"repo\":\"portal-api\",\"app\":\"unknown\"}"),
    ];
    let rules = [rule("rule", vec![selector("app", "prefix", "unk")], "Two")];
    let seen = provider().observed(&notes, &rules, &events);
    let shown: Vec<(&str, &str, usize, &str)> = seen
        .iter()
        .map(|one| (one.field.as_str(), one.value.as_str(), one.event_count, one.status.as_str()))
        .collect();
    assert_eq!(
        shown,
        [
            ("repo", "portal-api", 2, "resolved"),
            ("source", "agent/host", 2, "unresolved"),
            ("app", "unknown", 1, "resolved"),
            ("module", "shared", 1, "ambiguous"),
        ]
    );
    assert_eq!(seen[0].resolved_notes, ["[[Portal]]"]);
    assert_eq!(seen[0].suggestions[0].note_id, "Portal");
    assert_eq!(seen[0].suggestions[0].reason, "Exact title or alias");
    assert_eq!(seen[2].resolved_notes, ["[[Two]]"]);
    assert_eq!(seen[3].sample_message, "activity");
}

#[test]
fn a_rule_must_name_a_note_and_supported_selectors() {
    let catalog = VaultCatalog {
        configured: true,
        root: None,
        revision: String::new(),
        notes: provider().catalog(&files(vec![file("A.md", &[], &[], "{}")])).notes,
    };
    let ok = rule("r", vec![selector("repo", "exact", "x")], "A");
    assert!(validate_rule(&ok, &catalog).is_ok());
    let cases = [
        (rule("r", Vec::new(), "A"), "a mapping requires 1 to 8 selectors"),
        (
            rule("r", vec![selector("repo", "exact", "x")], "B"),
            "mapping target is not present in the vault catalog",
        ),
        (rule("r", vec![selector("host", "exact", "x")], "A"), "unsupported selector field host"),
        (
            rule("r", vec![selector("repo", "contains", "x")], "A"),
            "selector operator must be exact or prefix",
        ),
        (
            rule("r", vec![selector("repo", "exact", " ")], "A"),
            "selector value must contain 1 to 300 bytes",
        ),
    ];
    for (rule, error) in cases {
        assert_eq!(validate_rule(&rule, &catalog).unwrap_err(), error);
    }
}

#[test]
fn excluded_folders_and_hidden_files_are_left_out() {
    let provider = VaultContextProvider::from_values(None, Some(""), Some("/vault"), None);
    assert_eq!(provider.excluded_prefixes, ["00 Inbox", "01 Work Log", ".obsidian"]);
    assert_eq!(provider.product_index_path, None);
    assert!(provider.leaves_out("00 Inbox/a.md", "a.md"));
    assert!(!provider.leaves_out("00 Inbox2/a.md", "a.md"));
    assert!(provider.leaves_out("x/.hidden.md", ".hidden.md"));
    let other = VaultContextProvider::from_values(None, None, None, Some(" a/b/ ,, c "));
    assert_eq!(other.excluded_prefixes, ["a/b/", "c"]);
    assert!(other.leaves_out("a/b/x.md", "x.md"));
    assert!(!other.leaves_out("a/x.md", "x.md"));
    assert!(has_markdown_extension("a.MD"));
    assert!(!has_markdown_extension(".md"));
    assert!(!has_markdown_extension("a.mdx"));
}

#[test]
fn targets_of_links_are_cut_at_bars_and_marks() {
    let groups = vec![Some(" B#x|y ".to_owned()), None, Some("|".to_owned()), Some("A".to_owned())];
    assert_eq!(link_targets(&groups), ["A", "B"]);
}

#[test]
fn the_catalog_has_its_notes_in_the_order_of_their_paths() {
    let found = files(vec![
        file("b.md", &[], &[], "{}"),
        file("a-b/x.md", &[], &[], "{}"),
        file("a/z.md", &[], &[], "{}"),
        file("a/b/y.md", &[], &[], "{}"),
    ]);
    let catalog = provider().catalog(&found);
    let paths: Vec<&str> = catalog.notes.iter().map(|note| note.path.as_str()).collect();
    assert_eq!(paths, ["a/b/y.md", "a/z.md", "a-b/x.md", "b.md"]);
}
