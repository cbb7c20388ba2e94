//! What an earlier setup has left.
use log_inbox::digest::digest;
use log_inbox::json::{parse_json, Json};
use log_inbox::migration::{
    inventory_cutover, reads_entry, CutoverInputs, IgnoredLinkIdentity, LegacyEntry, LegacyFolder,
};
use log_inbox::models::{LinkSelector, Moment, StoredLogEvent};
use log_inbox::vault::{VaultCatalog, VaultLinkRule, VaultNote};

fn rule(id: &str, operator: &str, target: &str) -> VaultLinkRule {
    VaultLinkRule {
        id: id.to_owned(),
        selectors: vec![LinkSelector {
            field: "repo".to_owned(),
            operator: operator.to_owned(),
            value: "product".to_owned(),
        }],
        target_note_id: target.to_owned(),
        enabled: true,
        updated_at: Moment { seconds: 0, nanos: 0 },
    }
}

fn entry(name: &str, contents: &[u8], inspection: Result<Json, String>) -> LegacyEntry {
    LegacyEntry {
        name: name.to_owned(),
        is_plain_file: true,
        byte_size: contents.len() as u64,
        contents: contents.to_vec(),
        inspection,
    }
}

fn inputs() -> CutoverInputs {
    CutoverInputs {
        workspace_id: "workspace_1".to_owned(),
        saved_binding: "root".to_owned(),
        mounted_binding: "root".to_owned(),
        rules: vec![rule("rule_1", "exact", "product")],
        catalog: Some(VaultCatalog {
            configured: true,
            root: Some("Legacy".to_owned()),
            revision: "legacy-revision".to_owned(),
            notes: vec![VaultNote {
                id: "product".to_owned(),
                title: "Product".to_owned(),
                wikilink: "[[Product]]".to_owned(),
                path: "Products/Product.md".to_owned(),
                group: "Products".to_owned(),
                aliases: Vec::new(),
                tags: Vec::new(),
                references: Vec::new(),
            }],
        }),
        existing_paths: vec!["Products/Product.md".to_owned()],
        ignored: vec![IgnoredLinkIdentity {
            id: "ignored_1".to_owned(),
            field: "module".to_owned(),
            value: " Noise ".to_owned(),
        }],
        preferences: vec![
            ("agent_name".to_owned(), "legacy-agent".to_owned()),
            ("browser_vault_catalog".to_owned(), "{}".to_owned()),
            ("knowledge_destinations_v1:x".to_owned(), "y".to_owned()),
            ("theme".to_owned(), "dark".to_owned()),
        ],
        events: vec![StoredLogEvent {
            id: "evt_1".to_owned(),
            received_at: Moment { seconds: 1_788_948_000, nanos: 0 },
            timestamp: Moment { seconds: 1_788_948_000, nanos: 0 },
            source: "manual/dashboard".to_owned(),
            level: "info".to_owned(),
            message: "Mine".to_owned(),
            metadata: Vec::new(),
            fingerprint: None,
            truncated: false,
            reviewed: false,
        }],
        folder: LegacyFolder::Entries(vec![
            entry("valid.md", b"---\n", Ok(parse_json("{\"proposal_id\":\"proposal_test\"}").unwrap())),
            entry("broken.md", &[0xff, 0xfe], Err("not UTF-8".to_owned())),
        ]),
    }
}

#[test]
fn dry_run_inventories_each_legacy_source_without_mutating_it() {
    let first = inventory_cutover(&inputs()).unwrap();
    let second = inventory_cutover(&inputs()).unwrap();
    assert!(first.ready);
    assert_eq!(first.report_digest, second.report_digest);
    assert_eq!(first.items.iter().filter(|item| item.kind == "proposal_file").count(), 2);
    assert!(first.items.iter().any(|item| {
        item.kind == "context_mapping"
            && item.status == "ready"
            && item.details.get_text("target_path") == Some("Products/Product.md")
    }));
    assert!(first.warnings.iter().any(|warning| warning.contains("Unparseable")));
}

#[test]
fn the_report_is_in_order_and_its_digest_is_that_of_its_json() {
    let report = inventory_cutover(&inputs()).unwrap();
    let listed: Vec<(&str, &str)> = report
        .items
        .iter()
        .map(|item| (item.source_identity.as_str(), item.action.as_str()))
        .collect();
    assert_eq!(
        listed,
        [
            ("vault_link_rule:rule_1", "import"),
            ("ignored_link_identity:ignored_1", "import"),
            ("app_preference:agent_name", "remove_after_import"),
            ("app_preference:browser_vault_catalog", "remove_after_import"),
            ("app_preference:knowledge_destinations_v1:x", "preserve"),
            ("log_event:evt_1", "import"),
            ("proposal_file:broken.md", "preserve"),
            ("proposal_file:valid.md", "preserve"),
        ]
    );
    assert_eq!(
        report.items[1].details.to_text(),
        "{\"field\":\"module\",\"normalized_value\":\"noise\",\"value\":\" Noise \"}"
    );
    assert_eq!(report.items[2].source_digest, digest(b"legacy-agent"));
    assert_eq!(
        report.items[5].source_digest,
        digest(
            b"{\"id\":\"evt_1\",\"message\":\"Mine\",\"metadata\":{},\"source\":\"manual/dashboard\",\"timestamp\":\"2026-09-09T10:00:00Z\"}"
        )
    );
    assert_eq!(report.operation_id, format!("refocus_{}", &report.report_digest[..24]));
    let mut small = inputs();
    small.rules = Vec::new();
    small.ignored = Vec::new();
    small.events = Vec::new();
    small.folder = LegacyFolder::Unsafe;
    small.preferences = vec![("agent_name".to_owned(), "x".to_owned())];
    let report = inventory_cutover(&small).unwrap();
    let json = format!(
        "{{\"workspace_id\":\"workspace_1\",\"root_binding\":\"root\",\"items\":[{{\"kind\":\"legacy_preference\",\"source_identity\":\"app_preference:agent_name\",\"source_digest\":\"{}\",\"action\":\"remove_after_import\",\"status\":\"ready\",\"details\":{{\"byte_size\":1,\"key\":\"agent_name\"}}}}],\"blockers\":[\"Legacy proposal location is not a safe directory\"],\"warnings\":[]}}",
        digest(b"x")
    );
    assert_eq!(report.report_digest, digest(json.as_bytes()));
    assert!(!report.ready);
}

#[test]
fn open_rules_and_large_proposals_stand_in_the_way() {
    let blockers = |change: fn(&mut CutoverInputs)| {
        let mut inputs = inputs();
        change(&mut inputs);
        inventory_cutover(&inputs).unwrap().blockers
    };
    let open = ["Legacy link rule rule_1 needs a reviewed canonical note"];
    assert_eq!(blockers(|i| i.catalog = None), open);
    assert_eq!(blockers(|i| i.existing_paths.clear()), open);
    assert_eq!(blockers(|i| i.rules = vec![rule("rule_1", "prefix", "product")]), open);
    assert_eq!(
        blockers(|i| {
            let mut big = entry("big.md", b"", Err(String::new()));
            big.byte_size = 4_194_305;
            assert!(!reads_entry(&big));
            i.folder = LegacyFolder::Entries(vec![big]);
        }),
        ["Legacy proposal exceeds 4 MiB and is preserved: big.md"]
    );
    let mut moved = inputs();
    moved.mounted_binding = "other".to_owned();
    assert_eq!(inventory_cutover(&moved).unwrap_err(), "active workspace binding changed");
}

#[test]
fn other_entries_of_the_folder_are_kept_with_a_warning() {
    let mut odd = inputs();
    let mut link = entry("link.md", b"", Err(String::new()));
    link.is_plain_file = false;
    odd.folder = LegacyFolder::Entries(vec![entry("note.txt", b"", Err(String::new())), link]);
    odd.preferences = Vec::new();
    assert_eq!(
        inventory_cutover(&odd).unwrap().warnings,
        [
            "Non-Markdown proposal-directory file is preserved: note.txt",
            "Unrecognized proposal-directory entry is preserved: link.md",
        ]
    );
    odd.folder = LegacyFolder::Missing;
    assert_eq!(inventory_cutover(&odd).unwrap().warnings, Vec::<String>::new());
}
