//! Reading notes and resolving events to them.
use log_inbox::catalog::CatalogBuilder;
use log_inbox::curation::{curate_unresolved_identities, find_note_option, search_note_options};
use log_inbox::digest::digest;
use log_inbox::json::{parse_json, Json};
use log_inbox::knowledge::KnowledgeResolution;
use log_inbox::models::{
    ContextMapping, IgnoredContextIdentity, KnowledgeCollection, LinkSelector, Moment,
    StoredLogEvent,
};
use log_inbox::notes::{parse_knowledge_note, WorkspaceMarkdownDocument};
use log_inbox::resolution::ParsedKnowledgeNote;
use log_inbox::snapshot::{context_snapshot_digest, resolve_knowledge, CatalogReport};
use std::collections::BTreeSet;

fn document(path: &str, content: &str) -> WorkspaceMarkdownDocument {
    WorkspaceMarkdownDocument {
        path: path.to_owned(),
        content: content.to_owned(),
        content_digest: digest(content.as_bytes()),
    }
}

struct Workspace {
    catalog: CatalogReport,
    existing: Vec<String>,
}

fn workspace(notes: &[(&str, &str)]) -> Workspace {
    let mut builder = CatalogBuilder::new();
    let mut existing = Vec::new();
    for (path, content) in notes {
        existing.push(path.to_string());
        if builder.offer("collection_products", path, content.len() as u64).unwrap() {
            let read = document(path, content);
            builder.accept("collection_products", Some(&read));
        }
    }
    Workspace { catalog: builder.finish(), existing }
}

fn collection(root_binding: &str) -> KnowledgeCollection {
    KnowledgeCollection {
        id: "collection_products".to_owned(),
        workspace_id: root_binding.to_owned(),
        label: "Products".to_owned(),
        purpose: "Product facts".to_owned(),
        roots: vec!["Products".to_owned()],
        exclusions: Vec::new(),
        enabled: true,
        revision_digest: "a".repeat(64),
    }
}

fn mapping(field: &str, value: &str, path: &str) -> ContextMapping {
    mapping_with_operator(field, "exact", value, path)
}

fn mapping_with_operator(field: &str, operator: &str, value: &str, path: &str) -> ContextMapping {
    ContextMapping {
        id: format!("mapping_{field}_{value}"),
        workspace_id: "workspace".to_owned(),
        selectors: vec![LinkSelector {
            field: field.to_owned(),
            operator: operator.to_owned(),
            value: value.to_owned(),
        }],
        canonical_note_path: path.to_owned(),
        enabled: true,
        source_identity: None,
        source_digest: None,
    }
}

fn fields(items: &[(&str, &str)]) -> Vec<(String, Json)> {
    items.iter().map(|(key, value)| (key.to_string(), Json::Text(value.to_string()))).collect()
}

fn event(id: &str, repo: &str, work_item: &str) -> StoredLogEvent {
    StoredLogEvent {
        id: id.to_owned(),
        received_at: Moment { seconds: 1_800_000_000, nanos: 0 },
        timestamp: Moment { seconds: 1_800_000_000, nanos: 0 },
        source: "codex/test".to_owned(),
        level: "info".to_owned(),
        message: "Implemented a change".to_owned(),
        metadata: fields(&[("repo", repo), ("work_item", work_item)]),
        fingerprint: None,
        truncated: false,
        reviewed: false,
    }
}

fn resolve(
    workspace: &Workspace,
    mappings: Vec<ContextMapping>,
    events: Vec<StoredLogEvent>,
) -> KnowledgeResolution {
    resolve_knowledge(
        "workspace",
        &vec![collection("workspace")],
        &mappings,
        &events,
        &workspace.catalog,
        &workspace.existing,
    )
    .unwrap()
    .unwrap()
}

fn text(value: Option<&Json>) -> String {
    value.unwrap().to_text()
}

fn references(note: &ParsedKnowledgeNote, field: &str) -> Vec<String> {
    note.references.iter().find(|(key, _)| key == field).unwrap().1.clone()
}

#[test]
fn parses_bom_crlf_frontmatter_aliases_references_and_heading() {
    let note = parse_knowledge_note(&document(
        "Products/Alpha.md",
        "\u{feff}---\r\ntitle: Alpha Product\r\naliases: [Alpha, alpha, A] \r\nrepo: alpha-api\r\nado: [57950, 'ADO 57951']\r\n---\r\n# Ignored heading\r\nUseful background.\r\n",
    ))
    .expect("note parses");
    assert_eq!(note.title, "Alpha Product");
    assert_eq!(note.aliases, ["Alpha", "A"]);
    assert_eq!(references(&note, "repo"), ["alpha-api"]);
    assert_eq!(references(&note, "work_item"), ["57950", "ADO 57951"]);
    assert_eq!(note.usable_content, "# Ignored heading\nUseful background.");
}

#[test]
fn falls_back_from_heading_to_filename_and_ignores_fenced_headings() {
    let heading = parse_knowledge_note(&document(
        "Engineering/System.md",
        "```md\n# Example\n```\n# Actual system\nBody",
    ))
    .expect("heading parses");
    assert_eq!(heading.title, "Actual system");

    let filename = parse_knowledge_note(&document("Engineering/System.md", "Body only"))
        .expect("filename parses");
    assert_eq!(filename.title, "System");
}

#[test]
fn removes_generated_daily_content_from_usable_context() {
    let note = parse_knowledge_note(&document(
        "Product.md",
        "# Product\n\nOwned context.\n\n<!-- log-inbox:daily:day1:begin -->\nGenerated claim.\n<!-- log-inbox:daily:day1:end -->\n",
    ))
    .expect("note parses");
    assert!(note.usable_content.contains("Owned context."));
    assert!(!note.usable_content.contains("Generated claim."));
}

#[test]
fn rejects_malformed_frontmatter_and_marker_structure() {
    assert!(parse_knowledge_note(&document("Bad.md", "---\naliases: [broken\nBody")).is_err());
    assert!(parse_knowledge_note(&document(
        "Bad.md",
        "<!-- log-inbox:daily:a:begin -->\nGenerated"
    ))
    .is_err());
}

#[test]
fn saved_exact_mapping_precedes_automatic_title_matching() {
    let workspace =
        workspace(&[("Products/Alpha.md", "# Alpha\n"), ("Products/Beta.md", "# Beta\n")]);
    let resolution = resolve(
        &workspace,
        vec![mapping("repo", "Alpha", "Products/Beta.md")],
        vec![event("evt_1", "Alpha", "10")],
    );
    assert_eq!(
        text(resolution.vault_context.get("candidate_notes")),
        "[\"[[Products/Beta]]\"]"
    );
    assert_eq!(
        resolution.snapshot_payload.get_list("resolved_groups").unwrap()[0].get_text("reason"),
        Some("saved_mapping")
    );
}

#[test]
fn aliases_raw_groups_that_resolve_to_one_canonical_note() {
    let workspace = workspace(&[("Products/Alpha.md", "# Alpha\n")]);
    let resolution = resolve(
        &workspace,
        vec![
            mapping("work_item", "10", "Products/Alpha.md"),
            mapping("work_item", "11", "Products/Alpha.md"),
        ],
        vec![event("evt_1", "repo-one", "10"), event("evt_2", "repo-two", "11")],
    );
    let mut aliases = BTreeSet::new();
    match resolution.vault_context.get("group_aliases").unwrap() {
        Json::Record(items) => {
            for (_, value) in items {
                aliases.extend(value.as_text());
            }
        }
        other => panic!("{other:?}"),
    }
    assert_eq!(aliases.len(), 1);
    assert_eq!(
        text(resolution.vault_context.get("candidate_notes")),
        "[\"[[Products/Alpha]]\"]"
    );
}

#[test]
fn ambiguous_exact_aliases_never_authorize_a_link() {
    let workspace = workspace(&[
        ("Products/One.md", "---\naliases: [shared]\n---\n# One\n"),
        ("Products/Two.md", "---\naliases: [Shared]\n---\n# Two\n"),
    ]);
    let resolution = resolve(&workspace, Vec::new(), vec![event("evt_1", "shared", "10")]);
    assert_eq!(text(resolution.vault_context.get("candidate_notes")), "[]");
    assert_eq!(
        resolution
            .snapshot_payload
            .get("diagnostics")
            .unwrap()
            .get_count("ambiguous_group_count"),
        1
    );
}

#[test]
fn legacy_contains_mapping_remains_explicit_and_deterministic() {
    let workspace = workspace(&[("Products/Alpha.md", "# Alpha\n")]);
    let resolution = resolve(
        &workspace,
        vec![mapping_with_operator("repo", "contains", "alpha", "Products/Alpha.md")],
        vec![event("evt_1", "team-alpha-api", "10")],
    );
    assert_eq!(
        text(resolution.vault_context.get("candidate_notes")),
        "[\"[[Products/Alpha]]\"]"
    );
    assert_eq!(
        text(
            resolution
                .snapshot_payload
                .get("diagnostics")
                .unwrap()
                .get("invalid_mapping_count")
        ),
        "0"
    );
}

#[test]
fn broad_mapping_links_without_merging_distinct_workstreams() {
    let workspace = workspace(&[("Products/Alpha.md", "# Alpha\n")]);
    let resolution = resolve(
        &workspace,
        vec![mapping("repo", "alpha", "Products/Alpha.md")],
        vec![event("evt_1", "alpha", "10"), event("evt_2", "alpha", "11")],
    );
    assert_eq!(text(resolution.vault_context.get("group_aliases")), "{}");
    assert_eq!(resolution.snapshot_payload.get_list("resolved_groups").unwrap().len(), 2);
}

#[test]
fn snapshot_keeps_only_used_note_metadata_and_catalog_digest() {
    let workspace = workspace(&[
        ("Products/Alpha.md", "# Alpha\n"),
        ("Products/Unused.md", "---\naliases: [private-unused-alias]\n---\n# Unused\n"),
    ]);
    let resolution = resolve(&workspace, Vec::new(), vec![event("evt_1", "Alpha", "10")]);
    assert!(resolution.snapshot_payload.get("notes").is_none());
    assert_eq!(resolution.snapshot_payload.get_count("catalog_note_count"), 2);
    assert_eq!(resolution.snapshot_payload.get_list("used_notes").unwrap().len(), 1);
    assert!(!resolution.snapshot_payload.to_text().contains("private-unused-alias"));
}

#[test]
fn exact_matching_is_ambiguous_across_title_alias_and_reference_kinds() {
    let workspace = workspace(&[
        ("Products/Title.md", "# alpha\n"),
        ("Products/Alias.md", "---\naliases: [alpha]\n---\n# Different\n"),
    ]);
    let resolution = resolve(&workspace, Vec::new(), vec![event("evt_1", "alpha", "10")]);
    assert_eq!(text(resolution.vault_context.get("candidate_notes")), "[]");
    assert_eq!(
        resolution
            .snapshot_payload
            .get("diagnostics")
            .unwrap()
            .get_count("ambiguous_group_count"),
        1
    );
}

#[test]
fn invalid_reviewed_mapping_never_falls_through_to_an_automatic_match() {
    let workspace = workspace(&[("Products/Alpha.md", "# Alpha\n")]);
    let resolution = resolve(
        &workspace,
        vec![mapping("repo", "Alpha", "Products/Missing.md")],
        vec![event("evt_1", "Alpha", "10")],
    );
    assert_eq!(text(resolution.vault_context.get("candidate_notes")), "[]");
    assert_eq!(
        resolution
            .snapshot_payload
            .get("diagnostics")
            .unwrap()
            .get_count("invalid_mapping_count"),
        1
    );
}

#[test]
fn mapping_selector_conjunction_must_match_one_event() {
    let workspace = workspace(&[("Products/Alpha.md", "# Alpha\n")]);
    let mut mapping = mapping("product", "unrelated-product", "Products/Alpha.md");
    mapping.selectors.push(LinkSelector {
        field: "module".to_owned(),
        operator: "exact".to_owned(),
        value: "chat".to_owned(),
    });
    let mut first = event("evt_1", "unused", "10");
    first.metadata = fields(&[("task_id", "same-task"), ("product", "unrelated-product")]);
    let mut second = event("evt_2", "unused", "11");
    second.metadata = fields(&[("task_id", "same-task"), ("module", "chat")]);
    let resolution = resolve(&workspace, vec![mapping], vec![first, second]);
    assert_eq!(text(resolution.vault_context.get("candidate_notes")), "[]");
}

#[test]
fn exact_work_item_references_can_merge_explicit_alias_groups() {
    let workspace =
        workspace(&[("Products/Alpha.md", "---\nado: ['10', '11']\n---\n# Alpha\n")]);
    let resolution = resolve(
        &workspace,
        Vec::new(),
        vec![event("evt_1", "repo-one", "10"), event("evt_2", "repo-two", "11")],
    );
    match resolution.vault_context.get("group_aliases").unwrap() {
        Json::Record(items) => assert_eq!(items.len(), 2),
        other => panic!("{other:?}"),
    }
    match resolution.snapshot_payload.get("workstream_evidence").unwrap() {
        Json::Record(items) => assert_eq!(items[0].1.as_list().unwrap().len(), 2),
        other => panic!("{other:?}"),
    }
}

#[test]
fn transient_source_and_branch_names_do_not_create_automatic_links() {
    let workspace = workspace(&[
        ("Products/Codex.md", "# codex/test\n"),
        ("Products/Branch.md", "# bugfix/123\n"),
    ]);
    let mut event = event("evt_1", "unmatched", "10");
    event.metadata.push(("branch".to_owned(), Json::Text("bugfix/123".to_owned())));
    let resolution = resolve(&workspace, Vec::new(), vec![event]);
    assert_eq!(text(resolution.vault_context.get("candidate_notes")), "[]");
}

#[test]
fn the_most_specific_mapping_decides() {
    let workspace =
        workspace(&[("Products/Alpha.md", "# Alpha\n"), ("Products/Beta.md", "# Beta\n")]);
    let mut specific = mapping("repo", "shared", "Products/Beta.md");
    specific.id = "mapping_specific".to_owned();
    specific.selectors.push(LinkSelector {
        field: "work_item".to_owned(),
        operator: "exact".to_owned(),
        value: "10".to_owned(),
    });
    let resolution = resolve(
        &workspace,
        vec![mapping("repo", "shared", "Products/Alpha.md"), specific],
        vec![event("evt_1", "shared", "10")],
    );
    assert_eq!(
        text(resolution.vault_context.get("candidate_notes")),
        "[\"[[Products/Beta]]\"]"
    );
}

#[test]
fn without_enabled_collections_or_mappings_there_is_no_knowledge() {
    let mut off = collection("workspace");
    off.enabled = false;
    let workspace = workspace(&[]);
    let resolution = resolve_knowledge(
        "workspace",
        &vec![off],
        &Vec::new(),
        &vec![event("evt_1", "alpha", "10")],
        &workspace.catalog,
        &workspace.existing,
    )
    .unwrap();
    assert!(resolution.is_none());
}

#[test]
fn the_digest_of_a_snapshot_is_that_of_its_json() {
    let payload = parse_json("{\"b\":[1,\"x\"],\"a\":null}").unwrap();
    assert_eq!(
        context_snapshot_digest(&payload).unwrap(),
        digest("{\"a\":null,\"b\":[1,\"x\"]}".as_bytes())
    );
}

#[test]
fn notes_are_found_by_title_path_and_alias_in_the_order_of_titles() {
    let workspace = workspace(&[
        ("Products/Zeta.md", "---\naliases: [portal-z]\n---\n# beta\n"),
        ("Products/Portal.md", "# Alpha\n"),
        ("Products/Other.md", "# Other\n"),
    ]);
    let found = search_note_options(&workspace.catalog.notes, "PORTAL", 10);
    let titles: Vec<&str> = found.iter().map(|option| option.title.as_str()).collect();
    assert_eq!(titles, ["Alpha", "beta"]);
    assert_eq!(search_note_options(&workspace.catalog.notes, "portal", 1).len(), 1);
    assert_eq!(
        find_note_option(&workspace.catalog.notes, "Products/Other.md").unwrap().title,
        "Other"
    );
    assert!(find_note_option(&workspace.catalog.notes, "Products/None.md").is_none());
}

#[test]
fn names_without_a_note_are_shown_by_importance_and_ignored_ones_are_not() {
    let mut product = event("evt_1", "alpha", "10");
    product.metadata = fields(&[("product", "Portal"), ("repo", "alpha")]);
    let other = event("evt_2", "alpha", "10");
    let review = curate_unresolved_identities(
        &vec![product, other],
        &Vec::new(),
        &vec![IgnoredContextIdentity {
            field: "work_item".to_owned(),
            normalized_value: "10".to_owned(),
        }],
        None,
        10,
    );
    let shown: Vec<(&str, &str, u128)> = review
        .identities
        .iter()
        .map(|identity| {
            (identity.field.as_str(), identity.value.as_str(), identity.event_count)
        })
        .collect();
    assert_eq!(shown, [("product", "Portal", 1), ("repo", "alpha", 2)]);
    assert_eq!(review.total_count, 2);
    assert!(!review.truncated);
}

#[test]
fn a_catalog_counts_what_it_leaves_out() {
    let mut builder = CatalogBuilder::new();
    builder.add_missing_root("Missing");
    assert_eq!(builder.offer("a", "Big.md", 1_048_577), Ok(false));
    assert_eq!(builder.offer("a", "Gone.md", 10), Ok(true));
    builder.accept("a", None);
    assert_eq!(builder.offer("a", "Bad.md", 10), Ok(true));
    builder.accept("a", Some(&document("Bad.md", "---\naliases: [broken\nBody")));
    assert_eq!(builder.offer("a", "Good.md", 10), Ok(true));
    builder.accept("a", Some(&document("Good.md", "# Good\n")));
    assert_eq!(builder.offer("b", "Good.md", 10), Ok(false));
    let report = builder.finish();
    assert_eq!(report.missing_roots, ["Missing"]);
    assert_eq!(report.oversized_note_count, 1);
    assert_eq!(report.unreadable_note_count, 1);
    assert_eq!(report.invalid_note_count, 1);
    assert_eq!(report.notes.len(), 1);
    assert_eq!(report.notes[0].collection_ids, ["a", "b"]);
}
