//! Proposals in the inbox and in daily notes.
use log_inbox::models::Moment;
use log_inbox::proposal_inbox::{
    names_proposal, split_proposal, validate_note_name, validate_proposal_id, ProposalFile,
    ProposalFrontmatter, ProposalInbox,
};
use log_inbox::proposal_notes::{new_proposal_id, plan_staging, temporary_name};
use log_inbox::proposals::SummaryProposal;

fn proposal() -> SummaryProposal {
    SummaryProposal {
        target_note: "Configured daily note".to_owned(),
        canonical_links: vec!["[[Log Inbox]]".to_owned()],
        link_candidates: vec!["[[Log Inbox]]".to_owned()],
        markdown: "- Consolidated a bounded log window.".to_owned(),
        evidence_event_ids: vec!["evt_123".to_owned()],
        confidence: "high".to_owned(),
        open_questions: vec!["Confirm the target note.".to_owned()],
        requires_review: true,
        provider: "local".to_owned(),
        supersedes_proposal_ids: vec!["proposal_previous".to_owned()],
        consolidation_job_id: Some("consolidation_test".to_owned()),
        link_context_revision: "catalog-1".to_owned(),
        structured_draft: None,
    }
}

fn inbox() -> ProposalInbox {
    ProposalInbox { pending_dir: "/pending".to_owned() }
}

fn now() -> Moment {
    Moment { seconds: 1_788_948_000, nanos: 123_000_000 }
}

fn frontmatter(proposal_id: &str, yaml: &str) -> Result<ProposalFrontmatter, String> {
    let value: serde_yaml::Value = serde_yaml::from_str(yaml).map_err(|e| e.to_string())?;
    let text = |key: &str| value[key].as_str().unwrap_or("").to_owned();
    let list = |key: &str| match value[key].as_sequence() {
        Some(items) => items.iter().map(|item| item.as_str().unwrap().to_owned()).collect(),
        None => Vec::new(),
    };
    assert_eq!(text("proposal_id"), proposal_id);
    Ok(ProposalFrontmatter {
        proposal_id: text("proposal_id"),
        created_at: text("created_at"),
        target_note: text("target_note"),
        confidence: text("confidence"),
        provider: text("provider"),
        evidence_event_ids: list("evidence_event_ids"),
        canonical_links: list("canonical_links"),
        link_candidates: list("link_candidates"),
        supersedes_proposal_ids: list("supersedes_proposal_ids"),
        consolidation_job_id: value["consolidation_job_id"].as_str().map(|text| text.to_owned()),
        link_context_revision: text("link_context_revision"),
    })
}

fn staged(proposal_id: &str, proposal: &SummaryProposal) -> ProposalFile {
    let plan = plan_staging(proposal_id, &now(), proposal).unwrap();
    let (yaml, _) = split_proposal(&plan.markdown).unwrap();
    ProposalFile {
        name: plan.name,
        frontmatter: frontmatter(proposal_id, &yaml),
        contents: plan.markdown,
    }
}

#[test]
fn concurrent_staging_creates_distinct_complete_files() {
    let first = staged(&new_proposal_id("a1"), &proposal());
    let second = staged(&new_proposal_id("b2"), &proposal());

    assert_ne!(first.name, second.name);
    let contents = first.contents.clone();
    let listed = inbox().list(&vec![first, second]).expect("proposals list");
    assert_eq!(listed.len(), 2);
    assert_eq!(listed[0].target_note, "Configured daily note");
    assert_eq!(listed[0].evidence_event_ids, ["evt_123"]);
    assert_eq!(listed[0].supersedes_proposal_ids, ["proposal_previous"]);
    assert_eq!(listed[0].consolidation_job_id.as_deref(), Some("consolidation_test"));
    assert!(contents.contains("status: pending"));
    assert!(contents.contains("evt_123"));
    assert!(contents.contains("Consolidated a bounded log window"));
    assert_eq!(temporary_name("proposal_a1"), ".proposal_a1.tmp");
}

#[test]
fn applies_a_proposal_to_an_empty_daily_note_and_discards_it_after_acknowledgement() {
    let files = vec![staged("proposal_a1", &proposal())];
    let parsed = inbox().open_for_apply("proposal_a1", &files).expect("proposal applies");
    let change = inbox().apply(&parsed, "");
    let daily = change.contents.unwrap();
    let applied = inbox().applied(&parsed, "/daily/Configured daily note.md");

    assert_eq!(change.file_name, "Configured daily note.md");
    assert!(daily.starts_with("# Configured daily note\n\n## [[Log Inbox]] activity report"));
    assert!(daily.contains("[[Log Inbox]]"));
    assert!(daily.contains("evt_123"));
    assert_eq!(applied.supersedes_proposal_ids, ["proposal_previous"]);
    assert_eq!(applied.status, "applied");
    assert_eq!(
        inbox().discard_if_present("proposal_a1", &files).unwrap(),
        files[0].name.clone()
    );
}

#[test]
fn a_proposal_is_written_and_read_back() {
    let file = staged("proposal_a1", &proposal());
    assert_eq!(file.name, "20260909T100000.123Z-proposal_a1.md");
    assert_eq!(
        file.contents,
        "---\ntype: log-inbox-proposal\nproposal_id: \"proposal_a1\"\nstatus: pending\ncreated_at: \"2026-09-09T10:00:00.123+00:00\"\ntarget_note: \"Configured daily note\"\nconfidence: \"high\"\nprovider: \"local\"\nrequires_review: true\nevidence_event_ids:\n  - \"evt_123\"\ncanonical_links:\n  - \"[[Log Inbox]]\"\nlink_candidates:\n  - \"[[Log Inbox]]\"\nsupersedes_proposal_ids:\n  - \"proposal_previous\"\nconsolidation_job_id: \"consolidation_test\"\nlink_context_revision: \"catalog-1\"\n---\n\n# Log summary proposal\n\n- Consolidated a bounded log window.\n\n## Open questions\n\n- Confirm the target note.\n"
    );
    let read = inbox().get("proposal_a1", &vec![file]).unwrap();
    assert_eq!(
        read.markdown,
        "- Consolidated a bounded log window.\n\n## Open questions\n\n- Confirm the target note."
    );
    assert_eq!(read.created_at, "2026-09-09T10:00:00.123+00:00");
    assert!(!read.stale);
}

#[test]
fn a_text_with_dashes_does_not_end_the_frontmatter() {
    let mut odd = proposal();
    odd.target_note = "x\n---\ny".to_owned();
    odd.canonical_links = Vec::new();
    odd.open_questions = Vec::new();
    odd.markdown = "One\n---\nTwo".to_owned();
    let file = staged("proposal_a1", &odd);
    let read = inbox().get("proposal_a1", &vec![file]).unwrap();
    assert_eq!(read.target_note, "x\n---\ny");
    assert_eq!(read.canonical_links, Vec::<String>::new());
    assert_eq!(read.markdown, "One\n---\nTwo");
}

#[test]
fn a_proposal_is_applied_once_and_keeps_the_note() {
    let files = vec![staged("proposal_a1", &proposal())];
    let parsed = inbox().open_for_apply("proposal_a1", &files).unwrap();
    let first = inbox().apply(&parsed, "# Mine\n\nText.\n\n").contents.unwrap();
    assert_eq!(
        first,
        "# Mine\n\nText.\n\n## [[Log Inbox]] activity report\n\n- Consolidated a bounded log window.\n\n## Open questions\n\n- Confirm the target note.\n\nDetails: [[Log Inbox]] · `evt_123`\n<!-- log-inbox:proposal_a1 -->\n"
    );
    assert_eq!(inbox().apply(&parsed, &first).contents, None);
}

#[test]
fn details_of_the_text_are_not_repeated() {
    let mut detailed = proposal();
    detailed.open_questions = Vec::new();
    detailed.markdown = "- Done.\n\nDetails: here".to_owned();
    detailed.canonical_links = vec!["[[A]]".to_owned(), "[[B]]".to_owned()];
    let files = vec![staged("proposal_a1", &detailed)];
    let parsed = inbox().open_for_apply("proposal_a1", &files).unwrap();
    assert_eq!(
        inbox().apply(&parsed, "").contents.unwrap(),
        "# Configured daily note\n\n## Activity report\n\n- Done.\n\nDetails: here\n\nRelated: [[A]] · [[B]]\n<!-- log-inbox:proposal_a1 -->\n"
    );
}

#[test]
fn each_fault_of_a_proposal_is_named() {
    assert_eq!(validate_proposal_id("proposal_../x").unwrap_err(), "invalid proposal ID");
    assert_eq!(validate_proposal_id("other").unwrap_err(), "invalid proposal ID");
    assert!(validate_proposal_id("proposal_a_1").is_ok());
    for bad in [" ", "a/b", "a\\b", "..", "a\0"] {
        assert_eq!(
            validate_note_name(bad).unwrap_err(),
            "proposal target_note must be a plain Markdown filename"
        );
    }
    assert!(validate_note_name("Daily log Sep 9").is_ok());
    assert_eq!(split_proposal("x").unwrap_err(), "proposal is missing YAML frontmatter");
    assert_eq!(split_proposal("---\nx").unwrap_err(), "proposal frontmatter is not terminated");
    let none = Vec::new();
    assert_eq!(
        inbox().get("proposal_a1", &none).unwrap_err(),
        "pending proposal proposal_a1 not found"
    );
    let twice = vec![
        staged("proposal_a1", &proposal()),
        ProposalFile {
            name: "other-proposal_a1.md".to_owned(),
            contents: String::new(),
            frontmatter: Err(String::new()),
        },
    ];
    assert_eq!(
        inbox().get("proposal_a1", &twice).unwrap_err(),
        "multiple pending proposals match proposal_a1"
    );
    let unread = vec![ProposalFile {
        name: "x-proposal_a1.md".to_owned(),
        contents: "---\na\n---\n".to_owned(),
        frontmatter: Err("missing field".to_owned()),
    }];
    assert_eq!(
        inbox().get("proposal_a1", &unread).unwrap_err(),
        "parsing proposal frontmatter: missing field"
    );
    assert!(inbox().list(&unread).is_err());
    let mut renamed = staged("proposal_a1", &proposal());
    renamed.name = "x-proposal_b2.md".to_owned();
    assert_eq!(
        inbox().open_for_apply("proposal_b2", &vec![renamed]).unwrap_err(),
        "proposal ID does not match its frontmatter"
    );
    assert!(names_proposal("x-proposal_b2.md", "proposal_b2"));
    assert_eq!(
        inbox().discard_if_present("proposal_b2", &Vec::new()).unwrap_err(),
        "pending proposal proposal_b2 not found"
    );
    assert!(inbox().discard_if_present("../b2", &Vec::new()).is_err());
    let staged_files = vec![staged("proposal_a1", &proposal())];
    let name = staged_files[0].name.clone();
    assert_eq!(inbox().discard_if_present("proposal_a1", &staged_files), Ok(name));
    assert!(inbox().discard_if_present("proposal_b2", &staged_files).is_err());
    let twice = vec![staged("proposal_a1", &proposal()), staged("proposal_a1", &proposal())];
    assert!(inbox().discard_if_present("proposal_a1", &twice).is_err());
}

#[test]
fn the_list_has_markdown_files_alone_with_the_last_name_first() {
    let mut early = staged("proposal_a1", &proposal());
    early.name = "1-proposal_a1.md".to_owned();
    let mut late = staged("proposal_b2", &proposal());
    late.name = "2-proposal_b2.md".to_owned();
    let mut hidden = staged("proposal_c3", &proposal());
    hidden.name = "3-proposal_c3.txt".to_owned();
    let ids: Vec<String> = inbox()
        .list(&vec![early, late, hidden])
        .unwrap()
        .into_iter()
        .map(|pending| pending.proposal_id)
        .collect();
    assert_eq!(ids, ["proposal_b2", "proposal_a1"]);
    assert!(ProposalInbox::from_value(Some("")).is_none());
    assert_eq!(ProposalInbox::from_value(Some("/x")).unwrap().pending_dir, "/x");
}
