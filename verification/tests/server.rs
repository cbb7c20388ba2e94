//! What the server answers to requests about days, references and settings.
use log_inbox::context::{
    context_relevant_note_paths, current_context_freshness, ensure_context_applyable,
    public_context_snapshot, public_knowledge_diagnostics, ContextSnapshot, Fingerprints,
};
use log_inbox::context_report::{
    daily_context, frozen_context_exclusions, needs_comparison, validate_requested_context_exclusions,
    KnowledgeExcerptExclusionRequest,
};
use log_inbox::history::{
    activity_day, activity_in_window, check_history_query, check_recent_days, requested_day,
};
use log_inbox::frozen::{keep_exclusions, vault_context_from_snapshot};
use log_inbox::json::{parse_json, Json};
use log_inbox::snapshot::RESOLVER_VERSION;
use log_inbox::mapping_requests::{
    check_comparison_choice, check_expected_change, check_reviewed_collection, ignored_identity,
    public_context_mapping, public_ignored_context_identity, retention_is_due,
    reviewed_mapping_target, settings_are_saved,
};
use log_inbox::models::{
    ContextMapping, IgnoredContextIdentity, LinkSelector, Moment, StoredLogEvent,
};
use log_inbox::apply::ApplyOperation;
use log_inbox::overview::{
    count_expired, daily_day_summary, daily_overview, daily_overview_status, overview_window,
    public_apply_operation, DailyScheduleRun, DayInputs, DayStatus, OverviewFacts,
};
use log_inbox::requests::{
    check_search, context_mapping_create_error, context_mapping_update_error, dashboard_asset,
    edit_error, ensure_unique_context_mapping, mapping_target_status,
    public_knowledge_resolution_error_code, request_uses_https, require_credentials, review_limit,
    search_folders, session_cookie, session_cookie_text, session_lifetime, setting_list,
    validate_request_boundary, RefocusConfig,
};
use log_inbox::review::{
    check_activity_evidence, check_activity_record, check_comparison, check_comparison_context,
    check_comparison_evidence, check_comparison_model, check_edit, check_generate_request, check_review, comparison_arguments, effective_daily_window,
    public_context_comparison, ContextComparison, EffectiveDailyWindow,
};
use log_inbox::generation::ReferenceMode;
use log_inbox::revisions::{DailyRevisionContent, SnapshotEvidence};
use log_inbox::settings::{
    check_collection, check_link_style, check_reviewed_settings, check_timezone, check_workspace,
    normalize_settings, preview_collection, require_cutover, settings_digest,
    KnowledgeCollectionDraft, WorkspaceSettingsDraft,
};

fn texts(items: &[&str]) -> Vec<String> {
    items.iter().map(|text| text.to_string()).collect()
}

fn content() -> DailyRevisionContent {
    DailyRevisionContent {
        schema_version: 1,
        workstreams: Vec::new(),
        manual_entry_ids: Vec::new(),
        open_questions: Vec::new(),
    }
}

fn mapping(id: &str, field: &str, value: &str) -> ContextMapping {
    ContextMapping {
        id: id.to_owned(),
        workspace_id: "workspace".to_owned(),
        selectors: vec![LinkSelector {
            field: field.to_owned(),
            operator: "exact".to_owned(),
            value: value.to_owned(),
        }],
        canonical_note_path: "A.md".to_owned(),
        enabled: true,
        source_identity: None,
        source_digest: None,
    }
}

fn event(id: &str, seconds: i64) -> StoredLogEvent {
    StoredLogEvent {
        id: id.to_owned(),
        received_at: Moment { seconds, nanos: 0 },
        timestamp: Moment { seconds, nanos: 0 },
        source: "agent".to_owned(),
        level: "info".to_owned(),
        message: "x".to_owned(),
        metadata: Vec::new(),
        fingerprint: None,
        truncated: false,
        reviewed: false,
    }
}

#[test]
fn knowledge_review_errors_are_reduced_to_safe_recovery_codes() {
    assert_eq!(
        public_knowledge_resolution_error_code(
            "Mapped reference note Products/Alpha.md is not available in the selected reference collections."
        ),
        "mapping_outside_collections"
    );
    assert_eq!(
        public_knowledge_resolution_error_code("Knowledge catalog exceeds 2000 unique notes"),
        "catalog_limit"
    );
    assert_eq!(
        public_knowledge_resolution_error_code("unexpected resolver failure"),
        "resolver_error"
    );
}

#[test]
fn files_of_the_dashboard_have_a_type_and_others_have_none() {
    for (name, content_type) in [
        ("daily.js", "text/javascript"),
        ("daily-navigation.js", "text/javascript"),
        ("daily-helpers.js", "text/javascript"),
        ("daily-references.js", "text/javascript"),
        ("daily-settings.js", "text/javascript"),
        ("daily.css", "text/css"),
    ] {
        assert_eq!(dashboard_asset(name), Some(content_type));
    }
    assert_eq!(dashboard_asset("../Cargo.toml"), None);
}

#[test]
fn overview_marks_only_unhandled_automated_past_days_as_missed() {
    let today = requested_day("2026-09-10").unwrap();
    let yesterday = requested_day("2026-09-09").unwrap();
    assert_eq!(
        daily_overview_status(yesterday, today, None, false, None, None, true, false, false),
        "missed"
    );
    assert_eq!(
        daily_overview_status(yesterday, today, None, false, None, None, false, true, false),
        "notes_unreviewed"
    );
    assert_eq!(
        daily_overview_status(today, today, None, false, None, None, false, false, false),
        "not_started"
    );
}

#[test]
fn daily_context_projection_never_exposes_catalog_or_mapping_metadata() {
    let snapshot = ContextSnapshot {
        id: "context_1".to_owned(),
        snapshot_digest: "a".repeat(64),
        created_at: "2026-09-09T10:00:00Z".to_owned(),
        payload: parse_json(
            "{\"schema_version\":1,\"resolver_version\":\"exact-v1\",\"root_binding\":\"private-root-binding\",\"catalog_note_count\":42,\"used_notes\":[{\"path\":\"Private/Alpha.md\",\"title\":\"Alpha\"}],\"resolved_groups\":[{\"canonical_note_path\":\"Private/Alpha.md\"}],\"mappings\":[{\"selectors\":[{\"field\":\"repo\",\"value\":\"secret\"}]}],\"workstream_links\":{},\"diagnostics\":{\"missing_roots\":[\"Private/Missing\"]}}",
        )
        .unwrap(),
    };
    let projected = public_context_snapshot(&snapshot);
    let text = projected.to_text();
    assert_eq!(projected.get_count("used_note_count"), 1);
    assert_eq!(projected.get_count("resolved_group_count"), 1);
    assert_eq!(projected.get("diagnostics").unwrap().get_count("missing_root_count"), 1);
    for private in ["Private/Alpha.md", "Private/Missing", "private-root-binding", "secret"] {
        assert!(!text.contains(private));
    }
}

fn comparison() -> ContextComparison {
    ContextComparison {
        id: "comparison_1".to_owned(),
        source_revision_id: "revision_1".to_owned(),
        state: "open".to_owned(),
        created_at: "2026-09-09T10:00:00Z".to_owned(),
        arm_a_content: content(),
        arm_b_content: content(),
        arm_a_kind: None,
        decision: None,
    }
}

#[test]
fn open_context_comparison_projection_keeps_randomized_assignment_blind() {
    let projection = public_context_comparison(&comparison(), &Vec::new(), &Vec::new());
    assert!(projection.get("assignment").is_none());
    assert!(!projection.to_text().contains("with_context"));
    assert!(!projection.to_text().contains("without_context"));
    let mut decided = comparison();
    decided.arm_a_kind = Some("context".to_owned());
    let projection = public_context_comparison(&decided, &Vec::new(), &Vec::new());
    assert_eq!(
        projection.get("assignment").unwrap().to_text(),
        "{\"a\":\"with_context\",\"b\":\"without_context\"}"
    );
}

#[test]
fn activity_record_refuses_expired_evidence_and_over_limit_days() {
    assert!(check_activity_record(false, true, &None).unwrap_err().message.contains("expired"));
    assert!(check_activity_evidence(true, 500, 0).unwrap_err().message.contains("500-event"));
    assert!(check_activity_record(false, false, &None).is_ok());
    assert!(check_activity_evidence(false, 1, 0).is_ok());
    assert!(check_activity_evidence(false, 0, 0).is_err());
    assert_eq!(
        check_activity_record(true, false, &None).unwrap_err().message,
        "This day already has a draft. It has not been replaced."
    );
    assert_eq!(
        check_activity_record(false, false, &Some("dismissed".to_owned())).unwrap_err().message,
        "Reopen this day before creating an activity record."
    );
}

#[test]
fn refocus_boundary_rejects_untrusted_hosts_and_origins() {
    let config = RefocusConfig {
        allowed_hosts: texts(&["localhost:8788"]),
        allowed_origins: texts(&["http://localhost:8788"]),
    };
    let host = Some("localhost:8788");
    let origin = Some("http://localhost:8788");
    assert!(validate_request_boundary(&config, host, origin, true).is_ok());
    assert!(validate_request_boundary(&config, host, Some("https://attacker.example"), true)
        .is_err());
    assert!(validate_request_boundary(&config, Some("attacker.example"), origin, false).is_err());
}

#[test]
fn extracts_only_the_named_dashboard_cookie() {
    assert_eq!(
        session_cookie(Some("theme=dark; log_inbox_session=session_test; other=value")).as_deref(),
        Some("session_test")
    );
    assert_eq!(session_cookie(None), None);
}

#[test]
fn cookie_security_follows_the_validated_request_origin() {
    assert!(!request_uses_https(Some("http://localhost:8788")));
    assert!(request_uses_https(Some("https://logs.example.test")));
}

#[test]
fn frozen_daily_windows_ignore_later_workspace_timezone_changes() {
    let window = |timezone: &str, start: i64, path: &str| EffectiveDailyWindow {
        timezone: timezone.to_owned(),
        start_utc: Moment { seconds: start, nanos: 0 },
        end_utc: Moment { seconds: start + 82_800, nanos: 0 },
        destination_path: path.to_owned(),
    };
    // The day 2026-03-29 begins at 2026-03-28T23:00:00Z in Stockholm and has 23 hours.
    let frozen = window("Europe/Stockholm", 1_774_738_800, "Old Journal/2026-03-29.md");
    let current = window("America/New_York", 1_774_756_800, "Journal/2026-03-29.md");

    let effective = effective_daily_window(Some(frozen.clone()), Ok(current.clone())).unwrap();

    assert_eq!(effective.timezone, "Europe/Stockholm");
    assert_eq!(effective.start_utc, frozen.start_utc);
    assert_eq!(effective.end_utc, frozen.end_utc);
    assert_eq!(effective.destination_path, frozen.destination_path);
    assert_eq!(effective_daily_window(None, Ok(current.clone())).unwrap(), current);
    assert_eq!(
        effective_daily_window(None, Err("no such zone".to_owned())).unwrap_err(),
        "no such zone"
    );
}

#[test]
fn active_workspace_checks_detect_replacement_after_startup() {
    let error = check_workspace(Some("before"), "after").unwrap_err();
    assert_eq!(error.status, 409);
    assert!(error.message.contains("mounted workspace has changed"));
    assert!(check_workspace(Some("same"), "same").is_ok());
    assert!(check_workspace(None, "same").is_err());
}

#[test]
fn dates_are_days_of_the_calendar() {
    assert_eq!(requested_day("0001-01-01").unwrap(), 1);
    assert_eq!(requested_day("1970-01-01").unwrap(), 719_163);
    assert_eq!(requested_day("2026-02-30").unwrap_err().message, "date must use YYYY-MM-DD");
    assert_eq!(activity_day("today").unwrap_err().message, "Invalid date");
    assert_eq!(activity_day("2026-09-09").unwrap(), requested_day("2026-09-09").unwrap());
}

#[test]
fn history_queries_are_bounded_and_cursors_have_a_date_and_three_texts() {
    let refused = "Enter 1–200 characters and a valid search cursor";
    assert!(check_history_query("portal", None).is_ok());
    assert_eq!(check_history_query(" ", None).unwrap_err().message, refused);
    assert!(check_history_query(&"é".repeat(200), None).is_ok());
    assert!(check_history_query(&"é".repeat(201), None).is_err());
    assert!(check_history_query("x", Some("[\"2026-09-09\",\"a\",\"b\",\"c\"]")).is_ok());
    for cursor in [
        "[\"2026-13-09\",\"a\",\"b\",\"c\"]",
        "[\"2026-09-09\",\"a\",\"b\"]",
        "[\"2026-09-09\",\"a\",\"b\",3]",
        "{}",
        "nope",
    ] {
        assert!(check_history_query("x", Some(cursor)).is_err(), "{cursor}");
    }
    let long = format!("[\"2026-09-09\",\"a\",\"b\",\"{}\"]", "c".repeat(2048));
    assert!(check_history_query("x", Some(&long)).is_err());
    for days in [7, 10, 14, 30] {
        assert!(check_recent_days(days).is_ok());
    }
    assert_eq!(
        check_recent_days(8).unwrap_err().message,
        "Recent days must be 7, 10, 14, or 30"
    );
}

#[test]
fn an_activity_is_found_in_the_window_of_its_day() {
    let events = vec![event("early", 99), event("first", 100), event("second", 150)];
    let start = Moment { seconds: 100, nanos: 0 };
    let end = Moment { seconds: 150, nanos: 0 };
    assert_eq!(activity_in_window(&events, &start, &end).unwrap().id, "first");
    assert_eq!(
        activity_in_window(&vec![event("late", 150)], &start, &end).unwrap_err().status,
        404
    );
}

#[test]
fn mappings_are_saved_for_known_notes_and_shown_without_their_source() {
    assert_eq!(
        ignored_identity(" Repo ", " Alpha "),
        ("repo".to_owned(), "Alpha".to_owned(), "alpha".to_owned())
    );
    assert_eq!(
        reviewed_mapping_target("repo", Err("io".to_owned())).unwrap_err().status,
        422
    );
    assert_eq!(reviewed_mapping_target("repo", Ok(None)).unwrap_err().status, 409);
    assert_eq!(
        check_expected_change("Knowledge link", true, true).unwrap_err().message,
        "a new Knowledge link cannot have an expected timestamp"
    );
    assert_eq!(
        check_expected_change("Knowledge collection", false, false).unwrap_err().message,
        "Knowledge collection update requires its expected timestamp"
    );
    assert!(check_expected_change("Knowledge link", true, false).is_ok());
    assert!(check_reviewed_collection("a", "b").is_err());
    assert_eq!(
        public_context_mapping(&mapping("m", "repo", "alpha"), "t1", "t2").to_text(),
        "{\"canonical_note_path\":\"A.md\",\"created_at\":\"t1\",\"enabled\":true,\"id\":\"m\",\"imported\":false,\"selectors\":[{\"field\":\"repo\",\"operator\":\"exact\",\"value\":\"alpha\"}],\"updated_at\":\"t2\"}"
    );
    let identity = IgnoredContextIdentity {
        field: "repo".to_owned(),
        normalized_value: "alpha".to_owned(),
    };
    assert_eq!(
        public_ignored_context_identity("i", "Alpha", &identity, "t1", true).to_text(),
        "{\"created_at\":\"t1\",\"field\":\"repo\",\"id\":\"i\",\"imported\":true,\"normalized_value\":\"alpha\",\"value\":\"Alpha\"}"
    );
    let saved = vec![mapping("m", "repo", "Alpha")];
    assert!(ensure_unique_context_mapping(&saved, "repo", " alpha ", None).is_err());
    assert!(ensure_unique_context_mapping(&saved, "repo", "alpha", Some("m")).is_ok());
    assert!(ensure_unique_context_mapping(&saved, "app", "alpha", None).is_ok());
    assert_eq!(context_mapping_create_error("UNIQUE constraint failed: x").status, 409);
    assert_eq!(context_mapping_create_error("bad").status, 400);
    assert_eq!(context_mapping_update_error("the mapping changed").status, 409);
    assert_eq!(edit_error("current proposal revision changed").status, 409);
    assert_eq!(edit_error("bad").status, 400);
    assert_eq!(mapping_target_status(true, true), "ready");
}

#[test]
fn sessions_and_searches_are_bounded() {
    assert_eq!(session_lifetime(true), (2_592_000, 2_592_000));
    assert_eq!(session_lifetime(false), (1_800, 28_800));
    assert_eq!(
        session_cookie_text("t", 5, true),
        "log_inbox_session=t; Path=/; HttpOnly; SameSite=Strict; Max-Age=5; Secure"
    );
    assert_eq!(require_credentials(false, false, false).unwrap_err().status, 401);
    assert_eq!(require_credentials(true, true, false).unwrap_err().status, 403);
    assert!(require_credentials(true, true, true).is_ok());
    assert_eq!(check_search("note", " ab ", None).unwrap(), ("ab".to_owned(), 20));
    assert_eq!(
        check_search("folder", "a", None).unwrap_err().message,
        "folder search requires 2-100 characters"
    );
    assert!(check_search("note", "ab", Some(21)).is_err());
    assert_eq!(
        search_folders(&texts(&[".", "Products", "Notes"]), "ROOT", 20),
        ["."]
    );
    assert_eq!(search_folders(&texts(&["Aa", "aab", "b"]), "aa", 1), ["Aa"]);
    assert!(review_limit(None).is_ok());
    assert!(review_limit(Some(0)).is_err());
    assert_eq!(setting_list(" a, ,b "), ["a", "b"]);
    assert!(settings_are_saved(&Moment { seconds: 1, nanos: 0 }));
    assert!(!settings_are_saved(&Moment { seconds: 0, nanos: 0 }));
    let hour = Moment { seconds: 3_600, nanos: 0 };
    assert!(retention_is_due(None, &hour));
    assert!(retention_is_due(Some(Moment { seconds: 0, nanos: 0 }), &hour));
    assert!(!retention_is_due(Some(Moment { seconds: 0, nanos: 1 }), &hour));
}

#[test]
fn the_overview_counts_what_needs_attention() {
    assert_eq!(overview_window(None, 10, 7, 30), (10, 30));
    assert_eq!(overview_window(Some(100), 10, 7, 30), (31, 31));
    let today = 100;
    let facts = vec![
        OverviewFacts {
            local_date: "d99".to_owned(),
            number: 99,
            event_count: 2,
            manual_entry_count: 0,
            day: None,
            revision_number: None,
            apply_state: None,
            schedule_run: None,
            new_evidence_count: 0,
            manual_entries_changed: false,
            expired_evidence_count: 0,
        },
        OverviewFacts {
            local_date: "d98".to_owned(),
            number: 98,
            event_count: 1,
            manual_entry_count: 0,
            day: Some(DayStatus {
                generation_status: "failed".to_owned(),
                review_status: "open".to_owned(),
                freshness: "current".to_owned(),
            }),
            revision_number: None,
            apply_state: None,
            schedule_run: Some(DailyScheduleRun {
                state: "failed".to_owned(),
                attempts: 1,
                next_attempt_at: "t".to_owned(),
                last_error: None,
            }),
            new_evidence_count: 0,
            manual_entries_changed: false,
            expired_evidence_count: 0,
        },
    ];
    let overview = daily_overview(&facts, today, 10);
    assert_eq!(overview.missed_count, 1);
    assert_eq!(overview.failed_count, 1);
    assert_eq!(overview.update_count, 0);
    assert_eq!(overview.days.as_list().unwrap()[0].get_text("status"), Some("missed"));
    let gone = SnapshotEvidence {
        event_id: "e".to_owned(),
        disposition: None,
        available: false,
    };
    assert_eq!(count_expired(&vec![gone]), 1);
}

#[test]
fn a_context_is_compared_with_its_sources() {
    let payload = parse_json(
        "{\"resolver_version\":\"exact-v1\",\"root_binding\":\"root\",\"configuration_digest\":\"c\",\"catalog_digest\":\"k\",\"used_notes\":[{\"path\":\"A.md\",\"usable_digest\":\"d\"}],\"excerpts\":[],\"resolved_groups\":[]}",
    )
    .unwrap();
    let now = |digest: &str| {
        Some(Fingerprints {
            note_paths: texts(&["A.md"]),
            usable_digests: vec![("A.md".to_owned(), digest.to_owned())],
            configuration_digest: "c".to_owned(),
            catalog_digest: "k".to_owned(),
        })
    };
    let under = |resolver: &str, now: Option<Fingerprints>| {
        current_context_freshness(
            &payload,
            Some(&content()),
            &Vec::new(),
            &vec![mapping("m", "repo", "log-inbox")],
            &now,
            resolver,
            "root",
        )
    };
    let status = |now: Option<Fingerprints>| under(RESOLVER_VERSION, now);
    assert!(ensure_context_applyable(&status(now("d"))).is_ok());
    assert_eq!(status(now("d")).status, "current");
    assert_eq!(under("another-v2", now("d")).status, "changed");
    assert_eq!(status(now("other")).status, "changed");
    assert_eq!(status(None).status, "unavailable");
    assert_eq!(
        context_relevant_note_paths(Some(&content()), &payload),
        Vec::<String>::new()
    );
    let none = parse_json("{\"reference_mode\":\"none\"}").unwrap();
    let unlinked = parse_json("{\"resolver_version\":\"none\"}").unwrap();
    let without = |mappings: Vec<ContextMapping>| {
        current_context_freshness(&unlinked, None, &Vec::new(), &mappings, &None, RESOLVER_VERSION, "root")
            .status
    };
    assert_eq!(without(Vec::new()), "none");
    assert_eq!(without(vec![mapping("m", "repo", "log-inbox")]), "changed");
    let fresh =
        current_context_freshness(&none, None, &Vec::new(), &Vec::new(), &None, RESOLVER_VERSION, "root");
    assert_eq!(fresh.status, "none");
    let report = daily_context("workspace", "2026-09-09", None, None, None, &fresh);
    assert_eq!(report.get_text("status"), Some("none"));
}

#[test]
fn exclusions_name_a_workstream_and_a_note_once() {
    let exclusion = |workstream: &str, path: &str| KnowledgeExcerptExclusionRequest {
        workstream_id: workstream.to_owned(),
        note_path: path.to_owned(),
    };
    assert_eq!(
        validate_requested_context_exclusions(&vec![
            exclusion("w", "B.md"),
            exclusion("w", "A.md"),
            exclusion("v", "C.md"),
        ])
        .unwrap(),
        [exclusion("v", "C.md"), exclusion("w", "A.md"), exclusion("w", "B.md")]
    );
    assert!(validate_requested_context_exclusions(&vec![
        exclusion("w", "A.md"),
        exclusion("w", "A.md")
    ])
    .is_err());
    assert!(validate_requested_context_exclusions(&vec![exclusion(" ", "A.md")]).is_err());
    assert_eq!(frozen_context_exclusions(None), Vec::new());
    let frozen = parse_json(
        r#"{"applied_exclusions":[
            {"workstream_id":"w","note_path":"B.md"},
            {"workstream_id":"w","note_path":"A.md"},
            {"workstream_id":"w"},
            {"workstream_id":"w","note_path":"B.md"}
        ]}"#,
    )
    .unwrap();
    assert_eq!(
        frozen_context_exclusions(Some(&frozen)),
        [exclusion("w", "A.md"), exclusion("w", "B.md")]
    );
}

#[test]
fn candidates_are_reviewed_edited_and_compared_as_they_are() {
    assert!(check_review(Some("r"), "r", true).is_ok());
    assert_eq!(
        check_review(None, "r", true).unwrap_err().message,
        "generate a candidate before reviewing evidence"
    );
    assert_eq!(
        check_review(Some("x"), "r", true).unwrap_err().message,
        "the Daily candidate changed; reload and try again"
    );
    assert_eq!(
        check_review(Some("r"), "r", false).unwrap_err().message,
        "manual-only candidates have no automated evidence"
    );
    assert!(check_edit(Some(("r", Some(1))), "r", 1).is_ok());
    assert_eq!(
        check_edit(Some(("r", Some(1))), "r", 2).unwrap_err().message,
        "Editing cannot change the draft format."
    );
    assert_eq!(
        check_edit(None, "r", 1).unwrap_err().message,
        "generate a candidate before editing it"
    );
    let day = DayStatus {
        generation_status: "ready".to_owned(),
        review_status: "in_review".to_owned(),
        freshness: "current".to_owned(),
    };
    assert!(check_comparison(Some(&day), Some(("r", "generated")), "r").is_ok());
    assert_eq!(
        check_comparison(Some(&day), Some(("r", "structured_edit")), "r").unwrap_err().message,
        "only a current, unedited Daily candidate can be compared"
    );
    assert!(check_generate_request(ReferenceMode::Without, true, true).is_err());
    assert!(check_generate_request(ReferenceMode::Configured, true, false).is_err());
    assert!(check_generate_request(ReferenceMode::Configured, false, false).is_ok());
    let (with, without) = comparison_arguments(parse_json("{}").unwrap(), "D.md", "digest");
    assert_eq!(
        with.vault_context.to_text(),
        "{\"daily_note\":\"D.md\",\"link_context_revision\":\"digest\"}"
    );
    assert_eq!(without.vault_context.get_text("daily_note"), Some("D.md"));
    assert!(check_comparison_choice(Some(("c", "w", 1)), "c", "w", 1).is_ok());
    assert_eq!(
        check_comparison_choice(Some(("c", "w", 1)), "c", "w", 2).unwrap_err().status,
        404
    );
}

#[test]
fn settings_are_normalized_checked_and_reviewed() {
    assert!(check_timezone("Europe/Stockholm").is_ok());
    assert_eq!(check_timezone("Europe/Nowhere").unwrap_err().status, 400);
    assert!(check_link_style("markdown").is_ok());
    assert!(check_link_style("html").is_err());
    let draft = WorkspaceSettingsDraft {
        timezone: " UTC ".to_owned(),
        daily_root: " Journal ".to_owned(),
        daily_pattern: " {date}.md ".to_owned(),
        template_path: Some(" ".to_owned()),
        link_style: " markdown ".to_owned(),
    };
    let normal = normalize_settings(&draft);
    assert_eq!(normal.timezone, "UTC");
    assert_eq!(normal.template_path, None);
    let digest = settings_digest("root", &normal, "Journal/2026-09-09.md");
    assert_eq!(digest.len(), 64);
    assert_ne!(digest, settings_digest("other", &normal, "Journal/2026-09-09.md"));
    assert!(check_reviewed_settings(&digest, &digest, true, true).is_ok());
    assert!(check_reviewed_settings(&digest, "x", true, true).is_err());
    assert!(check_reviewed_settings(&digest, &digest, true, false).is_err());
    assert!(check_collection("Label", "Purpose").is_ok());
    assert!(check_collection(" ", "Purpose").is_err());
    let collection = KnowledgeCollectionDraft {
        label: "Products".to_owned(),
        purpose: "Facts".to_owned(),
        roots: texts(&["Products"]),
        exclusions: Vec::new(),
        enabled: true,
    };
    let preview = preview_collection("root", &collection, &vec![10, 2_000_000]).unwrap();
    assert_eq!(preview.matched_note_count, 2);
    assert_eq!(preview.oversized_note_count, 1);
    assert_eq!(preview.eligible_note_count, 1);
    assert!(require_cutover("completed", 3).is_ok());
    assert!(require_cutover("pending", 3).is_err());
}

#[test]
fn comparisons_need_frozen_references_whole_evidence_and_a_local_model() {
    let payload = parse_json("{\"resolver_version\":\"exact-v1\",\"used_notes\":[{\"path\":\"A.md\"}],\"excerpts\":[{\"id\":\"x\"}]}").unwrap();
    assert!(check_comparison_context(None).is_err());
    assert!(check_comparison_context(Some(&payload)).is_ok());
    let evidence = |available: bool| {
        vec![SnapshotEvidence { event_id: "e".to_owned(), disposition: None, available }]
    };
    assert!(check_comparison_evidence(&evidence(true)).is_ok());
    assert!(check_comparison_evidence(&evidence(false)).is_err());
    assert!(check_comparison_model(&payload, true).is_ok());
    assert_eq!(
        check_comparison_model(&payload, false).unwrap_err().message,
        "this comparison contains frozen note excerpts and requires a local model"
    );
}

#[test]
fn a_day_is_summed_up_with_its_preview() {
    let summary = daily_day_summary(&DayInputs {
        live_event_ids: texts(&["evt_1", "evt_2"]),
        deferred_event_ids: Vec::new(),
        manual_entries: Vec::new(),
        has_revision: true,
        content: Some(content()),
        snapshot_event_ids: Some(texts(&["evt_1"])),
        snapshot_evidence: vec![SnapshotEvidence {
            event_id: "evt_1".to_owned(),
            disposition: None,
            available: false,
        }],
    });
    assert_eq!(summary.new_evidence_count, 1);
    assert_eq!(summary.expired_evidence_count, 1);
    assert!(!summary.evidence_complete);
}

#[test]
fn an_apply_is_shown_with_its_state_and_whether_it_may_be_retried() {
    let mut op = ApplyOperation {
        id: "apply_1".to_owned(),
        workspace_id: "workspace".to_owned(),
        local_date: "2026-09-09".to_owned(),
        state: "failed".to_owned(),
        revision_id: "r".to_owned(),
        revision_content_hash: "h".to_owned(),
        destination_path: "D.md".to_owned(),
        expected_old_block_hash: None,
        intended_new_block_hash: "n".to_owned(),
        expected_target_exists: None,
        expected_original_content_hash: None,
        intended_updated_content_hash: None,
        temporary_name: None,
        failure_reason: Some("disk".to_owned()),
    };
    assert_eq!(
        public_apply_operation(&op, "t1", "t2").to_text(),
        "{\"can_retry\":true,\"created_at\":\"t1\",\"failure_reason\":\"disk\",\"id\":\"apply_1\",\"state\":\"failed\",\"updated_at\":\"t2\"}"
    );
    op.state = "finalized".to_owned();
    assert!(public_apply_operation(&op, "t1", "t2").to_text().contains("\"can_retry\":false"));
}

#[test]
fn diagnostics_are_shown_as_counts() {
    let shown = public_knowledge_diagnostics(
        &parse_json("{\"missing_roots\":[\"Private\",\"Other\"],\"invalid_note_count\":3}").unwrap(),
    );
    assert_eq!(shown.get_count("missing_root_count"), 2);
    assert_eq!(shown.get_count("invalid_note_count"), 3);
    assert!(!shown.to_text().contains("Private"));
    assert!(!needs_comparison(&parse_json("{\"reference_mode\":\"none\"}").unwrap()));
    assert!(needs_comparison(&parse_json("{\"resolver_version\":\"exact-v1\"}").unwrap()));
}

#[test]
fn exclusions_are_kept_in_a_context_and_read_back() {
    let exclusion = |workstream: &str, path: &str| KnowledgeExcerptExclusionRequest {
        workstream_id: workstream.to_owned(),
        note_path: path.to_owned(),
    };
    let kept = vec![exclusion("v", "C.md"), exclusion("w", "A.md")];
    let mut fields = vec![("schema_version".to_owned(), parse_json("1").unwrap())];
    keep_exclusions(&mut fields, &Vec::new());
    assert_eq!(fields.len(), 1);
    keep_exclusions(&mut fields, &kept);
    let payload = Json::Record(fields);
    assert_eq!(frozen_context_exclusions(Some(&payload)), kept);
}

#[test]
fn a_frozen_context_stands_for_the_context_of_the_model() {
    let payload = parse_json(
        r#"{"resolver_version":"exact-v1","workstream_links":{"w":["[[B]]"]},"group_aliases":{"x":"w"},
            "resolved_groups":[{"canonical_link":"[[B]]"},{"canonical_link":"[[A]]"},{"canonical_link":"[[B]]"}]}"#,
    )
    .unwrap();
    assert_eq!(
        vault_context_from_snapshot(&payload).to_text(),
        parse_json(
            r#"{"candidate_notes":["[[A]]","[[B]]"],"workstream_links":{"w":["[[B]]"]},"group_aliases":{"x":"w"},
                "knowledge":{"resolver_version":"exact-v1","context_is_background_only":true,"excerpts":[]}}"#
        )
        .unwrap()
        .to_text()
    );
}
