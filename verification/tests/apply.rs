//! Applying a Daily, and recovering an Apply that was interrupted.
use log_inbox::apply::{
    apply_after_failed_write, apply_after_resolve, apply_after_write, apply_operation_id,
    execute_daily_apply, start_apply, validate_apply_material_approval,
    validate_apply_operation_approval, ApplyDailyRequest, ApplyDecision, ApplyOperation,
};
use log_inbox::apply_material::{
    daily_apply_material, has_new_automated_evidence, ApplyInputs, DayRecord, RevisionRecord,
    TemplateSnapshot,
};
use log_inbox::daily_writer::plan_managed_block;
use log_inbox::digest::digest;
use log_inbox::recovery::{
    check_journal, check_resumed_content, finalization_failure, recover_daily_apply,
    recovery_after_failed_write, recovery_after_write, RecoveryDecision, ResumeFrom,
};
use log_inbox::review::{check_old_block, retry_daily_apply, RetryStep};
use log_inbox::revisions::{
    DailyFact, DailyRevisionContent, DailyWorkstream, ManualDailyEntry, SnapshotEvidence,
};

fn texts(items: &[&str]) -> Vec<String> {
    items.iter().map(|text| text.to_string()).collect()
}

fn inputs() -> ApplyInputs {
    let fact = DailyFact {
        text: "Validated the generation lifecycle.".to_owned(),
        evidence_event_ids: texts(&["evt_1"]),
    };
    ApplyInputs {
        local_date: "2026-09-09".to_owned(),
        day: Some(DayRecord {
            current_revision_id: Some("revision_1".to_owned()),
            destination_path: "Journal/2026-09-09.md".to_owned(),
            template_revision: Some("none".to_owned()),
            block_id: "day_1".to_owned(),
        }),
        revision: Some(RevisionRecord {
            id: "revision_1".to_owned(),
            content_hash: "hash".to_owned(),
            content: Ok(DailyRevisionContent {
                schema_version: 1,
                workstreams: vec![DailyWorkstream {
                    id: "work".to_owned(),
                    title: "Work".to_owned(),
                    canonical_links: Vec::new(),
                    evidence_event_ids: texts(&["evt_1"]),
                    outcome: vec![fact],
                    decision: Vec::new(),
                    trade_off: Vec::new(),
                    validation: Vec::new(),
                    blocker: Vec::new(),
                    follow_up: Vec::new(),
                    activity: Vec::new(),
                }],
                manual_entry_ids: Vec::new(),
                open_questions: Vec::new(),
            }),
        }),
        manual_entries: Vec::new(),
        snapshot_event_ids: texts(&["evt_1"]),
        snapshot_evidence: vec![SnapshotEvidence {
            event_id: "evt_1".to_owned(),
            disposition: None,
            available: true,
        }],
        live_truncated: false,
        live_event_ids: texts(&["evt_1"]),
        deferred_event_ids: Vec::new(),
        target: None,
        template: None,
    }
}

fn approved(original: Option<&[u8]>) -> (ApplyOperation, Vec<u8>) {
    let plan = plan_managed_block(original, "day_1", "- Done.", "2026-09-09").unwrap();
    let op = ApplyOperation {
        id: "apply_1".to_owned(),
        workspace_id: "workspace".to_owned(),
        local_date: "2026-09-09".to_owned(),
        state: "prepared".to_owned(),
        revision_id: "revision_1".to_owned(),
        revision_content_hash: "hash".to_owned(),
        destination_path: "Journal/2026-09-09.md".to_owned(),
        expected_old_block_hash: None,
        intended_new_block_hash: plan.intended_new_block_hash.clone(),
        expected_target_exists: Some(original.is_some()),
        expected_original_content_hash: Some(digest(original.unwrap_or(&[]))),
        intended_updated_content_hash: Some(digest(&plan.updated_content)),
        temporary_name: Some(".tmp".to_owned()),
        failure_reason: None,
    };
    (op, plan.updated_content)
}

#[test]
fn only_live_ids_absent_from_the_snapshot_are_new_evidence() {
    let snapshot = vec!["expired".to_owned(), "still-live".to_owned()];
    assert!(!has_new_automated_evidence(&["still-live"], &snapshot));
    assert!(has_new_automated_evidence(&["still-live", "arrived-late"], &snapshot));
}

#[test]
fn apply_preview_includes_untouched_evidence_and_honors_omissions() {
    let mut inputs = inputs();
    let included = daily_apply_material(&inputs).unwrap();
    assert!(included.plan.next_block.contains("Validated the generation lifecycle."));
    assert!(inputs.snapshot_evidence[0].disposition.is_none());
    inputs.snapshot_evidence[0].disposition = Some("omit".to_owned());
    let omitted = daily_apply_material(&inputs).unwrap();
    assert!(!omitted.plan.next_block.contains("Validated the generation lifecycle."));
}

#[test]
fn a_preview_is_refused_for_each_reason() {
    let refused = |change: fn(&mut ApplyInputs)| {
        let mut inputs = inputs();
        change(&mut inputs);
        daily_apply_material(&inputs).unwrap_err().message
    };
    assert_eq!(
        refused(|i| i.revision = None),
        "generate a Daily candidate before previewing Apply"
    );
    assert_eq!(
        refused(|i| i.day.as_mut().unwrap().current_revision_id = None),
        "the Daily candidate changed; reload before previewing Apply"
    );
    assert_eq!(
        refused(|i| i.revision.as_mut().unwrap().content = Err("bad".to_owned())),
        "invalid stored Daily candidate: bad"
    );
    assert_eq!(
        refused(|i| i.live_truncated = true),
        "Daily evidence exceeds the supported 500-event Apply limit."
    );
    assert_eq!(
        refused(|i| i.live_event_ids.push("late".to_owned())),
        "new Daily evidence or manual notes are available; regenerate before Apply"
    );
    assert_eq!(
        refused(|i| i.manual_entries.push(ManualDailyEntry {
            id: "manual".to_owned(),
            text: "Note".to_owned(),
            references: Vec::new(),
        })),
        "new Daily evidence or manual notes are available; regenerate before Apply"
    );
    assert_eq!(
        refused(|i| i.day.as_mut().unwrap().template_revision = None),
        "this legacy Daily record has no frozen template choice; regenerate it before Apply"
    );
    assert_eq!(
        refused(|i| i.day.as_mut().unwrap().template_revision = Some("x".to_owned())),
        "the frozen Daily template snapshot is missing"
    );
    assert_eq!(
        refused(|i| {
            i.day.as_mut().unwrap().template_revision = Some("x".to_owned());
            i.template = Some(TemplateSnapshot {
                template_path: "T.md".to_owned(),
                content_hash: "x".to_owned(),
                content: Vec::new(),
            });
        }),
        "the frozen Daily template snapshot failed integrity verification"
    );
}

#[test]
fn deferred_evidence_is_not_new_and_a_template_begins_the_note() {
    let mut inputs = inputs();
    inputs.live_event_ids.push("late".to_owned());
    inputs.deferred_event_ids.push("late".to_owned());
    let content = b"# From template\n".to_vec();
    let hash = digest(&content);
    inputs.day.as_mut().unwrap().template_revision = Some(hash.clone());
    inputs.template = Some(TemplateSnapshot {
        template_path: "T.md".to_owned(),
        content_hash: hash,
        content,
    });
    let material = daily_apply_material(&inputs).unwrap();
    assert_eq!(material.template_used, Some("T.md".to_owned()));
    assert!(!material.target_exists);
    assert!(String::from_utf8(material.plan.updated_content)
        .unwrap()
        .starts_with("# From template\n"));
}

#[test]
fn only_the_approved_target_is_written() {
    let original = b"# Mine\n".to_vec();
    let (op, updated) = approved(Some(&original));
    assert!(start_apply(&op).is_ok());
    match execute_daily_apply(&op, "day_1", Some(&original)) {
        ApplyDecision::Write { mark_writing } => assert!(mark_writing),
        other => panic!("{other:?}"),
    }
    match execute_daily_apply(&op, "day_1", Some(&b"# Changed\n".to_vec())) {
        ApplyDecision::Refuse { state, error, .. } => {
            assert_eq!(state, "reconciliation_required");
            assert!(error.message.contains("no content was overwritten"));
        }
        other => panic!("{other:?}"),
    }
    match execute_daily_apply(&op, "day_1", Some(&updated)) {
        ApplyDecision::Finalize { states } => assert_eq!(states, ["writing", "written"]),
        other => panic!("{other:?}"),
    }
    let mut gap = op.clone();
    gap.expected_target_exists = None;
    match execute_daily_apply(&gap, "day_1", Some(&original)) {
        ApplyDecision::Reject(error) => assert_eq!(error.status, 409),
        other => panic!("{other:?}"),
    }
    match apply_after_resolve(false) {
        ApplyDecision::Refuse { reason, .. } => {
            assert_eq!(reason, "the resolved Daily destination changed before writing")
        }
        other => panic!("{other:?}"),
    }
}

#[test]
fn a_write_is_checked_by_what_stands_in_the_file() {
    let original = b"# Mine\n".to_vec();
    let (op, updated) = approved(Some(&original));
    match apply_after_write(&op, "day_1", Some(&updated)) {
        ApplyDecision::Finalize { states } => assert_eq!(states, ["written"]),
        other => panic!("{other:?}"),
    }
    match apply_after_write(&op, "day_1", Some(&original)) {
        ApplyDecision::Refuse { reason, .. } => {
            assert_eq!(reason, "the written Daily block did not match the approved block")
        }
        other => panic!("{other:?}"),
    }
    match apply_after_write(&op, "day_1", None) {
        ApplyDecision::Reject(error) => {
            assert_eq!(error.message, "the Daily target disappeared after writing")
        }
        other => panic!("{other:?}"),
    }
    for (after, expected) in [
        (updated, "reconciliation_required"),
        (original, "failed"),
        (b"other".to_vec(), "reconciliation_required"),
    ] {
        match apply_after_failed_write(&op, "disk", Some(&after)) {
            ApplyDecision::Refuse { state, reason, .. } => {
                assert_eq!(state, expected);
                assert!(reason.ends_with(": disk"));
            }
            other => panic!("{other:?}"),
        }
    }
}

#[test]
fn recovery_commits_a_temporary_file_that_is_whole() {
    let original = b"# Mine\n".to_vec();
    let (op, updated) = approved(Some(&original));
    assert!(check_journal(&op).is_ok());
    match recover_daily_apply(&op, "day_1", Some(&original), Some(&updated)) {
        RecoveryDecision::Resume { mark_writing, from } => {
            assert!(mark_writing);
            assert_eq!(from, ResumeFrom::CommitTemporary);
        }
        other => panic!("{other:?}"),
    }
    match recovery_after_write(&op, "day_1", Some(&updated)) {
        RecoveryDecision::Confirm { remove_temporary, states } => {
            assert!(!remove_temporary);
            assert_eq!(states, ["written"]);
        }
        other => panic!("{other:?}"),
    }
}

#[test]
fn recovery_keeps_what_it_does_not_know() {
    let original = b"# Mine\n".to_vec();
    let (op, updated) = approved(Some(&original));
    match recover_daily_apply(&op, "day_1", Some(&updated), Some(&updated)) {
        RecoveryDecision::Confirm { remove_temporary, states } => {
            assert!(remove_temporary);
            assert_eq!(states, ["writing", "written"]);
        }
        other => panic!("{other:?}"),
    }
    match recover_daily_apply(&op, "day_1", Some(&b"other".to_vec()), None) {
        RecoveryDecision::Reconcile(reason) => assert!(reason.contains("differs from its exact")),
        other => panic!("{other:?}"),
    }
    match recover_daily_apply(&op, "day_1", Some(&original), None) {
        RecoveryDecision::Resume { from, .. } => assert_eq!(from, ResumeFrom::Rewrite),
        other => panic!("{other:?}"),
    }
    match recover_daily_apply(&op, "day_1", Some(&original), Some(&b"half".to_vec())) {
        RecoveryDecision::Resume { from, .. } => assert_eq!(from, ResumeFrom::ReplaceTemporary),
        other => panic!("{other:?}"),
    }
    let mut gap = op.clone();
    gap.temporary_name = None;
    assert_eq!(check_journal(&gap).unwrap_err(), "Apply journal lacks temporary file identity");
    assert!(check_resumed_content(&op, &updated).is_ok());
    assert_eq!(
        check_resumed_content(&op, &original).unwrap_err(),
        "reviewed Daily content no longer matches the journal"
    );
    assert!(recovery_after_failed_write(false, false, "disk").is_some());
    assert_eq!(
        finalization_failure("busy"),
        "Daily file is written but finalization failed: busy"
    );
    match recovery_after_write(&op, "day_1", None) {
        RecoveryDecision::Fail(reason) => {
            assert_eq!(reason, "Daily target disappeared after recovery write")
        }
        other => panic!("{other:?}"),
    }
}

#[test]
fn an_approval_must_match_the_plan_and_the_journal() {
    let material = daily_apply_material(&inputs()).unwrap();
    let request = ApplyDailyRequest {
        expected_revision_id: "revision_1".to_owned(),
        expected_revision_content_hash: "hash".to_owned(),
        destination_path: "Journal/2026-09-09.md".to_owned(),
        expected_old_block_hash: None,
        intended_new_block_hash: material.plan.intended_new_block_hash.clone(),
        expected_target_exists: false,
        expected_original_content_hash: digest(&material.original_content),
        expected_updated_content_hash: digest(&material.plan.updated_content),
    };
    assert!(validate_apply_material_approval(&material, &request).is_ok());
    assert!(check_old_block(&material, &request).is_ok());
    let mut other = request.clone();
    other.expected_updated_content_hash = "x".to_owned();
    assert!(validate_apply_material_approval(&material, &other).is_err());
    assert_ne!(
        apply_operation_id("workspace", "2026-09-09", &request),
        apply_operation_id("workspace", "2026-09-10", &request)
    );
    let (op, _) = approved(None);
    assert!(validate_apply_operation_approval(&op, &other).is_err());
    match retry_daily_apply(None, "workspace", "2026-09-09") {
        RetryStep::NotFound(error) => assert_eq!(error.status, 404),
        other => panic!("{other:?}"),
    }
    match retry_daily_apply(Some(&op), "workspace", "2026-09-09") {
        RetryStep::NotFound(_) => panic!("the operation is there"),
        _ => {}
    }
}
