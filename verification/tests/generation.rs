//! Generating candidates, by request and on a schedule.
use chrono::{Datelike, NaiveDate};
use log_inbox::candidate::{
    context_for_generation, daily_arguments, decide_candidate, events_to_consider,
    has_only_manual_notes,
    manual_only_content, preflight_reference_context, prepare_generation,
    without_references_payload, CandidateDecision, CurrentCandidate, GenerationInputs, Preparation,
    ResolvedReferences, SnapshotFacts,
};
use log_inbox::clock::{
    clock_of, example_day, overview_days, overview_today, schedule_clock, today_or_error,
    ScheduleClock, FIRST_DAY, LAST_DAY,
};
use log_inbox::digest::digest;
use log_inbox::errors::ApiError;
use log_inbox::generation::{
    accepts_cancel, bounded_schedule_error, check_stage, database_error, day_after_attempt,
    finish_attempt, generation_error, ReferenceMode, RetryBudget,
};
use log_inbox::json::parse_json;
use log_inbox::models::Moment;
use log_inbox::revisions::DailyRevisionContent;
use log_inbox::schedule::{
    after_claim, after_clock, after_due, after_look, after_run, start_round, Claim, ScheduleAction,
};

fn texts(items: &[&str]) -> Vec<String> {
    items.iter().map(|text| text.to_string()).collect()
}

fn content(manual: &[&str]) -> DailyRevisionContent {
    DailyRevisionContent {
        schema_version: 1,
        workstreams: Vec::new(),
        manual_entry_ids: texts(manual),
        open_questions: Vec::new(),
    }
}

fn candidate(all_available: bool) -> CurrentCandidate {
    CurrentCandidate {
        id: "revision_1".to_owned(),
        origin: "generated".to_owned(),
        schema_version: Some(1),
        stored: manual_only_content(&texts(&["manual_1"])),
        content: Ok(content(&["manual_1"])),
        reference_mode: None,
        snapshot: SnapshotFacts::Found {
            id: "snapshot_1".to_owned(),
            event_ids: texts(&["evt_1"]),
            all_available,
        },
    }
}

fn inputs(current: Option<CurrentCandidate>) -> GenerationInputs {
    GenerationInputs {
        workspace_id: "workspace".to_owned(),
        attempt_workspace_id: "workspace".to_owned(),
        review_status: None,
        evidence_truncated: false,
        event_ids: texts(&["evt_1"]),
        deferred_event_ids: Vec::new(),
        manual_entry_ids: texts(&["manual_1"]),
        current,
        adjusted_revision_id: None,
        replace_edited: false,
        reference_mode: ReferenceMode::Configured,
    }
}

fn refusal(inputs: &GenerationInputs) -> String {
    match prepare_generation(inputs) {
        Preparation::Refuse(error) => error.message,
        other => panic!("{other:?}"),
    }
}

#[test]
fn a_canceled_or_late_attempt_is_not_saved() {
    for canceled in [true, false] {
        let error = check_stage("saving", canceled, true).unwrap_err();
        let end = finish_attempt(Some(&error));
        assert_eq!(end.state, if canceled { "canceled" } else { "timed_out" });
        assert_eq!(day_after_attempt(false, &end.state), ("failed", canceled));
    }
}

#[test]
fn an_interrupted_attempt_fails_its_day() {
    assert!(check_stage("saving", true, false).is_err());
    assert!(check_stage("preparing", true, true).is_ok());
    assert_eq!(day_after_attempt(false, "interrupted"), ("failed", false));
}

#[test]
fn malformed_reference_snapshot_is_rejected_before_model_work_and_exposes_recovery() {
    let payload = parse_json(
        "{\"schema_version\":1,\"workstream_links\":{\"repo:alpha\":[\"not a canonical wikilink\"]}}",
    )
    .unwrap();
    let error = preflight_reference_context(&payload, false).unwrap_err();
    let end = finish_attempt(Some(&error));
    assert_eq!(end.state, "failed");
    assert_eq!(end.failure_code.as_deref(), Some("reference_context_invalid"));
    assert_eq!(
        preflight_reference_context(&payload, true).unwrap(),
        digest(payload.to_text().as_bytes())
    );
}

#[test]
fn generation_database_retry_budget_is_shared_and_stops_on_deadline_or_nonbusy_errors() {
    assert_eq!(
        database_error(true, "database is locked").failure_code.as_deref(),
        Some("database_busy")
    );
    assert_eq!(database_error(false, "template changed").failure_code, None);
    let mut budget = RetryBudget::new();
    let mut calls = 0;
    let value = loop {
        calls += 1;
        if calls < 3 {
            assert!(budget.save_with_retries(true, "busy", false).is_none());
        } else {
            break 42;
        }
    };
    assert_eq!(value, 42);
    assert_eq!(calls, 3);
    let error = budget.save_with_retries(true, "busy", false).unwrap();
    assert_eq!(error.failure_code.as_deref(), Some("database_busy"));
    assert!(RetryBudget::new().save_with_retries(true, "busy", true).is_some());
    assert!(RetryBudget::new().save_with_retries(false, "invalid snapshot", false).is_some());
}

#[test]
fn expired_evidence_is_not_replaced_from_part_of_a_day() {
    let mut expired = inputs(Some(candidate(false)));
    match prepare_generation(&expired) {
        Preparation::KeepCurrent => {}
        other => panic!("{other:?}"),
    }
    expired.event_ids.push("late".to_owned());
    assert!(refusal(&expired).contains("has expired"));
    let mut notes = inputs(Some(candidate(false)));
    notes.manual_entry_ids.push("manual_2".to_owned());
    match prepare_generation(&notes) {
        Preparation::SaveManualNotes => {}
        other => panic!("{other:?}"),
    }
    notes.reference_mode = ReferenceMode::Without;
    assert!(refusal(&notes).contains("cannot be regenerated safely"));
}

#[test]
fn a_day_is_not_generated_for_each_reason() {
    let refused = |change: fn(&mut GenerationInputs)| {
        let mut inputs = inputs(Some(candidate(true)));
        change(&mut inputs);
        refusal(&inputs)
    };
    assert_eq!(
        refused(|i| i.attempt_workspace_id = "other".to_owned()),
        "The active workspace changed before generation started."
    );
    assert_eq!(
        refused(|i| i.review_status = Some("dismissed".to_owned())),
        "Reopen this dismissed day before generating another candidate."
    );
    assert_eq!(
        refused(|i| i.evidence_truncated = true),
        "Daily evidence exceeds the supported 500-event preview limit."
    );
    assert_eq!(
        refused(|i| i.adjusted_revision_id = Some("other".to_owned())),
        "the Daily candidate changed; review its frozen Knowledge context again"
    );
    assert_eq!(
        refused(|i| i.current.as_mut().unwrap().schema_version = Some(2)),
        "Confirm replacement before generating an AI summary of this activity record."
    );
    assert_eq!(
        refused(|i| {
            i.event_ids.clear();
            i.manual_entry_ids.clear();
            i.current = None;
        }),
        "This day has no evidence or manual notes."
    );
}

#[test]
fn deferred_events_are_left_out_once_there_is_a_candidate() {
    let mut day = inputs(None);
    day.deferred_event_ids = texts(&["evt_1"]);
    assert_eq!(events_to_consider(&day), ["evt_1"]);
    day.current = Some(candidate(true));
    assert_eq!(events_to_consider(&day), Vec::<String>::new());
}

#[test]
fn edits_are_replaced_only_on_request() {
    let mut edited = candidate(true);
    edited.origin = "structured_edit".to_owned();
    let current = Some(edited);
    let manual = texts(&["manual_1"]);
    match decide_candidate(&current, "snapshot_2", &None, "digest", &manual, false) {
        CandidateDecision::Refuse(error) => assert!(error.message.contains("has edits")),
        other => panic!("{other:?}"),
    }
    match decide_candidate(&current, "snapshot_2", &None, "digest", &manual, true) {
        CandidateDecision::Generate { origin } => assert_eq!(origin, "regenerated"),
        other => panic!("{other:?}"),
    }
    let same = Some("digest".to_owned());
    match decide_candidate(&current, "snapshot_1", &same, "digest", &manual, false) {
        CandidateDecision::KeepCurrent => {}
        other => panic!("{other:?}"),
    }
    match decide_candidate(&current, "snapshot_1", &same, "digest", &Vec::new(), false) {
        CandidateDecision::SaveManualNotes => {}
        other => panic!("{other:?}"),
    }
    match decide_candidate(&None, "snapshot_1", &same, "digest", &manual, false) {
        CandidateDecision::Generate { origin } => assert_eq!(origin, "generated"),
        other => panic!("{other:?}"),
    }
}

#[test]
fn a_candidate_without_references_has_an_empty_context() {
    let context = context_for_generation(
        ReferenceMode::Without,
        "root",
        ResolvedReferences::Failed,
        false,
        "contract-1",
    )
    .unwrap();
    assert_eq!(context.payload.get_text("reference_mode"), Some("none"));
    assert_eq!(context.payload.get_text("generation_contract"), Some("contract-1"));
    let failed = context_for_generation(
        ReferenceMode::Configured,
        "root",
        ResolvedReferences::Failed,
        false,
        "contract-1",
    );
    assert_eq!(
        failed.unwrap_err().failure_code.as_deref(),
        Some("reference_context_invalid")
    );
    let args = daily_arguments(context.vault_context, "D.md", Some("digest"));
    assert_eq!(args.vault_context.get_text("daily_note"), Some("D.md"));
    assert_eq!(args.mode, "daily-consolidation");
    assert_eq!(
        manual_only_content(&texts(&["m"])).to_text(),
        "{\"manual_entry_ids\":[\"m\"],\"open_questions\":[],\"schema_version\":1,\"workstreams\":[]}"
    );
}

#[test]
fn the_scheduler_prepares_days_that_are_due_and_not_empty() {
    let now = Moment { seconds: 100, nanos: 0 };
    let later = Moment { seconds: 101, nanos: 0 };
    match start_round(false, None, true) {
        ScheduleAction::ReadClock => {}
        other => panic!("{other:?}"),
    }
    match after_clock(Ok(ScheduleClock { today: 10, hour: 6, minute: 0 }), 2) {
        ScheduleAction::LookAt(1) => {}
        other => panic!("{other:?}"),
    }
    match after_clock(Err(ApiError::internal("no clock")), 2) {
        ScheduleAction::Fail(error) => assert_eq!(error.message, "no clock"),
        other => panic!("{other:?}"),
    }
    match after_due(1, 2, &later, &now) {
        ScheduleAction::LookAt(2) => {}
        other => panic!("{other:?}"),
    }
    match after_due(1, 2, &now, &now) {
        ScheduleAction::Inspect(1) => {}
        other => panic!("{other:?}"),
    }
    match after_look(1, 2, false, false) {
        ScheduleAction::LookAt(2) => {}
        other => panic!("{other:?}"),
    }
    match after_look(2, 2, true, false) {
        ScheduleAction::Enqueue(2) => {}
        other => panic!("{other:?}"),
    }
    match after_claim(2, 2, Claim::Claimed, false) {
        ScheduleAction::Generate(2) => {}
        other => panic!("{other:?}"),
    }
    match after_claim(2, 2, Claim::Refused, false) {
        ScheduleAction::Stop => {}
        other => panic!("{other:?}"),
    }
    match after_claim(2, 2, Claim::Untokened, false) {
        ScheduleAction::Fail(error) => assert_eq!(error.status, 500),
        other => panic!("{other:?}"),
    }
    match after_run(2, Some(&ApiError::unprocessable("no model"))) {
        ScheduleAction::Finish { days_ago: 2, error } => {
            assert_eq!(error.as_deref(), Some("no model"))
        }
        other => panic!("{other:?}"),
    }
}

#[test]
fn the_scheduler_waits_while_a_draft_is_prepared() {
    match start_round(true, None, true) {
        ScheduleAction::Stop => {}
        other => panic!("{other:?}"),
    }
    match start_round(false, Some(ApiError::conflict("set up")), true) {
        ScheduleAction::Stop => {}
        other => panic!("{other:?}"),
    }
    match start_round(false, Some(ApiError::internal("disk")), true) {
        ScheduleAction::Fail(error) => assert_eq!(error.message, "disk"),
        other => panic!("{other:?}"),
    }
    match start_round(false, None, false) {
        ScheduleAction::Stop => {}
        other => panic!("{other:?}"),
    }
}

fn day_of(year: i32, month: u32, day: u32) -> i32 {
    NaiveDate::from_ymd_opt(year, month, day).unwrap().num_days_from_ce()
}

#[test]
fn the_clock_of_the_schedule_is_that_of_the_workspace() {
    // 2026-07-15T23:30:00Z
    let now = Moment { seconds: 1784158200, nanos: 0 };
    let clock = schedule_clock(&now, "UTC", "06:30").unwrap();
    assert_eq!(clock, ScheduleClock { today: day_of(2026, 7, 15), hour: 6, minute: 30 });
    assert_eq!(
        schedule_clock(&now, "Europe/Lisbon", "06:30").unwrap().today,
        day_of(2026, 7, 16)
    );
    assert_eq!(
        schedule_clock(&now, "America/New_York", "23:59").unwrap(),
        ScheduleClock { today: day_of(2026, 7, 15), hour: 23, minute: 59 }
    );
    let scheduled = clock.scheduled_day(1).unwrap();
    assert_eq!(scheduled.day, day_of(2026, 7, 14));
    assert_eq!(scheduled.due_day, day_of(2026, 7, 15));
    let refused = |timezone: &str, time: &str| {
        let error = schedule_clock(&now, timezone, time).unwrap_err();
        (error.status, error.message)
    };
    let zone = (500, "saved workspace timezone is invalid".to_owned());
    let time = (500, "saved generation time is invalid".to_owned());
    assert_eq!(refused("Nowhere", "06:30"), zone);
    assert_eq!(refused("Nowhere", "later"), zone);
    assert_eq!(refused("UTC", "25:00"), time);
    assert_eq!(clock_of(None, None).unwrap_err().message, zone.1);
    assert_eq!(clock_of(Some(1), None).unwrap_err().message, time.1);
    assert_eq!(clock_of(Some(1), Some((2, 3))).unwrap().minute, 3);
}

#[test]
fn the_schedule_keeps_within_the_calendar() {
    assert_eq!(FIRST_DAY, NaiveDate::MIN.num_days_from_ce());
    assert_eq!(LAST_DAY, NaiveDate::MAX.num_days_from_ce());
    let at = |today: i32, days_ago: u16| {
        let clock = ScheduleClock { today, hour: 0, minute: 0 };
        clock.scheduled_day(days_ago)
    };
    assert_eq!(at(FIRST_DAY + 1, 1).unwrap().day, FIRST_DAY);
    assert_eq!(
        at(FIRST_DAY, 1).unwrap_err().message,
        "catch-up date is outside the supported range"
    );
    assert_eq!(at(LAST_DAY, 1).unwrap().due_day, LAST_DAY);
    assert_eq!(at(LAST_DAY, 0).unwrap_err().message, "scheduled date has no following day");
}

#[test]
fn the_overview_counts_from_today_in_the_workspace() {
    // 2026-07-15T23:30:00Z
    let now = Moment { seconds: 1784158200, nanos: 0 };
    let today = overview_today(&now, "Asia/Tokyo").unwrap();
    assert_eq!(today, day_of(2026, 7, 16));
    assert_eq!(overview_days(today, 3), [today, today - 1, today - 2]);
    let error = overview_today(&now, "Mars/Base").unwrap_err();
    assert_eq!(
        (error.status, error.message.as_str()),
        (500, "the saved workspace timezone is invalid")
    );
    assert_eq!(today_or_error(Some(4)).unwrap(), 4);
    assert!(today_or_error(None).is_err());
    assert_eq!(example_day(&now, "UTC").unwrap(), day_of(2026, 7, 15));
    let error = example_day(&now, "").unwrap_err();
    assert_eq!((error.status, error.message.as_str()), (400, "timezone must be a valid IANA name"));
}

#[test]
fn cancellations_reach_only_the_attempt_that_runs_and_is_not_saving() {
    let active = Some("a".to_owned());
    assert!(accepts_cancel("a", &active, false, "requesting_model"));
    assert!(!accepts_cancel("a", &active, false, "saving"));
    assert!(!accepts_cancel("b", &active, false, "requesting_model"));
    assert!(!accepts_cancel("a", &active, true, "requesting_model"));
    assert!(!accepts_cancel("a", &None, false, "requesting_model"));
}

#[test]
fn kept_errors_are_short_and_say_what_to_do() {
    assert_eq!(bounded_schedule_error(" \u{7} "), "Daily generation failed");
    assert_eq!(bounded_schedule_error("a\u{7}b\n"), "a b\n");
    assert_eq!(bounded_schedule_error(&"x".repeat(600)).len(), 512);
    assert!(bounded_schedule_error(
        "LLM daily draft did not match the structured schema: missing field"
    )
    .starts_with("The local model returned an invalid Daily draft."));
    assert_eq!(
        generation_error("Generation canceled.").failure_code.as_deref(),
        Some("canceled")
    );
    assert_eq!(
        generation_error("Generation timed out.").failure_code.as_deref(),
        Some("timed_out")
    );
    assert_eq!(
        generation_error("database_busy").failure_code.as_deref(),
        Some("database_busy")
    );
    assert_eq!(generation_error("x").failure_code.as_deref(), Some("model_failed"));
    assert_eq!(finish_attempt(None).state, "succeeded");
}

#[test]
fn the_payload_without_references_names_the_workspace() {
    let payload = without_references_payload("root");
    assert_eq!(payload.get_text("root_binding"), Some("root"));
    assert_eq!(payload.get_text("resolver_version"), Some("none"));
}

#[test]
fn a_candidate_of_the_same_manual_notes_is_kept() {
    let mut current = candidate(true);
    current.snapshot = SnapshotFacts::Absent;
    let mut of_the_day = inputs(Some(current));
    of_the_day.event_ids = Vec::new();
    of_the_day.manual_entry_ids = texts(&["manual_1"]);
    match prepare_generation(&of_the_day) {
        Preparation::KeepCurrent => {}
        other => panic!("{other:?}"),
    }
    of_the_day.manual_entry_ids = texts(&["manual_1", "manual_2"]);
    match prepare_generation(&of_the_day) {
        Preparation::SaveManualOnly { freeze_without_references: false } => {}
        other => panic!("{other:?}"),
    }
    let only = |stored: &str, ids: &[&str]| {
        has_only_manual_notes(&parse_json(stored).unwrap(), &texts(ids))
    };
    let whole = r#"{"schema_version":1,"open_questions":[],"workstreams":[],"manual_entry_ids":["m"]}"#;
    assert!(only(whole, &["m"]));
    assert!(!only(whole, &["n"]));
    assert!(!only(whole, &[]));
    assert!(!only(
        r#"{"schema_version":1,"workstreams":[],"manual_entry_ids":["m"]}"#,
        &["m"]
    ));
    assert!(!only(
        r#"{"schema_version":1,"workstreams":[],"manual_entry_ids":["m"],"open_questions":[],"more":1}"#,
        &["m"]
    ));
    assert!(!only(
        r#"{"schema_version":1.0,"workstreams":[],"manual_entry_ids":["m"],"open_questions":[]}"#,
        &["m"]
    ));
    assert!(!only(
        r#"{"schema_version":1,"workstreams":[1],"manual_entry_ids":["m"],"open_questions":[]}"#,
        &["m"]
    ));
    assert!(!only("[]", &["m"]));
}
