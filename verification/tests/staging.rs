//! Staging groups of events that have gone quiet.
use log_inbox::auto_stage::{
    group_events_for_staging, ready_groups, staging_arguments, staging_group_key, AutoStageConfig,
};
use log_inbox::json::{json_of_number, parse_json, Json};
use log_inbox::models::{Moment, StoredLogEvent};

fn event(id: &str, metadata: Vec<(String, Json)>) -> StoredLogEvent {
    StoredLogEvent {
        id: id.to_owned(),
        received_at: Moment { seconds: 1_788_948_000, nanos: 0 },
        timestamp: Moment { seconds: 1_788_948_000, nanos: 0 },
        source: "codex/test".to_owned(),
        level: "info".to_owned(),
        message: "activity".to_owned(),
        metadata,
        fingerprint: None,
        truncated: false,
        reviewed: false,
    }
}

fn task(id: &str, sequence: u64) -> StoredLogEvent {
    event(
        id,
        vec![
            ("task_id".to_owned(), Json::Text("task_1".to_owned())),
            ("sequence".to_owned(), json_of_number(sequence)),
        ],
    )
}

#[test]
fn groups_task_events_without_merging_unrelated_events() {
    let events = [task("evt_2", 2), task("evt_1", 1), event("evt_3", Vec::new())];
    let groups = group_events_for_staging(&events.iter().collect());

    assert_eq!(groups.len(), 2);
    let group = |key: &str| groups.iter().find(|group| group.key == key).unwrap();
    assert_eq!(group("task_id:task_1").events.len(), 2);
    assert_eq!(group("task_id:task_1").events[0].id, "evt_1");
    assert_eq!(group("event:evt_3").events.len(), 1);
}

#[test]
fn every_event_is_in_the_group_of_its_key_and_in_no_other() {
    let mut printed = event("evt_4", Vec::new());
    printed.fingerprint = Some("f".to_owned());
    let session =
        event("evt_5", vec![("session_id".to_owned(), Json::Text("s".to_owned()))]);
    assert_eq!(staging_group_key(&printed), "fingerprint:f");
    assert_eq!(staging_group_key(&session), "session_id:s");
    let events = [task("evt_1", 1), printed, session, event("evt_6", Vec::new())];
    let groups = group_events_for_staging(&events.iter().collect());
    let keys: Vec<&str> = groups.iter().map(|group| group.key.as_str()).collect();
    assert_eq!(keys, ["event:evt_6", "fingerprint:f", "session_id:s", "task_id:task_1"]);
    for group in &groups {
        assert_eq!(group.events.len(), 1);
        assert_eq!(staging_group_key(group.events[0]), group.key);
    }
}

#[test]
fn sequences_may_be_negative_and_events_without_one_go_by_time() {
    let mut first = task("evt_1", 0);
    first.metadata[1].1 = parse_json("-3").unwrap();
    let second = task("evt_2", 1);
    let events = [second, first];
    assert_eq!(group_events_for_staging(&events.iter().collect())[0].events[0].id, "evt_1");
    let mut late = event("evt_4", vec![("task_id".to_owned(), Json::Text("t".to_owned()))]);
    late.timestamp = Moment { seconds: 1_788_948_001, nanos: 0 };
    let early = event("evt_3", vec![("task_id".to_owned(), Json::Text("t".to_owned()))]);
    let events = [late, early];
    assert_eq!(group_events_for_staging(&events.iter().collect())[0].events[0].id, "evt_3");
}

#[test]
fn only_quiet_groups_are_ready() {
    let config = AutoStageConfig { interval_seconds: 60, quiet_seconds: 30, batch_size: 100 };
    let events = [event("evt_1", Vec::new())];
    let at = |seconds: i64, nanos: u32| {
        let now = Moment { seconds: 1_788_948_000 + seconds, nanos };
        ready_groups(&config, &events.iter().collect(), &now).len()
    };
    assert_eq!(at(29, 999_999_999), 0);
    assert_eq!(at(30, 0), 1);
}

#[test]
fn staging_is_off_without_an_interval_and_its_settings_are_bounded() {
    assert_eq!(AutoStageConfig::from_values(None, None, None), None);
    assert_eq!(AutoStageConfig::from_values(Some("0"), None, None), None);
    assert_eq!(
        AutoStageConfig::from_values(Some("60"), Some("-5"), Some("1000")),
        Some(AutoStageConfig { interval_seconds: 60, quiet_seconds: -5, batch_size: 500 })
    );
    assert_eq!(
        AutoStageConfig::from_values(Some("60"), Some("x"), Some("0")),
        Some(AutoStageConfig { interval_seconds: 60, quiet_seconds: 30, batch_size: 1 })
    );
    let lowest = AutoStageConfig::from_values(Some("1"), Some("-9223372036854775808"), None);
    assert_eq!(lowest.unwrap().quiet_seconds, i64::MIN);
    let below = AutoStageConfig::from_values(Some("1"), Some("-9223372036854775809"), None);
    assert_eq!(below.unwrap().quiet_seconds, 30);
    let odd = AutoStageConfig::from_values(Some("1"), Some("-+5"), None);
    assert_eq!(odd.unwrap().quiet_seconds, 30);
}

#[test]
fn a_group_is_summarized_for_the_note_of_its_day() {
    let mut noted =
        event("evt_1", vec![("canonical_note".to_owned(), Json::Text("Portal".to_owned()))]);
    noted.timestamp = Moment { seconds: 1_788_948_000 + 86_400, nanos: 0 };
    let events = [noted, event("evt_2", Vec::new())];
    let args = staging_arguments(&events.iter().collect());
    assert_eq!(
        args.vault_context.to_text(),
        "{\"candidate_notes\":[\"Portal\"],\"daily_note\":\"Daily log Sep 10\"}"
    );
    assert_eq!(args.mode, "daily-note");
    assert!(args.task.unwrap().starts_with("Consolidate this completed activity group"));
}
