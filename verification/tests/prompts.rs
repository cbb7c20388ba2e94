//! What a model is asked for a day.
use log_inbox::consolidation::{
    check_snapshot, configured_daily_prompt, consolidation_arguments, existing_proposal,
    migrate_prompt_preference, next_job_action, proposal_for_job, superseded_proposals, DailyConsolidationJob,
    JobAction, JobEvent, DEFAULT_DAILY_CONSOLIDATION_PROMPT,
};
use log_inbox::json::parse_json;
use log_inbox::prompt::{default_mode, SuggestMarkdownSummaryArgs};
use log_inbox::proposals::fallback_proposal;
use log_inbox::proposal_inbox::PendingProposal;

fn pairs(items: &[(&str, &str)]) -> Vec<(String, String)> {
    items.iter().map(|(key, value)| (key.to_string(), value.to_string())).collect()
}

fn pending(id: &str, target: &str, job: Option<&str>, evidence: &[&str]) -> PendingProposal {
    PendingProposal {
        filename: format!("x-{id}.md"),
        proposal_id: id.to_owned(),
        created_at: String::new(),
        target_note: target.to_owned(),
        confidence: String::new(),
        provider: String::new(),
        evidence_event_ids: evidence.iter().map(|id| id.to_string()).collect(),
        canonical_links: Vec::new(),
        link_candidates: Vec::new(),
        supersedes_proposal_ids: Vec::new(),
        consolidation_job_id: job.map(|id| id.to_owned()),
        markdown: String::new(),
        link_context_revision: String::new(),
        stale: false,
    }
}

fn job() -> DailyConsolidationJob {
    DailyConsolidationJob {
        id: "job_1".to_owned(),
        target_note: "Daily".to_owned(),
        event_count: 2,
    }
}

#[test]
fn uses_saved_prompt_before_legacy_or_default_values() {
    let preferences = pairs(&[
        ("daily_consolidation_prompt", " Current prompt "),
        ("consolidation_instructions", "Legacy prompt"),
    ]);

    assert_eq!(configured_daily_prompt(&preferences), "Current prompt");
}

#[test]
fn migrates_legacy_prompt_and_defaults_when_empty() {
    let legacy = pairs(&[("consolidation_instructions", "Legacy prompt")]);
    assert!(configured_daily_prompt(&legacy).starts_with(DEFAULT_DAILY_CONSOLIDATION_PROMPT));
    assert!(configured_daily_prompt(&legacy).ends_with("Additional preferences:\nLegacy prompt"));
    assert_eq!(configured_daily_prompt(&Vec::new()), DEFAULT_DAILY_CONSOLIDATION_PROMPT);
}

#[test]
fn the_prompt_is_saved_once() {
    let legacy = pairs(&[("consolidation_instructions", "Legacy prompt")]);
    let saved = migrate_prompt_preference(&legacy).unwrap();
    let mut after = legacy;
    after.push(("daily_consolidation_prompt".to_owned(), saved.clone()));
    assert_eq!(migrate_prompt_preference(&after), None);
    assert_eq!(configured_daily_prompt(&after), saved);
}

#[test]
fn a_job_supersedes_proposals_whose_evidence_it_has() {
    let proposals = vec![
        pending("proposal_a", "Daily", None, &["one"]),
        pending("proposal_b", "Other", None, &["one"]),
        pending("proposal_c", "Daily", Some("job_1"), &["one"]),
        pending("proposal_d", "Daily", None, &[]),
        pending("proposal_e", "Daily", None, &["one", "late"]),
    ];
    let ids = vec!["one".to_owned(), "two".to_owned()];
    assert_eq!(superseded_proposals(&proposals, &job(), &ids), ["proposal_a"]);
    assert_eq!(existing_proposal(&proposals, &job()), Some("proposal_c".to_owned()));
    assert_eq!(existing_proposal(&Vec::new(), &job()), None);
}

#[test]
fn a_job_needs_all_its_events_and_a_record_of_the_vault() {
    assert!(check_snapshot(&job(), 2).is_ok());
    assert_eq!(
        check_snapshot(&job(), 1).unwrap_err(),
        "consolidation snapshot expected 2 events but loaded 1"
    );
    let args = consolidation_arguments(
        parse_json("{\"daily_note\":\"Other\",\"x\":1}").unwrap(),
        &job(),
        &pairs(&[("daily_consolidation_prompt", "Ask")]),
    )
    .unwrap();
    assert_eq!(args.vault_context.to_text(), "{\"daily_note\":\"Daily\",\"x\":1}");
    assert_eq!(args.mode, "daily-consolidation");
    assert_eq!(args.task, Some("Ask".to_owned()));
    assert_eq!(
        consolidation_arguments(parse_json("[]").unwrap(), &job(), &Vec::new()).unwrap_err(),
        "vault context must be a JSON object"
    );
}

#[test]
fn a_canceled_job_leaves_no_proposal() {
    assert_eq!(
        next_job_action(JobEvent::Staged { proposal_id: "proposal_a".to_owned(), canceled: true }),
        JobAction::Finish {
            status: "cancelled".to_owned(),
            proposal_id: None,
            error: None,
            discard: Some("proposal_a".to_owned()),
        }
    );
    assert_eq!(
        next_job_action(JobEvent::Summarized { canceled: false }),
        JobAction::Stage
    );
    assert_eq!(next_job_action(JobEvent::Waited { canceled: false }), JobAction::Wait);
    assert_eq!(
        next_job_action(JobEvent::Staged { proposal_id: "proposal_a".to_owned(), canceled: false }),
        JobAction::Mark { proposal_id: "proposal_a".to_owned() }
    );
    assert_eq!(
        next_job_action(JobEvent::MarkFailed {
            proposal_id: "proposal_a".to_owned(),
            error: "busy".to_owned()
        }),
        JobAction::Fail { error: "busy".to_owned(), discard: "proposal_a".to_owned() }
    );
    assert_eq!(
        next_job_action(JobEvent::Marked { proposal_id: "proposal_a".to_owned() }),
        JobAction::Finish {
            status: "completed".to_owned(),
            proposal_id: Some("proposal_a".to_owned()),
            error: None,
            discard: None,
        }
    );
    assert_eq!(
        next_job_action(JobEvent::Failed { error: "no model".to_owned(), canceled: false }),
        JobAction::Finish {
            status: "failed".to_owned(),
            proposal_id: None,
            error: Some("no model".to_owned()),
            discard: None,
        }
    );
}

#[test]
fn the_proposal_of_a_job_says_what_it_supersedes() {
    let args = SuggestMarkdownSummaryArgs {
        vault_context: parse_json("{}").unwrap(),
        mode: default_mode(),
        task: None,
    };
    let proposal = fallback_proposal(&args, &Vec::new(), "not_configured", "No model.");
    assert_eq!(args.mode, "daily-note");
    assert!(proposal.markdown.contains("- Review 0 log events manually. No model."));
    assert!(proposal.requires_review);
    let staged = proposal_for_job(proposal, &job(), vec!["proposal_a".to_owned()]);
    assert_eq!(staged.supersedes_proposal_ids, ["proposal_a"]);
    assert_eq!(staged.consolidation_job_id.as_deref(), Some("job_1"));
}
