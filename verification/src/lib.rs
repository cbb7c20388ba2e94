//! Verified core of a local log inbox.
#![allow(unused_imports)]

pub mod activity;
pub mod apply;
pub mod apply_laws;
pub mod apply_material;
pub mod auto_stage;
pub mod candidate;
pub mod candidate_laws;
pub mod catalog;
pub mod clock;
pub mod consolidation;
pub mod content_laws;
pub mod context;
pub mod context_laws;
pub mod context_report;
pub mod curation;
pub mod curation_laws;
pub mod cutover_laws;
pub mod daily_laws;
pub mod daily_writer;
pub mod detail_laws;
pub mod details;
pub mod digest;
pub mod draft_laws;
pub mod drafts;
pub mod errors;
pub mod fact_laws;
pub mod frozen;
pub mod generation;
pub mod grouping_laws;
pub mod history;
pub mod identity;
pub mod identity_laws;
pub mod inbox_laws;
pub mod json;
pub mod knowledge;
pub mod line_laws;
pub mod mapping_requests;
pub mod markdown;
pub mod markdown_laws;
pub mod material_laws;
pub mod migration;
pub mod migration_laws;
pub mod model_call;
pub mod model_laws;
pub mod models;
pub mod note_laws;
pub mod notes;
pub mod observed_laws;
pub mod ordered;
pub mod overview;
pub mod overview_laws;
pub mod preview_laws;
pub mod progress_laws;
pub mod prompt;
pub mod proposal_inbox;
pub mod proposal_laws;
pub mod proposal_notes;
pub mod proposals;
pub mod recovery;
pub mod rendering_laws;
pub mod report_laws;
pub mod request_laws;
pub mod requests;
pub mod resolution;
pub mod resolution_laws;
pub mod review;
pub mod revisions;
pub mod schedule;
pub mod selector_laws;
pub mod settings;
pub mod snapshot;
pub mod snapshot_laws;
pub mod text;
pub mod text_laws;
pub mod vault;
pub mod vault_catalog;
pub mod vault_laws;
pub mod vault_links;
pub mod vault_observed;
pub mod writing_laws;
pub mod yaml;
