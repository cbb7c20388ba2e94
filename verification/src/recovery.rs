//! Recovering an Apply that was interrupted.
use crate::apply::{
    ApplyOperation, file_block_hash, file_holds_intended, file_is_original, file_view,
    holds_intended, is_original, optional_is, states_to_written, written_states,
};
use crate::daily_writer::{block_hash, managed_block_hash};
use crate::digest::{digest, sha256_hex};
use crate::errors::text2;
use crate::text::{opt_text, str_eq, views};
use vstd::prelude::*;
use vstd::string::*;

verus! {

/// How an interrupted write goes on.
#[derive(Debug, Clone, Copy, PartialEq, Eq, Structural)]
pub enum ResumeFrom {
    /// The temporary file holds the approved content: put it in place.
    CommitTemporary,
    /// The temporary file holds something else: remove it and write again.
    ReplaceTemporary,
    /// There is no temporary file: write again.
    Rewrite,
}

/// What recovery is to do next.
#[derive(Debug)]
pub enum RecoveryDecision {
    /// Give up; the journal stays as it is.
    Fail(String),
    /// The target holds the approved content: remove a leftover temporary
    /// file, make the directory durable, move the journal through `states`
    /// and finalize.
    Confirm { remove_temporary: bool, states: Vec<String> },
    /// Move the journal to `reconciliation_required`, for a reason.
    Reconcile(String),
    /// Move the journal to `writing` if it is not there, and go on writing.
    Resume { mark_writing: bool, from: ResumeFrom },
}

pub enum RecoveryView {
    Fail(Seq<char>),
    Confirm { remove_temporary: bool, states: Seq<Seq<char>> },
    Reconcile(Seq<char>),
    Resume { mark_writing: bool, from: ResumeFrom },
}

impl View for RecoveryDecision {
    type V = RecoveryView;

    open spec fn view(&self) -> RecoveryView {
        match self {
            RecoveryDecision::Fail(error) => RecoveryView::Fail(error@),
            RecoveryDecision::Confirm { remove_temporary, states } => RecoveryView::Confirm {
                remove_temporary: *remove_temporary,
                states: views(states@),
            },
            RecoveryDecision::Reconcile(reason) => RecoveryView::Reconcile(reason@),
            RecoveryDecision::Resume { mark_writing, from } => RecoveryView::Resume {
                mark_writing: *mark_writing,
                from: *from,
            },
        }
    }
}

/// What a journal lacks that recovery needs.
pub open spec fn journal_gap(op: ApplyOperation) -> Option<Seq<char>> {
    if op.expected_target_exists is None {
        Some("Apply journal lacks target existence identity"@)
    } else if op.expected_original_content_hash is None {
        Some("Apply journal lacks original content identity"@)
    } else if op.intended_updated_content_hash is None {
        Some("Apply journal lacks updated content identity"@)
    } else if op.temporary_name is None {
        Some("Apply journal lacks temporary file identity"@)
    } else {
        None
    }
}

/// What to do about the files that an interrupted Apply left.
pub open spec fn recovery_decision(
    op: ApplyOperation,
    block_id: Seq<char>,
    current: Option<Seq<u8>>,
    temporary: Option<Seq<u8>>,
) -> RecoveryView {
    let found = file_block_hash(current, block_id);
    if journal_gap(op) is Some {
        RecoveryView::Fail(journal_gap(op)->0)
    } else if found is Err {
        RecoveryView::Fail(found->Err_0)
    } else if holds_intended(current, found->Ok_0, op) {
        RecoveryView::Confirm {
            remove_temporary: temporary is Some,
            states: states_to_written(op.state@),
        }
    } else if !is_original(current, op) || op.state@ == "written"@ {
        RecoveryView::Reconcile(
            "startup recovery found a Daily target that differs from its exact journal identity"@,
        )
    } else {
        RecoveryView::Resume {
            mark_writing: op.state@ == "prepared"@,
            from: match temporary {
                None => ResumeFrom::Rewrite,
                Some(bytes) => if opt_text(op.intended_updated_content_hash) == Some(
                    sha256_hex(bytes),
                ) {
                    ResumeFrom::CommitTemporary
                } else {
                    ResumeFrom::ReplaceTemporary
                },
            },
        }
    }
}

/// Whether the journal holds what recovery needs.
pub fn check_journal(op: &ApplyOperation) -> (r: Result<(), String>)
    ensures
        match journal_gap(*op) {
            Some(gap) => r is Err && r->Err_0@ == gap,
            None => r is Ok,
        },
{
    if op.expected_target_exists.is_none() {
        return Err("Apply journal lacks target existence identity".to_owned());
    }
    if op.expected_original_content_hash.is_none() {
        return Err("Apply journal lacks original content identity".to_owned());
    }
    if op.intended_updated_content_hash.is_none() {
        return Err("Apply journal lacks updated content identity".to_owned());
    }
    if op.temporary_name.is_none() {
        return Err("Apply journal lacks temporary file identity".to_owned());
    }
    Ok(())
}

/// Decides on the files that an interrupted Apply left.
pub fn recover_daily_apply(
    op: &ApplyOperation,
    block_id: &str,
    current: Option<&Vec<u8>>,
    temporary: Option<&Vec<u8>>,
) -> (r: RecoveryDecision)
    ensures
        r@ == recovery_decision(*op, block_id@, file_view(current), file_view(temporary)),
{
    if let Err(gap) = check_journal(op) {
        return RecoveryDecision::Fail(gap);
    }
    let found: Option<String> = match current {
        Some(bytes) => match managed_block_hash(bytes.as_slice(), block_id) {
            Ok(found) => found,
            Err(error) => {
                return RecoveryDecision::Fail(error);
            },
        },
        None => None,
    };
    let state: &str = op.state.as_str();
    if file_holds_intended(current, &found, op) {
        return RecoveryDecision::Confirm {
            remove_temporary: temporary.is_some(),
            states: written_states(state),
        };
    }
    if !file_is_original(current, op) || str_eq(state, "written") {
        return RecoveryDecision::Reconcile(
            "startup recovery found a Daily target that differs from its exact journal identity".to_owned(),
        );
    }
    let from: ResumeFrom = match temporary {
        None => ResumeFrom::Rewrite,
        Some(bytes) => {
            if optional_is(
                &op.intended_updated_content_hash,
                digest(bytes.as_slice()).as_str(),
            ) {
                ResumeFrom::CommitTemporary
            } else {
                ResumeFrom::ReplaceTemporary
            }
        },
    };
    RecoveryDecision::Resume { mark_writing: str_eq(state, "prepared"), from }
}

/// Whether content that is planned now is what the journal intends.
pub fn check_resumed_content(op: &ApplyOperation, updated_content: &Vec<u8>) -> (r: Result<
    (),
    String,
>)
    ensures
        opt_text(op.intended_updated_content_hash) == Some(sha256_hex(updated_content@))
            ==> r is Ok,
        opt_text(op.intended_updated_content_hash) != Some(sha256_hex(updated_content@)) ==> r is Err
            && r->Err_0@ == "reviewed Daily content no longer matches the journal"@,
{
    let hash = digest(updated_content.as_slice());
    if optional_is(&op.intended_updated_content_hash, hash.as_str()) {
        Ok(())
    } else {
        Err("reviewed Daily content no longer matches the journal".to_owned())
    }
}

/// The state and the reason that a failed recovery write leaves; nothing where
/// the file was put in place and the directory made durable after all.
pub fn recovery_after_failed_write(rename_completed: bool, synced: bool, error: &str) -> (r: Option<
    (String, String),
>)
    ensures
        rename_completed && synced ==> r is None,
        !(rename_completed && synced) ==> {
            &&& r is Some
            &&& (r->0).0@ == (if rename_completed {
                "reconciliation_required"@
            } else {
                "failed"@
            })
            &&& (r->0).1@ == "startup recovery write failed "@ + error@
        },
{
    if rename_completed && synced {
        return None;
    }
    let state: &str = if rename_completed {
        "reconciliation_required"
    } else {
        "failed"
    };
    Some((state.to_owned(), text2("startup recovery write failed ", error)))
}

/// What to do after a recovery write, once the target was read back.
pub open spec fn recovered_decision(
    op: ApplyOperation,
    block_id: Seq<char>,
    written: Option<Seq<u8>>,
) -> RecoveryView {
    match written {
        None => RecoveryView::Fail("Daily target disappeared after recovery write"@),
        Some(bytes) => match block_hash(bytes, block_id) {
            Err(error) => RecoveryView::Fail(error),
            Ok(found) => if holds_intended(written, found, op) {
                RecoveryView::Confirm { remove_temporary: false, states: seq!["written"@] }
            } else {
                RecoveryView::Reconcile(
                    "startup recovery could not verify the exact approved Daily content"@,
                )
            },
        },
    }
}

/// Decides after a recovery write; `written` is the target, read back.
pub fn recovery_after_write(op: &ApplyOperation, block_id: &str, written: Option<&Vec<u8>>) -> (r:
    RecoveryDecision)
    ensures
        r@ == recovered_decision(*op, block_id@, file_view(written)),
{
    let bytes: &Vec<u8> = match written {
        Some(bytes) => bytes,
        None => {
            return RecoveryDecision::Fail(
                "Daily target disappeared after recovery write".to_owned(),
            );
        },
    };
    match managed_block_hash(bytes.as_slice(), block_id) {
        Err(error) => RecoveryDecision::Fail(error),
        Ok(found) => {
            if file_holds_intended(written, &found, op) {
                let mut states: Vec<String> = Vec::new();
                states.push("written".to_owned());
                assert(views(states@) =~= seq!["written"@]);
                RecoveryDecision::Confirm { remove_temporary: false, states }
            } else {
                RecoveryDecision::Reconcile(
                    "startup recovery could not verify the exact approved Daily content".to_owned(),
                )
            }
        },
    }
}

/// Why an Apply whose file is written needs reconciliation.
pub fn finalization_failure(error: &str) -> (r: String)
    ensures
        r@ == "Daily file is written but finalization failed: "@ + error@,
{
    text2("Daily file is written but finalization failed: ", error)
}

} // verus!
