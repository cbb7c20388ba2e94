//! What every Apply keeps to.
use crate::apply::{
    ApplyDailyRequest, ApplyOperation, DailyApplyMaterial, DecisionView, apply_identity,
    approves_material, approves_operation, destination_decision, failed_write_decision,
    file_block_hash, holds_intended, is_original, start_error, states_to_written,
    target_decision, written_decision,
};
use crate::apply_material::{ApplyInputs, apply_material, without};
use crate::daily_laws::{can_be_read_back, law_applied_block_is_read_back};
use crate::daily_writer::{block_hash, block_plan};
use crate::digest::{sha256_hex, text_digest};
use crate::recovery::{RecoveryView, ResumeFrom, recovered_decision, recovery_decision};
use crate::text::{finishes_with, free_of, opt_text, views};
use vstd::prelude::*;
use vstd::string::*;
use vstd::utf8::*;

verus! {

/// The target is written only while it is exactly what it was when the owner
/// approved the Apply.
pub proof fn law_only_the_approved_target_is_written(
    op: ApplyOperation,
    block_id: Seq<char>,
    target: Option<Seq<u8>>,
)
    requires
        target_decision(op, block_id, target) is Write,
    ensures
        is_original(target, op),
        op.state@ == "prepared"@ || op.state@ == "writing"@,
{
}

/// A target that changed after approval is not overwritten: the Apply ends in
/// reconciliation.
pub proof fn law_changed_target_is_not_overwritten(
    op: ApplyOperation,
    block_id: Seq<char>,
    target: Option<Seq<u8>>,
)
    requires
        op.state@ == "prepared"@ || op.state@ == "writing"@,
        !is_original(target, op),
        file_block_hash(target, block_id) is Ok,
        !holds_intended(target, file_block_hash(target, block_id)->Ok_0, op),
    ensures
        ({
            let decision = target_decision(op, block_id, target);
            decision is Reject || (decision is Refuse && decision->state
                == "reconciliation_required"@)
        }),
{
}

proof fn lemma_states_differ()
    ensures
        "prepared"@ != "writing"@,
        "prepared"@ != "written"@,
        "writing"@ != "written"@,
{
    reveal_strlit("prepared");
    reveal_strlit("writing");
    reveal_strlit("written");
    assert("writing"@[4] == 'i');
    assert("written"@[4] == 't');
}

/// An Apply in progress is finalized only when the target holds exactly the
/// approved content, with the approved block in it.
pub proof fn law_finalized_content_is_approved(
    op: ApplyOperation,
    block_id: Seq<char>,
    file: Option<Seq<u8>>,
    temporary: Option<Seq<u8>>,
)
    requires
        op.state@ == "prepared"@ || op.state@ == "writing"@ || op.state@ == "written"@,
    ensures
        target_decision(op, block_id, file) is Finalize || written_decision(
            op,
            block_id,
            file,
        ) is Finalize || recovery_decision(op, block_id, file, temporary) is Confirm
            || recovered_decision(op, block_id, file) is Confirm ==> file is Some && opt_text(
            op.intended_updated_content_hash,
        ) == Some(sha256_hex(file->0)) && block_hash(file->0, block_id) == Ok::<
            Option<Seq<char>>,
            Seq<char>,
        >(Some(op.intended_new_block_hash@)),
{
}

/// The moves that the journal allows.
pub open spec fn journal_allows(from: Seq<char>, to: Seq<char>) -> bool {
    ||| from == "prepared"@ && to == "writing"@
    ||| from == "writing"@ && to == "written"@
    ||| (from == "prepared"@ || from == "writing"@ || from == "written"@) && (to
        == "reconciliation_required"@ || to == "failed"@)
}

/// Whether the journal may pass through `states`, one after the other.
pub open spec fn journal_path(from: Seq<char>, states: Seq<Seq<char>>) -> bool
    decreases states.len(),
{
    if states.len() == 0 {
        true
    } else {
        journal_allows(from, states[0]) && journal_path(states[0], states.drop_first())
    }
}

/// Where the journal stands after it passed through `states`.
pub open spec fn journal_end(from: Seq<char>, states: Seq<Seq<char>>) -> Seq<char> {
    if states.len() == 0 {
        from
    } else {
        states.last()
    }
}

/// Every decision on an Apply in progress moves the journal by allowed moves
/// only, and finalizes only from `written`.
pub proof fn law_journal_moves_are_allowed(
    op: ApplyOperation,
    block_id: Seq<char>,
    file: Option<Seq<u8>>,
    temporary: Option<Seq<u8>>,
    error: Seq<char>,
)
    requires
        op.state@ == "prepared"@ || op.state@ == "writing"@ || op.state@ == "written"@,
    ensures
        match target_decision(op, block_id, file) {
            DecisionView::Reject(_) => true,
            DecisionView::Refuse { state, .. } => journal_allows(op.state@, state),
            DecisionView::Finalize { states } => journal_path(op.state@, states) && journal_end(
                op.state@,
                states,
            ) == "written"@,
            DecisionView::Write { mark_writing } => if mark_writing {
                journal_allows(op.state@, "writing"@)
            } else {
                op.state@ == "writing"@
            },
        },
        match recovery_decision(op, block_id, file, temporary) {
            RecoveryView::Fail(_) => true,
            RecoveryView::Reconcile(_) => journal_allows(op.state@, "reconciliation_required"@),
            RecoveryView::Confirm { states, .. } => journal_path(op.state@, states) && journal_end(
                op.state@,
                states,
            ) == "written"@,
            RecoveryView::Resume { mark_writing, .. } => if mark_writing {
                journal_allows(op.state@, "writing"@)
            } else {
                op.state@ == "writing"@
            },
        },
        journal_allows("writing"@, failed_write_decision(op, error, file)->state),
        written_decision(op, block_id, file) is Finalize ==> journal_path(
            "writing"@,
            written_decision(op, block_id, file)->states,
        ),
{
    lemma_states_differ();
    reveal_with_fuel(journal_path, 3);
    let path = states_to_written(op.state@);
    if path.len() == 2 {
        assert(path.drop_first() =~= seq!["written"@]);
        assert(path.drop_first().drop_first() =~= Seq::<Seq<char>>::empty());
    } else if path.len() == 1 {
        assert(path.drop_first() =~= Seq::<Seq<char>>::empty());
    }
    assert(seq!["written"@].drop_first() =~= Seq::<Seq<char>>::empty());
}

/// A plan that was written as it is, is found to be what was approved: the
/// Apply is finalized, and so is one that was interrupted after writing.
pub proof fn law_written_plan_is_finalized(
    op: ApplyOperation,
    current: Seq<u8>,
    id: Seq<char>,
    markdown: Seq<char>,
    title: Seq<char>,
)
    requires
        block_plan(current, id, markdown, title) is Ok,
        can_be_read_back(decode_utf8(current), id, markdown, title),
        opt_text(op.intended_updated_content_hash) == Some(
            text_digest(block_plan(current, id, markdown, title)->Ok_0.updated),
        ),
        op.intended_new_block_hash@ == text_digest(
            block_plan(current, id, markdown, title)->Ok_0.next_block,
        ),
    ensures
        ({
            let written = Some(encode_utf8(block_plan(current, id, markdown, title)->Ok_0.updated));
            &&& written_decision(op, id, written) == DecisionView::Finalize {
                states: seq!["written"@],
            }
            &&& recovered_decision(op, id, written) == RecoveryView::Confirm {
                remove_temporary: false,
                states: seq!["written"@],
            }
            &&& op.expected_target_exists is Some && op.expected_original_content_hash is Some
                ==> target_decision(op, id, written) == DecisionView::Finalize {
                states: states_to_written(op.state@),
            }
        }),
{
    law_applied_block_is_read_back(current, id, markdown, title);
}

/// An Apply that may be prepared uses the current candidate, and no evidence
/// or note that is newer than it.
pub proof fn law_applied_candidate_is_current(inputs: ApplyInputs)
    requires
        apply_material(inputs) is Ok,
    ensures
        inputs.day is Some && inputs.revision is Some,
        opt_text(inputs.day->0.current_revision_id) == Some(inputs.revision->0.id@),
        !inputs.live_truncated,
        forall|e: Seq<char>|
            #[trigger] views(inputs.live_event_ids@).contains(e) ==> views(
                inputs.snapshot_event_ids@,
            ).contains(e) || views(inputs.deferred_event_ids@).contains(e),
{
    let live = views(inputs.live_event_ids@);
    let deferred = views(inputs.deferred_event_ids@);
    let snapshot = views(inputs.snapshot_event_ids@);
    let kept = without(live, deferred);
    assert forall|e: Seq<char>| #[trigger] live.contains(e) implies snapshot.contains(e)
        || deferred.contains(e) by {
        if !deferred.contains(e) {
            lemma_without(live, deferred, e);
            let i = choose|i: int| 0 <= i < kept.len() && kept[i] == e;
            assert(snapshot.contains(kept[i]));
        }
    }
}

proof fn lemma_without(texts: Seq<Seq<char>>, taken: Seq<Seq<char>>, e: Seq<char>)
    requires
        texts.contains(e),
        !taken.contains(e),
    ensures
        without(texts, taken).contains(e),
    decreases texts.len(),
{
    let k = choose|k: int| 0 <= k < texts.len() && texts[k] == e;
    let init = texts.drop_last();
    if texts.last() == e {
        let r = without(texts, taken);
        assert(r[r.len() - 1] == e);
    } else {
        assert(init[k] == e);
        lemma_without(init, taken, e);
        let before = without(init, taken);
        let i = choose|i: int| 0 <= i < before.len() && before[i] == e;
        if !taken.contains(texts.last()) {
            assert(without(texts, taken)[i] == e);
        }
    }
}

/// Whether a target is the one that the owner approved an Apply for: it is there
/// or not as it was, with the bytes that it had; one that is not there has none.
pub open spec fn target_as_approved(op: ApplyOperation, target: Option<Seq<u8>>) -> bool {
    match target {
        Some(bytes) => op.expected_target_exists == Some(true) && opt_text(
            op.expected_original_content_hash,
        ) == Some(sha256_hex(bytes)),
        None => op.expected_target_exists == Some(false) && opt_text(
            op.expected_original_content_hash,
        ) == Some(sha256_hex(Seq::empty())),
    }
}

/// Whether a target holds what an Apply is to write, with its block.
pub open spec fn target_as_intended(
    op: ApplyOperation,
    block_id: Seq<char>,
    target: Option<Seq<u8>>,
) -> bool {
    match target {
        Some(bytes) => opt_text(op.intended_updated_content_hash) == Some(sha256_hex(bytes))
            && block_hash(bytes, block_id) == Ok::<Option<Seq<char>>, Seq<char>>(
            Some(op.intended_new_block_hash@),
        ),
        None => false,
    }
}

/// Whether the block of a target can be read; where there is no target there is
/// none to read.
pub open spec fn block_is_readable(block_id: Seq<char>, target: Option<Seq<u8>>) -> bool {
    match target {
        Some(bytes) => block_hash(bytes, block_id) is Ok,
        None => true,
    }
}

/// Whether the journal of an Apply says exactly which files it is about.
pub open spec fn has_file_identity(op: ApplyOperation) -> bool {
    &&& op.expected_target_exists is Some
    &&& op.expected_original_content_hash is Some
    &&& op.intended_updated_content_hash is Some
}

/// A target that is as the owner approved it is written, a new note as well as
/// one that is there; the journal moves to `writing` first if it is not there
/// yet.
pub proof fn law_approved_target_is_written(
    op: ApplyOperation,
    block_id: Seq<char>,
    target: Option<Seq<u8>>,
)
    requires
        has_file_identity(op),
        op.state@ == "prepared"@ || op.state@ == "writing"@,
        block_is_readable(block_id, target),
        !target_as_intended(op, block_id, target),
        target_as_approved(op, target),
    ensures
        target_decision(op, block_id, target) == (DecisionView::Write {
            mark_writing: op.state@ == "prepared"@,
        }),
{
}

/// Whatever is not written over is told apart: a target is written only as it
/// was approved, and one that holds the approved content already is not written
/// again.
pub proof fn law_other_targets_are_not_written(
    op: ApplyOperation,
    block_id: Seq<char>,
    target: Option<Seq<u8>>,
)
    requires
        target_decision(op, block_id, target) is Write,
    ensures
        has_file_identity(op),
        target_as_approved(op, target),
        !target_as_intended(op, block_id, target),
        op.state@ == "prepared"@ || op.state@ == "writing"@,
        target_decision(op, block_id, target)->mark_writing == (op.state@ == "prepared"@),
{
}

/// A target that holds the approved content is finalized without being written
/// again, and the journal passes every state that it still lacks.
pub proof fn law_intended_target_is_finalized(
    op: ApplyOperation,
    block_id: Seq<char>,
    target: Option<Seq<u8>>,
)
    requires
        has_file_identity(op),
        target_as_intended(op, block_id, target),
    ensures
        target_decision(op, block_id, target) == (DecisionView::Finalize {
            states: if op.state@ == "prepared"@ {
                seq!["writing"@, "written"@]
            } else if op.state@ == "writing"@ {
                seq!["written"@]
            } else {
                Seq::empty()
            },
        }),
{
}

/// An Apply whose target is neither as it was approved nor as it is to be ends in
/// reconciliation, and so does one whose written target changed; the owner's
/// content stays.
pub proof fn law_unknown_target_is_left_to_the_owner(
    op: ApplyOperation,
    block_id: Seq<char>,
    target: Option<Seq<u8>>,
)
    requires
        has_file_identity(op),
        block_is_readable(block_id, target),
        !target_as_intended(op, block_id, target),
        (op.state@ == "prepared"@ || op.state@ == "writing"@) && !target_as_approved(op, target)
            || op.state@ == "written"@,
    ensures
        target_decision(op, block_id, target) is Refuse,
        target_decision(op, block_id, target)->state == "reconciliation_required"@,
        target_decision(op, block_id, target)->Refuse_error.status == 409,
{
    lemma_states_differ();
}

/// Without exact identity of the files, or where the block cannot be read, an
/// Apply is rejected and nothing is written or recorded.
pub proof fn law_apply_without_identity_is_rejected(
    op: ApplyOperation,
    block_id: Seq<char>,
    target: Option<Seq<u8>>,
)
    requires
        !has_file_identity(op) || !block_is_readable(block_id, target),
    ensures
        target_decision(op, block_id, target) is Reject,
        target_decision(op, block_id, target)->Reject_0.status == 409,
{
}

/// What is read back after a write decides: the approved content is finalized,
/// anything else is not.
pub proof fn law_write_is_finalized_by_what_is_read_back(
    op: ApplyOperation,
    block_id: Seq<char>,
    written: Option<Seq<u8>>,
)
    ensures
        target_as_intended(op, block_id, written) ==> written_decision(op, block_id, written) == (
        DecisionView::Finalize { states: seq!["written"@] }),
        target_as_intended(op, block_id, written) ==> recovered_decision(op, block_id, written) == (
        RecoveryView::Confirm { remove_temporary: false, states: seq!["written"@] }),
        written is Some && block_is_readable(block_id, written) && !target_as_intended(
            op,
            block_id,
            written,
        ) ==> {
            &&& written_decision(op, block_id, written) is Refuse
            &&& written_decision(op, block_id, written)->state == "reconciliation_required"@
            &&& recovered_decision(op, block_id, written) is Reconcile
        },
        written is None || !block_is_readable(block_id, written) ==> {
            &&& written_decision(op, block_id, written) is Reject
            &&& recovered_decision(op, block_id, written) is Fail
        },
{
}

/// A write that failed leaves the Apply failed only where the target is certain
/// to be as it was; in every other case the owner has to look.
pub proof fn law_failed_write_tells_what_became_of_the_target(
    op: ApplyOperation,
    error: Seq<char>,
    after: Option<Seq<u8>>,
)
    ensures
        ({
            let replaced = match after {
                Some(bytes) => opt_text(op.intended_updated_content_hash) == Some(
                    sha256_hex(bytes),
                ),
                None => false,
            };
            let decision = failed_write_decision(op, error, after);
            &&& decision is Refuse
            &&& decision->state == "failed"@ <==> target_as_approved(op, after) && !replaced
            &&& decision->state == "reconciliation_required"@ <==> !target_as_approved(op, after)
                || replaced
            &&& finishes_with(decision->reason, error)
            &&& decision->Refuse_error.status == 500
            &&& decision->Refuse_error.message == decision->reason
        }),
{
    reveal_strlit("failed");
    reveal_strlit("reconciliation_required");
    assert("failed"@.len() != "reconciliation_required"@.len());
    let reason = failed_write_decision(op, error, after)->reason;
    assert(reason.skip(reason.len() - error.len()) =~= error);
}

/// A destination that resolves elsewhere just before writing is not written.
pub proof fn law_moved_destination_is_not_written(unchanged: bool)
    ensures
        destination_decision(unchanged) is Write <==> unchanged,
        !unchanged ==> destination_decision(unchanged) is Refuse && destination_decision(
            unchanged,
        )->state == "reconciliation_required"@,
{
}

/// An Apply that failed or waits for the owner does not go on, and says why; any
/// other does.
pub proof fn law_apply_that_needs_attention_stops(op: ApplyOperation)
    ensures
        start_error(op) is Some <==> op.state@ == "failed"@ || op.state@
            == "reconciliation_required"@,
        start_error(op) is Some ==> start_error(op)->0.status == 409,
        start_error(op) is Some && op.failure_reason is Some ==> finishes_with(
            start_error(op)->0.message,
            op.failure_reason->0@,
        ),
{
    if start_error(op) is Some && op.failure_reason is Some {
        let message = start_error(op)->0.message;
        let reason = op.failure_reason->0@;
        assert(message.skip(message.len() - reason.len()) =~= reason);
    }
}

/// Recovery of an interrupted Apply confirms a target that holds the approved
/// content, and removes a temporary file that was left.
pub proof fn law_recovery_confirms_what_was_written(
    op: ApplyOperation,
    block_id: Seq<char>,
    current: Option<Seq<u8>>,
    temporary: Option<Seq<u8>>,
)
    requires
        has_file_identity(op),
        op.temporary_name is Some,
        target_as_intended(op, block_id, current),
    ensures
        recovery_decision(op, block_id, current, temporary) == (RecoveryView::Confirm {
            remove_temporary: temporary is Some,
            states: if op.state@ == "prepared"@ {
                seq!["writing"@, "written"@]
            } else if op.state@ == "writing"@ {
                seq!["written"@]
            } else {
                Seq::empty()
            },
        }),
{
}

/// Recovery goes on with a target that is as it was approved: with the temporary
/// file where it holds the approved content, and by writing anew where it holds
/// anything else or is not there.
pub proof fn law_recovery_resumes_an_approved_target(
    op: ApplyOperation,
    block_id: Seq<char>,
    current: Option<Seq<u8>>,
    temporary: Option<Seq<u8>>,
)
    requires
        has_file_identity(op),
        op.temporary_name is Some,
        block_is_readable(block_id, current),
        !target_as_intended(op, block_id, current),
        target_as_approved(op, current),
        op.state@ != "written"@,
    ensures
        recovery_decision(op, block_id, current, temporary) is Resume,
        recovery_decision(op, block_id, current, temporary)->mark_writing == (op.state@
            == "prepared"@),
        temporary is None <==> recovery_decision(op, block_id, current, temporary)->from
            == ResumeFrom::Rewrite,
        temporary is Some && opt_text(op.intended_updated_content_hash) == Some(
            sha256_hex(temporary->0),
        ) <==> recovery_decision(op, block_id, current, temporary)->from
            == ResumeFrom::CommitTemporary,
{
}

/// Recovery touches no target that it does not know: one that is neither as
/// approved nor as intended, or that changed after it was written, waits for the
/// owner; and a journal with gaps is left as it is.
pub proof fn law_recovery_leaves_an_unknown_target(
    op: ApplyOperation,
    block_id: Seq<char>,
    current: Option<Seq<u8>>,
    temporary: Option<Seq<u8>>,
)
    ensures
        has_file_identity(op) && op.temporary_name is Some && block_is_readable(block_id, current)
            && !target_as_intended(op, block_id, current) && (!target_as_approved(op, current)
            || op.state@ == "written"@) ==> recovery_decision(op, block_id, current, temporary)
            is Reconcile,
        !has_file_identity(op) || op.temporary_name is None || !block_is_readable(
            block_id,
            current,
        ) <==> recovery_decision(op, block_id, current, temporary) is Fail,
{
}

/// An approval fits a journaled Apply only if it agrees with it in every point;
/// and then it fits.
pub proof fn law_approval_agrees_in_every_point(op: ApplyOperation, input: ApplyDailyRequest)
    ensures
        approves_operation(op, input) <==> {
            &&& input.expected_revision_id@ == op.revision_id@
            &&& input.expected_revision_content_hash@ == op.revision_content_hash@
            &&& input.destination_path@ == op.destination_path@
            &&& opt_text(input.expected_old_block_hash) == opt_text(op.expected_old_block_hash)
            &&& input.intended_new_block_hash@ == op.intended_new_block_hash@
            &&& op.expected_target_exists == Some(input.expected_target_exists)
            &&& opt_text(op.expected_original_content_hash) == Some(
                input.expected_original_content_hash@,
            )
            &&& opt_text(op.intended_updated_content_hash) == Some(
                input.expected_updated_content_hash@,
            )
        },
{
}

/// What an Apply would write now is what was approved only if the revision, the
/// destination, the block, the note before and the note after are.
pub proof fn law_approved_preview_is_the_one_applied(
    material: DailyApplyMaterial,
    input: ApplyDailyRequest,
)
    ensures
        approves_material(material, input) <==> {
            &&& input.expected_revision_id@ == material.revision_id@
            &&& input.expected_revision_content_hash@ == material.revision_content_hash@
            &&& input.destination_path@ == material.destination_path@
            &&& input.intended_new_block_hash@ == material.plan.intended_new_block_hash@
            &&& input.expected_target_exists == material.target_exists
            &&& input.expected_original_content_hash@ == sha256_hex(material.original_content@)
            &&& input.expected_updated_content_hash@ == sha256_hex(
                material.plan.updated_content@,
            )
        },
{
}

proof fn lemma_ended_part(a: Seq<char>, b: Seq<char>, x: Seq<char>, y: Seq<char>)
    requires
        free_of(a, '\0'),
        free_of(b, '\0'),
        a.push('\0') + x == b.push('\0') + y,
    ensures
        a == b,
        x == y,
{
    let p = a.push('\0') + x;
    let q = b.push('\0') + y;
    assert(p[a.len() as int] == '\0');
    assert(q[b.len() as int] == '\0');
    if a.len() < b.len() {
        assert(q[a.len() as int] == b[a.len() as int]);
    } else if b.len() < a.len() {
        assert(p[b.len() as int] == a[b.len() as int]);
    }
    assert(a =~= p.take(a.len() as int));
    assert(b =~= q.take(b.len() as int));
    assert(x =~= p.skip(a.len() as int + 1));
    assert(y =~= q.skip(b.len() as int + 1));
}

/// Whether no part of an approval holds the character that ends the parts.
pub open spec fn has_plain_parts(
    workspace_id: Seq<char>,
    local_date: Seq<char>,
    input: ApplyDailyRequest,
) -> bool {
    &&& free_of(workspace_id, '\0')
    &&& free_of(local_date, '\0')
    &&& free_of(input.expected_revision_id@, '\0')
    &&& free_of(input.expected_revision_content_hash@, '\0')
    &&& free_of(input.destination_path@, '\0')
    &&& free_of(input.intended_new_block_hash@, '\0')
    &&& free_of(input.expected_original_content_hash@, '\0')
}

/// An Apply is known by its workspace, its day and all that was approved: two
/// that differ in any of these have different identities.
#[verifier::rlimit(40)]
pub proof fn law_different_approvals_are_different_applies(
    workspace_id: Seq<char>,
    other_workspace_id: Seq<char>,
    local_date: Seq<char>,
    other_local_date: Seq<char>,
    a: ApplyDailyRequest,
    b: ApplyDailyRequest,
)
    requires
        has_plain_parts(workspace_id, local_date, a),
        has_plain_parts(other_workspace_id, other_local_date, b),
        apply_identity(workspace_id, local_date, a) == apply_identity(
            other_workspace_id,
            other_local_date,
            b,
        ),
    ensures
        workspace_id == other_workspace_id,
        local_date == other_local_date,
        a.expected_revision_id@ == b.expected_revision_id@,
        a.expected_revision_content_hash@ == b.expected_revision_content_hash@,
        a.destination_path@ == b.destination_path@,
        a.intended_new_block_hash@ == b.intended_new_block_hash@,
        a.expected_target_exists == b.expected_target_exists,
        a.expected_original_content_hash@ == b.expected_original_content_hash@,
        a.expected_updated_content_hash@ == b.expected_updated_content_hash@,
{
    reveal_strlit("true");
    reveal_strlit("false");
    let end = '\0';
    let a8 = a.expected_updated_content_hash@;
    let b8 = b.expected_updated_content_hash@;
    let a7 = a.expected_original_content_hash@.push(end) + a8;
    let b7 = b.expected_original_content_hash@.push(end) + b8;
    let ta = if a.expected_target_exists { "true"@ } else { "false"@ };
    let tb = if b.expected_target_exists { "true"@ } else { "false"@ };
    assert(free_of(ta, end) && free_of(tb, end));
    let a6 = ta.push(end) + a7;
    let b6 = tb.push(end) + b7;
    let a5 = a.intended_new_block_hash@.push(end) + a6;
    let b5 = b.intended_new_block_hash@.push(end) + b6;
    let a4 = a.destination_path@.push(end) + a5;
    let b4 = b.destination_path@.push(end) + b5;
    let a3 = a.expected_revision_content_hash@.push(end) + a4;
    let b3 = b.expected_revision_content_hash@.push(end) + b4;
    let a2 = a.expected_revision_id@.push(end) + a3;
    let b2 = b.expected_revision_id@.push(end) + b3;
    let a1 = local_date.push(end) + a2;
    let b1 = other_local_date.push(end) + b2;
    assert(apply_identity(workspace_id, local_date, a) =~= workspace_id.push(end) + a1);
    assert(apply_identity(other_workspace_id, other_local_date, b) =~= other_workspace_id.push(end)
        + b1);
    lemma_ended_part(workspace_id, other_workspace_id, a1, b1);
    lemma_ended_part(local_date, other_local_date, a2, b2);
    lemma_ended_part(a.expected_revision_id@, b.expected_revision_id@, a3, b3);
    lemma_ended_part(a.expected_revision_content_hash@, b.expected_revision_content_hash@, a4, b4);
    lemma_ended_part(a.destination_path@, b.destination_path@, a5, b5);
    lemma_ended_part(a.intended_new_block_hash@, b.intended_new_block_hash@, a6, b6);
    lemma_ended_part(ta, tb, a7, b7);
    assert("true"@.len() != "false"@.len());
    lemma_ended_part(
        a.expected_original_content_hash@,
        b.expected_original_content_hash@,
        a8,
        b8,
    );
}

} // verus!
