//! Applying a reviewed Daily: what the journal and the target file allow.
use crate::daily_writer::{ManagedBlockPlan, block_hash, managed_block_hash};
use crate::digest::{digest, digest_of_text, sha256_hex, text_digest};
use crate::errors::{ApiError, ErrorView, checks, conflict_of, internal_of, text2};
use crate::text::{opt_text, str_eq, views};
use vstd::prelude::*;
use vstd::string::*;
use vstd::utf8::*;

verus! {

/// An Apply as the journal keeps it.
#[derive(Debug, Clone, PartialEq, Eq)]
pub struct ApplyOperation {
    pub id: String,
    pub workspace_id: String,
    pub local_date: String,
    pub state: String,
    pub revision_id: String,
    pub revision_content_hash: String,
    pub destination_path: String,
    pub expected_old_block_hash: Option<String>,
    pub intended_new_block_hash: String,
    pub expected_target_exists: Option<bool>,
    pub expected_original_content_hash: Option<String>,
    pub intended_updated_content_hash: Option<String>,
    pub temporary_name: Option<String>,
    pub failure_reason: Option<String>,
}

/// What the owner approved in a preview.
#[derive(Debug, Clone, PartialEq, Eq)]
pub struct ApplyDailyRequest {
    pub expected_revision_id: String,
    pub expected_revision_content_hash: String,
    pub destination_path: String,
    pub expected_old_block_hash: Option<String>,
    pub intended_new_block_hash: String,
    pub expected_target_exists: bool,
    pub expected_original_content_hash: String,
    pub expected_updated_content_hash: String,
}

/// What is to be done next.
#[derive(Debug)]
pub enum ApplyDecision {
    /// End with an error; the journal stays as it is.
    Reject(ApiError),
    /// Move the journal to `state`, for a reason, and end with an error.
    Refuse { state: String, reason: String, error: ApiError },
    /// Move the journal through `states`, then finalize.
    Finalize { states: Vec<String> },
    /// Move the journal to `writing` if it is not there, then write the target.
    Write { mark_writing: bool },
}

pub enum DecisionView {
    Reject(ErrorView),
    Refuse { state: Seq<char>, reason: Seq<char>, error: ErrorView },
    Finalize { states: Seq<Seq<char>> },
    Write { mark_writing: bool },
}

impl View for ApplyDecision {
    type V = DecisionView;

    open spec fn view(&self) -> DecisionView {
        match self {
            ApplyDecision::Reject(error) => DecisionView::Reject(error@),
            ApplyDecision::Refuse { state, reason, error } => DecisionView::Refuse {
                state: state@,
                reason: reason@,
                error: error@,
            },
            ApplyDecision::Finalize { states } => DecisionView::Finalize {
                states: views(states@),
            },
            ApplyDecision::Write { mark_writing } => DecisionView::Write {
                mark_writing: *mark_writing,
            },
        }
    }
}

pub open spec fn needs_attention(state: Seq<char>) -> bool {
    state == "failed"@ || state == "reconciliation_required"@
}

/// Why an Apply cannot go on, before its target is read.
pub open spec fn start_error(op: ApplyOperation) -> Option<ErrorView> {
    if needs_attention(op.state@) {
        Some(
            conflict_of(
                "Apply operation requires attention: "@ + match opt_text(op.failure_reason) {
                    Some(reason) => reason,
                    None => op.state@,
                },
            ),
        )
    } else {
        None
    }
}

/// The states that the journal still passes before it is finalized.
pub open spec fn states_to_written(state: Seq<char>) -> Seq<Seq<char>> {
    if state == "prepared"@ {
        seq!["writing"@, "written"@]
    } else if state == "writing"@ {
        seq!["written"@]
    } else {
        Seq::empty()
    }
}

/// The bytes of a file; none where it is not there.
pub open spec fn bytes_of(file: Option<Seq<u8>>) -> Seq<u8> {
    match file {
        Some(bytes) => bytes,
        None => Seq::empty(),
    }
}

/// Whether a file is there, with that digest, and its block has that digest.
pub open spec fn holds_intended(
    file: Option<Seq<u8>>,
    block_hash: Option<Seq<char>>,
    op: ApplyOperation,
) -> bool {
    &&& file is Some
    &&& opt_text(op.intended_updated_content_hash) == Some(sha256_hex(bytes_of(file)))
    &&& block_hash == Some(op.intended_new_block_hash@)
}

/// Whether a file is what it was when the Apply was approved.
pub open spec fn is_original(file: Option<Seq<u8>>, op: ApplyOperation) -> bool {
    &&& op.expected_target_exists == Some(file is Some)
    &&& opt_text(op.expected_original_content_hash) == Some(sha256_hex(bytes_of(file)))
}

/// The digest of a file's block; a file that is not there has none.
pub open spec fn file_block_hash(file: Option<Seq<u8>>, block_id: Seq<char>) -> Result<
    Option<Seq<char>>,
    Seq<char>,
> {
    match file {
        Some(bytes) => block_hash(bytes, block_id),
        None => Ok(None),
    }
}

/// What to do about a target file.
pub open spec fn target_decision(
    op: ApplyOperation,
    block_id: Seq<char>,
    target: Option<Seq<u8>>,
) -> DecisionView {
    let state = op.state@;
    let found = file_block_hash(target, block_id);
    if op.expected_target_exists is None {
        DecisionView::Reject(
            conflict_of(
                "this legacy Apply operation lacks exact file identity and requires reconciliation"@,
            ),
        )
    } else if op.expected_original_content_hash is None || op.intended_updated_content_hash is None {
        DecisionView::Reject(
            conflict_of(
                "this Apply operation has incomplete file identity and requires reconciliation"@,
            ),
        )
    } else if found is Err {
        DecisionView::Reject(conflict_of(found->Err_0))
    } else if holds_intended(target, found->Ok_0, op) {
        DecisionView::Finalize { states: states_to_written(state) }
    } else if state == "prepared"@ || state == "writing"@ {
        if is_original(target, op) {
            DecisionView::Write { mark_writing: state == "prepared"@ }
        } else {
            DecisionView::Refuse {
                state: "reconciliation_required"@,
                reason: "the Daily target changed after approval"@,
                error: conflict_of(
                    "the Daily target changed after approval; no content was overwritten"@,
                ),
            }
        }
    } else if state == "written"@ {
        DecisionView::Refuse {
            state: "reconciliation_required"@,
            reason: "the Daily target changed after it was written"@,
            error: conflict_of("the Daily target changed before database finalization"@),
        }
    } else {
        DecisionView::Finalize { states: Seq::empty() }
    }
}

/// What to do after the destination was resolved again.
pub open spec fn destination_decision(unchanged: bool) -> DecisionView {
    if unchanged {
        DecisionView::Write { mark_writing: false }
    } else {
        DecisionView::Refuse {
            state: "reconciliation_required"@,
            reason: "the resolved Daily destination changed before writing"@,
            error: conflict_of("the resolved Daily destination changed; no content was written"@),
        }
    }
}

/// What to do after a write failed and the target was read again.
pub open spec fn failed_write_decision(
    op: ApplyOperation,
    error: Seq<char>,
    after: Option<Seq<u8>>,
) -> DecisionView {
    let replaced = after is Some && opt_text(op.intended_updated_content_hash) == Some(
        sha256_hex(bytes_of(after)),
    );
    let (state, message) = if replaced {
        (
            "reconciliation_required"@,
            "Daily target was replaced but write durability is uncertain: "@ + error,
        )
    } else if is_original(after, op) {
        ("failed"@, "atomic Daily write failed: "@ + error)
    } else {
        (
            "reconciliation_required"@,
            "Daily target changed during a failed write: "@ + error,
        )
    };
    DecisionView::Refuse { state, reason: message, error: internal_of(message) }
}

/// What to do after a write, once the target was read back.
pub open spec fn written_decision(
    op: ApplyOperation,
    block_id: Seq<char>,
    written: Option<Seq<u8>>,
) -> DecisionView {
    match written {
        None => DecisionView::Reject(
            conflict_of("the Daily target disappeared after writing"@),
        ),
        Some(bytes) => match block_hash(bytes, block_id) {
            Err(error) => DecisionView::Reject(conflict_of(error)),
            Ok(found) => if holds_intended(written, found, op) {
                DecisionView::Finalize { states: seq!["written"@] }
            } else {
                DecisionView::Refuse {
                    state: "reconciliation_required"@,
                    reason: "the written Daily block did not match the approved block"@,
                    error: conflict_of("the written Daily block needs reconciliation"@),
                }
            },
        },
    }
}

pub fn optional_is(o: &Option<String>, text: &str) -> (r: bool)
    ensures
        r == (opt_text(*o) == Some(text@)),
{
    match o {
        Some(s) => str_eq(s.as_str(), text),
        None => false,
    }
}

pub fn same_optional(a: &Option<String>, b: &Option<String>) -> (r: bool)
    ensures
        r == (opt_text(*a) == opt_text(*b)),
{
    match (a, b) {
        (Some(x), Some(y)) => str_eq(x.as_str(), y.as_str()),
        (None, None) => true,
        _ => false,
    }
}

pub open spec fn file_view(file: Option<&Vec<u8>>) -> Option<Seq<u8>> {
    match file {
        Some(bytes) => Some(bytes@),
        None => None,
    }
}

fn file_digest(file: Option<&Vec<u8>>) -> (r: String)
    ensures
        r@ == sha256_hex(bytes_of(file_view(file))),
{
    match file {
        Some(bytes) => digest(bytes.as_slice()),
        None => {
            let empty: Vec<u8> = Vec::new();
            assert(empty@ =~= Seq::<u8>::empty());
            digest(empty.as_slice())
        },
    }
}

pub fn file_holds_intended(
    file: Option<&Vec<u8>>,
    found: &Option<String>,
    op: &ApplyOperation,
) -> (r: bool)
    ensures
        r == holds_intended(file_view(file), opt_text(*found), *op),
{
    let hash = file_digest(file);
    file.is_some() && optional_is(&op.intended_updated_content_hash, hash.as_str()) && optional_is(
        found,
        op.intended_new_block_hash.as_str(),
    )
}

pub fn file_is_original(file: Option<&Vec<u8>>, op: &ApplyOperation) -> (r: bool)
    ensures
        r == is_original(file_view(file), *op),
{
    let hash = file_digest(file);
    let expected = match op.expected_target_exists {
        Some(exists) => exists == file.is_some(),
        None => false,
    };
    expected && optional_is(&op.expected_original_content_hash, hash.as_str())
}

/// Whether an Apply may go on: one that needs attention may not.
pub fn start_apply(op: &ApplyOperation) -> (r: Result<(), ApiError>)
    ensures
        checks(r, start_error(*op)),
{
    if str_eq(op.state.as_str(), "failed") || str_eq(
        op.state.as_str(),
        "reconciliation_required",
    ) {
        let reason: &str = match &op.failure_reason {
            Some(reason) => reason.as_str(),
            None => op.state.as_str(),
        };
        return Err(
            ApiError::conflict(text2("Apply operation requires attention: ", reason).as_str()),
        );
    }
    Ok(())
}

fn refuse(state: &str, reason: &str, error: ApiError) -> (r: ApplyDecision)
    ensures
        r@ == (DecisionView::Refuse { state: state@, reason: reason@, error: error@ }),
{
    ApplyDecision::Refuse { state: state.to_owned(), reason: reason.to_owned(), error }
}

pub fn written_states(state: &str) -> (r: Vec<String>)
    ensures
        views(r@) == states_to_written(state@),
{
    let mut r: Vec<String> = Vec::new();
    if str_eq(state, "prepared") {
        r.push("writing".to_owned());
        r.push("written".to_owned());
    } else if str_eq(state, "writing") {
        r.push("written".to_owned());
    }
    assert(views(r@) =~= states_to_written(state@));
    r
}

/// Decides on the target as it is now: it may hold the approved content
/// already, it may be written, or it changed after approval.
pub fn execute_daily_apply(op: &ApplyOperation, block_id: &str, target: Option<&Vec<u8>>) -> (r:
    ApplyDecision)
    ensures
        r@ == target_decision(*op, block_id@, file_view(target)),
{
    if op.expected_target_exists.is_none() {
        return ApplyDecision::Reject(
            ApiError::conflict(
                "this legacy Apply operation lacks exact file identity and requires reconciliation",
            ),
        );
    }
    if op.expected_original_content_hash.is_none() || op.intended_updated_content_hash.is_none() {
        return ApplyDecision::Reject(
            ApiError::conflict(
                "this Apply operation has incomplete file identity and requires reconciliation",
            ),
        );
    }
    let found: Option<String> = match target {
        Some(bytes) => match managed_block_hash(bytes.as_slice(), block_id) {
            Ok(found) => found,
            Err(error) => {
                return ApplyDecision::Reject(ApiError::conflict(error.as_str()));
            },
        },
        None => None,
    };
    let state: &str = op.state.as_str();
    if file_holds_intended(target, &found, op) {
        return ApplyDecision::Finalize { states: written_states(state) };
    }
    if str_eq(state, "prepared") || str_eq(state, "writing") {
        if file_is_original(target, op) {
            return ApplyDecision::Write { mark_writing: str_eq(state, "prepared") };
        }
        return refuse(
            "reconciliation_required",
            "the Daily target changed after approval",
            ApiError::conflict(
                "the Daily target changed after approval; no content was overwritten",
            ),
        );
    }
    if str_eq(state, "written") {
        return refuse(
            "reconciliation_required",
            "the Daily target changed after it was written",
            ApiError::conflict("the Daily target changed before database finalization"),
        );
    }
    let states: Vec<String> = Vec::new();
    assert(views(states@) =~= Seq::<Seq<char>>::empty());
    ApplyDecision::Finalize { states }
}

/// Decides after the destination was resolved again, just before writing.
pub fn apply_after_resolve(unchanged: bool) -> (r: ApplyDecision)
    ensures
        r@ == destination_decision(unchanged),
{
    if unchanged {
        ApplyDecision::Write { mark_writing: false }
    } else {
        refuse(
            "reconciliation_required",
            "the resolved Daily destination changed before writing",
            ApiError::conflict("the resolved Daily destination changed; no content was written"),
        )
    }
}

/// Decides after a write failed; `after` is the target, read again.
pub fn apply_after_failed_write(op: &ApplyOperation, error: &str, after: Option<&Vec<u8>>) -> (r:
    ApplyDecision)
    ensures
        r@ == failed_write_decision(*op, error@, file_view(after)),
{
    let hash = file_digest(after);
    if after.is_some() && optional_is(&op.intended_updated_content_hash, hash.as_str()) {
        let message = text2(
            "Daily target was replaced but write durability is uncertain: ",
            error,
        );
        refuse(
            "reconciliation_required",
            message.as_str(),
            ApiError::internal(message.as_str()),
        )
    } else if file_is_original(after, op) {
        let message = text2("atomic Daily write failed: ", error);
        refuse("failed", message.as_str(), ApiError::internal(message.as_str()))
    } else {
        let message = text2("Daily target changed during a failed write: ", error);
        refuse(
            "reconciliation_required",
            message.as_str(),
            ApiError::internal(message.as_str()),
        )
    }
}

/// Decides after a write; `written` is the target, read back.
pub fn apply_after_write(op: &ApplyOperation, block_id: &str, written: Option<&Vec<u8>>) -> (r:
    ApplyDecision)
    ensures
        r@ == written_decision(*op, block_id@, file_view(written)),
{
    let bytes: &Vec<u8> = match written {
        Some(bytes) => bytes,
        None => {
            return ApplyDecision::Reject(
                ApiError::conflict("the Daily target disappeared after writing"),
            );
        },
    };
    match managed_block_hash(bytes.as_slice(), block_id) {
        Err(error) => ApplyDecision::Reject(ApiError::conflict(error.as_str())),
        Ok(found) => {
            if file_holds_intended(written, &found, op) {
                let mut states: Vec<String> = Vec::new();
                states.push("written".to_owned());
                assert(views(states@) =~= seq!["written"@]);
                ApplyDecision::Finalize { states }
            } else {
                refuse(
                    "reconciliation_required",
                    "the written Daily block did not match the approved block",
                    ApiError::conflict("the written Daily block needs reconciliation"),
                )
            }
        },
    }
}

pub open spec fn bool_text(b: bool) -> Seq<char> {
    if b {
        "true"@
    } else {
        "false"@
    }
}

/// What an Apply is known by: the workspace, the day and the approval, each
/// behind a null character.
pub open spec fn apply_identity(
    workspace_id: Seq<char>,
    local_date: Seq<char>,
    input: ApplyDailyRequest,
) -> Seq<char> {
    workspace_id.push('\0') + local_date.push('\0') + input.expected_revision_id@.push('\0')
        + input.expected_revision_content_hash@.push('\0') + input.destination_path@.push('\0')
        + input.intended_new_block_hash@.push('\0') + bool_text(
        input.expected_target_exists,
    ).push('\0') + input.expected_original_content_hash@.push('\0')
        + input.expected_updated_content_hash@
}

fn push_ended(out: &mut String, part: &str)
    ensures
        final(out)@ == old(out)@ + part@.push('\0'),
{
    let ghost before = out@;
    out.push_str(part);
    out.push('\0');
    assert(out@ =~= before + part@.push('\0'));
}

/// The ID of an Apply, which the same approval of the same day has again.
pub fn apply_operation_id(workspace_id: &str, local_date: &str, input: &ApplyDailyRequest) -> (r:
    String)
    ensures
        r@ == "apply_"@ + text_digest(apply_identity(workspace_id@, local_date@, *input)),
{
    let mut identity = String::new();
    push_ended(&mut identity, workspace_id);
    assert(identity@ =~= workspace_id@.push('\0'));
    push_ended(&mut identity, local_date);
    push_ended(&mut identity, input.expected_revision_id.as_str());
    push_ended(&mut identity, input.expected_revision_content_hash.as_str());
    push_ended(&mut identity, input.destination_path.as_str());
    push_ended(&mut identity, input.intended_new_block_hash.as_str());
    push_ended(
        &mut identity,
        if input.expected_target_exists {
            "true"
        } else {
            "false"
        },
    );
    push_ended(&mut identity, input.expected_original_content_hash.as_str());
    identity.push_str(input.expected_updated_content_hash.as_str());
    text2("apply_", digest_of_text(identity.as_str()).as_str())
}

/// Whether a journaled Apply is the one that was approved.
pub open spec fn approves_operation(op: ApplyOperation, input: ApplyDailyRequest) -> bool {
    &&& op.revision_id@ == input.expected_revision_id@
    &&& op.revision_content_hash@ == input.expected_revision_content_hash@
    &&& op.destination_path@ == input.destination_path@
    &&& opt_text(op.expected_old_block_hash) == opt_text(input.expected_old_block_hash)
    &&& op.intended_new_block_hash@ == input.intended_new_block_hash@
    &&& op.expected_target_exists == Some(input.expected_target_exists)
    &&& opt_text(op.expected_original_content_hash) == Some(input.expected_original_content_hash@)
    &&& opt_text(op.intended_updated_content_hash) == Some(input.expected_updated_content_hash@)
}

pub fn validate_apply_operation_approval(op: &ApplyOperation, input: &ApplyDailyRequest) -> (r:
    Result<(), ApiError>)
    ensures
        checks(
            r,
            if approves_operation(*op, *input) {
                None
            } else {
                Some(conflict_of("Apply approval differs from the journaled operation"@))
            },
        ),
{
    let same_existence = match op.expected_target_exists {
        Some(exists) => exists == input.expected_target_exists,
        None => false,
    };
    if str_eq(op.revision_id.as_str(), input.expected_revision_id.as_str()) && str_eq(
        op.revision_content_hash.as_str(),
        input.expected_revision_content_hash.as_str(),
    ) && str_eq(op.destination_path.as_str(), input.destination_path.as_str()) && same_optional(
        &op.expected_old_block_hash,
        &input.expected_old_block_hash,
    ) && str_eq(
        op.intended_new_block_hash.as_str(),
        input.intended_new_block_hash.as_str(),
    ) && same_existence && optional_is(
        &op.expected_original_content_hash,
        input.expected_original_content_hash.as_str(),
    ) && optional_is(
        &op.intended_updated_content_hash,
        input.expected_updated_content_hash.as_str(),
    ) {
        Ok(())
    } else {
        Err(ApiError::conflict("Apply approval differs from the journaled operation"))
    }
}

/// What an Apply would write now.
#[derive(Debug)]
pub struct DailyApplyMaterial {
    pub revision_id: String,
    pub revision_content_hash: String,
    pub destination_path: String,
    pub target_exists: bool,
    pub template_used: Option<String>,
    pub original_content: Vec<u8>,
    pub plan: ManagedBlockPlan,
}

/// Whether what an Apply would write now is what was approved.
pub open spec fn approves_material(material: DailyApplyMaterial, input: ApplyDailyRequest) -> bool {
    &&& material.revision_id@ == input.expected_revision_id@
    &&& material.revision_content_hash@ == input.expected_revision_content_hash@
    &&& material.destination_path@ == input.destination_path@
    &&& material.plan.intended_new_block_hash@ == input.intended_new_block_hash@
    &&& material.target_exists == input.expected_target_exists
    &&& sha256_hex(material.original_content@) == input.expected_original_content_hash@
    &&& sha256_hex(material.plan.updated_content@) == input.expected_updated_content_hash@
}

pub fn validate_apply_material_approval(material: &DailyApplyMaterial, input: &ApplyDailyRequest) -> (r:
    Result<(), ApiError>)
    ensures
        checks(
            r,
            if approves_material(*material, *input) {
                None
            } else {
                Some(conflict_of("the approved Daily preview changed; preview Apply again"@))
            },
        ),
{
    let original = digest(material.original_content.as_slice());
    let updated = digest(material.plan.updated_content.as_slice());
    if str_eq(material.revision_id.as_str(), input.expected_revision_id.as_str()) && str_eq(
        material.revision_content_hash.as_str(),
        input.expected_revision_content_hash.as_str(),
    ) && str_eq(material.destination_path.as_str(), input.destination_path.as_str()) && str_eq(
        material.plan.intended_new_block_hash.as_str(),
        input.intended_new_block_hash.as_str(),
    ) && material.target_exists == input.expected_target_exists && str_eq(
        original.as_str(),
        input.expected_original_content_hash.as_str(),
    ) && str_eq(updated.as_str(), input.expected_updated_content_hash.as_str()) {
        Ok(())
    } else {
        Err(ApiError::conflict("the approved Daily preview changed; preview Apply again"))
    }
}

} // verus!
