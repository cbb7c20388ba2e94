//! Requests that save mappings, collections and settings.
use crate::curation::KnowledgeNoteOption;
use crate::errors::{
    ApiError, bad_request_of, conflict_of, not_found_of, text2, text3, unprocessable_of,
};
use crate::json::{Json, JsonView, empty_record, json_of_text, put};
use crate::models::{ContextMapping, IgnoredContextIdentity, Moment};
use crate::snapshot::{selector_list, selectors_json};
use crate::text::{lowercase, lowercased, str_eq, trim, trimmed};
use vstd::prelude::*;
use vstd::string::*;

verus! {

/// An identity that is not to be shown for review: its field, its value, and
/// the value as it is compared.
pub fn ignored_identity(field: &str, value: &str) -> (r: (String, String, String))
    ensures
        r.0@ == lowercased(trimmed(field@)),
        r.1@ == trimmed(value@),
        r.2@ == lowercased(trimmed(value@)),
{
    let value = trim(value);
    (lowercase(trim(field).as_str()), value.as_str().to_owned(), lowercase(value.as_str()))
}

/// The note of a mapping that is to be saved: its path where it is one of the
/// notes that may be linked, with the field as it is kept.
pub fn reviewed_mapping_target(field: &str, note: Result<Option<&KnowledgeNoteOption>, String>) -> (r:
    Result<(String, String), ApiError>)
    ensures
        match note {
            Err(_) => r is Err && r->Err_0@ == unprocessable_of(
                "Knowledge note could not be validated"@,
            ),
            Ok(None) => r is Err && r->Err_0@ == conflict_of(
                "Choose an existing note from an enabled Knowledge collection"@,
            ),
            Ok(Some(note)) => r is Ok && (r->Ok_0).0@ == lowercased(trimmed(field@)) && (
            r->Ok_0).1@ == note.path@,
        },
{
    match note {
        Err(_) => Err(ApiError::unprocessable("Knowledge note could not be validated")),
        Ok(None) => Err(
            ApiError::conflict("Choose an existing note from an enabled Knowledge collection"),
        ),
        Ok(Some(note)) => Ok((lowercase(trim(field).as_str()), note.path.as_str().to_owned())),
    }
}

/// Whether a record may be created or changed with what is expected of its
/// last change: a new record expects nothing, and a change does.
pub fn check_expected_change(what: &str, creates: bool, has_expectation: bool) -> (r: Result<
    (),
    ApiError,
>)
    ensures
        r is Err == (creates == has_expectation),
        creates && r is Err ==> r->Err_0@ == bad_request_of(
            "a new "@ + what@ + " cannot have an expected timestamp"@,
        ),
        !creates && r is Err ==> r->Err_0@ == bad_request_of(
            what@ + " update requires its expected timestamp"@,
        ),
{
    if creates && has_expectation {
        Err(
            ApiError::bad_request(
                text3("a new ", what, " cannot have an expected timestamp").as_str(),
            ),
        )
    } else if !creates && !has_expectation {
        Err(
            ApiError::bad_request(
                text2(what, " update requires its expected timestamp").as_str(),
            ),
        )
    } else {
        Ok(())
    }
}

/// Whether a collection is the one that was reviewed.
pub fn check_reviewed_collection(preview_digest: &str, reviewed_digest: &str) -> (r: Result<
    (),
    ApiError,
>)
    ensures
        r is Ok == (preview_digest@ == reviewed_digest@),
        r is Err ==> r->Err_0@ == conflict_of(
            "Knowledge collection differs from the reviewed preview"@,
        ),
{
    if str_eq(preview_digest, reviewed_digest) {
        Ok(())
    } else {
        Err(ApiError::conflict("Knowledge collection differs from the reviewed preview"))
    }
}

/// What is shown of a mapping.
pub open spec fn shown_mapping(m: ContextMapping, created_at: Seq<char>, updated_at: Seq<char>) -> JsonView {
    JsonView::Record(
        Map::<Seq<char>, JsonView>::empty().insert("id"@, JsonView::Text(m.id@)).insert(
            "selectors"@,
            JsonView::List(selector_list(m.selectors@)),
        ).insert("canonical_note_path"@, JsonView::Text(m.canonical_note_path@)).insert(
            "enabled"@,
            JsonView::Bool(m.enabled),
        ).insert("created_at"@, JsonView::Text(created_at)).insert(
            "updated_at"@,
            JsonView::Text(updated_at),
        ).insert("imported"@, JsonView::Bool(m.source_identity is Some)),
    )
}

pub fn public_context_mapping(mapping: &ContextMapping, created_at: &str, updated_at: &str) -> (r: Json)
    ensures
        r@ == shown_mapping(*mapping, created_at@, updated_at@),
{
    let mut fields = empty_record();
    put(&mut fields, "id", json_of_text(mapping.id.as_str()));
    put(&mut fields, "selectors", selectors_json(&mapping.selectors));
    put(&mut fields, "canonical_note_path", json_of_text(mapping.canonical_note_path.as_str()));
    put(&mut fields, "enabled", Json::Bool(mapping.enabled));
    put(&mut fields, "created_at", json_of_text(created_at));
    put(&mut fields, "updated_at", json_of_text(updated_at));
    put(&mut fields, "imported", Json::Bool(mapping.source_identity.is_some()));
    Json::Record(fields)
}

/// What is shown of an ignored identity.
pub open spec fn ignored_record(
    id: Seq<char>,
    value: Seq<char>,
    identity: IgnoredContextIdentity,
    created_at: Seq<char>,
    imported: bool,
) -> JsonView {
    JsonView::Record(
        Map::<Seq<char>, JsonView>::empty().insert("id"@, JsonView::Text(id)).insert(
            "field"@,
            JsonView::Text(identity.field@),
        ).insert("value"@, JsonView::Text(value)).insert(
            "normalized_value"@,
            JsonView::Text(identity.normalized_value@),
        ).insert("created_at"@, JsonView::Text(created_at)).insert(
            "imported"@,
            JsonView::Bool(imported),
        ),
    )
}

pub fn public_ignored_context_identity(
    id: &str,
    value: &str,
    identity: &IgnoredContextIdentity,
    created_at: &str,
    imported: bool,
) -> (r: Json)
    ensures
        r@ == ignored_record(id@, value@, *identity, created_at@, imported),
{
    let mut fields = empty_record();
    put(&mut fields, "id", json_of_text(id));
    put(&mut fields, "field", json_of_text(identity.field.as_str()));
    put(&mut fields, "value", json_of_text(value));
    put(&mut fields, "normalized_value", json_of_text(identity.normalized_value.as_str()));
    put(&mut fields, "created_at", json_of_text(created_at));
    put(&mut fields, "imported", Json::Bool(imported));
    Json::Record(fields)
}

/// Settings that were never saved were last changed in 1970.
pub fn settings_are_saved(updated_at: &Moment) -> (r: bool)
    ensures
        r == !(updated_at.seconds == 0 && updated_at.nanos == 0),
{
    !(updated_at.seconds == 0 && updated_at.nanos == 0)
}

/// Whether an hour has passed since old records were last removed.
pub fn retention_is_due(last: Option<Moment>, now: &Moment) -> (r: bool)
    ensures
        r == match last {
            Some(last) => now.seconds - last.seconds > 3600 || (now.seconds - last.seconds == 3600
                && now.nanos >= last.nanos),
            None => true,
        },
{
    match last {
        Some(last) => {
            let passed: i128 = now.seconds as i128 - last.seconds as i128;
            passed > 3600 || (passed == 3600 && now.nanos >= last.nanos)
        },
        None => true,
    }
}

/// Whether a comparison is the one that a decision speaks of.
pub fn check_comparison_choice(
    comparison: Option<(&str, &str, i32)>,
    id: &str,
    workspace_id: &str,
    date: i32,
) -> (r: Result<(), ApiError>)
    ensures
        r is Ok == match comparison {
            Some(c) => c.0@ == id@ && c.1@ == workspace_id@ && c.2 == date,
            None => false,
        },
        r is Err ==> r->Err_0@ == not_found_of("Daily context comparison was not found"@),
{
    let found = match comparison {
        Some((own_id, own_workspace, own_date)) => str_eq(own_id, id) && str_eq(
            own_workspace,
            workspace_id,
        ) && own_date == date,
        None => false,
    };
    if found {
        Ok(())
    } else {
        Err(ApiError::not_found("Daily context comparison was not found"))
    }
}

} // verus!
