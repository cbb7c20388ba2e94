//! Settings of the workspace and of Knowledge collections.
use crate::catalog::MAX_NOTE_BYTES;
use crate::errors::{ApiError, ErrorView, bad_request_of, checks, conflict_of, unprocessable_of};
use crate::json::{
    Json, JsonView, empty_record, json_of_option, json_of_text, json_of_texts,
    optional_text_view, put,
};
use crate::model_call::{strip_slashes, without_slashes};
use crate::snapshot::{json_digest, json_sha, text_list};
use crate::text::{
    byte_len, bytes_in, chars_of, lemma_take_step, opt_text, str_eq, string_of, trim, trimmed,
    views,
};
use vstd::prelude::*;
use vstd::string::*;

verus! {

/// A Knowledge collection as it is asked for.
#[derive(Debug, Clone, PartialEq, Eq)]
pub struct KnowledgeCollectionDraft {
    pub label: String,
    pub purpose: String,
    pub roots: Vec<String>,
    pub exclusions: Vec<String>,
    pub enabled: bool,
}

/// Why a collection is refused for its label or its purpose.
pub open spec fn collection_error(label: Seq<char>, purpose: Seq<char>) -> Option<ErrorView> {
    if trimmed(label).len() == 0 || byte_len(trimmed(label)) > 100 {
        Some(bad_request_of("Knowledge collection label must contain 1-100 bytes"@))
    } else if trimmed(purpose).len() == 0 || byte_len(trimmed(purpose)) > 1000 {
        Some(bad_request_of("Knowledge collection purpose must contain 1-1000 bytes"@))
    } else {
        None
    }
}

/// The label and the purpose of a collection, without white space at the ends.
pub fn check_collection(label: &str, purpose: &str) -> (r: Result<(String, String), ApiError>)
    ensures
        match collection_error(label@, purpose@) {
            Some(error) => r is Err && r->Err_0@ == error,
            None => r is Ok && (r->Ok_0).0@ == trimmed(label@) && (r->Ok_0).1@ == trimmed(
                purpose@,
            ),
        },
{
    let label = trim(label);
    let purpose = trim(purpose);
    if label.as_str().is_empty() || bytes_in(label.as_str()) > 100 {
        return Err(ApiError::bad_request("Knowledge collection label must contain 1-100 bytes"));
    }
    if purpose.as_str().is_empty() || bytes_in(purpose.as_str()) > 1000 {
        return Err(
            ApiError::bad_request("Knowledge collection purpose must contain 1-1000 bytes"),
        );
    }
    Ok((label, purpose))
}

/// The sum of some sizes.
pub open spec fn total(sizes: Seq<u64>) -> nat
    decreases sizes.len(),
{
    if sizes.len() == 0 {
        0
    } else {
        total(sizes.drop_last()) + sizes.last() as nat
    }
}

/// How many sizes are too large for a catalog.
pub open spec fn oversized(sizes: Seq<u64>) -> nat
    decreases sizes.len(),
{
    if sizes.len() == 0 {
        0
    } else {
        oversized(sizes.drop_last()) + if sizes.last() > MAX_NOTE_BYTES {
            1nat
        } else {
            0nat
        }
    }
}

pub open spec fn collection_fields(draft: KnowledgeCollectionDraft) -> JsonView {
    JsonView::Record(
        Map::empty().insert("label"@, JsonView::Text(draft.label@)).insert(
            "purpose"@,
            JsonView::Text(draft.purpose@),
        ).insert("roots"@, text_list(views(draft.roots@))).insert(
            "exclusions"@,
            text_list(views(draft.exclusions@)),
        ).insert("enabled"@, JsonView::Bool(draft.enabled)),
    )
}

/// What is shown of a collection before it is saved.
#[derive(Debug, Clone, PartialEq, Eq)]
pub struct CollectionPreview {
    pub matched_note_count: usize,
    pub eligible_note_count: usize,
    pub oversized_note_count: usize,
    pub total_bytes: u64,
    pub preview_digest: String,
}

pub open spec fn collection_digest(root_binding: Seq<char>, draft: KnowledgeCollectionDraft) -> Seq<
    char,
> {
    json_sha(
        JsonView::Record(
            Map::empty().insert("root_binding"@, JsonView::Text(root_binding)).insert(
                "collection"@,
                collection_fields(draft),
            ),
        ),
    )
}

proof fn lemma_total_grows(sizes: Seq<u64>, n: int)
    requires
        0 <= n <= sizes.len(),
    ensures
        total(sizes.take(n)) <= total(sizes),
    decreases sizes.len() - n,
{
    if n < sizes.len() {
        lemma_take_step(sizes, n);
        lemma_total_grows(sizes, n + 1);
    } else {
        assert(sizes.take(n) =~= sizes);
    }
}

/// A preview of a collection: `sizes` are the sizes of the notes that it
/// selects.
pub fn preview_collection(
    root_binding: &str,
    draft: &KnowledgeCollectionDraft,
    sizes: &Vec<u64>,
) -> (r: Result<CollectionPreview, ApiError>)
    ensures
        total(sizes@) > u64::MAX ==> r is Err && r->Err_0@ == unprocessable_of(
            "Knowledge collection size overflow"@,
        ),
        total(sizes@) <= u64::MAX ==> {
            &&& r is Ok
            &&& (r->Ok_0).matched_note_count == sizes@.len()
            &&& (r->Ok_0).oversized_note_count == oversized(sizes@)
            &&& (r->Ok_0).eligible_note_count == sizes@.len() - oversized(sizes@)
            &&& (r->Ok_0).total_bytes == total(sizes@)
            &&& (r->Ok_0).preview_digest@ == collection_digest(root_binding@, *draft)
        },
{
    let mut sum: u64 = 0;
    let mut large: usize = 0;
    let mut i: usize = 0;
    assert(sizes@.take(0) =~= Seq::<u64>::empty());
    while i < sizes.len()
        invariant
            i <= sizes@.len(),
            large <= i,
            sum == total(sizes@.take(i as int)),
            large == oversized(sizes@.take(i as int)),
        decreases sizes@.len() - i,
    {
        proof {
            lemma_take_step(sizes@, i as int);
            lemma_total_grows(sizes@, i + 1);
        }
        if sizes[i] > u64::MAX - sum {
            return Err(ApiError::unprocessable("Knowledge collection size overflow"));
        }
        sum = sum + sizes[i];
        if sizes[i] > MAX_NOTE_BYTES {
            large += 1;
        }
        i += 1;
    }
    assert(sizes@.take(i as int) =~= sizes@);
    let mut collection = empty_record();
    put(&mut collection, "label", json_of_text(draft.label.as_str()));
    put(&mut collection, "purpose", json_of_text(draft.purpose.as_str()));
    put(&mut collection, "roots", json_of_texts(&draft.roots));
    put(&mut collection, "exclusions", json_of_texts(&draft.exclusions));
    put(&mut collection, "enabled", Json::Bool(draft.enabled));
    let mut fields = empty_record();
    put(&mut fields, "root_binding", json_of_text(root_binding));
    put(&mut fields, "collection", Json::Record(collection));
    let preview_digest = json_digest(&Json::Record(fields));
    Ok(
        CollectionPreview {
            matched_note_count: sizes.len(),
            eligible_note_count: sizes.len() - large,
            oversized_note_count: large,
            total_bytes: sum,
            preview_digest,
        },
    )
}

/// Workspace settings as they are asked for.
#[derive(Debug, Clone, PartialEq, Eq)]
pub struct WorkspaceSettingsDraft {
    pub timezone: String,
    pub daily_root: String,
    pub daily_pattern: String,
    pub template_path: Option<String>,
    pub link_style: String,
}

pub struct SettingsView {
    pub timezone: Seq<char>,
    pub daily_root: Seq<char>,
    pub daily_pattern: Seq<char>,
    pub template_path: Option<Seq<char>>,
    pub link_style: Seq<char>,
}

impl View for WorkspaceSettingsDraft {
    type V = SettingsView;

    open spec fn view(&self) -> SettingsView {
        SettingsView {
            timezone: self.timezone@,
            daily_root: self.daily_root@,
            daily_pattern: self.daily_pattern@,
            template_path: opt_text(self.template_path),
            link_style: self.link_style@,
        }
    }
}

/// The text without slashes at its beginning.
pub open spec fn without_leading_slashes(s: Seq<char>) -> Seq<char>
    decreases s.len(),
{
    if s.len() > 0 && s[0] == '/' {
        without_leading_slashes(s.drop_first())
    } else {
        s
    }
}

/// Settings without white space at the ends, or slashes round the folder, or a
/// blank template.
pub open spec fn normal_settings(s: SettingsView) -> SettingsView {
    SettingsView {
        timezone: trimmed(s.timezone),
        daily_root: without_slashes(without_leading_slashes(trimmed(s.daily_root))),
        daily_pattern: trimmed(s.daily_pattern),
        template_path: match s.template_path {
            Some(path) => if trimmed(path).len() > 0 {
                Some(trimmed(path))
            } else {
                None
            },
            None => None,
        },
        link_style: trimmed(s.link_style),
    }
}

fn strip_leading_slashes(s: &str) -> (r: String)
    ensures
        r@ == without_leading_slashes(s@),
{
    let chars = chars_of(s);
    let mut from: usize = 0;
    assert(chars@.skip(0) =~= chars@);
    while from < chars.len() && chars[from] == '/'
        invariant
            from <= chars@.len(),
            without_leading_slashes(chars@) == without_leading_slashes(chars@.skip(from as int)),
        decreases chars@.len() - from,
    {
        assert(chars@.skip(from as int).drop_first() =~= chars@.skip(from + 1));
        from += 1;
    }
    let r = string_of(&chars, from, chars.len());
    assert(r@ =~= chars@.skip(from as int));
    r
}

pub fn normalize_settings(draft: &WorkspaceSettingsDraft) -> (r: WorkspaceSettingsDraft)
    ensures
        r@ == normal_settings(draft@),
{
    let root = strip_leading_slashes(trim(draft.daily_root.as_str()).as_str());
    let template_path = match &draft.template_path {
        Some(path) => {
            let path = trim(path.as_str());
            if path.as_str().is_empty() {
                None
            } else {
                Some(path)
            }
        },
        None => None,
    };
    WorkspaceSettingsDraft {
        timezone: trim(draft.timezone.as_str()),
        daily_root: strip_slashes(root.as_str()),
        daily_pattern: trim(draft.daily_pattern.as_str()),
        template_path,
        link_style: trim(draft.link_style.as_str()),
    }
}

/// Whether a text names a time zone of the IANA database.
pub uninterp spec fn names_timezone(s: Seq<char>) -> bool;

/// `parse` of std into the `Tz` of chrono-tz, which knows the names of the IANA
/// database.
#[verifier::external_body]
fn timezone_exists(name: &str) -> (r: bool)
    ensures
        r == names_timezone(name@),
{
    name.parse::<chrono_tz::Tz>().is_ok()
}

pub fn check_timezone(name: &str) -> (r: Result<(), ApiError>)
    ensures
        checks(
            r,
            if names_timezone(name@) {
                None
            } else {
                Some(bad_request_of("timezone must be a valid IANA name"@))
            },
        ),
{
    let known = timezone_exists(name);
    report_timezone(known)
}

/// The error of a time zone that is not known.
pub fn report_timezone(known: bool) -> (r: Result<(), ApiError>)
    ensures
        checks(
            r,
            if known {
                None
            } else {
                Some(bad_request_of("timezone must be a valid IANA name"@))
            },
        ),
{
    if known {
        Ok(())
    } else {
        Err(ApiError::bad_request("timezone must be a valid IANA name"))
    }
}

pub fn check_link_style(style: &str) -> (r: Result<(), ApiError>)
    ensures
        checks(
            r,
            if style@ == "markdown"@ || style@ == "wikilink"@ {
                None
            } else {
                Some(bad_request_of("link style must be markdown or wikilink"@))
            },
        ),
{
    if str_eq(style, "markdown") || str_eq(style, "wikilink") {
        Ok(())
    } else {
        Err(ApiError::bad_request("link style must be markdown or wikilink"))
    }
}

/// The digest by which reviewed settings are known again.
pub open spec fn settings_sha(
    root_binding: Seq<char>,
    s: SettingsView,
    destination_example: Seq<char>,
) -> Seq<char> {
    json_sha(
        JsonView::Record(
            Map::empty().insert("root_binding"@, JsonView::Text(root_binding)).insert(
                "settings"@,
                JsonView::Record(
                    Map::empty().insert("timezone"@, JsonView::Text(s.timezone)).insert(
                        "daily_root"@,
                        JsonView::Text(s.daily_root),
                    ).insert("daily_pattern"@, JsonView::Text(s.daily_pattern)).insert(
                        "template_path"@,
                        optional_text_view(s.template_path),
                    ).insert("link_style"@, JsonView::Text(s.link_style)),
                ),
            ).insert("destination_example"@, JsonView::Text(destination_example)),
        ),
    )
}

pub fn settings_digest(
    root_binding: &str,
    settings: &WorkspaceSettingsDraft,
    destination_example: &str,
) -> (r: String)
    ensures
        r@ == settings_sha(root_binding@, settings@, destination_example@),
{
    let mut inner = empty_record();
    put(&mut inner, "timezone", json_of_text(settings.timezone.as_str()));
    put(&mut inner, "daily_root", json_of_text(settings.daily_root.as_str()));
    put(&mut inner, "daily_pattern", json_of_text(settings.daily_pattern.as_str()));
    put(&mut inner, "template_path", json_of_option(&settings.template_path));
    put(&mut inner, "link_style", json_of_text(settings.link_style.as_str()));
    let mut fields = empty_record();
    put(&mut fields, "root_binding", json_of_text(root_binding));
    put(&mut fields, "settings", Json::Record(inner));
    put(&mut fields, "destination_example", json_of_text(destination_example));
    json_digest(&Json::Record(fields))
}

/// Why reviewed settings are not saved: they differ from the preview, or only
/// half of what they replace is named.
pub fn check_reviewed_settings(
    digest: &str,
    reviewed_digest: &str,
    has_expected_id: bool,
    has_expected_time: bool,
) -> (r: Result<(), ApiError>)
    ensures
        checks(
            r,
            if digest@ != reviewed_digest@ {
                Some(conflict_of("workspace settings differ from the reviewed preview"@))
            } else if has_expected_id != has_expected_time {
                Some(
                    bad_request_of(
                        "expected profile ID and timestamp must be supplied together"@,
                    ),
                )
            } else {
                None
            },
        ),
{
    if !str_eq(digest, reviewed_digest) {
        return Err(ApiError::conflict("workspace settings differ from the reviewed preview"));
    }
    if has_expected_id != has_expected_time {
        return Err(
            ApiError::bad_request("expected profile ID and timestamp must be supplied together"),
        );
    }
    Ok(())
}

/// Why a workspace cannot be worked in: none is saved, or another is mounted.
pub fn check_workspace(saved_binding: Option<&str>, mounted_binding: &str) -> (r: Result<
    (),
    ApiError,
>)
    ensures
        checks(
            r,
            match saved_binding {
                None => Some(conflict_of("review and save workspace settings first"@)),
                Some(saved) => if saved@ != mounted_binding@ {
                    Some(
                        conflict_of(
                            "the mounted workspace has changed; review and save workspace settings again"@,
                        ),
                    )
                } else {
                    None
                },
            },
        ),
{
    match saved_binding {
        None => Err(ApiError::conflict("review and save workspace settings first")),
        Some(saved) => {
            if str_eq(saved, mounted_binding) {
                Ok(())
            } else {
                Err(
                    ApiError::conflict(
                        "the mounted workspace has changed; review and save workspace settings again",
                    ),
                )
            }
        },
    }
}

/// Why a Daily may not be changed: legacy data waits to be migrated.
pub fn require_cutover(cutover_status: &str, item_count: usize) -> (r: Result<(), ApiError>)
    ensures
        checks(
            r,
            if cutover_status@ == "completed"@ || item_count == 0 {
                None
            } else {
                Some(
                    conflict_of(
                        "review and complete the legacy-data migration in Settings before changing a Daily candidate or applying Markdown"@,
                    ),
                )
            },
        ),
{
    if str_eq(cutover_status, "completed") || item_count == 0 {
        Ok(())
    } else {
        Err(
            ApiError::conflict(
                "review and complete the legacy-data migration in Settings before changing a Daily candidate or applying Markdown",
            ),
        )
    }
}

} // verus!
