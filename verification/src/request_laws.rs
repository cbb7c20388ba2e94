//! Which requests are let in, and what is answered to the others.
use crate::errors::forbidden_of;
use crate::generation::ReferenceMode;
use crate::history::{first_in_window, is_date, is_history_query, lies_in};
use crate::json::{JsonView, json_parsed, optional_text_view};
use crate::mapping_requests::{ignored_record, shown_mapping};
use crate::model_call::without_slashes;
use crate::models::{ContextMapping, IgnoredContextIdentity, Moment, StoredLogEvent};
use crate::ordered::lemma_push_contains;
use crate::overview::DayStatus;
use crate::requests::{
    asset_type, boundary_error, cookie_in, cookie_text, folders_found, is_taken, listed,
    maps_only, resolution_code, search_limits,
};
use crate::review::{
    ContextComparison, activity_error, comparison_error, comparison_record,
    context_without_notes, generate_request_error,
};
use crate::revisions::{ManualDailyEntry, SnapshotEvidence, preview};
use crate::settings::{
    KnowledgeCollectionDraft, SettingsView, collection_digest, collection_error,
    collection_fields, normal_settings, oversized, settings_sha, total, without_leading_slashes,
};
use crate::snapshot::{json_sha, selector_list, text_list};
use crate::text::{after_prefix, begins_with, byte_len, decimal, lowercased, occurs, trimmed, views};
use vstd::prelude::*;
use vstd::string::*;

verus! {

/// A request is let in exactly where its host is one of the allowed hosts and,
/// if it changes something, its origin one of the allowed origins; each refusal
/// is a 403 that says what is amiss.
pub proof fn law_requests_come_from_allowed_places(
    hosts: Seq<Seq<char>>,
    origins: Seq<Seq<char>>,
    host: Option<Seq<char>>,
    origin: Option<Seq<char>>,
    require_origin: bool,
)
    ensures
        boundary_error(hosts, origins, host, origin, require_origin) is None <==> {
            &&& host is Some && hosts.contains(host->0)
            &&& require_origin ==> origin is Some && origins.contains(origin->0)
        },
        host is None ==> boundary_error(hosts, origins, host, origin, require_origin) == Some(
            forbidden_of("Host header is required"@),
        ),
        host is Some && !hosts.contains(host->0) ==> boundary_error(
            hosts,
            origins,
            host,
            origin,
            require_origin,
        ) == Some(forbidden_of("request Host is not allowed"@)),
        host is Some && hosts.contains(host->0) && require_origin && origin is None
            ==> boundary_error(hosts, origins, host, origin, require_origin) == Some(
            forbidden_of("Origin header is required"@),
        ),
        host is Some && hosts.contains(host->0) && require_origin && origin is Some
            && !origins.contains(origin->0) ==> boundary_error(
            hosts,
            origins,
            host,
            origin,
            require_origin,
        ) == Some(forbidden_of("request Origin is not allowed"@)),
        boundary_error(hosts, origins, host, origin, require_origin) is Some ==> boundary_error(
            hosts,
            origins,
            host,
            origin,
            require_origin,
        )->0.status == 403,
{
}

/// A list in a setting holds what stands between its commas, without the blanks
/// around it, and nothing that is blank.
pub proof fn law_setting_lists(pieces: Seq<Seq<char>>, piece: Seq<char>)
    ensures
        listed(Seq::empty()).len() == 0,
        trimmed(piece).len() > 0 ==> listed(pieces.push(piece)) == listed(pieces).push(
            trimmed(piece),
        ),
        trimmed(piece).len() == 0 ==> listed(pieces.push(piece)) == listed(pieces),
{
    assert(pieces.push(piece).drop_last() =~= pieces);
}

/// Whether a cookie is that of the session, with that value.
pub open spec fn is_session_cookie(cookie: Seq<char>, value: Seq<char>) -> bool {
    trimmed(cookie) == "log_inbox_session="@ + value
}

proof fn lemma_session_cookie(cookie: Seq<char>, value: Seq<char>)
    ensures
        after_prefix(trimmed(cookie), "log_inbox_session="@) == Some(value) <==> is_session_cookie(
            cookie,
            value,
        ),
{
    let t = trimmed(cookie);
    let p = "log_inbox_session="@;
    if begins_with(t, p) {
        assert(t =~= p + t.skip(p.len() as int));
    }
    if is_session_cookie(cookie, value) {
        assert(t.take(p.len() as int) =~= p);
        assert(t.skip(p.len() as int) =~= value);
    }
}

/// The session is the first cookie of that name, and there is none where no
/// cookie has the name.
pub proof fn law_session_is_the_first_cookie(cookies: Seq<Seq<char>>, at: int, value: Seq<char>)
    ensures
        0 <= at < cookies.len() && is_session_cookie(cookies[at], value) && (forall|
            i: int,
            v: Seq<char>,
        |
            0 <= i < at ==> !#[trigger] is_session_cookie(cookies[i], v)) ==> cookie_in(cookies)
            == Some(value),
        (forall|i: int, v: Seq<char>|
            0 <= i < cookies.len() ==> !#[trigger] is_session_cookie(cookies[i], v)) ==> cookie_in(
            cookies,
        ) is None,
    decreases cookies.len(),
{
    if cookies.len() > 0 {
        let init = cookies.drop_last();
        let last = cookies.last();
        let n = cookies.len() - 1;
        law_session_is_the_first_cookie(init, at, value);
        assert(cookies[n] == last);
        assert forall|i: int| 0 <= i < n implies init[i] == #[trigger] cookies[i] by {}
        if 0 <= at < cookies.len() && is_session_cookie(cookies[at], value) && (forall|
            i: int,
            v: Seq<char>,
        |
            0 <= i < at ==> !#[trigger] is_session_cookie(cookies[i], v)) {
            assert forall|i: int, v: Seq<char>| 0 <= i < at implies !#[trigger] is_session_cookie(
                init[i],
                v,
            ) by {
                assert(!is_session_cookie(cookies[i], v));
            }
            if at == n {
                lemma_session_cookie(last, value);
            }
        }
        if forall|i: int, v: Seq<char>|
            0 <= i < cookies.len() ==> !#[trigger] is_session_cookie(cookies[i], v) {
            assert forall|i: int, v: Seq<char>| 0 <= i < n implies !#[trigger] is_session_cookie(
                init[i],
                v,
            ) by {
                assert(!is_session_cookie(cookies[i], v));
            }
            let found = after_prefix(trimmed(last), "log_inbox_session="@);
            if found is Some {
                lemma_session_cookie(last, found->0);
                assert(!is_session_cookie(cookies[n], found->0));
            }
        }
    }
}

/// The session is handed out in a cookie that scripts cannot read and other
/// sites cannot send, which lasts as long as it says; over HTTPS it is never
/// sent without.
pub proof fn law_session_cookie_is_guarded(token: Seq<char>, max_age: nat)
    ensures
        cookie_text(token, max_age, false) == "log_inbox_session="@ + token
            + "; Path=/; HttpOnly; SameSite=Strict; Max-Age="@ + decimal(max_age),
        cookie_text(token, max_age, true) == cookie_text(token, max_age, false) + "; Secure"@,
{
    reveal_strlit("");
    let text = "log_inbox_session="@ + token + "; Path=/; HttpOnly; SameSite=Strict; Max-Age="@
        + decimal(max_age);
    assert(text + ""@ =~= text);
}

/// A search needs two to a hundred bytes besides blanks, and shows twenty
/// results where nothing is said and never more.
pub proof fn law_searches_are_bounded(what: Seq<char>, query: Seq<char>, limit: Option<usize>)
    ensures
        search_limits(what, query, limit) is Ok <==> byte_len(trimmed(query)) >= 2 && byte_len(
            trimmed(query),
        ) <= 100 && (limit is None || 1 <= limit->0 <= 20),
        search_limits(what, query, limit) is Ok && limit is None ==> search_limits(
            what,
            query,
            limit,
        )->Ok_0 == 20,
        search_limits(what, query, limit) is Ok && limit is Some ==> search_limits(
            what,
            query,
            limit,
        )->Ok_0 == limit->0,
        search_limits(what, query, limit) is Err ==> search_limits(what, query, limit)->Err_0.status
            == 400,
{
}

/// A folder is found by a part of its path, whatever the case, and the root by
/// its name too.
pub proof fn law_folders_are_searched(paths: Seq<Seq<char>>, query: Seq<char>, path: Seq<char>)
    ensures
        folders_found(paths, query).contains(path) <==> paths.contains(path) && (occurs(
            lowercased(path),
            lowercased(query),
        ) || (path == "."@ && occurs("workspace root"@, lowercased(query)))),
    decreases paths.len(),
{
    if paths.len() > 0 {
        let init = paths.drop_last();
        law_folders_are_searched(init, query, path);
        assert(paths =~= init.push(paths.last()));
        lemma_push_contains(init, paths.last(), path);
        lemma_push_contains(folders_found(init, query), paths.last(), path);
    }
}

/// Whether an error of the resolver is about a note outside the collections.
pub open spec fn is_outside(error: Seq<char>) -> bool {
    occurs(error, "not available in the selected reference collections"@) || occurs(
        error,
        "matching reference mapping points to an unavailable note"@,
    )
}

/// What is told of an error of the resolver: whether a mapping leads out of the
/// collections, whether there are too many notes, and else no more than that it
/// failed.
pub proof fn law_resolution_codes(error: Seq<char>)
    ensures
        is_outside(error) ==> resolution_code(error) == "mapping_outside_collections"@,
        !is_outside(error) && occurs(error, "catalog exceeds"@) ==> resolution_code(error)
            == "catalog_limit"@,
        !is_outside(error) && !occurs(error, "catalog exceeds"@) ==> resolution_code(error)
            == "resolver_error"@,
{
}

/// A name is taken where another mapping asks for exactly it and nothing else.
pub proof fn law_one_mapping_for_a_name(
    mappings: Seq<ContextMapping>,
    field: Seq<char>,
    value: Seq<char>,
    except_id: Option<Seq<char>>,
)
    ensures
        is_taken(mappings, field, value, except_id) <==> exists|i: int|
            0 <= i < mappings.len() && (except_id is None || except_id->0 != (
            #[trigger] mappings[i]).id@) && mappings[i].selectors@.len() == 1
                && mappings[i].selectors@[0].field@ == field && mappings[i].selectors@[0].operator@
                == "exact"@ && lowercased(trimmed(mappings[i].selectors@[0].value@)) == lowercased(
                trimmed(value),
            ),
{
    if is_taken(mappings, field, value, except_id) {
        let i = choose|i: int|
            0 <= i < mappings.len() && except_id != Some((#[trigger] mappings[i]).id@) && maps_only(
                mappings[i],
                field,
                value,
            );
        assert(mappings[i].selectors@.len() == 1);
    }
    if exists|i: int|
        0 <= i < mappings.len() && (except_id is None || except_id->0 != (
        #[trigger] mappings[i]).id@) && mappings[i].selectors@.len() == 1
            && mappings[i].selectors@[0].field@ == field && mappings[i].selectors@[0].operator@
            == "exact"@ && lowercased(trimmed(mappings[i].selectors@[0].value@)) == lowercased(
            trimmed(value),
        ) {
        let i = choose|i: int|
            0 <= i < mappings.len() && (except_id is None || except_id->0 != (
            #[trigger] mappings[i]).id@) && mappings[i].selectors@.len() == 1
                && mappings[i].selectors@[0].field@ == field && mappings[i].selectors@[0].operator@
                == "exact"@ && lowercased(trimmed(mappings[i].selectors@[0].value@)) == lowercased(
                trimmed(value),
            );
        assert(maps_only(mappings[i], field, value));
    }
}

/// An activity record is written only for a day without a draft, of which no
/// evidence has expired, and which the owner has not dismissed.
pub proof fn law_activity_is_recorded_once(
    has_revision: bool,
    has_expired_evidence: bool,
    review_status: Option<Seq<char>>,
)
    ensures
        activity_error(has_revision, has_expired_evidence, review_status) is None
            <==> !has_revision && !has_expired_evidence && review_status != Some("dismissed"@),
        activity_error(has_revision, has_expired_evidence, review_status) is Some ==> activity_error(
            has_revision,
            has_expired_evidence,
            review_status,
        )->0.status == 409,
{
}

/// References are excluded from a candidate that is named, and only where
/// references are used.
pub proof fn law_generation_requests(
    mode: ReferenceMode,
    has_exclusions: bool,
    has_expected_revision: bool,
)
    ensures
        generate_request_error(mode, has_exclusions, has_expected_revision) is None <==> (
        has_exclusions <==> has_expected_revision) && !(mode is Without && has_exclusions),
        generate_request_error(mode, has_exclusions, has_expected_revision) is Some
            ==> generate_request_error(mode, has_exclusions, has_expected_revision)->0.status == 400,
{
}

/// A candidate is compared exactly where it is the one that was asked for, is
/// under review, current and as it was generated.
pub proof fn law_only_unedited_candidates_are_compared(
    day: Option<&DayStatus>,
    revision: Option<(Seq<char>, Seq<char>)>,
    expected: Seq<char>,
)
    ensures
        comparison_error(day, revision, expected) is None <==> {
            &&& day is Some
            &&& revision is Some
            &&& (revision->0).0 == expected
            &&& (revision->0).1 == "generated"@ || (revision->0).1 == "regenerated"@
            &&& day->0.review_status@ == "in_review"@
            &&& day->0.freshness@ == "current"@
        },
        comparison_error(day, revision, expected) is Some ==> comparison_error(
            day,
            revision,
            expected,
        )->0.status == 409,
{
}

/// The keys of a context differ.
pub proof fn lemma_blank_context_keys_differ()
    ensures
        "candidate_notes"@ != "workstream_links"@,
        "candidate_notes"@ != "group_aliases"@,
        "candidate_notes"@ != "daily_note"@,
        "candidate_notes"@ != "knowledge"@,
        "workstream_links"@ != "group_aliases"@,
        "workstream_links"@ != "daily_note"@,
        "workstream_links"@ != "knowledge"@,
        "group_aliases"@ != "daily_note"@,
        "group_aliases"@ != "knowledge"@,
        "daily_note"@ != "knowledge"@,
{
    reveal_strlit("candidate_notes");
    reveal_strlit("workstream_links");
    reveal_strlit("group_aliases");
    reveal_strlit("daily_note");
    reveal_strlit("knowledge");
    assert("candidate_notes"@.len() == 15);
    assert("workstream_links"@.len() == 16);
    assert("group_aliases"@.len() == 13);
    assert("daily_note"@.len() == 10);
    assert("knowledge"@.len() == 9);
}

/// The keys of what is known differ.
pub proof fn lemma_blank_knowledge_keys_differ()
    ensures
        "resolver_version"@ != "context_is_background_only"@,
        "resolver_version"@ != "excerpts"@,
        "resolver_version"@ != "workstream_excerpts"@,
        "context_is_background_only"@ != "excerpts"@,
        "context_is_background_only"@ != "workstream_excerpts"@,
        "excerpts"@ != "workstream_excerpts"@,
{
    reveal_strlit("resolver_version");
    reveal_strlit("context_is_background_only");
    reveal_strlit("excerpts");
    reveal_strlit("workstream_excerpts");
    assert("resolver_version"@.len() == 16);
    assert("context_is_background_only"@.len() == 26);
    assert("excerpts"@.len() == 8);
    assert("workstream_excerpts"@.len() == 19);
}

/// A context without notes has no notes, no links, no other names and no
/// excerpts, and keeps to its daily note.
pub proof fn law_context_without_notes(destination_path: Seq<char>)
    ensures
        ({
            let c = context_without_notes(destination_path);
            let k = c.field("knowledge"@)->0;
            &&& c.field("candidate_notes"@) == Some(JsonView::List(Seq::empty()))
            &&& c.field("workstream_links"@) == Some(JsonView::Record(Map::empty()))
            &&& c.field("group_aliases"@) == Some(JsonView::Record(Map::empty()))
            &&& c.field("daily_note"@) == Some(JsonView::Text(destination_path))
            &&& c.field("knowledge"@) is Some
            &&& k.field("resolver_version"@) == Some(JsonView::Text("none"@))
            &&& k.field("context_is_background_only"@) == Some(JsonView::Bool(true))
            &&& k.field("excerpts"@) == Some(JsonView::List(Seq::empty()))
            &&& k.field("workstream_excerpts"@) == Some(JsonView::Record(Map::empty()))
        }),
{
    lemma_blank_context_keys_differ();
    lemma_blank_knowledge_keys_differ();
}

/// The keys of a comparison differ.
pub proof fn lemma_comparison_keys_differ()
    ensures
        "id"@ != "source_revision_id"@,
        "id"@ != "state"@,
        "id"@ != "created_at"@,
        "id"@ != "arms"@,
        "id"@ != "assignment"@,
        "id"@ != "decision"@,
        "source_revision_id"@ != "state"@,
        "source_revision_id"@ != "created_at"@,
        "source_revision_id"@ != "arms"@,
        "source_revision_id"@ != "assignment"@,
        "source_revision_id"@ != "decision"@,
        "state"@ != "created_at"@,
        "state"@ != "arms"@,
        "state"@ != "assignment"@,
        "state"@ != "decision"@,
        "created_at"@ != "arms"@,
        "created_at"@ != "assignment"@,
        "created_at"@ != "decision"@,
        "arms"@ != "assignment"@,
        "arms"@ != "decision"@,
        "assignment"@ != "decision"@,
{
    reveal_strlit("id");
    reveal_strlit("source_revision_id");
    reveal_strlit("state");
    reveal_strlit("created_at");
    reveal_strlit("arms");
    reveal_strlit("assignment");
    reveal_strlit("decision");
    assert("id"@.len() == 2);
    assert("source_revision_id"@.len() == 18);
    assert("state"@.len() == 5);
    assert("created_at"@.len() == 10);
    assert("arms"@.len() == 4);
    assert("assignment"@.len() == 10);
    assert("decision"@.len() == 8);
    assert("created_at"@[0] == 'c');
    assert("assignment"@[0] == 'a');
}

/// A comparison shows its two candidates as the owner reads them, the first as
/// `a` and the second as `b`; which was written with notes it tells only where
/// that is known.
pub proof fn law_comparison_shows_both_candidates(
    c: ContextComparison,
    entries: Seq<ManualDailyEntry>,
    evidence: Seq<SnapshotEvidence>,
)
    ensures
        ({
            let r = comparison_record(c, entries, evidence);
            let arms = (r.field("arms"@)->0)->List_0;
            &&& r.field("id"@) == Some(JsonView::Text(c.id@))
            &&& r.field("source_revision_id"@) == Some(JsonView::Text(c.source_revision_id@))
            &&& r.field("state"@) == Some(JsonView::Text(c.state@))
            &&& r.field("created_at"@) == Some(JsonView::Text(c.created_at@))
            &&& r.field("arms"@) is Some && r.field("arms"@)->0 is List && arms.len() == 2
            &&& arms[0].field("id"@) == Some(JsonView::Text("a"@))
            &&& arms[0].field("preview_markdown"@) == Some(
                JsonView::Text(preview(c.arm_a_content@, entries, evidence)),
            )
            &&& arms[1].field("id"@) == Some(JsonView::Text("b"@))
            &&& arms[1].field("preview_markdown"@) == Some(
                JsonView::Text(preview(c.arm_b_content@, entries, evidence)),
            )
            &&& c.arm_a_kind is None ==> r.field("assignment"@) is None
            &&& c.arm_a_kind is Some ==> r.field("assignment"@) is Some
            &&& c.arm_a_kind is Some && c.arm_a_kind->0@ == "context"@ ==> {
                &&& r.field("assignment"@)->0.field("a"@) == Some(JsonView::Text("with_context"@))
                &&& r.field("assignment"@)->0.field("b"@) == Some(
                    JsonView::Text("without_context"@),
                )
            }
            &&& c.arm_a_kind is Some && c.arm_a_kind->0@ != "context"@ ==> {
                &&& r.field("assignment"@)->0.field("a"@) == Some(
                    JsonView::Text("without_context"@),
                )
                &&& r.field("assignment"@)->0.field("b"@) == Some(JsonView::Text("with_context"@))
            }
            &&& c.decision is None ==> r.field("decision"@) is None
            &&& c.decision is Some ==> r.field("decision"@) == Some(c.decision->0@)
        }),
{
    lemma_comparison_keys_differ();
    reveal_strlit("preview_markdown");
    reveal_strlit("id");
    assert("preview_markdown"@.len() == 16);
    assert("id"@.len() == 2);
    reveal_strlit("a");
    reveal_strlit("b");
    assert("a"@[0] == 'a');
    assert("b"@[0] == 'b');
}

/// A collection is accepted where its label has up to a hundred bytes and its
/// purpose up to a thousand, neither of them blank.
pub proof fn law_labelled_collections_are_accepted(label: Seq<char>, purpose: Seq<char>)
    ensures
        collection_error(label, purpose) is None <==> trimmed(label).len() > 0 && byte_len(
            trimmed(label),
        ) <= 100 && trimmed(purpose).len() > 0 && byte_len(trimmed(purpose)) <= 1000,
        collection_error(label, purpose) is Some ==> collection_error(label, purpose)->0.status
            == 400,
{
}

/// The notes of a collection are counted one by one: each adds its bytes, and
/// those of more than a megabyte are too large.
pub proof fn law_notes_are_measured(sizes: Seq<u64>, size: u64)
    ensures
        total(Seq::empty()) == 0,
        oversized(Seq::empty()) == 0,
        total(sizes.push(size)) == total(sizes) + size,
        size > 1048576 ==> oversized(sizes.push(size)) == oversized(sizes) + 1,
        size <= 1048576 ==> oversized(sizes.push(size)) == oversized(sizes),
{
    assert(sizes.push(size).drop_last() =~= sizes);
}

/// The keys of a collection differ.
pub proof fn lemma_collection_keys_differ()
    ensures
        "label"@ != "purpose"@,
        "label"@ != "roots"@,
        "label"@ != "exclusions"@,
        "label"@ != "enabled"@,
        "purpose"@ != "roots"@,
        "purpose"@ != "exclusions"@,
        "purpose"@ != "enabled"@,
        "roots"@ != "exclusions"@,
        "roots"@ != "enabled"@,
        "exclusions"@ != "enabled"@,
{
    reveal_strlit("label");
    reveal_strlit("purpose");
    reveal_strlit("roots");
    reveal_strlit("exclusions");
    reveal_strlit("enabled");
    assert("label"@.len() == 5);
    assert("purpose"@.len() == 7);
    assert("roots"@.len() == 5);
    assert("exclusions"@.len() == 10);
    assert("enabled"@.len() == 7);
    assert("label"@[0] == 'l');
    assert("roots"@[0] == 'r');
    assert("purpose"@[0] == 'p');
    assert("enabled"@[0] == 'e');
}

/// The digest of a collection takes in the workspace that it belongs to and
/// every part of it.
pub proof fn law_digest_covers_the_collection(
    root_binding: Seq<char>,
    draft: KnowledgeCollectionDraft,
)
    ensures
        exists|all: JsonView|
            collection_digest(root_binding, draft) == #[trigger] json_sha(all) && all.field(
                "root_binding"@,
            ) == Some(JsonView::Text(root_binding)) && all.field("collection"@) is Some
                && all.field("collection"@)->0 == collection_fields(draft),
        collection_fields(draft).field("label"@) == Some(JsonView::Text(draft.label@)),
        collection_fields(draft).field("purpose"@) == Some(JsonView::Text(draft.purpose@)),
        collection_fields(draft).field("roots"@) == Some(text_list(views(draft.roots@))),
        collection_fields(draft).field("exclusions"@) == Some(text_list(views(draft.exclusions@))),
        collection_fields(draft).field("enabled"@) == Some(JsonView::Bool(draft.enabled)),
{
    lemma_collection_keys_differ();
    reveal_strlit("root_binding");
    reveal_strlit("collection");
    assert("root_binding"@.len() == 12);
    assert("collection"@.len() == 10);
    let all = JsonView::Record(
        Map::empty().insert("root_binding"@, JsonView::Text(root_binding)).insert(
            "collection"@,
            collection_fields(draft),
        ),
    );
    assert(collection_digest(root_binding, draft) == json_sha(all));
    assert(all.field("root_binding"@) == Some(JsonView::Text(root_binding)));
}

/// Settings are kept without the blanks around them, the folder without the
/// slashes, and a template that is blank is none.
pub proof fn law_settings_are_normal(s: SettingsView)
    ensures
        normal_settings(s).timezone == trimmed(s.timezone),
        normal_settings(s).daily_pattern == trimmed(s.daily_pattern),
        normal_settings(s).link_style == trimmed(s.link_style),
        s.template_path is None ==> normal_settings(s).template_path is None,
        s.template_path is Some && trimmed(s.template_path->0).len() == 0 ==> normal_settings(
            s,
        ).template_path is None,
        s.template_path is Some && trimmed(s.template_path->0).len() > 0 ==> normal_settings(
            s,
        ).template_path == Some(trimmed(s.template_path->0)),
        normal_settings(s).daily_root.len() > 0 ==> normal_settings(s).daily_root[0] != '/'
            && normal_settings(s).daily_root.last() != '/',
        exists|a: Seq<char>, b: Seq<char>|
            trimmed(s.daily_root) == #[trigger] (a + normal_settings(s).daily_root + b)
                && all_slashes(a) && all_slashes(b),
{
    let t = trimmed(s.daily_root);
    let a = lemma_leading_slashes(t);
    let m = without_leading_slashes(t);
    let b = lemma_trailing_slashes(m);
    let root = without_slashes(m);
    assert(t =~= a + root + b);
    if root.len() > 0 {
        assert(m[0] == root[0]);
    }
}

pub open spec fn all_slashes(s: Seq<char>) -> bool {
    forall|i: int| 0 <= i < s.len() ==> #[trigger] s[i] == '/'
}

proof fn lemma_leading_slashes(s: Seq<char>) -> (a: Seq<char>)
    ensures
        all_slashes(a),
        s == a + without_leading_slashes(s),
        without_leading_slashes(s).len() > 0 ==> without_leading_slashes(s)[0] != '/',
    decreases s.len(),
{
    if s.len() > 0 && s[0] == '/' {
        let rest = lemma_leading_slashes(s.drop_first());
        let a = seq!['/'] + rest;
        assert(s =~= seq![s[0]] + s.drop_first());
        assert(s =~= a + without_leading_slashes(s));
        assert forall|i: int| 0 <= i < a.len() implies #[trigger] a[i] == '/' by {
            if i > 0 {
                assert(a[i] == rest[i - 1]);
            }
        }
        a
    } else {
        assert(s =~= Seq::<char>::empty() + s);
        Seq::empty()
    }
}

proof fn lemma_trailing_slashes(s: Seq<char>) -> (b: Seq<char>)
    ensures
        all_slashes(b),
        s == without_slashes(s) + b,
        without_slashes(s).len() > 0 ==> without_slashes(s).last() != '/',
    decreases s.len(),
{
    if s.len() > 0 && s.last() == '/' {
        let rest = lemma_trailing_slashes(s.drop_last());
        let b = rest.push('/');
        assert(s =~= s.drop_last().push(s.last()));
        assert(s =~= without_slashes(s) + b);
        assert forall|i: int| 0 <= i < b.len() implies #[trigger] b[i] == '/' by {
            if i < rest.len() {
                assert(b[i] == rest[i]);
            }
        }
        b
    } else {
        assert(s =~= s + Seq::<char>::empty());
        Seq::empty()
    }
}

/// The keys of the settings differ.
pub proof fn lemma_settings_keys_differ()
    ensures
        "timezone"@ != "daily_root"@,
        "timezone"@ != "daily_pattern"@,
        "timezone"@ != "template_path"@,
        "timezone"@ != "link_style"@,
        "daily_root"@ != "daily_pattern"@,
        "daily_root"@ != "template_path"@,
        "daily_root"@ != "link_style"@,
        "daily_pattern"@ != "template_path"@,
        "daily_pattern"@ != "link_style"@,
        "template_path"@ != "link_style"@,
{
    reveal_strlit("timezone");
    reveal_strlit("daily_root");
    reveal_strlit("daily_pattern");
    reveal_strlit("template_path");
    reveal_strlit("link_style");
    assert("timezone"@.len() == 8);
    assert("daily_root"@.len() == 10);
    assert("daily_pattern"@.len() == 13);
    assert("template_path"@.len() == 13);
    assert("link_style"@.len() == 10);
    assert("daily_root"@[0] == 'd');
    assert("link_style"@[0] == 'l');
    assert("daily_pattern"@[0] == 'd');
    assert("template_path"@[0] == 't');
}

/// Whether a record says all that settings say.
pub open spec fn says_settings(r: JsonView, s: SettingsView) -> bool {
    &&& r.field("timezone"@) == Some(JsonView::Text(s.timezone))
    &&& r.field("daily_root"@) == Some(JsonView::Text(s.daily_root))
    &&& r.field("daily_pattern"@) == Some(JsonView::Text(s.daily_pattern))
    &&& s.template_path is Some ==> r.field("template_path"@) == Some(
        JsonView::Text(s.template_path->0),
    )
    &&& s.template_path is None ==> r.field("template_path"@) == Some(JsonView::Null)
    &&& r.field("link_style"@) == Some(JsonView::Text(s.link_style))
}

/// The digest of settings takes in the workspace, each of the settings and the
/// example of where a note is written.
pub proof fn law_digest_covers_the_settings(
    root_binding: Seq<char>,
    s: SettingsView,
    example: Seq<char>,
)
    ensures
        exists|all: JsonView|
            settings_sha(root_binding, s, example) == #[trigger] json_sha(all) && all.field(
                "root_binding"@,
            ) == Some(JsonView::Text(root_binding)) && all.field("destination_example"@) == Some(
                JsonView::Text(example),
            ) && all.field("settings"@) is Some && says_settings(all.field("settings"@)->0, s),
{
    lemma_settings_keys_differ();
    reveal_strlit("root_binding");
    reveal_strlit("settings");
    reveal_strlit("destination_example");
    assert("root_binding"@.len() == 12);
    assert("settings"@.len() == 8);
    assert("destination_example"@.len() == 19);
    let settings = JsonView::Record(
        Map::empty().insert("timezone"@, JsonView::Text(s.timezone)).insert(
            "daily_root"@,
            JsonView::Text(s.daily_root),
        ).insert("daily_pattern"@, JsonView::Text(s.daily_pattern)).insert(
            "template_path"@,
            optional_text_view(s.template_path),
        ).insert("link_style"@, JsonView::Text(s.link_style)),
    );
    let all = JsonView::Record(
        Map::empty().insert("root_binding"@, JsonView::Text(root_binding)).insert(
            "settings"@,
            settings,
        ).insert("destination_example"@, JsonView::Text(example)),
    );
    assert(settings_sha(root_binding, s, example) == json_sha(all));
    assert(says_settings(settings, s));
    assert(all.field("settings"@) == Some(settings));
    assert(all.field("root_binding"@) == Some(JsonView::Text(root_binding)));
}

/// A search of the history has up to two hundred characters that are not all
/// blank, and goes on from a place that a former search named: a date and three
/// texts.
pub proof fn law_history_searches(query: Seq<char>, cursor: Option<Seq<char>>)
    ensures
        is_history_query(query, cursor) <==> {
            &&& trimmed(query).len() > 0
            &&& query.len() <= 200
            &&& cursor is Some ==> {
                let value = json_parsed(cursor->0);
                &&& byte_len(cursor->0) <= 2048
                &&& value is Some
                &&& value->0 is List
                &&& value->0->List_0.len() == 4
                &&& value->0->List_0[0] is Text && is_date(value->0->List_0[0]->Text_0)
                &&& value->0->List_0[1] is Text
                &&& value->0->List_0[2] is Text
                &&& value->0->List_0[3] is Text
            }
        },
{
}

/// A window takes in its beginning and not its end.
pub proof fn law_window_of_time(at: Moment, start: Moment, end: Moment)
    ensures
        lies_in(at, start, end) <==> (start.seconds < at.seconds || (start.seconds == at.seconds
            && start.nanos <= at.nanos)) && (at.seconds < end.seconds || (at.seconds == end.seconds
            && at.nanos < end.nanos)),
{
}

/// The first event in a window is the first of the events that lies in it.
pub proof fn law_first_event_in_a_window(
    events: Seq<StoredLogEvent>,
    start: Moment,
    end: Moment,
    at: int,
)
    ensures
        first_in_window(events, start, end) == Some(at) <==> 0 <= at < events.len() && lies_in(
            events[at].timestamp,
            start,
            end,
        ) && forall|i: int| 0 <= i < at ==> !lies_in((#[trigger] events[i]).timestamp, start, end),
        first_in_window(events, start, end) is None <==> forall|i: int|
            0 <= i < events.len() ==> !lies_in((#[trigger] events[i]).timestamp, start, end),
    decreases events.len(),
{
    if events.len() > 0 {
        let init = events.drop_last();
        let n = events.len() - 1;
        law_first_event_in_a_window(init, start, end, at);
        assert(events[n] == events.last());
        assert forall|i: int| 0 <= i < n implies init[i] == #[trigger] events[i] by {}
        if first_in_window(init, start, end) is Some {
            let k = first_in_window(init, start, end)->0;
            law_first_event_in_a_window(init, start, end, k);
            assert(lies_in(events[k].timestamp, start, end));
            assert forall|i: int| 0 <= i < k implies !lies_in(
                (#[trigger] events[i]).timestamp,
                start,
                end,
            ) by {
                assert(!lies_in(init[i].timestamp, start, end));
            }
        } else {
            assert forall|i: int| 0 <= i < n implies !lies_in(
                (#[trigger] events[i]).timestamp,
                start,
                end,
            ) by {
                assert(!lies_in(init[i].timestamp, start, end));
            }
        }
    }
}

/// The keys of a mapping that is shown differ.
pub proof fn lemma_mapping_keys_differ()
    ensures
        "id"@ != "selectors"@,
        "id"@ != "canonical_note_path"@,
        "id"@ != "enabled"@,
        "id"@ != "created_at"@,
        "id"@ != "updated_at"@,
        "id"@ != "imported"@,
        "selectors"@ != "canonical_note_path"@,
        "selectors"@ != "enabled"@,
        "selectors"@ != "created_at"@,
        "selectors"@ != "updated_at"@,
        "selectors"@ != "imported"@,
        "canonical_note_path"@ != "enabled"@,
        "canonical_note_path"@ != "created_at"@,
        "canonical_note_path"@ != "updated_at"@,
        "canonical_note_path"@ != "imported"@,
        "enabled"@ != "created_at"@,
        "enabled"@ != "updated_at"@,
        "enabled"@ != "imported"@,
        "created_at"@ != "updated_at"@,
        "created_at"@ != "imported"@,
        "updated_at"@ != "imported"@,
{
    reveal_strlit("id");
    reveal_strlit("selectors");
    reveal_strlit("canonical_note_path");
    reveal_strlit("enabled");
    reveal_strlit("created_at");
    reveal_strlit("updated_at");
    reveal_strlit("imported");
    assert("id"@.len() == 2);
    assert("selectors"@.len() == 9);
    assert("canonical_note_path"@.len() == 19);
    assert("enabled"@.len() == 7);
    assert("created_at"@.len() == 10);
    assert("updated_at"@.len() == 10);
    assert("imported"@.len() == 8);
    assert("created_at"@[0] == 'c');
    assert("updated_at"@[0] == 'u');
}

/// A mapping is shown with all that it says; it was imported where it has a
/// source.
pub proof fn law_mapping_is_shown(m: ContextMapping, created_at: Seq<char>, updated_at: Seq<char>)
    ensures
        ({
            let r = shown_mapping(m, created_at, updated_at);
            &&& r.field("id"@) == Some(JsonView::Text(m.id@))
            &&& r.field("selectors"@) == Some(JsonView::List(selector_list(m.selectors@)))
            &&& r.field("canonical_note_path"@) == Some(JsonView::Text(m.canonical_note_path@))
            &&& r.field("enabled"@) == Some(JsonView::Bool(m.enabled))
            &&& r.field("created_at"@) == Some(JsonView::Text(created_at))
            &&& r.field("updated_at"@) == Some(JsonView::Text(updated_at))
            &&& r.field("imported"@) == Some(JsonView::Bool(m.source_identity is Some))
        }),
{
    lemma_mapping_keys_differ();
}

/// The keys of a name that was set aside differ.
pub proof fn lemma_ignored_keys_differ()
    ensures
        "id"@ != "field"@,
        "id"@ != "value"@,
        "id"@ != "normalized_value"@,
        "id"@ != "created_at"@,
        "id"@ != "imported"@,
        "field"@ != "value"@,
        "field"@ != "normalized_value"@,
        "field"@ != "created_at"@,
        "field"@ != "imported"@,
        "value"@ != "normalized_value"@,
        "value"@ != "created_at"@,
        "value"@ != "imported"@,
        "normalized_value"@ != "created_at"@,
        "normalized_value"@ != "imported"@,
        "created_at"@ != "imported"@,
{
    reveal_strlit("id");
    reveal_strlit("field");
    reveal_strlit("value");
    reveal_strlit("normalized_value");
    reveal_strlit("created_at");
    reveal_strlit("imported");
    assert("id"@.len() == 2);
    assert("field"@.len() == 5);
    assert("value"@.len() == 5);
    assert("normalized_value"@.len() == 16);
    assert("created_at"@.len() == 10);
    assert("imported"@.len() == 8);
    assert("field"@[0] == 'f');
    assert("value"@[0] == 'v');
}

/// A name that was set aside is shown with its field, as it was written and in
/// the form that it is compared in.
pub proof fn law_ignored_name_is_shown(
    id: Seq<char>,
    value: Seq<char>,
    identity: IgnoredContextIdentity,
    created_at: Seq<char>,
    imported: bool,
)
    ensures
        ({
            let r = ignored_record(id, value, identity, created_at, imported);
            &&& r.field("id"@) == Some(JsonView::Text(id))
            &&& r.field("field"@) == Some(JsonView::Text(identity.field@))
            &&& r.field("value"@) == Some(JsonView::Text(value))
            &&& r.field("normalized_value"@) == Some(JsonView::Text(identity.normalized_value@))
            &&& r.field("created_at"@) == Some(JsonView::Text(created_at))
            &&& r.field("imported"@) == Some(JsonView::Bool(imported))
        }),
{
    lemma_ignored_keys_differ();
}

/// The parts of the dashboard are known by their names, scripts as scripts and
/// the style as a style, and nothing else is handed out.
pub proof fn law_dashboard_parts(name: Seq<char>)
    ensures
        asset_type(name) is Some <==> name == "daily.js"@ || name == "daily-helpers.js"@ || name
            == "daily-references.js"@ || name == "daily-settings.js"@ || name
            == "daily-navigation.js"@ || name == "daily-history.js"@ || name == "daily.css"@,
        name == "daily.css"@ ==> asset_type(name) == Some("text/css"@),
        name == "daily-history.js"@ ==> asset_type(name) == Some("text/javascript; charset=utf-8"@),
        asset_type(name) is Some && name != "daily.css"@ && name != "daily-history.js"@
            ==> asset_type(name) == Some("text/javascript"@),
{
    lemma_assets_differ();
}

/// The names of the parts differ.
pub proof fn lemma_assets_differ()
    ensures
        "daily.js"@ != "daily-helpers.js"@,
        "daily.js"@ != "daily-references.js"@,
        "daily.js"@ != "daily-settings.js"@,
        "daily.js"@ != "daily-navigation.js"@,
        "daily.js"@ != "daily-history.js"@,
        "daily.js"@ != "daily.css"@,
        "daily-helpers.js"@ != "daily-references.js"@,
        "daily-helpers.js"@ != "daily-settings.js"@,
        "daily-helpers.js"@ != "daily-navigation.js"@,
        "daily-helpers.js"@ != "daily-history.js"@,
        "daily-helpers.js"@ != "daily.css"@,
        "daily-references.js"@ != "daily-settings.js"@,
        "daily-references.js"@ != "daily-navigation.js"@,
        "daily-references.js"@ != "daily-history.js"@,
        "daily-references.js"@ != "daily.css"@,
        "daily-settings.js"@ != "daily-navigation.js"@,
        "daily-settings.js"@ != "daily-history.js"@,
        "daily-settings.js"@ != "daily.css"@,
        "daily-navigation.js"@ != "daily-history.js"@,
        "daily-navigation.js"@ != "daily.css"@,
        "daily-history.js"@ != "daily.css"@,
{
    reveal_strlit("daily.js");
    reveal_strlit("daily-helpers.js");
    reveal_strlit("daily-references.js");
    reveal_strlit("daily-settings.js");
    reveal_strlit("daily-navigation.js");
    reveal_strlit("daily-history.js");
    reveal_strlit("daily.css");
    assert("daily.js"@.len() == 8);
    assert("daily-helpers.js"@.len() == 16);
    assert("daily-references.js"@.len() == 19);
    assert("daily-settings.js"@.len() == 17);
    assert("daily-navigation.js"@.len() == 19);
    assert("daily-history.js"@.len() == 16);
    assert("daily.css"@.len() == 9);
    assert("daily-helpers.js"@[7] == 'e');
    assert("daily-history.js"@[7] == 'i');
    assert("daily-references.js"@[6] == 'r');
    assert("daily-navigation.js"@[6] == 'n');
}

} // verus!
