//! Checking requests: where they come from, and what they ask for.
use crate::curation::at_most;
use crate::details::truncate_texts;
use crate::errors::{
    ApiError, ErrorView, bad_request_of, checks, conflict_of, forbidden_of, text2,
    unauthorized_of,
};
use crate::models::ContextMapping;
use crate::ordered::contains_text;
use crate::resolution::{normal_identity, normalize_identity};
use crate::text::{
    after_prefix, begins_with, byte_len, bytes_in, contains, decimal, decimal_text,
    lemma_take_step, lemma_views_push, lowercase, lowercased, occurs, opt_text, pieces,
    split_char, starts_with, str_eq, strip_prefix, trim, trimmed, views,
};
use vstd::prelude::*;
use vstd::string::*;

verus! {

/// The hosts and origins that requests may come with.
#[derive(Debug, Clone, PartialEq, Eq)]
pub struct RefocusConfig {
    pub allowed_hosts: Vec<String>,
    pub allowed_origins: Vec<String>,
}

/// The values of a list that is separated by commas, without blank ones.
pub open spec fn listed(pieces: Seq<Seq<char>>) -> Seq<Seq<char>>
    decreases pieces.len(),
{
    if pieces.len() == 0 {
        Seq::empty()
    } else if trimmed(pieces.last()).len() == 0 {
        listed(pieces.drop_last())
    } else {
        listed(pieces.drop_last()).push(trimmed(pieces.last()))
    }
}

/// Reads a setting that is a list separated by commas.
pub fn setting_list(value: &str) -> (r: Vec<String>)
    ensures
        views(r@) == listed(pieces(value@, ',')),
{
    broadcast use lemma_views_push;
    let parts = split_char(value, ',');
    let ghost all = views(parts@);
    let mut r: Vec<String> = Vec::new();
    let mut i: usize = 0;
    assert(all.take(0) =~= Seq::<Seq<char>>::empty());
    assert(views(r@) =~= Seq::<Seq<char>>::empty());
    while i < parts.len()
        invariant
            i <= parts@.len(),
            all == views(parts@),
            views(r@) == listed(all.take(i as int)),
        decreases parts@.len() - i,
    {
        proof {
            lemma_take_step(all, i as int);
        }
        let value = trim(parts[i].as_str());
        if !value.as_str().is_empty() {
            r.push(value);
        }
        i += 1;
    }
    assert(all.take(i as int) =~= all);
    r
}

/// Why a request is refused for where it comes from.
pub open spec fn boundary_error(
    hosts: Seq<Seq<char>>,
    origins: Seq<Seq<char>>,
    host: Option<Seq<char>>,
    origin: Option<Seq<char>>,
    require_origin: bool,
) -> Option<ErrorView> {
    if host is None {
        Some(forbidden_of("Host header is required"@))
    } else if !hosts.contains(host->0) {
        Some(forbidden_of("request Host is not allowed"@))
    } else if !require_origin {
        None
    } else if origin is None {
        Some(forbidden_of("Origin header is required"@))
    } else if !origins.contains(origin->0) {
        Some(forbidden_of("request Origin is not allowed"@))
    } else {
        None
    }
}

pub open spec fn str_view(o: Option<&str>) -> Option<Seq<char>> {
    match o {
        Some(s) => Some(s@),
        None => None,
    }
}

/// Refuses requests from hosts and origins that are not allowed.
pub fn validate_request_boundary(
    config: &RefocusConfig,
    host: Option<&str>,
    origin: Option<&str>,
    require_origin: bool,
) -> (r: Result<(), ApiError>)
    ensures
        checks(
            r,
            boundary_error(
                views(config.allowed_hosts@),
                views(config.allowed_origins@),
                str_view(host),
                str_view(origin),
                require_origin,
            ),
        ),
{
    match host {
        None => {
            return Err(ApiError::forbidden("Host header is required"));
        },
        Some(host) => {
            if !contains_text(&config.allowed_hosts, host) {
                return Err(ApiError::forbidden("request Host is not allowed"));
            }
        },
    }
    if require_origin {
        match origin {
            None => {
                return Err(ApiError::forbidden("Origin header is required"));
            },
            Some(origin) => {
                if !contains_text(&config.allowed_origins, origin) {
                    return Err(ApiError::forbidden("request Origin is not allowed"));
                }
            },
        }
    }
    Ok(())
}

/// The value of the first cookie that is the session's.
pub open spec fn cookie_in(cookies: Seq<Seq<char>>) -> Option<Seq<char>>
    decreases cookies.len(),
{
    if cookies.len() == 0 {
        None
    } else {
        match cookie_in(cookies.drop_last()) {
            Some(value) => Some(value),
            None => after_prefix(trimmed(cookies.last()), "log_inbox_session="@),
        }
    }
}

/// The session that a `Cookie` header names.
pub fn session_cookie(header: Option<&str>) -> (r: Option<String>)
    ensures
        opt_text(r) == (match header {
            Some(header) => cookie_in(pieces(header@, ';')),
            None => None,
        }),
{
    let header: &str = match header {
        Some(header) => header,
        None => {
            return None;
        },
    };
    let parts = split_char(header, ';');
    let ghost all = views(parts@);
    let mut found: Option<String> = None;
    let mut i: usize = 0;
    assert(all.take(0) =~= Seq::<Seq<char>>::empty());
    while i < parts.len()
        invariant
            i <= parts@.len(),
            all == views(parts@),
            opt_text(found) == cookie_in(all.take(i as int)),
        decreases parts@.len() - i,
    {
        proof {
            lemma_take_step(all, i as int);
        }
        if found.is_none() {
            found = strip_prefix(trim(parts[i].as_str()).as_str(), "log_inbox_session=");
        }
        i += 1;
    }
    assert(all.take(i as int) =~= all);
    found
}

/// Whether a request came over HTTPS, by its origin.
pub fn request_uses_https(origin: Option<&str>) -> (r: bool)
    ensures
        r == (match origin {
            Some(origin) => begins_with(origin@, "https://"@),
            None => false,
        }),
{
    match origin {
        Some(origin) => starts_with(origin, "https://"),
        None => false,
    }
}

/// The cookie that sets a session, or with an empty token ends it.
pub open spec fn cookie_text(token: Seq<char>, max_age: nat, secure: bool) -> Seq<char> {
    "log_inbox_session="@ + token + "; Path=/; HttpOnly; SameSite=Strict; Max-Age="@ + decimal(
        max_age,
    ) + if secure {
        "; Secure"@
    } else {
        ""@
    }
}

pub fn session_cookie_text(token: &str, max_age: u64, secure: bool) -> (r: String)
    ensures
        r@ == cookie_text(token@, max_age as nat, secure),
{
    let mut r = "log_inbox_session=".to_owned();
    r.push_str(token);
    r.push_str("; Path=/; HttpOnly; SameSite=Strict; Max-Age=");
    r.push_str(decimal_text(max_age).as_str());
    r.push_str(
        if secure {
            "; Secure"
        } else {
            ""
        },
    );
    r
}

/// How long a session may idle, and lasts at most, in seconds.
pub fn session_lifetime(remember_me: bool) -> (r: (u64, u64))
    ensures
        remember_me ==> r.0 == 2_592_000 && r.1 == 2_592_000,
        !remember_me ==> r.0 == 1_800 && r.1 == 28_800,
{
    if remember_me {
        (2_592_000, 2_592_000)
    } else {
        (1_800, 28_800)
    }
}

/// Why a request without a session or a needed token is refused.
pub fn require_credentials(has_cookie: bool, require_csrf: bool, has_csrf: bool) -> (r: Result<
    (),
    ApiError,
>)
    ensures
        checks(
            r,
            if !has_cookie {
                Some(unauthorized_of("dashboard session cookie is missing"@))
            } else if require_csrf && !has_csrf {
                Some(forbidden_of("CSRF token is required"@))
            } else {
                None
            },
        ),
{
    if !has_cookie {
        return Err(ApiError::unauthorized("dashboard session cookie is missing"));
    }
    if require_csrf && !has_csrf {
        return Err(ApiError::forbidden("CSRF token is required"));
    }
    Ok(())
}

/// The limit of a search, if what is searched for and the limit are in bounds.
/// `what` names what is searched.
pub open spec fn search_limits(what: Seq<char>, query: Seq<char>, limit: Option<usize>) -> Result<
    nat,
    ErrorView,
> {
    let limit = match limit {
        Some(limit) => limit,
        None => 20,
    };
    if !(2 <= byte_len(trimmed(query)) <= 100) {
        Err(bad_request_of(what + " search requires 2-100 characters"@))
    } else if !(1 <= limit <= 20) {
        Err(bad_request_of(what + " search limit must be between 1 and 20"@))
    } else {
        Ok(limit as nat)
    }
}

/// Checks a search; gives the query without white space at its ends, and the
/// limit.
pub fn check_search(what: &str, query: &str, limit: Option<usize>) -> (r: Result<
    (String, usize),
    ApiError,
>)
    ensures
        match search_limits(what@, query@, limit) {
            Ok(n) => r is Ok && (r->Ok_0).0@ == trimmed(query@) && (r->Ok_0).1 == n,
            Err(error) => r is Err && r->Err_0@ == error,
        },
{
    let query = trim(query);
    let size: usize = bytes_in(query.as_str());
    if size < 2 || size > 100 {
        return Err(
            ApiError::bad_request(text2(what, " search requires 2-100 characters").as_str()),
        );
    }
    let limit: usize = match limit {
        Some(limit) => limit,
        None => 20,
    };
    if limit < 1 || limit > 20 {
        return Err(
            ApiError::bad_request(text2(what, " search limit must be between 1 and 20").as_str()),
        );
    }
    Ok((query, limit))
}

/// Whether a folder is found by a query.
pub open spec fn folder_found(path: Seq<char>, query: Seq<char>) -> bool {
    occurs(lowercased(path), lowercased(query)) || (path == "."@ && occurs(
        "workspace root"@,
        lowercased(query),
    ))
}

pub open spec fn folders_found(paths: Seq<Seq<char>>, query: Seq<char>) -> Seq<Seq<char>>
    decreases paths.len(),
{
    if paths.len() == 0 {
        Seq::empty()
    } else if folder_found(paths.last(), query) {
        folders_found(paths.drop_last(), query).push(paths.last())
    } else {
        folders_found(paths.drop_last(), query)
    }
}

/// The folders that a query finds, at most `limit`.
pub fn search_folders(paths: &Vec<String>, query: &str, limit: usize) -> (r: Vec<String>)
    ensures
        views(r@) == at_most(folders_found(views(paths@), query@), limit as nat),
{
    broadcast use lemma_views_push;
    let query_text = lowercase(query);
    let ghost all = views(paths@);
    let mut found: Vec<String> = Vec::new();
    let mut i: usize = 0;
    assert(all.take(0) =~= Seq::<Seq<char>>::empty());
    assert(views(found@) =~= Seq::<Seq<char>>::empty());
    while i < paths.len()
        invariant
            i <= paths@.len(),
            all == views(paths@),
            query_text@ == lowercased(query@),
            views(found@) == folders_found(all.take(i as int), query@),
        decreases paths@.len() - i,
    {
        proof {
            lemma_take_step(all, i as int);
        }
        let path: &str = paths[i].as_str();
        if contains(lowercase(path).as_str(), query_text.as_str()) || (str_eq(path, ".")
            && contains("workspace root", query_text.as_str())) {
            found.push(path.to_owned());
        }
        i += 1;
    }
    assert(all.take(i as int) =~= all);
    truncate_texts(found, limit)
}

/// The limit of a Knowledge review.
pub fn review_limit(limit: Option<usize>) -> (r: Result<usize, ApiError>)
    ensures
        ({
            let n = match limit {
                Some(n) => n,
                None => 50,
            };
            if 1 <= n <= 100 {
                r == Ok::<usize, ApiError>(n)
            } else {
                r is Err && r->Err_0@ == bad_request_of(
                    "Knowledge review limit must be between 1 and 100"@,
                )
            }
        }),
{
    let n: usize = match limit {
        Some(n) => n,
        None => 50,
    };
    if n < 1 || n > 100 {
        return Err(ApiError::bad_request("Knowledge review limit must be between 1 and 100"));
    }
    Ok(n)
}

/// What a client is told of a failed resolution: a code, and no names.
pub open spec fn resolution_code(error: Seq<char>) -> Seq<char> {
    if occurs(error, "not available in the selected reference collections"@) || occurs(
        error,
        "matching reference mapping points to an unavailable note"@,
    ) {
        "mapping_outside_collections"@
    } else if occurs(error, "catalog exceeds"@) {
        "catalog_limit"@
    } else {
        "resolver_error"@
    }
}

pub fn public_knowledge_resolution_error_code(error: &str) -> (r: &'static str)
    ensures
        r@ == resolution_code(error@),
{
    if contains(error, "not available in the selected reference collections") || contains(
        error,
        "matching reference mapping points to an unavailable note",
    ) {
        "mapping_outside_collections"
    } else if contains(error, "catalog exceeds") {
        "catalog_limit"
    } else {
        "resolver_error"
    }
}

/// How the target of a mapping stands.
pub fn mapping_target_status(enabled: bool, target_exists: bool) -> (r: &'static str)
    ensures
        r@ == (if !enabled {
            "paused"@
        } else if target_exists {
            "ready"@
        } else {
            "target_missing"@
        }),
{
    if !enabled {
        "paused"
    } else if target_exists {
        "ready"
    } else {
        "target_missing"
    }
}

/// Whether a mapping names exactly that identity and nothing else.
pub open spec fn maps_only(m: ContextMapping, field: Seq<char>, value: Seq<char>) -> bool {
    &&& m.selectors@.len() == 1
    &&& m.selectors@[0].field@ == field
    &&& m.selectors@[0].operator@ == "exact"@
    &&& normal_identity(m.selectors@[0].value@) == normal_identity(value)
}

/// Whether another mapping names that identity already.
pub open spec fn is_taken(
    mappings: Seq<ContextMapping>,
    field: Seq<char>,
    value: Seq<char>,
    except_id: Option<Seq<char>>,
) -> bool {
    exists|i: int|
        0 <= i < mappings.len() && except_id != Some((#[trigger] mappings[i]).id@) && maps_only(
            mappings[i],
            field,
            value,
        )
}

/// Refuses a mapping for an identity that another mapping names already.
pub fn ensure_unique_context_mapping(
    mappings: &Vec<ContextMapping>,
    field: &str,
    value: &str,
    except_id: Option<&str>,
) -> (r: Result<(), ApiError>)
    ensures
        checks(
            r,
            if is_taken(mappings@, field@, value@, str_view(except_id)) {
                Some(conflict_of("This name already has a saved canonical link"@))
            } else {
                None
            },
        ),
{
    let normalized = normalize_identity(value);
    let mut i: usize = 0;
    while i < mappings.len()
        invariant
            i <= mappings@.len(),
            normalized@ == normal_identity(value@),
            forall|k: int|
                0 <= k < i ==> !(str_view(except_id) != Some((#[trigger] mappings@[k]).id@)
                    && maps_only(mappings@[k], field@, value@)),
        decreases mappings@.len() - i,
    {
        let m = &mappings[i];
        let excepted = match except_id {
            Some(id) => str_eq(id, m.id.as_str()),
            None => false,
        };
        if !excepted && m.selectors.len() == 1 {
            let s = &m.selectors[0];
            if str_eq(s.field.as_str(), field) && str_eq(s.operator.as_str(), "exact") && str_eq(
                normalize_identity(s.value.as_str()).as_str(),
                normalized.as_str(),
            ) {
                return Err(ApiError::conflict("This name already has a saved canonical link"));
            }
        }
        i += 1;
    }
    Ok(())
}

/// The error of a mapping that could not be created.
pub fn context_mapping_create_error(message: &str) -> (r: ApiError)
    ensures
        r@ == (if occurs(message@, "UNIQUE constraint failed"@) {
            conflict_of("This name already has a saved canonical link"@)
        } else {
            bad_request_of(message@)
        }),
{
    if contains(message, "UNIQUE constraint failed") {
        ApiError::conflict("This name already has a saved canonical link")
    } else {
        ApiError::bad_request(message)
    }
}

/// The error of a mapping that could not be changed.
pub fn context_mapping_update_error(message: &str) -> (r: ApiError)
    ensures
        r@ == (if occurs(message@, "changed"@) || occurs(message@, "UNIQUE constraint failed"@) {
            conflict_of("This Knowledge link changed or conflicts with another saved link"@)
        } else {
            bad_request_of(message@)
        }),
{
    if contains(message, "changed") || contains(message, "UNIQUE constraint failed") {
        ApiError::conflict("This Knowledge link changed or conflicts with another saved link")
    } else {
        ApiError::bad_request(message)
    }
}

/// The error of an edit that could not be saved.
pub fn edit_error(message: &str) -> (r: ApiError)
    ensures
        r@ == (if occurs(message@, "current proposal revision changed"@) {
            conflict_of("the Daily candidate changed; reload and try again"@)
        } else {
            bad_request_of(message@)
        }),
{
    if contains(message, "current proposal revision changed") {
        ApiError::conflict("the Daily candidate changed; reload and try again")
    } else {
        ApiError::bad_request(message)
    }
}

/// The type of a file of the dashboard; none where there is no such file.
pub open spec fn asset_type(name: Seq<char>) -> Option<Seq<char>> {
    if name == "daily.js"@ || name == "daily-helpers.js"@ || name == "daily-references.js"@ || name
        == "daily-settings.js"@ || name == "daily-navigation.js"@ {
        Some("text/javascript"@)
    } else if name == "daily-history.js"@ {
        Some("text/javascript; charset=utf-8"@)
    } else if name == "daily.css"@ {
        Some("text/css"@)
    } else {
        None
    }
}

pub fn dashboard_asset(name: &str) -> (r: Option<&'static str>)
    ensures
        str_view(r) == asset_type(name@),
{
    if str_eq(name, "daily.js") || str_eq(name, "daily-helpers.js") || str_eq(
        name,
        "daily-references.js",
    ) || str_eq(name, "daily-settings.js") || str_eq(name, "daily-navigation.js") {
        Some("text/javascript")
    } else if str_eq(name, "daily-history.js") {
        Some("text/javascript; charset=utf-8")
    } else if str_eq(name, "daily.css") {
        Some("text/css")
    } else {
        None
    }
}

} // verus!
