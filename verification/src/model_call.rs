//! Calling a model: where it stands, and what may be asked of it.
use crate::drafts::{
    DraftView, FactView, StructuredDailyDraft, StructuredFact, WorkstreamView, fact_views,
};
use crate::json::JsonView;
use crate::knowledge::{outcome, refs};
use crate::models::StoredLogEvent;
use crate::prompt::{SuggestMarkdownSummaryArgs, is_daily};
use crate::proposals::{
    SummaryProposal, fallback_proposal, fallback_view, group_link_texts, links_for_group,
};
use crate::revisions::{
    DailyFact, DailyRevisionContent, DailyWorkstream, DailyWorkstreamView, RevisionView,
    daily_fact_views, daily_workstream_views,
};
use crate::text::{
    after_prefix, all_digits, ascii_lowered, begins_with, chars_of, copy_texts, digits_value,
    eq_ignore_ascii_case, is_digit, is_digits, lemma_take_step, opt_text, pieces, split_char,
    str_eq, string_of, strip_prefix, trim, trimmed, views,
};
use crate::vault_links::canonical_links;
use vstd::prelude::*;
use vstd::string::*;

verus! {

/// The largest answer of a model, in bytes.
pub const MAX_LLM_RESPONSE_BYTES: usize = 262_144;

/// How long a model call may take, unless it is configured.
pub const DEFAULT_LLM_REQUEST_TIMEOUT_SECONDS: u64 = 300;

/// How a model is reached.
#[derive(Debug, Clone, PartialEq, Eq)]
pub struct LlmConfig {
    pub base_url: String,
    pub api_key: Option<String>,
    pub model: String,
    pub request_timeout_seconds: u64,
}

/// The text without slashes at its end.
pub open spec fn without_slashes(s: Seq<char>) -> Seq<char>
    decreases s.len(),
{
    if s.len() > 0 && s.last() == '/' {
        without_slashes(s.drop_last())
    } else {
        s
    }
}

pub fn strip_slashes(s: &str) -> (r: String)
    ensures
        r@ == without_slashes(s@),
{
    let chars = chars_of(s);
    let mut to: usize = chars.len();
    assert(chars@.take(to as int) =~= chars@);
    while to > 0 && chars[to - 1] == '/'
        invariant
            to <= chars@.len(),
            without_slashes(chars@) == without_slashes(chars@.take(to as int)),
        decreases to,
    {
        assert(chars@.take(to as int).drop_last() =~= chars@.take(to - 1));
        to -= 1;
    }
    let r = string_of(&chars, 0, to);
    assert(r@ =~= chars@.take(to as int));
    r
}

/// The number that a text writes in decimal, perhaps behind a plus sign, where
/// it fits 64 bits.
pub open spec fn parsed_number(s: Seq<char>) -> Option<nat> {
    let digits = match after_prefix(s, "+"@) {
        Some(rest) => rest,
        None => s,
    };
    if digits.len() > 0 && is_digits(digits) && digits_value(digits) <= u64::MAX {
        Some(digits_value(digits))
    } else {
        None
    }
}

proof fn lemma_digits_value_grows(s: Seq<char>, n: int)
    requires
        0 <= n <= s.len(),
        is_digits(s),
    ensures
        digits_value(s.take(n)) <= digits_value(s),
    decreases s.len() - n,
{
    if n < s.len() {
        lemma_take_step(s, n);
        assert(is_digit(s[n]));
        lemma_digits_value_grows(s, n + 1);
    } else {
        assert(s.take(n) =~= s);
    }
}

pub fn parse_number(s: &str) -> (r: Option<u64>)
    ensures
        match r {
            Some(n) => parsed_number(s@) == Some(n as nat),
            None => parsed_number(s@) is None,
        },
{
    let digits = match strip_prefix(s, "+") {
        Some(rest) => rest,
        None => s.to_owned(),
    };
    if digits.as_str().is_empty() || !all_digits(digits.as_str()) {
        return None;
    }
    let chars = chars_of(digits.as_str());
    let mut value: u64 = 0;
    let mut i: usize = 0;
    assert(chars@.take(0) =~= Seq::<char>::empty());
    while i < chars.len()
        invariant
            chars@ == digits@,
            is_digits(chars@),
            chars@.len() > 0,
            parsed_number(s@) == (if digits_value(digits@) <= u64::MAX {
                Some(digits_value(digits@))
            } else {
                None
            }),
            i <= chars@.len(),
            value == digits_value(chars@.take(i as int)),
        decreases chars@.len() - i,
    {
        let c = chars[i];
        proof {
            lemma_take_step(chars@, i as int);
            assert(is_digit(chars@[i as int]));
            lemma_digits_value_grows(chars@, i + 1);
        }
        let d: u64 = (c as u8 - 48) as u64;
        if value > (u64::MAX - d) / 10 {
            assert(value * 10 + d > u64::MAX);
            return None;
        }
        assert(value * 10 + d <= u64::MAX);
        value = value * 10 + d;
        i += 1;
    }
    assert(chars@.take(i as int) =~= chars@);
    Some(value)
}

/// How long a model call may take: what is configured, within bounds.
pub open spec fn timeout_seconds(configured: Option<Seq<char>>) -> nat {
    let seconds = match configured {
        Some(text) => match parsed_number(text) {
            Some(n) => n,
            None => DEFAULT_LLM_REQUEST_TIMEOUT_SECONDS as nat,
        },
        None => DEFAULT_LLM_REQUEST_TIMEOUT_SECONDS as nat,
    };
    if seconds < 5 {
        5
    } else if seconds > 1800 {
        1800
    } else {
        seconds
    }
}

impl LlmConfig {
    /// How a model is reached, from what is configured; without a URL, not at all.
    pub fn from_values(
        base_url: Option<String>,
        model: Option<String>,
        api_key: Option<String>,
        timeout: Option<String>,
    ) -> (r: Option<LlmConfig>)
        ensures
            r is Some == base_url is Some,
            r is Some ==> {
                &&& (r->0).base_url@ == without_slashes(base_url->0@)
                &&& (r->0).model@ == (match opt_text(model) {
                    Some(name) => name,
                    None => "llama3.1"@,
                })
                &&& opt_text((r->0).api_key) == (match opt_text(api_key) {
                    Some(key) => if trimmed(key).len() > 0 {
                        Some(key)
                    } else {
                        None
                    },
                    None => None,
                })
                &&& (r->0).request_timeout_seconds == timeout_seconds(opt_text(timeout))
            },
    {
        let base_url = match base_url {
            Some(base_url) => base_url,
            None => {
                return None;
            },
        };
        let model = match model {
            Some(model) => model,
            None => "llama3.1".to_owned(),
        };
        let api_key = match api_key {
            Some(key) => {
                if trim(key.as_str()).as_str().is_empty() {
                    None
                } else {
                    Some(key)
                }
            },
            None => None,
        };
        let seconds: u64 = match timeout {
            Some(text) => match parse_number(text.as_str()) {
                Some(n) => n,
                None => DEFAULT_LLM_REQUEST_TIMEOUT_SECONDS,
            },
            None => DEFAULT_LLM_REQUEST_TIMEOUT_SECONDS,
        };
        let request_timeout_seconds: u64 = if seconds < 5 {
            5
        } else if seconds > 1800 {
            1800
        } else {
            seconds
        };
        Some(
            LlmConfig {
                base_url: strip_slashes(base_url.as_str()),
                api_key,
                model,
                request_timeout_seconds,
            },
        )
    }
}

/// The scheme of a URL; none where the text is no URL.
pub uninterp spec fn url_scheme_of(s: Seq<char>) -> Option<Seq<char>>;

/// The host of a URL; none where the text is no URL or has no host.
pub uninterp spec fn url_host_of(s: Seq<char>) -> Option<Seq<char>>;

/// `Url::parse` and `Url::scheme` of the crate url, which reqwest hands on.
#[verifier::external_body]
fn url_scheme(s: &str) -> (r: Option<String>)
    ensures
        opt_text(r) == url_scheme_of(s@),
{
    reqwest::Url::parse(s).ok().map(|url| url.scheme().to_owned())
}

/// `Url::parse` and `Url::host_str` of the crate url, which reqwest hands on.
#[verifier::external_body]
fn url_host(s: &str) -> (r: Option<String>)
    ensures
        opt_text(r) == url_host_of(s@),
{
    reqwest::Url::parse(s).ok().and_then(|url| url.host_str().map(|host| host.to_owned()))
}

/// Whether a text is a number from 0 to 255 in decimal, without leading zeros.
pub open spec fn is_octet(s: Seq<char>) -> bool {
    &&& 1 <= s.len() <= 3
    &&& is_digits(s)
    &&& s.len() > 1 ==> s[0] != '0'
    &&& digits_value(s) <= 255
}

/// Whether a host, written as a URL's host is, is an address of the machine
/// itself: `::1`, or four numbers of which the first is 127.
pub open spec fn is_loopback_host(host: Seq<char>) -> bool {
    let parts = pieces(host, '.');
    host == "::1"@ || (parts.len() == 4 && parts[0] == "127"@ && is_octet(parts[1]) && is_octet(
        parts[2],
    ) && is_octet(parts[3]))
}

/// Whether a model at that address runs on this machine or beside it, so that
/// the text of notes does not leave it.
pub open spec fn is_local(scheme: Option<Seq<char>>, host: Option<Seq<char>>) -> bool {
    match (scheme, host) {
        (Some(scheme), Some(host)) => (scheme == "http"@ || scheme == "https"@) && (ascii_lowered(
            host,
        ) == ascii_lowered("localhost"@) || ascii_lowered(host) == ascii_lowered("ollama"@)
            || is_loopback_host(without_brackets(host))),
        _ => false,
    }
}

/// The text without square brackets at either end.
pub open spec fn without_brackets(s: Seq<char>) -> Seq<char>
    decreases s.len(),
{
    if s.len() > 0 && (s[0] == '[' || s[0] == ']') {
        without_brackets(s.drop_first())
    } else if s.len() > 0 && (s.last() == '[' || s.last() == ']') {
        without_brackets(s.drop_last())
    } else {
        s
    }
}

fn strip_brackets(s: &str) -> (r: String)
    ensures
        r@ == without_brackets(s@),
{
    let chars = chars_of(s);
    let mut from: usize = 0;
    let mut to: usize = chars.len();
    assert(chars@.subrange(0, to as int) =~= chars@);
    while from < to && (chars[from] == '[' || chars[from] == ']')
        invariant
            from <= to,
            to == chars@.len(),
            without_brackets(chars@) == without_brackets(
                chars@.subrange(from as int, to as int),
            ),
        decreases to - from,
    {
        assert(chars@.subrange(from as int, to as int).drop_first() =~= chars@.subrange(
            from + 1,
            to as int,
        ));
        from += 1;
    }
    while from < to && (chars[to - 1] == '[' || chars[to - 1] == ']')
        invariant
            from <= to <= chars@.len(),
            from < to ==> chars@[from as int] != '[' && chars@[from as int] != ']',
            without_brackets(chars@) == without_brackets(
                chars@.subrange(from as int, to as int),
            ),
        decreases to,
    {
        assert(chars@.subrange(from as int, to as int).drop_last() =~= chars@.subrange(
            from as int,
            to - 1,
        ));
        to -= 1;
    }
    string_of(&chars, from, to)
}

fn octet(s: &str) -> (r: bool)
    ensures
        r == is_octet(s@),
{
    let chars = chars_of(s);
    if chars.len() == 0 || chars.len() > 3 || !all_digits(s) || (chars.len() > 1 && chars[0]
        == '0') {
        return false;
    }
    proof {
        reveal_strlit("+");
        assert(is_digit(s@[0]));
        assert("+"@[0] == '+' && "+"@.len() == 1);
        if begins_with(s@, "+"@) {
            assert(s@[0] == "+"@[0]);
        }
    }
    match parse_number(s) {
        Some(n) => n <= 255,
        None => false,
    }
}

/// Whether a host, written as a URL's host is, is a loopback address.
fn loopback_host(host: &str) -> (r: bool)
    ensures
        r == is_loopback_host(host@),
{
    if str_eq(host, "::1") {
        return true;
    }
    let parts = split_char(host, '.');
    assert(parts@.len() == pieces(host@, '.').len());
    if parts.len() != 4 {
        return false;
    }
    assert forall|i: int| 0 <= i < 4 implies #[trigger] parts@[i]@ == pieces(host@, '.')[i] by {
        assert(views(parts@)[i] == parts@[i]@);
    }
    str_eq(parts[0].as_str(), "127") && octet(parts[1].as_str()) && octet(parts[2].as_str())
        && octet(parts[3].as_str())
}

/// The decision on a scheme and a host.
pub fn address_is_local(scheme: &Option<String>, host: &Option<String>) -> (r: bool)
    ensures
        r == is_local(opt_text(*scheme), opt_text(*host)),
{
    match (scheme, host) {
        (Some(scheme), Some(host)) => (str_eq(scheme.as_str(), "http") || str_eq(
            scheme.as_str(),
            "https",
        )) && (eq_ignore_ascii_case(host.as_str(), "localhost") || eq_ignore_ascii_case(
            host.as_str(),
            "ollama",
        ) || loopback_host(strip_brackets(host.as_str()).as_str())),
        _ => false,
    }
}

/// Whether the text of notes stays local when it is sent to the model.
pub fn knowledge_text_stays_local(config: &LlmConfig) -> (r: bool)
    ensures
        r == is_local(url_scheme_of(config.base_url@), url_host_of(config.base_url@)),
{
    let scheme = url_scheme(config.base_url.as_str());
    let host = url_host(config.base_url.as_str());
    address_is_local(&scheme, &host)
}

/// Whether a Daily may be generated: only as a consolidation, and from evidence.
pub fn check_daily_request(mode: &str, event_count: usize) -> (r: Result<(), String>)
    ensures
        !is_daily(mode@) ==> r is Err && r->Err_0@
            == "automated daily generation requires daily-consolidation mode"@,
        is_daily(mode@) && event_count == 0 ==> r is Err && r->Err_0@
            == "automated daily generation requires evidence"@,
        is_daily(mode@) && event_count > 0 ==> r is Ok,
{
    if !str_eq(mode, "daily-consolidation") {
        return Err("automated daily generation requires daily-consolidation mode".to_owned());
    }
    if event_count == 0 {
        return Err("automated daily generation requires evidence".to_owned());
    }
    Ok(())
}

/// What stands for a summary where no model is configured: nothing for a Daily,
/// and otherwise a proposal to review the events by hand.
pub fn summary_without_model(args: &SuggestMarkdownSummaryArgs, events: &Vec<StoredLogEvent>) -> (r:
    Result<SummaryProposal, String>)
    ensures
        is_daily(args.mode@) ==> r is Err && r->Err_0@
            == "Daily consolidation requires a configured LLM; no raw-log fallback was created."@,
        !is_daily(args.mode@) ==> r is Ok && r->Ok_0@ == fallback_view(
            args.vault_context@,
            refs(events@),
            "not_configured"@,
            "LLM is not configured. Set LOG_INBOX_LLM_BASE_URL and LOG_INBOX_LLM_MODEL."@,
        ),
{
    if str_eq(args.mode.as_str(), "daily-consolidation") {
        return Err(
            "Daily consolidation requires a configured LLM; no raw-log fallback was created.".to_owned(),
        );
    }
    Ok(
        fallback_proposal(
            args,
            events,
            "not_configured",
            "LLM is not configured. Set LOG_INBOX_LLM_BASE_URL and LOG_INBOX_LLM_MODEL.",
        ),
    )
}

/// Whether an answer of a declared length may be read.
pub fn response_length_fits(declared: Option<u64>) -> (r: bool)
    ensures
        r == (declared is None || declared->0 <= MAX_LLM_RESPONSE_BYTES),
{
    match declared {
        Some(length) => length <= MAX_LLM_RESPONSE_BYTES as u64,
        None => true,
    }
}

/// Whether the next part of an answer may be kept.
pub fn response_part_fits(received: usize, part: usize) -> (r: bool)
    ensures
        r == (received + part <= MAX_LLM_RESPONSE_BYTES),
{
    received <= MAX_LLM_RESPONSE_BYTES && part <= MAX_LLM_RESPONSE_BYTES - received
}

pub open spec fn daily_workstream_of(w: WorkstreamView, context: JsonView) -> DailyWorkstreamView {
    DailyWorkstreamView {
        work: w,
        links: group_link_texts(context, w.id),
        activity: Seq::empty(),
    }
}

/// The first revision of a Daily from a draft.
pub open spec fn revision_of(
    draft: DraftView,
    manual_entry_ids: Seq<Seq<char>>,
    context: JsonView,
) -> RevisionView {
    RevisionView {
        schema_version: 1,
        workstreams: draft.workstreams.map_values(
            |w: WorkstreamView| daily_workstream_of(w, context),
        ),
        manual_entry_ids,
        open_questions: draft.open_questions,
    }
}

fn revision_facts(facts: &Vec<StructuredFact>) -> (r: Vec<DailyFact>)
    ensures
        daily_fact_views(r@) == fact_views(facts@),
{
    let ghost all = fact_views(facts@);
    let mut r: Vec<DailyFact> = Vec::new();
    let mut i: usize = 0;
    assert(daily_fact_views(r@) =~= all.take(0));
    while i < facts.len()
        invariant
            i <= facts@.len(),
            all == fact_views(facts@),
            daily_fact_views(r@) == all.take(i as int),
        decreases facts@.len() - i,
    {
        let fact = DailyFact {
            text: facts[i].text.as_str().to_owned(),
            evidence_event_ids: copy_texts(&facts[i].evidence_event_ids),
        };
        let ghost before = r@;
        proof {
            lemma_take_step(all, i as int);
            assert(daily_fact_views(before.push(fact)) =~= daily_fact_views(before).push(fact@));
        }
        r.push(fact);
        i += 1;
    }
    assert(all.take(i as int) =~= all);
    r
}

/// The first revision of a Daily from an accepted draft.
pub fn daily_revision_content(
    draft: &StructuredDailyDraft,
    manual_entry_ids: Vec<String>,
    args: &SuggestMarkdownSummaryArgs,
) -> (r: DailyRevisionContent)
    ensures
        r@ == revision_of(draft@, views(manual_entry_ids@), args.vault_context@),
{
    let ghost context = args.vault_context@;
    let ghost all = revision_of(draft@, views(manual_entry_ids@), context).workstreams;
    let mut workstreams: Vec<DailyWorkstream> = Vec::new();
    let mut i: usize = 0;
    assert(daily_workstream_views(workstreams@) =~= all.take(0));
    while i < draft.workstreams.len()
        invariant
            i <= draft.workstreams@.len(),
            context == args.vault_context@,
            all == draft@.workstreams.map_values(
                |w: WorkstreamView| daily_workstream_of(w, context),
            ),
            daily_workstream_views(workstreams@) == all.take(i as int),
        decreases draft.workstreams@.len() - i,
    {
        let w = &draft.workstreams[i];
        let next = DailyWorkstream {
            id: w.id.as_str().to_owned(),
            title: w.title.as_str().to_owned(),
            canonical_links: links_for_group(args, w.id.as_str()),
            evidence_event_ids: copy_texts(&w.evidence_event_ids),
            outcome: revision_facts(&w.outcome),
            decision: revision_facts(&w.decision),
            trade_off: revision_facts(&w.trade_off),
            validation: revision_facts(&w.validation),
            blocker: revision_facts(&w.blocker),
            follow_up: revision_facts(&w.follow_up),
            activity: Vec::new(),
        };
        let ghost before = workstreams@;
        proof {
            lemma_take_step(all, i as int);
            assert(next@.activity =~= Seq::<FactView>::empty());
            assert(all[i as int] == daily_workstream_of(w@, context));
            assert(daily_workstream_views(before.push(next)) =~= daily_workstream_views(
                before,
            ).push(next@));
        }
        workstreams.push(next);
        i += 1;
    }
    assert(all.take(i as int) =~= all);
    DailyRevisionContent {
        schema_version: 1,
        workstreams,
        manual_entry_ids,
        open_questions: copy_texts(&draft.open_questions),
    }
}

} // verus!
