//! The evidence details that close a summary.
use crate::curation::{at_most, latest, latest_of};
use crate::json::{Json, JsonView, item_strings, texts_in};
use crate::knowledge::{event_ids, ids_of};
use crate::models::{Moment, StoredLogEvent};
use crate::ordered::{ordered_set, ordered_set_of};
use crate::text::{
    begins_with, chars_of, decimal, decimal_text, join, joined, lemma_take_step,
    lemma_views_push, opt_text, push_texts, replace, replaced, split_lines, starts_with,
    string_of, text_lines, trim, trim_left, trim_start, trimmed, views,
};
use vstd::prelude::*;
use vstd::string::*;

verus! {

/// A moment as RFC 3339 writes it; none where a date and time cannot hold it.
pub uninterp spec fn rfc3339(seconds: i64, nanos: u32) -> Option<Seq<char>>;

/// `DateTime::from_timestamp` and `DateTime::to_rfc3339` of chrono, in UTC.
#[verifier::external_body]
pub(crate) fn rfc3339_text(seconds: i64, nanos: u32) -> (r: Option<String>)
    ensures
        opt_text(r) == rfc3339(seconds, nanos),
{
    chrono::DateTime::from_timestamp(seconds, nanos).map(|moment| moment.to_rfc3339())
}

/// The text of a moment; empty where a date and time cannot hold it.
pub open spec fn moment_text(m: Moment) -> Seq<char> {
    match rfc3339(m.seconds, m.nanos) {
        Some(text) => text,
        None => Seq::empty(),
    }
}

pub fn text_of_moment(m: &Moment) -> (r: String)
    ensures
        r@ == moment_text(*m),
{
    match rfc3339_text(m.seconds, m.nanos) {
        Some(text) => text,
        None => {
            let none = String::new();
            assert(none@ =~= Seq::<char>::empty());
            none
        },
    }
}

/// A moment as records write it: RFC 3339 in UTC with a `Z`, and no more digits
/// of a second than it has; none where a date and time cannot hold it.
pub uninterp spec fn record_time(seconds: i64, nanos: u32) -> Option<Seq<char>>;

/// `DateTime::from_timestamp` and `DateTime::to_rfc3339_opts` of chrono, with
/// digits as needed and a `Z`.
#[verifier::external_body]
fn record_time_text(seconds: i64, nanos: u32) -> (r: Option<String>)
    ensures
        opt_text(r) == record_time(seconds, nanos),
{
    let moment = chrono::DateTime::from_timestamp(seconds, nanos)?;
    Some(moment.to_rfc3339_opts(chrono::SecondsFormat::AutoSi, true))
}

/// The text of a moment in a record; empty where a date and time cannot hold
/// it.
pub open spec fn record_moment(m: Moment) -> Seq<char> {
    match record_time(m.seconds, m.nanos) {
        Some(text) => text,
        None => Seq::empty(),
    }
}

pub fn moment_in_record(m: &Moment) -> (r: String)
    ensures
        r@ == record_moment(*m),
{
    match record_time_text(m.seconds, m.nanos) {
        Some(text) => text,
        None => {
            let none = String::new();
            assert(none@ =~= Seq::<char>::empty());
            none
        },
    }
}

/// The earliest moment of some events.
pub open spec fn earliest(events: Seq<&StoredLogEvent>) -> Moment
    recommends
        events.len() > 0,
    decreases events.len(),
{
    if events.len() <= 1 {
        events[0].timestamp
    } else {
        let before = earliest(events.drop_last());
        if events.last().timestamp.is_before(before) {
            events.last().timestamp
        } else {
            before
        }
    }
}

fn earliest_of(events: &Vec<&StoredLogEvent>) -> (r: Moment)
    requires
        events@.len() > 0,
    ensures
        r == earliest(events@),
{
    let mut r: Moment = events[0].timestamp;
    let mut i: usize = 1;
    while i < events.len()
        invariant
            1 <= i <= events@.len(),
            r == earliest(events@.take(i as int)),
        decreases events@.len() - i,
    {
        proof {
            lemma_take_step(events@, i as int);
        }
        if events[i].timestamp.before(&r) {
            r = events[i].timestamp;
        }
        i += 1;
    }
    assert(events@.take(i as int) =~= events@);
    r
}

/// The texts in a metadata field of an event.
pub open spec fn field_texts(event: StoredLogEvent, key: Seq<char>) -> Seq<Seq<char>> {
    match event.field(key) {
        Some(JsonView::Text(s)) => seq![s],
        Some(JsonView::List(items)) => texts_in(items),
        _ => Seq::empty(),
    }
}

pub open spec fn all_field_texts(events: Seq<&StoredLogEvent>, key: Seq<char>) -> Seq<Seq<char>>
    decreases events.len(),
{
    if events.len() == 0 {
        Seq::empty()
    } else {
        all_field_texts(events.drop_last(), key) + field_texts(*events.last(), key)
    }
}

/// The different texts in a metadata field, in order, at most `limit`.
pub open spec fn limited_texts(events: Seq<&StoredLogEvent>, key: Seq<char>, limit: nat) -> Seq<
    Seq<char>,
> {
    at_most(ordered_set(all_field_texts(events, key)), limit)
}

fn push_field_texts(event: &StoredLogEvent, key: &str, out: &mut Vec<String>)
    ensures
        views(final(out)@) == views(old(out)@) + field_texts(*event, key@),
{
    broadcast use lemma_views_push;
    let ghost before = views(out@);
    match event.get(key) {
        Some(Json::Text(s)) => {
            out.push(s.as_str().to_owned());
            assert(views(out@) =~= before + field_texts(*event, key@));
        },
        Some(Json::List(items)) => {
            let texts = item_strings(items);
            push_texts(out, &texts);
        },
        _ => {
            assert(before + field_texts(*event, key@) =~= before);
        },
    }
}

pub fn truncate_texts(texts: Vec<String>, limit: usize) -> (r: Vec<String>)
    ensures
        views(r@) == at_most(views(texts@), limit as nat),
{
    broadcast use lemma_views_push;
    let ghost all = views(texts@);
    let mut r: Vec<String> = Vec::new();
    let mut i: usize = 0;
    assert(views(r@) =~= all.take(0));
    while i < texts.len() && i < limit
        invariant
            i <= texts@.len(),
            i <= limit,
            all == views(texts@),
            views(r@) == all.take(i as int),
        decreases texts@.len() - i,
    {
        proof {
            lemma_take_step(all, i as int);
        }
        r.push(texts[i].as_str().to_owned());
        i += 1;
    }
    proof {
        if all.len() <= limit {
            assert(all.take(i as int) =~= all);
        }
    }
    r
}

pub fn metadata_field_limited(events: &Vec<&StoredLogEvent>, key: &str, limit: usize) -> (r: Vec<
    String,
>)
    ensures
        views(r@) == limited_texts(events@, key@, limit as nat),
{
    let mut texts: Vec<String> = Vec::new();
    let mut i: usize = 0;
    assert(events@.take(0) =~= Seq::<&StoredLogEvent>::empty());
    assert(views(texts@) =~= Seq::<Seq<char>>::empty());
    while i < events.len()
        invariant
            i <= events@.len(),
            views(texts@) == all_field_texts(events@.take(i as int), key@),
        decreases events@.len() - i,
    {
        proof {
            lemma_take_step(events@, i as int);
        }
        push_field_texts(events[i], key, &mut texts);
        i += 1;
    }
    assert(events@.take(i as int) =~= events@);
    truncate_texts(ordered_set_of(&texts), limit)
}

pub open spec fn unquoted(values: Seq<Seq<char>>) -> Seq<Seq<char>> {
    values.map_values(|v: Seq<char>| replaced(v, "`"@, "'"@))
}

/// The values of a detail between backquotes.
pub open spec fn detail(label: Seq<char>, values: Seq<Seq<char>>) -> Seq<char> {
    label + " `"@ + joined(unquoted(values), ", "@) + "`"@
}

/// Details with one more, if it has values.
pub open spec fn with_detail(
    details: Seq<Seq<char>>,
    label: Seq<char>,
    values: Seq<Seq<char>>,
) -> Seq<Seq<char>> {
    if values.len() == 0 {
        details
    } else {
        details.push(detail(label, values))
    }
}

fn detail_text(label: &str, values: &Vec<String>) -> (r: String)
    ensures
        r@ == detail(label@, views(values@)),
{
    broadcast use lemma_views_push;
    proof {
        reveal_strlit("`");
    }
    let ghost all = unquoted(views(values@));
    let mut plain: Vec<String> = Vec::new();
    let mut i: usize = 0;
    assert(views(plain@) =~= all.take(0));
    while i < values.len()
        invariant
            i <= values@.len(),
            "`"@.len() == 1,
            all == unquoted(views(values@)),
            views(plain@) == all.take(i as int),
        decreases values@.len() - i,
    {
        proof {
            lemma_take_step(all, i as int);
        }
        plain.push(replace(values[i].as_str(), "`", "'"));
        i += 1;
    }
    assert(all.take(i as int) =~= all);
    let mut r = label.to_owned();
    r.push_str(" `");
    r.push_str(join(&plain, ", ").as_str());
    r.push_str("`");
    r
}

fn push_detail(details: &mut Vec<String>, label: &str, values: &Vec<String>)
    ensures
        views(final(details)@) == with_detail(views(old(details)@), label@, views(values@)),
{
    broadcast use lemma_views_push;
    assert(views(values@).len() == values@.len());
    if values.len() > 0 {
        let text = detail_text(label, values);
        details.push(text);
    }
}

/// The sources of some events.
pub open spec fn event_sources(events: Seq<&StoredLogEvent>) -> Seq<Seq<char>> {
    events.map_values(|e: &StoredLogEvent| e.source@)
}

/// The labels and metadata fields of the details of a summary.
pub open spec fn detail_fields() -> Seq<(Seq<char>, Seq<char>)> {
    seq![
        ("repo"@, "repo"@),
        ("project"@, "project"@),
        ("product"@, "product"@),
        ("branch"@, "branch"@),
        ("base"@, "base_branch"@),
        ("target"@, "target_branch"@),
        ("commit"@, "commit"@),
        ("status"@, "status"@),
        ("work item"@, "work_item"@),
        ("pull request"@, "pull_request"@),
        ("modules"@, "modules"@),
        ("paths"@, "changed_paths"@),
        ("tests"@, "tests"@),
        ("validation"@, "validation"@),
    ]
}

pub open spec fn with_field_details(
    details: Seq<Seq<char>>,
    events: Seq<&StoredLogEvent>,
    fields: Seq<(Seq<char>, Seq<char>)>,
) -> Seq<Seq<char>>
    decreases fields.len(),
{
    if fields.len() == 0 {
        details
    } else {
        with_detail(
            with_field_details(details, events, fields.drop_last()),
            fields.last().0,
            limited_texts(events, fields.last().1, 12),
        )
    }
}

/// The details of a summary: source, time window, what the metadata names, and
/// the events.
pub open spec fn evidence_details(events: Seq<&StoredLogEvent>) -> Seq<Seq<char>> {
    let source = with_detail(Seq::empty(), "source"@, ordered_set(event_sources(events)));
    let window = if events.len() == 0 {
        source
    } else {
        source.push(
            "window `"@ + moment_text(earliest(events)) + "/"@ + moment_text(latest(events))
                + "`"@,
        )
    };
    let fields = with_field_details(window, events, detail_fields());
    if events.len() <= 12 {
        fields.push(detail("events"@, event_ids(events)))
    } else {
        fields.push(
            "events `"@ + decimal(events.len()) + "` (IDs retained in proposal metadata and SQLite)"@,
        )
    }
}

/// The lines of a text that are no details.
pub open spec fn narrative_lines(lines: Seq<Seq<char>>) -> Seq<Seq<char>>
    decreases lines.len(),
{
    if lines.len() == 0 {
        Seq::empty()
    } else if begins_with(trim_start(lines.last()), "Details:"@) {
        narrative_lines(lines.drop_last())
    } else {
        narrative_lines(lines.drop_last()).push(lines.last())
    }
}

/// A summary, closed by the details of its evidence.
pub open spec fn detailed(markdown: Seq<char>, events: Seq<&StoredLogEvent>) -> Seq<char> {
    trimmed(joined(narrative_lines(text_lines(markdown)), "\n"@)) + "\n\nDetails: "@ + joined(
        evidence_details(events),
        " · "@,
    )
}

fn narrative_of(markdown: &str) -> (r: String)
    ensures
        r@ == joined(narrative_lines(text_lines(markdown@)), "\n"@),
{
    broadcast use lemma_views_push;
    let lines = split_lines(markdown);
    let ghost all = views(lines@);
    let mut kept: Vec<String> = Vec::new();
    let mut i: usize = 0;
    assert(all.take(0) =~= Seq::<Seq<char>>::empty());
    assert(views(kept@) =~= Seq::<Seq<char>>::empty());
    while i < lines.len()
        invariant
            i <= lines@.len(),
            all == views(lines@),
            views(kept@) == narrative_lines(all.take(i as int)),
        decreases lines@.len() - i,
    {
        proof {
            lemma_take_step(all, i as int);
        }
        if !starts_with(trim_left(lines[i].as_str()).as_str(), "Details:") {
            kept.push(lines[i].as_str().to_owned());
        }
        i += 1;
    }
    assert(all.take(i as int) =~= all);
    join(&kept, "\n")
}

fn sources_of_events(events: &Vec<&StoredLogEvent>) -> (r: Vec<String>)
    ensures
        views(r@) == event_sources(events@),
{
    broadcast use lemma_views_push;
    let ghost all = event_sources(events@);
    let mut r: Vec<String> = Vec::new();
    let mut i: usize = 0;
    assert(views(r@) =~= all.take(0));
    while i < events.len()
        invariant
            i <= events@.len(),
            all == event_sources(events@),
            views(r@) == all.take(i as int),
        decreases events@.len() - i,
    {
        proof {
            lemma_take_step(all, i as int);
        }
        r.push(events[i].source.as_str().to_owned());
        i += 1;
    }
    assert(all.take(i as int) =~= all);
    r
}

pub open spec fn field_pair_views(v: Seq<(&str, &str)>) -> Seq<(Seq<char>, Seq<char>)> {
    v.map_values(|p: (&str, &str)| (p.0@, p.1@))
}

fn push_field_details(
    details: &mut Vec<String>,
    events: &Vec<&StoredLogEvent>,
    fields: &Vec<(&str, &str)>,
)
    ensures
        views(final(details)@) == with_field_details(
            views(old(details)@),
            events@,
            field_pair_views(fields@),
        ),
{
    let ghost start = views(details@);
    let ghost all = field_pair_views(fields@);
    let mut i: usize = 0;
    assert(all.take(0) =~= Seq::<(Seq<char>, Seq<char>)>::empty());
    while i < fields.len()
        invariant
            i <= fields@.len(),
            all == field_pair_views(fields@),
            views(details@) == with_field_details(start, events@, all.take(i as int)),
        decreases fields@.len() - i,
    {
        proof {
            lemma_take_step(all, i as int);
        }
        let values = metadata_field_limited(events, fields[i].1, 12);
        push_detail(details, fields[i].0, &values);
        i += 1;
    }
    assert(all.take(i as int) =~= all);
}

/// Closes a summary with the details of its evidence.
pub fn with_evidence_details(markdown: &str, events: &Vec<&StoredLogEvent>) -> (r: String)
    ensures
        r@ == detailed(markdown@, events@),
{
    broadcast use lemma_views_push;
    let mut details: Vec<String> = Vec::new();
    assert(views(details@) =~= Seq::<Seq<char>>::empty());
    let sources = ordered_set_of(&sources_of_events(events));
    push_detail(&mut details, "source", &sources);
    if events.len() > 0 {
        let mut window = "window `".to_owned();
        window.push_str(text_of_moment(&earliest_of(events)).as_str());
        window.push_str("/");
        window.push_str(text_of_moment(&latest_of(events)).as_str());
        window.push_str("`");
        details.push(window);
    }
    let mut fields: Vec<(&str, &str)> = Vec::new();
    fields.push(("repo", "repo"));
    fields.push(("project", "project"));
    fields.push(("product", "product"));
    fields.push(("branch", "branch"));
    fields.push(("base", "base_branch"));
    fields.push(("target", "target_branch"));
    fields.push(("commit", "commit"));
    fields.push(("status", "status"));
    fields.push(("work item", "work_item"));
    fields.push(("pull request", "pull_request"));
    fields.push(("modules", "modules"));
    fields.push(("paths", "changed_paths"));
    fields.push(("tests", "tests"));
    fields.push(("validation", "validation"));
    assert(field_pair_views(fields@) =~= detail_fields());
    push_field_details(&mut details, events, &fields);
    if events.len() <= 12 {
        let ids = ids_of(events);
        details.push(detail_text("events", &ids));
    } else {
        let mut count = "events `".to_owned();
        count.push_str(decimal_text(events.len() as u64).as_str());
        count.push_str("` (IDs retained in proposal metadata and SQLite)");
        details.push(count);
    }
    let mut r = trim(narrative_of(markdown).as_str());
    r.push_str("\n\nDetails: ");
    r.push_str(join(&details, " · ").as_str());
    r
}

pub open spec fn short_commits(values: Seq<Seq<char>>) -> Seq<Seq<char>> {
    values.map_values(|v: Seq<char>| at_most(v, 8))
}

/// The references of a workstream of a Daily.
pub open spec fn daily_details(events: Seq<&StoredLogEvent>) -> Seq<Seq<char>> {
    let fields = with_field_details(
        Seq::empty(),
        events,
        seq![
            ("work item"@, "work_item"@),
            ("pull request"@, "pull_request"@),
            ("commit summary"@, "commit_message"@),
        ],
    );
    let commits = with_detail(
        fields,
        "commits"@,
        short_commits(limited_texts(events, "commit"@, 12)),
    );
    let tests = with_detail(commits, "tests"@, limited_texts(events, "tests"@, 4));
    with_detail(tests, "validation"@, limited_texts(events, "validation"@, 4))
}

/// A section of a Daily, closed by its references.
pub open spec fn referenced(markdown: Seq<char>, events: Seq<&StoredLogEvent>) -> Seq<char> {
    let details = daily_details(events);
    if details.len() == 0 {
        trimmed(markdown)
    } else {
        trimmed(markdown) + "\n\nReferences: "@ + joined(details, " · "@)
    }
}

fn shorten_commits(values: &Vec<String>) -> (r: Vec<String>)
    ensures
        views(r@) == short_commits(views(values@)),
{
    broadcast use lemma_views_push;
    let ghost all = short_commits(views(values@));
    let mut r: Vec<String> = Vec::new();
    let mut i: usize = 0;
    assert(views(r@) =~= all.take(0));
    while i < values.len()
        invariant
            i <= values@.len(),
            all == short_commits(views(values@)),
            views(r@) == all.take(i as int),
        decreases values@.len() - i,
    {
        proof {
            lemma_take_step(all, i as int);
        }
        let chars = chars_of(values[i].as_str());
        let to: usize = if chars.len() <= 8 {
            chars.len()
        } else {
            8
        };
        let short = string_of(&chars, 0, to);
        assert(short@ =~= at_most(values@[i as int]@, 8));
        r.push(short);
        i += 1;
    }
    assert(all.take(i as int) =~= all);
    r
}

/// Closes a section of a Daily with its references.
pub fn with_daily_details(markdown: &str, events: &Vec<&StoredLogEvent>) -> (r: String)
    ensures
        r@ == referenced(markdown@, events@),
{
    let mut details: Vec<String> = Vec::new();
    assert(views(details@) =~= Seq::<Seq<char>>::empty());
    let mut fields: Vec<(&str, &str)> = Vec::new();
    fields.push(("work item", "work_item"));
    fields.push(("pull request", "pull_request"));
    fields.push(("commit summary", "commit_message"));
    assert(field_pair_views(fields@) =~= seq![
        ("work item"@, "work_item"@),
        ("pull request"@, "pull_request"@),
        ("commit summary"@, "commit_message"@),
    ]);
    push_field_details(&mut details, events, &fields);
    let commits = shorten_commits(&metadata_field_limited(events, "commit", 12));
    push_detail(&mut details, "commits", &commits);
    let tests = metadata_field_limited(events, "tests", 4);
    push_detail(&mut details, "tests", &tests);
    let validation = metadata_field_limited(events, "validation", 4);
    push_detail(&mut details, "validation", &validation);
    assert(views(details@).len() == details@.len());
    let mut r = trim(markdown);
    if details.len() > 0 {
        r.push_str("\n\nReferences: ");
        r.push_str(join(&details, " · ").as_str());
    }
    r
}

} // verus!
