//! Staging proposals for groups of events that have gone quiet.
use crate::curation::{latest, latest_of};
use crate::daily_laws::quiet;
use crate::errors::text2;
use crate::json::{Json, JsonView, empty_record, json_of_text, json_of_texts, put};
use crate::knowledge::{EventGroup, group_by_key, groups_by_key, with_key};
use crate::model_call::{parse_number, parsed_number};
use crate::models::{Moment, StoredLogEvent};
use crate::ordered::{
    Ranked, lemma_ordered_set, lemma_push_contains, lemma_ranked_views,
    lemma_sorted_by_contains, ordered_set, sort_ranked, sorted_by, views_of,
};
use crate::prompt::SuggestMarkdownSummaryArgs;
use crate::requests::str_view;
use crate::snapshot::text_list;
use crate::text::{
    after_prefix, digits_value, is_digit, is_digits, lemma_take_step, lemma_views_push,
    opt_text, starts_with, strip_prefix, views,
};
use crate::vault_links::{formatted, formatted_moment, vault_context};
use vstd::prelude::*;
use vstd::string::*;

verus! {

/// How often groups are looked for, how long they must be quiet, and how many
/// events are taken at once.
#[derive(Debug, Clone, Copy, PartialEq, Eq, Structural)]
pub struct AutoStageConfig {
    pub interval_seconds: u64,
    pub quiet_seconds: i64,
    pub batch_size: u64,
}

/// The number with a sign that a text writes in decimal, where it fits 64 bits.
pub open spec fn parsed_signed(s: Seq<char>) -> Option<int> {
    match after_prefix(s, "-"@) {
        Some(digits) => if digits.len() > 0 && is_digits(digits) && digits_value(digits) <= i64::MAX
            + 1 {
            Some(-(digits_value(digits) as int))
        } else {
            None
        },
        None => match parsed_number(s) {
            Some(n) => if n <= i64::MAX {
                Some(n as int)
            } else {
                None
            },
            None => None,
        },
    }
}

fn parse_signed(s: &str) -> (r: Option<i64>)
    ensures
        match r {
            Some(n) => parsed_signed(s@) == Some(n as int),
            None => parsed_signed(s@) is None,
        },
{
    match strip_prefix(s, "-") {
        Some(digits) => {
            let d: &str = digits.as_str();
            if starts_with(d, "+") {
                proof {
                    reveal_strlit("+");
                    assert("+"@[0] == '+');
                    assert(d@.take(1)[0] == '+');
                    assert(!is_digits(d@)) by {
                        assert(!is_digit(d@[0]));
                    }
                }
                return None;
            }
            match parse_number(d) {
                Some(n) => if n < 0x8000_0000_0000_0000 {
                    Some(-(n as i64))
                } else if n == 0x8000_0000_0000_0000 {
                    Some(i64::MIN)
                } else {
                    None
                },
                None => None,
            }
        },
        None => match parse_number(s) {
            Some(n) => if n <= 0x7fff_ffff_ffff_ffff {
                Some(n as i64)
            } else {
                None
            },
            None => None,
        },
    }
}

pub open spec fn setting_number(value: Option<Seq<char>>, default: nat) -> nat {
    match value {
        Some(text) => match parsed_number(text) {
            Some(n) => n,
            None => default,
        },
        None => default,
    }
}

fn env_u64(value: Option<&str>, default: u64) -> (r: u64)
    ensures
        r == setting_number(str_view(value), default as nat),
{
    match value {
        Some(text) => match parse_number(text) {
            Some(n) => n,
            None => default,
        },
        None => default,
    }
}

impl AutoStageConfig {
    /// The settings, where staging is on: the texts of the interval, of the quiet
    /// period and of the batch size.
    pub fn from_values(interval: Option<&str>, quiet: Option<&str>, batch: Option<&str>) -> (r:
        Option<AutoStageConfig>)
        ensures
            r is Some == (setting_number(str_view(interval), 0) != 0),
            match r {
                Some(config) => {
                    &&& config.interval_seconds == setting_number(str_view(interval), 0)
                    &&& config.quiet_seconds == match str_view(quiet) {
                        Some(text) => match parsed_signed(text) {
                            Some(n) => n,
                            None => 30,
                        },
                        None => 30,
                    }
                    &&& config.batch_size == ({
                        let n = setting_number(str_view(batch), 100);
                        if n < 1 {
                            1
                        } else if n > 500 {
                            500
                        } else {
                            n
                        }
                    })
                },
                None => true,
            },
    {
        let interval_seconds: u64 = env_u64(interval, 0);
        if interval_seconds == 0 {
            return None;
        }
        let quiet_seconds: i64 = match quiet {
            Some(text) => match parse_signed(text) {
                Some(n) => n,
                None => 30,
            },
            None => 30,
        };
        let batch: u64 = env_u64(batch, 100);
        let batch_size: u64 = if batch < 1 {
            1
        } else if batch > 500 {
            500
        } else {
            batch
        };
        Some(AutoStageConfig { interval_seconds, quiet_seconds, batch_size })
    }
}

/// The group that an event is staged with: its task, its session, what it is
/// about, or itself.
pub open spec fn staging_key(event: StoredLogEvent) -> Seq<char> {
    match event.text_field("task_id"@) {
        Some(task) => "task_id:"@ + task,
        None => match event.text_field("session_id"@) {
            Some(session) => "session_id:"@ + session,
            None => match opt_text(event.fingerprint) {
                Some(fingerprint) => "fingerprint:"@ + fingerprint,
                None => "event:"@ + event.id@,
            },
        },
    }
}

pub fn staging_group_key(event: &StoredLogEvent) -> (r: String)
    ensures
        r@ == staging_key(*event),
{
    if let Some(task) = event.get_text("task_id") {
        return text2("task_id:", task);
    }
    if let Some(session) = event.get_text("session_id") {
        return text2("session_id:", session);
    }
    match &event.fingerprint {
        Some(fingerprint) => text2("fingerprint:", fingerprint.as_str()),
        None => text2("event:", event.id.as_str()),
    }
}

/// The place of an event in a sequence.
pub open spec fn sequence_of(event: StoredLogEvent) -> Option<int> {
    match event.field("sequence"@) {
        Some(value) => value.signed(),
        None => None,
    }
}

/// By their places in a sequence where both have one, else by time, then by
/// when they were received.
pub open spec fn event_before(a: StoredLogEvent, b: StoredLogEvent) -> bool {
    match (sequence_of(a), sequence_of(b)) {
        (Some(x), Some(y)) => x < y,
        _ => a.timestamp.is_before(b.timestamp) || (a.timestamp == b.timestamp
            && a.received_at.is_before(b.received_at)),
    }
}

pub open spec fn event_order<'a>() -> spec_fn(&'a StoredLogEvent, &'a StoredLogEvent) -> bool {
    |a: &'a StoredLogEvent, b: &'a StoredLogEvent| event_before(*a, *b)
}

/// An event to be staged.
struct Staged<'a> {
    event: &'a StoredLogEvent,
}

impl<'a> View for Staged<'a> {
    type V = &'a StoredLogEvent;

    closed spec fn view(&self) -> &'a StoredLogEvent {
        self.event
    }
}

impl<'a> Staged<'a> {
    fn sequence(&self) -> (r: Option<i64>)
        ensures
            match r {
                Some(n) => sequence_of(*self@) == Some(n as int),
                None => sequence_of(*self@) is None,
            },
    {
        match self.event.get("sequence") {
            Some(value) => value.as_i64(),
            None => None,
        }
    }
}

impl<'a> Ranked for Staged<'a> {
    closed spec fn ranks_before(&self, other: &Self) -> bool {
        event_before(*self@, *other@)
    }

    fn is_before(&self, other: &Self) -> (r: bool) {
        match (self.sequence(), other.sequence()) {
            (Some(x), Some(y)) => x < y,
            _ => self.event.timestamp.before(&other.event.timestamp) || (self.event.timestamp
                == other.event.timestamp && self.event.received_at.before(
                &other.event.received_at,
            )),
        }
    }
}

fn in_order<'a>(events: &Vec<&'a StoredLogEvent>) -> (r: Vec<&'a StoredLogEvent>)
    ensures
        r@ == sorted_by(events@, event_order()),
{
    let mut staged: Vec<Staged<'a>> = Vec::new();
    let mut i: usize = 0;
    while i < events.len()
        invariant
            i <= events@.len(),
            staged@.len() == i,
            forall|k: int| 0 <= k < i ==> (#[trigger] staged@[k]).event == events@[k],
        decreases events@.len() - i,
    {
        staged.push(Staged { event: events[i] });
        i += 1;
    }
    let mut items: Vec<&Staged<'a>> = Vec::new();
    let mut k: usize = 0;
    while k < staged.len()
        invariant
            k <= staged@.len(),
            items@.len() == k,
            forall|n: int| 0 <= n < k ==> *(#[trigger] items@[n]) == staged@[n],
        decreases staged@.len() - k,
    {
        items.push(&staged[k]);
        k += 1;
    }
    assert(views_of(items@) =~= events@);
    let sorted = sort_ranked(&items);
    proof {
        lemma_ranked_views(items@, event_order());
    }
    let ghost order = views_of(sorted@);
    let mut r: Vec<&'a StoredLogEvent> = Vec::new();
    let mut n: usize = 0;
    assert(r@ =~= order.take(0));
    while n < sorted.len()
        invariant
            n <= sorted@.len(),
            order == views_of(sorted@),
            r@ == order.take(n as int),
        decreases sorted@.len() - n,
    {
        proof {
            lemma_take_step(order, n as int);
        }
        r.push(sorted[n].event);
        n += 1;
    }
    assert(order.take(n as int) =~= order);
    r
}

pub open spec fn staging_keys(events: Seq<&StoredLogEvent>) -> Seq<Seq<char>> {
    events.map_values(|e: &StoredLogEvent| staging_key(*e))
}

/// The groups that events are staged in, in the order of their keys, each with
/// its events in order.
pub open spec fn staging_groups<'a>(events: Seq<&'a StoredLogEvent>) -> Seq<
    (Seq<char>, Seq<&'a StoredLogEvent>),
> {
    let keys = staging_keys(events);
    let ids = ordered_set(keys);
    Seq::new(
        ids.len(),
        |i: int| (ids[i], sorted_by(with_key(events, keys, ids[i]), event_order())),
    )
}

pub open spec fn staged_group_views<'a>(groups: Seq<EventGroup<'a>>) -> Seq<
    (Seq<char>, Seq<&'a StoredLogEvent>),
> {
    groups.map_values(|g: EventGroup<'a>| (g.key@, g.events@))
}

/// The groups that events are staged in.
pub fn group_events_for_staging<'a>(events: &Vec<&'a StoredLogEvent>) -> (r: Vec<EventGroup<'a>>)
    ensures
        staged_group_views(r@) == staging_groups(events@),
{
    broadcast use lemma_views_push;
    let mut keys: Vec<String> = Vec::new();
    let mut i: usize = 0;
    let ghost all = staging_keys(events@);
    assert(views(keys@) =~= all.take(0));
    while i < events.len()
        invariant
            i <= events@.len(),
            all == staging_keys(events@),
            views(keys@) == all.take(i as int),
            keys@.len() == i,
        decreases events@.len() - i,
    {
        proof {
            lemma_take_step(all, i as int);
        }
        keys.push(staging_group_key(events[i]));
        i += 1;
    }
    assert(all.take(i as int) =~= all);
    let groups = group_by_key(events, &keys);
    let ghost wanted = staging_groups(events@);
    let mut r: Vec<EventGroup<'a>> = Vec::new();
    let mut k: usize = 0;
    assert(staged_group_views(r@) =~= wanted.take(0));
    while k < groups.len()
        invariant
            k <= groups@.len(),
            groups_by_key(groups@, events@, all),
            all == staging_keys(events@),
            wanted == staging_groups(events@),
            staged_group_views(r@) == wanted.take(k as int),
        decreases groups@.len() - k,
    {
        proof {
            lemma_take_step(wanted, k as int);
        }
        let ghost before = staged_group_views(r@);
        let group = EventGroup {
            key: groups[k].key.as_str().to_owned(),
            events: in_order(&groups[k].events),
        };
        r.push(group);
        assert(staged_group_views(r@) =~= before.push((group.key@, group.events@)));
        k += 1;
    }
    assert(wanted.take(k as int) =~= wanted);
    r
}

/// Whether an event was received within the last seconds before a moment.
pub open spec fn is_recent(event: StoredLogEvent, now: Moment, quiet_seconds: int) -> bool {
    let since = event.received_at.seconds + quiet_seconds;
    since > now.seconds || (since == now.seconds && event.received_at.nanos > now.nanos)
}

/// Whether no event of a group was received within the last seconds.
pub open spec fn is_quiet(events: Seq<&StoredLogEvent>, now: Moment, quiet_seconds: int) -> bool {
    forall|i: int| 0 <= i < events.len() ==> !is_recent(*#[trigger] events[i], now, quiet_seconds)
}

fn group_is_quiet(events: &Vec<&StoredLogEvent>, now: &Moment, quiet_seconds: i64) -> (r: bool)
    ensures
        r == is_quiet(events@, *now, quiet_seconds as int),
{
    let mut i: usize = 0;
    while i < events.len()
        invariant
            i <= events@.len(),
            forall|k: int|
                0 <= k < i ==> !is_recent(*#[trigger] events@[k], *now, quiet_seconds as int),
        decreases events@.len() - i,
    {
        let at: Moment = events[i].received_at;
        let since: i128 = at.seconds as i128 + quiet_seconds as i128;
        if since > now.seconds as i128 || (since == now.seconds as i128 && at.nanos > now.nanos) {
            assert(is_recent(*events@[i as int], *now, quiet_seconds as int));
            return false;
        }
        i += 1;
    }
    true
}

/// The groups that have gone quiet.
pub open spec fn quiet_groups<'a>(
    groups: Seq<(Seq<char>, Seq<&'a StoredLogEvent>)>,
    now: Moment,
    quiet_seconds: int,
) -> Seq<(Seq<char>, Seq<&'a StoredLogEvent>)>
    decreases groups.len(),
{
    if groups.len() == 0 {
        Seq::empty()
    } else {
        let before = quiet_groups(groups.drop_last(), now, quiet_seconds);
        if is_quiet(groups.last().1, now, quiet_seconds) {
            before.push(groups.last())
        } else {
            before
        }
    }
}

/// The groups that are ready to be staged.
pub fn ready_groups<'a>(
    config: &AutoStageConfig,
    events: &Vec<&'a StoredLogEvent>,
    now: &Moment,
) -> (r: Vec<EventGroup<'a>>)
    ensures
        staged_group_views(r@) == quiet_groups(
            staging_groups(events@),
            *now,
            config.quiet_seconds as int,
        ),
{
    let groups = group_events_for_staging(events);
    let ghost all = staged_group_views(groups@);
    let mut r: Vec<EventGroup<'a>> = Vec::new();
    let mut i: usize = 0;
    assert(all.take(0) =~= Seq::<(Seq<char>, Seq<&StoredLogEvent>)>::empty());
    assert(staged_group_views(r@) =~= Seq::<(Seq<char>, Seq<&StoredLogEvent>)>::empty());
    while i < groups.len()
        invariant
            i <= groups@.len(),
            all == staged_group_views(groups@),
            staged_group_views(r@) == quiet_groups(
                all.take(i as int),
                *now,
                config.quiet_seconds as int,
            ),
        decreases groups@.len() - i,
    {
        proof {
            lemma_take_step(all, i as int);
        }
        if group_is_quiet(&groups[i].events, now, config.quiet_seconds) {
            let ghost before = staged_group_views(r@);
            let mut members: Vec<&'a StoredLogEvent> = Vec::new();
            let mut k: usize = 0;
            let ghost wanted = groups@[i as int].events@;
            assert(members@ =~= wanted.take(0));
            while k < groups[i].events.len()
                invariant
                    i < groups@.len(),
                    k <= wanted.len(),
                    wanted == groups@[i as int].events@,
                    members@ == wanted.take(k as int),
                decreases wanted.len() - k,
            {
                proof {
                    lemma_take_step(wanted, k as int);
                }
                members.push(groups[i].events[k]);
                k += 1;
            }
            assert(wanted.take(k as int) =~= wanted);
            let group = EventGroup { key: groups[i].key.as_str().to_owned(), events: members };
            r.push(group);
            assert(staged_group_views(r@) =~= before.push((group.key@, group.events@)));
        }
        i += 1;
    }
    assert(all.take(i as int) =~= all);
    r
}

/// The notes that some events name.
pub open spec fn canonical_notes(events: Seq<&StoredLogEvent>) -> Seq<Seq<char>>
    decreases events.len(),
{
    if events.len() == 0 {
        Seq::empty()
    } else {
        let before = canonical_notes(events.drop_last());
        match events.last().text_field("canonical_note"@) {
            Some(note) => before.push(note),
            None => before,
        }
    }
}

/// The month and the day of a moment; empty where a date cannot hold it.
pub open spec fn day_name(m: Moment) -> Seq<char> {
    match formatted(m.seconds, m.nanos, "%b %-d"@) {
        Some(text) => text,
        None => Seq::empty(),
    }
}

/// What is said of a vault for a group of events.
pub open spec fn group_vault_context(events: Seq<&StoredLogEvent>) -> JsonView {
    JsonView::Record(
        Map::<Seq<char>, JsonView>::empty().insert(
            "daily_note"@,
            JsonView::Text("Daily log "@ + day_name(latest(events))),
        ).insert("candidate_notes"@, text_list(canonical_notes(events))),
    )
}

fn automatic_vault_context(events: &Vec<&StoredLogEvent>) -> (r: Json)
    requires
        events@.len() > 0,
    ensures
        r@ == group_vault_context(events@),
{
    broadcast use lemma_views_push;
    let mut notes: Vec<String> = Vec::new();
    let mut i: usize = 0;
    assert(events@.take(0) =~= Seq::<&StoredLogEvent>::empty());
    assert(views(notes@) =~= Seq::<Seq<char>>::empty());
    while i < events.len()
        invariant
            i <= events@.len(),
            views(notes@) == canonical_notes(events@.take(i as int)),
        decreases events@.len() - i,
    {
        proof {
            lemma_take_step(events@, i as int);
        }
        if let Some(note) = events[i].get_text("canonical_note") {
            notes.push(note.to_owned());
        }
        i += 1;
    }
    assert(events@.take(i as int) =~= events@);
    let at: Moment = latest_of(events);
    let day = match formatted_moment(at.seconds, at.nanos, "%b %-d") {
        Some(text) => text,
        None => {
            let none = String::new();
            assert(none@ =~= Seq::<char>::empty());
            none
        },
    };
    let mut fields = empty_record();
    put(&mut fields, "daily_note", json_of_text(text2("Daily log ", day.as_str()).as_str()));
    put(&mut fields, "candidate_notes", json_of_texts(&notes));
    Json::Record(fields)
}

/// What a model is asked for a group of events.
pub fn staging_arguments(events: &Vec<&StoredLogEvent>) -> (r: SuggestMarkdownSummaryArgs)
    requires
        events@.len() > 0,
    ensures
        r.vault_context@ == group_vault_context(events@),
        r.mode@ == "daily-note"@,
        opt_text(r.task) == Some(
            "Consolidate this completed activity group into a concise reviewable daily-log proposal."@,
        ),
{
    SuggestMarkdownSummaryArgs {
        vault_context: automatic_vault_context(events),
        mode: "daily-note".to_owned(),
        task: Some(
            "Consolidate this completed activity group into a concise reviewable daily-log proposal.".to_owned(),
        ),
    }
}

proof fn lemma_with_key(
    events: Seq<&StoredLogEvent>,
    keys: Seq<Seq<char>>,
    key: Seq<char>,
    event: &StoredLogEvent,
)
    requires
        keys == staging_keys(events),
    ensures
        with_key(events, keys, key).contains(event) <==> events.contains(event) && staging_key(
            *event,
        ) == key,
    decreases events.len(),
{
    if events.len() > 0 {
        let init = events.drop_last();
        assert(keys.drop_last() =~= staging_keys(init));
        lemma_with_key(init, keys.drop_last(), key, event);
        let before = with_key(init, keys.drop_last(), key);
        let last = events.last();
        assert(events =~= init.push(last));
        assert(keys.last() == staging_key(*last));
        lemma_push_contains(init, last, event);
        lemma_push_contains(before, last, event);
    }
}

/// Events are staged together when they share a key, and only then: a group
/// holds the events of its key and no others.
pub proof fn law_groups_hold_the_events_of_their_key(
    events: Seq<&StoredLogEvent>,
    group: int,
    event: &StoredLogEvent,
)
    requires
        0 <= group < staging_groups(events).len(),
    ensures
        staging_groups(events)[group].1.contains(event) <==> events.contains(event) && staging_key(
            *event,
        ) == staging_groups(events)[group].0,
{
    let keys = staging_keys(events);
    let key = ordered_set(keys)[group];
    lemma_with_key(events, keys, key, event);
    lemma_sorted_by_contains(with_key(events, keys, key), event_order(), event);
}

/// Every event is staged in some group.
pub proof fn law_every_event_is_staged(events: Seq<&StoredLogEvent>, at: int)
    requires
        0 <= at < events.len(),
    ensures
        exists|g: int|
            0 <= g < staging_groups(events).len() && (#[trigger] staging_groups(events)[g]).0
                == staging_key(*events[at]),
{
    let keys = staging_keys(events);
    assert(keys[at] == staging_key(*events[at]));
    lemma_ordered_set(keys);
    assert(keys.contains(keys[at]));
    assert(ordered_set(keys).contains(keys[at]));
    let g = choose|g: int| 0 <= g < ordered_set(keys).len() && ordered_set(keys)[g] == keys[at];
    assert(staging_groups(events)[g].0 == keys[at]);
}

} // verus!
