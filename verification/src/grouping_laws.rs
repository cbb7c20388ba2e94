//! Which events belong together, for a Daily and for staging.
use crate::auto_stage::{
    canonical_notes, day_name, event_before, group_vault_context, is_quiet, is_recent,
    quiet_groups, staging_key,
};
use crate::context_laws::lemma_texts_of_list;
use crate::curation::latest;
use crate::details::earliest;
use crate::identity::{
    group_key, labelled_number, namespace, reference_value, stable_id, url_segments,
};
use crate::json::{JsonView, texts_of_field};
use crate::models::{Moment, StoredLogEvent};
use crate::ordered::lemma_push_contains;
use crate::text::{
    ascii_lowered, at_first_space, is_digit, is_digits, trimmed, white_space, word_len,
};
use vstd::prelude::*;
use vstd::string::*;

verus! {

proof fn lemma_first_space(a: Seq<char>, space: char, b: Seq<char>)
    requires
        forall|i: int| 0 <= i < a.len() ==> !white_space(#[trigger] a[i]),
        white_space(space),
    ensures
        at_first_space(a + seq![space] + b) == Some((a, b)),
    decreases a.len(),
{
    let s = a + seq![space] + b;
    lemma_word_len(a, space, b);
    assert(s.take(a.len() as int) =~= a);
    assert(s.skip(a.len() as int + 1) =~= b);
}

proof fn lemma_word_len(a: Seq<char>, space: char, b: Seq<char>)
    requires
        forall|i: int| 0 <= i < a.len() ==> !white_space(#[trigger] a[i]),
        white_space(space),
    ensures
        word_len(a + seq![space] + b) == a.len(),
    decreases a.len(),
{
    let s = a + seq![space] + b;
    if a.len() > 0 {
        let rest = a.drop_first();
        assert forall|i: int| 0 <= i < rest.len() implies !white_space(#[trigger] rest[i]) by {
            assert(rest[i] == a[i + 1]);
        }
        lemma_word_len(rest, space, b);
        assert(s.drop_first() =~= rest + seq![space] + b);
        assert(s[0] == a[0]);
    } else {
        assert(s[0] == space);
    }
}

/// Whether a text is a number in decimal digits.
pub open spec fn is_number(s: Seq<char>) -> bool {
    s.len() > 0 && forall|i: int| 0 <= i < s.len() ==> '0' <= #[trigger] s[i] <= '9'
}

/// The number of a work item or a pull request is found however it is written: by
/// itself, behind its label in any case, or at the end of the path of its URL.
pub proof fn law_references_by_number(
    number: Seq<char>,
    label: Seq<char>,
    written: Seq<char>,
    segments: Option<Seq<Seq<char>>>,
)
    requires
        is_number(number),
        label.len() > 0,
        forall|i: int| 0 <= i < label.len() ==> 'a' <= #[trigger] label[i] <= 'z',
    ensures
        trimmed(written) == number ==> reference_value(written, label, segments) == number,
        (exists|prefix: Seq<char>| #[trigger]
            ascii_lowered(prefix) == label && trimmed(written) == prefix + seq![' '] + number)
            ==> reference_value(written, label, segments) == number,
{
    assert(is_digits(number));
    if exists|prefix: Seq<char>| #[trigger]
        ascii_lowered(prefix) == label && trimmed(written) == prefix + seq![' '] + number {
        let prefix = choose|prefix: Seq<char>| #[trigger]
            ascii_lowered(prefix) == label && trimmed(written) == prefix + seq![' '] + number;
        let value = trimmed(written);
        assert forall|i: int| 0 <= i < prefix.len() implies !white_space(#[trigger] prefix[i]) by {
            assert(ascii_lowered(prefix)[i] == label[i]);
        }
        lemma_first_space(prefix, ' ', number);
        assert(value[prefix.len() as int] == ' ');
        assert(!is_digits(value)) by {
            if is_digits(value) {
                assert(is_digit(value[prefix.len() as int]));
            }
        }
        assert(ascii_lowered(label) =~= label);
    }
}

/// A reference that is no number goes by the last part of its URL's path where that
/// is one, and else by its own words.
pub proof fn law_references_by_path(
    written: Seq<char>,
    label: Seq<char>,
    parts: Seq<Seq<char>>,
    number: Seq<char>,
)
    requires
        !is_digits(trimmed(written)),
        labelled_number(trimmed(written), label) is None,
    ensures
        is_number(number) ==> reference_value(written, label, Some(parts.push(number))) == number,
        is_number(number) ==> reference_value(
            written,
            label,
            Some(parts.push(number).push(Seq::empty())),
        ) == number,
        reference_value(written, label, None) == stable_id(trimmed(written)),
        number.len() > 0 && !is_digits(number) ==> reference_value(
            written,
            label,
            Some(parts.push(number)),
        ) == stable_id(trimmed(written)),
{
    let all = parts.push(number);
    let more = all.push(Seq::empty());
    assert(more.drop_last() =~= all);
    if is_number(number) {
        assert(is_digits(number));
    }
}

/// Events belong to a repository where they name one, and else to their source.
pub proof fn law_namespace_of_an_event(event: StoredLogEvent)
    ensures
        event.text_field("repo"@) is Some && trimmed(event.text_field("repo"@)->0).len() > 0
            ==> namespace(event) == "repo:"@ + stable_id(event.text_field("repo"@)->0),
        event.text_field("repo"@) is None || trimmed(event.text_field("repo"@)->0).len() == 0
            ==> namespace(event) == "source:"@ + stable_id(event.source@),
{
}

/// What events are grouped by: the work item first, then the pull request, the
/// task, and the session, all within their namespace; an event without any of
/// these stands by itself.
pub proof fn law_group_of_an_event(event: StoredLogEvent)
    ensures
        ({
            let item = event.text_field("work_item"@);
            let request = event.text_field("pull_request"@);
            let task = event.text_field("task_id"@);
            let session = event.text_field("session_id"@);
            let has_task = task is Some && trimmed(task->0).len() > 0;
            let has_session = session is Some && trimmed(session->0).len() > 0;
            &&& item is Some ==> group_key(event) == namespace(event) + "|work-item:"@
                + reference_value(item->0, "ado"@, url_segments(trimmed(item->0)))
            &&& item is None && request is Some ==> group_key(event) == namespace(event)
                + "|pull-request:"@ + reference_value(
                request->0,
                "pr"@,
                url_segments(trimmed(request->0)),
            )
            &&& item is None && request is None && has_task ==> group_key(event) == namespace(event)
                + "|task:"@ + stable_id(task->0)
            &&& item is None && request is None && !has_task && has_session ==> group_key(event)
                == namespace(event) + "|session:"@ + stable_id(session->0)
            &&& item is None && request is None && !has_task && !has_session ==> group_key(event)
                == "event:"@ + stable_id(event.id@)
        }),
{
}

/// What events are staged by: the task first, then the session, then the
/// fingerprint; an event without any of these stands by itself. Events that are
/// staged together share what they are staged by.
pub proof fn law_staging_of_an_event(a: StoredLogEvent, b: StoredLogEvent)
    ensures
        ({
            let task = a.text_field("task_id"@);
            let session = a.text_field("session_id"@);
            &&& task is Some ==> staging_key(a) == "task_id:"@ + task->0
            &&& task is None && session is Some ==> staging_key(a) == "session_id:"@ + session->0
            &&& task is None && session is None && a.fingerprint is Some ==> staging_key(a)
                == "fingerprint:"@ + a.fingerprint->0@
            &&& task is None && session is None && a.fingerprint is None ==> staging_key(a)
                == "event:"@ + a.id@
        }),
        staging_key(a) == staging_key(b) && a.text_field("task_id"@) is Some ==> b.text_field(
            "task_id"@,
        ) == a.text_field("task_id"@),
{
    reveal_strlit("task_id:");
    reveal_strlit("session_id:");
    reveal_strlit("fingerprint:");
    reveal_strlit("event:");
    assert("task_id:"@[0] == 't' && "session_id:"@[0] == 's' && "fingerprint:"@[0] == 'f'
        && "event:"@[0] == 'e');
    if staging_key(a) == staging_key(b) && a.text_field("task_id"@) is Some {
        let p = "task_id:"@;
        let x = a.text_field("task_id"@)->0;
        assert(staging_key(a)[0] == 't');
        assert(b.text_field("task_id"@) is Some);
        let y = b.text_field("task_id"@)->0;
        assert((p + x).skip(p.len() as int) =~= x);
        assert((p + y).skip(p.len() as int) =~= y);
    }
}

/// Events of a group go by their sequence where both have one, and else by when
/// they happened and when they were received.
pub proof fn law_order_of_staged_events(a: StoredLogEvent, b: StoredLogEvent, x: i64, y: i64)
    ensures
        a.field("sequence"@) is Some && b.field("sequence"@) is Some && a.field(
            "sequence"@,
        )->0.signed() == Some(x as int) && b.field("sequence"@)->0.signed() == Some(y as int) ==> (
        event_before(a, b) <==> x < y),
        a.field("sequence"@) is None || b.field("sequence"@) is None ==> (event_before(a, b)
            <==> a.timestamp.is_before(b.timestamp) || (a.timestamp == b.timestamp
            && a.received_at.is_before(b.received_at))),
{
}

/// A group is ready just where none of its events was received within the quiet
/// period; those that are ready stay in their order.
pub proof fn law_groups_are_ready_when_quiet<'a>(
    groups: Seq<(Seq<char>, Seq<&'a StoredLogEvent>)>,
    now: Moment,
    quiet_seconds: int,
)
    ensures
        quiet_groups(groups, now, quiet_seconds) == groups.filter(
            |g: (Seq<char>, Seq<&'a StoredLogEvent>)|
                forall|e: &StoredLogEvent| #[trigger]
                    g.1.contains(e) ==> !(e.received_at.seconds + quiet_seconds > now.seconds || (
                    e.received_at.seconds + quiet_seconds == now.seconds && e.received_at.nanos
                        > now.nanos)),
        ),
    decreases groups.len(),
{
    reveal(Seq::filter);
    if groups.len() > 0 {
        law_groups_are_ready_when_quiet(groups.drop_last(), now, quiet_seconds);
        let events = groups.last().1;
        let calm = forall|e: &StoredLogEvent| #[trigger]
            events.contains(e) ==> !(e.received_at.seconds + quiet_seconds > now.seconds || (
            e.received_at.seconds + quiet_seconds == now.seconds && e.received_at.nanos
                > now.nanos));
        if is_quiet(events, now, quiet_seconds) {
            assert forall|e: &StoredLogEvent| #[trigger] events.contains(e) implies !(
            e.received_at.seconds + quiet_seconds > now.seconds || (e.received_at.seconds
                + quiet_seconds == now.seconds && e.received_at.nanos > now.nanos)) by {
                let i = choose|i: int| 0 <= i < events.len() && events[i] == e;
                assert(!is_recent(*events[i], now, quiet_seconds));
            }
        }
        if calm {
            assert forall|i: int| 0 <= i < events.len() implies !is_recent(
                *#[trigger] events[i],
                now,
                quiet_seconds,
            ) by {
                assert(events.contains(events[i]));
            }
        }
    }
}

proof fn lemma_canonical_notes(events: Seq<&StoredLogEvent>, note: Seq<char>)
    ensures
        canonical_notes(events).contains(note) <==> exists|e: &StoredLogEvent| #[trigger]
            events.contains(e) && e.text_field("canonical_note"@) == Some(note),
    decreases events.len(),
{
    if events.len() > 0 {
        let init = events.drop_last();
        let last = events.last();
        lemma_canonical_notes(init, note);
        assert(events =~= init.push(last));
        lemma_push_contains(init, last, last);
        assert(events.contains(last));
        if last.text_field("canonical_note"@) is Some {
            lemma_push_contains(
                canonical_notes(init),
                last.text_field("canonical_note"@)->0,
                note,
            );
        }
        if exists|e: &StoredLogEvent| #[trigger]
            init.contains(e) && e.text_field("canonical_note"@) == Some(note) {
            let e = choose|e: &StoredLogEvent| #[trigger]
                init.contains(e) && e.text_field("canonical_note"@) == Some(note);
            lemma_push_contains(init, last, e);
            assert(events.contains(e));
        }
        if exists|e: &StoredLogEvent| #[trigger]
            events.contains(e) && e.text_field("canonical_note"@) == Some(note) {
            let e = choose|e: &StoredLogEvent| #[trigger]
                events.contains(e) && e.text_field("canonical_note"@) == Some(note);
            lemma_push_contains(init, last, e);
            if init.contains(e) {
                assert(init.contains(e) && e.text_field("canonical_note"@) == Some(note));
            }
        }
    }
}

/// A group that is staged goes to the note of the day of its latest event, and may
/// link the notes that its events name, and no others.
pub proof fn law_staged_group_goes_to_its_day(events: Seq<&StoredLogEvent>, note: Seq<char>)
    requires
        events.len() > 0,
    ensures
        group_vault_context(events).field("daily_note"@) == Some(
            JsonView::Text("Daily log "@ + day_name(latest(events))),
        ),
        texts_of_field(group_vault_context(events), "candidate_notes"@).contains(note) <==> exists|
            e: &StoredLogEvent,
        | #[trigger]
            events.contains(e) && e.text_field("canonical_note"@) == Some(note),
{
    reveal_strlit("daily_note");
    reveal_strlit("candidate_notes");
    assert("daily_note"@.len() == 10);
    assert("candidate_notes"@.len() == 15);
    lemma_canonical_notes(events, note);
    lemma_texts_of_list(canonical_notes(events));
}

/// The latest moment of some events is that of one of them, and none is later;
/// likewise the earliest.
pub proof fn law_latest_and_earliest(events: Seq<&StoredLogEvent>)
    requires
        events.len() > 0,
    ensures
        exists|i: int| 0 <= i < events.len() && (#[trigger] events[i]).timestamp == latest(events),
        forall|i: int|
            0 <= i < events.len() ==> !latest(events).is_before((#[trigger] events[i]).timestamp),
        exists|i: int| 0 <= i < events.len() && (#[trigger] events[i]).timestamp == earliest(events),
        forall|i: int|
            0 <= i < events.len() ==> !(#[trigger] events[i]).timestamp.is_before(earliest(events)),
    decreases events.len(),
{
    if events.len() == 1 {
        assert(events[0].timestamp == latest(events));
        assert(events[0].timestamp == earliest(events));
    } else {
        let init = events.drop_last();
        let n = events.len() - 1;
        law_latest_and_earliest(init);
        let i = choose|i: int| 0 <= i < init.len() && (#[trigger] init[i]).timestamp == latest(init);
        assert(events[i].timestamp == latest(init));
        let k = choose|k: int|
            0 <= k < init.len() && (#[trigger] init[k]).timestamp == earliest(init);
        assert(events[k].timestamp == earliest(init));
        assert(events[n] == events.last());
        if latest(init).is_before(events.last().timestamp) {
            assert(events[n].timestamp == latest(events));
        } else {
            assert(events[i].timestamp == latest(events));
        }
        if events.last().timestamp.is_before(earliest(init)) {
            assert(events[n].timestamp == earliest(events));
        } else {
            assert(events[k].timestamp == earliest(events));
        }
        assert forall|j: int| 0 <= j < events.len() implies !latest(events).is_before(
            (#[trigger] events[j]).timestamp,
        ) && !events[j].timestamp.is_before(earliest(events)) by {
            if j < n {
                assert(init[j] == events[j]);
                assert(!latest(init).is_before(init[j].timestamp));
                assert(!init[j].timestamp.is_before(earliest(init)));
            }
        }
    }
}

} // verus!
