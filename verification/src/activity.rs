//! The record of a day as it was logged, without a model.
use crate::curation::lemma_with_key_nonempty;
use crate::drafts::{FactView, WorkstreamView};
use crate::identity::group_key;
use crate::knowledge::{
    EventGroup, event_refs, group_events, group_keys, groups_by_key, outcome, refs, with_key,
};
use crate::models::StoredLogEvent;
use crate::ordered::{
    lemma_ordered_set, lemma_push_contains, lemma_ranked_contains, ordered_set, ranked,
    sort_ranked,
};
use crate::preview_laws::law_recorded_activity_shows;
use crate::revisions::{
    ACTIVITY_LABEL, DailyFact, DailyRevisionContent, DailyWorkstream, DailyWorkstreamView,
    ManualDailyEntry, RevisionView, SnapshotEvidence, daily_fact_views, daily_workstream_views,
    excluded_events, fact_line, preview, still_supported,
};
use crate::text::{lemma_take_step, lemma_views_push, occurs, views};
use crate::vault_links::canonical_links;
use vstd::prelude::*;
use vstd::string::*;

verus! {

/// What an event is recorded as: its own words.
pub open spec fn recorded_fact(event: StoredLogEvent) -> FactView {
    FactView { text: event.message@, evidence: seq![event.id@] }
}

/// The workstream of a group of events. It infers nothing: all that it holds is
/// the activity.
pub open spec fn recorded_workstream(
    key: Seq<char>,
    events: Seq<&StoredLogEvent>,
) -> DailyWorkstreamView {
    DailyWorkstreamView {
        work: WorkstreamView {
            id: key,
            title: events[0].source@,
            evidence: events.map_values(|e: &StoredLogEvent| e.id@),
            outcome: Seq::empty(),
            decision: Seq::empty(),
            trade_off: Seq::empty(),
            validation: Seq::empty(),
            blocker: Seq::empty(),
            follow_up: Seq::empty(),
        },
        links: Seq::empty(),
        activity: events.map_values(|e: &StoredLogEvent| recorded_fact(*e)),
    }
}

/// The workstreams of a record: one for each group of events, with its events by
/// time.
pub open spec fn recorded_workstreams(events: Seq<&StoredLogEvent>) -> Seq<DailyWorkstreamView> {
    let sorted = ranked(events);
    let keys = group_keys(sorted);
    ordered_set(keys).map_values(
        |key: Seq<char>| recorded_workstream(key, with_key(sorted, keys, key)),
    )
}

fn record_group(group: &EventGroup) -> (r: DailyWorkstream)
    requires
        group.events@.len() > 0,
    ensures
        r@ == recorded_workstream(group.key@, group.events@),
{
    broadcast use lemma_views_push;
    let ghost ids = group.events@.map_values(|e: &StoredLogEvent| e.id@);
    let ghost facts = group.events@.map_values(|e: &StoredLogEvent| recorded_fact(*e));
    let mut evidence: Vec<String> = Vec::new();
    let mut activity: Vec<DailyFact> = Vec::new();
    let mut i: usize = 0;
    assert(views(evidence@) =~= ids.take(0));
    assert(daily_fact_views(activity@) =~= facts.take(0));
    while i < group.events.len()
        invariant
            i <= group.events@.len(),
            ids == group.events@.map_values(|e: &StoredLogEvent| e.id@),
            facts == group.events@.map_values(|e: &StoredLogEvent| recorded_fact(*e)),
            views(evidence@) == ids.take(i as int),
            daily_fact_views(activity@) == facts.take(i as int),
        decreases group.events@.len() - i,
    {
        let event: &StoredLogEvent = group.events[i];
        let mut own: Vec<String> = Vec::new();
        own.push(event.id.as_str().to_owned());
        let fact = DailyFact {
            text: event.message.as_str().to_owned(),
            evidence_event_ids: own,
        };
        proof {
            lemma_take_step(ids, i as int);
            lemma_take_step(facts, i as int);
            assert(views(own@) =~= seq![event.id@]);
            assert(daily_fact_views(activity@.push(fact)) =~= daily_fact_views(activity@).push(
                fact@,
            ));
        }
        evidence.push(event.id.as_str().to_owned());
        activity.push(fact);
        i += 1;
    }
    assert(ids.take(i as int) =~= ids);
    assert(facts.take(i as int) =~= facts);
    let r = DailyWorkstream {
        id: group.key.as_str().to_owned(),
        title: group.events[0].source.as_str().to_owned(),
        canonical_links: Vec::new(),
        evidence_event_ids: evidence,
        outcome: Vec::new(),
        decision: Vec::new(),
        trade_off: Vec::new(),
        validation: Vec::new(),
        blocker: Vec::new(),
        follow_up: Vec::new(),
        activity,
    };
    proof {
        let none = Seq::<FactView>::empty();
        assert(r@.work.outcome =~= none);
        assert(r@.work.decision =~= none);
        assert(r@.work.trade_off =~= none);
        assert(r@.work.validation =~= none);
        assert(r@.work.blocker =~= none);
        assert(r@.work.follow_up =~= none);
        assert(r@.links =~= Seq::<Seq<char>>::empty());
    }
    r
}

/// The record of a day.
pub open spec fn recorded_day(
    events: Seq<StoredLogEvent>,
    manual_entry_ids: Seq<Seq<char>>,
) -> RevisionView {
    RevisionView {
        schema_version: 2,
        workstreams: recorded_workstreams(refs(events)),
        manual_entry_ids,
        open_questions: Seq::empty(),
    }
}

/// The record of a day: the words of its events by group and time, and the
/// owner's notes. No model takes part.
pub fn activity_record(events: &Vec<StoredLogEvent>, manual_entry_ids: Vec<String>) -> (r:
    DailyRevisionContent)
    ensures
        r@ == recorded_day(events@, views(manual_entry_ids@)),
{
    let found = event_refs(events);
    let sorted = sort_ranked(&found);
    let groups = group_events(&sorted);
    let ghost keys = group_keys(sorted@);
    let ghost all = recorded_workstreams(refs(events@));
    let mut workstreams: Vec<DailyWorkstream> = Vec::new();
    let mut i: usize = 0;
    assert(daily_workstream_views(workstreams@) =~= all.take(0));
    while i < groups.len()
        invariant
            i <= groups@.len(),
            keys == group_keys(sorted@),
            groups_by_key(groups@, sorted@, keys),
            sorted@ == ranked(refs(events@)),
            all == recorded_workstreams(refs(events@)),
            daily_workstream_views(workstreams@) == all.take(i as int),
        decreases groups@.len() - i,
    {
        proof {
            lemma_take_step(all, i as int);
            lemma_ordered_set(keys);
            assert(groups@[i as int].key@ == ordered_set(keys)[i as int]);
            assert(ordered_set(keys).contains(ordered_set(keys)[i as int]));
            lemma_with_key_nonempty(sorted@, keys, ordered_set(keys)[i as int]);
        }
        let next = record_group(&groups[i]);
        assert(daily_workstream_views(workstreams@.push(next)) =~= daily_workstream_views(
            workstreams@,
        ).push(next@));
        workstreams.push(next);
        i += 1;
    }
    assert(all.take(i as int) =~= all);
    let r = DailyRevisionContent {
        schema_version: 2,
        workstreams,
        manual_entry_ids,
        open_questions: Vec::new(),
    };
    assert(r@.open_questions =~= Seq::<Seq<char>>::empty());
    r
}

proof fn lemma_with_key_holds(
    events: Seq<&StoredLogEvent>,
    keys: Seq<Seq<char>>,
    key: Seq<char>,
    j: int,
)
    requires
        events.len() == keys.len(),
        0 <= j < events.len(),
        keys[j] == key,
    ensures
        with_key(events, keys, key).contains(events[j]),
    decreases events.len(),
{
    let init = events.drop_last();
    let before = with_key(init, keys.drop_last(), key);
    if j < init.len() {
        lemma_with_key_holds(init, keys.drop_last(), key, j);
        assert(init[j] == events[j]);
        lemma_push_contains(before, events.last(), events[j]);
    } else {
        lemma_push_contains(before, events.last(), events[j]);
    }
}

/// Whether an activity of a record is that of an event.
pub open spec fn is_recorded_at(
    ws: Seq<DailyWorkstreamView>,
    i: int,
    k: int,
    event: StoredLogEvent,
) -> bool {
    0 <= i < ws.len() && 0 <= k < ws[i].activity.len() && ws[i].activity[k] == recorded_fact(event)
}

/// An activity record leaves out no event, and infers nothing: each event
/// stands in it with its own words and its own evidence.
pub proof fn law_activity_record_keeps_each_event(events: Seq<StoredLogEvent>, at: int)
    requires
        0 <= at < events.len(),
    ensures
        exists|i: int, k: int| #[trigger]
            is_recorded_at(recorded_workstreams(refs(events)), i, k, events[at]),
{
    let all = refs(events);
    let event = all[at];
    assert(all.contains(event));
    lemma_ranked_contains(all, event);
    let sorted = ranked(all);
    let j = choose|j: int| 0 <= j < sorted.len() && sorted[j] == event;
    let keys = group_keys(sorted);
    let key = group_key(*event);
    assert(keys[j] == key);
    assert(keys.contains(key));
    let ids = ordered_set(keys);
    lemma_ordered_set(keys);
    assert(ids.contains(key));
    let i = choose|i: int| 0 <= i < ids.len() && ids[i] == key;
    lemma_with_key_holds(sorted, keys, key, j);
    let members = with_key(sorted, keys, key);
    let k = choose|k: int| 0 <= k < members.len() && members[k] == event;
    let ws = recorded_workstreams(all);
    assert(ws[i] == recorded_workstream(key, members));
    assert(ws[i].activity[k] == recorded_fact(*members[k]));
    assert(is_recorded_at(ws, i, k, events[at]));
}

/// An activity record shows each event that the owner did not take out, word
/// for word and as a record.
pub proof fn law_activity_record_shows_each_event(
    events: Seq<StoredLogEvent>,
    manual_entry_ids: Seq<Seq<char>>,
    entries: Seq<ManualDailyEntry>,
    evidence: Seq<SnapshotEvidence>,
    at: int,
)
    requires
        0 <= at < events.len(),
        !excluded_events(evidence).contains(events[at].id@),
    ensures
        occurs(
            preview(recorded_day(events, manual_entry_ids), entries, evidence),
            fact_line(ACTIVITY_LABEL@, events[at].message@),
        ),
{
    let content = recorded_day(events, manual_entry_ids);
    law_activity_record_keeps_each_event(events, at);
    let ws = content.workstreams;
    let (i, k) = choose|i: int, k: int| #[trigger] is_recorded_at(ws, i, k, events[at]);
    let fact = ws[i].activity[k];
    assert(!excluded_events(evidence).contains(fact.evidence[0]));
    assert(still_supported(fact, excluded_events(evidence)));
    law_recorded_activity_shows(content, entries, evidence, i, k);
}

} // verus!
