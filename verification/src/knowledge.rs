//! Resolving events against the notes of a workspace.
use crate::digest::{digest_of_text, text_digest};
use crate::identity::{event_group_key, group_key};
use crate::json::Json;
use crate::models::{ContextMapping, StoredLogEvent};
use crate::ordered::{lemma_ordered_set_len, ordered_set, ordered_set_of};
use crate::resolution::{
    CatalogNote, GroupResolution, ResolutionView, broken_count, group_resolution,
    lemma_reviewed_len, matched_fields, resolve_group, reviewed,
};
use crate::text::{
    before_suffix, byte_len, bytes_in, chars_of, lemma_take_step, lemma_views_push, opt_text,
    str_eq, string_of, strip_suffix, views,
};
use vstd::prelude::*;
use vstd::string::*;
use vstd::utf8::*;

verus! {

/// The largest snapshot of resolved context, in bytes.
pub const MAX_CONTEXT_SNAPSHOT_BYTES: usize = 1_048_576;

/// What a resolution records, and what it hands to the model.
#[derive(Debug, PartialEq, Eq)]
pub struct KnowledgeResolution {
    pub snapshot_payload: Json,
    pub vault_context: Json,
}

/// Events that share a key.
pub struct EventGroup<'a> {
    pub key: String,
    pub events: Vec<&'a StoredLogEvent>,
}

/// The events whose key is `key`; `keys` holds the key of each event.
pub open spec fn with_key<'a>(
    events: Seq<&'a StoredLogEvent>,
    keys: Seq<Seq<char>>,
    key: Seq<char>,
) -> Seq<&'a StoredLogEvent>
    decreases events.len(),
{
    if events.len() == 0 || keys.len() != events.len() {
        Seq::empty()
    } else {
        let before = with_key(events.drop_last(), keys.drop_last(), key);
        if keys.last() == key {
            before.push(events.last())
        } else {
            before
        }
    }
}

/// Whether `groups` are the events by key, in the order of the keys.
pub open spec fn groups_by_key(
    groups: Seq<EventGroup>,
    events: Seq<&StoredLogEvent>,
    keys: Seq<Seq<char>>,
) -> bool {
    &&& groups.len() == ordered_set(keys).len()
    &&& forall|i: int|
        0 <= i < groups.len() ==> {
            &&& (#[trigger] groups[i]).key@ == ordered_set(keys)[i]
            &&& groups[i].events@ == with_key(events, keys, ordered_set(keys)[i])
        }
}

pub fn group_by_key<'a>(events: &Vec<&'a StoredLogEvent>, keys: &Vec<String>) -> (r: Vec<
    EventGroup<'a>,
>)
    requires
        events@.len() == keys@.len(),
    ensures
        groups_by_key(r@, events@, views(keys@)),
{
    let ids = ordered_set_of(keys);
    let mut r: Vec<EventGroup<'a>> = Vec::new();
    let ghost ks = views(keys@);
    let ghost all = ordered_set(ks);
    assert(views(ids@).len() == ids@.len());
    let mut i: usize = 0;
    while i < ids.len()
        invariant
            i <= ids@.len(),
            ks == views(keys@),
            all == ordered_set(ks),
            views(ids@) == all,
            ids@.len() == all.len(),
            events@.len() == keys@.len(),
            r@.len() == i,
            forall|n: int|
                0 <= n < i ==> (#[trigger] r@[n]).key@ == all[n] && r@[n].events@ == with_key(
                    events@,
                    ks,
                    all[n],
                ),
        decreases ids@.len() - i,
    {
        let mut members: Vec<&'a StoredLogEvent> = Vec::new();
        let mut k: usize = 0;
        assert(ids@[i as int]@ == all[i as int]);
        assert(events@.take(0) =~= Seq::<&StoredLogEvent>::empty());
        while k < events.len()
            invariant
                i < ids@.len(),
                k <= events@.len(),
                ks == views(keys@),
                events@.len() == keys@.len(),
                ids@[i as int]@ == all[i as int],
                members@ == with_key(events@.take(k as int), ks.take(k as int), all[i as int]),
            decreases events@.len() - k,
        {
            proof {
                lemma_take_step(events@, k as int);
                lemma_take_step(ks, k as int);
            }
            if str_eq(keys[k].as_str(), ids[i].as_str()) {
                members.push(events[k]);
            }
            k += 1;
        }
        assert(events@.take(k as int) =~= events@);
        assert(ks.take(k as int) =~= ks);
        r.push(EventGroup { key: ids[i].as_str().to_owned(), events: members });
        i += 1;
    }
    r
}

/// The group keys of some events.
pub open spec fn group_keys(events: Seq<&StoredLogEvent>) -> Seq<Seq<char>> {
    events.map_values(|e: &StoredLogEvent| group_key(*e))
}

pub open spec fn refs<'a>(events: Seq<StoredLogEvent>) -> Seq<&'a StoredLogEvent> {
    Seq::new(events.len(), |i: int| &events[i])
}

pub fn event_refs<'a>(events: &'a Vec<StoredLogEvent>) -> (r: Vec<&'a StoredLogEvent>)
    ensures
        r@ == refs(events@),
{
    let mut r: Vec<&'a StoredLogEvent> = Vec::new();
    let mut i: usize = 0;
    let ghost all = refs(events@);
    assert(r@ =~= all.take(0));
    while i < events.len()
        invariant
            i <= events@.len(),
            all == refs(events@),
            r@ == all.take(i as int),
        decreases events@.len() - i,
    {
        proof {
            lemma_take_step(all, i as int);
        }
        r.push(&events[i]);
        i += 1;
    }
    assert(all.take(i as int) =~= all);
    r
}

/// The groups of some events by their group keys.
pub fn group_events<'a>(events: &Vec<&'a StoredLogEvent>) -> (r: Vec<EventGroup<'a>>)
    ensures
        groups_by_key(r@, events@, group_keys(events@)),
{
    broadcast use lemma_views_push;
    let mut keys: Vec<String> = Vec::new();
    let mut i: usize = 0;
    let ghost all = group_keys(events@);
    assert(views(keys@) =~= all.take(0));
    while i < events.len()
        invariant
            i <= events@.len(),
            all == group_keys(events@),
            views(keys@) == all.take(i as int),
            keys@.len() == i,
        decreases events@.len() - i,
    {
        proof {
            lemma_take_step(all, i as int);
        }
        keys.push(event_group_key(events[i]));
        i += 1;
    }
    assert(all.take(i as int) =~= all);
    group_by_key(events, &keys)
}

/// The group that events share when a note brings them together.
pub open spec fn canonical_id(path: Seq<char>) -> Seq<char> {
    "canonical:"@ + text_digest(path).take(24)
}

fn canonical_group_id(path: &str) -> (r: String)
    ensures
        r@ == canonical_id(path@),
{
    let digest = chars_of(digest_of_text(path).as_str());
    let mut id = "canonical:".to_owned();
    let head = string_of(&digest, 0, 24);
    assert(head@ =~= digest@.take(24));
    id.push_str(head.as_str());
    id
}

/// Characters that would end or change a link.
pub open spec fn breaks_link(c: char) -> bool {
    c == '\r' || c == '\n' || c == '[' || c == ']' || c == '|' || c == '#' || c == '^'
}

/// The link to a note, where its path can stand in one.
pub open spec fn note_link(path: Seq<char>) -> Option<Seq<char>> {
    match before_suffix(path, ".md"@) {
        Some(name) => if name.len() > 0 && (forall|i: int|
            0 <= i < name.len() ==> !breaks_link(#[trigger] name[i])) && byte_len(name) + 4
            <= 512 {
            Some("[["@ + name + "]]"@)
        } else {
            None
        },
        None => None,
    }
}

pub fn path_wikilink(path: &str) -> (r: Option<String>)
    ensures
        opt_text(r) == note_link(path@),
{
    let name = match strip_suffix(path, ".md") {
        Some(name) => name,
        None => {
            return None;
        },
    };
    let chars = chars_of(name.as_str());
    let mut i: usize = 0;
    while i < chars.len()
        invariant
            chars@ == name@,
            i <= chars@.len(),
            before_suffix(path@, ".md"@) == Some(name@),
            forall|k: int| 0 <= k < i ==> !breaks_link(#[trigger] chars@[k]),
        decreases chars@.len() - i,
    {
        let c = chars[i];
        if c == '\r' || c == '\n' || c == '[' || c == ']' || c == '|' || c == '#' || c == '^' {
            assert(breaks_link(name@[i as int]));
            return None;
        }
        i += 1;
    }
    if chars.len() == 0 || bytes_in(name.as_str()) > 508 {
        return None;
    }
    let mut link = "[[".to_owned();
    link.push_str(name.as_str());
    link.push_str("]]");
    Some(link)
}


/// A group that was resolved to a note.
#[derive(Debug, Clone, PartialEq, Eq)]
pub struct ResolvedGroup {
    pub source_group_id: String,
    pub canonical_group_id: String,
    pub path: String,
    pub link: String,
    pub reason: String,
    pub matched_fields: Vec<String>,
    pub event_ids: Vec<String>,
}

pub struct ResolvedView {
    pub source_group_id: Seq<char>,
    pub canonical_group_id: Seq<char>,
    pub path: Seq<char>,
    pub link: Seq<char>,
    pub reason: Seq<char>,
    pub matched_fields: Seq<Seq<char>>,
    pub event_ids: Seq<Seq<char>>,
}

impl View for ResolvedGroup {
    type V = ResolvedView;

    open spec fn view(&self) -> ResolvedView {
        ResolvedView {
            source_group_id: self.source_group_id@,
            canonical_group_id: self.canonical_group_id@,
            path: self.path@,
            link: self.link@,
            reason: self.reason@,
            matched_fields: views(self.matched_fields@),
            event_ids: views(self.event_ids@),
        }
    }
}

pub open spec fn resolved_views(s: Seq<ResolvedGroup>) -> Seq<ResolvedView> {
    s.map_values(|g: ResolvedGroup| g@)
}

pub open spec fn event_ids(events: Seq<&StoredLogEvent>) -> Seq<Seq<char>> {
    events.map_values(|e: &StoredLogEvent| e.id@)
}

/// What became of some groups.
pub struct OutcomeView {
    pub resolved: Seq<ResolvedView>,
    pub invalid: nat,
    pub ambiguous: nat,
}

/// What becomes of the groups with the keys `ids`.
pub open spec fn outcome(
    existing: Seq<Seq<char>>,
    catalog: Seq<CatalogNote>,
    mappings: Seq<&ContextMapping>,
    events: Seq<&StoredLogEvent>,
    ids: Seq<Seq<char>>,
) -> OutcomeView
    decreases ids.len(),
{
    if ids.len() == 0 {
        OutcomeView { resolved: Seq::empty(), invalid: 0, ambiguous: 0 }
    } else {
        let before = outcome(existing, catalog, mappings, events, ids.drop_last());
        let id = ids.last();
        let members = with_key(events, group_keys(events), id);
        let broken = broken_count(reviewed(mappings, members), existing);
        match group_resolution(existing, catalog, mappings, members) {
            ResolutionView::Unresolved => OutcomeView {
                invalid: before.invalid + broken,
                ..before
            },
            ResolutionView::Ambiguous => OutcomeView {
                invalid: before.invalid + broken,
                ambiguous: before.ambiguous + 1,
                ..before
            },
            ResolutionView::Resolved { path, reason, merge_group, matched_fields } => {
                match note_link(path) {
                    None => OutcomeView { invalid: before.invalid + broken + 1, ..before },
                    Some(link) => OutcomeView {
                        resolved: before.resolved.push(
                            ResolvedView {
                                source_group_id: id,
                                canonical_group_id: if merge_group {
                                    canonical_id(path)
                                } else {
                                    id
                                },
                                path,
                                link,
                                reason,
                                matched_fields,
                                event_ids: event_ids(members),
                            },
                        ),
                        invalid: before.invalid + broken,
                        ..before
                    },
                }
            },
        }
    }
}

/// What became of the groups of a day.
pub struct GroupOutcome {
    pub resolved: Vec<ResolvedGroup>,
    pub invalid: usize,
    pub ambiguous: usize,
}

impl GroupOutcome {
    pub open spec fn says(self, view: OutcomeView) -> bool {
        &&& resolved_views(self.resolved@) == view.resolved
        &&& self.invalid == view.invalid
        &&& self.ambiguous == view.ambiguous
    }
}

pub fn ids_of(events: &Vec<&StoredLogEvent>) -> (r: Vec<String>)
    ensures
        views(r@) == event_ids(events@),
{
    broadcast use lemma_views_push;
    let mut r: Vec<String> = Vec::new();
    let mut i: usize = 0;
    let ghost all = event_ids(events@);
    assert(views(r@) =~= all.take(0));
    while i < events.len()
        invariant
            i <= events@.len(),
            all == event_ids(events@),
            views(r@) == all.take(i as int),
        decreases events@.len() - i,
    {
        proof {
            lemma_take_step(all, i as int);
        }
        r.push(events[i].id.as_str().to_owned());
        i += 1;
    }
    assert(all.take(i as int) =~= all);
    r
}

pub proof fn lemma_broken_len(mappings: Seq<&ContextMapping>, existing: Seq<Seq<char>>)
    ensures
        broken_count(mappings, existing) <= mappings.len(),
    decreases mappings.len(),
{
    if mappings.len() > 0 {
        lemma_broken_len(mappings.drop_last(), existing);
    }
}

/// Resolves every group of some events.
pub fn resolve_groups(
    existing: &Vec<String>,
    catalog: &Vec<CatalogNote>,
    mappings: &Vec<&ContextMapping>,
    events: &Vec<&StoredLogEvent>,
) -> (r: GroupOutcome)
    requires
        (events@.len() + 1) * (mappings@.len() + 1) <= usize::MAX,
    ensures
        r.says(
            outcome(
                views(existing@),
                catalog@,
                mappings@,
                events@,
                ordered_set(group_keys(events@)),
            ),
        ),
{
    let groups = group_events(events);
    let ghost ids = ordered_set(group_keys(events@));
    proof {
        lemma_ordered_set_len(group_keys(events@));
    }
    let mut resolved: Vec<ResolvedGroup> = Vec::new();
    let mut invalid: usize = 0;
    let mut ambiguous: usize = 0;
    let mut i: usize = 0;
    assert(ids.take(0) =~= Seq::<Seq<char>>::empty());
    assert(resolved_views(resolved@) =~= Seq::<ResolvedView>::empty());
    while i < groups.len()
        invariant
            i <= groups@.len(),
            ids == ordered_set(group_keys(events@)),
            groups_by_key(groups@, events@, group_keys(events@)),
            groups@.len() <= events@.len(),
            (events@.len() + 1) * (mappings@.len() + 1) <= usize::MAX,
            ambiguous <= i,
            invalid <= i * (mappings@.len() + 1),
            ({
                let view = outcome(
                    views(existing@),
                    catalog@,
                    mappings@,
                    events@,
                    ids.take(i as int),
                );
                &&& resolved_views(resolved@) == view.resolved
                &&& invalid == view.invalid
                &&& ambiguous == view.ambiguous
            }),
        decreases groups@.len() - i,
    {
        proof {
            lemma_take_step(ids, i as int);
            let m = mappings@.len() + 1;
            assert((i + 1) * m <= (events@.len() + 1) * m) by (nonlinear_arith)
                requires
                    i + 1 <= events@.len() + 1,
                    m >= 0,
            ;
            assert((i + 1) * m == i * m + m) by (nonlinear_arith);
            lemma_reviewed_len(mappings@, groups@[i as int].events@);
            lemma_broken_len(
                reviewed(mappings@, groups@[i as int].events@),
                views(existing@),
            );
        }
        let group = &groups[i];
        let ghost before = resolved@;
        match resolve_group(existing, catalog, mappings, &group.events, &mut invalid) {
            GroupResolution::Resolved { path, reason, merge_group, matched_fields } => {
                match path_wikilink(path.as_str()) {
                    None => {
                        invalid += 1;
                    },
                    Some(link) => {
                        let canonical_group_id = if merge_group {
                            canonical_group_id(path.as_str())
                        } else {
                            group.key.as_str().to_owned()
                        };
                        let record = ResolvedGroup {
                            source_group_id: group.key.as_str().to_owned(),
                            canonical_group_id,
                            path,
                            link,
                            reason,
                            matched_fields,
                            event_ids: ids_of(&group.events),
                        };
                        resolved.push(record);
                        assert(resolved_views(resolved@) =~= resolved_views(before).push(record@));
                    },
                }
            },
            GroupResolution::Ambiguous => {
                ambiguous += 1;
            },
            GroupResolution::Unresolved => {},
        }
        i += 1;
    }
    assert(ids.take(i as int) =~= ids);
    GroupOutcome { resolved, invalid, ambiguous }
}

} // verus!
