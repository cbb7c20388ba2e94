//! Finding notes, and the identities that no note was found for.
use crate::json::{Json, JsonView, lemma_list_view, list_view};
use crate::knowledge::{
    KnowledgeResolution, event_refs, group_events, group_keys, groups_by_key, refs, with_key,
};
use crate::models::{ContextMapping, IgnoredContextIdentity, LinkSelector, Moment, StoredLogEvent};
use crate::notes::MAX_IDENTITY_BYTES;
use crate::ordered::{
    Ranked, contains_text, lemma_ordered_set, lemma_ranked_len, lemma_ranked_views, ordered_set,
    precedes, ranked, sort_ranked, sorted_by, str_less, views_of,
};
use crate::resolution::{
    CatalogNote, automatic_field_names, automatic_fields, field_identities, group_identities,
    normal_identity, normalize_identity,
};
use crate::snapshot::{find_catalog_note, note_at};
use crate::text::{
    byte_len, bytes_in, contains, copy_texts, lemma_take_step, lemma_views_push, occurs, str_eq,
    views,
};
use vstd::prelude::*;
use vstd::string::*;

verus! {

/// A note that the owner may choose.
#[derive(Debug, Clone, PartialEq, Eq)]
pub struct KnowledgeNoteOption {
    pub path: String,
    pub title: String,
    pub collection_ids: Vec<String>,
}

pub struct OptionView {
    pub path: Seq<char>,
    pub title: Seq<char>,
    pub collection_ids: Seq<Seq<char>>,
}

impl View for KnowledgeNoteOption {
    type V = OptionView;

    open spec fn view(&self) -> OptionView {
        OptionView {
            path: self.path@,
            title: self.title@,
            collection_ids: views(self.collection_ids@),
        }
    }
}

pub open spec fn option_of(n: &CatalogNote) -> OptionView {
    OptionView {
        path: n.note.path@,
        title: n.note.title@,
        collection_ids: views(n.collection_ids@),
    }
}

impl Ranked for CatalogNote {
    /// By title without regard to case, then by path.
    open spec fn ranks_before(&self, other: &Self) -> bool {
        let mine = normal_identity(self.note.title@);
        let theirs = normal_identity(other.note.title@);
        precedes(mine, theirs) || (mine == theirs && precedes(self.note.path@, other.note.path@))
    }

    fn is_before(&self, other: &Self) -> (r: bool) {
        let mine = normalize_identity(self.note.title.as_str());
        let theirs = normalize_identity(other.note.title.as_str());
        str_less(mine.as_str(), theirs.as_str()) || (str_eq(mine.as_str(), theirs.as_str())
            && str_less(self.note.path.as_str(), other.note.path.as_str()))
    }
}

/// Whether a name holds the query, without regard to case.
pub open spec fn name_holds(name: Seq<char>, query: Seq<char>) -> bool {
    occurs(normal_identity(name), normal_identity(query))
}

/// Whether a note's title, path or one of its aliases holds the query.
pub open spec fn note_holds(n: CatalogNote, query: Seq<char>) -> bool {
    ||| name_holds(n.note.title@, query)
    ||| name_holds(n.note.path@, query)
    ||| exists|i: int|
        0 <= i < n.note.aliases@.len() && name_holds(#[trigger] views(n.note.aliases@)[i], query)
}

pub open spec fn notes_holding<'a>(catalog: Seq<CatalogNote>, query: Seq<char>) -> Seq<
    &'a CatalogNote,
>
    decreases catalog.len(),
{
    if catalog.len() == 0 {
        Seq::empty()
    } else if note_holds(catalog.last(), query) {
        notes_holding(catalog.drop_last(), query).push(&catalog.last())
    } else {
        notes_holding(catalog.drop_last(), query)
    }
}

/// The first `limit` items of a list.
pub open spec fn at_most<T>(s: Seq<T>, limit: nat) -> Seq<T> {
    if s.len() <= limit {
        s
    } else {
        s.take(limit as int)
    }
}

pub open spec fn option_views(s: Seq<KnowledgeNoteOption>) -> Seq<OptionView> {
    s.map_values(|o: KnowledgeNoteOption| o@)
}

pub open spec fn options_of(s: Seq<&CatalogNote>) -> Seq<OptionView> {
    s.map_values(|n: &CatalogNote| option_of(n))
}

fn note_matches_query(n: &CatalogNote, query: &str) -> (r: bool)
    ensures
        r == note_holds(*n, query@),
{
    let query_text = normalize_identity(query);
    if contains(normalize_identity(n.note.title.as_str()).as_str(), query_text.as_str())
        || contains(normalize_identity(n.note.path.as_str()).as_str(), query_text.as_str()) {
        return true;
    }
    let mut i: usize = 0;
    let ghost aliases = views(n.note.aliases@);
    while i < n.note.aliases.len()
        invariant
            i <= n.note.aliases@.len(),
            aliases == views(n.note.aliases@),
            query_text@ == normal_identity(query@),
            forall|k: int| 0 <= k < i ==> !name_holds(#[trigger] aliases[k], query@),
        decreases n.note.aliases@.len() - i,
    {
        if contains(
            normalize_identity(n.note.aliases[i].as_str()).as_str(),
            query_text.as_str(),
        ) {
            assert(name_holds(aliases[i as int], query@));
            return true;
        }
        i += 1;
    }
    false
}

fn option_from(n: &CatalogNote) -> (r: KnowledgeNoteOption)
    ensures
        r@ == option_of(n),
{
    let collection_ids = copy_texts(&n.collection_ids);
    KnowledgeNoteOption {
        path: n.note.path.as_str().to_owned(),
        title: n.note.title.as_str().to_owned(),
        collection_ids,
    }
}

/// The notes of a catalog that hold a query, by title and path.
pub fn search_note_options(catalog: &Vec<CatalogNote>, query: &str, limit: usize) -> (r: Vec<
    KnowledgeNoteOption,
>)
    ensures
        option_views(r@) == at_most(
            options_of(ranked(notes_holding(catalog@, query@))),
            limit as nat,
        ),
{
    let mut holding: Vec<&CatalogNote> = Vec::new();
    let mut i: usize = 0;
    assert(catalog@.take(0) =~= Seq::<CatalogNote>::empty());
    while i < catalog.len()
        invariant
            i <= catalog@.len(),
            holding@ == notes_holding(catalog@.take(i as int), query@),
        decreases catalog@.len() - i,
    {
        proof {
            lemma_take_step(catalog@, i as int);
        }
        if note_matches_query(&catalog[i], query) {
            holding.push(&catalog[i]);
        }
        i += 1;
    }
    assert(catalog@.take(i as int) =~= catalog@);
    let sorted = sort_ranked(&holding);
    let ghost all = options_of(sorted@);
    let mut r: Vec<KnowledgeNoteOption> = Vec::new();
    let mut k: usize = 0;
    assert(option_views(r@) =~= all.take(0));
    while k < sorted.len() && k < limit
        invariant
            k <= sorted@.len(),
            k <= limit,
            all == options_of(sorted@),
            option_views(r@) == all.take(k as int),
        decreases sorted@.len() - k,
    {
        let ghost before = r@;
        let option = option_from(sorted[k]);
        proof {
            lemma_take_step(all, k as int);
            assert(option_views(before.push(option)) =~= option_views(before).push(option@));
        }
        r.push(option);
        k += 1;
    }
    proof {
        if all.len() <= limit {
            assert(all.take(k as int) =~= all);
        }
    }
    r
}

/// The note of a catalog with that path.
pub fn find_note_option(catalog: &Vec<CatalogNote>, path: &str) -> (r: Option<KnowledgeNoteOption>)
    ensures
        match note_at(catalog@, path@) {
            Some(n) => r is Some && r->0@ == option_of(&n),
            None => r is None,
        },
{
    match find_catalog_note(catalog, path) {
        Some(n) => Some(option_from(n)),
        None => None,
    }
}

/// An identity that no note was found for.
#[derive(Debug, Clone, PartialEq, Eq)]
pub struct UnresolvedIdentity {
    pub field: String,
    pub value: String,
    pub normalized_value: String,
    pub group_count: usize,
    pub event_count: u128,
    pub latest_at: Moment,
}

/// The identities that no note was found for, the most important first.
#[derive(Debug, Clone, PartialEq, Eq)]
pub struct UnresolvedIdentityReview {
    pub identities: Vec<UnresolvedIdentity>,
    pub total_count: usize,
    pub truncated: bool,
}

pub struct UnresolvedView {
    pub field: Seq<char>,
    pub value: Seq<char>,
    pub normalized_value: Seq<char>,
    pub group_count: nat,
    pub event_count: nat,
    pub latest_at: Moment,
}

impl View for UnresolvedIdentity {
    type V = UnresolvedView;

    open spec fn view(&self) -> UnresolvedView {
        UnresolvedView {
            field: self.field@,
            value: self.value@,
            normalized_value: self.normalized_value@,
            group_count: self.group_count as nat,
            event_count: self.event_count as nat,
            latest_at: self.latest_at,
        }
    }
}

pub open spec fn later(a: Moment, b: Moment) -> Moment {
    if a.is_before(b) {
        b
    } else {
        a
    }
}

/// The latest moment of some events.
pub open spec fn latest(events: Seq<&StoredLogEvent>) -> Moment
    recommends
        events.len() > 0,
    decreases events.len(),
{
    if events.len() <= 1 {
        events[0].timestamp
    } else {
        later(latest(events.drop_last()), events.last().timestamp)
    }
}

/// The value of one identity in one group.
pub struct OccurrenceView {
    pub field: Seq<char>,
    pub value: Seq<char>,
    pub event_count: nat,
    pub latest_at: Moment,
}

/// Where the identity of an occurrence stands among some identities, or -1.
pub open spec fn identity_at(
    candidates: Seq<UnresolvedView>,
    field: Seq<char>,
    normalized: Seq<char>,
) -> int
    decreases candidates.len(),
{
    if candidates.len() == 0 {
        -1
    } else if candidates.last().field == field && candidates.last().normalized_value
        == normalized {
        candidates.len() - 1
    } else {
        identity_at(candidates.drop_last(), field, normalized)
    }
}

/// The identities of some occurrences: how often each was seen, when last, and
/// its shortest spelling.
pub open spec fn tally(occurrences: Seq<OccurrenceView>) -> Seq<UnresolvedView>
    decreases occurrences.len(),
{
    if occurrences.len() == 0 {
        Seq::empty()
    } else {
        let before = tally(occurrences.drop_last());
        let o = occurrences.last();
        let normalized = normal_identity(o.value);
        let at = identity_at(before, o.field, normalized);
        if at >= 0 {
            let old = before[at];
            before.update(
                at,
                UnresolvedView {
                    value: if byte_len(o.value) < byte_len(old.value) {
                        o.value
                    } else {
                        old.value
                    },
                    group_count: old.group_count + 1,
                    event_count: old.event_count + o.event_count,
                    latest_at: later(old.latest_at, o.latest_at),
                    ..old
                },
            )
        } else {
            before.push(
                UnresolvedView {
                    field: o.field,
                    value: o.value,
                    normalized_value: normalized,
                    group_count: 1,
                    event_count: o.event_count,
                    latest_at: o.latest_at,
                },
            )
        }
    }
}

/// The rank of a field: broader identities come first.
pub open spec fn field_priority(field: Seq<char>) -> nat {
    if field == "product"@ {
        0
    } else if field == "project"@ {
        1
    } else if field == "repo"@ {
        2
    } else if field == "app"@ {
        3
    } else if field == "service"@ {
        4
    } else if field == "module"@ {
        5
    } else if field == "work_item"@ {
        6
    } else if field == "pull_request"@ {
        7
    } else {
        usize::MAX as nat
    }
}

pub fn identity_priority(field: &str) -> (r: usize)
    ensures
        r == field_priority(field@),
{
    if str_eq(field, "product") {
        0
    } else if str_eq(field, "project") {
        1
    } else if str_eq(field, "repo") {
        2
    } else if str_eq(field, "app") {
        3
    } else if str_eq(field, "service") {
        4
    } else if str_eq(field, "module") {
        5
    } else if str_eq(field, "work_item") {
        6
    } else if str_eq(field, "pull_request") {
        7
    } else {
        usize::MAX
    }
}

impl Ranked for UnresolvedIdentity {
    /// By field, then the most events first, then by value.
    open spec fn ranks_before(&self, other: &Self) -> bool {
        let mine = field_priority(self.field@);
        let theirs = field_priority(other.field@);
        mine < theirs || (mine == theirs && (self.event_count > other.event_count || (
        self.event_count == other.event_count && precedes(
            self.normalized_value@,
            other.normalized_value@,
        ))))
    }

    fn is_before(&self, other: &Self) -> (r: bool) {
        let mine: usize = identity_priority(self.field.as_str());
        let theirs: usize = identity_priority(other.field.as_str());
        mine < theirs || (mine == theirs && (self.event_count > other.event_count || (
        self.event_count == other.event_count && str_less(
            self.normalized_value.as_str(),
            other.normalized_value.as_str(),
        ))))
    }
}


/// The groups that a resolution found a note for.
pub open spec fn resolved_sources(groups: Seq<JsonView>) -> Seq<Seq<char>>
    decreases groups.len(),
{
    if groups.len() == 0 {
        Seq::empty()
    } else {
        let before = resolved_sources(groups.drop_last());
        match groups.last().text_field("source_group_id"@) {
            Some(id) => before.push(id),
            None => before,
        }
    }
}

pub open spec fn sources_of(resolution: Option<&KnowledgeResolution>) -> Seq<Seq<char>> {
    match resolution {
        Some(resolution) => match resolution.snapshot_payload@.list_field("resolved_groups"@) {
            Some(groups) => resolved_sources(groups),
            None => Seq::empty(),
        },
        None => Seq::empty(),
    }
}

/// Whether a selector names exactly that identity.
pub open spec fn selects(selector: LinkSelector, field: Seq<char>, normalized: Seq<char>) -> bool {
    &&& selector.operator@ == "exact"@
    &&& selector.field@ == field
    &&& normal_identity(selector.value@) == normalized
}

/// Whether an enabled mapping names exactly that identity.
pub open spec fn is_mapped(
    mappings: Seq<ContextMapping>,
    field: Seq<char>,
    normalized: Seq<char>,
) -> bool {
    exists|i: int, k: int|
        0 <= i < mappings.len() && mappings[i].enabled && 0 <= k < mappings[i].selectors@.len()
            && selects(#[trigger] mappings[i].selectors@[k], field, normalized)
}

pub open spec fn is_ignored(
    ignored: Seq<IgnoredContextIdentity>,
    field: Seq<char>,
    normalized: Seq<char>,
) -> bool {
    exists|i: int|
        0 <= i < ignored.len() && (#[trigger] ignored[i]).field@ == field
            && ignored[i].normalized_value@ == normalized
}

/// Whether an identity is to be shown for review.
pub open spec fn is_open(
    mappings: Seq<ContextMapping>,
    ignored: Seq<IgnoredContextIdentity>,
    field: Seq<char>,
    value: Seq<char>,
) -> bool {
    &&& byte_len(value) <= MAX_IDENTITY_BYTES
    &&& !is_mapped(mappings, field, normal_identity(value))
    &&& !is_ignored(ignored, field, normal_identity(value))
}

pub open spec fn value_occurrences(
    mappings: Seq<ContextMapping>,
    ignored: Seq<IgnoredContextIdentity>,
    members: Seq<&StoredLogEvent>,
    field: Seq<char>,
    values: Seq<Seq<char>>,
) -> Seq<OccurrenceView>
    decreases values.len(),
{
    if values.len() == 0 {
        Seq::empty()
    } else {
        let before = value_occurrences(mappings, ignored, members, field, values.drop_last());
        if is_open(mappings, ignored, field, values.last()) {
            before.push(
                OccurrenceView {
                    field,
                    value: values.last(),
                    event_count: members.len(),
                    latest_at: latest(members),
                },
            )
        } else {
            before
        }
    }
}

pub open spec fn field_occurrences(
    mappings: Seq<ContextMapping>,
    ignored: Seq<IgnoredContextIdentity>,
    members: Seq<&StoredLogEvent>,
    fields: Seq<Seq<char>>,
) -> Seq<OccurrenceView>
    decreases fields.len(),
{
    if fields.len() == 0 {
        Seq::empty()
    } else {
        field_occurrences(mappings, ignored, members, fields.drop_last()) + value_occurrences(
            mappings,
            ignored,
            members,
            fields.last(),
            group_identities(members, fields.last()),
        )
    }
}

/// The open identities in the groups `ids` that no note was found for.
pub open spec fn occurrences(
    mappings: Seq<ContextMapping>,
    ignored: Seq<IgnoredContextIdentity>,
    resolved: Seq<Seq<char>>,
    events: Seq<&StoredLogEvent>,
    ids: Seq<Seq<char>>,
) -> Seq<OccurrenceView>
    decreases ids.len(),
{
    if ids.len() == 0 {
        Seq::empty()
    } else {
        let before = occurrences(mappings, ignored, resolved, events, ids.drop_last());
        if resolved.contains(ids.last()) {
            before
        } else {
            before + field_occurrences(
                mappings,
                ignored,
                with_key(events, group_keys(events), ids.last()),
                automatic_fields(),
            )
        }
    }
}

struct Occurrence {
    field: String,
    value: String,
    event_count: usize,
    latest_at: Moment,
}

impl View for Occurrence {
    type V = OccurrenceView;

    closed spec fn view(&self) -> OccurrenceView {
        OccurrenceView {
            field: self.field@,
            value: self.value@,
            event_count: self.event_count as nat,
            latest_at: self.latest_at,
        }
    }
}

spec fn occurrence_views(s: Seq<Occurrence>) -> Seq<OccurrenceView> {
    s.map_values(|o: Occurrence| o@)
}

pub open spec fn unresolved_views(s: Seq<UnresolvedIdentity>) -> Seq<UnresolvedView> {
    s.map_values(|o: UnresolvedIdentity| o@)
}

fn mapped(mappings: &Vec<ContextMapping>, field: &str, normalized: &str) -> (r: bool)
    ensures
        r == is_mapped(mappings@, field@, normalized@),
{
    let mut i: usize = 0;
    while i < mappings.len()
        invariant
            i <= mappings@.len(),
            forall|a: int, b: int|
                0 <= a < i && mappings@[a].enabled && 0 <= b < mappings@[a].selectors@.len()
                    ==> !selects(
                    #[trigger] mappings@[a].selectors@[b],
                    field@,
                    normalized@,
                ),
        decreases mappings@.len() - i,
    {
        let selectors = &mappings[i].selectors;
        let mut k: usize = 0;
        while k < selectors.len() && mappings[i].enabled
            invariant
                i < mappings@.len(),
                *selectors == mappings@[i as int].selectors,
                k <= selectors@.len(),
                forall|b: int|
                    0 <= b < k ==> !selects(
                        #[trigger] mappings@[i as int].selectors@[b],
                        field@,
                        normalized@,
                    ),
            decreases selectors@.len() - k,
        {
            if str_eq(selectors[k].operator.as_str(), "exact") && str_eq(
                selectors[k].field.as_str(),
                field,
            ) && str_eq(normalize_identity(selectors[k].value.as_str()).as_str(), normalized) {
                assert(selects(mappings@[i as int].selectors@[k as int], field@, normalized@));
                return true;
            }
            k += 1;
        }
        i += 1;
    }
    false
}

fn ignored_identity(ignored: &Vec<IgnoredContextIdentity>, field: &str, normalized: &str) -> (r:
    bool)
    ensures
        r == is_ignored(ignored@, field@, normalized@),
{
    let mut i: usize = 0;
    while i < ignored.len()
        invariant
            i <= ignored@.len(),
            forall|k: int|
                0 <= k < i ==> !((#[trigger] ignored@[k]).field@ == field@
                    && ignored@[k].normalized_value@ == normalized@),
        decreases ignored@.len() - i,
    {
        if str_eq(ignored[i].field.as_str(), field) && str_eq(
            ignored[i].normalized_value.as_str(),
            normalized,
        ) {
            return true;
        }
        i += 1;
    }
    false
}

pub fn latest_of(events: &Vec<&StoredLogEvent>) -> (r: Moment)
    requires
        events@.len() > 0,
    ensures
        r == latest(events@),
{
    let mut r: Moment = events[0].timestamp;
    let mut i: usize = 1;
    while i < events.len()
        invariant
            1 <= i <= events@.len(),
            r == latest(events@.take(i as int)),
        decreases events@.len() - i,
    {
        proof {
            lemma_take_step(events@, i as int);
        }
        if r.before(&events[i].timestamp) {
            r = events[i].timestamp;
        }
        i += 1;
    }
    assert(events@.take(i as int) =~= events@);
    r
}

fn push_occurrences(
    out: &mut Vec<Occurrence>,
    mappings: &Vec<ContextMapping>,
    ignored: &Vec<IgnoredContextIdentity>,
    members: &Vec<&StoredLogEvent>,
    field: &str,
)
    requires
        members@.len() > 0,
    ensures
        occurrence_views(final(out)@) == occurrence_views(old(out)@) + value_occurrences(
            mappings@,
            ignored@,
            members@,
            field@,
            group_identities(members@, field@),
        ),
{
    let values = field_identities(members, field);
    let latest_at = latest_of(members);
    let ghost before = occurrence_views(out@);
    let ghost all = views(values@);
    let mut i: usize = 0;
    assert(all.take(0) =~= Seq::<Seq<char>>::empty());
    assert(before + Seq::<OccurrenceView>::empty() =~= before);
    while i < values.len()
        invariant
            i <= values@.len(),
            all == views(values@),
            latest_at == latest(members@),
            occurrence_views(out@) == before + value_occurrences(
                mappings@,
                ignored@,
                members@,
                field@,
                all.take(i as int),
            ),
        decreases values@.len() - i,
    {
        proof {
            lemma_take_step(all, i as int);
        }
        let value: &str = values[i].as_str();
        let normalized = normalize_identity(value);
        if bytes_in(value) <= MAX_IDENTITY_BYTES && !mapped(mappings, field, normalized.as_str())
            && !ignored_identity(ignored, field, normalized.as_str()) {
            let occurrence = Occurrence {
                field: field.to_owned(),
                value: value.to_owned(),
                event_count: members.len(),
                latest_at,
            };
            let ghost mid = out@;
            let ghost said = occurrence@;
            out.push(occurrence);
            proof {
                assert(occurrence_views(out@) =~= occurrence_views(mid).push(said));
                assert(occurrence_views(out@) =~= before + value_occurrences(
                    mappings@,
                    ignored@,
                    members@,
                    field@,
                    all.take(i + 1),
                ));
            }
        }
        i += 1;
    }
    assert(all.take(i as int) =~= all);
}

/// A key of the list has events.
pub proof fn lemma_with_key_nonempty(
    events: Seq<&StoredLogEvent>,
    keys: Seq<Seq<char>>,
    key: Seq<char>,
)
    requires
        keys.len() == events.len(),
        keys.contains(key),
    ensures
        with_key(events, keys, key).len() > 0,
    decreases events.len(),
{
    if keys.last() != key {
        let i = choose|i: int| 0 <= i < keys.len() && keys[i] == key;
        assert(keys.drop_last()[i] == key);
        lemma_with_key_nonempty(events.drop_last(), keys.drop_last(), key);
    }
}

fn all_occurrences(
    mappings: &Vec<ContextMapping>,
    ignored: &Vec<IgnoredContextIdentity>,
    resolved: &Vec<String>,
    events: &Vec<&StoredLogEvent>,
) -> (r: Vec<Occurrence>)
    ensures
        occurrence_views(r@) == occurrences(
            mappings@,
            ignored@,
            views(resolved@),
            events@,
            ordered_set(group_keys(events@)),
        ),
{
    let groups = group_events(events);
    let fields = automatic_field_names();
    let ghost ids = ordered_set(group_keys(events@));
    let ghost done = views(resolved@);
    let ghost names = automatic_fields();
    proof {
        lemma_ordered_set(group_keys(events@));
        assert(views(fields@).len() == fields@.len());
    }
    let mut r: Vec<Occurrence> = Vec::new();
    let mut i: usize = 0;
    assert(ids.take(0) =~= Seq::<Seq<char>>::empty());
    assert(occurrence_views(r@) =~= Seq::<OccurrenceView>::empty());
    while i < groups.len()
        invariant
            i <= groups@.len(),
            ids == ordered_set(group_keys(events@)),
            done == views(resolved@),
            names == automatic_fields(),
            views(fields@) == names,
            groups_by_key(groups@, events@, group_keys(events@)),
            forall|y: Seq<char>| #[trigger] ids.contains(y) <==> group_keys(events@).contains(y),
            occurrence_views(r@) == occurrences(
                mappings@,
                ignored@,
                done,
                events@,
                ids.take(i as int),
            ),
        decreases groups@.len() - i,
    {
        proof {
            lemma_take_step(ids, i as int);
            assert(ids.contains(ids[i as int]));
            lemma_with_key_nonempty(events@, group_keys(events@), ids[i as int]);
        }
        let group = &groups[i];
        if !contains_text(resolved, group.key.as_str()) {
            let ghost before = occurrence_views(r@);
            let mut k: usize = 0;
            assert(names.take(0) =~= Seq::<Seq<char>>::empty());
            assert(before + Seq::<OccurrenceView>::empty() =~= before);
            while k < fields.len()
                invariant
                    k <= fields@.len(),
                    names == views(fields@),
                    group.events@.len() > 0,
                    occurrence_views(r@) == before + field_occurrences(
                        mappings@,
                        ignored@,
                        group.events@,
                        names.take(k as int),
                    ),
                decreases fields@.len() - k,
            {
                proof {
                    lemma_take_step(names, k as int);
                }
                push_occurrences(&mut r, mappings, ignored, &group.events, fields[k].as_str());
                assert(occurrence_views(r@) =~= before + field_occurrences(
                    mappings@,
                    ignored@,
                    group.events@,
                    names.take(k + 1),
                ));
                k += 1;
            }
            assert(names.take(k as int) =~= names);
        }
        i += 1;
    }
    assert(ids.take(i as int) =~= ids);
    r
}

fn position_of(candidates: &Vec<UnresolvedIdentity>, field: &str, normalized: &str) -> (r: Option<
    usize,
>)
    ensures
        match r {
            Some(i) => i < candidates@.len() && identity_at(
                unresolved_views(candidates@),
                field@,
                normalized@,
            ) == i,
            None => identity_at(unresolved_views(candidates@), field@, normalized@) < 0,
        },
{
    let mut i: usize = candidates.len();
    let ghost all = unresolved_views(candidates@);
    assert(all.take(i as int) =~= all);
    while i > 0
        invariant
            i <= candidates@.len(),
            all == unresolved_views(candidates@),
            identity_at(all, field@, normalized@) == identity_at(
                all.take(i as int),
                field@,
                normalized@,
            ),
        decreases i,
    {
        assert(all.take(i as int).drop_last() =~= all.take(i - 1));
        assert(all[i - 1] == candidates@[i - 1]@);
        if str_eq(candidates[i - 1].field.as_str(), field) && str_eq(
            candidates[i - 1].normalized_value.as_str(),
            normalized,
        ) {
            return Some(i - 1);
        }
        i -= 1;
    }
    None
}

fn tally_of(occurrences: Vec<Occurrence>) -> (r: Vec<UnresolvedIdentity>)
    ensures
        unresolved_views(r@) == tally(occurrence_views(occurrences@)),
{
    let mut r: Vec<UnresolvedIdentity> = Vec::new();
    let ghost all = occurrence_views(occurrences@);
    let mut i: usize = 0;
    assert(all.take(0) =~= Seq::<OccurrenceView>::empty());
    assert(unresolved_views(r@) =~= Seq::<UnresolvedView>::empty());
    while i < occurrences.len()
        invariant
            i <= occurrences@.len(),
            all == occurrence_views(occurrences@),
            unresolved_views(r@) == tally(all.take(i as int)),
            forall|k: int|
                0 <= k < r@.len() ==> (#[trigger] r@[k]).group_count <= i && r@[k].event_count <= i
                    * 0xffff_ffff_ffff_ffff,
        decreases occurrences@.len() - i,
    {
        proof {
            lemma_take_step(all, i as int);
            assert(all[i as int] == occurrences@[i as int]@);
            assert(i * 0xffff_ffff_ffff_ffff + 0xffff_ffff_ffff_ffff == (i + 1)
                * 0xffff_ffff_ffff_ffff) by (nonlinear_arith);
            assert((i + 1) * 0xffff_ffff_ffff_ffff <= u128::MAX) by (nonlinear_arith)
                requires
                    i + 1 <= 0xffff_ffff_ffff_ffff,
            ;
        }
        let o = &occurrences[i];
        let normalized = normalize_identity(o.value.as_str());
        let ghost before = unresolved_views(r@);
        match position_of(&r, o.field.as_str(), normalized.as_str()) {
            Some(at) => {
                let value = if bytes_in(o.value.as_str()) < bytes_in(r[at].value.as_str()) {
                    o.value.as_str().to_owned()
                } else {
                    r[at].value.as_str().to_owned()
                };
                let latest_at: Moment = if r[at].latest_at.before(&o.latest_at) {
                    o.latest_at
                } else {
                    r[at].latest_at
                };
                let count: u128 = r[at].event_count + o.event_count as u128;
                let next = UnresolvedIdentity {
                    field: o.field.as_str().to_owned(),
                    value,
                    normalized_value: normalized,
                    group_count: r[at].group_count + 1,
                    event_count: count,
                    latest_at,
                };
                proof {
                    lemma_identity_at(before, o.field@, normalized@);
                    assert(before[at as int] == r@[at as int]@);
                }
                let ghost said = next@;
                r.set(at, next);
                assert(unresolved_views(r@) =~= before.update(at as int, said));
            },
            None => {
                let next = UnresolvedIdentity {
                    field: o.field.as_str().to_owned(),
                    value: o.value.as_str().to_owned(),
                    normalized_value: normalized,
                    group_count: 1,
                    event_count: o.event_count as u128,
                    latest_at: o.latest_at,
                };
                let ghost said = next@;
                r.push(next);
                assert(unresolved_views(r@) =~= before.push(said));
            },
        }
        i += 1;
    }
    assert(all.take(i as int) =~= all);
    r
}

proof fn lemma_identity_at(
    candidates: Seq<UnresolvedView>,
    field: Seq<char>,
    normalized: Seq<char>,
)
    ensures
        ({
            let at = identity_at(candidates, field, normalized);
            at >= 0 ==> at < candidates.len() && candidates[at].field == field
                && candidates[at].normalized_value == normalized
        }),
    decreases candidates.len(),
{
    if candidates.len() > 0 {
        lemma_identity_at(candidates.drop_last(), field, normalized);
    }
}

fn sources_in(groups: &Vec<Json>) -> (r: Vec<String>)
    ensures
        views(r@) == resolved_sources(list_view(groups@)),
{
    broadcast use lemma_views_push;
    let mut r: Vec<String> = Vec::new();
    let ghost all = list_view(groups@);
    let mut i: usize = 0;
    proof {
        lemma_list_view(groups@);
        assert(all.take(0) =~= Seq::<JsonView>::empty());
        assert(views(r@) =~= Seq::<Seq<char>>::empty());
    }
    while i < groups.len()
        invariant
            i <= groups@.len(),
            all == list_view(groups@),
            all.len() == groups@.len(),
            forall|k: int| 0 <= k < groups@.len() ==> all[k] == (#[trigger] groups@[k])@,
            views(r@) == resolved_sources(all.take(i as int)),
        decreases groups@.len() - i,
    {
        proof {
            lemma_take_step(all, i as int);
        }
        if let Some(id) = groups[i].get_text("source_group_id") {
            r.push(id.to_owned());
        }
        i += 1;
    }
    assert(all.take(i as int) =~= all);
    r
}

/// The identities of events that no note was found for.
pub open spec fn open_identities(
    events: Seq<StoredLogEvent>,
    mappings: Seq<ContextMapping>,
    ignored: Seq<IgnoredContextIdentity>,
    resolution: Option<&KnowledgeResolution>,
) -> Seq<UnresolvedView> {
    tally(
        occurrences(
            mappings,
            ignored,
            sources_of(resolution),
            refs(events),
            ordered_set(group_keys(refs(events))),
        ),
    )
}

/// By field, then the most events first, then by value.
pub open spec fn shown_before(a: UnresolvedView, b: UnresolvedView) -> bool {
    let mine = field_priority(a.field);
    let theirs = field_priority(b.field);
    mine < theirs || (mine == theirs && (a.event_count > b.event_count || (a.event_count
        == b.event_count && precedes(a.normalized_value, b.normalized_value))))
}

/// The order in which identities are shown.
pub open spec fn shown_order() -> spec_fn(UnresolvedView, UnresolvedView) -> bool {
    |a: UnresolvedView, b: UnresolvedView| shown_before(a, b)
}

/// The identities of events that no note was found for, for the owner to
/// review: at most `limit`, the most important first.
pub fn curate_unresolved_identities(
    events: &Vec<StoredLogEvent>,
    mappings: &Vec<ContextMapping>,
    ignored: &Vec<IgnoredContextIdentity>,
    resolution: Option<&KnowledgeResolution>,
    limit: usize,
) -> (r: UnresolvedIdentityReview)
    ensures
        ({
            let all = open_identities(events@, mappings@, ignored@, resolution);
            &&& unresolved_views(r.identities@) == at_most(sorted_by(all, shown_order()), limit as nat)
            &&& r.total_count == all.len()
            &&& r.truncated == (all.len() > limit)
        }),
{
    let resolved: Vec<String> = match resolution {
        Some(resolution) => match resolution.snapshot_payload.get_list("resolved_groups") {
            Some(groups) => sources_in(groups),
            None => Vec::new(),
        },
        None => Vec::new(),
    };
    assert(views(resolved@) =~= sources_of(resolution));
    let all_events = event_refs(events);
    let found = all_occurrences(mappings, ignored, &resolved, &all_events);
    let candidates = tally_of(found);
    let ghost all = unresolved_views(candidates@);
    let mut items: Vec<&UnresolvedIdentity> = Vec::new();
    let mut i: usize = 0;
    while i < candidates.len()
        invariant
            i <= candidates@.len(),
            items@.len() == i,
            forall|k: int| 0 <= k < i ==> *(#[trigger] items@[k]) == candidates@[k],
        decreases candidates@.len() - i,
    {
        items.push(&candidates[i]);
        i += 1;
    }
    assert(views_of(items@) =~= all);
    let sorted = sort_ranked(&items);
    proof {
        lemma_ranked_len(items@);
        lemma_ranked_views(items@, shown_order());
    }
    let ghost order = views_of(sorted@);
    let mut identities: Vec<UnresolvedIdentity> = Vec::new();
    let mut k: usize = 0;
    assert(unresolved_views(identities@) =~= order.take(0));
    while k < sorted.len() && k < limit
        invariant
            k <= sorted@.len(),
            k <= limit,
            order == views_of(sorted@),
            unresolved_views(identities@) == order.take(k as int),
        decreases sorted@.len() - k,
    {
        let u: &UnresolvedIdentity = sorted[k];
        let copy = UnresolvedIdentity {
            field: u.field.as_str().to_owned(),
            value: u.value.as_str().to_owned(),
            normalized_value: u.normalized_value.as_str().to_owned(),
            group_count: u.group_count,
            event_count: u.event_count,
            latest_at: u.latest_at,
        };
        let ghost before = identities@;
        proof {
            lemma_take_step(order, k as int);
            assert(unresolved_views(before.push(copy)) =~= unresolved_views(before).push(copy@));
        }
        identities.push(copy);
        k += 1;
    }
    proof {
        if order.len() <= limit {
            assert(order.take(k as int) =~= order);
        }
    }
    UnresolvedIdentityReview {
        truncated: candidates.len() > limit,
        identities,
        total_count: candidates.len(),
    }
}

} // verus!
