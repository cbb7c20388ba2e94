//! What is shown of the context of a Daily candidate.
use crate::context::{
    ContextFreshness, ContextSnapshot, FreshnessView, content_workstreams, field_is_text, fresh,
    items_of, json_of_optional_str, link_is_attached, links_attached, or_record,
    public_context_snapshot, public_snapshot,
};
use crate::errors::{ApiError, ErrorView, bad_request_of, checks};
use crate::json::{
    Json, JsonView, empty_list, empty_record, fields_view, json_of_text, lemma_list_view,
    list_view, number_view, optional_text_view, push_item, put, string_array_field,
    texts_of_field,
};
use crate::ordered::{
    lemma_precedes_irreflexive, lemma_precedes_total, lemma_precedes_transitive,
    lemma_push_contains, ordered_set, ordered_set_of, precedes, str_less,
};
use crate::revisions::{DailyRevisionContent, DailyWorkstreamView};
use crate::text::{
    byte_len, bytes_in, lemma_decimal_value, lemma_take_step, lemma_views_push, str_eq, trim,
    trimmed, views,
};
use vstd::prelude::*;
use vstd::string::*;

verus! {

/// A note of a workstream that is not to be excerpted.
#[derive(Debug, Clone, PartialEq, Eq)]
pub struct KnowledgeExcerptExclusionRequest {
    pub workstream_id: String,
    pub note_path: String,
}

pub open spec fn exclusion_pair(e: KnowledgeExcerptExclusionRequest) -> (Seq<char>, Seq<char>) {
    (e.workstream_id@, e.note_path@)
}

pub open spec fn exclusion_pairs(s: Seq<KnowledgeExcerptExclusionRequest>) -> Seq<
    (Seq<char>, Seq<char>),
> {
    s.map_values(|e: KnowledgeExcerptExclusionRequest| exclusion_pair(e))
}

pub open spec fn is_valid_exclusion(e: KnowledgeExcerptExclusionRequest) -> bool {
    &&& trimmed(e.workstream_id@) == e.workstream_id@
    &&& e.workstream_id@.len() > 0
    &&& byte_len(e.workstream_id@) <= 512
    &&& trimmed(e.note_path@) == e.note_path@
    &&& e.note_path@.len() > 0
    &&& byte_len(e.note_path@) <= 511
}

/// What is wrong with some exclusions: the first that is malformed, or that
/// repeats another.
pub open spec fn exclusion_error(s: Seq<KnowledgeExcerptExclusionRequest>) -> Option<ErrorView>
    decreases s.len(),
{
    if s.len() == 0 {
        None
    } else {
        match exclusion_error(s.drop_last()) {
            Some(error) => Some(error),
            None => if !is_valid_exclusion(s.last()) {
                Some(bad_request_of("invalid Knowledge excerpt exclusion"@))
            } else if exclusion_pairs(s.drop_last()).contains(exclusion_pair(s.last())) {
                Some(bad_request_of("duplicate Knowledge excerpt exclusion"@))
            } else {
                None
            },
        }
    }
}

pub open spec fn exclusions_error(s: Seq<KnowledgeExcerptExclusionRequest>) -> Option<ErrorView> {
    if s.len() > 64 {
        Some(bad_request_of("context_exclusions cannot contain more than 64 entries"@))
    } else {
        exclusion_error(s)
    }
}

fn exclusion_is_valid(e: &KnowledgeExcerptExclusionRequest) -> (r: bool)
    ensures
        r == is_valid_exclusion(*e),
{
    let id: &str = e.workstream_id.as_str();
    let path: &str = e.note_path.as_str();
    str_eq(trim(id).as_str(), id) && !id.is_empty() && bytes_in(id) <= 512 && str_eq(
        trim(path).as_str(),
        path,
    ) && !path.is_empty() && bytes_in(path) <= 511
}

fn repeats_earlier(s: &Vec<KnowledgeExcerptExclusionRequest>, at: usize) -> (r: bool)
    requires
        at < s@.len(),
    ensures
        r == exclusion_pairs(s@.take(at as int)).contains(exclusion_pair(s@[at as int])),
{
    let ghost earlier = exclusion_pairs(s@.take(at as int));
    let mut i: usize = 0;
    while i < at
        invariant
            i <= at < s@.len(),
            earlier == exclusion_pairs(s@.take(at as int)),
            forall|k: int| 0 <= k < i ==> #[trigger] earlier[k] != exclusion_pair(s@[at as int]),
        decreases at - i,
    {
        assert(earlier[i as int] == exclusion_pair(s@[i as int]));
        if str_eq(s[i].workstream_id.as_str(), s[at].workstream_id.as_str()) && str_eq(
            s[i].note_path.as_str(),
            s[at].note_path.as_str(),
        ) {
            assert(earlier[i as int] == exclusion_pair(s@[at as int]));
            return true;
        }
        i += 1;
    }
    false
}

/// Whether a pair comes before another: by its first text, then by its second.
pub open spec fn pair_precedes(a: (Seq<char>, Seq<char>), b: (Seq<char>, Seq<char>)) -> bool {
    precedes(a.0, b.0) || (a.0 == b.0 && precedes(a.1, b.1))
}

/// An increasing list of pairs with one pair more, in its place, unless it is
/// there.
pub open spec fn pair_inserted(
    s: Seq<(Seq<char>, Seq<char>)>,
    x: (Seq<char>, Seq<char>),
) -> Seq<(Seq<char>, Seq<char>)>
    decreases s.len(),
{
    if s.len() == 0 {
        seq![x]
    } else if x == s.last() {
        s
    } else if pair_precedes(s.last(), x) {
        s.push(x)
    } else {
        pair_inserted(s.drop_last(), x).push(s.last())
    }
}

/// The different pairs of a list, in order.
pub open spec fn ordered_pairs(xs: Seq<(Seq<char>, Seq<char>)>) -> Seq<(Seq<char>, Seq<char>)>
    decreases xs.len(),
{
    if xs.len() == 0 {
        Seq::empty()
    } else {
        pair_inserted(ordered_pairs(xs.drop_last()), xs.last())
    }
}

/// Each pair comes before the next, so none occurs twice.
pub open spec fn pairs_increase(s: Seq<(Seq<char>, Seq<char>)>) -> bool {
    forall|i: int, j: int| 0 <= i < j < s.len() ==> pair_precedes(#[trigger] s[i], #[trigger] s[j])
}

pub proof fn lemma_pair_order(
    a: (Seq<char>, Seq<char>),
    b: (Seq<char>, Seq<char>),
    c: (Seq<char>, Seq<char>),
)
    ensures
        a == b || pair_precedes(a, b) || pair_precedes(b, a),
        pair_precedes(a, b) && pair_precedes(b, c) ==> pair_precedes(a, c),
        !pair_precedes(a, a),
{
    lemma_precedes_total(a.0, b.0);
    lemma_precedes_total(a.1, b.1);
    lemma_precedes_irreflexive(a.0);
    lemma_precedes_irreflexive(a.1);
    if precedes(a.0, b.0) && precedes(b.0, c.0) {
        lemma_precedes_transitive(a.0, b.0, c.0);
    }
    if precedes(a.1, b.1) && precedes(b.1, c.1) {
        lemma_precedes_transitive(a.1, b.1, c.1);
    }
}

proof fn lemma_pair_inserted(
    s: Seq<(Seq<char>, Seq<char>)>,
    x: (Seq<char>, Seq<char>),
)
    requires
        pairs_increase(s),
    ensures
        pairs_increase(pair_inserted(s, x)),
        forall|y: (Seq<char>, Seq<char>)| #[trigger]
            pair_inserted(s, x).contains(y) <==> (y == x || s.contains(y)),
    decreases s.len(),
{
    let r = pair_inserted(s, x);
    if s.len() == 0 {
        assert(r[0] == x);
    } else if x == s.last() {
        assert(s[s.len() - 1] == x);
    } else {
        let init = s.drop_last();
        let last = s.last();
        assert(s =~= init.push(last));
        lemma_pair_order(x, last, x);
        if pair_precedes(last, x) {
            assert forall|i: int, j: int| 0 <= i < j < r.len() implies pair_precedes(
                #[trigger] r[i],
                #[trigger] r[j],
            ) by {
                if j < s.len() {
                    assert(r[i] == s[i] && r[j] == s[j]);
                } else if i < s.len() - 1 {
                    assert(pair_precedes(s[i], s[s.len() - 1]));
                    lemma_pair_order(s[i], last, x);
                }
            }
            assert forall|y: (Seq<char>, Seq<char>)| #[trigger]
                r.contains(y) <==> (y == x || s.contains(y)) by {
                lemma_push_contains(s, x, y);
            }
        } else {
            assert(pairs_increase(init)) by {
                assert forall|i: int, j: int| 0 <= i < j < init.len() implies pair_precedes(
                    #[trigger] init[i],
                    #[trigger] init[j],
                ) by {
                    assert(pair_precedes(s[i], s[j]));
                }
            }
            lemma_pair_inserted(init, x);
            let mid = pair_inserted(init, x);
            assert forall|i: int, j: int| 0 <= i < j < r.len() implies pair_precedes(
                #[trigger] r[i],
                #[trigger] r[j],
            ) by {
                if j == mid.len() {
                    assert(mid.contains(mid[i]));
                    if mid[i] != x {
                        let k = choose|k: int| 0 <= k < init.len() && init[k] == mid[i];
                        assert(pair_precedes(s[k], s[s.len() - 1]));
                    }
                } else {
                    assert(pair_precedes(mid[i], mid[j]));
                }
            }
            assert forall|y: (Seq<char>, Seq<char>)| #[trigger]
                r.contains(y) <==> (y == x || s.contains(y)) by {
                lemma_push_contains(mid, last, y);
                lemma_push_contains(init, last, y);
                assert(mid.contains(y) <==> (y == x || init.contains(y)));
            }
        }
    }
}

/// The pairs of a list in order are those of the list, and none is there twice.
pub proof fn law_ordered_pairs_are_a_set(xs: Seq<(Seq<char>, Seq<char>)>)
    ensures
        pairs_increase(ordered_pairs(xs)),
        forall|y: (Seq<char>, Seq<char>)| #[trigger]
            ordered_pairs(xs).contains(y) <==> xs.contains(y),
    decreases xs.len(),
{
    if xs.len() > 0 {
        let init = xs.drop_last();
        law_ordered_pairs_are_a_set(init);
        lemma_pair_inserted(ordered_pairs(init), xs.last());
        assert(xs =~= init.push(xs.last()));
        assert forall|y: (Seq<char>, Seq<char>)| #[trigger]
            ordered_pairs(xs).contains(y) <==> xs.contains(y) by {
            lemma_push_contains(init, xs.last(), y);
            assert(ordered_pairs(init).contains(y) <==> init.contains(y));
        }
    }
}

/// Inserting passes over the pairs at the end that come later.
proof fn lemma_pair_inserted_before(
    s: Seq<(Seq<char>, Seq<char>)>,
    x: (Seq<char>, Seq<char>),
    p: int,
)
    requires
        0 <= p <= s.len(),
        forall|k: int| p <= k < s.len() ==> pair_precedes(x, #[trigger] s[k]),
    ensures
        pair_inserted(s, x) == pair_inserted(s.take(p), x) + s.skip(p),
    decreases s.len() - p,
{
    if p == s.len() {
        assert(s.take(p) =~= s);
        assert(pair_inserted(s.take(p), x) + s.skip(p) =~= pair_inserted(s, x));
    } else {
        let init = s.drop_last();
        assert(pair_precedes(x, s[s.len() - 1]));
        lemma_pair_order(x, s.last(), x);
        assert forall|k: int| p <= k < init.len() implies pair_precedes(x, #[trigger] init[k]) by {
            assert(init[k] == s[k]);
        }
        lemma_pair_inserted_before(init, x, p);
        assert(init.take(p) =~= s.take(p));
        assert(pair_inserted(s, x) =~= pair_inserted(s.take(p), x) + s.skip(p));
    }
}

fn insert_exclusion(
    set: &mut Vec<KnowledgeExcerptExclusionRequest>,
    e: &KnowledgeExcerptExclusionRequest,
)
    ensures
        exclusion_pairs(final(set)@) == pair_inserted(
            exclusion_pairs(old(set)@),
            exclusion_pair(*e),
        ),
{
    let id: &str = e.workstream_id.as_str();
    let path: &str = e.note_path.as_str();
    let ghost x = exclusion_pair(*e);
    let ghost before = exclusion_pairs(set@);
    let mut p: usize = set.len();
    while p > 0 && (str_less(id, set[p - 1].workstream_id.as_str()) || (str_eq(
        id,
        set[p - 1].workstream_id.as_str(),
    ) && str_less(path, set[p - 1].note_path.as_str())))
        invariant
            p <= set@.len(),
            id@ == x.0,
            path@ == x.1,
            before == exclusion_pairs(set@),
            forall|k: int| p <= k < set@.len() ==> pair_precedes(x, #[trigger] before[k]),
        decreases p,
    {
        assert(before[p - 1] == exclusion_pair(set@[p - 1]));
        p -= 1;
    }
    proof {
        lemma_pair_inserted_before(before, x, p as int);
        if p > 0 {
            assert(before[p - 1] == exclusion_pair(set@[p - 1]));
            assert(before.take(p as int).last() == before[p - 1]);
            lemma_pair_order(x, before[p - 1], x);
        }
    }
    if p > 0 && str_eq(id, set[p - 1].workstream_id.as_str()) && str_eq(
        path,
        set[p - 1].note_path.as_str(),
    ) {
        assert(before.take(p as int) + before.skip(p as int) =~= before);
        return ;
    }
    let next = KnowledgeExcerptExclusionRequest {
        workstream_id: id.to_owned(),
        note_path: path.to_owned(),
    };
    set.insert(p, next);
    assert(exclusion_pairs(set@) =~= before.insert(p as int, x));
    assert(before.insert(p as int, x) =~= before.take(p as int).push(x) + before.skip(p as int));
    proof {
        if p == 0 {
            assert(before.take(0) =~= Seq::<(Seq<char>, Seq<char>)>::empty());
            assert(before.take(0).push(x) =~= seq![x]);
        }
    }
}

fn ordered_exclusions(s: &Vec<KnowledgeExcerptExclusionRequest>) -> (r: Vec<
    KnowledgeExcerptExclusionRequest,
>)
    ensures
        exclusion_pairs(r@) == ordered_pairs(exclusion_pairs(s@)),
{
    let ghost all = exclusion_pairs(s@);
    let mut r: Vec<KnowledgeExcerptExclusionRequest> = Vec::new();
    let mut i: usize = 0;
    assert(all.take(0) =~= Seq::<(Seq<char>, Seq<char>)>::empty());
    assert(exclusion_pairs(r@) =~= Seq::<(Seq<char>, Seq<char>)>::empty());
    while i < s.len()
        invariant
            i <= s@.len(),
            all == exclusion_pairs(s@),
            exclusion_pairs(r@) == ordered_pairs(all.take(i as int)),
        decreases s@.len() - i,
    {
        proof {
            lemma_take_step(all, i as int);
            assert(all[i as int] == exclusion_pair(s@[i as int]));
        }
        insert_exclusion(&mut r, &s[i]);
        i += 1;
    }
    assert(all.take(i as int) =~= all);
    r
}

/// The requested exclusions in order, where they are well formed and each is
/// named once.
pub fn validate_requested_context_exclusions(exclusions: &Vec<KnowledgeExcerptExclusionRequest>) -> (r:
    Result<Vec<KnowledgeExcerptExclusionRequest>, ApiError>)
    ensures
        match exclusions_error(exclusions@) {
            Some(error) => r is Err && r->Err_0@ == error,
            None => r is Ok && exclusion_pairs(r->Ok_0@) == ordered_pairs(
                exclusion_pairs(exclusions@),
            ),
        },
{
    match check_exclusions(exclusions) {
        Err(error) => Err(error),
        Ok(()) => Ok(ordered_exclusions(exclusions)),
    }
}

fn check_exclusions(exclusions: &Vec<KnowledgeExcerptExclusionRequest>) -> (r: Result<(), ApiError>)
    ensures
        checks(r, exclusions_error(exclusions@)),
{
    if exclusions.len() > 64 {
        return Err(
            ApiError::bad_request("context_exclusions cannot contain more than 64 entries"),
        );
    }
    let mut r: Result<(), ApiError> = Ok(());
    let mut i: usize = 0;
    assert(exclusions@.take(0) =~= Seq::<KnowledgeExcerptExclusionRequest>::empty());
    while i < exclusions.len()
        invariant
            i <= exclusions@.len(),
            checks(r, exclusion_error(exclusions@.take(i as int))),
        decreases exclusions@.len() - i,
    {
        proof {
            lemma_take_step(exclusions@, i as int);
        }
        if r.is_ok() {
            if !exclusion_is_valid(&exclusions[i]) {
                r = Err(ApiError::bad_request("invalid Knowledge excerpt exclusion"));
            } else if repeats_earlier(exclusions, i) {
                r = Err(ApiError::bad_request("duplicate Knowledge excerpt exclusion"));
            }
        }
        i += 1;
    }
    assert(exclusions@.take(i as int) =~= exclusions@);
    r
}

/// The pairs that some items name.
pub open spec fn frozen_pairs(items: Seq<JsonView>) -> Seq<(Seq<char>, Seq<char>)>
    decreases items.len(),
{
    if items.len() == 0 {
        Seq::empty()
    } else {
        let before = frozen_pairs(items.drop_last());
        match (
            items.last().text_field("workstream_id"@),
            items.last().text_field("note_path"@),
        ) {
            (Some(id), Some(path)) => before.push((id, path)),
            _ => before,
        }
    }
}

/// The exclusions that a context was frozen with, in order.
pub open spec fn frozen_exclusions(payload: JsonView) -> Seq<(Seq<char>, Seq<char>)> {
    ordered_pairs(frozen_pairs(items_of(payload, "applied_exclusions"@)))
}

/// The exclusions that a context was frozen with, in order and without
/// repetitions.
pub fn frozen_context_exclusions(payload: Option<&Json>) -> (r: Vec<
    KnowledgeExcerptExclusionRequest,
>)
    ensures
        exclusion_pairs(r@) == (match payload {
            Some(payload) => frozen_exclusions(payload@),
            None => Seq::empty(),
        }),
{
    let named = named_exclusions(payload);
    ordered_exclusions(&named)
}

fn named_exclusions(payload: Option<&Json>) -> (r: Vec<KnowledgeExcerptExclusionRequest>)
    ensures
        exclusion_pairs(r@) == (match payload {
            Some(payload) => frozen_pairs(items_of(payload@, "applied_exclusions"@)),
            None => Seq::empty(),
        }),
{
    let mut r: Vec<KnowledgeExcerptExclusionRequest> = Vec::new();
    assert(exclusion_pairs(r@) =~= Seq::<(Seq<char>, Seq<char>)>::empty());
    if let Some(payload) = payload {
        if let Some(items) = payload.get_list("applied_exclusions") {
            let ghost all = list_view(items@);
            let mut i: usize = 0;
            proof {
                lemma_list_view(items@);
                assert(all.take(0) =~= Seq::<JsonView>::empty());
            }
            while i < items.len()
                invariant
                    i <= items@.len(),
                    all == list_view(items@),
                    all.len() == items@.len(),
                    forall|k: int| 0 <= k < items@.len() ==> all[k] == (#[trigger] items@[k])@,
                    exclusion_pairs(r@) == frozen_pairs(all.take(i as int)),
                decreases items@.len() - i,
            {
                proof {
                    lemma_take_step(all, i as int);
                }
                if let Some(id) = items[i].get_text("workstream_id") {
                    if let Some(path) = items[i].get_text("note_path") {
                        let ghost before = r@;
                        let e = KnowledgeExcerptExclusionRequest {
                            workstream_id: id.to_owned(),
                            note_path: path.to_owned(),
                        };
                        let ghost pair = exclusion_pair(e);
                        r.push(e);
                        assert(exclusion_pairs(r@) =~= exclusion_pairs(before).push(pair));
                    }
                }
                i += 1;
            }
            assert(all.take(i as int) =~= all);
        }
    }
    r
}

/// The title of a note that was used; without one, its path.
pub open spec fn used_title(notes: Seq<JsonView>, path: Seq<char>) -> Seq<char>
    decreases notes.len(),
{
    if notes.len() == 0 {
        path
    } else {
        match (notes.last().text_field("path"@), notes.last().text_field("title"@)) {
            (Some(p), Some(title)) => if p == path {
                title
            } else {
                used_title(notes.drop_last(), path)
            },
            _ => used_title(notes.drop_last(), path),
        }
    }
}

/// The excerpt with that ID; of two the later counts.
pub open spec fn excerpt_with_id(excerpts: Seq<JsonView>, id: Seq<char>) -> Option<JsonView>
    decreases excerpts.len(),
{
    if excerpts.len() == 0 {
        None
    } else if excerpts.last().text_field("id"@) == Some(id) {
        Some(excerpts.last())
    } else {
        excerpt_with_id(excerpts.drop_last(), id)
    }
}

/// The first of some excerpts that is from that note.
pub open spec fn excerpt_from(
    excerpts: Seq<JsonView>,
    ids: Seq<Seq<char>>,
    path: Seq<char>,
) -> Option<JsonView>
    decreases ids.len(),
{
    if ids.len() == 0 {
        None
    } else {
        match excerpt_from(excerpts, ids.drop_last(), path) {
            Some(excerpt) => Some(excerpt),
            None => match excerpt_with_id(excerpts, ids.last()) {
                Some(excerpt) => if excerpt.text_field("note_path"@) == Some(path) {
                    Some(excerpt)
                } else {
                    None
                },
                None => None,
            },
        }
    }
}

pub open spec fn excerpt_record(excerpt: Option<JsonView>) -> JsonView {
    match excerpt {
        None => JsonView::Null,
        Some(e) => JsonView::Record(
            Map::empty().insert("id"@, optional_text_view(e.text_field("id"@))).insert(
                "text"@,
                optional_text_view(e.text_field("text"@)),
            ).insert("text_digest"@, optional_text_view(e.text_field("text_digest"@))).insert(
                "reason"@,
                optional_text_view(e.text_field("reason"@)),
            ),
        ),
    }
}

/// The excerpts that a payload gives to a workstream.
pub open spec fn workstream_excerpt_ids(payload: JsonView, id: Seq<char>) -> Seq<Seq<char>> {
    match payload.field("workstream_excerpts"@) {
        Some(workstreams) => texts_of_field(workstreams, id),
        None => Seq::empty(),
    }
}

/// What is shown of one note of a workstream.
pub open spec fn note_report(
    payload: JsonView,
    group: JsonView,
    id: Seq<char>,
    path: Seq<char>,
    ws: Seq<DailyWorkstreamView>,
    excluded: Seq<(Seq<char>, Seq<char>)>,
) -> JsonView {
    let link = match group.text_field("canonical_link"@) {
        Some(link) => link,
        None => ""@,
    };
    JsonView::Record(
        Map::empty().insert("path"@, JsonView::Text(path)).insert(
            "title"@,
            JsonView::Text(used_title(items_of(payload, "used_notes"@), path)),
        ).insert("canonical_link"@, JsonView::Text(link)).insert(
            "attached"@,
            JsonView::Bool(links_attached(ws, id).contains(link)),
        ).insert("reason"@, optional_text_view(group.text_field("reason"@))).insert(
            "matched_fields"@,
            JsonView::List(items_of(group, "matched_fields"@)),
        ).insert("excluded"@, JsonView::Bool(excluded.contains((id, path)))).insert(
            "excerpt"@,
            excerpt_record(
                excerpt_from(
                    items_of(payload, "excerpts"@),
                    workstream_excerpt_ids(payload, id),
                    path,
                ),
            ),
        ),
    )
}

/// Whether a resolved group names a workstream and a note.
pub open spec fn group_pair(group: JsonView) -> Option<(Seq<char>, Seq<char>)> {
    match (
        group.text_field("canonical_group_id"@),
        group.text_field("canonical_note_path"@),
    ) {
        (Some(id), Some(path)) => Some((id, path)),
        _ => None,
    }
}

/// The first group that names that workstream and that note.
pub open spec fn first_group(groups: Seq<JsonView>, id: Seq<char>, path: Seq<char>) -> Option<JsonView>
    decreases groups.len(),
{
    if groups.len() == 0 {
        None
    } else {
        match first_group(groups.drop_last(), id, path) {
            Some(group) => Some(group),
            None => if group_pair(groups.last()) == Some((id, path)) {
                Some(groups.last())
            } else {
                None
            },
        }
    }
}

/// The workstreams that some groups name.
pub open spec fn named_workstreams(groups: Seq<JsonView>) -> Seq<Seq<char>>
    decreases groups.len(),
{
    if groups.len() == 0 {
        Seq::empty()
    } else {
        let before = named_workstreams(groups.drop_last());
        match group_pair(groups.last()) {
            Some((id, _)) => before.push(id),
            None => before,
        }
    }
}

/// The notes that some groups name for a workstream.
pub open spec fn named_notes_of(groups: Seq<JsonView>, id: Seq<char>) -> Seq<Seq<char>>
    decreases groups.len(),
{
    if groups.len() == 0 {
        Seq::empty()
    } else {
        let before = named_notes_of(groups.drop_last(), id);
        match group_pair(groups.last()) {
            Some((named, path)) => if named == id {
                before.push(path)
            } else {
                before
            },
            None => before,
        }
    }
}

pub open spec fn note_reports(
    payload: JsonView,
    id: Seq<char>,
    paths: Seq<Seq<char>>,
    ws: Seq<DailyWorkstreamView>,
    excluded: Seq<(Seq<char>, Seq<char>)>,
) -> Seq<JsonView>
    decreases paths.len(),
{
    if paths.len() == 0 {
        Seq::empty()
    } else {
        let before = note_reports(payload, id, paths.drop_last(), ws, excluded);
        match first_group(items_of(payload, "resolved_groups"@), id, paths.last()) {
            Some(group) => before.push(
                note_report(payload, group, id, paths.last(), ws, excluded),
            ),
            None => before,
        }
    }
}

/// The workstreams of a context with their notes, each once, in order.
pub open spec fn workstream_reports(
    payload: JsonView,
    ids: Seq<Seq<char>>,
    ws: Seq<DailyWorkstreamView>,
    excluded: Seq<(Seq<char>, Seq<char>)>,
) -> Seq<JsonView>
    decreases ids.len(),
{
    if ids.len() == 0 {
        Seq::empty()
    } else {
        let id = ids.last();
        let paths = ordered_set(named_notes_of(items_of(payload, "resolved_groups"@), id));
        workstream_reports(payload, ids.drop_last(), ws, excluded).push(
            JsonView::Record(
                Map::empty().insert("id"@, JsonView::Text(id)).insert(
                    "notes"@,
                    JsonView::List(note_reports(payload, id, paths, ws, excluded)),
                ),
            ),
        )
    }
}

fn title_of_used(payload: &Json, path: &str) -> (r: String)
    ensures
        r@ == used_title(items_of(payload@, "used_notes"@), path@),
{
    if let Some(notes) = payload.get_list("used_notes") {
        let ghost all = list_view(notes@);
        let mut i: usize = notes.len();
        proof {
            lemma_list_view(notes@);
            assert(all.take(i as int) =~= all);
        }
        while i > 0
            invariant
                i <= notes@.len(),
                all == list_view(notes@),
                all == items_of(payload@, "used_notes"@),
                all.len() == notes@.len(),
                forall|k: int| 0 <= k < notes@.len() ==> all[k] == (#[trigger] notes@[k])@,
                used_title(all, path@) == used_title(all.take(i as int), path@),
            decreases i,
        {
            assert(all.take(i as int).drop_last() =~= all.take(i - 1));
            assert(all[i - 1] == notes@[i - 1]@);
            if let Some(p) = notes[i - 1].get_text("path") {
                if let Some(title) = notes[i - 1].get_text("title") {
                    if str_eq(p, path) {
                        return title.to_owned();
                    }
                }
            }
            i -= 1;
        }
    }
    path.to_owned()
}

fn find_excerpt<'a>(excerpts: &'a Vec<Json>, id: &str) -> (r: Option<&'a Json>)
    ensures
        match r {
            Some(e) => excerpt_with_id(list_view(excerpts@), id@) == Some(e@),
            None => excerpt_with_id(list_view(excerpts@), id@) is None,
        },
{
    let ghost all = list_view(excerpts@);
    let mut i: usize = excerpts.len();
    proof {
        lemma_list_view(excerpts@);
        assert(all.take(i as int) =~= all);
    }
    while i > 0
        invariant
            i <= excerpts@.len(),
            all == list_view(excerpts@),
            all.len() == excerpts@.len(),
            forall|k: int| 0 <= k < excerpts@.len() ==> all[k] == (#[trigger] excerpts@[k])@,
            excerpt_with_id(all, id@) == excerpt_with_id(all.take(i as int), id@),
        decreases i,
    {
        assert(all.take(i as int).drop_last() =~= all.take(i - 1));
        assert(all[i - 1] == excerpts@[i - 1]@);
        if field_is_text(&excerpts[i - 1], "id", id) {
            return Some(&excerpts[i - 1]);
        }
        i -= 1;
    }
    None
}

fn json_of_excerpt(excerpt: Option<&Json>) -> (r: Json)
    ensures
        r@ == excerpt_record(
            match excerpt {
                Some(e) => Some(e@),
                None => None,
            },
        ),
{
    match excerpt {
        None => Json::Null,
        Some(e) => {
            let mut fields = empty_record();
            put(&mut fields, "id", json_of_optional_str(e.get_text("id")));
            put(&mut fields, "text", json_of_optional_str(e.get_text("text")));
            put(&mut fields, "text_digest", json_of_optional_str(e.get_text("text_digest")));
            put(&mut fields, "reason", json_of_optional_str(e.get_text("reason")));
            Json::Record(fields)
        },
    }
}

fn excerpt_of_note(payload: &Json, id: &str, path: &str) -> (r: Json)
    ensures
        r@ == excerpt_record(
            excerpt_from(
                items_of(payload@, "excerpts"@),
                workstream_excerpt_ids(payload@, id@),
                path@,
            ),
        ),
{
    let ids: Vec<String> = match payload.get("workstream_excerpts") {
        Some(workstreams) => string_array_field(workstreams, id),
        None => Vec::new(),
    };
    let ghost all_ids = workstream_excerpt_ids(payload@, id@);
    assert(views(ids@) =~= all_ids);
    let none: Vec<Json> = empty_list();
    let excerpts: &Vec<Json> = match payload.get_list("excerpts") {
        Some(excerpts) => excerpts,
        None => &none,
    };
    let ghost all = items_of(payload@, "excerpts"@);
    assert(list_view(excerpts@) == all);
    let mut found: Option<&Json> = None;
    let mut i: usize = 0;
    assert(all_ids.take(0) =~= Seq::<Seq<char>>::empty());
    while i < ids.len()
        invariant
            i <= ids@.len(),
            all_ids == views(ids@),
            all == list_view(excerpts@),
            match found {
                Some(e) => excerpt_from(all, all_ids.take(i as int), path@) == Some(e@),
                None => excerpt_from(all, all_ids.take(i as int), path@) is None,
            },
        decreases ids@.len() - i,
    {
        proof {
            lemma_take_step(all_ids, i as int);
        }
        if found.is_none() {
            if let Some(e) = find_excerpt(excerpts, ids[i].as_str()) {
                if field_is_text(e, "note_path", path) {
                    found = Some(e);
                }
            }
        }
        i += 1;
    }
    assert(all_ids.take(i as int) =~= all_ids);
    json_of_excerpt(found)
}

fn is_excluded_pair(excluded: &Vec<KnowledgeExcerptExclusionRequest>, id: &str, path: &str) -> (r: bool)
    ensures
        r == exclusion_pairs(excluded@).contains((id@, path@)),
{
    let ghost pairs = exclusion_pairs(excluded@);
    let mut i: usize = 0;
    while i < excluded.len()
        invariant
            i <= excluded@.len(),
            pairs == exclusion_pairs(excluded@),
            forall|k: int| 0 <= k < i ==> #[trigger] pairs[k] != (id@, path@),
        decreases excluded@.len() - i,
    {
        assert(pairs[i as int] == exclusion_pair(excluded@[i as int]));
        if str_eq(excluded[i].workstream_id.as_str(), id) && str_eq(
            excluded[i].note_path.as_str(),
            path,
        ) {
            assert(pairs[i as int] == (id@, path@));
            return true;
        }
        i += 1;
    }
    false
}

fn copy_items(value: &Json, key: &str) -> (r: Json)
    ensures
        r@ == JsonView::List(items_of(value@, key@)),
{
    match value.get(key) {
        Some(list) => match list {
            Json::List(_) => list.copy(),
            _ => Json::List(empty_list()),
        },
        None => Json::List(empty_list()),
    }
}

fn report_note(
    payload: &Json,
    group: &Json,
    id: &str,
    path: &str,
    content: Option<&DailyRevisionContent>,
    excluded: &Vec<KnowledgeExcerptExclusionRequest>,
) -> (r: Json)
    ensures
        r@ == note_report(
            payload@,
            group@,
            id@,
            path@,
            content_workstreams(content),
            exclusion_pairs(excluded@),
        ),
{
    let link: &str = match group.get_text("canonical_link") {
        Some(link) => link,
        None => "",
    };
    let mut fields = empty_record();
    put(&mut fields, "path", json_of_text(path));
    put(&mut fields, "title", json_of_text(title_of_used(payload, path).as_str()));
    put(&mut fields, "canonical_link", json_of_text(link));
    put(&mut fields, "attached", Json::Bool(link_is_attached(content, id, link)));
    put(&mut fields, "reason", json_of_optional_str(group.get_text("reason")));
    put(&mut fields, "matched_fields", copy_items(group, "matched_fields"));
    put(&mut fields, "excluded", Json::Bool(is_excluded_pair(excluded, id, path)));
    put(&mut fields, "excerpt", excerpt_of_note(payload, id, path));
    Json::Record(fields)
}


fn pair_of_group(group: &Json) -> (r: Option<(&str, &str)>)
    ensures
        match r {
            Some((id, path)) => group_pair(group@) == Some((id@, path@)),
            None => group_pair(group@) is None,
        },
{
    if let Some(id) = group.get_text("canonical_group_id") {
        if let Some(path) = group.get_text("canonical_note_path") {
            return Some((id, path));
        }
    }
    None
}

fn find_first_group<'a>(groups: &'a Vec<Json>, id: &str, path: &str) -> (r: Option<&'a Json>)
    ensures
        match r {
            Some(g) => first_group(list_view(groups@), id@, path@) == Some(g@),
            None => first_group(list_view(groups@), id@, path@) is None,
        },
{
    let ghost all = list_view(groups@);
    let mut found: Option<&'a Json> = None;
    let mut i: usize = 0;
    proof {
        lemma_list_view(groups@);
        assert(all.take(0) =~= Seq::<JsonView>::empty());
    }
    while i < groups.len()
        invariant
            i <= groups@.len(),
            all == list_view(groups@),
            all.len() == groups@.len(),
            forall|k: int| 0 <= k < groups@.len() ==> all[k] == (#[trigger] groups@[k])@,
            match found {
                Some(g) => first_group(all.take(i as int), id@, path@) == Some(g@),
                None => first_group(all.take(i as int), id@, path@) is None,
            },
        decreases groups@.len() - i,
    {
        proof {
            lemma_take_step(all, i as int);
        }
        if found.is_none() {
            if let Some((named, note)) = pair_of_group(&groups[i]) {
                if str_eq(named, id) && str_eq(note, path) {
                    found = Some(&groups[i]);
                }
            }
        }
        i += 1;
    }
    assert(all.take(i as int) =~= all);
    found
}

fn workstreams_named(groups: &Vec<Json>) -> (r: Vec<String>)
    ensures
        views(r@) == named_workstreams(list_view(groups@)),
{
    broadcast use lemma_views_push;
    let ghost all = list_view(groups@);
    let mut r: Vec<String> = Vec::new();
    let mut i: usize = 0;
    proof {
        lemma_list_view(groups@);
        assert(all.take(0) =~= Seq::<JsonView>::empty());
        assert(views(r@) =~= Seq::<Seq<char>>::empty());
    }
    while i < groups.len()
        invariant
            i <= groups@.len(),
            all == list_view(groups@),
            all.len() == groups@.len(),
            forall|k: int| 0 <= k < groups@.len() ==> all[k] == (#[trigger] groups@[k])@,
            views(r@) == named_workstreams(all.take(i as int)),
        decreases groups@.len() - i,
    {
        proof {
            lemma_take_step(all, i as int);
        }
        if let Some((id, _)) = pair_of_group(&groups[i]) {
            r.push(id.to_owned());
        }
        i += 1;
    }
    assert(all.take(i as int) =~= all);
    r
}

fn notes_named(groups: &Vec<Json>, id: &str) -> (r: Vec<String>)
    ensures
        views(r@) == named_notes_of(list_view(groups@), id@),
{
    broadcast use lemma_views_push;
    let ghost all = list_view(groups@);
    let mut r: Vec<String> = Vec::new();
    let mut i: usize = 0;
    proof {
        lemma_list_view(groups@);
        assert(all.take(0) =~= Seq::<JsonView>::empty());
        assert(views(r@) =~= Seq::<Seq<char>>::empty());
    }
    while i < groups.len()
        invariant
            i <= groups@.len(),
            all == list_view(groups@),
            all.len() == groups@.len(),
            forall|k: int| 0 <= k < groups@.len() ==> all[k] == (#[trigger] groups@[k])@,
            views(r@) == named_notes_of(all.take(i as int), id@),
        decreases groups@.len() - i,
    {
        proof {
            lemma_take_step(all, i as int);
        }
        if let Some((named, path)) = pair_of_group(&groups[i]) {
            if str_eq(named, id) {
                r.push(path.to_owned());
            }
        }
        i += 1;
    }
    assert(all.take(i as int) =~= all);
    r
}

fn report_notes(
    payload: &Json,
    groups: &Vec<Json>,
    id: &str,
    content: Option<&DailyRevisionContent>,
    excluded: &Vec<KnowledgeExcerptExclusionRequest>,
) -> (r: Json)
    requires
        list_view(groups@) == items_of(payload@, "resolved_groups"@),
    ensures
        r@ == JsonView::List(
            note_reports(
                payload@,
                id@,
                ordered_set(named_notes_of(items_of(payload@, "resolved_groups"@), id@)),
                content_workstreams(content),
                exclusion_pairs(excluded@),
            ),
        ),
{
    let paths = ordered_set_of(&notes_named(groups, id));
    let ghost all = views(paths@);
    let ghost ws = content_workstreams(content);
    let ghost pairs = exclusion_pairs(excluded@);
    let mut items = empty_list();
    let mut i: usize = 0;
    assert(all.take(0) =~= Seq::<Seq<char>>::empty());
    while i < paths.len()
        invariant
            i <= paths@.len(),
            all == views(paths@),
            ws == content_workstreams(content),
            pairs == exclusion_pairs(excluded@),
            list_view(groups@) == items_of(payload@, "resolved_groups"@),
            list_view(items@) == note_reports(payload@, id@, all.take(i as int), ws, pairs),
        decreases paths@.len() - i,
    {
        proof {
            lemma_take_step(all, i as int);
        }
        if let Some(group) = find_first_group(groups, id, paths[i].as_str()) {
            push_item(
                &mut items,
                report_note(payload, group, id, paths[i].as_str(), content, excluded),
            );
        }
        i += 1;
    }
    assert(all.take(i as int) =~= all);
    Json::List(items)
}

/// The workstreams of a context, as they are shown.
pub open spec fn shown_workstreams(payload: JsonView, ws: Seq<DailyWorkstreamView>) -> JsonView {
    JsonView::List(
        workstream_reports(
            payload,
            ordered_set(named_workstreams(items_of(payload, "resolved_groups"@))),
            ws,
            frozen_exclusions(payload),
        ),
    )
}

fn report_workstreams(payload: &Json, content: Option<&DailyRevisionContent>) -> (r: Json)
    ensures
        r@ == shown_workstreams(payload@, content_workstreams(content)),
{
    let none: Vec<Json> = empty_list();
    let groups: &Vec<Json> = match payload.get_list("resolved_groups") {
        Some(groups) => groups,
        None => &none,
    };
    assert(list_view(groups@) == items_of(payload@, "resolved_groups"@));
    let excluded = frozen_context_exclusions(Some(payload));
    let ids = ordered_set_of(&workstreams_named(groups));
    let ghost all = views(ids@);
    let ghost ws = content_workstreams(content);
    let ghost pairs = exclusion_pairs(excluded@);
    let mut items = empty_list();
    let mut i: usize = 0;
    assert(all.take(0) =~= Seq::<Seq<char>>::empty());
    while i < ids.len()
        invariant
            i <= ids@.len(),
            all == views(ids@),
            ws == content_workstreams(content),
            pairs == exclusion_pairs(excluded@),
            list_view(groups@) == items_of(payload@, "resolved_groups"@),
            list_view(items@) == workstream_reports(payload@, all.take(i as int), ws, pairs),
        decreases ids@.len() - i,
    {
        proof {
            lemma_take_step(all, i as int);
        }
        let mut fields = empty_record();
        put(&mut fields, "id", json_of_text(ids[i].as_str()));
        put(
            &mut fields,
            "notes",
            report_notes(payload, groups, ids[i].as_str(), content, &excluded),
        );
        push_item(&mut items, Json::Record(fields));
        i += 1;
    }
    assert(all.take(i as int) =~= all);
    Json::List(items)
}

/// Whether the references of a payload could not be resolved.
pub open spec fn was_unavailable(payload: JsonView) -> bool {
    or_record(payload.field("diagnostics"@)).field("resolution_error_code"@) is Some
}

/// Whether the sources of a context have to be compared before it is shown.
pub open spec fn compares_sources(payload: JsonView) -> bool {
    payload.text_field("reference_mode"@) != Some("none"@) && !was_unavailable(payload)
}

fn could_not_resolve(payload: &Json) -> (r: bool)
    ensures
        r == was_unavailable(payload@),
{
    match payload.get("diagnostics") {
        Some(diagnostics) => diagnostics.get("resolution_error_code").is_some(),
        None => false,
    }
}

pub fn needs_comparison(payload: &Json) -> (r: bool)
    ensures
        r == compares_sources(payload@),
{
    !field_is_text(payload, "reference_mode", "none") && !could_not_resolve(payload)
}

/// The fields that every report begins with.
pub open spec fn report_head(
    workspace_id: Seq<char>,
    local_date: Seq<char>,
    revision_id: Option<Seq<char>>,
) -> Map<Seq<char>, JsonView> {
    let head = Map::empty().insert("workspace_id"@, JsonView::Text(workspace_id)).insert(
        "local_date"@,
        JsonView::Text(local_date),
    );
    match revision_id {
        Some(id) => head.insert("revision_id"@, JsonView::Text(id)),
        None => head,
    }
}

/// The report on a candidate without a context.
pub open spec fn empty_report(head: Map<Seq<char>, JsonView>, message: Seq<char>) -> JsonView {
    JsonView::Record(
        head.insert("status"@, JsonView::Text("none"@)).insert(
            "mode"@,
            JsonView::Text("exact_links_only"@),
        ).insert("workstreams"@, JsonView::List(Seq::empty())).insert(
            "message"@,
            JsonView::Text(message),
        ),
    )
}

/// The report on a candidate that was generated without references.
pub open spec fn unreferenced_report(head: Map<Seq<char>, JsonView>) -> JsonView {
    JsonView::Record(
        head.insert("status"@, JsonView::Text("none"@)).insert(
            "mode"@,
            JsonView::Text("none"@),
        ).insert("reference_mode"@, JsonView::Text("none"@)).insert(
            "workstreams"@,
            JsonView::List(Seq::empty()),
        ).insert("message"@, JsonView::Text("Generated without reference notes."@)),
    )
}

/// How a frozen context stands; `compared` is how it compares with its sources.
pub open spec fn standing(payload: JsonView, compared: FreshnessView) -> FreshnessView {
    if was_unavailable(payload) {
        fresh(
            "unavailable"@,
            "Knowledge resolution was unavailable when this candidate was generated."@,
        )
    } else {
        compared
    }
}

pub open spec fn snapshot_report(
    head: Map<Seq<char>, JsonView>,
    snapshot: ContextSnapshot,
    ws: Seq<DailyWorkstreamView>,
    compared: FreshnessView,
) -> JsonView {
    let payload = snapshot.payload@;
    let stands = standing(payload, compared);
    JsonView::Record(
        head.insert("status"@, JsonView::Text(stands.status)).insert(
            "mode"@,
            JsonView::Text(
                if payload.field("schema_version"@) == Some(number_view(2)) {
                    "bounded_knowledge"@
                } else {
                    "exact_links_only"@
                },
            ),
        ).insert("message"@, JsonView::Text(stands.message)).insert(
            "snapshot"@,
            public_snapshot(snapshot),
        ).insert("workstreams"@, shown_workstreams(payload, ws)),
    )
}

/// The report on the context of a day's candidate.
pub open spec fn context_report(
    workspace_id: Seq<char>,
    local_date: Seq<char>,
    revision_id: Option<Seq<char>>,
    snapshot: Option<&ContextSnapshot>,
    ws: Seq<DailyWorkstreamView>,
    compared: FreshnessView,
) -> JsonView {
    let head = report_head(workspace_id, local_date, revision_id);
    match (revision_id, snapshot) {
        (None, _) => empty_report(
            head,
            "Generate a Daily candidate to capture Knowledge links."@,
        ),
        (Some(_), None) => empty_report(head, "This candidate did not use Knowledge links."@),
        (Some(_), Some(snapshot)) => if snapshot.payload@.text_field("reference_mode"@) == Some(
            "none"@,
        ) {
            unreferenced_report(head)
        } else {
            snapshot_report(head, *snapshot, ws, compared)
        },
    }
}

fn head_fields(workspace_id: &str, local_date: &str, revision_id: Option<&str>) -> (r: Vec<
    (String, Json),
>)
    ensures
        fields_view(r@) == report_head(
            workspace_id@,
            local_date@,
            match revision_id {
                Some(id) => Some(id@),
                None => None,
            },
        ),
{
    let mut fields = empty_record();
    put(&mut fields, "workspace_id", json_of_text(workspace_id));
    put(&mut fields, "local_date", json_of_text(local_date));
    if let Some(id) = revision_id {
        put(&mut fields, "revision_id", json_of_text(id));
    }
    fields
}

fn empty_report_json(fields: Vec<(String, Json)>, message: &str) -> (r: Json)
    ensures
        r@ == empty_report(fields_view(fields@), message@),
{
    let mut fields = fields;
    put(&mut fields, "status", json_of_text("none"));
    put(&mut fields, "mode", json_of_text("exact_links_only"));
    put(&mut fields, "workstreams", Json::List(empty_list()));
    put(&mut fields, "message", json_of_text(message));
    Json::Record(fields)
}

/// The report on the context of a day's candidate. `compared` is how the
/// context compares with its sources; it counts only where `needs_comparison`
/// says that they have to be compared.
pub fn daily_context(
    workspace_id: &str,
    local_date: &str,
    revision_id: Option<&str>,
    snapshot: Option<&ContextSnapshot>,
    content: Option<&DailyRevisionContent>,
    compared: &ContextFreshness,
) -> (r: Json)
    ensures
        r@ == context_report(
            workspace_id@,
            local_date@,
            match revision_id {
                Some(id) => Some(id@),
                None => None,
            },
            snapshot,
            content_workstreams(content),
            compared@,
        ),
{
    let mut fields = head_fields(workspace_id, local_date, revision_id);
    if revision_id.is_none() {
        return empty_report_json(
            fields,
            "Generate a Daily candidate to capture Knowledge links.",
        );
    }
    let snapshot: &ContextSnapshot = match snapshot {
        Some(snapshot) => snapshot,
        None => {
            return empty_report_json(fields, "This candidate did not use Knowledge links.");
        },
    };
    let payload = &snapshot.payload;
    if field_is_text(payload, "reference_mode", "none") {
        put(&mut fields, "status", json_of_text("none"));
        put(&mut fields, "mode", json_of_text("none"));
        put(&mut fields, "reference_mode", json_of_text("none"));
        put(&mut fields, "workstreams", Json::List(empty_list()));
        put(&mut fields, "message", json_of_text("Generated without reference notes."));
        return Json::Record(fields);
    }
    let (status, message): (&str, &str) = if could_not_resolve(payload) {
        (
            "unavailable",
            "Knowledge resolution was unavailable when this candidate was generated.",
        )
    } else {
        (compared.status, compared.message)
    };
    let bounded = match payload.get("schema_version") {
        Some(version) => match version.as_u64() {
            Some(n) => {
                proof {
                    lemma_decimal_value(n as nat);
                    lemma_decimal_value(2);
                }
                n == 2
            },
            None => {
                assert(version@ != number_view(2u64 as nat));
                false
            },
        },
        None => false,
    };
    put(&mut fields, "status", json_of_text(status));
    put(
        &mut fields,
        "mode",
        json_of_text(
            if bounded {
                "bounded_knowledge"
            } else {
                "exact_links_only"
            },
        ),
    );
    put(&mut fields, "message", json_of_text(message));
    put(&mut fields, "snapshot", public_context_snapshot(snapshot));
    put(&mut fields, "workstreams", report_workstreams(payload, content));
    Json::Record(fields)
}

} // verus!
