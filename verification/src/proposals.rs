//! Summary proposals from what a model handed back.
use crate::details::{detailed, referenced, with_daily_details, with_evidence_details};
use crate::drafts::{
    DraftView, FactView, StructuredDailyDraft, StructuredFact, StructuredWorkstream,
    WorkstreamView, draft_error, fact_views, parse_strict_daily_draft, read_draft,
    workstream_views,
};
use crate::json::{
    Json, JsonView, fields_view, json_error, json_parsed, lemma_list_view, list_view,
    parse_json, string_array_field, string_field, texts_of_field,
};
use crate::knowledge::{EventGroup, event_ids, event_refs, groups_by_key, ids_of, refs, with_key};
use crate::markdown::{
    heading, safe_line, safe_model_markdown_line, safe_model_markdown_text, safe_text,
    workstream_heading,
};
use crate::models::StoredLogEvent;
use crate::ordered::{
    contains_text, increasing, lemma_increasing_unique, lemma_ordered_set, ordered_set,
    ordered_set_of,
};
use crate::prompt::{
    SuggestMarkdownSummaryArgs, allowed_canonical_links, allowed_links, event_groups,
    resolved_event_group_key, resolved_key, resolved_keys,
};
use crate::text::{
    ascii_lowered, begins_with, copy_texts, decimal, decimal_text, eq_ignore_ascii_case, join,
    joined, lemma_take_step, lemma_views_push, opt_text, push_texts, str_eq, strip_prefix, trim,
    trimmed, views,
};
use crate::vault_links::canonical_links;
use vstd::prelude::*;
use vstd::string::*;

verus! {

/// A summary that waits for review.
#[derive(Debug)]
pub struct SummaryProposal {
    pub target_note: String,
    pub canonical_links: Vec<String>,
    pub link_candidates: Vec<String>,
    pub markdown: String,
    pub evidence_event_ids: Vec<String>,
    pub confidence: String,
    pub open_questions: Vec<String>,
    pub requires_review: bool,
    pub provider: String,
    pub supersedes_proposal_ids: Vec<String>,
    pub consolidation_job_id: Option<String>,
    pub link_context_revision: String,
    pub structured_draft: Option<StructuredDailyDraft>,
}

pub struct ProposalView {
    pub target_note: Seq<char>,
    pub canonical_links: Seq<Seq<char>>,
    pub link_candidates: Seq<Seq<char>>,
    pub markdown: Seq<char>,
    pub evidence_event_ids: Seq<Seq<char>>,
    pub confidence: Seq<char>,
    pub open_questions: Seq<Seq<char>>,
    pub requires_review: bool,
    pub provider: Seq<char>,
    pub supersedes_proposal_ids: Seq<Seq<char>>,
    pub consolidation_job_id: Option<Seq<char>>,
    pub link_context_revision: Seq<char>,
    pub structured_draft: Option<DraftView>,
}

impl View for SummaryProposal {
    type V = ProposalView;

    open spec fn view(&self) -> ProposalView {
        ProposalView {
            target_note: self.target_note@,
            canonical_links: views(self.canonical_links@),
            link_candidates: views(self.link_candidates@),
            markdown: self.markdown@,
            evidence_event_ids: views(self.evidence_event_ids@),
            confidence: self.confidence@,
            open_questions: views(self.open_questions@),
            requires_review: self.requires_review,
            provider: self.provider@,
            supersedes_proposal_ids: views(self.supersedes_proposal_ids@),
            consolidation_job_id: opt_text(self.consolidation_job_id),
            link_context_revision: self.link_context_revision@,
            structured_draft: match self.structured_draft {
                Some(draft) => Some(draft@),
                None => None,
            },
        }
    }
}

/// A text of the context, or what stands for it without one.
pub open spec fn context_text(context: JsonView, key: Seq<char>, default: Seq<char>) -> Seq<char> {
    match context.text_field(key) {
        Some(text) => text,
        None => default,
    }
}

fn default_target_note(args: &SuggestMarkdownSummaryArgs) -> (r: String)
    ensures
        r@ == context_text(args.vault_context@, "daily_note"@, "Daily note"@),
{
    match args.vault_context.get_text("daily_note") {
        Some(note) => note.to_owned(),
        None => "Daily note".to_owned(),
    }
}

fn link_context_revision(args: &SuggestMarkdownSummaryArgs) -> (r: String)
    ensures
        r@ == context_text(args.vault_context@, "link_context_revision"@, ""@),
{
    match args.vault_context.get_text("link_context_revision") {
        Some(revision) => revision.to_owned(),
        None => "".to_owned(),
    }
}

/// The links that the context gives to a group.
pub open spec fn group_link_texts(context: JsonView, group_id: Seq<char>) -> Seq<Seq<char>> {
    match context.field("workstream_links"@) {
        Some(groups) => texts_of_field(groups, group_id),
        None => Seq::empty(),
    }
}

pub fn links_for_group(args: &SuggestMarkdownSummaryArgs, group_id: &str) -> (r: Vec<String>)
    ensures
        views(r@) == group_link_texts(args.vault_context@, group_id@),
{
    match args.vault_context.get("workstream_links") {
        Some(groups) => string_array_field(groups, group_id),
        None => {
            let r: Vec<String> = Vec::new();
            assert(views(r@) =~= Seq::<Seq<char>>::empty());
            r
        },
    }
}

/// The links that the context gives to any group: `link` is one of them.
pub open spec fn is_configured_link(context: JsonView, link: Seq<char>) -> bool {
    exists|group_id: Seq<char>| #[trigger] group_link_texts(context, group_id).contains(link)
}

fn push_record_links(
    fields: &Vec<(String, Json)>,
    groups: &Json,
    out: &mut Vec<String>,
)
    requires
        groups@ == JsonView::Record(fields_view(fields@)),
        old(out)@.len() == 0,
    ensures
        forall|link: Seq<char>|
            views(final(out)@).contains(link) <==> exists|id: Seq<char>| #[trigger]
                texts_of_field(groups@, id).contains(link),
{
    let mut i: usize = 0;
    assert(views(out@) =~= Seq::<Seq<char>>::empty());
    while i < fields.len()
        invariant
            i <= fields@.len(),
            groups@ == JsonView::Record(fields_view(fields@)),
            forall|link: Seq<char>|
                views(out@).contains(link) <==> exists|k: int|
                    0 <= k < i && texts_of_field(
                        groups@,
                        (#[trigger] fields@[k]).0@,
                    ).contains(link),
        decreases fields@.len() - i,
    {
        let more = string_array_field(groups, fields[i].0.as_str());
        let ghost before = views(out@);
        push_texts(out, &more);
        proof {
            let added = texts_of_field(groups@, fields@[i as int].0@);
            assert forall|link: Seq<char>|
                views(out@).contains(link) <==> exists|k: int|
                    0 <= k < i + 1 && texts_of_field(
                        groups@,
                        (#[trigger] fields@[k]).0@,
                    ).contains(link) by {
                lemma_contains_add(before, added, link);
                if views(out@).contains(link) {
                    if before.contains(link) {
                        let k = choose|k: int|
                            0 <= k < i && texts_of_field(
                                groups@,
                                (#[trigger] fields@[k]).0@,
                            ).contains(link);
                        assert(0 <= k < i + 1);
                    } else {
                        assert(texts_of_field(groups@, fields@[i as int].0@).contains(link));
                    }
                }
            }
        }
        i += 1;
    }
    proof {
        assert forall|link: Seq<char>|
            views(out@).contains(link) <==> exists|id: Seq<char>| #[trigger]
                texts_of_field(groups@, id).contains(link) by {
            if exists|id: Seq<char>| #[trigger] texts_of_field(groups@, id).contains(link) {
                let id = choose|id: Seq<char>| #[trigger]
                    texts_of_field(groups@, id).contains(link);
                lemma_field_has_name(fields@, id);
            }
        }
    }
}

proof fn lemma_contains_add(a: Seq<Seq<char>>, b: Seq<Seq<char>>, x: Seq<char>)
    ensures
        (a + b).contains(x) <==> a.contains(x) || b.contains(x),
{
    if a.contains(x) {
        let i = choose|i: int| 0 <= i < a.len() && a[i] == x;
        assert((a + b)[i] == x);
    }
    if b.contains(x) {
        let i = choose|i: int| 0 <= i < b.len() && b[i] == x;
        assert((a + b)[i + a.len()] == x);
    }
}

proof fn lemma_field_has_name(fields: Seq<(String, Json)>, key: Seq<char>)
    requires
        fields_view(fields).dom().contains(key),
    ensures
        exists|k: int| 0 <= k < fields.len() && (#[trigger] fields[k]).0@ == key,
    decreases fields.len(),
{
    if fields.len() > 0 {
        let last = fields.len() - 1;
        if fields[last].0@ != key {
            let init = fields.drop_last();
            assert(fields_view(fields) == fields_view(init).insert(
                fields.last().0@,
                fields.last().1@,
            ));
            lemma_field_has_name(init, key);
            let k = choose|k: int| 0 <= k < init.len() && (#[trigger] init[k]).0@ == key;
            assert(fields[k].0@ == key);
        }
    } else {
        assert(fields_view(fields) == Map::<Seq<char>, JsonView>::empty());
    }
}

/// The links that the context gives to any group, each once, in order.
pub open spec fn configured_links(context: JsonView) -> Seq<Seq<char>> {
    choose|links: Seq<Seq<char>>| holds_configured(links, context)
}

pub open spec fn holds_configured(links: Seq<Seq<char>>, context: JsonView) -> bool {
    &&& increasing(links)
    &&& forall|link: Seq<char>|
        links.contains(link) <==> #[trigger] is_configured_link(context, link)
}

proof fn lemma_configured(links: Seq<Seq<char>>, context: JsonView)
    requires
        holds_configured(links, context),
    ensures
        links == configured_links(context),
{
    let chosen = configured_links(context);
    assert forall|y: Seq<char>| #[trigger] links.contains(y) <==> chosen.contains(y) by {
        assert(is_configured_link(context, y) == links.contains(y));
    }
    lemma_increasing_unique(links, chosen);
}

pub fn configured_workstream_links(args: &SuggestMarkdownSummaryArgs) -> (r: Vec<String>)
    ensures
        views(r@) == configured_links(args.vault_context@),
        holds_configured(views(r@), args.vault_context@),
{
    let mut all: Vec<String> = Vec::new();
    assert(views(all@) =~= Seq::<Seq<char>>::empty());
    let ghost context = args.vault_context@;
    match args.vault_context.get("workstream_links") {
        Some(groups) => {
            match groups {
                Json::Record(fields) => {
                    push_record_links(fields, groups, &mut all);
                    proof {
                        assert forall|link: Seq<char>|
                            views(all@).contains(link) <==> #[trigger] is_configured_link(
                                context,
                                link,
                            ) by {
                            if views(all@).contains(link) {
                                let id = choose|id: Seq<char>| #[trigger]
                                    texts_of_field(groups@, id).contains(link);
                                assert(group_link_texts(context, id).contains(link));
                            }
                            if is_configured_link(context, link) {
                                let id = choose|id: Seq<char>| #[trigger]
                                    group_link_texts(context, id).contains(link);
                                assert(texts_of_field(groups@, id).contains(link));
                            }
                        }
                    }
                },
                _ => {
                    assert forall|link: Seq<char>| !(#[trigger] is_configured_link(
                        context,
                        link,
                    )) by {
                        assert forall|id: Seq<char>| !(#[trigger] group_link_texts(
                            context,
                            id,
                        ).contains(link)) by {
                            assert(group_link_texts(context, id) =~= Seq::<Seq<char>>::empty());
                        }
                    }
                },
            }
        },
        None => {
            assert forall|link: Seq<char>| !(#[trigger] is_configured_link(context, link)) by {
                assert forall|id: Seq<char>| !(#[trigger] group_link_texts(context, id).contains(
                    link,
                )) by {}
            }
        },
    }
    proof {
        let links = ordered_set(views(all@));
        lemma_ordered_set(views(all@));
        assert forall|link: Seq<char>|
            links.contains(link) <==> #[trigger] is_configured_link(context, link) by {
            assert(links.contains(link) <==> views(all@).contains(link));
        }
        lemma_configured(links, context);
    }
    ordered_set_of(&all)
}


/// What is wrong with the groups of some workstreams: the first that is no
/// group of the events, or that has other events than its group.
pub open spec fn group_error(
    ws: Seq<WorkstreamView>,
    events: Seq<&StoredLogEvent>,
    keys: Seq<Seq<char>>,
) -> Option<Seq<char>>
    decreases ws.len(),
{
    if ws.len() == 0 {
        None
    } else {
        let w = ws.last();
        match group_error(ws.drop_last(), events, keys) {
            Some(error) => Some(error),
            None => if !ordered_set(keys).contains(w.id) {
                Some("daily draft invented workstream ID: "@ + w.id)
            } else if ordered_set(w.evidence) != ordered_set(
                event_ids(with_key(events, keys, w.id)),
            ) {
                Some("workstream "@ + w.id + " contains evidence from a different group"@)
            } else {
                None
            },
        }
    }
}

pub open spec fn groups_error(
    ws: Seq<WorkstreamView>,
    events: Seq<&StoredLogEvent>,
    keys: Seq<Seq<char>>,
) -> Option<Seq<char>> {
    let groups = ordered_set(keys).len();
    if ws.len() != groups {
        Some(
            "daily draft returned "@ + decimal(ws.len()) + " workstreams for "@ + decimal(groups)
                + " evidence groups"@,
        )
    } else {
        group_error(ws, events, keys)
    }
}

pub fn same_texts(a: &Vec<String>, b: &Vec<String>) -> (r: bool)
    ensures
        r == (views(a@) == views(b@)),
{
    assert(views(a@).len() == a@.len() && views(b@).len() == b@.len());
    if a.len() != b.len() {
        return false;
    }
    let mut i: usize = 0;
    while i < a.len()
        invariant
            i <= a@.len(),
            a@.len() == b@.len(),
            forall|k: int| 0 <= k < i ==> #[trigger] views(a@)[k] == views(b@)[k],
        decreases a@.len() - i,
    {
        if !str_eq(a[i].as_str(), b[i].as_str()) {
            assert(views(a@)[i as int] != views(b@)[i as int]);
            return false;
        }
        i += 1;
    }
    assert(views(a@) =~= views(b@));
    true
}

fn find_group<'a, 'b>(groups: &'b Vec<EventGroup<'a>>, key: &str) -> (r: Option<&'b EventGroup<'a>>)
    ensures
        match r {
            Some(group) => group.key@ == key@ && exists|i: int|
                0 <= i < groups@.len() && *group == #[trigger] groups@[i],
            None => forall|i: int| 0 <= i < groups@.len() ==> (#[trigger] groups@[i]).key@ != key@,
        },
{
    let mut i: usize = 0;
    while i < groups.len()
        invariant
            i <= groups@.len(),
            forall|k: int| 0 <= k < i ==> (#[trigger] groups@[k]).key@ != key@,
        decreases groups@.len() - i,
    {
        if str_eq(groups[i].key.as_str(), key) {
            assert(groups@[i as int] == groups@[i as int]);
            return Some(&groups[i]);
        }
        i += 1;
    }
    None
}

/// The group of some events with that key, if it is one.
fn group_of<'a, 'b>(
    groups: &'b Vec<EventGroup<'a>>,
    key: &str,
    Ghost(events): Ghost<Seq<&StoredLogEvent>>,
    Ghost(keys): Ghost<Seq<Seq<char>>>,
) -> (r: Option<&'b Vec<&'a StoredLogEvent>>)
    requires
        groups_by_key(groups@, events, keys),
    ensures
        match r {
            Some(members) => ordered_set(keys).contains(key@) && members@ == with_key(
                events,
                keys,
                key@,
            ),
            None => !ordered_set(keys).contains(key@),
        },
{
    match find_group(groups, key) {
        Some(group) => {
            proof {
                let i = choose|i: int| 0 <= i < groups@.len() && *group == #[trigger] groups@[i];
                assert(ordered_set(keys)[i] == key@);
            }
            Some(&group.events)
        },
        None => {
            proof {
                if ordered_set(keys).contains(key@) {
                    let i = choose|i: int|
                        0 <= i < ordered_set(keys).len() && ordered_set(keys)[i] == key@;
                    assert(groups@[i].key@ == key@);
                }
            }
            None
        },
    }
}

fn validate_daily_workstream_groups(
    ws: &Vec<StructuredWorkstream>,
    groups: &Vec<EventGroup>,
    Ghost(events): Ghost<Seq<&StoredLogEvent>>,
    Ghost(keys): Ghost<Seq<Seq<char>>>,
) -> (r: Option<String>)
    requires
        groups_by_key(groups@, events, keys),
    ensures
        opt_text(r) == groups_error(workstream_views(ws@), events, keys),
{
    let ghost all = workstream_views(ws@);
    assert(all.len() == ws@.len());
    if ws.len() != groups.len() {
        let mut message = "daily draft returned ".to_owned();
        message.push_str(decimal_text(ws.len() as u64).as_str());
        message.push_str(" workstreams for ");
        message.push_str(decimal_text(groups.len() as u64).as_str());
        message.push_str(" evidence groups");
        return Some(message);
    }
    let mut r: Option<String> = None;
    let mut i: usize = 0;
    assert(all.take(0) =~= Seq::<WorkstreamView>::empty());
    while i < ws.len()
        invariant
            i <= ws@.len(),
            all == workstream_views(ws@),
            groups_by_key(groups@, events, keys),
            opt_text(r) == group_error(all.take(i as int), events, keys),
        decreases ws@.len() - i,
    {
        proof {
            lemma_take_step(all, i as int);
        }
        let w = &ws[i];
        if r.is_none() {
            match group_of(groups, w.id.as_str(), Ghost(events), Ghost(keys)) {
                None => {
                    let mut message = "daily draft invented workstream ID: ".to_owned();
                    message.push_str(w.id.as_str());
                    r = Some(message);
                },
                Some(members) => {
                    let expected = ordered_set_of(&ids_of(members));
                    let actual = ordered_set_of(&w.evidence_event_ids);
                    if !same_texts(&actual, &expected) {
                        let mut message = "workstream ".to_owned();
                        message.push_str(w.id.as_str());
                        message.push_str(" contains evidence from a different group");
                        r = Some(message);
                    }
                },
            }
        }
        i += 1;
    }
    assert(all.take(i as int) =~= all);
    r
}

/// Whether one of some facts cites an event.
pub open spec fn cites(facts: Seq<FactView>, event_id: Seq<char>) -> bool {
    exists|i: int| 0 <= i < facts.len() && (#[trigger] facts[i]).evidence.contains(event_id)
}

pub fn field_cites_event(facts: &Vec<StructuredFact>, event_id: &str) -> (r: bool)
    ensures
        r == cites(fact_views(facts@), event_id@),
{
    let ghost all = fact_views(facts@);
    let mut i: usize = 0;
    while i < facts.len()
        invariant
            i <= facts@.len(),
            all == fact_views(facts@),
            forall|k: int| 0 <= k < i ==> !(#[trigger] all[k]).evidence.contains(event_id@),
        decreases facts@.len() - i,
    {
        assert(all[i as int] == facts@[i as int]@);
        if contains_text(&facts[i].evidence_event_ids, event_id) {
            return true;
        }
        i += 1;
    }
    false
}

/// Whether a metadata field holds a text, without regard to ASCII case.
pub open spec fn field_is(event: StoredLogEvent, key: Seq<char>, expected: Seq<char>) -> bool {
    match event.text_field(key) {
        Some(text) => ascii_lowered(text) == ascii_lowered(expected),
        None => false,
    }
}

fn metadata_value_is(event: &StoredLogEvent, key: &str, expected: &str) -> (r: bool)
    ensures
        r == field_is(*event, key@, expected@),
{
    match event.get_text(key) {
        Some(text) => eq_ignore_ascii_case(text, expected),
        None => false,
    }
}

/// Whether a JSON value says anything.
pub open spec fn has_content(value: JsonView) -> bool {
    match value {
        JsonView::Null => false,
        JsonView::Bool(b) => b,
        JsonView::Number(_) => true,
        JsonView::Text(s) => trimmed(s).len() > 0,
        JsonView::List(items) => items.len() > 0,
        JsonView::Record(fields) => exists|key: Seq<char>| fields.dom().contains(key),
    }
}

pub open spec fn field_has_content(event: StoredLogEvent, key: Seq<char>) -> bool {
    match event.field(key) {
        Some(value) => has_content(value),
        None => false,
    }
}

fn metadata_has_content(event: &StoredLogEvent, key: &str) -> (r: bool)
    ensures
        r == field_has_content(*event, key@),
{
    match event.get(key) {
        None => false,
        Some(value) => match value {
            Json::Null => false,
            Json::Bool(b) => *b,
            Json::Number(_) => true,
            Json::Text(s) => !trim(s.as_str()).as_str().is_empty(),
            Json::List(items) => {
                proof {
                    lemma_list_view(items@);
                    assert(has_content(value@) == (items@.len() > 0));
                }
                items.len() > 0
            },
            Json::Record(fields) => {
                proof {
                    if fields@.len() > 0 {
                        let last = fields@.last();
                        assert(fields_view(fields@) == fields_view(fields@.drop_last()).insert(
                            last.0@,
                            last.1@,
                        ));
                        assert(fields_view(fields@).dom().contains(last.0@));
                        assert(value@->Record_0.dom().contains(last.0@));
                    } else {
                        assert(fields_view(fields@) == Map::<Seq<char>, JsonView>::empty());
                        assert(!has_content(value@));
                    }
                }
                fields.len() > 0
            },
        },
    }
}

/// Whether an event records a decision.
pub open spec fn records_decision(event: StoredLogEvent) -> bool {
    field_has_content(event, "decision"@) || field_is(event, "event_type"@, "decision"@)
}

/// Whether an event records a validation.
pub open spec fn records_validation(event: StoredLogEvent) -> bool {
    field_has_content(event, "validation"@) || field_has_content(event, "tests"@) || field_is(
        event,
        "event_type"@,
        "validation"@,
    )
}

/// The workstream with that ID.
pub open spec fn workstream_with_id(ws: Seq<WorkstreamView>, id: Seq<char>) -> Option<
    WorkstreamView,
>
    decreases ws.len(),
{
    if ws.len() == 0 {
        None
    } else if ws.last().id == id {
        Some(ws.last())
    } else {
        workstream_with_id(ws.drop_last(), id)
    }
}

/// What is wrong with how a workstream uses an event: a decision or a
/// validation that no fact of that field cites.
pub open spec fn lifecycle_error(w: WorkstreamView, event: StoredLogEvent) -> Option<Seq<char>> {
    if records_decision(event) && !cites(w.decision, event.id@) {
        Some("daily draft omitted decision evidence from "@ + event.id@)
    } else if records_validation(event) && !cites(w.validation, event.id@) {
        Some("daily draft omitted validation evidence from "@ + event.id@)
    } else {
        None
    }
}

/// What is wrong with how some workstreams use some events.
pub open spec fn lifecycles_error(
    ws: Seq<WorkstreamView>,
    events: Seq<&StoredLogEvent>,
    context: JsonView,
) -> Option<Seq<char>>
    decreases events.len(),
{
    if events.len() == 0 {
        None
    } else {
        match lifecycles_error(ws, events.drop_last(), context) {
            Some(error) => Some(error),
            None => match workstream_with_id(ws, resolved_key(*events.last(), context)) {
                Some(w) => lifecycle_error(w, *events.last()),
                None => None,
            },
        }
    }
}

fn find_workstream<'a>(ws: &'a Vec<StructuredWorkstream>, id: &str) -> (r: Option<
    &'a StructuredWorkstream,
>)
    ensures
        match r {
            Some(w) => workstream_with_id(workstream_views(ws@), id@) == Some(w@),
            None => workstream_with_id(workstream_views(ws@), id@) is None,
        },
{
    let ghost all = workstream_views(ws@);
    let mut i: usize = ws.len();
    assert(all.take(i as int) =~= all);
    while i > 0
        invariant
            i <= ws@.len(),
            all == workstream_views(ws@),
            workstream_with_id(all, id@) == workstream_with_id(all.take(i as int), id@),
        decreases i,
    {
        assert(all.take(i as int).drop_last() =~= all.take(i - 1));
        assert(all[i - 1] == ws@[i - 1]@);
        if str_eq(ws[i - 1].id.as_str(), id) {
            return Some(&ws[i - 1]);
        }
        i -= 1;
    }
    None
}

fn validate_durable_lifecycle_evidence(
    ws: &Vec<StructuredWorkstream>,
    events: &Vec<&StoredLogEvent>,
    args: &SuggestMarkdownSummaryArgs,
) -> (r: Option<String>)
    ensures
        opt_text(r) == lifecycles_error(workstream_views(ws@), events@, args.vault_context@),
{
    let ghost all = workstream_views(ws@);
    let mut r: Option<String> = None;
    let mut i: usize = 0;
    assert(events@.take(0) =~= Seq::<&StoredLogEvent>::empty());
    while i < events.len()
        invariant
            i <= events@.len(),
            all == workstream_views(ws@),
            opt_text(r) == lifecycles_error(all, events@.take(i as int), args.vault_context@),
        decreases events@.len() - i,
    {
        proof {
            lemma_take_step(events@, i as int);
        }
        let event = events[i];
        if r.is_none() {
            let key = resolved_event_group_key(event, args);
            if let Some(w) = find_workstream(ws, key.as_str()) {
                if (metadata_has_content(event, "decision") || metadata_value_is(
                    event,
                    "event_type",
                    "decision",
                )) && !field_cites_event(&w.decision, event.id.as_str()) {
                    let mut message = "daily draft omitted decision evidence from ".to_owned();
                    message.push_str(event.id.as_str());
                    r = Some(message);
                } else if (metadata_has_content(event, "validation") || metadata_has_content(
                    event,
                    "tests",
                ) || metadata_value_is(event, "event_type", "validation")) && !field_cites_event(
                    &w.validation,
                    event.id.as_str(),
                ) {
                    let mut message = "daily draft omitted validation evidence from ".to_owned();
                    message.push_str(event.id.as_str());
                    r = Some(message);
                }
            }
        }
        i += 1;
    }
    assert(events@.take(i as int) =~= events@);
    r
}

/// The text without the list dashes that it begins with.
pub open spec fn without_dashes(s: Seq<char>) -> Seq<char>
    decreases s.len(),
{
    if begins_with(s, "- "@) && s.len() >= 2 {
        without_dashes(s.skip(2))
    } else {
        s
    }
}

fn strip_dashes(s: &str) -> (r: String)
    ensures
        r@ == without_dashes(s@),
    decreases s@.len(),
{
    proof {
        reveal_strlit("- ");
    }
    match strip_prefix(s, "- ") {
        Some(rest) => strip_dashes(rest.as_str()),
        None => s.to_owned(),
    }
}

/// The text of a fact as a list item shows it.
pub open spec fn item_of_fact(text: Seq<char>) -> Seq<char> {
    trimmed(without_dashes(trimmed(text)))
}

/// The lines of the facts of a field.
pub open spec fn strict_lines(label: Seq<char>, facts: Seq<FactView>) -> Seq<Seq<char>>
    decreases facts.len(),
{
    if facts.len() == 0 {
        Seq::empty()
    } else {
        let before = strict_lines(label, facts.drop_last());
        let item = item_of_fact(facts.last().text);
        if item.len() == 0 {
            before
        } else {
            before.push(safe_line("- **"@ + label + ":** "@ + item))
        }
    }
}

pub open spec fn strict_body(w: WorkstreamView) -> Seq<char> {
    joined(
        strict_lines("Outcome"@, w.outcome) + strict_lines("Decision"@, w.decision) + strict_lines(
            "Trade-off"@,
            w.trade_off,
        ) + strict_lines("Validation"@, w.validation) + strict_lines("Blocker"@, w.blocker)
            + strict_lines("Follow-up"@, w.follow_up),
        "\n"@,
    )
}

/// The section of a workstream of an accepted draft.
pub open spec fn strict_section(
    w: WorkstreamView,
    events: Seq<&StoredLogEvent>,
    context: JsonView,
) -> Seq<char> {
    heading(safe_text(trimmed(w.title)), group_link_texts(context, w.id)) + "\n\n"@ + referenced(
        strict_body(w),
        with_key(events, resolved_keys(events, context), w.id),
    )
}

pub open spec fn strict_sections(
    ws: Seq<WorkstreamView>,
    events: Seq<&StoredLogEvent>,
    context: JsonView,
) -> Seq<Seq<char>> {
    ws.map_values(|w: WorkstreamView| strict_section(w, events, context))
}

fn push_strict_lines(out: &mut Vec<String>, label: &str, facts: &Vec<StructuredFact>)
    ensures
        views(final(out)@) == views(old(out)@) + strict_lines(label@, fact_views(facts@)),
{
    broadcast use lemma_views_push;
    let ghost before = views(out@);
    let ghost all = fact_views(facts@);
    let mut i: usize = 0;
    assert(all.take(0) =~= Seq::<FactView>::empty());
    assert(before + Seq::<Seq<char>>::empty() =~= before);
    while i < facts.len()
        invariant
            i <= facts@.len(),
            all == fact_views(facts@),
            views(out@) == before + strict_lines(label@, all.take(i as int)),
        decreases facts@.len() - i,
    {
        proof {
            lemma_take_step(all, i as int);
        }
        let text = trim(facts[i].text.as_str());
        let item = trim(strip_dashes(text.as_str()).as_str());
        if !item.as_str().is_empty() {
            let mut line = "- **".to_owned();
            line.push_str(label);
            line.push_str(":** ");
            line.push_str(item.as_str());
            let safe = safe_model_markdown_line(line.as_str());
            let ghost mid = views(out@);
            let ghost said = safe@;
            out.push(safe);
            proof {
                assert(views(out@) == mid.push(said));
                assert(views(out@) =~= before + strict_lines(label@, all.take(i + 1)));
            }
        }
        i += 1;
    }
    assert(all.take(i as int) =~= all);
}

fn strict_body_text(w: &StructuredWorkstream) -> (r: String)
    ensures
        r@ == strict_body(w@),
{
    let mut lines: Vec<String> = Vec::new();
    assert(views(lines@) =~= Seq::<Seq<char>>::empty());
    push_strict_lines(&mut lines, "Outcome", &w.outcome);
    assert(views(lines@) =~= strict_lines("Outcome"@, w@.outcome));
    push_strict_lines(&mut lines, "Decision", &w.decision);
    push_strict_lines(&mut lines, "Trade-off", &w.trade_off);
    push_strict_lines(&mut lines, "Validation", &w.validation);
    push_strict_lines(&mut lines, "Blocker", &w.blocker);
    push_strict_lines(&mut lines, "Follow-up", &w.follow_up);
    join(&lines, "\n")
}

fn render_strict_daily_markdown(
    ws: &Vec<StructuredWorkstream>,
    args: &SuggestMarkdownSummaryArgs,
    groups: &Vec<EventGroup>,
    Ghost(events): Ghost<Seq<&StoredLogEvent>>,
) -> (r: String)
    requires
        groups_by_key(groups@, events, resolved_keys(events, args.vault_context@)),
    ensures
        r@ == joined(
            strict_sections(workstream_views(ws@), events, args.vault_context@),
            "\n\n"@,
        ),
{
    broadcast use lemma_views_push;
    let ghost context = args.vault_context@;
    let ghost keys = resolved_keys(events, context);
    let ghost all = strict_sections(workstream_views(ws@), events, context);
    let mut sections: Vec<String> = Vec::new();
    let mut i: usize = 0;
    assert(views(sections@) =~= all.take(0));
    while i < ws.len()
        invariant
            i <= ws@.len(),
            context == args.vault_context@,
            keys == resolved_keys(events, context),
            groups_by_key(groups@, events, keys),
            all == strict_sections(workstream_views(ws@), events, context),
            views(sections@) == all.take(i as int),
        decreases ws@.len() - i,
    {
        proof {
            lemma_take_step(all, i as int);
        }
        let w = &ws[i];
        let body = strict_body_text(w);
        let links = links_for_group(args, w.id.as_str());
        let title = safe_model_markdown_text(trim(w.title.as_str()).as_str());
        let mut section = workstream_heading(title.as_str(), &links);
        section.push_str("\n\n");
        match group_of(groups, w.id.as_str(), Ghost(events), Ghost(keys)) {
            Some(members) => {
                section.push_str(with_daily_details(body.as_str(), members).as_str());
            },
            None => {
                let none: Vec<&StoredLogEvent> = Vec::new();
                proof {
                    lemma_with_key_absent(events, keys, w.id@);
                    assert(none@ =~= with_key(events, keys, w.id@));
                }
                section.push_str(with_daily_details(body.as_str(), &none).as_str());
            },
        }
        sections.push(section);
        i += 1;
    }
    assert(all.take(i as int) =~= all);
    join(&sections, "\n\n")
}

proof fn lemma_with_key_absent(
    events: Seq<&StoredLogEvent>,
    keys: Seq<Seq<char>>,
    key: Seq<char>,
)
    requires
        keys.len() == events.len(),
        !ordered_set(keys).contains(key),
    ensures
        with_key(events, keys, key).len() == 0,
{
    lemma_ordered_set(keys);
    lemma_no_key(events, keys, key);
}

proof fn lemma_no_key(events: Seq<&StoredLogEvent>, keys: Seq<Seq<char>>, key: Seq<char>)
    requires
        keys.len() == events.len(),
        !keys.contains(key),
    ensures
        with_key(events, keys, key).len() == 0,
    decreases events.len(),
{
    if events.len() > 0 {
        assert(keys[keys.len() - 1] == keys.last());
        if keys.drop_last().contains(key) {
            let i = choose|i: int| 0 <= i < keys.drop_last().len() && keys.drop_last()[i] == key;
            assert(keys[i] == key);
        }
        lemma_no_key(events.drop_last(), keys.drop_last(), key);
    }
}


/// The proposal that an accepted draft makes, or why there is none.
pub open spec fn daily_proposal(
    draft: DraftView,
    context: JsonView,
    events: Seq<&StoredLogEvent>,
    provider: Seq<char>,
) -> Result<ProposalView, Seq<char>> {
    let expected = event_ids(events);
    let keys = resolved_keys(events, context);
    if draft_error(draft, expected) is Some {
        Err(draft_error(draft, expected)->0)
    } else if groups_error(draft.workstreams, events, keys) is Some {
        Err(groups_error(draft.workstreams, events, keys)->0)
    } else if lifecycles_error(draft.workstreams, events, context) is Some {
        Err(lifecycles_error(draft.workstreams, events, context)->0)
    } else {
        Ok(
            ProposalView {
                target_note: context_text(context, "daily_note"@, "Daily note"@),
                canonical_links: configured_links(context),
                link_candidates: allowed_links(context),
                markdown: joined(strict_sections(draft.workstreams, events, context), "\n\n"@),
                evidence_event_ids: expected,
                confidence: "medium"@,
                open_questions: draft.open_questions,
                requires_review: true,
                provider,
                supersedes_proposal_ids: Seq::empty(),
                consolidation_job_id: None,
                link_context_revision: context_text(context, "link_context_revision"@, ""@),
                structured_draft: Some(draft),
            },
        )
    }
}

/// The proposal that a draft of a model makes: a draft is accepted if it uses
/// every event once, in the group of the event, and keeps what the events
/// record of decisions and validations.
fn parse_daily_proposal(
    decoded: &Result<StructuredDailyDraft, String>,
    args: &SuggestMarkdownSummaryArgs,
    events: &Vec<StoredLogEvent>,
    provider: &str,
) -> (r: Result<SummaryProposal, String>)
    ensures
        match read_draft(*decoded) {
            Err(error) => r is Err && r->Err_0@ == error,
            Ok(draft) => match daily_proposal(
                draft,
                args.vault_context@,
                refs(events@),
                provider@,
            ) {
                Ok(view) => r is Ok && r->Ok_0@ == view,
                Err(error) => r is Err && r->Err_0@ == error,
            },
        },
{
    let all_events = event_refs(events);
    let expected = ids_of(&all_events);
    let draft = match parse_strict_daily_draft(decoded, &expected) {
        Ok(draft) => draft,
        Err(error) => {
            return Err(error);
        },
    };
    let groups = event_groups(events, args);
    let ghost seen = all_events@;
    let ghost keys = resolved_keys(seen, args.vault_context@);
    if let Some(error) = validate_daily_workstream_groups(
        &draft.workstreams,
        &groups,
        Ghost(seen),
        Ghost(keys),
    ) {
        return Err(error);
    }
    if let Some(error) = validate_durable_lifecycle_evidence(
        &draft.workstreams,
        &all_events,
        args,
    ) {
        return Err(error);
    }
    let markdown = render_strict_daily_markdown(
        &draft.workstreams,
        args,
        &groups,
        Ghost(seen),
    );
    let supersedes_proposal_ids: Vec<String> = Vec::new();
    assert(views(supersedes_proposal_ids@) =~= Seq::<Seq<char>>::empty());
    Ok(
        SummaryProposal {
            target_note: default_target_note(args),
            canonical_links: configured_workstream_links(args),
            link_candidates: allowed_canonical_links(args),
            markdown,
            evidence_event_ids: expected,
            confidence: "medium".to_owned(),
            open_questions: copy_texts(&draft.open_questions),
            requires_review: true,
            provider: provider.to_owned(),
            supersedes_proposal_ids,
            consolidation_job_id: None,
            link_context_revision: link_context_revision(args),
            structured_draft: Some(draft),
        },
    )
}

/// The links of some workstreams that are allowed.
pub open spec fn allowed_among(items: Seq<JsonView>, allowed: Seq<Seq<char>>) -> Seq<Seq<char>>
    decreases items.len(),
{
    if items.len() == 0 {
        Seq::empty()
    } else {
        let before = allowed_among(items.drop_last(), allowed);
        match items.last().text_field("canonical_link"@) {
            Some(link) => if allowed.contains(link) {
                before.push(link)
            } else {
                before
            },
            None => before,
        }
    }
}

/// The links that the workstreams of an answer use, each once, in order.
pub open spec fn answer_workstream_links(value: JsonView, context: JsonView) -> Seq<Seq<char>> {
    match value.list_field("workstreams"@) {
        Some(items) => ordered_set(allowed_among(items, allowed_links(context))),
        None => Seq::empty(),
    }
}

fn workstream_links(value: &Json, args: &SuggestMarkdownSummaryArgs) -> (r: Vec<String>)
    ensures
        views(r@) == answer_workstream_links(value@, args.vault_context@),
{
    broadcast use lemma_views_push;
    let allowed = allowed_canonical_links(args);
    let mut links: Vec<String> = Vec::new();
    assert(views(links@) =~= Seq::<Seq<char>>::empty());
    match value.get_list("workstreams") {
        None => links,
        Some(items) => {
            let ghost all = list_view(items@);
            let mut i: usize = 0;
            proof {
                lemma_list_view(items@);
                assert(all.take(0) =~= Seq::<JsonView>::empty());
            }
            while i < items.len()
                invariant
                    i <= items@.len(),
                    all == list_view(items@),
                    all.len() == items@.len(),
                    forall|k: int| 0 <= k < items@.len() ==> all[k] == (#[trigger] items@[k])@,
                    views(links@) == allowed_among(all.take(i as int), views(allowed@)),
                decreases items@.len() - i,
            {
                proof {
                    lemma_take_step(all, i as int);
                }
                if let Some(link) = items[i].get_text("canonical_link") {
                    if contains_text(&allowed, link) {
                        links.push(link.to_owned());
                    }
                }
                i += 1;
            }
            assert(all.take(i as int) =~= all);
            ordered_set_of(&links)
        },
    }
}

/// The texts of a list that another list holds.
pub open spec fn texts_among(texts: Seq<Seq<char>>, allowed: Seq<Seq<char>>) -> Seq<Seq<char>>
    decreases texts.len(),
{
    if texts.len() == 0 {
        Seq::empty()
    } else if allowed.contains(texts.last()) {
        texts_among(texts.drop_last(), allowed).push(texts.last())
    } else {
        texts_among(texts.drop_last(), allowed)
    }
}

/// The allowed links of an answer; without any, the only one that is allowed.
pub open spec fn answer_links(value: JsonView, context: JsonView) -> Seq<Seq<char>> {
    let allowed = allowed_links(context);
    let selected = texts_among(texts_of_field(value, "canonical_links"@), allowed);
    if selected.len() == 0 && allowed.len() == 1 {
        allowed
    } else {
        selected
    }
}

fn validated_canonical_links(value: &Json, args: &SuggestMarkdownSummaryArgs) -> (r: Vec<String>)
    ensures
        views(r@) == answer_links(value@, args.vault_context@),
{
    broadcast use lemma_views_push;
    let allowed = allowed_canonical_links(args);
    let links = string_array_field(value, "canonical_links");
    let ghost all = views(links@);
    let mut selected: Vec<String> = Vec::new();
    let mut i: usize = 0;
    assert(all.take(0) =~= Seq::<Seq<char>>::empty());
    assert(views(selected@) =~= Seq::<Seq<char>>::empty());
    while i < links.len()
        invariant
            i <= links@.len(),
            all == views(links@),
            views(selected@) == texts_among(all.take(i as int), views(allowed@)),
        decreases links@.len() - i,
    {
        proof {
            lemma_take_step(all, i as int);
        }
        if contains_text(&allowed, links[i].as_str()) {
            selected.push(links[i].as_str().to_owned());
        }
        i += 1;
    }
    assert(all.take(i as int) =~= all);
    assert(views(selected@).len() == selected@.len());
    assert(views(allowed@).len() == allowed@.len());
    if selected.len() == 0 && allowed.len() == 1 {
        allowed
    } else {
        selected
    }
}

/// What stands for a summary that a model did not write.
pub open spec fn manual_review(count: nat, reason: Seq<char>) -> Seq<char> {
    "- Review "@ + decimal(count) + " log events manually. "@ + reason
}

fn fallback_markdown(count: usize, reason: &str) -> (r: String)
    ensures
        r@ == manual_review(count as nat, reason@),
{
    let mut r = "- Review ".to_owned();
    r.push_str(decimal_text(count as u64).as_str());
    r.push_str(" log events manually. ");
    r.push_str(reason);
    r
}

/// The proposal that an answer makes.
pub open spec fn answer_proposal(
    value: JsonView,
    context: JsonView,
    events: Seq<&StoredLogEvent>,
    provider: Seq<char>,
) -> ProposalView {
    let links = answer_workstream_links(value, context);
    ProposalView {
        target_note: context_text(context, "daily_note"@, "Daily note"@),
        canonical_links: if links.len() == 0 {
            answer_links(value, context)
        } else {
            links
        },
        link_candidates: allowed_links(context),
        markdown: detailed(
            context_text(
                value,
                "markdown"@,
                manual_review(events.len(), "LLM response omitted markdown."@),
            ),
            events,
        ),
        evidence_event_ids: event_ids(events),
        confidence: context_text(value, "confidence"@, "low"@),
        open_questions: texts_of_field(value, "open_questions"@),
        requires_review: true,
        provider,
        supersedes_proposal_ids: Seq::empty(),
        consolidation_job_id: None,
        link_context_revision: context_text(context, "link_context_revision"@, ""@),
        structured_draft: None,
    }
}

/// The proposal that an answer makes, once it was read as JSON.
pub fn proposal_from_answer(
    value: &Json,
    args: &SuggestMarkdownSummaryArgs,
    events: &Vec<StoredLogEvent>,
    provider: &str,
) -> (r: SummaryProposal)
    ensures
        r@ == answer_proposal(value@, args.vault_context@, refs(events@), provider@),
{
    let all_events = event_refs(events);
    let links = workstream_links(value, args);
    assert(views(links@).len() == links@.len());
    let canonical_links = if links.len() == 0 {
        validated_canonical_links(value, args)
    } else {
        links
    };
    let markdown = match string_field(value, "markdown") {
        Some(markdown) => markdown,
        None => fallback_markdown(all_events.len(), "LLM response omitted markdown."),
    };
    let confidence = match string_field(value, "confidence") {
        Some(confidence) => confidence,
        None => "low".to_owned(),
    };
    let supersedes_proposal_ids: Vec<String> = Vec::new();
    assert(views(supersedes_proposal_ids@) =~= Seq::<Seq<char>>::empty());
    SummaryProposal {
        target_note: default_target_note(args),
        canonical_links,
        link_candidates: allowed_canonical_links(args),
        markdown: with_evidence_details(markdown.as_str(), &all_events),
        evidence_event_ids: ids_of(&all_events),
        confidence,
        open_questions: string_array_field(value, "open_questions"),
        requires_review: true,
        provider: provider.to_owned(),
        supersedes_proposal_ids,
        consolidation_job_id: None,
        link_context_revision: link_context_revision(args),
        structured_draft: None,
    }
}

/// The proposal that a model's answer makes, or why it makes none.
pub open spec fn model_proposal(
    content: Seq<char>,
    decoded: Result<StructuredDailyDraft, String>,
    mode: Seq<char>,
    context: JsonView,
    events: Seq<&StoredLogEvent>,
    provider: Seq<char>,
) -> Result<ProposalView, Seq<char>> {
    if mode == "daily-consolidation"@ {
        match read_draft(decoded) {
            Err(error) => Err(error),
            Ok(draft) => daily_proposal(draft, context, events, provider),
        }
    } else {
        match json_parsed(content) {
            Some(value) => Ok(answer_proposal(value, context, events, provider)),
            None => Err(
                "LLM did not return valid JSON: "@ + json_error(content)
                    + "; response content was: "@ + content,
            ),
        }
    }
}

/// The proposal that a model's answer makes. For a Daily consolidation the
/// answer is a draft, and `decoded` is what it says, or why it says nothing.
pub fn parse_proposal(
    content: &str,
    decoded: &Result<StructuredDailyDraft, String>,
    args: &SuggestMarkdownSummaryArgs,
    events: &Vec<StoredLogEvent>,
    provider: &str,
) -> (r: Result<SummaryProposal, String>)
    ensures
        match model_proposal(
            content@,
            *decoded,
            args.mode@,
            args.vault_context@,
            refs(events@),
            provider@,
        ) {
            Ok(view) => r is Ok && r->Ok_0@ == view,
            Err(error) => r is Err && r->Err_0@ == error,
        },
{
    if str_eq(args.mode.as_str(), "daily-consolidation") {
        return parse_daily_proposal(decoded, args, events, provider);
    }
    match parse_json(content) {
        Ok(value) => Ok(proposal_from_answer(&value, args, events, provider)),
        Err(error) => {
            let mut message = "LLM did not return valid JSON: ".to_owned();
            message.push_str(error.as_str());
            message.push_str("; response content was: ");
            message.push_str(content);
            Err(message)
        },
    }
}

/// The proposal that stands for one of a model.
pub open spec fn fallback_view(
    context: JsonView,
    events: Seq<&StoredLogEvent>,
    provider: Seq<char>,
    reason: Seq<char>,
) -> ProposalView {
    let allowed = allowed_links(context);
    ProposalView {
        target_note: context_text(context, "daily_note"@, "Daily note"@),
        canonical_links: if allowed.len() == 1 {
            allowed
        } else {
            Seq::empty()
        },
        link_candidates: allowed,
        markdown: detailed(manual_review(events.len(), reason), events),
        evidence_event_ids: event_ids(events),
        confidence: "low"@,
        open_questions: seq![reason],
        requires_review: true,
        provider,
        supersedes_proposal_ids: Seq::empty(),
        consolidation_job_id: None,
        link_context_revision: context_text(context, "link_context_revision"@, ""@),
        structured_draft: None,
    }
}

pub fn fallback_proposal(
    args: &SuggestMarkdownSummaryArgs,
    events: &Vec<StoredLogEvent>,
    provider: &str,
    reason: &str,
) -> (r: SummaryProposal)
    ensures
        r@ == fallback_view(args.vault_context@, refs(events@), provider@, reason@),
{
    let all_events = event_refs(events);
    let markdown = fallback_markdown(all_events.len(), reason);
    let allowed = allowed_canonical_links(args);
    assert(views(allowed@).len() == allowed@.len());
    let canonical_links: Vec<String> = if allowed.len() == 1 {
        allowed
    } else {
        let none: Vec<String> = Vec::new();
        assert(views(none@) =~= Seq::<Seq<char>>::empty());
        none
    };
    let mut open_questions: Vec<String> = Vec::new();
    open_questions.push(reason.to_owned());
    assert(views(open_questions@) =~= seq![reason@]);
    let supersedes_proposal_ids: Vec<String> = Vec::new();
    assert(views(supersedes_proposal_ids@) =~= Seq::<Seq<char>>::empty());
    SummaryProposal {
        target_note: default_target_note(args),
        canonical_links,
        link_candidates: allowed_canonical_links(args),
        markdown: with_evidence_details(markdown.as_str(), &all_events),
        evidence_event_ids: ids_of(&all_events),
        confidence: "low".to_owned(),
        open_questions,
        requires_review: true,
        provider: provider.to_owned(),
        supersedes_proposal_ids,
        consolidation_job_id: None,
        link_context_revision: link_context_revision(args),
        structured_draft: None,
    }
}

} // verus!
