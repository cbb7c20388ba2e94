//! What the model is asked, and what becomes of its answers.
use crate::details::detailed;
use crate::drafts::{
    DraftView, FactView, StructuredDailyDraft, WorkstreamView, draft_error, read_draft,
};
use crate::identity::group_key;
use crate::json::{JsonView, json_parsed, json_pretty, json_text, text_views, texts_of_field};
use crate::knowledge::{event_ids, with_key};
use crate::markdown::safe_line;
use crate::model_call::{
    is_local, is_octet, parsed_number, revision_of, timeout_seconds, without_brackets,
};
use crate::models::StoredLogEvent;
use crate::ordered::{lemma_increasing_unique, lemma_ordered_set, lemma_push_contains, ordered_set};
use crate::prompt::{
    allowed_links, context_keys, kept_fields, prompt_metadata, prompt_text, prompt_view,
    resolved_key, resolved_keys, task_text,
};
use crate::proposals::{
    ProposalView, answer_proposal, cites, daily_proposal, fallback_view, group_error,
    has_content, lifecycle_error, lifecycles_error, model_proposal, records_decision,
    records_validation, strict_body, strict_lines, strict_section, strict_sections, texts_among,
    without_dashes, workstream_with_id,
};
use crate::text::{
    ascii_lowered, begins_with, byte_len, decimal, digits_value, finishes_with, is_digit,
    is_digits, joined, law_bounded_prefix, lemma_decimal_value, opt_text, pieces, trimmed,
};
use vstd::prelude::*;
use vstd::string::*;

verus! {

/// An event goes by the other name of its group where the context has one that is
/// not blank, and else by the group itself.
pub proof fn law_groups_by_their_other_names(event: StoredLogEvent, context: JsonView)
    ensures
        ({
            let own = group_key(event);
            let aliases = context.field("group_aliases"@);
            let other = if aliases is Some {
                aliases->0.text_field(own)
            } else {
                None
            };
            &&& other is Some && trimmed(other->0).len() > 0 ==> resolved_key(event, context)
                == other->0
            &&& other is None || trimmed(other->0).len() == 0 ==> resolved_key(event, context)
                == own
        }),
{
}

/// What the model sees of an event is what was logged; a message is cut to 16384
/// bytes, and told to be whole just where it is.
pub proof fn law_model_sees_what_was_logged(event: StoredLogEvent, context: JsonView)
    ensures
        ({
            let seen = prompt_view(event, context);
            &&& seen.id == event.id@
            &&& seen.group_id == resolved_key(event, context)
            &&& seen.timestamp == event.timestamp
            &&& seen.source == event.source@
            &&& seen.level == event.level@
            &&& seen.fingerprint == opt_text(event.fingerprint)
            &&& begins_with(event.message@, seen.message)
            &&& byte_len(seen.message) <= 16_384
            &&& seen.message_complete <==> byte_len(event.message@) <= 16_384
            &&& seen.message_complete ==> seen.message == event.message@
        }),
{
    law_bounded_prefix(event.message@, 16_384);
}

proof fn lemma_kept_fields(metadata: Map<Seq<char>, JsonView>, keys: Seq<Seq<char>>, key: Seq<char>)
    ensures
        kept_fields(metadata, keys).dom().contains(key) <==> keys.contains(key)
            && metadata.dom().contains(key),
        kept_fields(metadata, keys).dom().contains(key) ==> kept_fields(metadata, keys)[key]
            == metadata[key],
    decreases keys.len(),
{
    if keys.len() > 0 {
        let init = keys.drop_last();
        lemma_kept_fields(metadata, init, key);
        assert(keys =~= init.push(keys.last()));
        lemma_push_contains(init, keys.last(), key);
    }
}

/// Metadata reaches the model whole where it takes no more than 8192 bytes. Else
/// only the fields that are known to matter do, as they are, with a notice.
pub proof fn law_metadata_is_bounded(metadata: Map<Seq<char>, JsonView>, key: Seq<char>)
    ensures
        ({
            let fits = byte_len(json_text(JsonView::Record(metadata))) <= 8_192;
            let seen = prompt_metadata(metadata);
            &&& fits ==> seen == metadata
            &&& !fits ==> seen.dom().contains("_prompt_notice"@)
            &&& !fits && key != "_prompt_notice"@ ==> (seen.dom().contains(key)
                <==> metadata.dom().contains(key) && context_keys().contains(key))
            &&& key != "_prompt_notice"@ && seen.dom().contains(key) ==> seen[key] == metadata[key]
        }),
        context_keys().contains("task_id"@) && context_keys().contains("repo"@)
            && context_keys().contains("work_item"@) && context_keys().contains("pull_request"@)
            && context_keys().contains("decision"@) && context_keys().contains("validation"@)
            && context_keys().contains("tests"@) && context_keys().contains("trade_off"@)
            && context_keys().contains("blocker"@) && context_keys().contains("follow_up"@)
            && context_keys().contains("commit"@) && context_keys().contains("branch"@),
{
    lemma_kept_fields(metadata, context_keys(), key);
    let k = context_keys();
    assert(k[0] == "task_id"@ && k[5] == "repo"@ && k[10] == "branch"@ && k[13] == "commit"@
        && k[15] == "work_item"@ && k[16] == "pull_request"@ && k[19] == "tests"@ && k[20]
        == "validation"@ && k[21] == "decision"@ && k[22] == "trade_off"@ && k[23] == "blocker"@
        && k[24] == "follow_up"@);
}

/// The links that a model may choose are the notes of its context, each in double
/// brackets, in their order.
pub proof fn law_links_that_a_model_may_choose(context: JsonView, i: int)
    requires
        0 <= i < texts_of_field(context, "candidate_notes"@).len(),
    ensures
        ({
            let note = texts_of_field(context, "candidate_notes"@)[i];
            let link = allowed_links(context)[i];
            &&& allowed_links(context).len() == texts_of_field(context, "candidate_notes"@).len()
            &&& begins_with(note, "[["@) && finishes_with(note, "]]"@) ==> link == note
            &&& !begins_with(note, "[["@) || !finishes_with(note, "]]"@) ==> link == "[["@ + note
                + "]]"@
        }),
{
}

/// The prompt begins with what is to be done and from what: the task, the mode, the
/// context, the links that may be chosen and the events.
pub proof fn law_prompt_begins_with_its_material(
    context: JsonView,
    mode: Seq<char>,
    task: Option<Seq<char>>,
    slice: Seq<char>,
)
    ensures
        ({
            let told = match task {
                Some(task) => task,
                None => "Summarize selected log events for review."@,
            };
            begins_with(
                prompt_text(context, mode, task, slice),
                "Task: "@ + told + "\nMode: "@ + mode + "\n\nVault context:\n"@ + json_pretty(
                    context,
                ) + "\n\nAllowed canonical links:\n"@ + json_text(
                    JsonView::List(text_views(allowed_links(context))),
                ) + "\n\nEvents:\n"@ + slice + "\n\nReturn JSON with this exact shape:\n"@,
            )
        }),
{
    let told = task_text(task);
    let head = "Task: "@ + told + "\nMode: "@ + mode + "\n\nVault context:\n"@ + json_pretty(
        context,
    ) + "\n\nAllowed canonical links:\n"@ + json_text(
        JsonView::List(text_views(allowed_links(context))),
    ) + "\n\nEvents:\n"@ + slice + "\n\nReturn JSON with this exact shape:\n"@;
    let all = prompt_text(context, mode, task, slice);
    assert(all.take(head.len() as int) =~= head);
}

/// A request takes between 5 seconds and half an hour: as long as is configured
/// within that, and 5 minutes where nothing that is a number is.
pub proof fn law_timeouts_are_bounded(configured: Option<Seq<char>>)
    ensures
        5 <= timeout_seconds(configured) <= 1800,
        configured is None ==> timeout_seconds(configured) == 300,
        configured is Some && parsed_number(configured->0) is None ==> timeout_seconds(configured)
            == 300,
        configured is Some && parsed_number(configured->0) is Some && 5 <= parsed_number(
            configured->0,
        )->0 <= 1800 ==> timeout_seconds(configured) == parsed_number(configured->0)->0,
        configured is Some && parsed_number(configured->0) is Some && parsed_number(
            configured->0,
        )->0 < 5 ==> timeout_seconds(configured) == 5,
        configured is Some && parsed_number(configured->0) is Some && parsed_number(
            configured->0,
        )->0 > 1800 ==> timeout_seconds(configured) == 1800,
{
}

proof fn lemma_digits_of(n: nat)
    ensures
        decimal(n).len() > 0,
        is_digits(decimal(n)),
        digits_value(decimal(n)) == n,
    decreases n,
{
    lemma_decimal_value(n);
    if n >= 10 {
        lemma_digits_of(n / 10);
        let before = decimal(n / 10);
        let all = decimal(n);
        assert forall|i: int| 0 <= i < all.len() implies is_digit(#[trigger] all[i]) by {
            if i < before.len() {
                assert(all[i] == before[i]);
            }
        }
    }
}

/// A number is read as it is written.
pub proof fn law_numbers_are_read_as_written(n: u64)
    ensures
        parsed_number(decimal(n as nat)) == Some(n as nat),
        parsed_number(Seq::empty()) is None,
{
    lemma_digits_of(n as nat);
    reveal_strlit("+");
    let s = decimal(n as nat);
    assert(is_digit(s[0]));
    if begins_with(s, "+"@) {
        assert(s.take(1)[0] == "+"@[0]);
    }
    let none = Seq::<char>::empty();
    assert(!begins_with(none, "+"@));
}

/// Text of notes is sent only to a model on the machine or beside it, over HTTP: by
/// the names `localhost` and `ollama` in any case, or by a loopback address.
pub proof fn law_notes_stay_local(scheme: Option<Seq<char>>, host: Option<Seq<char>>)
    ensures
        is_local(scheme, host) ==> scheme is Some && host is Some && (scheme->0 == "http"@
            || scheme->0 == "https"@),
        scheme is Some && host is Some && (scheme->0 == "http"@ || scheme->0 == "https"@) ==> {
            &&& ascii_lowered(host->0) == "localhost"@ ==> is_local(scheme, host)
            &&& ascii_lowered(host->0) == "ollama"@ ==> is_local(scheme, host)
            &&& host->0 == "[::1]"@ ==> is_local(scheme, host)
            &&& host->0 == "127.0.0.1"@ ==> is_local(scheme, host)
        },
        is_local(scheme, host) ==> ascii_lowered(host->0) == "localhost"@ || ascii_lowered(host->0)
            == "ollama"@ || without_brackets(host->0) == "::1"@ || (pieces(
            without_brackets(host->0),
            '.',
        ).len() == 4 && pieces(without_brackets(host->0), '.')[0] == "127"@),
{
    reveal_strlit("localhost");
    reveal_strlit("ollama");
    assert(ascii_lowered("localhost"@) =~= "localhost"@);
    assert(ascii_lowered("ollama"@) =~= "ollama"@);
    reveal_strlit("[::1]");
    reveal_strlit("::1");
    let six = "[::1]"@;
    reveal_with_fuel(without_brackets, 4);
    assert(six.drop_first().drop_last() =~= "::1"@);
    reveal_strlit("127.0.0.1");
    reveal_strlit("127");
    let four = "127.0.0.1"@;
    assert(without_brackets(four) == four);
    lemma_loopback_pieces();
    assert(is_octet(seq!['0'])) by {
        reveal_with_fuel(digits_value, 2);
        assert(seq!['0'].drop_last() =~= Seq::<char>::empty());
        assert(is_digit('0'));
    }
    assert(is_octet(seq!['1'])) by {
        reveal_with_fuel(digits_value, 2);
        assert(seq!['1'].drop_last() =~= Seq::<char>::empty());
        assert(is_digit('1'));
    }
}

proof fn lemma_loopback_pieces()
    ensures
        pieces("127.0.0.1"@, '.') == seq!["127"@, seq!['0'], seq!['0'], seq!['1']],
{
    reveal_strlit("127.0.0.1");
    reveal_strlit("127");
    let s = "127.0.0.1"@;
    let none = Seq::<char>::empty();
    reveal_with_fuel(pieces, 10);
    assert(s.take(0) =~= none);
    assert(s.take(9) =~= s);
    assert(s.take(9).drop_last() =~= s.take(8));
    assert(s.take(8).drop_last() =~= s.take(7));
    assert(s.take(7).drop_last() =~= s.take(6));
    assert(s.take(6).drop_last() =~= s.take(5));
    assert(s.take(5).drop_last() =~= s.take(4));
    assert(s.take(4).drop_last() =~= s.take(3));
    assert(s.take(3).drop_last() =~= s.take(2));
    assert(s.take(2).drop_last() =~= s.take(1));
    assert(s.take(1).drop_last() =~= s.take(0));
    assert(pieces(s.take(0), '.') =~~= seq![none]);
    assert(pieces(s.take(1), '.') =~~= seq![seq!['1']]);
    assert(pieces(s.take(2), '.') =~~= seq![seq!['1', '2']]);
    assert(pieces(s.take(3), '.') =~~= seq![seq!['1', '2', '7']]);
    assert(pieces(s.take(4), '.') =~~= seq![seq!['1', '2', '7'], none]);
    assert(pieces(s.take(5), '.') =~~= seq![seq!['1', '2', '7'], seq!['0']]);
    assert(pieces(s.take(6), '.') =~~= seq![seq!['1', '2', '7'], seq!['0'], none]);
    assert(pieces(s.take(7), '.') =~~= seq![seq!['1', '2', '7'], seq!['0'], seq!['0']]);
    assert(pieces(s.take(8), '.') =~~= seq![seq!['1', '2', '7'], seq!['0'], seq!['0'], none]);
    assert(pieces(s.take(9), '.') =~~= seq![seq!['1', '2', '7'], seq!['0'], seq!['0'], seq!['1']]);
    assert("127"@ =~= seq!['1', '2', '7']);
}

/// A revision that a draft makes has the draft's workstreams with all that they
/// say, the links that the context has for each of them, the owner's notes, and the
/// open questions; nothing is recorded as activity.
pub proof fn law_revision_says_what_the_draft_says(
    draft: DraftView,
    manual_entry_ids: Seq<Seq<char>>,
    context: JsonView,
    i: int,
)
    ensures
        ({
            let r = revision_of(draft, manual_entry_ids, context);
            &&& r.schema_version == 1
            &&& r.manual_entry_ids == manual_entry_ids
            &&& r.open_questions == draft.open_questions
            &&& r.workstreams.len() == draft.workstreams.len()
            &&& 0 <= i < draft.workstreams.len() ==> {
                &&& r.workstreams[i].work == draft.workstreams[i]
                &&& r.workstreams[i].activity.len() == 0
                &&& r.workstreams[i].links == (match context.field("workstream_links"@) {
                    Some(groups) => texts_of_field(groups, draft.workstreams[i].id),
                    None => Seq::empty(),
                })
            }
        }),
{
}

/// Whether an event was logged as a decision.
pub open spec fn tells_a_decision(event: StoredLogEvent) -> bool {
    ||| event.field("decision"@) is Some && says_something(event.field("decision"@)->0)
    ||| event.text_field("event_type"@) is Some && ascii_lowered(
        event.text_field("event_type"@)->0,
    ) == "decision"@
}

/// Whether an event was logged as a validation.
pub open spec fn tells_a_validation(event: StoredLogEvent) -> bool {
    ||| event.field("validation"@) is Some && says_something(event.field("validation"@)->0)
    ||| event.field("tests"@) is Some && says_something(event.field("tests"@)->0)
    ||| event.text_field("event_type"@) is Some && ascii_lowered(
        event.text_field("event_type"@)->0,
    ) == "validation"@
}

/// Whether a value says something: it is not empty, blank, null or false.
pub open spec fn says_something(value: JsonView) -> bool {
    match value {
        JsonView::Null => false,
        JsonView::Bool(b) => b == true,
        JsonView::Number(_) => true,
        JsonView::Text(s) => trimmed(s) != Seq::<char>::empty(),
        JsonView::List(items) => items != Seq::<JsonView>::empty(),
        JsonView::Record(fields) => fields != Map::<Seq<char>, JsonView>::empty(),
    }
}

/// What was logged as a decision or a validation is known by its fields or its
/// type.
pub proof fn law_decisions_and_validations_are_known(event: StoredLogEvent)
    ensures
        records_decision(event) <==> tells_a_decision(event),
        records_validation(event) <==> tells_a_validation(event),
{
    reveal_strlit("decision");
    reveal_strlit("validation");
    assert(ascii_lowered("decision"@) =~= "decision"@);
    assert(ascii_lowered("validation"@) =~= "validation"@);
    assert forall|v: JsonView| #[trigger] has_content(v) == says_something(v) by {
        match v {
            JsonView::Text(s) => {
                if trimmed(s).len() == 0 {
                    assert(trimmed(s) =~= Seq::<char>::empty());
                }
            },
            JsonView::List(items) => {
                if items.len() == 0 {
                    assert(items =~= Seq::<JsonView>::empty());
                }
            },
            JsonView::Record(fields) => {
                if !(exists|key: Seq<char>| fields.dom().contains(key)) {
                    assert(fields =~= Map::<Seq<char>, JsonView>::empty());
                }
                if exists|key: Seq<char>| fields.dom().contains(key) {
                    let key = choose|key: Seq<char>| fields.dom().contains(key);
                    assert(!Map::<Seq<char>, JsonView>::empty().dom().contains(key));
                }
            },
            _ => {},
        }
    }
}

/// Whether a workstream is just one of the groups of some events.
pub open spec fn is_of_its_group(
    w: WorkstreamView,
    events: Seq<&StoredLogEvent>,
    keys: Seq<Seq<char>>,
) -> bool {
    &&& keys.contains(w.id)
    &&& forall|e: Seq<char>| #[trigger]
        w.evidence.contains(e) <==> exists|k: int|
            0 <= k < events.len() && #[trigger] keys[k] == w.id && events[k].id@ == e
}

proof fn lemma_with_key_ids(
    events: Seq<&StoredLogEvent>,
    keys: Seq<Seq<char>>,
    id: Seq<char>,
    e: Seq<char>,
)
    requires
        events.len() == keys.len(),
    ensures
        event_ids(with_key(events, keys, id)).contains(e) <==> exists|k: int|
            0 <= k < events.len() && #[trigger] keys[k] == id && events[k].id@ == e,
    decreases events.len(),
{
    let all = event_ids(with_key(events, keys, id));
    if events.len() > 0 {
        let init = events.drop_last();
        let kinit = keys.drop_last();
        let n = events.len() - 1;
        lemma_with_key_ids(init, kinit, id, e);
        let before = event_ids(with_key(init, kinit, id));
        if keys.last() == id {
            assert(all =~= before.push(events.last().id@));
            lemma_push_contains(before, events.last().id@, e);
            assert(keys[n] == id);
        } else {
            assert(all == before);
        }
        if exists|k: int| 0 <= k < init.len() && #[trigger] kinit[k] == id && init[k].id@ == e {
            let k = choose|k: int|
                0 <= k < init.len() && #[trigger] kinit[k] == id && init[k].id@ == e;
            assert(keys[k] == id && events[k].id@ == e);
        }
        if exists|k: int| 0 <= k < events.len() && #[trigger] keys[k] == id && events[k].id@ == e {
            let k = choose|k: int|
                0 <= k < events.len() && #[trigger] keys[k] == id && events[k].id@ == e;
            if k < n {
                assert(kinit[k] == id && init[k].id@ == e);
            }
        }
    }
}

proof fn lemma_same_sets(a: Seq<Seq<char>>, b: Seq<Seq<char>>)
    ensures
        ordered_set(a) == ordered_set(b) <==> forall|e: Seq<char>| #[trigger]
            a.contains(e) <==> b.contains(e),
{
    lemma_ordered_set(a);
    lemma_ordered_set(b);
    if ordered_set(a) == ordered_set(b) {
        assert forall|e: Seq<char>| #[trigger] a.contains(e) <==> b.contains(e) by {
            assert(ordered_set(a).contains(e) <==> ordered_set(b).contains(e));
        }
    }
    if forall|e: Seq<char>| #[trigger] a.contains(e) <==> b.contains(e) {
        assert forall|e: Seq<char>| #[trigger] ordered_set(a).contains(e) <==> ordered_set(
            b,
        ).contains(e) by {
            assert(a.contains(e) <==> b.contains(e));
        }
        lemma_increasing_unique(ordered_set(a), ordered_set(b));
    }
}

proof fn lemma_group_error(
    ws: Seq<WorkstreamView>,
    events: Seq<&StoredLogEvent>,
    keys: Seq<Seq<char>>,
)
    requires
        events.len() == keys.len(),
    ensures
        group_error(ws, events, keys) is None <==> forall|i: int|
            0 <= i < ws.len() ==> is_of_its_group(#[trigger] ws[i], events, keys),
    decreases ws.len(),
{
    if ws.len() > 0 {
        let init = ws.drop_last();
        let w = ws.last();
        lemma_group_error(init, events, keys);
        lemma_ordered_set(keys);
        let own = event_ids(with_key(events, keys, w.id));
        lemma_same_sets(w.evidence, own);
        assert(is_of_its_group(w, events, keys) <==> ordered_set(keys).contains(w.id)
            && ordered_set(w.evidence) == ordered_set(own)) by {
            assert forall|e: Seq<char>| #[trigger] own.contains(e) <==> exists|k: int|
                0 <= k < events.len() && #[trigger] keys[k] == w.id && events[k].id@ == e by {
                lemma_with_key_ids(events, keys, w.id, e);
            }
            if is_of_its_group(w, events, keys) {
                assert forall|e: Seq<char>| #[trigger] w.evidence.contains(e) <==> own.contains(
                    e,
                ) by {
                    assert(own.contains(e) <==> exists|k: int|
                        0 <= k < events.len() && #[trigger] keys[k] == w.id && events[k].id@ == e);
                }
            }
            if ordered_set(w.evidence) == ordered_set(own) && ordered_set(keys).contains(w.id) {
                assert forall|e: Seq<char>| #[trigger] w.evidence.contains(e) <==> exists|k: int|
                    0 <= k < events.len() && #[trigger] keys[k] == w.id && events[k].id@ == e by {
                    assert(w.evidence.contains(e) <==> own.contains(e));
                    assert(own.contains(e) <==> exists|k: int|
                        0 <= k < events.len() && #[trigger] keys[k] == w.id && events[k].id@ == e);
                }
            }
        }
        if group_error(ws, events, keys) is None {
            assert forall|i: int| 0 <= i < ws.len() implies is_of_its_group(
                #[trigger] ws[i],
                events,
                keys,
            ) by {
                if i < init.len() {
                    assert(is_of_its_group(init[i], events, keys));
                }
            }
        }
        if forall|i: int| 0 <= i < ws.len() ==> is_of_its_group(#[trigger] ws[i], events, keys) {
            assert forall|i: int| 0 <= i < init.len() implies is_of_its_group(
                #[trigger] init[i],
                events,
                keys,
            ) by {
                assert(is_of_its_group(ws[i], events, keys));
            }
            assert(is_of_its_group(ws[ws.len() - 1], events, keys));
        }
    }
}

/// Whether every event that tells a decision or a validation is cited for it in the
/// last workstream that goes by its group.
pub open spec fn cites_decisions_and_validations(
    ws: Seq<WorkstreamView>,
    event: StoredLogEvent,
    context: JsonView,
) -> bool {
    forall|k: int|
        0 <= k < ws.len() && (#[trigger] ws[k]).id == resolved_key(event, context) && (forall|
            j: int,
        |
            k < j < ws.len() ==> (#[trigger] ws[j]).id != resolved_key(event, context)) ==> {
            &&& tells_a_decision(event) ==> exists|f: FactView| #[trigger]
                ws[k].decision.contains(f) && f.evidence.contains(event.id@)
            &&& tells_a_validation(event) ==> exists|f: FactView| #[trigger]
                ws[k].validation.contains(f) && f.evidence.contains(event.id@)
        }
}

proof fn lemma_cites(facts: Seq<FactView>, id: Seq<char>)
    ensures
        cites(facts, id) <==> exists|f: FactView| #[trigger]
            facts.contains(f) && f.evidence.contains(id),
{
    if cites(facts, id) {
        let i = choose|i: int|
            0 <= i < facts.len() && (#[trigger] facts[i]).evidence.contains(id);
        assert(facts.contains(facts[i]));
    }
    if exists|f: FactView| #[trigger] facts.contains(f) && f.evidence.contains(id) {
        let f = choose|f: FactView| #[trigger] facts.contains(f) && f.evidence.contains(id);
        let i = choose|i: int| 0 <= i < facts.len() && facts[i] == f;
        assert(facts[i].evidence.contains(id));
    }
}

proof fn lemma_last_with_id(ws: Seq<WorkstreamView>, id: Seq<char>)
    ensures
        match workstream_with_id(ws, id) {
            Some(w) => exists|k: int|
                0 <= k < ws.len() && #[trigger] ws[k] == w && w.id == id && (forall|j: int|
                    k < j < ws.len() ==> (#[trigger] ws[j]).id != id),
            None => forall|j: int| 0 <= j < ws.len() ==> (#[trigger] ws[j]).id != id,
        },
    decreases ws.len(),
{
    if ws.len() > 0 {
        let init = ws.drop_last();
        let n = ws.len() - 1;
        lemma_last_with_id(init, id);
        if ws.last().id == id {
            assert(ws[n] == ws.last());
        } else {
            match workstream_with_id(init, id) {
                Some(w) => {
                    let k = choose|k: int|
                        0 <= k < init.len() && #[trigger] init[k] == w && w.id == id && (forall|
                            j: int,
                        |
                            k < j < init.len() ==> (#[trigger] init[j]).id != id);
                    assert(ws[k] == w);
                    assert forall|j: int| k < j < ws.len() implies (#[trigger] ws[j]).id != id by {
                        if j < n {
                            assert(init[j] == ws[j]);
                        }
                    }
                },
                None => {
                    assert forall|j: int| 0 <= j < ws.len() implies (#[trigger] ws[j]).id != id by {
                        if j < n {
                            assert(init[j] == ws[j]);
                        }
                    }
                },
            }
        }
    }
}

proof fn lemma_lifecycle(ws: Seq<WorkstreamView>, event: StoredLogEvent, context: JsonView)
    ensures
        cites_decisions_and_validations(ws, event, context) <==> match workstream_with_id(
            ws,
            resolved_key(event, context),
        ) {
            Some(w) => lifecycle_error(w, event) is None,
            None => true,
        },
{
    let id = resolved_key(event, context);
    law_decisions_and_validations_are_known(event);
    lemma_last_with_id(ws, id);
    if let Some(w) = workstream_with_id(ws, id) {
        lemma_cites(w.decision, event.id@);
        lemma_cites(w.validation, event.id@);
        let k = choose|k: int|
            0 <= k < ws.len() && #[trigger] ws[k] == w && w.id == id && (forall|j: int|
                k < j < ws.len() ==> (#[trigger] ws[j]).id != id);
        if lifecycle_error(w, event) is None {
            assert forall|m: int|
                0 <= m < ws.len() && (#[trigger] ws[m]).id == id && (forall|j: int|
                    m < j < ws.len() ==> (#[trigger] ws[j]).id != id) implies {
                &&& tells_a_decision(event) ==> exists|f: FactView| #[trigger]
                    ws[m].decision.contains(f) && f.evidence.contains(event.id@)
                &&& tells_a_validation(event) ==> exists|f: FactView| #[trigger]
                    ws[m].validation.contains(f) && f.evidence.contains(event.id@)
            } by {
                if m < k {
                    assert(ws[k].id != id);
                }
                if k < m {
                    assert(ws[m].id != id);
                }
            }
        }
    }
}

proof fn lemma_lifecycles_error(
    ws: Seq<WorkstreamView>,
    events: Seq<&StoredLogEvent>,
    context: JsonView,
)
    ensures
        lifecycles_error(ws, events, context) is None <==> forall|i: int|
            0 <= i < events.len() ==> cites_decisions_and_validations(
                ws,
                *#[trigger] events[i],
                context,
            ),
    decreases events.len(),
{
    if events.len() > 0 {
        let init = events.drop_last();
        lemma_lifecycles_error(ws, init, context);
        lemma_lifecycle(ws, *events.last(), context);
        if lifecycles_error(ws, events, context) is None {
            assert forall|i: int|
                0 <= i < events.len() implies cites_decisions_and_validations(
                ws,
                *#[trigger] events[i],
                context,
            ) by {
                if i < init.len() {
                    assert(cites_decisions_and_validations(ws, *init[i], context));
                }
            }
        }
        if forall|i: int|
            0 <= i < events.len() ==> cites_decisions_and_validations(
                ws,
                *#[trigger] events[i],
                context,
            ) {
            assert forall|i: int| 0 <= i < init.len() implies cites_decisions_and_validations(
                ws,
                *#[trigger] init[i],
                context,
            ) by {
                assert(cites_decisions_and_validations(ws, *events[i], context));
            }
            assert(cites_decisions_and_validations(ws, *events[events.len() - 1], context));
        }
    }
}

/// A Daily is proposed from a draft just where the draft is complete and sound, has
/// one workstream for each group with the events of that group, and cites every
/// decision and validation for what it is.
pub proof fn law_daily_is_proposed_from_a_faithful_draft(
    draft: DraftView,
    context: JsonView,
    events: Seq<&StoredLogEvent>,
    provider: Seq<char>,
)
    ensures
        ({
            let keys = Seq::new(events.len(), |i: int| resolved_key(*events[i], context));
            let made = daily_proposal(draft, context, events, provider);
            made is Ok <==> {
                &&& draft_error(draft, Seq::new(events.len(), |i: int| events[i].id@)) is None
                &&& draft.workstreams.len() == ordered_set(keys).len()
                &&& forall|i: int|
                    0 <= i < draft.workstreams.len() ==> is_of_its_group(
                        #[trigger] draft.workstreams[i],
                        events,
                        keys,
                    )
                &&& forall|i: int|
                    0 <= i < events.len() ==> cites_decisions_and_validations(
                        draft.workstreams,
                        *#[trigger] events[i],
                        context,
                    )
            }
        }),
{
    let keys = Seq::new(events.len(), |i: int| resolved_key(*events[i], context));
    assert(resolved_keys(events, context) =~= keys);
    assert(event_ids(events) =~= Seq::new(events.len(), |i: int| events[i].id@));
    lemma_group_error(draft.workstreams, events, keys);
    lemma_lifecycles_error(draft.workstreams, events, context);
}

/// What a Daily proposal holds: the note of its context, the draft and its
/// questions, a section for each workstream, and every event as evidence.
pub proof fn law_contents_of_a_daily_proposal(
    draft: DraftView,
    context: JsonView,
    events: Seq<&StoredLogEvent>,
    provider: Seq<char>,
)
    requires
        daily_proposal(draft, context, events, provider) is Ok,
    ensures
        ({
            let p = daily_proposal(draft, context, events, provider)->Ok_0;
            &&& context.text_field("daily_note"@) is Some ==> p.target_note == context.text_field(
                "daily_note"@,
            )->0
            &&& p.structured_draft == Some(draft)
            &&& p.open_questions == draft.open_questions
            &&& p.requires_review
            &&& p.provider == provider
            &&& p.evidence_event_ids == Seq::new(events.len(), |i: int| events[i].id@)
            &&& p.link_candidates == allowed_links(context)
            &&& p.consolidation_job_id is None && p.supersedes_proposal_ids.len() == 0
            &&& context.text_field("link_context_revision"@) is Some ==> p.link_context_revision
                == context.text_field("link_context_revision"@)->0
            &&& p.markdown == joined(
                Seq::new(
                    draft.workstreams.len(),
                    |i: int| strict_section(draft.workstreams[i], events, context),
                ),
                "\n\n"@,
            )
        }),
{
    assert(event_ids(events) =~= Seq::new(events.len(), |i: int| events[i].id@));
    assert(strict_sections(draft.workstreams, events, context) =~= Seq::new(
        draft.workstreams.len(),
        |i: int| strict_section(draft.workstreams[i], events, context),
    ));
}

proof fn lemma_strict_add(label: Seq<char>, facts: Seq<FactView>, fact: FactView)
    ensures
        strict_lines(label, facts.push(fact)) == (if trimmed(
            without_dashes(trimmed(fact.text)),
        ).len() == 0 {
            strict_lines(label, facts)
        } else {
            strict_lines(label, facts).push(
                safe_line("- **"@ + label + ":** "@ + trimmed(without_dashes(trimmed(fact.text)))),
            )
        }),
{
    assert(facts.push(fact).drop_last() =~= facts);
}

/// A section of a proposal says the facts of each field behind the label of the
/// field, in the order of the fields and facts.
pub proof fn law_section_says_each_fact(
    w: WorkstreamView,
    label: Seq<char>,
    facts: Seq<FactView>,
    fact: FactView,
)
    ensures
        strict_body(w) == joined(
            strict_lines("Outcome"@, w.outcome) + strict_lines("Decision"@, w.decision)
                + strict_lines("Trade-off"@, w.trade_off) + strict_lines(
                "Validation"@,
                w.validation,
            ) + strict_lines("Blocker"@, w.blocker) + strict_lines("Follow-up"@, w.follow_up),
            "\n"@,
        ),
        strict_lines(label, facts.push(fact)) == (if trimmed(
            without_dashes(trimmed(fact.text)),
        ).len() == 0 {
            strict_lines(label, facts)
        } else {
            strict_lines(label, facts).push(
                safe_line("- **"@ + label + ":** "@ + trimmed(without_dashes(trimmed(fact.text)))),
            )
        }),
{
    lemma_strict_add(label, facts, fact);
}

/// What becomes of an answer: a Daily is made of a draft that could be read, and
/// anything else of an answer that is JSON; else the answer is refused.
pub proof fn law_answers_are_read_by_mode(
    content: Seq<char>,
    decoded: Result<StructuredDailyDraft, String>,
    mode: Seq<char>,
    context: JsonView,
    events: Seq<&StoredLogEvent>,
    provider: Seq<char>,
)
    ensures
        ({
            let made = model_proposal(content, decoded, mode, context, events, provider);
            &&& mode == "daily-consolidation"@ && decoded is Err ==> made is Err
            &&& mode == "daily-consolidation"@ && decoded is Ok ==> made == daily_proposal(
                read_draft(decoded)->Ok_0,
                context,
                events,
                provider,
            )
            &&& mode != "daily-consolidation"@ ==> (made is Ok <==> json_parsed(content) is Some)
            &&& mode != "daily-consolidation"@ && json_parsed(content) is Some ==> made == Ok::<
                ProposalView,
                Seq<char>,
            >(answer_proposal(json_parsed(content)->0, context, events, provider))
            &&& mode != "daily-consolidation"@ && json_parsed(content) is None ==> finishes_with(
                made->Err_0,
                content,
            )
        }),
{
    if mode != "daily-consolidation"@ && json_parsed(content) is None {
        let message = model_proposal(
            content,
            decoded,
            mode,
            context,
            events,
            provider,
        )->Err_0;
        assert(message.skip(message.len() - content.len()) =~= content);
    }
}

/// What a proposal from an answer holds: the note of the context, the answer's own
/// words with the details of its events, its confidence and questions, and links
/// that it was offered. Without words the events are to be reviewed by hand, and
/// without a choice the only link that was offered is taken.
pub proof fn law_contents_of_an_answer(
    value: JsonView,
    context: JsonView,
    events: Seq<&StoredLogEvent>,
    provider: Seq<char>,
)
    ensures
        ({
            let p = answer_proposal(value, context, events, provider);
            let offered = allowed_links(context);
            &&& context.text_field("daily_note"@) is Some ==> p.target_note == context.text_field(
                "daily_note"@,
            )->0
            &&& context.text_field("daily_note"@) is None ==> p.target_note == "Daily note"@
            &&& value.text_field("markdown"@) is Some ==> p.markdown == detailed(
                value.text_field("markdown"@)->0,
                events,
            )
            &&& value.text_field("confidence"@) is Some ==> p.confidence == value.text_field(
                "confidence"@,
            )->0
            &&& value.text_field("confidence"@) is None ==> p.confidence == "low"@
            &&& p.open_questions == texts_of_field(value, "open_questions"@)
            &&& p.requires_review && p.provider == provider && p.structured_draft is None
            &&& p.link_candidates == offered
            &&& p.evidence_event_ids == Seq::new(events.len(), |i: int| events[i].id@)
            &&& value.list_field("workstreams"@) is None && (forall|l: Seq<char>| #[trigger]
                texts_of_field(value, "canonical_links"@).contains(l) ==> !offered.contains(l))
                && offered.len() == 1 ==> p.canonical_links == offered
            &&& value.list_field("workstreams"@) is None ==> forall|l: Seq<char>|
                texts_of_field(value, "canonical_links"@).contains(l) && offered.contains(l)
                    ==> #[trigger] p.canonical_links.contains(l)
        }),
{
    assert(event_ids(events) =~= Seq::new(events.len(), |i: int| events[i].id@));
    let texts = texts_of_field(value, "canonical_links"@);
    let offered = allowed_links(context);
    assert forall|l: Seq<char>| #[trigger] texts_among(texts, offered).contains(l) <==> texts.contains(
        l,
    ) && offered.contains(l) by {
        lemma_among(texts, offered, l);
    }
    let chosen = texts_among(texts, offered);
    if value.list_field("workstreams"@) is None && (forall|l: Seq<char>| #[trigger]
        texts.contains(l) ==> !offered.contains(l)) && chosen.len() > 0 {
        assert(chosen.contains(chosen[0]));
        assert(texts.contains(chosen[0]));
    }
    if value.list_field("workstreams"@) is None {
        let p = answer_proposal(value, context, events, provider);
        assert forall|l: Seq<char>|
            texts.contains(l) && offered.contains(l) implies #[trigger] p.canonical_links.contains(
            l,
        ) by {
            assert(chosen.contains(l));
        }
    }
}

proof fn lemma_among(texts: Seq<Seq<char>>, allowed: Seq<Seq<char>>, l: Seq<char>)
    ensures
        texts_among(texts, allowed).contains(l) <==> texts.contains(l) && allowed.contains(l),
    decreases texts.len(),
{
    if texts.len() > 0 {
        let init = texts.drop_last();
        lemma_among(init, allowed, l);
        assert(texts =~= init.push(texts.last()));
        lemma_push_contains(init, texts.last(), l);
        lemma_push_contains(texts_among(init, allowed), texts.last(), l);
    }
}

/// Without a model a proposal asks to review the events by hand, says why, and is
/// of low confidence; it links the only note that there is, if there is just one.
pub proof fn law_proposal_without_a_model(
    context: JsonView,
    events: Seq<&StoredLogEvent>,
    provider: Seq<char>,
    reason: Seq<char>,
)
    ensures
        ({
            let p = fallback_view(context, events, provider, reason);
            &&& p.confidence == "low"@
            &&& p.open_questions == seq![reason]
            &&& p.requires_review && p.provider == provider && p.structured_draft is None
            &&& p.markdown == detailed(
                "- Review "@ + decimal(events.len()) + " log events manually. "@ + reason,
                events,
            )
            &&& p.evidence_event_ids == Seq::new(events.len(), |i: int| events[i].id@)
            &&& allowed_links(context).len() == 1 ==> p.canonical_links == allowed_links(context)
            &&& allowed_links(context).len() != 1 ==> p.canonical_links.len() == 0
            &&& context.text_field("daily_note"@) is Some ==> p.target_note == context.text_field(
                "daily_note"@,
            )->0
        }),
{
    assert(event_ids(events) =~= Seq::new(events.len(), |i: int| events[i].id@));
}

} // verus!
