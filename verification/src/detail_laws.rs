//! What is said of the events behind a note, and what is kept of a record.
use crate::context::{field_of_items, items_of};
use crate::curation::latest;
use crate::details::{
    all_field_texts, daily_details, detail, detail_fields, detailed, earliest, event_sources,
    evidence_details, field_texts, limited_texts, moment_text, narrative_lines, referenced,
    short_commits, unquoted, with_detail, with_field_details,
};
use crate::frozen::{context_of_snapshot, with_exclusions};
use crate::json::{JsonView, optional_text_view};
use crate::knowledge::event_ids;
use crate::models::StoredLogEvent;
use crate::ordered::{increasing, lemma_ordered_set, lemma_push_contains, ordered_set, precedes};
use crate::snapshot::text_list;
use crate::text::{
    begins_with, decimal, finishes_with, joined, occurs_at, text_lines, trim_start, trimmed,
};
use crate::text_laws::{law_text_without_a_part, law_texts_are_joined};
use crate::vault_laws::{lemma_joined_has, lemma_texts_in_list};
use vstd::prelude::*;
use vstd::string::*;

verus! {

/// Whether an event says a text under a key: alone or in a list.
pub open spec fn says_under(event: StoredLogEvent, key: Seq<char>, text: Seq<char>) -> bool {
    event.field(key) is Some && {
        let value = event.field(key)->0;
        ||| value is Text && value->Text_0 == text
        ||| value is List && value->List_0.contains(JsonView::Text(text))
    }
}

proof fn lemma_field_texts(event: StoredLogEvent, key: Seq<char>, text: Seq<char>)
    ensures
        field_texts(event, key).contains(text) <==> says_under(event, key, text),
{
    match event.field(key) {
        Some(JsonView::Text(t)) => {
            assert(seq![t][0] == t);
        },
        Some(JsonView::List(items)) => {
            lemma_texts_in_list(items, text);
        },
        _ => {},
    }
}

/// The texts of a key are what some event says under it.
pub proof fn law_texts_of_a_key(events: Seq<&StoredLogEvent>, key: Seq<char>, text: Seq<char>)
    ensures
        all_field_texts(events, key).contains(text) <==> exists|i: int|
            0 <= i < events.len() && says_under(*(#[trigger] events[i]), key, text),
    decreases events.len(),
{
    if events.len() > 0 {
        let init = events.drop_last();
        law_texts_of_a_key(init, key, text);
        lemma_field_texts(*events.last(), key, text);
        lemma_joined_has(all_field_texts(init, key), field_texts(*events.last(), key), text);
        assert(events[events.len() - 1] == events.last());
        if all_field_texts(init, key).contains(text) {
            let i = choose|i: int|
                0 <= i < init.len() && says_under(*(#[trigger] init[i]), key, text);
            assert(events[i] == init[i]);
        }
        if exists|i: int| 0 <= i < events.len() && says_under(*(#[trigger] events[i]), key, text) {
            let i = choose|i: int|
                0 <= i < events.len() && says_under(*(#[trigger] events[i]), key, text);
            assert(i < init.len() ==> init[i] == events[i]);
        }
    }
}

/// Each text is shown once, in order, and at most as many as there is room for.
pub proof fn law_texts_are_limited(
    events: Seq<&StoredLogEvent>,
    key: Seq<char>,
    limit: nat,
    text: Seq<char>,
)
    ensures
        limited_texts(events, key, limit).len() <= limit,
        limited_texts(events, key, limit).contains(text) ==> all_field_texts(events, key).contains(
            text,
        ),
        limited_texts(events, key, limit).len() < limit && all_field_texts(events, key).contains(
            text,
        ) ==> limited_texts(events, key, limit).contains(text),
        increasing(limited_texts(events, key, limit)),
        forall|i: int|
            0 <= i < limited_texts(events, key, limit).len() && all_field_texts(
                events,
                key,
            ).contains(text) && !limited_texts(events, key, limit).contains(text) ==> precedes(
                #[trigger] limited_texts(events, key, limit)[i],
                text,
            ),
{
    let all = ordered_set(all_field_texts(events, key));
    let shown = limited_texts(events, key, limit);
    lemma_ordered_set(all_field_texts(events, key));
    assert(all.contains(text) <==> all_field_texts(events, key).contains(text));
    if shown.contains(text) {
        let i = choose|i: int| 0 <= i < shown.len() && shown[i] == text;
        assert(all[i] == text);
    }
    assert forall|i: int, j: int| 0 <= i < j < shown.len() implies precedes(
        #[trigger] shown[i],
        #[trigger] shown[j],
    ) by {
        assert(shown[i] == all[i] && shown[j] == all[j]);
    }
    assert forall|i: int|
        0 <= i < shown.len() && all_field_texts(events, key).contains(text) && !shown.contains(
            text,
        ) implies precedes(#[trigger] shown[i], text) by {
        let k = choose|k: int| 0 <= k < all.len() && all[k] == text;
        if k < shown.len() {
            assert(shown[k] == text);
        }
        assert(all[i] == shown[i]);
        assert(precedes(all[i], all[k]));
    }
}

/// A detail is a label and its values between backquotes, and a value has none
/// of its own.
pub proof fn law_detail_is_labelled(label: Seq<char>, values: Seq<Seq<char>>, value: Seq<char>)
    requires
        !value.contains('`'),
    ensures
        detail(label, seq![value]) == label + seq![' ', '`'] + value + seq!['`'],
        values.len() > 0 ==> detail(label, values.push(value)) == detail(label, values).drop_last()
            + seq![',', ' '] + value + seq!['`'],
        with_detail(Seq::empty(), label, Seq::empty()).len() == 0,
{
    reveal_strlit(" `");
    reveal_strlit("`");
    reveal_strlit(", ");
    reveal_strlit("'");
    assert(" `"@ =~= seq![' ', '`']);
    assert("`"@ =~= seq!['`']);
    assert(", "@ =~= seq![',', ' ']);
    assert forall|k: int| !#[trigger] occurs_at(value, "`"@, k) by {
        if occurs_at(value, "`"@, k) {
            assert(value.subrange(k, k + 1)[0] == value[k]);
        }
    }
    law_text_without_a_part(value, "`"@, "'"@);
    assert(unquoted(seq![value]) =~= seq![value]);
    assert(unquoted(values.push(value)) =~= unquoted(values).push(value));
    law_texts_are_joined(unquoted(values), value, ", "@);
    if values.len() > 0 {
        let a = label + " `"@ + joined(unquoted(values), ", "@);
        assert(detail(label, values).drop_last() =~= a);
        assert(detail(label, values.push(value)) =~= a + seq![',', ' '] + value + seq!['`']);
    }
}

/// Whether a list of details holds one of a key, where there is anything to say.
pub open spec fn tells(
    details: Seq<Seq<char>>,
    events: Seq<&StoredLogEvent>,
    label: Seq<char>,
    key: Seq<char>,
    limit: nat,
) -> bool {
    limited_texts(events, key, limit).len() > 0 ==> details.contains(
        detail(label, limited_texts(events, key, limit)),
    )
}

proof fn lemma_details_stay(
    details: Seq<Seq<char>>,
    events: Seq<&StoredLogEvent>,
    fields: Seq<(Seq<char>, Seq<char>)>,
    text: Seq<char>,
)
    ensures
        details.contains(text) ==> with_field_details(details, events, fields).contains(text),
        details.len() <= with_field_details(details, events, fields).len(),
        with_field_details(details, events, fields).take(details.len() as int) == details,
    decreases fields.len(),
{
    if fields.len() > 0 {
        lemma_details_stay(details, events, fields.drop_last(), text);
        let before = with_field_details(details, events, fields.drop_last());
        let all = with_field_details(details, events, fields);
        let values = limited_texts(events, fields.last().1, 12);
        lemma_push_contains(before, detail(fields.last().0, values), text);
        assert(all.take(details.len() as int) =~= before.take(details.len() as int));
    } else {
        assert(details.take(details.len() as int) =~= details);
    }
}

proof fn lemma_field_is_told(
    details: Seq<Seq<char>>,
    events: Seq<&StoredLogEvent>,
    fields: Seq<(Seq<char>, Seq<char>)>,
    at: int,
)
    requires
        0 <= at < fields.len(),
    ensures
        tells(
            with_field_details(details, events, fields),
            events,
            fields[at].0,
            fields[at].1,
            12,
        ),
    decreases fields.len(),
{
    let init = fields.drop_last();
    let before = with_field_details(details, events, init);
    let values = limited_texts(events, fields.last().1, 12);
    let d = detail(fields[at].0, limited_texts(events, fields[at].1, 12));
    if at < init.len() {
        lemma_field_is_told(details, events, init, at);
        lemma_push_contains(before, detail(fields.last().0, values), d);
    } else {
        lemma_push_contains(before, detail(fields.last().0, values), d);
    }
}

proof fn lemma_push_keeps(before: Seq<Seq<char>>, last: Seq<char>)
    ensures
        forall|text: Seq<char>| before.contains(text) ==> #[trigger] before.push(last).contains(text),
        before.push(last).last() == last,
{
    assert forall|text: Seq<char>| before.contains(text) implies #[trigger] before.push(
        last,
    ).contains(text) by {
        lemma_push_contains(before, last, text);
    }
}

/// The evidence behind a note is told by where it came from, when it was, what
/// it names in each of the fields of names, and which events it is.
pub proof fn law_evidence_is_told(events: Seq<&StoredLogEvent>)
    requires
        events.len() > 0,
    ensures
        ({
            let d = evidence_details(events);
            &&& d.len() >= 3
            &&& d[0] == detail("source"@, ordered_set(event_sources(events)))
            &&& d[1] == "window `"@ + moment_text(earliest(events)) + "/"@ + moment_text(
                latest(events),
            ) + "`"@
            &&& tells(d, events, "repo"@, "repo"@, 12)
            &&& tells(d, events, "project"@, "project"@, 12)
            &&& tells(d, events, "product"@, "product"@, 12)
            &&& tells(d, events, "branch"@, "branch"@, 12)
            &&& tells(d, events, "base"@, "base_branch"@, 12)
            &&& tells(d, events, "target"@, "target_branch"@, 12)
            &&& tells(d, events, "commit"@, "commit"@, 12)
            &&& tells(d, events, "status"@, "status"@, 12)
            &&& tells(d, events, "work item"@, "work_item"@, 12)
            &&& tells(d, events, "pull request"@, "pull_request"@, 12)
            &&& tells(d, events, "modules"@, "modules"@, 12)
            &&& tells(d, events, "paths"@, "changed_paths"@, 12)
            &&& tells(d, events, "tests"@, "tests"@, 12)
            &&& tells(d, events, "validation"@, "validation"@, 12)
            &&& events.len() <= 12 ==> d.last() == detail("events"@, event_ids(events))
            &&& events.len() > 12 ==> d.last() == "events `"@ + decimal(events.len())
                + "` (IDs retained in proposal metadata and SQLite)"@
        }),
{
    let sources = event_sources(events);
    lemma_ordered_set(sources);
    assert(sources[0] == events[0].source@);
    assert(sources.contains(sources[0]));
    assert(ordered_set(sources).contains(sources[0]));
    let source = with_detail(Seq::empty(), "source"@, ordered_set(sources));
    let window = source.push(
        "window `"@ + moment_text(earliest(events)) + "/"@ + moment_text(latest(events)) + "`"@,
    );
    let fields = detail_fields();
    let told = with_field_details(window, events, fields);
    lemma_details_stay(window, events, fields, Seq::empty());
    assert(told.take(2)[0] == told[0]);
    assert(told.take(2)[1] == told[1]);
    let d = evidence_details(events);
    lemma_push_keeps(told, d.last());
    assert(d =~= told.push(d.last()));
    assert(fields[0] == ("repo"@, "repo"@));
    lemma_field_is_told(window, events, fields, 0);
    assert(fields[1] == ("project"@, "project"@));
    lemma_field_is_told(window, events, fields, 1);
    assert(fields[2] == ("product"@, "product"@));
    lemma_field_is_told(window, events, fields, 2);
    assert(fields[3] == ("branch"@, "branch"@));
    lemma_field_is_told(window, events, fields, 3);
    assert(fields[4] == ("base"@, "base_branch"@));
    lemma_field_is_told(window, events, fields, 4);
    assert(fields[5] == ("target"@, "target_branch"@));
    lemma_field_is_told(window, events, fields, 5);
    assert(fields[6] == ("commit"@, "commit"@));
    lemma_field_is_told(window, events, fields, 6);
    assert(fields[7] == ("status"@, "status"@));
    lemma_field_is_told(window, events, fields, 7);
    assert(fields[8] == ("work item"@, "work_item"@));
    lemma_field_is_told(window, events, fields, 8);
    assert(fields[9] == ("pull request"@, "pull_request"@));
    lemma_field_is_told(window, events, fields, 9);
    assert(fields[10] == ("modules"@, "modules"@));
    lemma_field_is_told(window, events, fields, 10);
    assert(fields[11] == ("paths"@, "changed_paths"@));
    lemma_field_is_told(window, events, fields, 11);
    assert(fields[12] == ("tests"@, "tests"@));
    lemma_field_is_told(window, events, fields, 12);
    assert(fields[13] == ("validation"@, "validation"@));
    lemma_field_is_told(window, events, fields, 13);
}

/// The lines of a note are kept but for those that tell details, which are
/// written anew.
pub proof fn law_old_details_are_left_out(lines: Seq<Seq<char>>, line: Seq<char>)
    ensures
        narrative_lines(Seq::empty()).len() == 0,
        begins_with(trim_start(line), "Details:"@) ==> narrative_lines(lines.push(line))
            == narrative_lines(lines),
        !begins_with(trim_start(line), "Details:"@) ==> narrative_lines(lines.push(line))
            == narrative_lines(lines).push(line),
{
    assert(lines.push(line).drop_last() =~= lines);
}

/// A note with its details begins with its own lines and ends with the details
/// of its events.
pub proof fn law_details_follow_the_note(markdown: Seq<char>, events: Seq<&StoredLogEvent>)
    ensures
        begins_with(
            detailed(markdown, events),
            trimmed(joined(narrative_lines(text_lines(markdown)), "\n"@)) + "\n\nDetails: "@,
        ),
        finishes_with(
            detailed(markdown, events),
            "\n\nDetails: "@ + joined(evidence_details(events), " · "@),
        ),
        detailed(markdown, events).len() == trimmed(
            joined(narrative_lines(text_lines(markdown)), "\n"@),
        ).len() + "\n\nDetails: "@.len() + joined(evidence_details(events), " · "@).len(),
{
    let own = trimmed(joined(narrative_lines(text_lines(markdown)), "\n"@));
    let mark = "\n\nDetails: "@;
    let rest = joined(evidence_details(events), " · "@);
    let all = detailed(markdown, events);
    assert(all =~= own + mark + rest);
    assert(all.take((own + mark).len() as int) =~= own + mark);
    assert(all.skip(all.len() - (mark + rest).len()) =~= mark + rest);
}

/// What a Daily refers to: work items, pull requests and commit summaries, the
/// commits by their first eight characters, and up to four tests and
/// validations.
pub proof fn law_daily_references_are_told(events: Seq<&StoredLogEvent>)
    ensures
        ({
            let d = daily_details(events);
            let commits = limited_texts(events, "commit"@, 12);
            &&& tells(d, events, "work item"@, "work_item"@, 12)
            &&& tells(d, events, "pull request"@, "pull_request"@, 12)
            &&& tells(d, events, "commit summary"@, "commit_message"@, 12)
            &&& commits.len() > 0 ==> d.contains(detail("commits"@, short_commits(commits)))
            &&& tells(d, events, "tests"@, "tests"@, 4)
            &&& tells(d, events, "validation"@, "validation"@, 4)
        }),
        forall|v: Seq<char>|
            (#[trigger] short_commits(seq![v]))[0] == if v.len() <= 8 {
                v
            } else {
                v.take(8)
            },
{
    let three = seq![
        ("work item"@, "work_item"@),
        ("pull request"@, "pull_request"@),
        ("commit summary"@, "commit_message"@),
    ];
    let fields = with_field_details(Seq::empty(), events, three);
    let short = short_commits(limited_texts(events, "commit"@, 12));
    let commits = with_detail(fields, "commits"@, short);
    let tests = with_detail(commits, "tests"@, limited_texts(events, "tests"@, 4));
    let all = with_detail(tests, "validation"@, limited_texts(events, "validation"@, 4));
    assert(all == daily_details(events));
    lemma_field_is_told(Seq::empty(), events, three, 0);
    lemma_field_is_told(Seq::empty(), events, three, 1);
    lemma_field_is_told(Seq::empty(), events, three, 2);
    lemma_push_keeps(fields, detail("commits"@, short));
    lemma_push_keeps(commits, detail("tests"@, limited_texts(events, "tests"@, 4)));
    lemma_push_keeps(tests, detail("validation"@, limited_texts(events, "validation"@, 4)));
    lemma_push_contains(fields, detail("commits"@, short), detail("commits"@, short));
    lemma_push_contains(
        commits,
        detail("tests"@, limited_texts(events, "tests"@, 4)),
        detail("tests"@, limited_texts(events, "tests"@, 4)),
    );
    lemma_push_contains(
        tests,
        detail("validation"@, limited_texts(events, "validation"@, 4)),
        detail("validation"@, limited_texts(events, "validation"@, 4)),
    );
}

/// A Daily with nothing to refer to stays as it is; else its references follow
/// it.
pub proof fn law_references_follow_the_daily(markdown: Seq<char>, events: Seq<&StoredLogEvent>)
    ensures
        daily_details(events).len() == 0 ==> referenced(markdown, events) == trimmed(markdown),
        daily_details(events).len() > 0 ==> referenced(markdown, events) == trimmed(markdown)
            + "\n\nReferences: "@ + joined(daily_details(events), " · "@),
{
}

/// The keys of a kept context differ.
pub proof fn lemma_snapshot_context_keys_differ()
    ensures
        "candidate_notes"@ != "workstream_links"@,
        "candidate_notes"@ != "group_aliases"@,
        "candidate_notes"@ != "knowledge"@,
        "workstream_links"@ != "group_aliases"@,
        "workstream_links"@ != "knowledge"@,
        "group_aliases"@ != "knowledge"@,
{
    reveal_strlit("candidate_notes");
    reveal_strlit("workstream_links");
    reveal_strlit("group_aliases");
    reveal_strlit("knowledge");
    assert("candidate_notes"@.len() == 15);
    assert("workstream_links"@.len() == 16);
    assert("group_aliases"@.len() == 13);
    assert("knowledge"@.len() == 9);
}

/// The keys of what is known in it differ.
pub proof fn lemma_snapshot_knowledge_keys_differ()
    ensures
        "resolver_version"@ != "context_is_background_only"@,
        "resolver_version"@ != "excerpts"@,
        "context_is_background_only"@ != "excerpts"@,
{
    reveal_strlit("resolver_version");
    reveal_strlit("context_is_background_only");
    reveal_strlit("excerpts");
    assert("resolver_version"@.len() == 16);
    assert("context_is_background_only"@.len() == 26);
    assert("excerpts"@.len() == 8);
}

/// A context is read back from its snapshot: the links of its groups once each
/// and in order, and its links, names and excerpts as they were kept.
pub proof fn law_context_is_read_back(payload: JsonView)
    ensures
        ({
            let c = context_of_snapshot(payload);
            let k = c.field("knowledge"@)->0;
            let links = field_of_items(items_of(payload, "resolved_groups"@), "canonical_link"@);
            &&& c.field("candidate_notes"@) == Some(text_list(ordered_set(links)))
            &&& payload.field("workstream_links"@) is Some ==> c.field("workstream_links"@)
                == payload.field("workstream_links"@)
            &&& payload.field("workstream_links"@) is None ==> c.field("workstream_links"@) == Some(
                JsonView::Record(Map::empty()),
            )
            &&& payload.field("group_aliases"@) is Some ==> c.field("group_aliases"@)
                == payload.field("group_aliases"@)
            &&& payload.field("group_aliases"@) is None ==> c.field("group_aliases"@) == Some(
                JsonView::Record(Map::empty()),
            )
            &&& c.field("knowledge"@) is Some
            &&& k.field("resolver_version"@) == Some(
                optional_text_view(payload.text_field("resolver_version"@)),
            )
            &&& k.field("context_is_background_only"@) == Some(JsonView::Bool(true))
            &&& k.field("excerpts"@) == Some(JsonView::List(items_of(payload, "excerpts"@)))
        }),
{
    lemma_snapshot_context_keys_differ();
    lemma_snapshot_knowledge_keys_differ();
}

/// Exclusions are recorded pair by pair, and only where there are any.
pub proof fn law_exclusions_are_recorded(
    payload: Map<Seq<char>, JsonView>,
    pairs: Seq<(Seq<char>, Seq<char>)>,
)
    ensures
        pairs.len() == 0 ==> with_exclusions(payload, pairs) == payload,
        pairs.len() > 0 ==> {
            let after = with_exclusions(payload, pairs);
            &&& after.dom().contains("applied_exclusions"@)
            &&& after["applied_exclusions"@] is List
            &&& after["applied_exclusions"@]->List_0.len() == pairs.len()
            &&& forall|i: int|
                0 <= i < pairs.len() ==> (#[trigger] after["applied_exclusions"@]->List_0[i]).field(
                    "workstream_id"@,
                ) == Some(JsonView::Text(pairs[i].0))
                    && after["applied_exclusions"@]->List_0[i].field("note_path"@) == Some(
                    JsonView::Text(pairs[i].1),
                )
            &&& forall|key: Seq<char>| #[trigger]
                payload.dom().contains(key) && key != "applied_exclusions"@
                    ==> after.dom().contains(key) && after[key] == payload[key]
        },
{
    reveal_strlit("workstream_id");
    reveal_strlit("note_path");
    assert("workstream_id"@.len() == 13);
    assert("note_path"@.len() == 9);
}

} // verus!
