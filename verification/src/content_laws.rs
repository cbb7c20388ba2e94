//! What proposals, reports and revisions hold besides their own words.
use crate::context::{ContextSnapshot, public_snapshot};
use crate::curation::{occurrences, open_identities, resolved_sources, sources_of, tally};
use crate::curation_laws::{
    law_sorting_keeps_every_value, lemma_precedes_asymmetric, lemma_precedes_not_after,
};
use crate::details::{detailed, referenced, unquoted};
use crate::drafts::{DraftView, WorkstreamView};
use crate::identity::group_key;
use crate::json::{JsonView, json_text, number_view, quoted, texts_of_field};
use crate::knowledge::{KnowledgeResolution, group_keys, refs, with_key};
use crate::markdown::{heading, safe_text};
use crate::migration::{Findings, ItemView, item_json, item_jsons, report_json};
use crate::models::{ContextMapping, IgnoredContextIdentity, StoredLogEvent};
use crate::ordered::{
    increasing, lemma_increasing_unique, lemma_ordered_set, lemma_precedes_irreflexive,
    lemma_precedes_total, lemma_push_contains, lemma_sorted_by_contains, ordered_set, sorted_by,
};
use crate::prompt::{allowed_links, resolved_keys};
use crate::proposal_inbox::{ProposalFile, files_of, found_file, is_proposal_id};
use crate::proposals::{
    allowed_among, answer_links, answer_proposal, answer_workstream_links, configured_links,
    daily_proposal, group_link_texts, holds_configured, is_configured_link, strict_body,
    strict_section,
};
use crate::snapshot::{reference_fields, text_list};
use crate::snapshot_laws::{are_groups_of, belongs_to_some};
use crate::text::{decimal, finishes_with, joined, occurs_at, trimmed, views};
use crate::text_laws::{law_parts_are_replaced, law_text_without_a_part};
use crate::vault::{VaultLinkRule, VaultNote};
use crate::vault_catalog::{hash_of, hex_digits, hex_lower, note_json, note_jsons, notes_revision};
use crate::vault_observed::{
    SeenView, identities_seen, observations, report_of, seen_order, sightings,
};
use vstd::prelude::*;
use vstd::string::*;
use vstd::utf8::encode_utf8;

verus! {

/// The keys of counts differ.
pub proof fn lemma_count_keys_differ()
    ensures
        "missing_root_count"@ != "oversized_note_count"@,
        "missing_root_count"@ != "unreadable_note_count"@,
        "missing_root_count"@ != "invalid_note_count"@,
        "missing_root_count"@ != "invalid_mapping_count"@,
        "missing_root_count"@ != "ambiguous_group_count"@,
        "missing_root_count"@ != "resolution_failed"@,
        "oversized_note_count"@ != "unreadable_note_count"@,
        "oversized_note_count"@ != "invalid_note_count"@,
        "oversized_note_count"@ != "invalid_mapping_count"@,
        "oversized_note_count"@ != "ambiguous_group_count"@,
        "oversized_note_count"@ != "resolution_failed"@,
        "unreadable_note_count"@ != "invalid_note_count"@,
        "unreadable_note_count"@ != "invalid_mapping_count"@,
        "unreadable_note_count"@ != "ambiguous_group_count"@,
        "unreadable_note_count"@ != "resolution_failed"@,
        "invalid_note_count"@ != "invalid_mapping_count"@,
        "invalid_note_count"@ != "ambiguous_group_count"@,
        "invalid_note_count"@ != "resolution_failed"@,
        "invalid_mapping_count"@ != "ambiguous_group_count"@,
        "invalid_mapping_count"@ != "resolution_failed"@,
        "ambiguous_group_count"@ != "resolution_failed"@,
{
    reveal_strlit("missing_root_count");
    reveal_strlit("oversized_note_count");
    reveal_strlit("unreadable_note_count");
    reveal_strlit("invalid_note_count");
    reveal_strlit("invalid_mapping_count");
    reveal_strlit("ambiguous_group_count");
    reveal_strlit("resolution_failed");
    assert("missing_root_count"@.len() == 18);
    assert("oversized_note_count"@.len() == 20);
    assert("unreadable_note_count"@.len() == 21);
    assert("invalid_note_count"@.len() == 18);
    assert("invalid_mapping_count"@.len() == 21);
    assert("ambiguous_group_count"@.len() == 21);
    assert("resolution_failed"@.len() == 17);
    assert("missing_root_count"@[0] == 'm');
    assert("invalid_note_count"@[0] == 'i');
    assert("unreadable_note_count"@[0] == 'u');
    assert("invalid_mapping_count"@[0] == 'i');
    assert("ambiguous_group_count"@[0] == 'a');
}

/// The keys of a context that is shown differ.
pub proof fn lemma_shown_context_keys_differ()
    ensures
        "id"@ != "snapshot_digest"@,
        "id"@ != "created_at"@,
        "id"@ != "resolver_version"@,
        "id"@ != "used_note_count"@,
        "id"@ != "resolved_group_count"@,
        "id"@ != "excerpt_count"@,
        "id"@ != "diagnostics"@,
        "snapshot_digest"@ != "created_at"@,
        "snapshot_digest"@ != "resolver_version"@,
        "snapshot_digest"@ != "used_note_count"@,
        "snapshot_digest"@ != "resolved_group_count"@,
        "snapshot_digest"@ != "excerpt_count"@,
        "snapshot_digest"@ != "diagnostics"@,
        "created_at"@ != "resolver_version"@,
        "created_at"@ != "used_note_count"@,
        "created_at"@ != "resolved_group_count"@,
        "created_at"@ != "excerpt_count"@,
        "created_at"@ != "diagnostics"@,
        "resolver_version"@ != "used_note_count"@,
        "resolver_version"@ != "resolved_group_count"@,
        "resolver_version"@ != "excerpt_count"@,
        "resolver_version"@ != "diagnostics"@,
        "used_note_count"@ != "resolved_group_count"@,
        "used_note_count"@ != "excerpt_count"@,
        "used_note_count"@ != "diagnostics"@,
        "resolved_group_count"@ != "excerpt_count"@,
        "resolved_group_count"@ != "diagnostics"@,
        "excerpt_count"@ != "diagnostics"@,
{
    reveal_strlit("id");
    reveal_strlit("snapshot_digest");
    reveal_strlit("created_at");
    reveal_strlit("resolver_version");
    reveal_strlit("used_note_count");
    reveal_strlit("resolved_group_count");
    reveal_strlit("excerpt_count");
    reveal_strlit("diagnostics");
    assert("id"@.len() == 2);
    assert("snapshot_digest"@.len() == 15);
    assert("created_at"@.len() == 10);
    assert("resolver_version"@.len() == 16);
    assert("used_note_count"@.len() == 15);
    assert("resolved_group_count"@.len() == 20);
    assert("excerpt_count"@.len() == 13);
    assert("diagnostics"@.len() == 11);
    assert("snapshot_digest"@[0] == 's');
    assert("used_note_count"@[0] == 'u');
}

/// What went amiss with a context is shown as counts: of roots that are missing,
/// of notes that were too large, unreadable or invalid, of mappings and groups,
/// and whether it could not be resolved at all.
pub proof fn law_troubles_are_shown_as_counts(snapshot: ContextSnapshot, d: JsonView)
    requires
        snapshot.payload@.field("diagnostics"@) == Some(d),
    ensures
        ({
            let r = public_snapshot(snapshot).field("diagnostics"@)->0;
            &&& public_snapshot(snapshot).field("diagnostics"@) is Some
            &&& r.field("missing_root_count"@) == Some(number_view(d.length_field("missing_roots"@)))
            &&& r.field("oversized_note_count"@) == Some(
                number_view(d.count_field("oversized_note_count"@)),
            )
            &&& r.field("unreadable_note_count"@) == Some(
                number_view(d.count_field("unreadable_note_count"@)),
            )
            &&& r.field("invalid_note_count"@) == Some(
                number_view(d.count_field("invalid_note_count"@)),
            )
            &&& r.field("invalid_mapping_count"@) == Some(
                number_view(d.count_field("invalid_mapping_count"@)),
            )
            &&& r.field("ambiguous_group_count"@) == Some(
                number_view(d.count_field("ambiguous_group_count"@)),
            )
            &&& r.field("resolution_failed"@) == Some(
                JsonView::Bool(d.field("resolution_error_code"@) is Some),
            )
        }),
{
    lemma_count_keys_differ();
    lemma_shown_context_keys_differ();
}

/// A backquote in a value is written as an apostrophe.
pub proof fn law_backquotes_are_written_as_apostrophes(a: Seq<char>, b: Seq<char>)
    requires
        !a.contains('`'),
        !b.contains('`'),
    ensures
        unquoted(seq![a.push('`') + b]) == seq![a.push('\'') + b],
{
    reveal_strlit("`");
    reveal_strlit("'");
    let p = "`"@;
    let s = a + p + b;
    assert(p =~= seq!['`']);
    assert("'"@ =~= seq!['\'']);
    assert(a.push('`') + b =~= s);
    assert forall|k: int| 0 <= k < a.len() implies !#[trigger] occurs_at(s, p, k) by {
        if occurs_at(s, p, k) {
            assert(s.subrange(k, k + 1)[0] == a[k]);
        }
    }
    assert forall|k: int| !#[trigger] occurs_at(b, p, k) by {
        if occurs_at(b, p, k) {
            assert(b.subrange(k, k + 1)[0] == b[k]);
        }
    }
    law_parts_are_replaced(a, p, b, "'"@);
    law_text_without_a_part(b, p, "'"@);
    assert(a + "'"@ + b =~= a.push('\'') + b);
    assert(unquoted(seq![a.push('`') + b]) =~= seq![a.push('\'') + b]);
}

/// A section of a proposal has its title, with the links of its group, above its
/// facts, and the references of its group's events below them.
pub proof fn law_section_of_a_proposal(
    w: WorkstreamView,
    events: Seq<&StoredLogEvent>,
    context: JsonView,
    links: JsonView,
)
    requires
        context.field("workstream_links"@) == Some(links),
    ensures
        strict_section(w, events, context) == heading(
            safe_text(trimmed(w.title)),
            texts_of_field(links, w.id),
        ) + "\n\n"@ + referenced(
            strict_body(w),
            with_key(events, resolved_keys(events, context), w.id),
        ),
{
}

/// A Daily proposal is sure to a middling degree, and has the links that its
/// context gives to some group, each once and in order.
pub proof fn law_links_of_a_daily_proposal(
    draft: DraftView,
    context: JsonView,
    events: Seq<&StoredLogEvent>,
    provider: Seq<char>,
    links: Seq<Seq<char>>,
)
    requires
        daily_proposal(draft, context, events, provider) is Ok,
        increasing(links),
        forall|link: Seq<char>|
            links.contains(link) <==> #[trigger] is_given_to_some_group(context, link),
    ensures
        ({
            let p = daily_proposal(draft, context, events, provider)->Ok_0;
            &&& p.canonical_links == links
            &&& p.confidence == "medium"@
            &&& context.text_field("daily_note"@) is None ==> p.target_note == "Daily note"@
            &&& context.text_field("link_context_revision"@) is None
                ==> p.link_context_revision.len() == 0
        }),
{
    reveal_strlit("");
    assert forall|link: Seq<char>| #[trigger] is_configured_link(context, link)
        == is_given_to_some_group(context, link) by {
        if is_configured_link(context, link) {
            let id = choose|id: Seq<char>| #[trigger] group_link_texts(context, id).contains(link);
            assert(texts_of_field(context.field("workstream_links"@)->0, id).contains(link));
        }
        if is_given_to_some_group(context, link) {
            let id = choose|id: Seq<char>| #[trigger]
                texts_of_field(context.field("workstream_links"@)->0, id).contains(link);
            assert(group_link_texts(context, id).contains(link));
        }
    }
    assert forall|link: Seq<char>| links.contains(link) <==> #[trigger] is_configured_link(
        context,
        link,
    ) by {
        assert(is_configured_link(context, link) == is_given_to_some_group(context, link));
    }
    assert(holds_configured(links, context));
    let found = configured_links(context);
    assert(holds_configured(found, context));
    assert forall|link: Seq<char>| #[trigger] found.contains(link) <==> links.contains(link) by {
        assert(is_configured_link(context, link) == is_given_to_some_group(context, link));
    }
    lemma_increasing_unique(found, links);
}

/// Whether a context gives a link to some group.
pub open spec fn is_given_to_some_group(context: JsonView, link: Seq<char>) -> bool {
    context.field("workstream_links"@) is Some && exists|id: Seq<char>| #[trigger]
        texts_of_field(context.field("workstream_links"@)->0, id).contains(link)
}

/// The links of an answer's workstreams count where they were offered; where
/// none does, those of the answer itself do.
pub proof fn law_links_of_an_answer(
    value: JsonView,
    context: JsonView,
    events: Seq<&StoredLogEvent>,
    provider: Seq<char>,
    link: Seq<char>,
)
    ensures
        ({
            let p = answer_proposal(value, context, events, provider);
            let offered = allowed_links(context);
            let items = value.list_field("workstreams"@)->0;
            &&& value.list_field("workstreams"@) is Some ==> (answer_workstream_links(
                value,
                context,
            ).contains(link) <==> offered.contains(link) && exists|i: int|
                0 <= i < items.len() && (#[trigger] items[i]).text_field("canonical_link"@) == Some(
                    link,
                ))
            &&& value.list_field("workstreams"@) is None ==> answer_workstream_links(
                value,
                context,
            ).len() == 0
            &&& answer_workstream_links(value, context).len() > 0 ==> p.canonical_links
                == answer_workstream_links(value, context)
            &&& answer_workstream_links(value, context).len() == 0 ==> p.canonical_links
                == answer_links(value, context)
            &&& value.text_field("markdown"@) is None ==> p.markdown == detailed(
                "- Review "@ + decimal(events.len()) + " log events manually. "@
                    + "LLM response omitted markdown."@,
                events,
            )
        }),
{
    if value.list_field("workstreams"@) is Some {
        let items = value.list_field("workstreams"@)->0;
        lemma_allowed_among(items, allowed_links(context), link);
        lemma_ordered_set(allowed_among(items, allowed_links(context)));
        assert(answer_workstream_links(value, context).contains(link) <==> allowed_among(
            items,
            allowed_links(context),
        ).contains(link));
    }
}

proof fn lemma_allowed_among(items: Seq<JsonView>, allowed: Seq<Seq<char>>, link: Seq<char>)
    ensures
        allowed_among(items, allowed).contains(link) <==> allowed.contains(link) && exists|i: int|
            0 <= i < items.len() && (#[trigger] items[i]).text_field("canonical_link"@) == Some(
                link,
            ),
    decreases items.len(),
{
    if items.len() > 0 {
        let init = items.drop_last();
        lemma_allowed_among(init, allowed, link);
        assert(items[items.len() - 1] == items.last());
        if items.last().text_field("canonical_link"@) is Some {
            lemma_push_contains(
                allowed_among(init, allowed),
                items.last().text_field("canonical_link"@)->0,
                link,
            );
        }
        if exists|i: int|
            0 <= i < init.len() && (#[trigger] init[i]).text_field("canonical_link"@) == Some(
                link,
            ) {
            let i = choose|i: int|
                0 <= i < init.len() && (#[trigger] init[i]).text_field("canonical_link"@) == Some(
                    link,
                );
            assert(items[i] == init[i]);
        }
        if exists|i: int|
            0 <= i < items.len() && (#[trigger] items[i]).text_field("canonical_link"@) == Some(
                link,
            ) {
            let i = choose|i: int|
                0 <= i < items.len() && (#[trigger] items[i]).text_field("canonical_link"@) == Some(
                    link,
                );
            assert(i < init.len() ==> init[i] == items[i]);
        }
    }
}

/// The names that are reported are all that are seen, most frequent first.
pub proof fn law_every_seen_name_is_reported(
    events: Seq<StoredLogEvent>,
    notes: Seq<VaultNote>,
    rules: Seq<VaultLinkRule>,
    seen: SeenView,
)
    ensures
        identities_seen(sightings(events), sightings(events).len()).contains(seen)
            ==> observations(events, notes, rules).contains(report_of(seen, notes, rules)),
        observations(events, notes, rules).len() == identities_seen(
            sightings(events),
            sightings(events).len(),
        ).len(),
        forall|i: int, j: int|
            0 <= i < j < observations(events, notes, rules).len() ==> (
            #[trigger] observations(events, notes, rules)[i]).event_count >= (
            #[trigger] observations(events, notes, rules)[j]).event_count,
{
    let all = sightings(events);
    let found = identities_seen(all, all.len());
    let sorted = sorted_by(found, seen_order());
    let told = observations(events, notes, rules);
    assert forall|x: SeenView, y: SeenView| #[trigger] seen_order()(x, y) implies !seen_order()(
        y,
        x,
    ) by {
        lemma_precedes_asymmetric(x.field, y.field);
        lemma_precedes_asymmetric(x.value, y.value);
        lemma_precedes_irreflexive(x.field);
    }
    assert forall|x: SeenView, y: SeenView, z: SeenView|
        !(#[trigger] seen_order()(y, x)) && !(#[trigger] seen_order()(z, y)) implies !seen_order()(
        z,
        x,
    ) by {
        lemma_precedes_not_after(x.field, y.field, z.field);
        lemma_precedes_not_after(x.value, y.value, z.value);
        lemma_precedes_total(x.field, y.field);
        lemma_precedes_total(y.field, z.field);
        lemma_precedes_irreflexive(x.field);
        lemma_precedes_irreflexive(y.field);
        lemma_precedes_asymmetric(x.field, y.field);
        lemma_precedes_asymmetric(y.field, z.field);
    }
    law_sorting_keeps_every_value(found, seen_order());
    lemma_sorted_by_contains(found, seen_order(), seen);
    if found.contains(seen) {
        let i = choose|i: int| 0 <= i < sorted.len() && sorted[i] == seen;
        assert(told[i] == report_of(seen, notes, rules));
    }
    assert forall|i: int, j: int| 0 <= i < j < told.len() implies (
    #[trigger] told[i]).event_count >= (#[trigger] told[j]).event_count by {
        assert(!seen_order()(sorted[j], sorted[i]));
        assert(told[i].event_count == sorted[i].event_count);
        assert(told[j].event_count == sorted[j].event_count);
    }
}

/// The names that the owner is shown are the tally of those of all groups that
/// led to no note.
pub proof fn law_names_of_all_groups_are_shown(
    events: Seq<StoredLogEvent>,
    mappings: Seq<ContextMapping>,
    ignored: Seq<IgnoredContextIdentity>,
    resolution: Option<&KnowledgeResolution>,
)
    ensures
        exists|ids: Seq<Seq<char>>, all: Seq<&StoredLogEvent>, resolved: Seq<Seq<char>>| #[trigger]
            is_review_of(ids, all, resolved, events, resolution) && open_identities(
                events,
                mappings,
                ignored,
                resolution,
            ) == tally(occurrences(mappings, ignored, resolved, all, ids)),
{
    let all = refs(events);
    let keys = group_keys(all);
    let ids = ordered_set(keys);
    lemma_ordered_set(keys);
    assert forall|i: int| 0 <= i < events.len() implies ids.contains(
        group_key(#[trigger] events[i]),
    ) by {
        assert(keys[i] == group_key(events[i]));
        assert(keys.contains(keys[i]));
    }
    assert forall|k: int| 0 <= k < ids.len() implies belongs_to_some(#[trigger] ids[k], events) by {
        assert(ids.contains(ids[k]));
        assert(keys.contains(ids[k]));
        let i = choose|i: int| 0 <= i < keys.len() && keys[i] == ids[k];
        assert(group_key(events[i]) == ids[k]);
    }
    assert(are_groups_of(ids, all, events));
    let resolved = sources_of(resolution);
    assert(is_review_of(ids, all, resolved, events, resolution));
}

/// Whether a review looks at the groups of some events and passes over those
/// that a resolution records as resolved.
pub open spec fn is_review_of(
    ids: Seq<Seq<char>>,
    all: Seq<&StoredLogEvent>,
    resolved: Seq<Seq<char>>,
    events: Seq<StoredLogEvent>,
    resolution: Option<&KnowledgeResolution>,
) -> bool {
    &&& are_groups_of(ids, all, events)
    &&& resolution is None ==> resolved.len() == 0
    &&& resolution is Some && resolution->0.snapshot_payload@.list_field("resolved_groups"@) is None
        ==> resolved.len() == 0
    &&& resolution is Some && resolution->0.snapshot_payload@.list_field("resolved_groups"@) is Some
        ==> resolved == resolved_sources(
        resolution->0.snapshot_payload@.list_field("resolved_groups"@)->0,
    )
}

/// Bytes are hashed one by one, each with an exclusive or and a multiplication.
pub proof fn law_hash_goes_byte_by_byte(bytes: Seq<u8>, byte: u8)
    ensures
        hash_of(Seq::empty()) == 0xcbf29ce484222325,
        hash_of(bytes.push(byte)) == ((hash_of(bytes) ^ (byte as u64)) as int * 0x100000001b3)
            % 0x1_0000_0000_0000_0000,
{
    assert(bytes.push(byte).drop_last() =~= bytes);
}

/// A number is written in hexadecimal digits, the highest first.
pub proof fn law_hexadecimal_digits(n: nat, digits: nat)
    ensures
        hex_digits(n, digits).len() == digits,
        hex_digits(n, 0).len() == 0,
        hex_digits(n, digits + 1) == hex_digits(n / 16, digits).push(hex_lower(n % 16)),
        hex_lower(0) == '0' && hex_lower(9) == '9' && hex_lower(10) == 'a' && hex_lower(15) == 'f',
    decreases digits,
{
    if digits > 0 {
        law_hexadecimal_digits(n / 16, (digits - 1) as nat);
    }
}

/// The revision of a vault follows all that its notes say.
pub proof fn law_revision_covers_the_notes(notes: Seq<VaultNote>, note: VaultNote)
    ensures
        note_json(note) == "{\"id\":"@ + json_text(JsonView::Text(note.id@)) + ",\"title\":"@
            + json_text(JsonView::Text(note.title@)) + ",\"wikilink\":"@ + json_text(
            JsonView::Text(note.wikilink@),
        ) + ",\"path\":"@ + json_text(JsonView::Text(note.path@)) + ",\"group\":"@ + json_text(
            JsonView::Text(note.group@),
        ) + ",\"aliases\":"@ + json_text(text_list(views(note.aliases@))) + ",\"tags\":"@
            + json_text(text_list(views(note.tags@))) + ",\"references\":"@ + json_text(
            JsonView::Record(reference_fields(note.references@)),
        ) + "}"@,
        note_jsons(Seq::empty()).len() == 0,
        note_jsons(notes.push(note)) == note_jsons(notes).push(note_json(note)),
        notes_revision(notes) == hex_digits(
            hash_of(encode_utf8("["@ + joined(note_jsons(notes), ","@) + "]"@)) as nat,
            16,
        ),
{
    assert(note_jsons(notes.push(note)) =~= note_jsons(notes).push(note_json(note)));
}

/// The digest of a report covers the workspace, each item with all that it says,
/// the blockers and the warnings.
pub proof fn law_digest_covers_the_report(
    workspace_id: Seq<char>,
    root_binding: Seq<char>,
    found: Findings,
    items: Seq<ItemView>,
    item: ItemView,
)
    ensures
        report_json(workspace_id, root_binding, found) == "{\"workspace_id\":"@ + quoted(
            workspace_id,
        ) + ",\"root_binding\":"@ + quoted(root_binding) + ",\"items\":["@ + joined(
            item_jsons(found.items),
            ","@,
        ) + "],\"blockers\":"@ + json_text(text_list(found.blockers)) + ",\"warnings\":"@
            + json_text(text_list(found.warnings)) + "}"@,
        item_jsons(Seq::empty()).len() == 0,
        item_jsons(items.push(item)) == item_jsons(items).push(item_json(item)),
        item_json(item) == "{\"kind\":"@ + quoted(item.kind) + ",\"source_identity\":"@ + quoted(
            item.source_identity,
        ) + ",\"source_digest\":"@ + quoted(item.source_digest) + ",\"action\":"@ + quoted(
            item.action,
        ) + ",\"status\":"@ + quoted(item.status) + ",\"details\":"@ + json_text(item.details)
            + "}"@,
{
    assert(item_jsons(items.push(item)) =~= item_jsons(items).push(item_json(item)));
}

/// A proposal that a single file is named for is found in it.
pub proof fn law_only_file_of_a_proposal_is_found(files: Seq<ProposalFile>, id: Seq<char>, at: int)
    requires
        is_proposal_id(id),
        0 <= at < files.len(),
        finishes_with(files[at].name@, "-"@ + id + ".md"@),
        forall|i: int|
            0 <= i < files.len() && i != at ==> !finishes_with(
                (#[trigger] files[i]).name@,
                "-"@ + id + ".md"@,
            ),
    ensures
        found_file(files, id) == Ok::<ProposalFile, Seq<char>>(files[at]),
{
    lemma_only_file(files, id, at);
}

proof fn lemma_no_file(files: Seq<ProposalFile>, id: Seq<char>)
    requires
        forall|i: int|
            0 <= i < files.len() ==> !finishes_with(
                (#[trigger] files[i]).name@,
                "-"@ + id + ".md"@,
            ),
    ensures
        files_of(files, id).len() == 0,
    decreases files.len(),
{
    if files.len() > 0 {
        let init = files.drop_last();
        assert(!finishes_with(files[files.len() - 1].name@, "-"@ + id + ".md"@));
        assert forall|i: int| 0 <= i < init.len() implies !finishes_with(
            (#[trigger] init[i]).name@,
            "-"@ + id + ".md"@,
        ) by {
            assert(init[i] == files[i]);
        }
        lemma_no_file(init, id);
    }
}

proof fn lemma_only_file(files: Seq<ProposalFile>, id: Seq<char>, at: int)
    requires
        0 <= at < files.len(),
        finishes_with(files[at].name@, "-"@ + id + ".md"@),
        forall|i: int|
            0 <= i < files.len() && i != at ==> !finishes_with(
                (#[trigger] files[i]).name@,
                "-"@ + id + ".md"@,
            ),
    ensures
        files_of(files, id).len() == 1,
        *files_of(files, id)[0] == files[at],
    decreases files.len(),
{
    let init = files.drop_last();
    if at == files.len() - 1 {
        assert forall|i: int| 0 <= i < init.len() implies !finishes_with(
            (#[trigger] init[i]).name@,
            "-"@ + id + ".md"@,
        ) by {
            assert(init[i] == files[i]);
        }
        lemma_no_file(init, id);
    } else {
        assert(!finishes_with(files[files.len() - 1].name@, "-"@ + id + ".md"@));
        assert forall|i: int| 0 <= i < init.len() && i != at implies !finishes_with(
            (#[trigger] init[i]).name@,
            "-"@ + id + ".md"@,
        ) by {
            assert(init[i] == files[i]);
        }
        lemma_only_file(init, id, at);
    }
}

} // verus!
