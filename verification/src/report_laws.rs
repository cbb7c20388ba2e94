//! What the catalog of notes takes in, and what is told of the notes that a
//! Daily was written with.
use crate::catalog::{CatalogView, EntryView, entry_at, with_entry};
use crate::context::{ContextSnapshot, FreshnessView, items_of, links_attached, public_snapshot};
use crate::context_report::{
    KnowledgeExcerptExclusionRequest, compares_sources, context_report, excerpt_from,
    excerpt_record, excerpt_with_id, exclusion_error, exclusion_pair, exclusion_pairs,
    exclusions_error, first_group, frozen_pairs, group_pair, is_valid_exclusion, named_notes_of,
    named_workstreams, note_report, note_reports, shown_workstreams, used_title,
    was_unavailable, workstream_excerpt_ids, workstream_reports,
};
use crate::json::{JsonView, optional_text_view};
use crate::notes::{NoteView, WorkspaceMarkdownDocument, note_of};
use crate::ordered::{
    inserted, lemma_precedes_total, lemma_precedes_transitive, lemma_push_contains, ordered_set,
    precedes,
};
use crate::revisions::DailyWorkstreamView;
use crate::text::{byte_len, decimal, trimmed};
use vstd::prelude::*;
use vstd::string::*;

verus! {

proof fn lemma_entry_at(notes: Seq<EntryView>, path: Seq<char>)
    ensures
        -1 <= entry_at(notes, path) < notes.len(),
        entry_at(notes, path) >= 0 ==> notes[entry_at(notes, path)].note.path == path,
        entry_at(notes, path) < 0 <==> forall|i: int|
            0 <= i < notes.len() ==> (#[trigger] notes[i]).note.path != path,
    decreases notes.len(),
{
    if notes.len() > 0 {
        let init = notes.drop_last();
        lemma_entry_at(init, path);
        assert(notes[notes.len() - 1] == notes.last());
        assert forall|i: int| 0 <= i < init.len() implies init[i] == #[trigger] notes[i] by {}
        if notes.last().note.path != path && entry_at(init, path) < 0 {
            assert forall|i: int| 0 <= i < notes.len() implies (#[trigger] notes[i]).note.path
                != path by {
                if i < init.len() {
                    assert(init[i].note.path != path);
                }
            }
        }
    }
}

/// Whether the catalog holds a note.
pub open spec fn is_catalogued(c: CatalogView, path: Seq<char>) -> bool {
    exists|i: int| 0 <= i < c.notes.len() && (#[trigger] c.notes[i]).note.path == path
}

/// A note that the catalog holds gets one collection more and is not read
/// again; one that was offered before and did not get in is passed over.
pub proof fn law_known_notes_are_not_read_again(
    c: CatalogView,
    collection: Seq<char>,
    path: Seq<char>,
    len: nat,
)
    ensures
        is_catalogued(c, path) ==> {
            &&& c.offered(collection, path, len) is Ok
            &&& !(c.offered(collection, path, len)->Ok_0).1
            &&& exists|at: int|
                0 <= at < c.notes.len() && (#[trigger] c.notes[at]).note.path == path && (
                c.offered(collection, path, len)->Ok_0).0 == (CatalogView {
                    notes: c.notes.update(
                        at,
                        EntryView {
                            note: c.notes[at].note,
                            collection_ids: inserted(c.notes[at].collection_ids, collection),
                        },
                    ),
                    ..c
                })
        },
        !is_catalogued(c, path) && c.seen.contains(path) ==> c.offered(collection, path, len)
            == Ok::<(CatalogView, bool), Seq<char>>((c, false)),
{
    lemma_entry_at(c.notes, path);
}

/// A new note is read where there is room: the catalog holds up to two thousand
/// notes of up to a megabyte each and thirty-two megabytes in all. A note that
/// is too large is counted and passed over.
pub proof fn law_new_notes_are_read_while_there_is_room(
    c: CatalogView,
    collection: Seq<char>,
    path: Seq<char>,
    len: nat,
)
    requires
        !is_catalogued(c, path),
        !c.seen.contains(path),
    ensures
        c.offered(collection, path, len) is Ok <==> c.notes.len() < 2000 && (len > 1048576
            || c.bytes + len <= 33554432),
        c.notes.len() < 2000 && len > 1048576 ==> {
            let after = (c.offered(collection, path, len)->Ok_0).0;
            &&& !(c.offered(collection, path, len)->Ok_0).1
            &&& after.oversized == c.oversized + 1
            &&& after.notes == c.notes && after.unreadable == c.unreadable && after.invalid
                == c.invalid && after.bytes == c.bytes && after.pending == c.pending
                && after.missing_roots == c.missing_roots
            &&& forall|p: Seq<char>| #[trigger] after.seen.contains(p) <==> c.seen.contains(p) || p == path
        },
        c.notes.len() < 2000 && len <= 1048576 && c.bytes + len <= 33554432 ==> {
            let after = (c.offered(collection, path, len)->Ok_0).0;
            &&& (c.offered(collection, path, len)->Ok_0).1
            &&& after.bytes == c.bytes + len
            &&& after.pending == Some(path)
            &&& after.notes == c.notes && after.unreadable == c.unreadable && after.invalid
                == c.invalid && after.oversized == c.oversized && after.missing_roots
                == c.missing_roots
            &&& forall|p: Seq<char>| #[trigger] after.seen.contains(p) <==> c.seen.contains(p) || p == path
        },
{
    lemma_entry_at(c.notes, path);
    lemma_inserted_has(c.seen, path);
}

proof fn lemma_inserted_has(s: Seq<Seq<char>>, x: Seq<char>)
    ensures
        forall|y: Seq<char>| #[trigger] inserted(s, x).contains(y) <==> s.contains(y) || y == x,
    decreases s.len(),
{
    if s.len() == 0 {
        assert(inserted(s, x)[0] == x);
    } else {
        let init = s.drop_last();
        lemma_inserted_has(init, x);
        assert(s =~= init.push(s.last()));
        assert forall|y: Seq<char>| #[trigger] inserted(s, x).contains(y) <==> s.contains(y) || y
            == x by {
            lemma_push_contains(init, s.last(), y);
            lemma_push_contains(s, x, y);
            lemma_push_contains(inserted(init, x), s.last(), y);
            assert(inserted(init, x).contains(y) <==> init.contains(y) || y == x);
        }
    }
}

proof fn lemma_with_entry(notes: Seq<EntryView>, entry: EntryView, e: EntryView)
    ensures
        with_entry(notes, entry).contains(e) <==> notes.contains(e) || e == entry,
        with_entry(notes, entry).len() == notes.len() + 1,
    decreases notes.len(),
{
    if notes.len() > 0 && precedes(entry.note.path, notes.last().note.path) {
        let init = notes.drop_last();
        lemma_with_entry(init, entry, e);
        assert(notes =~= init.push(notes.last()));
        lemma_push_contains(init, notes.last(), e);
        lemma_push_contains(with_entry(init, entry), notes.last(), e);
    } else {
        lemma_push_contains(notes, entry, e);
    }
}

/// Whether the notes of a catalog stand in the order of their paths.
pub open spec fn paths_increase(notes: Seq<EntryView>) -> bool {
    forall|i: int, j: int|
        0 <= i < j < notes.len() ==> precedes(
            (#[trigger] notes[i]).note.path,
            (#[trigger] notes[j]).note.path,
        )
}

proof fn lemma_with_entry_in_order(notes: Seq<EntryView>, entry: EntryView)
    requires
        paths_increase(notes),
        forall|i: int| 0 <= i < notes.len() ==> (#[trigger] notes[i]).note.path != entry.note.path,
    ensures
        paths_increase(with_entry(notes, entry)),
    decreases notes.len(),
{
    let all = with_entry(notes, entry);
    if notes.len() > 0 {
        let last = notes.last();
        let init = notes.drop_last();
        assert(notes[notes.len() - 1] == last);
        if precedes(entry.note.path, last.note.path) {
            assert forall|i: int, j: int| 0 <= i < j < init.len() implies precedes(
                (#[trigger] init[i]).note.path,
                (#[trigger] init[j]).note.path,
            ) by {
                assert(init[i] == notes[i] && init[j] == notes[j]);
            }
            assert forall|i: int| 0 <= i < init.len() implies (#[trigger] init[i]).note.path
                != entry.note.path by {
                assert(init[i] == notes[i]);
            }
            lemma_with_entry_in_order(init, entry);
            let rest = with_entry(init, entry);
            assert forall|i: int, j: int| 0 <= i < j < all.len() implies precedes(
                (#[trigger] all[i]).note.path,
                (#[trigger] all[j]).note.path,
            ) by {
                assert(all[i] == rest[i]);
                if j < rest.len() {
                    assert(all[j] == rest[j]);
                } else {
                    lemma_with_entry(init, entry, rest[i]);
                    assert(rest.contains(rest[i]));
                    if rest[i] != entry {
                        let k = choose|k: int| 0 <= k < init.len() && init[k] == rest[i];
                        assert(notes[k] == rest[i]);
                    }
                }
            }
        } else {
            lemma_precedes_total(entry.note.path, last.note.path);
            assert forall|i: int, j: int| 0 <= i < j < all.len() implies precedes(
                (#[trigger] all[i]).note.path,
                (#[trigger] all[j]).note.path,
            ) by {
                assert(all[i] == notes[i]);
                if j < notes.len() {
                    assert(all[j] == notes[j]);
                } else if i < notes.len() - 1 {
                    lemma_precedes_transitive(notes[i].note.path, last.note.path, entry.note.path);
                }
            }
        }
    }
}

/// A note that was read goes into the catalog, without its text and with the
/// collection that offered it; one that cannot be read, or is no sound note, is
/// counted. The catalog stays in the order of its paths.
pub proof fn law_read_notes_are_catalogued(
    c: CatalogView,
    collection: Seq<char>,
    document: Option<WorkspaceMarkdownDocument>,
    e: EntryView,
)
    ensures
        c.accepted(collection, document).pending is None,
        c.accepted(collection, document).seen == c.seen,
        c.accepted(collection, document).bytes == c.bytes,
        c.accepted(collection, document).oversized == c.oversized,
        c.accepted(collection, document).missing_roots == c.missing_roots,
        document is None ==> c.accepted(collection, document).unreadable == c.unreadable + 1
            && c.accepted(collection, document).invalid == c.invalid && c.accepted(
            collection,
            document,
        ).notes == c.notes,
        document is Some && note_of(document->0) is Err ==> c.accepted(
            collection,
            document,
        ).unreadable == c.unreadable && c.accepted(collection, document).invalid == c.invalid + 1
            && c.accepted(collection, document).notes == c.notes,
        document is Some && note_of(document->0) is Ok ==> {
            let note = note_of(document->0)->Ok_0;
            let after = c.accepted(collection, document);
            &&& after.unreadable == c.unreadable && after.invalid == c.invalid
            &&& after.notes.contains(e) <==> c.notes.contains(e) || (e.collection_ids == seq![
                collection,
            ] && e.note.path == note.path && e.note.title == note.title && e.note.aliases
                == note.aliases && e.note.references == note.references && e.note.source_digest
                == note.source_digest && e.note.usable_digest == note.usable_digest
                && e.note.usable_content.len() == 0)
            &&& after.notes.len() == c.notes.len() + 1
            &&& paths_increase(c.notes) && !is_catalogued(c, note.path) ==> paths_increase(
                after.notes,
            )
        },
{
    if document is Some && note_of(document->0) is Ok {
        let note = note_of(document->0)->Ok_0;
        let entry = EntryView {
            note: NoteView { usable_content: Seq::empty(), ..note },
            collection_ids: seq![collection],
        };
        lemma_with_entry(c.notes, entry, e);
        if e.note.usable_content.len() == 0 {
            assert(e.note.usable_content =~= Seq::<char>::empty());
        }
        if paths_increase(c.notes) && !is_catalogued(c, note.path) {
            lemma_with_entry_in_order(c.notes, entry);
        }
    }
}

/// Whether an exclusion names a workstream and a note.
pub open spec fn names_both(e: KnowledgeExcerptExclusionRequest) -> bool {
    &&& e.workstream_id@.len() > 0 && trimmed(e.workstream_id@) == e.workstream_id@ && byte_len(
        e.workstream_id@,
    ) <= 512
    &&& e.note_path@.len() > 0 && trimmed(e.note_path@) == e.note_path@ && byte_len(e.note_path@)
        <= 511
}

/// Exclusions are accepted up to sixty-four, where each names a workstream and a
/// note and no two are the same.
pub proof fn law_sound_exclusions_are_accepted(s: Seq<KnowledgeExcerptExclusionRequest>)
    ensures
        exclusions_error(s) is None <==> {
            &&& s.len() <= 64
            &&& forall|i: int| 0 <= i < s.len() ==> names_both(#[trigger] s[i])
            &&& forall|i: int, j: int|
                0 <= i < j < s.len() ==> (#[trigger] s[i]).workstream_id@ != (
                #[trigger] s[j]).workstream_id@ || s[i].note_path@ != s[j].note_path@
        },
{
    lemma_exclusion_error(s);
}

proof fn lemma_exclusion_error(s: Seq<KnowledgeExcerptExclusionRequest>)
    ensures
        exclusion_error(s) is None <==> {
            &&& forall|i: int| 0 <= i < s.len() ==> names_both(#[trigger] s[i])
            &&& forall|i: int, j: int|
                0 <= i < j < s.len() ==> (#[trigger] s[i]).workstream_id@ != (
                #[trigger] s[j]).workstream_id@ || s[i].note_path@ != s[j].note_path@
        },
    decreases s.len(),
{
    if s.len() > 0 {
        let init = s.drop_last();
        let last = s.last();
        lemma_exclusion_error(init);
        let pairs = exclusion_pairs(init);
        assert(s[s.len() - 1] == last);
        assert forall|i: int| 0 <= i < init.len() implies init[i] == #[trigger] s[i] by {}
        if exclusion_error(s) is None {
            assert forall|i: int| 0 <= i < s.len() implies names_both(#[trigger] s[i]) by {
                if i < init.len() {
                    assert(names_both(init[i]));
                }
            }
            assert forall|i: int, j: int| 0 <= i < j < s.len() implies (
            #[trigger] s[i]).workstream_id@ != (#[trigger] s[j]).workstream_id@ || s[i].note_path@
                != s[j].note_path@ by {
                if j < init.len() {
                    assert(init[i] == s[i] && init[j] == s[j]);
                } else {
                    assert(pairs[i] == exclusion_pair(s[i]));
                    assert(pairs.contains(pairs[i]));
                }
            }
        } else if exclusion_error(init) is Some {
            if forall|i: int| 0 <= i < s.len() ==> names_both(#[trigger] s[i]) {
                assert forall|i: int| 0 <= i < init.len() implies names_both(#[trigger] init[i]) by {
                    assert(names_both(s[i]));
                }
                let (i, j) = choose|i: int, j: int|
                    0 <= i < j < init.len() && (#[trigger] init[i]).workstream_id@ == (
                    #[trigger] init[j]).workstream_id@ && init[i].note_path@ == init[j].note_path@;
                assert(s[i] == init[i] && s[j] == init[j]);
            }
        } else if !is_valid_exclusion(last) {
            assert(!names_both(s[s.len() - 1]));
        } else {
            let k = choose|k: int| 0 <= k < pairs.len() && pairs[k] == exclusion_pair(last);
            assert(s[k].workstream_id@ == s[s.len() - 1].workstream_id@);
        }
    }
}

/// The exclusions that a Daily was written with are those recorded with both of
/// their names.
pub proof fn law_recorded_exclusions_are_read(items: Seq<JsonView>, id: Seq<char>, path: Seq<char>)
    ensures
        frozen_pairs(items).contains((id, path)) <==> exists|i: int|
            0 <= i < items.len() && (#[trigger] items[i]).text_field("workstream_id"@) == Some(id)
                && items[i].text_field("note_path"@) == Some(path),
    decreases items.len(),
{
    if items.len() > 0 {
        let init = items.drop_last();
        let last = items.last();
        law_recorded_exclusions_are_read(init, id, path);
        assert(items[items.len() - 1] == last);
        if last.text_field("workstream_id"@) is Some && last.text_field("note_path"@) is Some {
            lemma_push_contains(
                frozen_pairs(init),
                (last.text_field("workstream_id"@)->0, last.text_field("note_path"@)->0),
                (id, path),
            );
        }
        if frozen_pairs(init).contains((id, path)) {
            let i = choose|i: int|
                0 <= i < init.len() && (#[trigger] init[i]).text_field("workstream_id"@) == Some(id)
                    && init[i].text_field("note_path"@) == Some(path);
            assert(items[i] == init[i]);
        }
        if exists|i: int|
            0 <= i < items.len() && (#[trigger] items[i]).text_field("workstream_id"@) == Some(id)
                && items[i].text_field("note_path"@) == Some(path) {
            let i = choose|i: int|
                0 <= i < items.len() && (#[trigger] items[i]).text_field("workstream_id"@) == Some(
                    id,
                ) && items[i].text_field("note_path"@) == Some(path);
            assert(i < init.len() ==> init[i] == items[i]);
        }
    }
}

/// Whether a recorded note has a path and a title.
pub open spec fn is_used_note(note: JsonView, path: Seq<char>, title: Seq<char>) -> bool {
    note.text_field("path"@) == Some(path) && note.text_field("title"@) == Some(title)
}

/// A note that was used is told by its recorded title, and one whose title is
/// not recorded by its path.
pub proof fn law_title_of_a_used_note(notes: Seq<JsonView>, path: Seq<char>)
    ensures
        (forall|i: int, t: Seq<char>|
            0 <= i < notes.len() ==> !#[trigger] is_used_note(notes[i], path, t)) ==> used_title(
            notes,
            path,
        ) == path,
        (exists|i: int, t: Seq<char>|
            0 <= i < notes.len() && #[trigger] is_used_note(notes[i], path, t)) ==> exists|i: int|
            0 <= i < notes.len() && #[trigger] is_used_note(
                notes[i],
                path,
                used_title(notes, path),
            ),
    decreases notes.len(),
{
    if notes.len() > 0 {
        let init = notes.drop_last();
        let last = notes.last();
        law_title_of_a_used_note(init, path);
        assert(notes[notes.len() - 1] == last);
        assert forall|i: int| 0 <= i < init.len() implies init[i] == #[trigger] notes[i] by {}
        if last.text_field("path"@) == Some(path) && last.text_field("title"@) is Some {
            assert(is_used_note(notes[notes.len() - 1], path, used_title(notes, path)));
        } else {
            if forall|i: int, t: Seq<char>|
                0 <= i < notes.len() ==> !#[trigger] is_used_note(notes[i], path, t) {
                assert forall|i: int, t: Seq<char>| 0 <= i < init.len() implies !#[trigger] is_used_note(
                    init[i],
                    path,
                    t,
                ) by {
                    assert(!is_used_note(notes[i], path, t));
                }
            } else {
                let (i, t) = choose|i: int, t: Seq<char>|
                    0 <= i < notes.len() && #[trigger] is_used_note(notes[i], path, t);
                assert(is_used_note(init[i], path, t));
                let k = choose|k: int|
                    0 <= k < init.len() && #[trigger] is_used_note(
                        init[k],
                        path,
                        used_title(init, path),
                    );
                assert(is_used_note(notes[k], path, used_title(notes, path)));
            }
        }
    }
}

/// The excerpt of a note is the one, among those that a workstream was written
/// with, that was taken from it.
pub proof fn law_excerpt_of_a_note(
    excerpts: Seq<JsonView>,
    ids: Seq<Seq<char>>,
    path: Seq<char>,
)
    ensures
        excerpt_from(excerpts, ids, path) is Some ==> excerpts.contains(
            excerpt_from(excerpts, ids, path)->0,
        ) && excerpt_from(excerpts, ids, path)->0.text_field("note_path"@) == Some(path) && exists|
            i: int,
        |
            0 <= i < ids.len() && excerpt_from(excerpts, ids, path)->0.text_field("id"@) == Some(
                #[trigger] ids[i],
            ),
        excerpt_from(excerpts, ids, path) is None <==> forall|i: int|
            0 <= i < ids.len() ==> !is_excerpt_from(excerpts, #[trigger] ids[i], path),
    decreases ids.len(),
{
    if ids.len() > 0 {
        let init = ids.drop_last();
        let last = ids.last();
        law_excerpt_of_a_note(excerpts, init, path);
        lemma_excerpt_with_id(excerpts, last);
        assert(ids[ids.len() - 1] == last);
        assert forall|i: int| 0 <= i < init.len() implies init[i] == #[trigger] ids[i] by {}
        if excerpt_from(excerpts, init, path) is Some {
            let i = choose|i: int|
                0 <= i < init.len() && excerpt_from(excerpts, init, path)->0.text_field("id"@)
                    == Some(#[trigger] init[i]);
            assert(ids[i] == init[i]);
            let k = choose|k: int|
                0 <= k < init.len() && is_excerpt_from(excerpts, #[trigger] init[k], path);
            assert(is_excerpt_from(excerpts, ids[k], path));
        } else {
            assert forall|i: int| 0 <= i < init.len() implies !is_excerpt_from(
                excerpts,
                #[trigger] ids[i],
                path,
            ) by {
                assert(!is_excerpt_from(excerpts, init[i], path));
            }
        }
    }
}

/// Whether the excerpt with an id was taken from a note.
pub open spec fn is_excerpt_from(excerpts: Seq<JsonView>, id: Seq<char>, path: Seq<char>) -> bool {
    excerpt_with_id(excerpts, id) is Some && excerpt_with_id(excerpts, id)->0.text_field(
        "note_path"@,
    ) == Some(path)
}

proof fn lemma_excerpt_with_id(excerpts: Seq<JsonView>, id: Seq<char>)
    ensures
        excerpt_with_id(excerpts, id) is Some ==> excerpts.contains(
            excerpt_with_id(excerpts, id)->0,
        ) && excerpt_with_id(excerpts, id)->0.text_field("id"@) == Some(id),
        excerpt_with_id(excerpts, id) is None <==> forall|i: int|
            0 <= i < excerpts.len() ==> (#[trigger] excerpts[i]).text_field("id"@) != Some(id),
    decreases excerpts.len(),
{
    if excerpts.len() > 0 {
        let init = excerpts.drop_last();
        lemma_excerpt_with_id(init, id);
        assert(excerpts =~= init.push(excerpts.last()));
        assert(excerpts[excerpts.len() - 1] == excerpts.last());
        assert forall|i: int| 0 <= i < init.len() implies init[i] == #[trigger] excerpts[i] by {}
        if excerpt_with_id(init, id) is Some {
            lemma_push_contains(init, excerpts.last(), excerpt_with_id(init, id)->0);
        }
        if excerpts.last().text_field("id"@) != Some(id) {
            if excerpt_with_id(init, id) is None {
                assert forall|i: int| 0 <= i < excerpts.len() implies (
                #[trigger] excerpts[i]).text_field("id"@) != Some(id) by {
                    if i < init.len() {
                        assert(init[i].text_field("id"@) != Some(id));
                    }
                }
            } else {
                let e = excerpt_with_id(init, id)->0;
                let k = choose|k: int| 0 <= k < init.len() && init[k] == e;
                assert(excerpts[k] == e);
            }
        }
    }
}

/// The excerpt with an id is one that has it, where there is one.
pub proof fn law_excerpt_by_its_id(excerpts: Seq<JsonView>, id: Seq<char>)
    ensures
        excerpt_with_id(excerpts, id) is Some ==> excerpts.contains(
            excerpt_with_id(excerpts, id)->0,
        ) && excerpt_with_id(excerpts, id)->0.text_field("id"@) == Some(id),
        excerpt_with_id(excerpts, id) is None <==> forall|i: int|
            0 <= i < excerpts.len() ==> (#[trigger] excerpts[i]).text_field("id"@) != Some(id),
{
    lemma_excerpt_with_id(excerpts, id);
}

/// The keys of a note that is told of differ.
pub proof fn lemma_report_keys_differ()
    ensures
        "path"@ != "title"@,
        "path"@ != "canonical_link"@,
        "path"@ != "attached"@,
        "path"@ != "reason"@,
        "path"@ != "matched_fields"@,
        "path"@ != "excluded"@,
        "path"@ != "excerpt"@,
        "title"@ != "canonical_link"@,
        "title"@ != "attached"@,
        "title"@ != "reason"@,
        "title"@ != "matched_fields"@,
        "title"@ != "excluded"@,
        "title"@ != "excerpt"@,
        "canonical_link"@ != "attached"@,
        "canonical_link"@ != "reason"@,
        "canonical_link"@ != "matched_fields"@,
        "canonical_link"@ != "excluded"@,
        "canonical_link"@ != "excerpt"@,
        "attached"@ != "reason"@,
        "attached"@ != "matched_fields"@,
        "attached"@ != "excluded"@,
        "attached"@ != "excerpt"@,
        "reason"@ != "matched_fields"@,
        "reason"@ != "excluded"@,
        "reason"@ != "excerpt"@,
        "matched_fields"@ != "excluded"@,
        "matched_fields"@ != "excerpt"@,
        "excluded"@ != "excerpt"@,
{
    reveal_strlit("path");
    reveal_strlit("title");
    reveal_strlit("canonical_link");
    reveal_strlit("attached");
    reveal_strlit("reason");
    reveal_strlit("matched_fields");
    reveal_strlit("excluded");
    reveal_strlit("excerpt");
    assert("path"@.len() == 4);
    assert("title"@.len() == 5);
    assert("canonical_link"@.len() == 14);
    assert("attached"@.len() == 8);
    assert("reason"@.len() == 6);
    assert("matched_fields"@.len() == 14);
    assert("excluded"@.len() == 8);
    assert("excerpt"@.len() == 7);
    assert("canonical_link"@[0] == 'c');
    assert("matched_fields"@[0] == 'm');
    assert("attached"@[0] == 'a');
    assert("excluded"@[0] == 'e');
}

/// What is told of a note: its path and title, the link that stands for it and
/// whether the workstream has it, why it was found, whether it is excluded, and
/// its excerpt.
pub proof fn law_note_is_told(
    payload: JsonView,
    group: JsonView,
    id: Seq<char>,
    path: Seq<char>,
    ws: Seq<DailyWorkstreamView>,
    excluded: Seq<(Seq<char>, Seq<char>)>,
    link: Seq<char>,
)
    requires
        group.text_field("canonical_link"@) == Some(link),
    ensures
        ({
            let r = note_report(payload, group, id, path, ws, excluded);
            &&& r.field("path"@) == Some(JsonView::Text(path))
            &&& r.field("title"@) == Some(
                JsonView::Text(used_title(items_of(payload, "used_notes"@), path)),
            )
            &&& r.field("canonical_link"@) == Some(JsonView::Text(link))
            &&& r.field("attached"@) == Some(
                JsonView::Bool(links_attached(ws, id).contains(link)),
            )
            &&& group.text_field("reason"@) is Some ==> r.field("reason"@) == Some(
                JsonView::Text(group.text_field("reason"@)->0),
            )
            &&& r.field("matched_fields"@) == Some(
                JsonView::List(items_of(group, "matched_fields"@)),
            )
            &&& r.field("excluded"@) == Some(JsonView::Bool(excluded.contains((id, path))))
            &&& r.field("excerpt"@) == Some(
                excerpt_record(
                    excerpt_from(
                        items_of(payload, "excerpts"@),
                        workstream_excerpt_ids(payload, id),
                        path,
                    ),
                ),
            )
        }),
{
    lemma_report_keys_differ();
}

/// The keys of an excerpt that is told differ.
pub proof fn lemma_excerpt_keys_differ()
    ensures
        "id"@ != "text"@,
        "id"@ != "text_digest"@,
        "id"@ != "reason"@,
        "text"@ != "text_digest"@,
        "text"@ != "reason"@,
        "text_digest"@ != "reason"@,
{
    reveal_strlit("id");
    reveal_strlit("text");
    reveal_strlit("text_digest");
    reveal_strlit("reason");
    assert("id"@.len() == 2);
    assert("text"@.len() == 4);
    assert("text_digest"@.len() == 11);
    assert("reason"@.len() == 6);
}

/// An excerpt is told with its id, its text, its digest and why it was chosen,
/// each as it was recorded.
pub proof fn law_excerpt_is_told(excerpt: JsonView)
    ensures
        ({
            let r = excerpt_record(Some(excerpt));
            &&& r.field("id"@) == Some(optional_text_view(excerpt.text_field("id"@)))
            &&& r.field("text"@) == Some(optional_text_view(excerpt.text_field("text"@)))
            &&& r.field("text_digest"@) == Some(
                optional_text_view(excerpt.text_field("text_digest"@)),
            )
            &&& r.field("reason"@) == Some(optional_text_view(excerpt.text_field("reason"@)))
        }),
        excerpt_record(None) is Null,
{
    lemma_excerpt_keys_differ();
}

/// Whether a group names a workstream and a note.
pub open spec fn group_names(group: JsonView, id: Seq<char>, path: Seq<char>) -> bool {
    group.text_field("canonical_group_id"@) == Some(id) && group.text_field(
        "canonical_note_path"@,
    ) == Some(path)
}

/// The workstreams that are told of are those that some group names together
/// with a note, and the notes of a workstream those that are named with it.
pub proof fn law_named_workstreams_and_notes(groups: Seq<JsonView>, id: Seq<char>, path: Seq<char>)
    ensures
        named_workstreams(groups).contains(id) <==> exists|i: int, p: Seq<char>|
            0 <= i < groups.len() && #[trigger] group_names(groups[i], id, p),
        named_notes_of(groups, id).contains(path) <==> exists|i: int|
            0 <= i < groups.len() && #[trigger] group_names(groups[i], id, path),
    decreases groups.len(),
{
    if groups.len() > 0 {
        let init = groups.drop_last();
        let last = groups.last();
        law_named_workstreams_and_notes(init, id, path);
        assert(groups[groups.len() - 1] == last);
        assert forall|i: int| 0 <= i < init.len() implies init[i] == #[trigger] groups[i] by {}
        if group_pair(last) is Some {
            let named = group_pair(last)->0;
            lemma_push_contains(named_workstreams(init), named.0, id);
            lemma_push_contains(named_notes_of(init, id), named.1, path);
            assert(group_names(groups[groups.len() - 1], named.0, named.1));
        }
        if named_workstreams(init).contains(id) {
            let (i, p) = choose|i: int, p: Seq<char>|
                0 <= i < init.len() && #[trigger] group_names(init[i], id, p);
            assert(group_names(groups[i], id, p));
        }
        if named_notes_of(init, id).contains(path) {
            let i = choose|i: int| 0 <= i < init.len() && #[trigger] group_names(init[i], id, path);
            assert(group_names(groups[i], id, path));
        }
        if exists|i: int, p: Seq<char>|
            0 <= i < groups.len() && #[trigger] group_names(groups[i], id, p) {
            let (i, p) = choose|i: int, p: Seq<char>|
                0 <= i < groups.len() && #[trigger] group_names(groups[i], id, p);
            if i < init.len() {
                assert(group_names(init[i], id, p));
            }
        }
        if exists|i: int| 0 <= i < groups.len() && #[trigger] group_names(groups[i], id, path) {
            let i = choose|i: int|
                0 <= i < groups.len() && #[trigger] group_names(groups[i], id, path);
            if i < init.len() {
                assert(group_names(init[i], id, path));
            }
        }
    }
}

/// Of the groups that name a workstream and a note, the first counts.
pub proof fn law_first_group_counts(groups: Seq<JsonView>, id: Seq<char>, path: Seq<char>, at: int)
    requires
        0 <= at < groups.len(),
        group_names(groups[at], id, path),
        forall|i: int| 0 <= i < at ==> !#[trigger] group_names(groups[i], id, path),
    ensures
        first_group(groups, id, path) == Some(groups[at]),
    decreases groups.len(),
{
    let init = groups.drop_last();
    if at < init.len() {
        assert forall|i: int| 0 <= i < at implies !#[trigger] group_names(init[i], id, path) by {
            assert(!group_names(groups[i], id, path));
        }
        law_first_group_counts(init, id, path, at);
    } else {
        assert forall|i: int| 0 <= i < init.len() implies !#[trigger] group_names(
            init[i],
            id,
            path,
        ) by {
            assert(!group_names(groups[i], id, path));
        }
        lemma_no_group(init, id, path);
    }
}

proof fn lemma_no_group(groups: Seq<JsonView>, id: Seq<char>, path: Seq<char>)
    requires
        forall|i: int| 0 <= i < groups.len() ==> !#[trigger] group_names(groups[i], id, path),
    ensures
        first_group(groups, id, path) is None,
    decreases groups.len(),
{
    if groups.len() > 0 {
        let init = groups.drop_last();
        assert forall|i: int| 0 <= i < init.len() implies !#[trigger] group_names(
            init[i],
            id,
            path,
        ) by {
            assert(!group_names(groups[i], id, path));
        }
        lemma_no_group(init, id, path);
        assert(!group_names(groups[groups.len() - 1], id, path));
    }
}

/// Each workstream is told once, in order, with its notes in the order of their
/// paths.
pub proof fn law_workstreams_are_told(
    payload: JsonView,
    ids: Seq<Seq<char>>,
    ws: Seq<DailyWorkstreamView>,
    excluded: Seq<(Seq<char>, Seq<char>)>,
    at: int,
)
    requires
        0 <= at < ids.len(),
    ensures
        workstream_reports(payload, ids, ws, excluded).len() == ids.len(),
        workstream_reports(payload, ids, ws, excluded)[at].field("id"@) == Some(
            JsonView::Text(ids[at]),
        ),
        workstream_reports(payload, ids, ws, excluded)[at].field("notes"@) == Some(
            JsonView::List(
                note_reports(
                    payload,
                    ids[at],
                    ordered_set(named_notes_of(items_of(payload, "resolved_groups"@), ids[at])),
                    ws,
                    excluded,
                ),
            ),
        ),
    decreases ids.len(),
{
    reveal_strlit("id");
    reveal_strlit("notes");
    assert("id"@.len() == 2);
    assert("notes"@.len() == 5);
    let init = ids.drop_last();
    if at < init.len() {
        law_workstreams_are_told(payload, init, ws, excluded, at);
        assert(init[at] == ids[at]);
    } else if init.len() > 0 {
        law_workstreams_are_told(payload, init, ws, excluded, 0);
    }
}

/// Each note that a group names with a workstream is told of.
pub proof fn law_notes_of_a_workstream_are_told(
    payload: JsonView,
    id: Seq<char>,
    paths: Seq<Seq<char>>,
    ws: Seq<DailyWorkstreamView>,
    excluded: Seq<(Seq<char>, Seq<char>)>,
    path: Seq<char>,
)
    ensures
        ({
            let groups = items_of(payload, "resolved_groups"@);
            let more = note_reports(payload, id, paths.push(path), ws, excluded);
            let before = note_reports(payload, id, paths, ws, excluded);
            &&& note_reports(payload, id, Seq::empty(), ws, excluded).len() == 0
            &&& first_group(groups, id, path) is Some ==> more == before.push(
                note_report(payload, first_group(groups, id, path)->0, id, path, ws, excluded),
            )
            &&& first_group(groups, id, path) is None ==> more == before
        }),
{
    assert(paths.push(path).drop_last() =~= paths);
}

/// The keys of a report differ.
pub proof fn lemma_head_keys_differ()
    ensures
        "workspace_id"@ != "local_date"@,
        "workspace_id"@ != "revision_id"@,
        "workspace_id"@ != "status"@,
        "workspace_id"@ != "mode"@,
        "workspace_id"@ != "workstreams"@,
        "workspace_id"@ != "message"@,
        "workspace_id"@ != "reference_mode"@,
        "workspace_id"@ != "snapshot"@,
        "local_date"@ != "revision_id"@,
        "local_date"@ != "status"@,
        "local_date"@ != "mode"@,
        "local_date"@ != "workstreams"@,
        "local_date"@ != "message"@,
        "local_date"@ != "reference_mode"@,
        "local_date"@ != "snapshot"@,
        "revision_id"@ != "status"@,
        "revision_id"@ != "mode"@,
        "revision_id"@ != "workstreams"@,
        "revision_id"@ != "message"@,
        "revision_id"@ != "reference_mode"@,
        "revision_id"@ != "snapshot"@,
        "status"@ != "mode"@,
        "status"@ != "workstreams"@,
        "status"@ != "message"@,
        "status"@ != "reference_mode"@,
        "status"@ != "snapshot"@,
        "mode"@ != "workstreams"@,
        "mode"@ != "message"@,
        "mode"@ != "reference_mode"@,
        "mode"@ != "snapshot"@,
        "workstreams"@ != "message"@,
        "workstreams"@ != "reference_mode"@,
        "workstreams"@ != "snapshot"@,
        "message"@ != "reference_mode"@,
        "message"@ != "snapshot"@,
        "reference_mode"@ != "snapshot"@,
{
    reveal_strlit("workspace_id");
    reveal_strlit("local_date");
    reveal_strlit("revision_id");
    reveal_strlit("status");
    reveal_strlit("mode");
    reveal_strlit("workstreams");
    reveal_strlit("message");
    reveal_strlit("reference_mode");
    reveal_strlit("snapshot");
    assert("workspace_id"@.len() == 12);
    assert("local_date"@.len() == 10);
    assert("revision_id"@.len() == 11);
    assert("status"@.len() == 6);
    assert("mode"@.len() == 4);
    assert("workstreams"@.len() == 11);
    assert("message"@.len() == 7);
    assert("reference_mode"@.len() == 14);
    assert("snapshot"@.len() == 8);
    assert("revision_id"@[0] == 'r');
    assert("workstreams"@[0] == 'w');
}

/// A day without a candidate, and a candidate without reference notes, have
/// nothing to tell of notes; what there is to tell is told with how fresh it is.
pub proof fn law_context_report(
    workspace_id: Seq<char>,
    local_date: Seq<char>,
    revision_id: Option<Seq<char>>,
    snapshot: Option<&ContextSnapshot>,
    ws: Seq<DailyWorkstreamView>,
    compared: FreshnessView,
)
    ensures
        ({
            let r = context_report(workspace_id, local_date, revision_id, snapshot, ws, compared);
            let payload = snapshot->0.payload@;
            let referenced = payload.text_field("reference_mode"@) != Some("none"@);
            &&& r.field("workspace_id"@) == Some(JsonView::Text(workspace_id))
            &&& r.field("local_date"@) == Some(JsonView::Text(local_date))
            &&& revision_id is Some ==> r.field("revision_id"@) == Some(
                JsonView::Text(revision_id->0),
            )
            &&& revision_id is None ==> r.field("revision_id"@) is None
            &&& revision_id is None || snapshot is None || !referenced ==> r.field("status"@)
                == Some(JsonView::Text("none"@)) && r.field("workstreams"@) == Some(
                JsonView::List(Seq::empty()),
            ) && r.field("snapshot"@) is None
            &&& revision_id is None ==> r.field("message"@) == Some(
                JsonView::Text("Generate a Daily candidate to capture Knowledge links."@),
            )
            &&& revision_id is Some && snapshot is None ==> r.field("message"@) == Some(
                JsonView::Text("This candidate did not use Knowledge links."@),
            )
            &&& revision_id is None || snapshot is None ==> r.field("mode"@) == Some(
                JsonView::Text("exact_links_only"@),
            )
            &&& revision_id is Some && snapshot is Some && !referenced ==> r.field("mode"@) == Some(
                JsonView::Text("none"@),
            ) && r.field("reference_mode"@) == Some(JsonView::Text("none"@)) && r.field("message"@)
                == Some(JsonView::Text("Generated without reference notes."@))
            &&& revision_id is Some && snapshot is Some && referenced ==> {
                &&& r.field("snapshot"@) == Some(public_snapshot(*(snapshot->0)))
                &&& r.field("workstreams"@) == Some(shown_workstreams(payload, ws))
                &&& payload.field("schema_version"@) == Some(JsonView::Number(decimal(2)))
                    ==> r.field("mode"@) == Some(JsonView::Text("bounded_knowledge"@))
                &&& payload.field("schema_version"@) != Some(JsonView::Number(decimal(2)))
                    ==> r.field("mode"@) == Some(JsonView::Text("exact_links_only"@))
                &&& was_unavailable(payload) ==> r.field("status"@) == Some(
                    JsonView::Text("unavailable"@),
                ) && r.field("message"@) == Some(
                    JsonView::Text(
                        "Knowledge resolution was unavailable when this candidate was generated."@,
                    ),
                )
                &&& !was_unavailable(payload) ==> r.field("status"@) == Some(
                    JsonView::Text(compared.status),
                ) && r.field("message"@) == Some(JsonView::Text(compared.message))
            }
        }),
{
    lemma_head_keys_differ();
}

/// The sources of a context are compared again unless it has none, or they
/// could not be read in the first place.
pub proof fn law_sources_are_compared(payload: JsonView)
    ensures
        compares_sources(payload) <==> payload.text_field("reference_mode"@) != Some("none"@) && !(
        payload.field("diagnostics"@) is Some && payload.field("diagnostics"@)->0.field(
            "resolution_error_code"@,
        ) is Some),
        was_unavailable(payload) <==> payload.field("diagnostics"@) is Some && payload.field(
            "diagnostics"@,
        )->0.field("resolution_error_code"@) is Some,
{
}

} // verus!
