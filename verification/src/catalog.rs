//! Building the catalog of notes that events may be linked to.
use crate::notes::{NoteView, WorkspaceMarkdownDocument, note_of, parse_knowledge_note};
use crate::ordered::{contains_text, insert_text, inserted, precedes, str_less};
use crate::resolution::CatalogNote;
use crate::settings::oversized;
use crate::snapshot::CatalogReport;
use crate::text::{byte_len, opt_text, str_eq, views};
use vstd::prelude::*;
use vstd::string::*;

verus! {

/// The most notes that a catalog holds.
pub const MAX_CATALOG_NOTES: usize = 2_000;

/// The largest note that a catalog reads, in bytes.
pub const MAX_NOTE_BYTES: u64 = 1_048_576;

/// The most bytes that a catalog reads.
pub const MAX_CATALOG_BYTES: u64 = 33_554_432;

pub struct EntryView {
    pub note: NoteView,
    pub collection_ids: Seq<Seq<char>>,
}

impl View for CatalogNote {
    type V = EntryView;

    open spec fn view(&self) -> EntryView {
        EntryView { note: self.note@, collection_ids: views(self.collection_ids@) }
    }
}

pub open spec fn entry_views(notes: Seq<CatalogNote>) -> Seq<EntryView> {
    notes.map_values(|n: CatalogNote| n@)
}

/// A catalog while it is built. Notes come from several collections, and the
/// note that is to be read next is named by `pending`.
pub struct CatalogBuilder {
    pub notes: Vec<CatalogNote>,
    pub seen: Vec<String>,
    pub missing_roots: Vec<String>,
    pub oversized_note_count: usize,
    pub unreadable_note_count: usize,
    pub invalid_note_count: usize,
    pub bytes: u64,
    pub pending: Option<String>,
}

/// How far a catalog is built.
pub struct CatalogView {
    pub notes: Seq<EntryView>,
    pub seen: Seq<Seq<char>>,
    pub missing_roots: Seq<Seq<char>>,
    pub oversized: nat,
    pub unreadable: nat,
    pub invalid: nat,
    pub bytes: nat,
    pub pending: Option<Seq<char>>,
}

impl View for CatalogBuilder {
    type V = CatalogView;

    open spec fn view(&self) -> CatalogView {
        CatalogView {
            notes: entry_views(self.notes@),
            seen: views(self.seen@),
            missing_roots: views(self.missing_roots@),
            oversized: self.oversized_note_count as nat,
            unreadable: self.unreadable_note_count as nat,
            invalid: self.invalid_note_count as nat,
            bytes: self.bytes as nat,
            pending: opt_text(self.pending),
        }
    }
}

/// Where the note with a path stands among some notes, or -1.
pub open spec fn entry_at(notes: Seq<EntryView>, path: Seq<char>) -> int
    decreases notes.len(),
{
    if notes.len() == 0 {
        -1
    } else if notes.last().note.path == path {
        notes.len() - 1
    } else {
        entry_at(notes.drop_last(), path)
    }
}

/// Notes in the order of their paths, with one more.
pub open spec fn with_entry(notes: Seq<EntryView>, entry: EntryView) -> Seq<EntryView>
    decreases notes.len(),
{
    if notes.len() > 0 && precedes(entry.note.path, notes.last().note.path) {
        with_entry(notes.drop_last(), entry).push(notes.last())
    } else {
        notes.push(entry)
    }
}

impl CatalogView {
    /// Each path that was seen is counted at most once.
    pub open spec fn counted(self) -> bool {
        self.notes.len() + self.oversized + self.unreadable + self.invalid + (
        if self.pending is Some {
            1nat
        } else {
            0nat
        }) <= self.seen.len()
    }

    /// The catalog after a collection offers a note, and whether the note is
    /// to be read.
    pub open spec fn offered(
        self,
        collection_id: Seq<char>,
        path: Seq<char>,
        byte_len: nat,
    ) -> Result<(CatalogView, bool), Seq<char>> {
        let at = entry_at(self.notes, path);
        let known = CatalogView { seen: inserted(self.seen, path), ..self };
        if at >= 0 {
            let entry = EntryView {
                collection_ids: inserted(self.notes[at].collection_ids, collection_id),
                ..self.notes[at]
            };
            Ok((CatalogView { notes: self.notes.update(at, entry), ..self }, false))
        } else if self.seen.contains(path) {
            Ok((self, false))
        } else if self.notes.len() >= MAX_CATALOG_NOTES {
            Err("Knowledge catalog exceeds 2000 unique notes"@)
        } else if byte_len > MAX_NOTE_BYTES {
            Ok((CatalogView { oversized: self.oversized + 1, ..known }, false))
        } else if self.bytes + byte_len > MAX_CATALOG_BYTES {
            Err("Knowledge catalog exceeds 33554432 source bytes"@)
        } else {
            Ok(
                (
                    CatalogView {
                        bytes: self.bytes + byte_len,
                        pending: Some(path),
                        ..known
                    },
                    true,
                ),
            )
        }
    }

    /// The catalog after the pending note was read, or could not be.
    pub open spec fn accepted(
        self,
        collection_id: Seq<char>,
        document: Option<WorkspaceMarkdownDocument>,
    ) -> CatalogView {
        let done = CatalogView { pending: None, ..self };
        match document {
            None => CatalogView { unreadable: self.unreadable + 1, ..done },
            Some(document) => match note_of(document) {
                Err(_) => CatalogView { invalid: self.invalid + 1, ..done },
                Ok(note) => CatalogView {
                    notes: with_entry(
                        self.notes,
                        EntryView {
                            note: NoteView { usable_content: Seq::empty(), ..note },
                            collection_ids: seq![collection_id],
                        },
                    ),
                    ..done
                },
            },
        }
    }
}

proof fn lemma_with_entry_before(notes: Seq<EntryView>, entry: EntryView, p: int)
    requires
        0 <= p <= notes.len(),
        forall|k: int|
            p <= k < notes.len() ==> precedes(entry.note.path, (#[trigger] notes[k]).note.path),
    ensures
        with_entry(notes, entry) == with_entry(notes.take(p), entry) + notes.skip(p),
    decreases notes.len() - p,
{
    if p == notes.len() {
        assert(notes.take(p) =~= notes);
        assert(with_entry(notes.take(p), entry) + notes.skip(p) =~= with_entry(notes, entry));
    } else {
        let init = notes.drop_last();
        assert(precedes(entry.note.path, notes[notes.len() - 1].note.path));
        assert forall|k: int| p <= k < init.len() implies precedes(
            entry.note.path,
            (#[trigger] init[k]).note.path,
        ) by {
            assert(init[k] == notes[k]);
        }
        lemma_with_entry_before(init, entry, p);
        assert(init.take(p) =~= notes.take(p));
        assert(with_entry(notes, entry) =~= with_entry(notes.take(p), entry) + notes.skip(p));
    }
}

fn insert_entry(notes: &mut Vec<CatalogNote>, entry: CatalogNote)
    ensures
        entry_views(final(notes)@) == with_entry(entry_views(old(notes)@), entry@),
{
    let mut p: usize = notes.len();
    let ghost before = entry_views(notes@);
    while p > 0 && str_less(entry.note.path.as_str(), notes[p - 1].note.path.as_str())
        invariant
            p <= notes@.len(),
            before == entry_views(notes@),
            forall|k: int|
                p <= k < before.len() ==> precedes(
                    entry.note.path@,
                    (#[trigger] before[k]).note.path,
                ),
        decreases p,
    {
        assert(before[p - 1] == notes@[p - 1]@);
        p -= 1;
    }
    proof {
        lemma_with_entry_before(before, entry@, p as int);
        if p > 0 {
            assert(before.take(p as int).last() == before[p - 1]);
            assert(before[p - 1] == notes@[p - 1]@);
        }
    }
    let ghost said = entry@;
    notes.insert(p, entry);
    assert(entry_views(notes@) =~= before.take(p as int).push(said) + before.skip(p as int));
}

impl CatalogBuilder {
    pub fn new() -> (r: CatalogBuilder)
        ensures
            r@ == (CatalogView {
                notes: Seq::empty(),
                seen: Seq::empty(),
                missing_roots: Seq::empty(),
                oversized: 0,
                unreadable: 0,
                invalid: 0,
                bytes: 0,
                pending: None,
            }),
    {
        let r = CatalogBuilder {
            notes: Vec::new(),
            seen: Vec::new(),
            missing_roots: Vec::new(),
            oversized_note_count: 0,
            unreadable_note_count: 0,
            invalid_note_count: 0,
            bytes: 0,
            pending: None,
        };
        assert(r@.notes =~= Seq::<EntryView>::empty());
        assert(r@.seen =~= Seq::<Seq<char>>::empty());
        assert(r@.missing_roots =~= Seq::<Seq<char>>::empty());
        r
    }

    /// Notes that a root of a collection is not there.
    pub fn add_missing_root(&mut self, root: &str)
        ensures
            final(self)@ == (CatalogView {
                missing_roots: inserted(old(self)@.missing_roots, root@),
                ..old(self)@
            }),
    {
        insert_text(&mut self.missing_roots, root);
    }

    fn position(&self, path: &str) -> (r: Option<usize>)
        ensures
            match r {
                Some(i) => i < self.notes@.len() && entry_at(self@.notes, path@) == i,
                None => entry_at(self@.notes, path@) < 0,
            },
    {
        let mut i: usize = self.notes.len();
        let ghost all = entry_views(self.notes@);
        assert(all.take(i as int) =~= all);
        while i > 0
            invariant
                i <= self.notes@.len(),
                all == entry_views(self.notes@),
                entry_at(all, path@) == entry_at(all.take(i as int), path@),
            decreases i,
        {
            assert(all.take(i as int).drop_last() =~= all.take(i - 1));
            assert(all[i - 1] == self.notes@[i - 1]@);
            if str_eq(self.notes[i - 1].note.path.as_str(), path) {
                return Some(i - 1);
            }
            i -= 1;
        }
        None
    }

    /// A collection offers a note. The result says whether the note is to be
    /// read; if so, `accept` comes next.
    pub fn offer(&mut self, collection_id: &str, path: &str, byte_len: u64) -> (r: Result<
        bool,
        String,
    >)
        requires
            old(self)@.counted(),
            old(self)@.pending is None,
        ensures
            match old(self)@.offered(collection_id@, path@, byte_len as nat) {
                Ok((next, read)) => r == Ok::<bool, String>(read) && final(self)@ == next
                    && next.counted(),
                Err(error) => r is Err && r->Err_0@ == error && final(self)@ == old(self)@,
            },
    {
        let ghost before = self@;
        if let Some(i) = self.position(path) {
            let mut ids: Vec<String> = Vec::new();
            std::mem::swap(&mut ids, &mut self.notes[i].collection_ids);
            insert_text(&mut ids, collection_id);
            std::mem::swap(&mut ids, &mut self.notes[i].collection_ids);
            assert(self@.notes =~= before.offered(
                collection_id@,
                path@,
                byte_len as nat,
            )->Ok_0.0.notes);
            return Ok(false);
        }
        if contains_text(&self.seen, path) {
            return Ok(false);
        }
        if self.notes.len() >= MAX_CATALOG_NOTES {
            return Err("Knowledge catalog exceeds 2000 unique notes".to_owned());
        }
        if byte_len <= MAX_NOTE_BYTES && (self.bytes > MAX_CATALOG_BYTES || byte_len
            > MAX_CATALOG_BYTES - self.bytes) {
            return Err("Knowledge catalog exceeds 33554432 source bytes".to_owned());
        }
        insert_text(&mut self.seen, path);
        proof {
            lemma_inserted_new(before.seen, path@);
            assert(views(self.seen@).len() == self.seen@.len());
            assert(self.seen.len() == self.seen@.len());
        }
        if byte_len > MAX_NOTE_BYTES {
            self.oversized_note_count = self.oversized_note_count + 1;
            return Ok(false);
        }
        self.bytes = self.bytes + byte_len;
        self.pending = Some(path.to_owned());
        Ok(true)
    }

    /// The pending note was read, or could not be.
    pub fn accept(&mut self, collection_id: &str, document: Option<&WorkspaceMarkdownDocument>)
        requires
            old(self)@.counted(),
            old(self)@.pending is Some,
        ensures
            final(self)@ == old(self)@.accepted(
                collection_id@,
                match document {
                    Some(d) => Some(*d),
                    None => None,
                },
            ),
            final(self)@.counted(),
    {
        assert(views(self.seen@).len() == self.seen@.len());
        assert(self.seen@.len() <= usize::MAX) by {
            assert(self.seen.len() == self.seen@.len());
        }
        self.pending = None;
        match document {
            None => {
                self.unreadable_note_count = self.unreadable_note_count + 1;
            },
            Some(document) => match parse_knowledge_note(document) {
                Err(_) => {
                    self.invalid_note_count = self.invalid_note_count + 1;
                },
                Ok(note) => {
                    let ghost before = self@.notes;
                    let mut note = note;
                    note.usable_content = String::new();
                    assert(note.usable_content@ =~= Seq::<char>::empty());
                    let mut collection_ids: Vec<String> = Vec::new();
                    collection_ids.push(collection_id.to_owned());
                    assert(views(collection_ids@) =~= seq![collection_id@]);
                    let entry = CatalogNote { note, collection_ids };
                    proof {
                        lemma_with_entry_len(before, entry@);
                    }
                    insert_entry(&mut self.notes, entry);
                },
            },
        }
    }

    pub fn finish(self) -> (r: CatalogReport)
        ensures
            entry_views(r.notes@) == self@.notes,
            views(r.missing_roots@) == self@.missing_roots,
            r.oversized_note_count == self@.oversized,
            r.unreadable_note_count == self@.unreadable,
            r.invalid_note_count == self@.invalid,
    {
        CatalogReport {
            notes: self.notes,
            missing_roots: self.missing_roots,
            oversized_note_count: self.oversized_note_count,
            unreadable_note_count: self.unreadable_note_count,
            invalid_note_count: self.invalid_note_count,
        }
    }
}

proof fn lemma_with_entry_len(notes: Seq<EntryView>, entry: EntryView)
    ensures
        with_entry(notes, entry).len() == notes.len() + 1,
    decreases notes.len(),
{
    if notes.len() > 0 && precedes(entry.note.path, notes.last().note.path) {
        lemma_with_entry_len(notes.drop_last(), entry);
    }
}

proof fn lemma_inserted_new(s: Seq<Seq<char>>, x: Seq<char>)
    requires
        !s.contains(x),
    ensures
        inserted(s, x).len() == s.len() + 1,
    decreases s.len(),
{
    if s.len() > 0 {
        assert(s[s.len() - 1] == s.last());
        if !precedes(s.last(), x) {
            let init = s.drop_last();
            if init.contains(x) {
                let k = choose|k: int| 0 <= k < init.len() && init[k] == x;
                assert(s[k] == x);
            }
            lemma_inserted_new(init, x);
        }
    }
}

} // verus!
