//! The records that the inbox keeps.
use crate::json::{Json, JsonView, field_in, field_of, fields_view};
use crate::ordered::{Ranked, lemma_ranked_len, precedes, ranked, sort_ranked, str_less};
use crate::text::lemma_take_step;
use vstd::prelude::*;
use vstd::string::*;

verus! {

/// A moment in time: seconds since 1970-01-01 UTC and the nanoseconds past them.
#[derive(Debug, Clone, Copy, PartialEq, Eq, Structural)]
pub struct Moment {
    pub seconds: i64,
    pub nanos: u32,
}

impl Moment {
    pub open spec fn is_before(self, other: Moment) -> bool {
        self.seconds < other.seconds || (self.seconds == other.seconds && self.nanos < other.nanos)
    }

    pub fn before(&self, other: &Moment) -> (r: bool)
        ensures
            r == self.is_before(*other),
    {
        self.seconds < other.seconds || (self.seconds == other.seconds && self.nanos < other.nanos)
    }
}

/// A log event as it was received.
#[derive(Debug)]
pub struct StoredLogEvent {
    pub id: String,
    pub received_at: Moment,
    pub timestamp: Moment,
    pub source: String,
    pub level: String,
    pub message: String,
    pub metadata: Vec<(String, Json)>,
    pub fingerprint: Option<String>,
    pub truncated: bool,
    pub reviewed: bool,
}

impl StoredLogEvent {
    /// The metadata field of that name.
    pub open spec fn field(&self, key: Seq<char>) -> Option<JsonView> {
        field_in(fields_view(self.metadata@), key)
    }

    /// The metadata field of that name, where it holds a text.
    pub open spec fn text_field(&self, key: Seq<char>) -> Option<Seq<char>> {
        match self.field(key) {
            Some(value) => value.text(),
            None => None,
        }
    }

    pub fn get(&self, key: &str) -> (r: Option<&Json>)
        ensures
            match r {
                Some(value) => self.field(key@) == Some(value@),
                None => self.field(key@) is None,
            },
    {
        field_of(&self.metadata, key)
    }

    pub fn get_text(&self, key: &str) -> (r: Option<&str>)
        ensures
            match r {
                Some(s) => self.text_field(key@) == Some(s@),
                None => self.text_field(key@) is None,
            },
    {
        match self.get(key) {
            Some(value) => value.as_text(),
            None => None,
        }
    }
}

/// One condition of a saved mapping.
#[derive(Debug, Clone, PartialEq, Eq)]
pub struct LinkSelector {
    pub field: String,
    pub operator: String,
    pub value: String,
}

/// A reviewed rule: events that meet every selector belong to a note.
#[derive(Debug, Clone, PartialEq, Eq)]
pub struct ContextMapping {
    pub id: String,
    pub workspace_id: String,
    pub selectors: Vec<LinkSelector>,
    pub canonical_note_path: String,
    pub enabled: bool,
    pub source_identity: Option<String>,
    pub source_digest: Option<String>,
}

/// A set of note roots that may be linked automatically.
#[derive(Debug, Clone, PartialEq, Eq)]
pub struct KnowledgeCollection {
    pub id: String,
    pub workspace_id: String,
    pub label: String,
    pub purpose: String,
    pub roots: Vec<String>,
    pub exclusions: Vec<String>,
    pub enabled: bool,
    pub revision_digest: String,
}

/// An identity that the owner asked not to be shown for review.
#[derive(Debug, Clone, PartialEq, Eq)]
pub struct IgnoredContextIdentity {
    pub field: String,
    pub normalized_value: String,
}


impl Ranked for KnowledgeCollection {
    open spec fn ranks_before(&self, other: &Self) -> bool {
        precedes(self.id@, other.id@)
    }

    fn is_before(&self, other: &Self) -> (r: bool) {
        str_less(self.id.as_str(), other.id.as_str())
    }
}

impl Ranked for ContextMapping {
    open spec fn ranks_before(&self, other: &Self) -> bool {
        precedes(self.id@, other.id@)
    }

    fn is_before(&self, other: &Self) -> (r: bool) {
        str_less(self.id.as_str(), other.id.as_str())
    }
}

pub open spec fn enabled_collections<'a>(all: Seq<KnowledgeCollection>) -> Seq<
    &'a KnowledgeCollection,
>
    decreases all.len(),
{
    if all.len() == 0 {
        Seq::empty()
    } else if all.last().enabled {
        enabled_collections(all.drop_last()).push(&all.last())
    } else {
        enabled_collections(all.drop_last())
    }
}

pub open spec fn enabled_mappings<'a>(all: Seq<ContextMapping>) -> Seq<&'a ContextMapping>
    decreases all.len(),
{
    if all.len() == 0 {
        Seq::empty()
    } else if all.last().enabled {
        enabled_mappings(all.drop_last()).push(&all.last())
    } else {
        enabled_mappings(all.drop_last())
    }
}

/// The enabled collections in the order of their IDs.
pub fn sorted_collections<'a>(all: &'a Vec<KnowledgeCollection>) -> (r: Vec<
    &'a KnowledgeCollection,
>)
    ensures
        r@ == ranked(enabled_collections(all@)),
{
    let mut enabled: Vec<&'a KnowledgeCollection> = Vec::new();
    let mut i: usize = 0;
    assert(all@.take(0) =~= Seq::<KnowledgeCollection>::empty());
    while i < all.len()
        invariant
            i <= all@.len(),
            enabled@ == enabled_collections(all@.take(i as int)),
        decreases all@.len() - i,
    {
        proof {
            lemma_take_step(all@, i as int);
        }
        if all[i].enabled {
            enabled.push(&all[i]);
        }
        i += 1;
    }
    assert(all@.take(i as int) =~= all@);
    sort_ranked(&enabled)
}

/// The enabled mappings in the order of their IDs.
pub fn sorted_mappings<'a>(all: &'a Vec<ContextMapping>) -> (r: Vec<&'a ContextMapping>)
    ensures
        r@ == ranked(enabled_mappings(all@)),
        r@.len() <= all@.len(),
{
    let mut enabled: Vec<&'a ContextMapping> = Vec::new();
    let mut i: usize = 0;
    assert(all@.take(0) =~= Seq::<ContextMapping>::empty());
    while i < all.len()
        invariant
            i <= all@.len(),
            enabled@ == enabled_mappings(all@.take(i as int)),
            enabled@.len() <= i,
        decreases all@.len() - i,
    {
        proof {
            lemma_take_step(all@, i as int);
        }
        if all[i].enabled {
            enabled.push(&all[i]);
        }
        i += 1;
    }
    assert(all@.take(i as int) =~= all@);
    proof {
        lemma_ranked_len(enabled@);
    }
    sort_ranked(&enabled)
}

} // verus!
