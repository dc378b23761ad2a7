//! Memory records: short textual entries with lifecycle metadata.
//!
//! Weights are parts-per-million (`WEIGHT_SCALE` is 1.0); timestamps are
//! Unix milliseconds; embeddings are fixed-scale integer vectors.

use vstd::prelude::*;

use crate::trusted::{fresh_id, now_millis};

verus! {

/// A weight of exactly 1.0, in parts-per-million.
pub const WEIGHT_SCALE: u64 = 1_000_000;

/// How strongly a memory resists decay and pruning.
#[derive(Clone, Copy, PartialEq, Eq, Structural, Debug)]
pub enum Importance {
    Critical,
    High,
    Medium,
    Low,
}

impl Importance {
    /// The canonical lower-case name of the level.
    pub fn as_str(&self) -> (r: &'static str)
        ensures
            r@ == self.name_spec(),
    {
        match self {
            Importance::Critical => "critical",
            Importance::High => "high",
            Importance::Medium => "medium",
            Importance::Low => "low",
        }
    }

    /// What `as_str` returns.
    pub open spec fn name_spec(&self) -> Seq<char> {
        match self {
            Importance::Critical => "critical"@,
            Importance::High => "high"@,
            Importance::Medium => "medium"@,
            Importance::Low => "low"@,
        }
    }

    /// Which level, if any, a (case-insensitive) name denotes.
    pub open spec fn parse_spec(s: Seq<char>) -> Option<Importance> {
        if crate::text::lower(s) == "critical"@ {
            Some(Importance::Critical)
        } else if crate::text::lower(s) == "high"@ {
            Some(Importance::High)
        } else if crate::text::lower(s) == "medium"@ {
            Some(Importance::Medium)
        } else if crate::text::lower(s) == "low"@ {
            Some(Importance::Low)
        } else {
            None
        }
    }

    /// Parse a level name, case-insensitively.
    pub fn parse(s: &str) -> (r: Option<Importance>)
        ensures
            r == Importance::parse_spec(s@),
    {
        let l = crate::text::to_lower(s);
        if crate::text::str_eq(l.as_str(), "critical") {
            Some(Importance::Critical)
        } else if crate::text::str_eq(l.as_str(), "high") {
            Some(Importance::High)
        } else if crate::text::str_eq(l.as_str(), "medium") {
            Some(Importance::Medium)
        } else if crate::text::str_eq(l.as_str(), "low") {
            Some(Importance::Low)
        } else {
            None
        }
    }
}

/// Where a memory came from.
pub enum MemorySource {
    /// Recorded from an assistant session.
    SessionRecorded { session_id: String, file_path: Option<String> },
    /// Distilled from a conversation thread.
    Conversation { thread_id: String },
    /// Entered by hand.
    Manual,
}

/// Specification-level image of a `MemorySource`.
#[verifier::ext_equal]
pub enum MemorySourceView {
    SessionRecorded { session_id: Seq<char>, file_path: Option<Seq<char>> },
    Conversation { thread_id: Seq<char> },
    Manual,
}

impl View for MemorySource {
    type V = MemorySourceView;

    open spec fn view(&self) -> MemorySourceView {
        match self {
            MemorySource::SessionRecorded { session_id, file_path } => {
                MemorySourceView::SessionRecorded {
                    session_id: session_id@,
                    file_path: match file_path {
                        Some(p) => Some(p@),
                        None => None,
                    },
                }
            },
            MemorySource::Conversation { thread_id } => {
                MemorySourceView::Conversation { thread_id: thread_id@ }
            },
            MemorySource::Manual => MemorySourceView::Manual,
        }
    }
}

/// The storage tag of a source variant.
pub fn source_type(source: &MemorySource) -> (r: &'static str)
    ensures
        r@ == source_type_spec(source@),
{
    match source {
        MemorySource::SessionRecorded { .. } => "session_recorded",
        MemorySource::Conversation { .. } => "conversation",
        MemorySource::Manual => "manual",
    }
}

/// What `source_type` returns.
pub open spec fn source_type_spec(s: MemorySourceView) -> Seq<char> {
    match s {
        MemorySourceView::SessionRecorded { .. } => "session_recorded"@,
        MemorySourceView::Conversation { .. } => "conversation"@,
        MemorySourceView::Manual => "manual"@,
    }
}

/// A stored memory record.
pub struct Memory {
    pub id: String,
    pub created_at: i64,
    pub last_accessed: i64,
    pub access_count: u32,
    /// Parts-per-million; 1.0 is `WEIGHT_SCALE`.
    pub weight: u64,
    pub topic: String,
    pub summary: String,
    pub raw_excerpt: Option<String>,
    pub keywords: Vec<String>,
    pub importance: Importance,
    pub source: MemorySource,
    pub related_ids: Vec<String>,
    /// Fixed-scale integer rendering of a dense vector, when present.
    pub embedding: Option<Vec<i64>>,
}

/// Specification-level image of a `Memory`.
#[verifier::ext_equal]
pub struct MemoryView {
    pub id: Seq<char>,
    pub created_at: int,
    pub last_accessed: int,
    pub access_count: int,
    pub weight: int,
    pub topic: Seq<char>,
    pub summary: Seq<char>,
    pub raw_excerpt: Option<Seq<char>>,
    pub keywords: Seq<Seq<char>>,
    pub importance: Importance,
    pub source: MemorySourceView,
    pub related_ids: Seq<Seq<char>>,
    pub embedding: Option<Seq<i64>>,
}

impl DeepView for Memory {
    type V = MemoryView;

    open spec fn deep_view(&self) -> MemoryView {
        self.view()
    }
}

impl View for Memory {
    type V = MemoryView;

    open spec fn view(&self) -> MemoryView {
        MemoryView {
            id: self.id@,
            created_at: self.created_at as int,
            last_accessed: self.last_accessed as int,
            access_count: self.access_count as int,
            weight: self.weight as int,
            topic: self.topic@,
            summary: self.summary@,
            raw_excerpt: match &self.raw_excerpt {
                Some(r) => Some(r@),
                None => None,
            },
            keywords: self.keywords.deep_view(),
            importance: self.importance,
            source: self.source@,
            related_ids: self.related_ids.deep_view(),
            embedding: match &self.embedding {
                Some(e) => Some(e@),
                None => None,
            },
        }
    }
}

impl Memory {
    /// A fresh record: weight 1.0, no accesses, manual source, a new
    /// 26-character identifier, created and accessed now.
    pub fn new(topic: String, summary: String, importance: Importance) -> (r: Memory)
        ensures
            r@.id.len() == 26,
            r@.topic == topic@,
            r@.summary == summary@,
            r@.importance == importance,
            r@.weight == WEIGHT_SCALE as int,
            r@.access_count == 0,
            r@.raw_excerpt is None,
            r@.keywords =~= Seq::<Seq<char>>::empty(),
            r@.related_ids =~= Seq::<Seq<char>>::empty(),
            r@.embedding is None,
            r@.source == MemorySourceView::Manual,
            r@.last_accessed == r@.created_at,
    {
        let now = now_millis();
        Memory {
            id: fresh_id(),
            created_at: now,
            last_accessed: now,
            access_count: 0,
            weight: WEIGHT_SCALE,
            topic,
            summary,
            raw_excerpt: None,
            keywords: Vec::new(),
            importance,
            source: MemorySource::Manual,
            related_ids: Vec::new(),
            embedding: None,
        }
    }
}

/// Aggregate statistics over the whole memory store.
pub struct StoreStats {
    pub total_memories: usize,
    pub total_topics: usize,
    /// Parts-per-million.
    pub avg_weight: u64,
    pub oldest_memory: Option<i64>,
    pub newest_memory: Option<i64>,
}

// ---------------------------------------------------------------------------
// Cloning helpers with view-exact contracts
// ---------------------------------------------------------------------------

/// Clone an optional string, view-exactly.
pub fn clone_opt_string(v: &Option<String>) -> (r: Option<String>)
    ensures
        r is Some <==> v is Some,
        v matches Some(s) ==> r matches Some(t) && t@ == s@,
{
    match v {
        Some(s) => Some(s.clone()),
        None => None,
    }
}

/// Clone a vector of strings, view-exactly.
pub fn clone_string_vec(v: &Vec<String>) -> (r: Vec<String>)
    ensures
        r.deep_view() == v.deep_view(),
{
    let mut out: Vec<String> = Vec::new();
    let mut i: usize = 0;
    while i < v.len()
        invariant
            i <= v@.len(),
            out.deep_view() == v.deep_view().take(i as int),
        decreases v@.len() - i,
    {
        let ghost prev = out.deep_view();
        let s = v[i].clone();
        assert(s@ == v.deep_view()[i as int]);
        out.push(s);
        proof {
            assert(out.deep_view() =~= prev.push(s@));
            assert(out.deep_view() =~= v.deep_view().take(i + 1));
        }
        i = i + 1;
    }
    proof {
        assert(v.deep_view().take(v@.len() as int) =~= v.deep_view());
    }
    out
}

/// Clone an integer vector, view-exactly.
pub fn clone_i64_vec(v: &Vec<i64>) -> (r: Vec<i64>)
    ensures
        r@ == v@,
{
    let mut out: Vec<i64> = Vec::new();
    let mut i: usize = 0;
    while i < v.len()
        invariant
            i <= v@.len(),
            out@ == v@.take(i as int),
        decreases v@.len() - i,
    {
        out.push(v[i]);
        proof {
            assert(out@ =~= v@.take(i + 1));
        }
        i = i + 1;
    }
    proof {
        assert(v@.take(v@.len() as int) =~= v@);
    }
    out
}

/// Clone an optional embedding, view-exactly.
pub fn clone_embedding(v: &Option<Vec<i64>>) -> (r: Option<Vec<i64>>)
    ensures
        r is Some <==> v is Some,
        v matches Some(e) ==> r matches Some(f) && f@ == e@,
{
    match v {
        Some(e) => Some(clone_i64_vec(e)),
        None => None,
    }
}

/// Clone a source, view-exactly.
pub fn clone_source(s: &MemorySource) -> (r: MemorySource)
    ensures
        r@ == s@,
{
    match s {
        MemorySource::SessionRecorded { session_id, file_path } => {
            MemorySource::SessionRecorded {
                session_id: session_id.clone(),
                file_path: clone_opt_string(file_path),
            }
        },
        MemorySource::Conversation { thread_id } => {
            MemorySource::Conversation { thread_id: thread_id.clone() }
        },
        MemorySource::Manual => MemorySource::Manual,
    }
}

/// Clone a memory, view-exactly.
pub fn clone_memory(m: &Memory) -> (r: Memory)
    ensures
        r@ == m@,
{
    let r = Memory {
        id: m.id.clone(),
        created_at: m.created_at,
        last_accessed: m.last_accessed,
        access_count: m.access_count,
        weight: m.weight,
        topic: m.topic.clone(),
        summary: m.summary.clone(),
        raw_excerpt: clone_opt_string(&m.raw_excerpt),
        keywords: clone_string_vec(&m.keywords),
        importance: m.importance,
        source: clone_source(&m.source),
        related_ids: clone_string_vec(&m.related_ids),
        embedding: clone_embedding(&m.embedding),
    };
    proof {
        assert(r@ =~= m@);
    }
    r
}

} // verus!
