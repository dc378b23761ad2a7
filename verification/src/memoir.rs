//! The permanent concept graph: memoirs, concepts, labels and typed links.
//!
//! Confidences are thousandths (`CONFIDENCE_SCALE` is 1.0); link weights are
//! parts-per-million; timestamps are Unix milliseconds.

use vstd::prelude::*;
use vstd::string::StrSliceExecFns;
use vstd::string::StringExecFns;

use crate::memory::WEIGHT_SCALE;
use crate::trusted::{fresh_id, now_millis};

verus! {

/// A confidence of exactly 1.0, in thousandths.
pub const CONFIDENCE_SCALE: u32 = 1000;

/// Confidence granted to a concept at creation (0.5).
pub const INITIAL_CONFIDENCE: u32 = 500;

/// Confidence gained by one refinement (0.1).
pub const REFINE_CONFIDENCE_STEP: u32 = 100;

/// Default consolidation threshold of a fresh memoir.
pub const DEFAULT_CONSOLIDATION_THRESHOLD: u32 = 50;

// ---------------------------------------------------------------------------
// Memoir
// ---------------------------------------------------------------------------

/// A named partition of the permanent concept graph.
pub struct Memoir {
    pub id: String,
    pub name: String,
    pub description: String,
    pub created_at: i64,
    pub updated_at: i64,
    pub consolidation_threshold: u32,
}

/// Specification-level image of a `Memoir`.
#[verifier::ext_equal]
pub struct MemoirView {
    pub id: Seq<char>,
    pub name: Seq<char>,
    pub description: Seq<char>,
    pub created_at: int,
    pub updated_at: int,
    pub consolidation_threshold: int,
}

impl DeepView for Memoir {
    type V = MemoirView;

    open spec fn deep_view(&self) -> MemoirView {
        self.view()
    }
}

impl View for Memoir {
    type V = MemoirView;

    open spec fn view(&self) -> MemoirView {
        MemoirView {
            id: self.id@,
            name: self.name@,
            description: self.description@,
            created_at: self.created_at as int,
            updated_at: self.updated_at as int,
            consolidation_threshold: self.consolidation_threshold as int,
        }
    }
}

impl Memoir {
    /// A fresh memoir with a new identifier and the default threshold.
    pub fn new(name: String, description: String) -> (r: Memoir)
        ensures
            r@.id.len() == 26,
            r@.name == name@,
            r@.description == description@,
            r@.consolidation_threshold == DEFAULT_CONSOLIDATION_THRESHOLD as int,
            r@.updated_at == r@.created_at,
    {
        let now = now_millis();
        Memoir {
            id: fresh_id(),
            name,
            description,
            created_at: now,
            updated_at: now,
            consolidation_threshold: DEFAULT_CONSOLIDATION_THRESHOLD,
        }
    }
}

/// Clone a memoir, view-exactly.
pub fn clone_memoir(m: &Memoir) -> (r: Memoir)
    ensures
        r@ == m@,
{
    let r = Memoir {
        id: m.id.clone(),
        name: m.name.clone(),
        description: m.description.clone(),
        created_at: m.created_at,
        updated_at: m.updated_at,
        consolidation_threshold: m.consolidation_threshold,
    };
    proof {
        assert(r@ =~= m@);
    }
    r
}

// ---------------------------------------------------------------------------
// Label
// ---------------------------------------------------------------------------

/// A `namespace:value` tag on a concept.
pub struct Label {
    pub namespace: String,
    pub value: String,
}

/// Specification-level image of a `Label`.
#[verifier::ext_equal]
pub struct LabelView {
    pub namespace: Seq<char>,
    pub value: Seq<char>,
}

impl View for Label {
    type V = LabelView;

    open spec fn view(&self) -> LabelView {
        LabelView { namespace: self.namespace@, value: self.value@ }
    }
}

impl DeepView for Label {
    type V = LabelView;

    open spec fn deep_view(&self) -> LabelView {
        self.view()
    }
}

/// Position of the first colon in `s`, if any.
pub open spec fn first_colon(s: Seq<char>) -> Option<int> {
    if exists|i: int| 0 <= i < s.len() && s[i] == ':' {
        Some(choose|i: int|
            0 <= i < s.len() && s[i] == ':' && forall|j: int| 0 <= j < i ==> s[j] != ':')
    } else {
        None
    }
}

/// How a textual label parses: split at the first colon, or default the
/// namespace to `tag`.
pub open spec fn label_parse_spec(s: Seq<char>) -> LabelView {
    match first_colon(s) {
        Some(i) => LabelView { namespace: s.take(i), value: s.skip(i + 1) },
        None => LabelView { namespace: "tag"@, value: s },
    }
}

impl Label {
    /// A label from its two parts.
    pub fn new(namespace: &str, value: &str) -> (r: Label)
        ensures
            r@.namespace == namespace@,
            r@.value == value@,
    {
        Label { namespace: namespace.to_owned(), value: value.to_owned() }
    }

    /// Parse the external `namespace:value` form; without a colon the
    /// namespace defaults to `tag`.
    pub fn parse(s: &str) -> (r: Label)
        ensures
            r@ == label_parse_spec(s@),
    {
        let n = s.unicode_len();
        let mut i: usize = 0;
        while i < n
            invariant
                i <= n,
                n == s@.len(),
                forall|j: int| 0 <= j < i ==> s@[j] != ':',
            decreases n - i,
        {
            if s.get_char(i) == ':' {
                let ns = s.substring_char(0, i);
                let val = s.substring_char(i + 1, n);
                proof {
                    let fc = first_colon(s@);
                    assert(0 <= i < s@.len() && s@[i as int] == ':');
                    assert(fc is Some);
                    let k = fc->0;
                    assert(s@[k] == ':' && forall|j: int| 0 <= j < k ==> s@[j] != ':');
                    assert(k == i as int);
                    assert(ns@ =~= s@.take(i as int));
                    assert(val@ =~= s@.skip(i + 1));
                }
                return Label { namespace: ns.to_owned(), value: val.to_owned() };
            }
            i = i + 1;
        }
        proof {
            assert(first_colon(s@) is None);
        }
        Label { namespace: "tag".to_owned(), value: s.to_owned() }
    }

    /// Render the external `namespace:value` form.
    pub fn render(&self) -> (r: String)
        ensures
            r@ == self@.namespace + ":"@ + self@.value,
    {
        let mut out = self.namespace.clone();
        out.append(":");
        out.append(self.value.as_str());
        out
    }
}

/// Clone a label, view-exactly.
pub fn clone_label(l: &Label) -> (r: Label)
    ensures
        r@ == l@,
{
    let r = Label { namespace: l.namespace.clone(), value: l.value.clone() };
    proof {
        assert(r@ =~= l@);
    }
    r
}

/// Clone a vector of labels, view-exactly.
pub fn clone_label_vec(v: &Vec<Label>) -> (r: Vec<Label>)
    ensures
        r.deep_view() == v.deep_view(),
{
    let mut out: Vec<Label> = Vec::new();
    let mut i: usize = 0;
    while i < v.len()
        invariant
            i <= v@.len(),
            out.deep_view() == v.deep_view().take(i as int),
        decreases v@.len() - i,
    {
        let ghost prev = out.deep_view();
        let l = clone_label(&v[i]);
        assert(l@ == v.deep_view()[i as int]);
        out.push(l);
        proof {
            assert(out.deep_view() =~= prev.push(l@));
            assert(out.deep_view() =~= v.deep_view().take(i + 1));
        }
        i = i + 1;
    }
    proof {
        assert(v.deep_view().take(v@.len() as int) =~= v.deep_view());
    }
    out
}

// ---------------------------------------------------------------------------
// Concept
// ---------------------------------------------------------------------------

/// A knowledge node in a memoir; refinable, never decayed.
pub struct Concept {
    pub id: String,
    pub memoir_id: String,
    pub name: String,
    pub definition: String,
    pub labels: Vec<Label>,
    /// Thousandths; 1.0 is `CONFIDENCE_SCALE`.
    pub confidence: u32,
    pub revision: u32,
    pub created_at: i64,
    pub updated_at: i64,
    pub source_memory_ids: Vec<String>,
}

/// Specification-level image of a `Concept`.
#[verifier::ext_equal]
pub struct ConceptView {
    pub id: Seq<char>,
    pub memoir_id: Seq<char>,
    pub name: Seq<char>,
    pub definition: Seq<char>,
    pub labels: Seq<LabelView>,
    pub confidence: int,
    pub revision: int,
    pub created_at: int,
    pub updated_at: int,
    pub source_memory_ids: Seq<Seq<char>>,
}

impl DeepView for Concept {
    type V = ConceptView;

    open spec fn deep_view(&self) -> ConceptView {
        self.view()
    }
}

impl View for Concept {
    type V = ConceptView;

    open spec fn view(&self) -> ConceptView {
        ConceptView {
            id: self.id@,
            memoir_id: self.memoir_id@,
            name: self.name@,
            definition: self.definition@,
            labels: self.labels.deep_view(),
            confidence: self.confidence as int,
            revision: self.revision as int,
            created_at: self.created_at as int,
            updated_at: self.updated_at as int,
            source_memory_ids: self.source_memory_ids.deep_view(),
        }
    }
}

impl Concept {
    /// A fresh concept: revision 1, confidence 0.5, no labels or sources.
    pub fn new(memoir_id: String, name: String, definition: String) -> (r: Concept)
        ensures
            r@.id.len() == 26,
            r@.memoir_id == memoir_id@,
            r@.name == name@,
            r@.definition == definition@,
            r@.labels =~= Seq::<LabelView>::empty(),
            r@.confidence == INITIAL_CONFIDENCE as int,
            r@.revision == 1,
            r@.source_memory_ids =~= Seq::<Seq<char>>::empty(),
            r@.updated_at == r@.created_at,
    {
        let now = now_millis();
        Concept {
            id: fresh_id(),
            memoir_id,
            name,
            definition,
            labels: Vec::new(),
            confidence: INITIAL_CONFIDENCE,
            revision: 1,
            created_at: now,
            updated_at: now,
            source_memory_ids: Vec::new(),
        }
    }
}

/// Clone a concept, view-exactly.
pub fn clone_concept(c: &Concept) -> (r: Concept)
    ensures
        r@ == c@,
{
    let r = Concept {
        id: c.id.clone(),
        memoir_id: c.memoir_id.clone(),
        name: c.name.clone(),
        definition: c.definition.clone(),
        labels: clone_label_vec(&c.labels),
        confidence: c.confidence,
        revision: c.revision,
        created_at: c.created_at,
        updated_at: c.updated_at,
        source_memory_ids: crate::memory::clone_string_vec(&c.source_memory_ids),
    };
    proof {
        assert(r@ =~= c@);
    }
    r
}

// ---------------------------------------------------------------------------
// Relation
// ---------------------------------------------------------------------------

/// The closed set of edge types of the concept graph.
#[derive(Clone, Copy, PartialEq, Eq, Structural, Debug)]
pub enum Relation {
    PartOf,
    DependsOn,
    RelatedTo,
    Contradicts,
    Refines,
    AlternativeTo,
    CausedBy,
    InstanceOf,
    SupersededBy,
}

impl Relation {
    /// The canonical snake-case name of the relation.
    pub fn as_str(&self) -> (r: &'static str)
        ensures
            r@ == self.name_spec(),
    {
        match self {
            Relation::PartOf => "part_of",
            Relation::DependsOn => "depends_on",
            Relation::RelatedTo => "related_to",
            Relation::Contradicts => "contradicts",
            Relation::Refines => "refines",
            Relation::AlternativeTo => "alternative_to",
            Relation::CausedBy => "caused_by",
            Relation::InstanceOf => "instance_of",
            Relation::SupersededBy => "superseded_by",
        }
    }

    /// What `as_str` returns.
    pub open spec fn name_spec(&self) -> Seq<char> {
        match self {
            Relation::PartOf => "part_of"@,
            Relation::DependsOn => "depends_on"@,
            Relation::RelatedTo => "related_to"@,
            Relation::Contradicts => "contradicts"@,
            Relation::Refines => "refines"@,
            Relation::AlternativeTo => "alternative_to"@,
            Relation::CausedBy => "caused_by"@,
            Relation::InstanceOf => "instance_of"@,
            Relation::SupersededBy => "superseded_by"@,
        }
    }

    /// Which relation, if any, a (case-insensitive) name denotes; the
    /// underscore may be omitted.
    pub open spec fn parse_spec(s: Seq<char>) -> Option<Relation> {
        let l = crate::text::lower(s);
        if l == "part_of"@ || l == "partof"@ {
            Some(Relation::PartOf)
        } else if l == "depends_on"@ || l == "dependson"@ {
            Some(Relation::DependsOn)
        } else if l == "related_to"@ || l == "relatedto"@ {
            Some(Relation::RelatedTo)
        } else if l == "contradicts"@ {
            Some(Relation::Contradicts)
        } else if l == "refines"@ {
            Some(Relation::Refines)
        } else if l == "alternative_to"@ || l == "alternativeto"@ {
            Some(Relation::AlternativeTo)
        } else if l == "caused_by"@ || l == "causedby"@ {
            Some(Relation::CausedBy)
        } else if l == "instance_of"@ || l == "instanceof"@ {
            Some(Relation::InstanceOf)
        } else if l == "superseded_by"@ || l == "supersededby"@ {
            Some(Relation::SupersededBy)
        } else {
            None
        }
    }

    /// Parse a relation name, case-insensitively, underscore optional.
    pub fn parse(s: &str) -> (r: Option<Relation>)
        ensures
            r == Relation::parse_spec(s@),
    {
        let l0 = crate::text::to_lower(s);
        let l = l0.as_str();
        if crate::text::str_eq(l, "part_of") || crate::text::str_eq(l, "partof") {
            Some(Relation::PartOf)
        } else if crate::text::str_eq(l, "depends_on") || crate::text::str_eq(l, "dependson") {
            Some(Relation::DependsOn)
        } else if crate::text::str_eq(l, "related_to") || crate::text::str_eq(l, "relatedto") {
            Some(Relation::RelatedTo)
        } else if crate::text::str_eq(l, "contradicts") {
            Some(Relation::Contradicts)
        } else if crate::text::str_eq(l, "refines") {
            Some(Relation::Refines)
        } else if crate::text::str_eq(l, "alternative_to") || crate::text::str_eq(
            l,
            "alternativeto",
        ) {
            Some(Relation::AlternativeTo)
        } else if crate::text::str_eq(l, "caused_by") || crate::text::str_eq(l, "causedby") {
            Some(Relation::CausedBy)
        } else if crate::text::str_eq(l, "instance_of") || crate::text::str_eq(l, "instanceof") {
            Some(Relation::InstanceOf)
        } else if crate::text::str_eq(l, "superseded_by") || crate::text::str_eq(
            l,
            "supersededby",
        ) {
            Some(Relation::SupersededBy)
        } else {
            None
        }
    }
}

// ---------------------------------------------------------------------------
// ConceptLink
// ---------------------------------------------------------------------------

/// A directed typed edge between two concepts.
pub struct ConceptLink {
    pub id: String,
    pub source_id: String,
    pub target_id: String,
    pub relation: Relation,
    /// Parts-per-million.
    pub weight: u64,
    pub created_at: i64,
}

/// Specification-level image of a `ConceptLink`.
#[verifier::ext_equal]
pub struct ConceptLinkView {
    pub id: Seq<char>,
    pub source_id: Seq<char>,
    pub target_id: Seq<char>,
    pub relation: Relation,
    pub weight: int,
    pub created_at: int,
}

impl DeepView for ConceptLink {
    type V = ConceptLinkView;

    open spec fn deep_view(&self) -> ConceptLinkView {
        self.view()
    }
}

impl View for ConceptLink {
    type V = ConceptLinkView;

    open spec fn view(&self) -> ConceptLinkView {
        ConceptLinkView {
            id: self.id@,
            source_id: self.source_id@,
            target_id: self.target_id@,
            relation: self.relation,
            weight: self.weight as int,
            created_at: self.created_at as int,
        }
    }
}

impl ConceptLink {
    /// A fresh link of weight 1.0 with a new identifier.
    pub fn new(source_id: String, target_id: String, relation: Relation) -> (r: ConceptLink)
        ensures
            r@.id.len() == 26,
            r@.source_id == source_id@,
            r@.target_id == target_id@,
            r@.relation == relation,
            r@.weight == WEIGHT_SCALE as int,
    {
        ConceptLink {
            id: fresh_id(),
            source_id,
            target_id,
            relation,
            weight: WEIGHT_SCALE,
            created_at: now_millis(),
        }
    }
}

/// Clone a link, view-exactly.
pub fn clone_link(l: &ConceptLink) -> (r: ConceptLink)
    ensures
        r@ == l@,
{
    let r = ConceptLink {
        id: l.id.clone(),
        source_id: l.source_id.clone(),
        target_id: l.target_id.clone(),
        relation: l.relation,
        weight: l.weight,
        created_at: l.created_at,
    };
    proof {
        assert(r@ =~= l@);
    }
    r
}

// ---------------------------------------------------------------------------
// MemoirStats
// ---------------------------------------------------------------------------

/// Aggregate statistics over one memoir.
pub struct MemoirStats {
    pub total_concepts: usize,
    pub total_links: usize,
    /// Thousandths.
    pub avg_confidence: u32,
    /// Rendered label with its use count, most used first.
    pub label_counts: Vec<(String, usize)>,
}

} // verus!
