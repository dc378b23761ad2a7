//! The concept-graph half of the store: memoir, concept and link
//! operations, refinement, traversal and statistics.

use vstd::prelude::*;
use vstd::pervasive::VecAdditionalExecFns;

use crate::errors::{IcmError, IcmResult};
use crate::memoir::{
    clone_concept, clone_link, clone_memoir, Concept, ConceptLink, ConceptLinkView, ConceptView,
    Memoir, MemoirView,
};
use crate::store::{lemma_filter_keeps_pairwise, lemma_filter_member_at, lemma_filter_push, Store, StoreView};
use crate::text::str_eq;

verus! {

broadcast use vstd::seq_lib::group_seq_lib_default, vstd::seq_lib::group_to_multiset_ensures;

// ---------------------------------------------------------------------------
// Spec helpers over the concept-graph half
// ---------------------------------------------------------------------------

/// There is a memoir with this identifier.
pub open spec fn has_memoir(s: Seq<MemoirView>, id: Seq<char>) -> bool {
    exists|i: int| 0 <= i < s.len() && s[i].id == id
}

/// The index of the memoir with this identifier.
pub open spec fn memoir_idx(s: Seq<MemoirView>, id: Seq<char>) -> int {
    choose|i: int| 0 <= i < s.len() && s[i].id == id
}

/// The memoir with this identifier.
pub open spec fn memoir_at(s: Seq<MemoirView>, id: Seq<char>) -> MemoirView {
    s[memoir_idx(s, id)]
}

/// There is a memoir with this name.
pub open spec fn has_memoir_name(s: Seq<MemoirView>, name: Seq<char>) -> bool {
    exists|i: int| 0 <= i < s.len() && s[i].name == name
}

/// The memoir with this name.
pub open spec fn memoir_by_name(s: Seq<MemoirView>, name: Seq<char>) -> MemoirView {
    s[choose|i: int| 0 <= i < s.len() && s[i].name == name]
}

/// There is a concept with this identifier.
pub open spec fn has_concept(s: Seq<ConceptView>, id: Seq<char>) -> bool {
    exists|i: int| 0 <= i < s.len() && s[i].id == id
}

/// The index of the concept with this identifier.
pub open spec fn concept_idx(s: Seq<ConceptView>, id: Seq<char>) -> int {
    choose|i: int| 0 <= i < s.len() && s[i].id == id
}

/// The concept with this identifier.
pub open spec fn concept_at(s: Seq<ConceptView>, id: Seq<char>) -> ConceptView {
    s[concept_idx(s, id)]
}

/// There is a concept with this name inside this memoir.
pub open spec fn has_concept_name(
    s: Seq<ConceptView>,
    memoir_id: Seq<char>,
    name: Seq<char>,
) -> bool {
    exists|i: int| 0 <= i < s.len() && s[i].memoir_id == memoir_id && s[i].name == name
}

/// The concept with this name inside this memoir.
pub open spec fn concept_by_name(
    s: Seq<ConceptView>,
    memoir_id: Seq<char>,
    name: Seq<char>,
) -> ConceptView {
    s[choose|i: int| 0 <= i < s.len() && s[i].memoir_id == memoir_id && s[i].name == name]
}

/// There is a link with this identifier.
pub open spec fn has_link(s: Seq<ConceptLinkView>, id: Seq<char>) -> bool {
    exists|i: int| 0 <= i < s.len() && s[i].id == id
}

/// The index of the link with this identifier.
pub open spec fn link_idx(s: Seq<ConceptLinkView>, id: Seq<char>) -> int {
    choose|i: int| 0 <= i < s.len() && s[i].id == id
}

/// There is a link with this (source, target, relation) triple.
pub open spec fn has_link_triple(s: Seq<ConceptLinkView>, l: ConceptLinkView) -> bool {
    exists|i: int|
        0 <= i < s.len() && s[i].source_id == l.source_id && s[i].target_id == l.target_id
            && s[i].relation == l.relation
}

/// The concepts of one memoir, in store order.
pub open spec fn concepts_of(s: Seq<ConceptView>, memoir_id: Seq<char>) -> Seq<ConceptView> {
    s.filter(|c: ConceptView| c.memoir_id == memoir_id)
}

/// The links out of one concept, in store order.
pub open spec fn links_from(s: Seq<ConceptLinkView>, id: Seq<char>) -> Seq<ConceptLinkView> {
    s.filter(|l: ConceptLinkView| l.source_id == id)
}

/// The links into one concept, in store order.
pub open spec fn links_to(s: Seq<ConceptLinkView>, id: Seq<char>) -> Seq<ConceptLinkView> {
    s.filter(|l: ConceptLinkView| l.target_id == id)
}

/// Two memoirs clash when they share an identifier or a name.
pub open spec fn memoir_clash(a: MemoirView, b: MemoirView) -> bool {
    a.id == b.id || a.name == b.name
}

/// Two concepts clash when they share an identifier, or a name inside one
/// memoir.
pub open spec fn concept_clash(a: ConceptView, b: ConceptView) -> bool {
    a.id == b.id || (a.memoir_id == b.memoir_id && a.name == b.name)
}

/// Two links clash when they share an identifier or the whole
/// (source, target, relation) triple.
pub open spec fn link_clash(a: ConceptLinkView, b: ConceptLinkView) -> bool {
    a.id == b.id || (a.source_id == b.source_id && a.target_id == b.target_id && a.relation
        == b.relation)
}

/// Memoirs carry distinct identifiers and distinct names.
pub open spec fn memoirs_wf(memoirs: Seq<MemoirView>) -> bool {
    forall|i: int, j: int|
        #![trigger memoirs[i], memoirs[j]]
        0 <= i < j < memoirs.len() ==> !memoir_clash(memoirs[i], memoirs[j])
}

/// Concepts carry distinct identifiers, unique names per memoir, and
/// belong to existing memoirs.
pub open spec fn concepts_wf(memoirs: Seq<MemoirView>, concepts: Seq<ConceptView>) -> bool {
    &&& forall|i: int, j: int|
        #![trigger concepts[i], concepts[j]]
        0 <= i < j < concepts.len() ==> !concept_clash(concepts[i], concepts[j])
    &&& forall|i: int|
        0 <= i < concepts.len() ==> has_memoir(memoirs, #[trigger] concepts[i].memoir_id)
}

/// Links carry distinct identifiers and triples, join two distinct
/// existing concepts.
pub open spec fn links_wf(concepts: Seq<ConceptView>, links: Seq<ConceptLinkView>) -> bool {
    &&& forall|i: int, j: int|
        #![trigger links[i], links[j]]
        0 <= i < j < links.len() ==> !link_clash(links[i], links[j])
    &&& forall|i: int|
        0 <= i < links.len() ==> has_concept(concepts, #[trigger] links[i].source_id)
            && has_concept(concepts, links[i].target_id) && links[i].source_id
            != links[i].target_id
}

/// Well-formedness of the concept-graph half: distinct identifiers and
/// names, endpoints that exist, no self-links, unique link triples.
pub open spec fn memoir_side_wf(v: StoreView) -> bool {
    &&& memoirs_wf(v.memoirs)
    &&& concepts_wf(v.memoirs, v.concepts)
    &&& links_wf(v.concepts, v.links)
}

/// Some existing memoir clashes with this one.
pub open spec fn some_memoir_clash(s: Seq<MemoirView>, m: MemoirView) -> bool {
    exists|i: int| 0 <= i < s.len() && memoir_clash(#[trigger] s[i], m)
}

/// Some existing concept clashes with this one.
pub open spec fn some_concept_clash(s: Seq<ConceptView>, c: ConceptView) -> bool {
    exists|i: int| 0 <= i < s.len() && concept_clash(#[trigger] s[i], c)
}

/// Some existing link clashes with this one.
pub open spec fn some_link_clash(s: Seq<ConceptLinkView>, l: ConceptLinkView) -> bool {
    exists|i: int| 0 <= i < s.len() && link_clash(#[trigger] s[i], l)
}

/// Another memoir (a different identifier) already carries this name.
pub open spec fn name_taken_by_other(s: Seq<MemoirView>, name: Seq<char>, id: Seq<char>) -> bool {
    exists|i: int| 0 <= i < s.len() && (#[trigger] s[i]).name == name && s[i].id != id
}

/// Another concept of the memoir (a different identifier) already carries
/// this name.
pub open spec fn concept_name_taken_by_other(
    s: Seq<ConceptView>,
    memoir_id: Seq<char>,
    name: Seq<char>,
    id: Seq<char>,
) -> bool {
    exists|i: int|
        0 <= i < s.len() && (#[trigger] s[i]).memoir_id == memoir_id && s[i].name == name
            && s[i].id != id
}

/// The concepts that survive deleting a memoir.
pub open spec fn concepts_outside(s: Seq<ConceptView>, memoir_id: Seq<char>) -> Seq<ConceptView> {
    s.filter(|c: ConceptView| c.memoir_id != memoir_id)
}

/// The links whose two endpoints are both among the given concepts.
pub open spec fn links_within(
    s: Seq<ConceptLinkView>,
    concepts: Seq<ConceptView>,
) -> Seq<ConceptLinkView> {
    s.filter(
        |l: ConceptLinkView| has_concept(concepts, l.source_id) && has_concept(
            concepts,
            l.target_id,
        ),
    )
}

/// The links that touch neither side of this concept.
pub open spec fn links_avoiding(s: Seq<ConceptLinkView>, id: Seq<char>) -> Seq<ConceptLinkView> {
    s.filter(|l: ConceptLinkView| l.source_id != id && l.target_id != id)
}

// ---------------------------------------------------------------------------
// Lookup helpers
// ---------------------------------------------------------------------------

/// Does this concept list hold the identifier?
pub(crate) fn concept_vec_has_id(v: &Vec<Concept>, id: &str) -> (r: bool)
    ensures
        r == has_concept(v.deep_view(), id@),
{
    let mut i: usize = 0;
    while i < v.len()
        invariant
            i <= v@.len(),
            forall|k: int| 0 <= k < i ==> v.deep_view()[k].id != id@,
        decreases v@.len() - i,
    {
        if str_eq(v[i].id.as_str(), id) {
            proof {
                assert(has_concept(v.deep_view(), id@)) by {
                    assert(v.deep_view()[i as int].id == id@);
                }
            }
            return true;
        }
        i = i + 1;
    }
    false
}

impl Store {
    /// Locate a memoir by identifier.
    fn find_memoir_index(&self, id: &str) -> (r: Option<usize>)
        ensures
            match r {
                Some(i) => i < self@.memoirs.len() && self@.memoirs[i as int].id == id@
                    && has_memoir(self@.memoirs, id@),
                None => !has_memoir(self@.memoirs, id@),
            },
    {
        let mut i: usize = 0;
        while i < self.memoirs.len()
            invariant
                i <= self@.memoirs.len(),
                forall|k: int| 0 <= k < i ==> self@.memoirs[k].id != id@,
            decreases self@.memoirs.len() - i,
        {
            if str_eq(self.memoirs[i].id.as_str(), id) {
                proof {
                    assert(has_memoir(self@.memoirs, id@)) by {
                        assert(self@.memoirs[i as int].id == id@);
                    }
                }
                return Some(i);
            }
            i = i + 1;
        }
        None
    }

    /// Locate a memoir by name.
    fn find_memoir_name_index(&self, name: &str) -> (r: Option<usize>)
        ensures
            match r {
                Some(i) => i < self@.memoirs.len() && self@.memoirs[i as int].name == name@
                    && has_memoir_name(self@.memoirs, name@),
                None => !has_memoir_name(self@.memoirs, name@),
            },
    {
        let mut i: usize = 0;
        while i < self.memoirs.len()
            invariant
                i <= self@.memoirs.len(),
                forall|k: int| 0 <= k < i ==> self@.memoirs[k].name != name@,
            decreases self@.memoirs.len() - i,
        {
            if str_eq(self.memoirs[i].name.as_str(), name) {
                proof {
                    assert(has_memoir_name(self@.memoirs, name@)) by {
                        assert(self@.memoirs[i as int].name == name@);
                    }
                }
                return Some(i);
            }
            i = i + 1;
        }
        None
    }

    /// Locate a concept by identifier.
    fn find_concept_index(&self, id: &str) -> (r: Option<usize>)
        ensures
            match r {
                Some(i) => i < self@.concepts.len() && self@.concepts[i as int].id == id@
                    && has_concept(self@.concepts, id@),
                None => !has_concept(self@.concepts, id@),
            },
    {
        let mut i: usize = 0;
        while i < self.concepts.len()
            invariant
                i <= self@.concepts.len(),
                forall|k: int| 0 <= k < i ==> self@.concepts[k].id != id@,
            decreases self@.concepts.len() - i,
        {
            if str_eq(self.concepts[i].id.as_str(), id) {
                proof {
                    assert(has_concept(self@.concepts, id@)) by {
                        assert(self@.concepts[i as int].id == id@);
                    }
                }
                return Some(i);
            }
            i = i + 1;
        }
        None
    }

    /// Locate a concept by name within a memoir.
    fn find_concept_name_index(&self, memoir_id: &str, name: &str) -> (r: Option<usize>)
        ensures
            match r {
                Some(i) => i < self@.concepts.len() && self@.concepts[i as int].memoir_id
                    == memoir_id@ && self@.concepts[i as int].name == name@ && has_concept_name(
                    self@.concepts,
                    memoir_id@,
                    name@,
                ),
                None => !has_concept_name(self@.concepts, memoir_id@, name@),
            },
    {
        let mut i: usize = 0;
        while i < self.concepts.len()
            invariant
                i <= self@.concepts.len(),
                forall|k: int|
                    0 <= k < i ==> !((#[trigger] self@.concepts[k]).memoir_id == memoir_id@
                        && self@.concepts[k].name == name@),
            decreases self@.concepts.len() - i,
        {
            if str_eq(self.concepts[i].memoir_id.as_str(), memoir_id) && str_eq(
                self.concepts[i].name.as_str(),
                name,
            ) {
                proof {
                    assert(has_concept_name(self@.concepts, memoir_id@, name@)) by {
                        assert(self@.concepts[i as int].memoir_id == memoir_id@
                            && self@.concepts[i as int].name == name@);
                    }
                }
                return Some(i);
            }
            i = i + 1;
        }
        None
    }

    /// Locate a link by identifier.
    fn find_link_index(&self, id: &str) -> (r: Option<usize>)
        ensures
            match r {
                Some(i) => i < self@.links.len() && self@.links[i as int].id == id@ && has_link(
                    self@.links,
                    id@,
                ),
                None => !has_link(self@.links, id@),
            },
    {
        let mut i: usize = 0;
        while i < self.links.len()
            invariant
                i <= self@.links.len(),
                forall|k: int| 0 <= k < i ==> self@.links[k].id != id@,
            decreases self@.links.len() - i,
        {
            if str_eq(self.links[i].id.as_str(), id) {
                proof {
                    assert(has_link(self@.links, id@)) by {
                        assert(self@.links[i as int].id == id@);
                    }
                }
                return Some(i);
            }
            i = i + 1;
        }
        None
    }

    /// Does any memoir clash (by identifier or name) with this one?
    fn find_memoir_clash(&self, m: &Memoir) -> (r: bool)
        ensures
            r == some_memoir_clash(self@.memoirs, m@),
    {
        let mut i: usize = 0;
        while i < self.memoirs.len()
            invariant
                i <= self@.memoirs.len(),
                forall|k: int| 0 <= k < i ==> !memoir_clash(#[trigger] self@.memoirs[k], m@),
            decreases self@.memoirs.len() - i,
        {
            if str_eq(self.memoirs[i].id.as_str(), m.id.as_str()) || str_eq(
                self.memoirs[i].name.as_str(),
                m.name.as_str(),
            ) {
                proof {
                    assert(memoir_clash(self@.memoirs[i as int], m@));
                }
                return true;
            }
            i = i + 1;
        }
        false
    }

    /// Does any concept clash (by identifier, or name within the memoir)
    /// with this one?
    fn find_concept_clash(&self, c: &Concept) -> (r: bool)
        ensures
            r == some_concept_clash(self@.concepts, c@),
    {
        let mut i: usize = 0;
        while i < self.concepts.len()
            invariant
                i <= self@.concepts.len(),
                forall|k: int| 0 <= k < i ==> !concept_clash(#[trigger] self@.concepts[k], c@),
            decreases self@.concepts.len() - i,
        {
            if str_eq(self.concepts[i].id.as_str(), c.id.as_str()) || (str_eq(
                self.concepts[i].memoir_id.as_str(),
                c.memoir_id.as_str(),
            ) && str_eq(self.concepts[i].name.as_str(), c.name.as_str())) {
                proof {
                    assert(concept_clash(self@.concepts[i as int], c@));
                }
                return true;
            }
            i = i + 1;
        }
        false
    }

    /// Create a memoir; its identifier and name must both be new.
    pub fn create_memoir(&mut self, memoir: Memoir) -> (r: IcmResult<String>)
        requires
            old(self).wf(),
        ensures
            final(self).wf(),
            final(self)@.mems == old(self)@.mems,
            final(self)@.concepts == old(self)@.concepts,
            final(self)@.links == old(self)@.links,
            match r {
                Ok(id) => !some_memoir_clash(old(self)@.memoirs, memoir@) && id@ == memoir@.id
                    && final(self)@.memoirs == old(self)@.memoirs.push(memoir@),
                Err(e) => e is Database && some_memoir_clash(old(self)@.memoirs, memoir@)
                    && final(self)@ == old(self)@,
            },
    {
        if self.find_memoir_clash(&memoir) {
            return Err(IcmError::Database("unique constraint failed: memoirs".to_owned()));
        }
        let id = memoir.id.clone();
        let ghost pre = self@;
        self.memoirs.push(memoir);
        proof {
            assert(self@.memoirs =~= pre.memoirs.push(memoir@));
            assert(self@.mems =~= pre.mems);
            assert(self@.concepts =~= pre.concepts);
            assert(self@.links =~= pre.links);
            assert(memoirs_wf(self@.memoirs));
            assert forall|i: int|
                0 <= i < self@.concepts.len() implies has_memoir(
                self@.memoirs,
                #[trigger] self@.concepts[i].memoir_id,
            ) by {
                let j = choose|j: int|
                    0 <= j < pre.memoirs.len() && pre.memoirs[j].id == self@.concepts[i].memoir_id;
                assert(self@.memoirs[j].id == self@.concepts[i].memoir_id);
            }
        }
        Ok(id)
    }

    /// Fetch a memoir by identifier.
    pub fn get_memoir(&self, id: &str) -> (r: IcmResult<Option<Memoir>>)
        requires
            self.wf(),
        ensures
            match r {
                Ok(Some(m)) => has_memoir(self@.memoirs, id@) && m@ == memoir_at(
                    self@.memoirs,
                    id@,
                ) && m@.id == id@,
                Ok(None) => !has_memoir(self@.memoirs, id@),
                Err(_) => false,
            },
    {
        match self.find_memoir_index(id) {
            Some(i) => {
                let m = clone_memoir(&self.memoirs[i]);
                proof {
                    let j = memoir_idx(self@.memoirs, id@);
                    assert(self@.memoirs[j].id == id@);
                    assert(j == i as int);
                }
                Ok(Some(m))
            },
            None => Ok(None),
        }
    }

    /// Fetch a memoir by name.
    pub fn get_memoir_by_name(&self, name: &str) -> (r: IcmResult<Option<Memoir>>)
        requires
            self.wf(),
        ensures
            match r {
                Ok(Some(m)) => has_memoir_name(self@.memoirs, name@) && m@ == memoir_by_name(
                    self@.memoirs,
                    name@,
                ) && m@.name == name@,
                Ok(None) => !has_memoir_name(self@.memoirs, name@),
                Err(_) => false,
            },
    {
        match self.find_memoir_name_index(name) {
            Some(i) => {
                let m = clone_memoir(&self.memoirs[i]);
                proof {
                    let j = choose|j: int|
                        0 <= j < self@.memoirs.len() && self@.memoirs[j].name == name@;
                    assert(j == i as int);
                }
                Ok(Some(m))
            },
            None => Ok(None),
        }
    }

    /// Overwrite the memoir carrying `memoir.id`; `NotFound` when absent,
    /// `Database` when the new name belongs to another memoir.
    pub fn update_memoir(&mut self, memoir: &Memoir) -> (r: IcmResult<()>)
        requires
            old(self).wf(),
        ensures
            final(self).wf(),
            final(self)@.mems == old(self)@.mems,
            final(self)@.concepts == old(self)@.concepts,
            final(self)@.links == old(self)@.links,
            match r {
                Ok(()) => has_memoir(old(self)@.memoirs, memoir@.id) && !name_taken_by_other(
                    old(self)@.memoirs,
                    memoir@.name,
                    memoir@.id,
                ) && final(self)@.memoirs == old(self)@.memoirs.update(
                    memoir_idx(old(self)@.memoirs, memoir@.id),
                    memoir@,
                ),
                Err(e) => final(self)@ == old(self)@ && ((e is NotFound && !has_memoir(
                    old(self)@.memoirs,
                    memoir@.id,
                )) || (e is Database && name_taken_by_other(
                    old(self)@.memoirs,
                    memoir@.name,
                    memoir@.id,
                ))),
            },
    {
        let mut i: usize = 0;
        while i < self.memoirs.len()
            invariant
                i <= self@.memoirs.len(),
                self@ == old(self)@,
                self.wf(),
                forall|k: int|
                    0 <= k < i ==> !((#[trigger] self@.memoirs[k]).name == memoir@.name
                        && self@.memoirs[k].id != memoir@.id),
            decreases self@.memoirs.len() - i,
        {
            if str_eq(self.memoirs[i].name.as_str(), memoir.name.as_str()) && !str_eq(
                self.memoirs[i].id.as_str(),
                memoir.id.as_str(),
            ) {
                proof {
                    assert(name_taken_by_other(self@.memoirs, memoir@.name, memoir@.id)) by {
                        assert((self@.memoirs[i as int]).name == memoir@.name
                            && self@.memoirs[i as int].id != memoir@.id);
                    }
                }
                return Err(IcmError::Database("unique constraint failed: memoirs.name".to_owned()));
            }
            i = i + 1;
        }
        match self.find_memoir_index(memoir.id.as_str()) {
            Some(idx) => {
                let ghost pre = self@;
                let m = clone_memoir(memoir);
                self.memoirs.set(idx, m);
                proof {
                    let j = memoir_idx(pre.memoirs, memoir@.id);
                    assert(pre.memoirs[j].id == memoir@.id);
                    assert(j == idx as int);
                    assert(self@.memoirs =~= pre.memoirs.update(idx as int, memoir@));
                    assert(self@.mems =~= pre.mems);
                    assert(self@.concepts =~= pre.concepts);
                    assert(self@.links =~= pre.links);
                    assert forall|a: int, b: int|
                        #![trigger self@.memoirs[a], self@.memoirs[b]]
                        0 <= a < b < self@.memoirs.len() implies !memoir_clash(
                        self@.memoirs[a],
                        self@.memoirs[b],
                    ) by {
                        if a == idx as int {
                            assert(pre.memoirs[b].id != memoir@.id);
                            assert(pre.memoirs[b].name != memoir@.name);
                        } else if b == idx as int {
                            assert(pre.memoirs[a].id != memoir@.id);
                            assert(pre.memoirs[a].name != memoir@.name);
                        } else {
                            assert(!memoir_clash(pre.memoirs[a], pre.memoirs[b]));
                        }
                    }
                    assert forall|c: int|
                        0 <= c < self@.concepts.len() implies has_memoir(
                        self@.memoirs,
                        #[trigger] self@.concepts[c].memoir_id,
                    ) by {
                        let w = choose|w: int|
                            0 <= w < pre.memoirs.len() && pre.memoirs[w].id
                                == self@.concepts[c].memoir_id;
                        if w == idx as int {
                            assert(self@.memoirs[w].id == memoir@.id);
                        } else {
                            assert(self@.memoirs[w].id == self@.concepts[c].memoir_id);
                        }
                    }
                }
                Ok(())
            },
            None => Err(IcmError::NotFound(memoir.id.clone())),
        }
    }

    /// Delete a memoir and cascade to its concepts and their links;
    /// `NotFound` when absent.
    pub fn delete_memoir(&mut self, id: &str) -> (r: IcmResult<()>)
        requires
            old(self).wf(),
        ensures
            final(self).wf(),
            final(self)@.mems == old(self)@.mems,
            match r {
                Ok(()) => {
                    &&& has_memoir(old(self)@.memoirs, id@)
                    &&& final(self)@.memoirs == old(self)@.memoirs.remove(
                        memoir_idx(old(self)@.memoirs, id@),
                    )
                    &&& final(self)@.concepts == concepts_outside(old(self)@.concepts, id@)
                    &&& final(self)@.links == links_within(
                        old(self)@.links,
                        concepts_outside(old(self)@.concepts, id@),
                    )
                },
                Err(e) => e is NotFound && !has_memoir(old(self)@.memoirs, id@) && final(self)@
                    == old(self)@,
            },
    {
        let idx = match self.find_memoir_index(id) {
            Some(i) => i,
            None => {
                return Err(IcmError::NotFound(id.to_owned()));
            },
        };
        let ghost pre = self@;
        // keep the concepts of other memoirs
        let mut kept: Vec<Concept> = Vec::new();
        let mut i: usize = 0;
        proof {
            assert(pre.concepts.take(0) =~= Seq::<ConceptView>::empty());
            assert(kept.deep_view() =~= concepts_outside(pre.concepts.take(0), id@));
        }
        while i < self.concepts.len()
            invariant
                i <= pre.concepts.len(),
                self@ == pre,
                kept.deep_view() == concepts_outside(pre.concepts.take(i as int), id@),
            decreases pre.concepts.len() - i,
        {
            proof {
                assert(pre.concepts.take(i + 1) =~= pre.concepts.take(i as int).push(
                    pre.concepts[i as int],
                ));
                lemma_filter_push(
                    pre.concepts.take(i as int),
                    |c: ConceptView| c.memoir_id != id@,
                    pre.concepts[i as int],
                );
            }
            let ghost prevk = kept.deep_view();
            if !str_eq(self.concepts[i].memoir_id.as_str(), id) {
                kept.push(clone_concept(&self.concepts[i]));
                proof {
                    assert(kept.deep_view() =~= prevk.push(pre.concepts[i as int]));
                }
            }
            i = i + 1;
        }
        proof {
            assert(pre.concepts.take(pre.concepts.len() as int) =~= pre.concepts);
        }
        let ghost keptv = kept.deep_view();
        // keep the links whose endpoints both survive
        let mut kept_links: Vec<ConceptLink> = Vec::new();
        let mut j: usize = 0;
        proof {
            assert(pre.links.take(0) =~= Seq::<ConceptLinkView>::empty());
            assert(kept_links.deep_view() =~= links_within(pre.links.take(0), keptv));
        }
        while j < self.links.len()
            invariant
                j <= pre.links.len(),
                self@ == pre,
                kept.deep_view() == keptv,
                kept_links.deep_view() == links_within(pre.links.take(j as int), keptv),
            decreases pre.links.len() - j,
        {
            proof {
                assert(pre.links.take(j + 1) =~= pre.links.take(j as int).push(
                    pre.links[j as int],
                ));
                lemma_filter_push(
                    pre.links.take(j as int),
                    |l: ConceptLinkView| has_concept(keptv, l.source_id) && has_concept(
                        keptv,
                        l.target_id,
                    ),
                    pre.links[j as int],
                );
            }
            let ghost prevl = kept_links.deep_view();
            let src_ok = concept_vec_has_id(&kept, self.links[j].source_id.as_str());
            let tgt_ok = concept_vec_has_id(&kept, self.links[j].target_id.as_str());
            if src_ok && tgt_ok {
                kept_links.push(clone_link(&self.links[j]));
                proof {
                    assert(kept_links.deep_view() =~= prevl.push(pre.links[j as int]));
                }
            }
            j = j + 1;
        }
        proof {
            assert(pre.links.take(pre.links.len() as int) =~= pre.links);
        }
        self.memoirs.remove(idx);
        self.concepts = kept;
        self.links = kept_links;
        proof {
            let mi = memoir_idx(pre.memoirs, id@);
            assert(pre.memoirs[mi].id == id@);
            assert(mi == idx as int);
            assert(self@.memoirs =~= pre.memoirs.remove(idx as int));
            assert(self@.mems =~= pre.mems);
            lemma_memoir_cascade_wf(pre, id@, idx as int);
        }
        Ok(())
    }

    /// List all memoirs (the caller orders them as needed).
    pub fn list_memoirs_unordered(&self) -> (r: Vec<Memoir>)
        requires
            self.wf(),
        ensures
            r.deep_view() == self@.memoirs,
    {
        let mut out: Vec<Memoir> = Vec::new();
        let mut i: usize = 0;
        proof {
            assert(out.deep_view() =~= self@.memoirs.take(0));
        }
        while i < self.memoirs.len()
            invariant
                i <= self@.memoirs.len(),
                out.deep_view() == self@.memoirs.take(i as int),
            decreases self@.memoirs.len() - i,
        {
            let ghost prev = out.deep_view();
            out.push(clone_memoir(&self.memoirs[i]));
            proof {
                assert(out.deep_view() =~= prev.push(self@.memoirs[i as int]));
                assert(out.deep_view() =~= self@.memoirs.take(i + 1));
            }
            i = i + 1;
        }
        proof {
            assert(self@.memoirs.take(self@.memoirs.len() as int) =~= self@.memoirs);
        }
        out
    }
}

/// What a refinement does to a concept: new definition, revision up by
/// one, confidence up one step (clamped), sources union-appended, a fresh
/// update instant.
pub open spec fn refined_concept(
    c: ConceptView,
    definition: Seq<char>,
    new_sources: Seq<Seq<char>>,
    now: int,
) -> ConceptView {
    ConceptView {
        definition: definition,
        revision: c.revision + 1,
        confidence: if c.confidence + crate::memoir::REFINE_CONFIDENCE_STEP
            > crate::memoir::CONFIDENCE_SCALE {
            crate::memoir::CONFIDENCE_SCALE as int
        } else {
            c.confidence + crate::memoir::REFINE_CONFIDENCE_STEP
        },
        source_memory_ids: merge_sources(c.source_memory_ids, new_sources),
        updated_at: now,
        ..c
    }
}

/// Union-append: keep the base order, then append each new entry that is
/// not already present, in order, once.
pub open spec fn merge_sources(base: Seq<Seq<char>>, add: Seq<Seq<char>>) -> Seq<Seq<char>>
    decreases add.len(),
{
    if add.len() == 0 {
        base
    } else {
        let rest = merge_sources(base, add.drop_last());
        if rest.contains(add.last()) {
            rest
        } else {
            rest.push(add.last())
        }
    }
}

impl Store {
    /// Add a concept; its memoir must exist and neither its identifier
    /// nor its name within the memoir may be taken.
    pub fn add_concept(&mut self, concept: Concept) -> (r: IcmResult<String>)
        requires
            old(self).wf(),
        ensures
            final(self).wf(),
            final(self)@.mems == old(self)@.mems,
            final(self)@.memoirs == old(self)@.memoirs,
            final(self)@.links == old(self)@.links,
            match r {
                Ok(id) => has_memoir(old(self)@.memoirs, concept@.memoir_id)
                    && !some_concept_clash(old(self)@.concepts, concept@) && id@ == concept@.id
                    && final(self)@.concepts == old(self)@.concepts.push(concept@),
                Err(e) => e is Database && final(self)@ == old(self)@ && (!has_memoir(
                    old(self)@.memoirs,
                    concept@.memoir_id,
                ) || some_concept_clash(old(self)@.concepts, concept@)),
            },
    {
        if self.find_memoir_index(concept.memoir_id.as_str()).is_none() {
            return Err(IcmError::Database("foreign key constraint failed: concepts.memoir_id".to_owned()));
        }
        if self.find_concept_clash(&concept) {
            return Err(IcmError::Database("unique constraint failed: concepts".to_owned()));
        }
        let id = concept.id.clone();
        let ghost pre = self@;
        self.concepts.push(concept);
        proof {
            assert(self@.concepts =~= pre.concepts.push(concept@));
            assert(self@.mems =~= pre.mems);
            assert(self@.memoirs =~= pre.memoirs);
            assert(self@.links =~= pre.links);
            assert forall|i: int| 0 <= i < self@.links.len() implies has_concept(
                self@.concepts,
                #[trigger] self@.links[i].source_id,
            ) && has_concept(self@.concepts, self@.links[i].target_id) by {
                let a = choose|a: int|
                    0 <= a < pre.concepts.len() && pre.concepts[a].id == self@.links[i].source_id;
                assert(self@.concepts[a].id == self@.links[i].source_id);
                let b = choose|b: int|
                    0 <= b < pre.concepts.len() && pre.concepts[b].id == self@.links[i].target_id;
                assert(self@.concepts[b].id == self@.links[i].target_id);
            }
        }
        Ok(id)
    }

    /// Fetch a concept by identifier.
    pub fn get_concept(&self, id: &str) -> (r: IcmResult<Option<Concept>>)
        requires
            self.wf(),
        ensures
            match r {
                Ok(Some(c)) => has_concept(self@.concepts, id@) && c@ == concept_at(
                    self@.concepts,
                    id@,
                ) && c@.id == id@,
                Ok(None) => !has_concept(self@.concepts, id@),
                Err(_) => false,
            },
    {
        match self.find_concept_index(id) {
            Some(i) => {
                let c = clone_concept(&self.concepts[i]);
                proof {
                    let j = concept_idx(self@.concepts, id@);
                    assert(self@.concepts[j].id == id@);
                    assert(j == i as int);
                }
                Ok(Some(c))
            },
            None => Ok(None),
        }
    }

    /// Fetch a concept by name within a memoir.
    pub fn get_concept_by_name(&self, memoir_id: &str, name: &str) -> (r: IcmResult<
        Option<Concept>,
    >)
        requires
            self.wf(),
        ensures
            match r {
                Ok(Some(c)) => has_concept_name(self@.concepts, memoir_id@, name@) && c@
                    == concept_by_name(self@.concepts, memoir_id@, name@) && c@.memoir_id
                    == memoir_id@ && c@.name == name@,
                Ok(None) => !has_concept_name(self@.concepts, memoir_id@, name@),
                Err(_) => false,
            },
    {
        match self.find_concept_name_index(memoir_id, name) {
            Some(i) => {
                let c = clone_concept(&self.concepts[i]);
                proof {
                    let j = choose|j: int|
                        0 <= j < self@.concepts.len() && self@.concepts[j].memoir_id == memoir_id@
                            && self@.concepts[j].name == name@;
                    assert(j == i as int);
                }
                Ok(Some(c))
            },
            None => Ok(None),
        }
    }

    /// Overwrite the concept carrying `concept.id` with the argument's
    /// fields, keeping the stored creation instant; `NotFound` when
    /// absent, `Database` when its name would collide or its memoir is
    /// missing.
    pub fn update_concept(&mut self, concept: &Concept) -> (r: IcmResult<()>)
        requires
            old(self).wf(),
        ensures
            final(self).wf(),
            final(self)@.mems == old(self)@.mems,
            final(self)@.memoirs == old(self)@.memoirs,
            final(self)@.links == old(self)@.links,
            match r {
                Ok(()) => has_concept(old(self)@.concepts, concept@.id)
                    && !concept_name_taken_by_other(
                    old(self)@.concepts,
                    concept@.memoir_id,
                    concept@.name,
                    concept@.id,
                ) && has_memoir(old(self)@.memoirs, concept@.memoir_id)
                    && final(self)@.concepts == old(self)@.concepts.update(
                    concept_idx(old(self)@.concepts, concept@.id),
                    (ConceptView {
                        created_at: old(self)@.concepts[concept_idx(
                            old(self)@.concepts,
                            concept@.id,
                        )].created_at,
                        ..concept@
                    }),
                ),
                Err(e) => final(self)@ == old(self)@ && ((e is NotFound && !has_concept(
                    old(self)@.concepts,
                    concept@.id,
                )) || (e is Database && (concept_name_taken_by_other(
                    old(self)@.concepts,
                    concept@.memoir_id,
                    concept@.name,
                    concept@.id,
                ) || !has_memoir(old(self)@.memoirs, concept@.memoir_id)))),
            },
    {
        if self.find_memoir_index(concept.memoir_id.as_str()).is_none() {
            return Err(IcmError::Database("foreign key constraint failed: concepts.memoir_id".to_owned()));
        }
        let mut i: usize = 0;
        while i < self.concepts.len()
            invariant
                i <= self@.concepts.len(),
                self@ == old(self)@,
                self.wf(),
                forall|k: int|
                    0 <= k < i ==> !((#[trigger] self@.concepts[k]).memoir_id == concept@.memoir_id
                        && self@.concepts[k].name == concept@.name && self@.concepts[k].id
                        != concept@.id),
            decreases self@.concepts.len() - i,
        {
            if str_eq(self.concepts[i].memoir_id.as_str(), concept.memoir_id.as_str()) && str_eq(
                self.concepts[i].name.as_str(),
                concept.name.as_str(),
            ) && !str_eq(self.concepts[i].id.as_str(), concept.id.as_str()) {
                proof {
                    assert(concept_name_taken_by_other(
                        self@.concepts,
                        concept@.memoir_id,
                        concept@.name,
                        concept@.id,
                    )) by {
                        assert((self@.concepts[i as int]).memoir_id == concept@.memoir_id
                            && self@.concepts[i as int].name == concept@.name
                            && self@.concepts[i as int].id != concept@.id);
                    }
                }
                return Err(IcmError::Database("unique constraint failed: concepts".to_owned()));
            }
            i = i + 1;
        }
        match self.find_concept_index(concept.id.as_str()) {
            Some(idx) => {
                let ghost pre = self@;
                let mut c = clone_concept(concept);
                c.created_at = self.concepts[idx].created_at;
                self.concepts.set(idx, c);
                proof {
                    let j = concept_idx(pre.concepts, concept@.id);
                    assert(pre.concepts[j].id == concept@.id);
                    assert(j == idx as int);
                    assert(self@.concepts =~= pre.concepts.update(
                        idx as int,
                        (ConceptView { created_at: pre.concepts[idx as int].created_at, ..concept@ }),
                    ));
                    assert(self@.mems =~= pre.mems);
                    assert(self@.memoirs =~= pre.memoirs);
                    assert(self@.links =~= pre.links);
                    lemma_concept_update_wf(
                        pre,
                        (ConceptView { created_at: pre.concepts[idx as int].created_at, ..concept@ }),
                        idx as int,
                    );
                }
                Ok(())
            },
            None => Err(IcmError::NotFound(concept.id.clone())),
        }
    }

    /// Remove a concept and cascade to its incident links; `NotFound`
    /// when absent.
    pub fn delete_concept(&mut self, id: &str) -> (r: IcmResult<()>)
        requires
            old(self).wf(),
        ensures
            final(self).wf(),
            final(self)@.mems == old(self)@.mems,
            final(self)@.memoirs == old(self)@.memoirs,
            match r {
                Ok(()) => has_concept(old(self)@.concepts, id@) && final(self)@.concepts == old(self)@.concepts.remove(concept_idx(old(self)@.concepts, id@)) && final(self)@.links
                    == links_avoiding(old(self)@.links, id@),
                Err(e) => e is NotFound && !has_concept(old(self)@.concepts, id@) && final(self)@ == old(self)@,
            },
    {
        let idx = match self.find_concept_index(id) {
            Some(i) => i,
            None => {
                return Err(IcmError::NotFound(id.to_owned()));
            },
        };
        let ghost pre = self@;
        let mut kept_links: Vec<ConceptLink> = Vec::new();
        let mut j: usize = 0;
        proof {
            assert(pre.links.take(0) =~= Seq::<ConceptLinkView>::empty());
            assert(kept_links.deep_view() =~= links_avoiding(pre.links.take(0), id@));
        }
        while j < self.links.len()
            invariant
                j <= pre.links.len(),
                self@ == pre,
                kept_links.deep_view() == links_avoiding(pre.links.take(j as int), id@),
            decreases pre.links.len() - j,
        {
            proof {
                assert(pre.links.take(j + 1) =~= pre.links.take(j as int).push(
                    pre.links[j as int],
                ));
                lemma_filter_push(
                    pre.links.take(j as int),
                    |l: ConceptLinkView| l.source_id != id@ && l.target_id != id@,
                    pre.links[j as int],
                );
            }
            let ghost prevl = kept_links.deep_view();
            if !str_eq(self.links[j].source_id.as_str(), id) && !str_eq(
                self.links[j].target_id.as_str(),
                id,
            ) {
                kept_links.push(clone_link(&self.links[j]));
                proof {
                    assert(kept_links.deep_view() =~= prevl.push(pre.links[j as int]));
                }
            }
            j = j + 1;
        }
        proof {
            assert(pre.links.take(pre.links.len() as int) =~= pre.links);
        }
        self.concepts.remove(idx);
        self.links = kept_links;
        proof {
            let ci = concept_idx(pre.concepts, id@);
            assert(pre.concepts[ci].id == id@);
            assert(ci == idx as int);
            assert(self@.concepts =~= pre.concepts.remove(idx as int));
            assert(self@.mems =~= pre.mems);
            assert(self@.memoirs =~= pre.memoirs);
            lemma_concept_delete_wf(pre, id@, idx as int);
        }
        Ok(())
    }

    /// All concepts of a memoir, in store order.
    pub fn list_concepts_unordered(&self, memoir_id: &str) -> (r: Vec<Concept>)
        requires
            self.wf(),
        ensures
            r.deep_view() == concepts_of(self@.concepts, memoir_id@),
    {
        let ghost all = self@.concepts;
        let mut out: Vec<Concept> = Vec::new();
        let mut i: usize = 0;
        proof {
            assert(all.take(0) =~= Seq::<ConceptView>::empty());
            assert(out.deep_view() =~= concepts_of(all.take(0), memoir_id@));
        }
        while i < self.concepts.len()
            invariant
                i <= all.len(),
                self.concepts.deep_view() == all,
                out.deep_view() == concepts_of(all.take(i as int), memoir_id@),
            decreases all.len() - i,
        {
            proof {
                assert(all.take(i + 1) =~= all.take(i as int).push(all[i as int]));
                lemma_filter_push(
                    all.take(i as int),
                    |c: ConceptView| c.memoir_id == memoir_id@,
                    all[i as int],
                );
            }
            let ghost prev = out.deep_view();
            if str_eq(self.concepts[i].memoir_id.as_str(), memoir_id) {
                out.push(clone_concept(&self.concepts[i]));
                proof {
                    assert(out.deep_view() =~= prev.push(all[i as int]));
                }
            }
            i = i + 1;
        }
        proof {
            assert(all.take(all.len() as int) =~= all);
        }
        out
    }

    /// Refine a concept: replace its definition, bump revision and
    /// confidence, union-append the source identifiers.
    pub fn refine_concept(&mut self, id: &str, new_definition: &str, new_source_ids: &Vec<String>)
        -> (r: IcmResult<()>)
        requires
            old(self).wf(),
        ensures
            final(self).wf(),
            final(self)@.mems == old(self)@.mems,
            final(self)@.memoirs == old(self)@.memoirs,
            final(self)@.links == old(self)@.links,
            match r {
                Ok(()) => {
                    let i = concept_idx(old(self)@.concepts, id@);
                    let c = old(self)@.concepts[i];
                    &&& has_concept(old(self)@.concepts, id@)
                    &&& c.revision < u32::MAX as int
                    &&& final(self)@.concepts.len() == old(self)@.concepts.len()
                    &&& final(self)@.concepts[i] == refined_concept(
                        c,
                        new_definition@,
                        new_source_ids.deep_view(),
                        final(self)@.concepts[i].updated_at,
                    )
                    &&& forall|k: int|
                        0 <= k < old(self)@.concepts.len() && k != i ==> final(self)@.concepts[k]
                            == old(self)@.concepts[k]
                },
                Err(e) => final(self)@ == old(self)@ && ((e is NotFound && !has_concept(
                    old(self)@.concepts,
                    id@,
                )) || (e is Database && has_concept(old(self)@.concepts, id@) && old(
                    self,
                )@.concepts[concept_idx(old(self)@.concepts, id@)].revision
                    == u32::MAX as int)),
            },
    {
        let idx = match self.find_concept_index(id) {
            Some(i) => i,
            None => {
                return Err(IcmError::NotFound(id.to_owned()));
            },
        };
        let ghost pre = self@;
        let mut c = clone_concept(&self.concepts[idx]);
        if c.revision == u32::MAX {
            proof {
                let j = concept_idx(pre.concepts, id@);
                assert(pre.concepts[j].id == id@);
                assert(j == idx as int);
            }
            return Err(IcmError::Database("revision counter exhausted".to_owned()));
        }
        c.definition = new_definition.to_owned();
        c.revision = c.revision + 1;
        c.confidence = if c.confidence > crate::memoir::CONFIDENCE_SCALE
            - crate::memoir::REFINE_CONFIDENCE_STEP {
            crate::memoir::CONFIDENCE_SCALE
        } else {
            c.confidence + crate::memoir::REFINE_CONFIDENCE_STEP
        };
        c.updated_at = crate::trusted::now_millis();
        let ghost base = c@.source_memory_ids;
        let ghost cpre = c@;
        let mut k: usize = 0;
        while k < new_source_ids.len()
            invariant
                k <= new_source_ids@.len(),
                c@ == (ConceptView { source_memory_ids: c@.source_memory_ids, ..cpre }),
                c.source_memory_ids.deep_view() == merge_sources(
                    base,
                    new_source_ids.deep_view().take(k as int),
                ),
            decreases new_source_ids@.len() - k,
        {
            proof {
                let t1 = new_source_ids.deep_view().take(k + 1);
                assert(t1.drop_last() =~= new_source_ids.deep_view().take(k as int));
                assert(t1.last() == new_source_ids.deep_view()[k as int]);
            }
            let sid = &new_source_ids[k];
            let mut present = false;
            let mut w: usize = 0;
            while w < c.source_memory_ids.len()
                invariant_except_break
                    !present,
                invariant
                    w <= c.source_memory_ids@.len(),
                    forall|x: int|
                        0 <= x < w ==> c.source_memory_ids.deep_view()[x] != sid@,
                ensures
                    present == c.source_memory_ids.deep_view().contains(sid@),
                decreases c.source_memory_ids@.len() - w,
            {
                if str_eq(c.source_memory_ids[w].as_str(), sid.as_str()) {
                    present = true;
                    proof {
                        assert(c.source_memory_ids.deep_view().contains(sid@)) by {
                            assert(c.source_memory_ids.deep_view()[w as int] == sid@);
                        }
                    }
                    break;
                }
                w = w + 1;
            }
            let ghost prevs = c.source_memory_ids.deep_view();
            if !present {
                c.source_memory_ids.push(sid.clone());
                proof {
                    assert(c.source_memory_ids.deep_view() =~= prevs.push(sid@));
                }
            }
            k = k + 1;
        }
        proof {
            assert(new_source_ids.deep_view().take(new_source_ids@.len() as int)
                =~= new_source_ids.deep_view());
        }
        self.concepts.set(idx, c);
        proof {
            let j = concept_idx(pre.concepts, id@);
            assert(pre.concepts[j].id == id@);
            assert(j == idx as int);
            assert(self@.concepts =~= pre.concepts.update(idx as int, self@.concepts[idx as int]));
            assert(self@.mems =~= pre.mems);
            assert(self@.memoirs =~= pre.memoirs);
            assert(self@.links =~= pre.links);
            assert(self@.concepts[idx as int] =~= refined_concept(
                pre.concepts[idx as int],
                new_definition@,
                new_source_ids.deep_view(),
                self@.concepts[idx as int].updated_at,
            ));
            lemma_concept_update_wf(pre, self@.concepts[idx as int], idx as int);
        }
        Ok(())
    }

    /// Insert a typed edge; both endpoints must exist and differ, and the
    /// (source, target, relation) triple must be new.
    pub fn add_link(&mut self, link: ConceptLink) -> (r: IcmResult<String>)
        requires
            old(self).wf(),
        ensures
            final(self).wf(),
            final(self)@.mems == old(self)@.mems,
            final(self)@.memoirs == old(self)@.memoirs,
            final(self)@.concepts == old(self)@.concepts,
            match r {
                Ok(id) => link@.source_id != link@.target_id && has_concept(
                    old(self)@.concepts,
                    link@.source_id,
                ) && has_concept(old(self)@.concepts, link@.target_id) && !some_link_clash(
                    old(self)@.links,
                    link@,
                ) && id@ == link@.id && final(self)@.links == old(self)@.links.push(link@),
                Err(e) => e is Database && final(self)@ == old(self)@ && (link@.source_id
                    == link@.target_id || !has_concept(old(self)@.concepts, link@.source_id)
                    || !has_concept(old(self)@.concepts, link@.target_id) || some_link_clash(
                    old(self)@.links,
                    link@,
                )),
            },
    {
        if str_eq(link.source_id.as_str(), link.target_id.as_str()) {
            return Err(IcmError::Database("check constraint failed: self link".to_owned()));
        }
        if self.find_concept_index(link.source_id.as_str()).is_none() {
            return Err(IcmError::Database("foreign key constraint failed: concept_links.source_id".to_owned()));
        }
        if self.find_concept_index(link.target_id.as_str()).is_none() {
            return Err(IcmError::Database("foreign key constraint failed: concept_links.target_id".to_owned()));
        }
        let mut i: usize = 0;
        while i < self.links.len()
            invariant
                i <= self@.links.len(),
                self@ == old(self)@,
                self.wf(),
                forall|k: int| 0 <= k < i ==> !link_clash(#[trigger] self@.links[k], link@),
            decreases self@.links.len() - i,
        {
            if str_eq(self.links[i].id.as_str(), link.id.as_str()) || (str_eq(
                self.links[i].source_id.as_str(),
                link.source_id.as_str(),
            ) && str_eq(self.links[i].target_id.as_str(), link.target_id.as_str())
                && relation_eq(self.links[i].relation, link.relation)) {
                proof {
                    assert(some_link_clash(self@.links, link@)) by {
                        assert(link_clash(self@.links[i as int], link@));
                    }
                }
                return Err(IcmError::Database("unique constraint failed: concept_links".to_owned()));
            }
            i = i + 1;
        }
        let id = link.id.clone();
        let ghost pre = self@;
        self.links.push(link);
        proof {
            assert(self@.links =~= pre.links.push(link@));
            assert(self@.mems =~= pre.mems);
            assert(self@.memoirs =~= pre.memoirs);
            assert(self@.concepts =~= pre.concepts);
        }
        Ok(id)
    }

    /// The outgoing edges of a concept, in store order.
    pub fn get_links_from(&self, concept_id: &str) -> (r: IcmResult<Vec<ConceptLink>>)
        requires
            self.wf(),
        ensures
            r matches Ok(v) && v.deep_view() == links_from(self@.links, concept_id@),
    {
        let ghost all = self@.links;
        let mut out: Vec<ConceptLink> = Vec::new();
        let mut i: usize = 0;
        proof {
            assert(all.take(0) =~= Seq::<ConceptLinkView>::empty());
            assert(out.deep_view() =~= links_from(all.take(0), concept_id@));
        }
        while i < self.links.len()
            invariant
                i <= all.len(),
                self.links.deep_view() == all,
                out.deep_view() == links_from(all.take(i as int), concept_id@),
            decreases all.len() - i,
        {
            proof {
                assert(all.take(i + 1) =~= all.take(i as int).push(all[i as int]));
                lemma_filter_push(
                    all.take(i as int),
                    |l: ConceptLinkView| l.source_id == concept_id@,
                    all[i as int],
                );
            }
            let ghost prev = out.deep_view();
            if str_eq(self.links[i].source_id.as_str(), concept_id) {
                out.push(clone_link(&self.links[i]));
                proof {
                    assert(out.deep_view() =~= prev.push(all[i as int]));
                }
            }
            i = i + 1;
        }
        proof {
            assert(all.take(all.len() as int) =~= all);
        }
        Ok(out)
    }

    /// The incoming edges of a concept, in store order.
    pub fn get_links_to(&self, concept_id: &str) -> (r: IcmResult<Vec<ConceptLink>>)
        requires
            self.wf(),
        ensures
            r matches Ok(v) && v.deep_view() == links_to(self@.links, concept_id@),
    {
        let ghost all = self@.links;
        let mut out: Vec<ConceptLink> = Vec::new();
        let mut i: usize = 0;
        proof {
            assert(all.take(0) =~= Seq::<ConceptLinkView>::empty());
            assert(out.deep_view() =~= links_to(all.take(0), concept_id@));
        }
        while i < self.links.len()
            invariant
                i <= all.len(),
                self.links.deep_view() == all,
                out.deep_view() == links_to(all.take(i as int), concept_id@),
            decreases all.len() - i,
        {
            proof {
                assert(all.take(i + 1) =~= all.take(i as int).push(all[i as int]));
                lemma_filter_push(
                    all.take(i as int),
                    |l: ConceptLinkView| l.target_id == concept_id@,
                    all[i as int],
                );
            }
            let ghost prev = out.deep_view();
            if str_eq(self.links[i].target_id.as_str(), concept_id) {
                out.push(clone_link(&self.links[i]));
                proof {
                    assert(out.deep_view() =~= prev.push(all[i as int]));
                }
            }
            i = i + 1;
        }
        proof {
            assert(all.take(all.len() as int) =~= all);
        }
        Ok(out)
    }

    /// Remove a link; `NotFound` when absent.
    pub fn delete_link(&mut self, id: &str) -> (r: IcmResult<()>)
        requires
            old(self).wf(),
        ensures
            final(self).wf(),
            final(self)@.mems == old(self)@.mems,
            final(self)@.memoirs == old(self)@.memoirs,
            final(self)@.concepts == old(self)@.concepts,
            match r {
                Ok(()) => has_link(old(self)@.links, id@) && final(self)@.links == old(self)@.links.remove(link_idx(old(self)@.links, id@)),
                Err(e) => e is NotFound && !has_link(old(self)@.links, id@) && final(self)@
                    == old(self)@,
            },
    {
        match self.find_link_index(id) {
            Some(i) => {
                let ghost pre = self@;
                self.links.remove(i);
                proof {
                    let j = link_idx(pre.links, id@);
                    assert(pre.links[j].id == id@);
                    assert(j == i as int);
                    assert(self@.links =~= pre.links.remove(i as int));
                    assert(self@.mems =~= pre.mems);
                    assert(self@.memoirs =~= pre.memoirs);
                    assert(self@.concepts =~= pre.concepts);
                    let ls = self@.links;
                    assert forall|a: int, b: int|
                        #![trigger ls[a], ls[b]]
                        0 <= a < b < ls.len() implies !link_clash(ls[a], ls[b]) by {
                        let a2 = if a < i as int {
                            a
                        } else {
                            a + 1
                        };
                        let b2 = if b < i as int {
                            b
                        } else {
                            b + 1
                        };
                        assert(ls[a] == pre.links[a2]);
                        assert(ls[b] == pre.links[b2]);
                        assert(!link_clash(pre.links[a2], pre.links[b2]));
                    }
                    assert forall|a: int| 0 <= a < ls.len() implies has_concept(
                        self@.concepts,
                        #[trigger] ls[a].source_id,
                    ) && has_concept(self@.concepts, ls[a].target_id) && ls[a].source_id
                        != ls[a].target_id by {
                        let a2 = if a < i as int {
                            a
                        } else {
                            a + 1
                        };
                        assert(ls[a] == pre.links[a2]);
                    }
                }
                Ok(())
            },
            None => Err(IcmError::NotFound(id.to_owned())),
        }
    }
}

/// `c` occurs, as a value, among the store's concepts.
pub open spec fn concept_member(all: Seq<ConceptView>, c: ConceptView) -> bool {
    exists|k: int| 0 <= k < all.len() && #[trigger] all[k] == c
}

/// Two concept identifiers joined by some edge, in either direction.
pub open spec fn adjacent(ls: Seq<ConceptLinkView>, a: Seq<char>, b: Seq<char>) -> bool {
    exists|i: int|
        0 <= i < ls.len() && (((#[trigger] ls[i]).source_id == a && ls[i].target_id == b) || (
        ls[i].source_id == b && ls[i].target_id == a))
}

/// `x` lies within `d` undirected hops of `root`.
pub open spec fn within_hops(
    ls: Seq<ConceptLinkView>,
    root: Seq<char>,
    d: nat,
    x: Seq<char>,
) -> bool
    decreases d,
{
    x == root || (d > 0 && exists|y: Seq<char>|
        within_hops(ls, root, (d - 1) as nat, y) && adjacent(ls, y, x))
}

/// Being within `d1` hops implies being within any larger budget.
pub proof fn lemma_within_hops_mono(
    ls: Seq<ConceptLinkView>,
    root: Seq<char>,
    d1: nat,
    d2: nat,
    x: Seq<char>,
)
    requires
        within_hops(ls, root, d1, x),
        d1 <= d2,
    ensures
        within_hops(ls, root, d2, x),
    decreases d1,
{
    if x == root {
    } else {
        let y = choose|y: Seq<char>|
            within_hops(ls, root, (d1 - 1) as nat, y) && adjacent(ls, y, x);
        lemma_within_hops_mono(ls, root, (d1 - 1) as nat, (d2 - 1) as nat, y);
    }
}

/// `c` is a concept of the store that lies within the hop budget.
pub open spec fn neighborhood_node_ok(
    v: StoreView,
    root: Seq<char>,
    depth: nat,
    c: ConceptView,
) -> bool {
    &&& concept_member(v.concepts, c)
    &&& within_hops(v.links, root, depth, c.id)
}

/// `l` is a link of the store with both endpoints among the returned
/// concepts.
pub open spec fn neighborhood_link_ok(
    v: StoreView,
    cs: Seq<ConceptView>,
    l: ConceptLinkView,
) -> bool {
    &&& exists|k: int| 0 <= k < v.links.len() && #[trigger] v.links[k] == l
    &&& has_concept(cs, l.source_id)
    &&& has_concept(cs, l.target_id)
}

/// A sequence of concepts with pairwise distinct identifiers.
pub open spec fn distinct_concept_ids(cs: Seq<ConceptView>) -> bool {
    forall|i: int, j: int|
        #![trigger cs[i], cs[j]]
        0 <= i < j < cs.len() ==> cs[i].id != cs[j].id
}

/// Concepts with distinct identifiers, all drawn from a store with
/// distinct identifiers, are no more numerous than the store.
proof fn lemma_visited_bound(cs: Seq<ConceptView>, all: Seq<ConceptView>)
    requires
        distinct_concept_ids(cs),
        forall|i: int| 0 <= i < cs.len() ==> has_concept(all, #[trigger] cs[i].id),
    ensures
        cs.len() <= all.len(),
{
    broadcast use vstd::seq_lib::group_seq_lib_default;

    let csids = cs.map_values(|c: ConceptView| c.id);
    let allids = all.map_values(|c: ConceptView| c.id);
    assert(csids.no_duplicates()) by {
        assert forall|i: int, j: int|
            0 <= i < csids.len() && 0 <= j < csids.len() && i != j implies csids[i]
            != csids[j] by {
            if i < j {
                assert(cs[i].id != cs[j].id);
            } else {
                assert(cs[j].id != cs[i].id);
            }
        }
    }
    csids.unique_seq_to_set();
    allids.lemma_cardinality_of_set();
    assert(csids.to_set().subset_of(allids.to_set())) by {
        assert forall|x: Seq<char>| csids.to_set().contains(x) implies allids.to_set().contains(
            x,
        ) by {
            let i = choose|i: int| 0 <= i < csids.len() && csids[i] == x;
            assert(has_concept(all, cs[i].id));
            let j = choose|j: int| 0 <= j < all.len() && all[j].id == cs[i].id;
            assert(allids[j] == x);
        }
    }
    vstd::set_lib::lemma_len_subset(csids.to_set(), allids.to_set());
}

/// Does this link list hold the identifier?
fn link_vec_has_id(v: &Vec<ConceptLink>, id: &str) -> (r: bool)
    ensures
        r == has_link(v.deep_view(), id@),
{
    let mut i: usize = 0;
    while i < v.len()
        invariant
            i <= v@.len(),
            forall|k: int| 0 <= k < i ==> v.deep_view()[k].id != id@,
        decreases v@.len() - i,
    {
        if str_eq(v[i].id.as_str(), id) {
            proof {
                assert(has_link(v.deep_view(), id@)) by {
                    assert(v.deep_view()[i as int].id == id@);
                }
            }
            return true;
        }
        i = i + 1;
    }
    false
}

impl Store {
    /// One-hop peers of a concept: targets of its outgoing edges and
    /// sources of its incoming ones, optionally restricted to one
    /// relation.
    pub fn get_neighbors(&self, concept_id: &str, relation: Option<crate::memoir::Relation>)
        -> (r: IcmResult<Vec<Concept>>)
        requires
            self.wf(),
        ensures
            r matches Ok(v) && v.deep_view() == self@.concepts.filter(
                |c: ConceptView| is_neighbor(self@.links, concept_id@, relation, c.id),
            ),
    {
        let ghost all = self@.concepts;
        let mut out: Vec<Concept> = Vec::new();
        let mut i: usize = 0;
        proof {
            assert(all.take(0) =~= Seq::<ConceptView>::empty());
            assert(out.deep_view() =~= all.take(0).filter(
                |c: ConceptView| is_neighbor(self@.links, concept_id@, relation, c.id),
            ));
        }
        while i < self.concepts.len()
            invariant
                i <= all.len(),
                self.wf(),
                self.concepts.deep_view() == all,
                out.deep_view() == all.take(i as int).filter(
                    |c: ConceptView| is_neighbor(self@.links, concept_id@, relation, c.id),
                ),
            decreases all.len() - i,
        {
            proof {
                assert(all.take(i + 1) =~= all.take(i as int).push(all[i as int]));
                lemma_filter_push(
                    all.take(i as int),
                    |c: ConceptView| is_neighbor(self@.links, concept_id@, relation, c.id),
                    all[i as int],
                );
            }
            let ghost prev = out.deep_view();
            if self.is_neighbor_exec(concept_id, relation, self.concepts[i].id.as_str()) {
                out.push(clone_concept(&self.concepts[i]));
                proof {
                    assert(out.deep_view() =~= prev.push(all[i as int]));
                }
            }
            i = i + 1;
        }
        proof {
            assert(all.take(all.len() as int) =~= all);
        }
        Ok(out)
    }

    /// Is `other` a one-hop peer of `concept_id` under the optional
    /// relation filter?
    fn is_neighbor_exec(
        &self,
        concept_id: &str,
        relation: Option<crate::memoir::Relation>,
        other: &str,
    ) -> (r: bool)
        ensures
            r == is_neighbor(self@.links, concept_id@, relation, other@),
    {
        let mut i: usize = 0;
        while i < self.links.len()
            invariant
                i <= self@.links.len(),
                forall|k: int|
                    0 <= k < i ==> !neighbor_via(
                        #[trigger] self@.links[k],
                        concept_id@,
                        relation,
                        other@,
                    ),
            decreases self@.links.len() - i,
        {
            let l = &self.links[i];
            let rel_ok = match relation {
                Some(rel) => relation_eq(l.relation, rel),
                None => true,
            };
            if rel_ok && ((str_eq(l.source_id.as_str(), concept_id) && str_eq(
                l.target_id.as_str(),
                other,
            )) || (str_eq(l.target_id.as_str(), concept_id) && str_eq(
                l.source_id.as_str(),
                other,
            ))) {
                proof {
                    assert(is_neighbor(self@.links, concept_id@, relation, other@)) by {
                        assert(neighbor_via(self@.links[i as int], concept_id@, relation, other@));
                    }
                }
                return true;
            }
            i = i + 1;
        }
        false
    }

    /// Breadth-first neighborhood of a concept, both directions, bounded
    /// depth, one level per pass: the visited concepts (root first, each
    /// once — exactly those within `depth` undirected hops) and every
    /// traversed link (each once, both endpoints visited). The root must
    /// exist.
    #[verifier::rlimit(100)]
    pub fn get_neighborhood(&self, concept_id: &str, depth: usize) -> (r: IcmResult<
        (Vec<Concept>, Vec<ConceptLink>),
    >)
        requires
            self.wf(),
        ensures
            match r {
                Ok((cs, ls)) => {
                    &&& has_concept(self@.concepts, concept_id@)
                    &&& cs.deep_view().len() >= 1
                    &&& cs.deep_view()[0].id == concept_id@
                    &&& distinct_concept_ids(cs.deep_view())
                    &&& forall|i: int|
                        0 <= i < cs.deep_view().len() ==> neighborhood_node_ok(
                            self@,
                            concept_id@,
                            depth as nat,
                            #[trigger] cs.deep_view()[i],
                        )
                    &&& forall|x: Seq<char>|
                        #[trigger] within_hops(self@.links, concept_id@, depth as nat, x)
                            ==> has_concept(cs.deep_view(), x)
                    &&& forall|i: int|
                        0 <= i < ls.deep_view().len() ==> neighborhood_link_ok(
                            self@,
                            cs.deep_view(),
                            #[trigger] ls.deep_view()[i],
                        )
                    &&& forall|i: int, j: int|
                        #![trigger ls.deep_view()[i], ls.deep_view()[j]]
                        0 <= i < j < ls.deep_view().len() ==> ls.deep_view()[i].id
                            != ls.deep_view()[j].id
                    &&& depth > 0 ==> forall|k: int|
                        0 <= k < self@.links.len() && (within_hops(
                            self@.links,
                            concept_id@,
                            (depth - 1) as nat,
                            (#[trigger] self@.links[k]).source_id,
                        ) || within_hops(
                            self@.links,
                            concept_id@,
                            (depth - 1) as nat,
                            self@.links[k].target_id,
                        )) ==> has_link(ls.deep_view(), self@.links[k].id)
                },
                Err(e) => e is NotFound && !has_concept(self@.concepts, concept_id@),
            },
    {
        let root_idx = match self.find_concept_index(concept_id) {
            Some(i) => i,
            None => {
                return Err(IcmError::NotFound(concept_id.to_owned()));
            },
        };
        let ghost v = self@;
        let ghost root = concept_id@;
        let mut cs: Vec<Concept> = Vec::new();
        cs.push(clone_concept(&self.concepts[root_idx]));
        let mut dep: Vec<usize> = Vec::new();
        dep.push(0);
        let mut ls: Vec<ConceptLink> = Vec::new();
        proof {
            assert(cs.deep_view() =~= seq![v.concepts[root_idx as int]]);
            assert(within_hops(v.links, root, 0, root));
        }
        let mut level: usize = 0;
        let mut exhausted = false;
        while level < depth && !exhausted
            invariant
                self.wf(),
                self@ == v,
                root == concept_id@,
                level <= depth,
                cs@.len() == dep@.len(),
                cs.deep_view().len() >= 1,
                cs.deep_view()[0].id == root,
                dep@[0] == 0,
                distinct_concept_ids(cs.deep_view()),
                forall|i: int|
                    0 <= i < cs.deep_view().len() ==> concept_member(
                        v.concepts,
                        #[trigger] cs.deep_view()[i],
                    ),
                forall|i: int|
                    0 <= i < dep@.len() ==> (#[trigger] dep@[i]) <= level && within_hops(
                        v.links,
                        root,
                        dep@[i] as nat,
                        cs.deep_view()[i].id,
                    ),
                forall|i: int|
                    0 <= i < cs.deep_view().len() && (#[trigger] dep@[i]) < level
                        ==> expanded_node(v, cs.deep_view(), dep@, ls.deep_view(), i),
                exhausted ==> forall|i: int|
                    0 <= i < dep@.len() ==> (#[trigger] dep@[i]) < level,
                forall|i: int|
                    0 <= i < ls.deep_view().len() ==> neighborhood_link_ok(
                        v,
                        cs.deep_view(),
                        #[trigger] ls.deep_view()[i],
                    ),
                forall|i: int, j: int|
                    #![trigger ls.deep_view()[i], ls.deep_view()[j]]
                    0 <= i < j < ls.deep_view().len() ==> ls.deep_view()[i].id
                        != ls.deep_view()[j].id,
            decreases depth - level, (if exhausted {
                0int
            } else {
                1int
            }),
        {
            let mut any = false;
            let mut qi: usize = 0;
            while qi < cs.len()
                invariant
                    self.wf(),
                    self@ == v,
                    root == concept_id@,
                    level < depth,
                    qi <= cs.deep_view().len(),
                    cs@.len() == dep@.len(),
                    cs.deep_view().len() >= 1,
                    cs.deep_view()[0].id == root,
                    dep@[0] == 0,
                    distinct_concept_ids(cs.deep_view()),
                    forall|i: int|
                        0 <= i < cs.deep_view().len() ==> concept_member(
                            v.concepts,
                            #[trigger] cs.deep_view()[i],
                        ),
                    forall|i: int|
                        0 <= i < dep@.len() ==> (#[trigger] dep@[i]) <= level + 1 && within_hops(
                            v.links,
                            root,
                            dep@[i] as nat,
                            cs.deep_view()[i].id,
                        ),
                    forall|i: int|
                        0 <= i < cs.deep_view().len() && ((#[trigger] dep@[i]) < level || (
                        dep@[i] == level && i < qi)) ==> expanded_node(
                            v,
                            cs.deep_view(),
                            dep@,
                            ls.deep_view(),
                            i,
                        ),
                    any <==> exists|i: int| 0 <= i < qi && (#[trigger] dep@[i]) == level,
                    !any ==> forall|i: int| 0 <= i < dep@.len() ==> (#[trigger] dep@[i]) <= level,
                    forall|i: int|
                        0 <= i < ls.deep_view().len() ==> neighborhood_link_ok(
                            v,
                            cs.deep_view(),
                            #[trigger] ls.deep_view()[i],
                        ),
                    forall|i: int, j: int|
                        #![trigger ls.deep_view()[i], ls.deep_view()[j]]
                        0 <= i < j < ls.deep_view().len() ==> ls.deep_view()[i].id
                            != ls.deep_view()[j].id,
                decreases v.concepts.len() + 1 - qi,
            {
                proof {
                    lemma_visited_bound(cs.deep_view(), v.concepts);
                }
                let d = dep[qi];
                if d == level {
                    any = true;
                    let ghost csd0 = cs.deep_view();
                    let ghost depd0 = dep@;
                    let ghost lsd0 = ls.deep_view();
                    let cur = self.expand_node(cs, dep, ls, qi, level, Ghost(v), Ghost(root));
                    let (cs2, dep2, ls2) = cur;
                    cs = cs2;
                    dep = dep2;
                    ls = ls2;
                    proof {
                        assert forall|i: int|
                            0 <= i < cs.deep_view().len() && ((#[trigger] dep@[i]) < level || (
                            dep@[i] == level && i < qi + 1)) implies expanded_node(
                            v,
                            cs.deep_view(),
                            dep@,
                            ls.deep_view(),
                            i,
                        ) by {
                            if i < csd0.len() {
                                assert(dep@[i] == depd0[i]);
                                if i == qi as int {
                                } else {
                                    lemma_expanded_extends(
                                        v,
                                        csd0,
                                        depd0,
                                        lsd0,
                                        cs.deep_view(),
                                        dep@,
                                        ls.deep_view(),
                                        i,
                                    );
                                }
                            } else {
                                assert(dep@[i] == level + 1);
                            }
                        }
                        assert(dep@[qi as int] == level);
                    }
                }
                qi = qi + 1;
            }
            if !any {
                exhausted = true;
            } else {
                level = level + 1;
            }
        }
        proof {
            let csd = cs.deep_view();
            let depd = dep@;
            let lsd = ls.deep_view();
            // every node below the depth budget was expanded, whichever
            // way the passes ended
            assert forall|i: int|
                0 <= i < csd.len() && (#[trigger] depd[i]) < depth implies expanded_node(
                v,
                csd,
                depd,
                lsd,
                i,
            ) by {
                if exhausted {
                    assert(depd[i] < level);
                } else {
                    assert(level == depth);
                }
            }
            // hence everything within the budget is present
            assert forall|x: Seq<char>|
                #[trigger] within_hops(v.links, root, depth as nat, x) implies has_concept(
                csd,
                x,
            ) by {
                lemma_bfs_reaches(v, root, csd, depd, lsd, depth as nat, depth as nat, x);
                let j = choose|j: int|
                    0 <= j < csd.len() && (#[trigger] csd[j]).id == x && depd[j] <= depth;
                assert(csd[j].id == x);
            }
            // and every link incident to a node strictly inside it is
            // recorded
            if depth > 0 {
                assert forall|k: int|
                    0 <= k < v.links.len() && (within_hops(
                        v.links,
                        root,
                        (depth - 1) as nat,
                        (#[trigger] v.links[k]).source_id,
                    ) || within_hops(
                        v.links,
                        root,
                        (depth - 1) as nat,
                        v.links[k].target_id,
                    )) implies has_link(lsd, v.links[k].id) by {
                    if within_hops(v.links, root, (depth - 1) as nat, v.links[k].source_id) {
                        lemma_bfs_reaches(
                            v,
                            root,
                            csd,
                            depd,
                            lsd,
                            depth as nat,
                            (depth - 1) as nat,
                            v.links[k].source_id,
                        );
                        let j = choose|j: int|
                            0 <= j < csd.len() && (#[trigger] csd[j]).id == v.links[k].source_id
                                && depd[j] <= depth - 1;
                        assert(expanded_node(v, csd, depd, lsd, j));
                        assert(v.links[k].source_id == csd[j].id);
                    } else {
                        lemma_bfs_reaches(
                            v,
                            root,
                            csd,
                            depd,
                            lsd,
                            depth as nat,
                            (depth - 1) as nat,
                            v.links[k].target_id,
                        );
                        let j = choose|j: int|
                            0 <= j < csd.len() && (#[trigger] csd[j]).id == v.links[k].target_id
                                && depd[j] <= depth - 1;
                        assert(expanded_node(v, csd, depd, lsd, j));
                        assert(v.links[k].target_id == csd[j].id);
                    }
                }
            }
            // soundness at the full budget
            assert forall|i: int|
                0 <= i < csd.len() implies neighborhood_node_ok(
                v,
                root,
                depth as nat,
                #[trigger] csd[i],
            ) by {
                lemma_within_hops_mono(v.links, root, depd[i] as nat, depth as nat, csd[i].id);
            }
        }
        Ok((cs, ls))
    }

    /// Visit every link incident to the node at position `qi` (one of the
    /// current level), adding unseen endpoints one level deeper and
    /// recording each traversed link once; afterwards the node is
    /// expanded.
    #[verifier::rlimit(100)]
    fn expand_node(
        &self,
        cs: Vec<Concept>,
        dep: Vec<usize>,
        ls: Vec<ConceptLink>,
        qi: usize,
        level: usize,
        Ghost(v): Ghost<StoreView>,
        Ghost(root): Ghost<Seq<char>>,
    ) -> (r: (Vec<Concept>, Vec<usize>, Vec<ConceptLink>))
        requires
            self.wf(),
            self@ == v,
            cs@.len() == dep@.len(),
            qi < cs.deep_view().len(),
            dep@[qi as int] == level,
            level < usize::MAX,
            cs.deep_view().len() >= 1,
            cs.deep_view()[0].id == root,
            distinct_concept_ids(cs.deep_view()),
            forall|i: int|
                0 <= i < cs.deep_view().len() ==> concept_member(
                    v.concepts,
                    #[trigger] cs.deep_view()[i],
                ),
            forall|i: int|
                0 <= i < dep@.len() ==> (#[trigger] dep@[i]) <= level + 1 && within_hops(
                    v.links,
                    root,
                    dep@[i] as nat,
                    cs.deep_view()[i].id,
                ),
            forall|i: int|
                0 <= i < ls.deep_view().len() ==> neighborhood_link_ok(
                    v,
                    cs.deep_view(),
                    #[trigger] ls.deep_view()[i],
                ),
            forall|i: int, j: int|
                #![trigger ls.deep_view()[i], ls.deep_view()[j]]
                0 <= i < j < ls.deep_view().len() ==> ls.deep_view()[i].id
                    != ls.deep_view()[j].id,
        ensures
            ({
                let (cs2, dep2, ls2) = r;
                &&& cs2@.len() == dep2@.len()
                &&& cs2.deep_view().len() >= cs.deep_view().len()
                &&& cs2.deep_view().take(cs.deep_view().len() as int) == cs.deep_view()
                &&& dep2@.take(dep@.len() as int) == dep@
                &&& ls2.deep_view().len() >= ls.deep_view().len()
                &&& ls2.deep_view().take(ls.deep_view().len() as int) == ls.deep_view()
                &&& forall|j: int|
                    dep@.len() <= j < dep2@.len() ==> (#[trigger] dep2@[j]) == level + 1
                &&& cs2.deep_view()[0].id == root
                &&& distinct_concept_ids(cs2.deep_view())
                &&& forall|i: int|
                    0 <= i < cs2.deep_view().len() ==> concept_member(
                        v.concepts,
                        #[trigger] cs2.deep_view()[i],
                    )
                &&& forall|i: int|
                    0 <= i < dep2@.len() ==> (#[trigger] dep2@[i]) <= level + 1 && within_hops(
                        v.links,
                        root,
                        dep2@[i] as nat,
                        cs2.deep_view()[i].id,
                    )
                &&& expanded_node(v, cs2.deep_view(), dep2@, ls2.deep_view(), qi as int)
                &&& forall|i: int|
                    0 <= i < ls2.deep_view().len() ==> neighborhood_link_ok(
                        v,
                        cs2.deep_view(),
                        #[trigger] ls2.deep_view()[i],
                    )
                &&& forall|i: int, j: int|
                    #![trigger ls2.deep_view()[i], ls2.deep_view()[j]]
                    0 <= i < j < ls2.deep_view().len() ==> ls2.deep_view()[i].id
                        != ls2.deep_view()[j].id
            }),
    {
        let mut cs = cs;
        let mut dep = dep;
        let mut ls = ls;
        let ghost cs0 = cs.deep_view();
        let ghost dep0 = dep@;
        let ghost ls0 = ls.deep_view();
        let cur_id = cs[qi].id.clone();
        proof {
            assert(cur_id@ == cs.deep_view()[qi as int].id);
            assert(within_hops(v.links, root, level as nat, cur_id@));
        }
        let mut li: usize = 0;
        while li < self.links.len()
            invariant
                self.wf(),
                self@ == v,
                li <= v.links.len(),
                cs@.len() == dep@.len(),
                level < usize::MAX,
                cur_id@ == cs.deep_view()[qi as int].id,
                qi < cs0.len(),
                dep@[qi as int] == level,
                within_hops(v.links, root, level as nat, cur_id@),
                cs.deep_view().len() >= cs0.len(),
                cs.deep_view().take(cs0.len() as int) == cs0,
                dep@.take(dep0.len() as int) == dep0,
                dep0.len() == cs0.len(),
                ls.deep_view().len() >= ls0.len(),
                ls.deep_view().take(ls0.len() as int) == ls0,
                forall|j: int| dep0.len() <= j < dep@.len() ==> (#[trigger] dep@[j]) == level + 1,
                cs.deep_view().len() >= 1,
                cs.deep_view()[0].id == root,
                distinct_concept_ids(cs.deep_view()),
                forall|i: int|
                    0 <= i < cs.deep_view().len() ==> concept_member(
                        v.concepts,
                        #[trigger] cs.deep_view()[i],
                    ),
                forall|i: int|
                    0 <= i < dep@.len() ==> (#[trigger] dep@[i]) <= level + 1 && within_hops(
                        v.links,
                        root,
                        dep@[i] as nat,
                        cs.deep_view()[i].id,
                    ),
                forall|k: int|
                    0 <= k < li ==> ((#[trigger] v.links[k]).source_id == cur_id@ ==> has_link(
                        ls.deep_view(),
                        v.links[k].id,
                    ) && present_within(
                        cs.deep_view(),
                        dep@,
                        v.links[k].target_id,
                        level + 1,
                    )) && (v.links[k].target_id == cur_id@ ==> has_link(
                        ls.deep_view(),
                        v.links[k].id,
                    ) && present_within(
                        cs.deep_view(),
                        dep@,
                        v.links[k].source_id,
                        level + 1,
                    )),
                forall|i: int|
                    0 <= i < ls.deep_view().len() ==> neighborhood_link_ok(
                        v,
                        cs.deep_view(),
                        #[trigger] ls.deep_view()[i],
                    ),
                forall|i: int, j: int|
                    #![trigger ls.deep_view()[i], ls.deep_view()[j]]
                    0 <= i < j < ls.deep_view().len() ==> ls.deep_view()[i].id
                        != ls.deep_view()[j].id,
            decreases v.links.len() - li,
        {
            let l = &self.links[li];
            let touches = if str_eq(l.source_id.as_str(), cur_id.as_str()) {
                true
            } else {
                str_eq(l.target_id.as_str(), cur_id.as_str())
            };
            if touches {
                let other_is_target = str_eq(l.source_id.as_str(), cur_id.as_str());
                let oid = if other_is_target {
                    l.target_id.clone()
                } else {
                    l.source_id.clone()
                };
                proof {
                    assert(adjacent(v.links, cur_id@, oid@)) by {
                        assert(0 <= li < v.links.len() && (((v.links[li as int]).source_id
                            == cur_id@ && v.links[li as int].target_id == oid@) || (
                        v.links[li as int].source_id == oid@ && v.links[li as int].target_id
                            == cur_id@)));
                    }
                    assert(within_hops(v.links, root, (level + 1) as nat, oid@));
                }
                let present = concept_vec_has_id(&cs, oid.as_str());
                if !present {
                    let ghost csprev = cs.deep_view();
                    let ci = self.find_concept_index(oid.as_str()).unwrap();
                    cs.push(clone_concept(&self.concepts[ci]));
                    dep.push(level + 1);
                    proof {
                        assert(cs.deep_view() =~= csprev.push(v.concepts[ci as int]));
                        assert(has_concept(cs.deep_view(), oid@)) by {
                            assert(cs.deep_view()[csprev.len() as int].id == oid@);
                        }
                        assert(cs.deep_view().take(cs0.len() as int) =~= csprev.take(
                            cs0.len() as int,
                        ));
                        assert(dep@.take(dep0.len() as int) =~= dep0);
                        assert forall|i: int|
                            0 <= i < ls.deep_view().len() implies neighborhood_link_ok(
                            v,
                            cs.deep_view(),
                            #[trigger] ls.deep_view()[i],
                        ) by {
                            lemma_has_concept_push(
                                csprev,
                                v.concepts[ci as int],
                                ls.deep_view()[i].source_id,
                            );
                            lemma_has_concept_push(
                                csprev,
                                v.concepts[ci as int],
                                ls.deep_view()[i].target_id,
                            );
                        }
                        assert forall|k: int|
                            0 <= k < li && (#[trigger] v.links[k]).source_id == cur_id@
                            implies present_within(
                            cs.deep_view(),
                            dep@,
                            v.links[k].target_id,
                            level + 1,
                        ) by {
                            lemma_present_within_push(
                                csprev,
                                dep@.take(dep@.len() - 1),
                                v.concepts[ci as int],
                                (level + 1) as usize,
                                v.links[k].target_id,
                                level + 1,
                            );
                            assert(dep@ =~= dep@.take(dep@.len() - 1).push((level + 1) as usize));
                        }
                        assert forall|k: int|
                            0 <= k < li && (#[trigger] v.links[k]).target_id == cur_id@
                            implies present_within(
                            cs.deep_view(),
                            dep@,
                            v.links[k].source_id,
                            level + 1,
                        ) by {
                            lemma_present_within_push(
                                csprev,
                                dep@.take(dep@.len() - 1),
                                v.concepts[ci as int],
                                (level + 1) as usize,
                                v.links[k].source_id,
                                level + 1,
                            );
                            assert(dep@ =~= dep@.take(dep@.len() - 1).push((level + 1) as usize));
                        }
                    }
                }
                let already = link_vec_has_id(&ls, l.id.as_str());
                if !already {
                    let ghost lsprev = ls.deep_view();
                    ls.push(clone_link(l));
                    proof {
                        assert(ls.deep_view() =~= lsprev.push(v.links[li as int]));
                        assert(ls.deep_view().take(ls0.len() as int) =~= lsprev.take(
                            ls0.len() as int,
                        ));
                        assert(has_link(ls.deep_view(), v.links[li as int].id)) by {
                            assert(ls.deep_view()[lsprev.len() as int].id
                                == v.links[li as int].id);
                        }
                        assert(neighborhood_link_ok(v, cs.deep_view(), v.links[li as int])) by {
                            assert(has_concept(cs.deep_view(), cur_id@)) by {
                                assert(cs.deep_view()[qi as int].id == cur_id@);
                            }
                            assert(has_concept(cs.deep_view(), oid@));
                        }
                        assert forall|k: int|
                            0 <= k < li && ((#[trigger] v.links[k]).source_id == cur_id@
                                || v.links[k].target_id == cur_id@) implies has_link(
                            ls.deep_view(),
                            v.links[k].id,
                        ) by {
                            lemma_has_link_push(lsprev, v.links[li as int], v.links[k].id);
                        }
                    }
                }
                proof {
                    // the endpoint across this link now sits within one
                    // more hop, whether it was found or freshly added,
                    // and the link itself is recorded
                    assert(has_concept(cs.deep_view(), oid@));
                    let w = choose|w: int|
                        0 <= w < cs.deep_view().len() && (#[trigger] cs.deep_view()[w]).id
                            == oid@;
                    assert(dep@[w] <= level + 1);
                    assert(present_within(cs.deep_view(), dep@, oid@, level + 1));
                    assert(has_link(ls.deep_view(), v.links[li as int].id));
                }
            }
            li = li + 1;
        }
        proof {
            assert(expanded_node(v, cs.deep_view(), dep@, ls.deep_view(), qi as int)) by {
                assert(cs.deep_view()[qi as int].id == cur_id@);
            }
        }
        (cs, dep, ls)
    }
}

/// Some visited position carries this identifier within the hop budget.
pub open spec fn present_within(
    csd: Seq<ConceptView>,
    depd: Seq<usize>,
    x: Seq<char>,
    b: int,
) -> bool {
    exists|j: int|
        0 <= j < csd.len() && j < depd.len() && (#[trigger] csd[j]).id == x && depd[j] <= b
}

/// The node at position `i` has been expanded: each of its incident
/// links is recorded and the far endpoint is visited within one more
/// hop.
pub open spec fn expanded_node(
    v: StoreView,
    csd: Seq<ConceptView>,
    depd: Seq<usize>,
    lsd: Seq<ConceptLinkView>,
    i: int,
) -> bool {
    forall|k: int|
        0 <= k < v.links.len() ==> ((#[trigger] v.links[k]).source_id == csd[i].id ==> has_link(
            lsd,
            v.links[k].id,
        ) && present_within(csd, depd, v.links[k].target_id, depd[i] + 1)) && (
        v.links[k].target_id == csd[i].id ==> has_link(lsd, v.links[k].id) && present_within(
            csd,
            depd,
            v.links[k].source_id,
            depd[i] + 1,
        ))
}

/// Pushing a node keeps every prior presence witness.
proof fn lemma_present_within_push(
    csd: Seq<ConceptView>,
    depd: Seq<usize>,
    c: ConceptView,
    d: usize,
    x: Seq<char>,
    b: int,
)
    requires
        csd.len() == depd.len(),
        present_within(csd, depd, x, b),
    ensures
        present_within(csd.push(c), depd.push(d), x, b),
{
    let j = choose|j: int|
        0 <= j < csd.len() && j < depd.len() && (#[trigger] csd[j]).id == x && depd[j] <= b;
    assert(csd.push(c)[j].id == x && depd.push(d)[j] <= b);
}

/// Pushing a link keeps every prior recording witness.
proof fn lemma_has_link_push(lsd: Seq<ConceptLinkView>, l: ConceptLinkView, id: Seq<char>)
    requires
        has_link(lsd, id),
    ensures
        has_link(lsd.push(l), id),
{
    let j = choose|j: int| 0 <= j < lsd.len() && lsd[j].id == id;
    assert(lsd.push(l)[j].id == id);
}

/// An expanded node stays expanded when the visited lists only grow.
proof fn lemma_expanded_extends(
    v: StoreView,
    csd: Seq<ConceptView>,
    depd: Seq<usize>,
    lsd: Seq<ConceptLinkView>,
    csd2: Seq<ConceptView>,
    depd2: Seq<usize>,
    lsd2: Seq<ConceptLinkView>,
    i: int,
)
    requires
        expanded_node(v, csd, depd, lsd, i),
        0 <= i < csd.len(),
        csd.len() == depd.len(),
        csd2.len() == depd2.len(),
        csd.len() <= csd2.len(),
        lsd.len() <= lsd2.len(),
        csd2.take(csd.len() as int) == csd,
        depd2.take(depd.len() as int) == depd,
        lsd2.take(lsd.len() as int) == lsd,
    ensures
        expanded_node(v, csd2, depd2, lsd2, i),
{
    assert(csd2[i] == csd[i]);
    assert(depd2[i] == depd[i]);
    assert forall|k: int|
        0 <= k < v.links.len() implies ((#[trigger] v.links[k]).source_id == csd2[i].id
        ==> has_link(lsd2, v.links[k].id) && present_within(
        csd2,
        depd2,
        v.links[k].target_id,
        depd2[i] + 1,
    )) && (v.links[k].target_id == csd2[i].id ==> has_link(lsd2, v.links[k].id)
        && present_within(csd2, depd2, v.links[k].source_id, depd2[i] + 1)) by {
        if v.links[k].source_id == csd[i].id {
            let j = choose|j: int|
                0 <= j < lsd.len() && (#[trigger] lsd[j]).id == v.links[k].id;
            assert(lsd2[j].id == v.links[k].id);
            let w = choose|w: int|
                0 <= w < csd.len() && w < depd.len() && (#[trigger] csd[w]).id
                    == v.links[k].target_id && depd[w] <= depd[i] + 1;
            assert(csd2[w].id == v.links[k].target_id && depd2[w] <= depd2[i] + 1);
        }
        if v.links[k].target_id == csd[i].id {
            let j = choose|j: int|
                0 <= j < lsd.len() && (#[trigger] lsd[j]).id == v.links[k].id;
            assert(lsd2[j].id == v.links[k].id);
            let w = choose|w: int|
                0 <= w < csd.len() && w < depd.len() && (#[trigger] csd[w]).id
                    == v.links[k].source_id && depd[w] <= depd[i] + 1;
            assert(csd2[w].id == v.links[k].source_id && depd2[w] <= depd2[i] + 1);
        }
    }
}

/// Whatever lies within the hop budget has been visited, provided every
/// node strictly inside the budget was expanded.
proof fn lemma_bfs_reaches(
    v: StoreView,
    root: Seq<char>,
    csd: Seq<ConceptView>,
    depd: Seq<usize>,
    lsd: Seq<ConceptLinkView>,
    limit: nat,
    d: nat,
    x: Seq<char>,
)
    requires
        csd.len() == depd.len(),
        csd.len() >= 1,
        csd[0].id == root,
        depd[0] == 0,
        forall|i: int|
            0 <= i < csd.len() && (#[trigger] depd[i]) < limit ==> expanded_node(
                v,
                csd,
                depd,
                lsd,
                i,
            ),
        d <= limit,
        within_hops(v.links, root, d, x),
    ensures
        present_within(csd, depd, x, d as int),
    decreases d,
{
    if x == root {
        assert(csd[0].id == x && depd[0] <= d);
    } else {
        let y = choose|y: Seq<char>|
            within_hops(v.links, root, (d - 1) as nat, y) && adjacent(v.links, y, x);
        lemma_bfs_reaches(v, root, csd, depd, lsd, limit, (d - 1) as nat, y);
        let j = choose|j: int|
            0 <= j < csd.len() && j < depd.len() && (#[trigger] csd[j]).id == y && depd[j] <= d
                - 1;
        assert((depd[j] as nat) < limit);
        assert(expanded_node(v, csd, depd, lsd, j));
        let k = choose|k: int|
            0 <= k < v.links.len() && (((#[trigger] v.links[k]).source_id == y
                && v.links[k].target_id == x) || (v.links[k].source_id == x
                && v.links[k].target_id == y));
        if v.links[k].source_id == y && v.links[k].target_id == x {
            assert(v.links[k].source_id == csd[j].id);
            assert(present_within(csd, depd, x, depd[j] + 1));
        } else {
            assert(v.links[k].target_id == csd[j].id);
            assert(present_within(csd, depd, x, depd[j] + 1));
        }
        let w = choose|w: int|
            0 <= w < csd.len() && w < depd.len() && (#[trigger] csd[w]).id == x && depd[w]
                <= depd[j] + 1;
        assert(csd[w].id == x && depd[w] <= d);
    }
}

/// This link joins `concept_id` to `other` (in either direction), with
/// the optional relation filter satisfied.
pub open spec fn neighbor_via(
    l: ConceptLinkView,
    concept_id: Seq<char>,
    relation: Option<crate::memoir::Relation>,
    other: Seq<char>,
) -> bool {
    &&& (relation matches Some(rel) ==> l.relation == rel)
    &&& ((l.source_id == concept_id && l.target_id == other) || (l.target_id == concept_id
        && l.source_id == other))
}

/// `other` is a one-hop peer of `concept_id`.
pub open spec fn is_neighbor(
    ls: Seq<ConceptLinkView>,
    concept_id: Seq<char>,
    relation: Option<crate::memoir::Relation>,
    other: Seq<char>,
) -> bool {
    exists|i: int| 0 <= i < ls.len() && neighbor_via(#[trigger] ls[i], concept_id, relation, other)
}

/// Pushing a concept keeps every previously present identifier present.
proof fn lemma_has_concept_push(cs: Seq<ConceptView>, c: ConceptView, id: Seq<char>)
    requires
        has_concept(cs, id),
    ensures
        has_concept(cs.push(c), id),
{
    let i = choose|i: int| 0 <= i < cs.len() && cs[i].id == id;
    assert(cs.push(c)[i].id == id);
}

/// Equality of two relation values.
fn relation_eq(a: crate::memoir::Relation, b: crate::memoir::Relation) -> (r: bool)
    ensures
        r == (a == b),
{
    a == b
}

/// Updating one concept in place (same identifier, non-clashing name)
/// keeps the concept-graph half well formed.
proof fn lemma_concept_update_wf(pre: StoreView, c: ConceptView, idx: int)
    requires
        memoir_side_wf(pre),
        0 <= idx < pre.concepts.len(),
        pre.concepts[idx].id == c.id,
        has_memoir(pre.memoirs, c.memoir_id),
        !concept_name_taken_by_other(pre.concepts, c.memoir_id, c.name, c.id),
    ensures
        memoir_side_wf(StoreView { concepts: pre.concepts.update(idx, c), ..pre }),
{
    let cs = pre.concepts.update(idx, c);
    assert forall|a: int, b: int|
        #![trigger cs[a], cs[b]]
        0 <= a < b < cs.len() implies !concept_clash(cs[a], cs[b]) by {
        if a == idx {
            assert(pre.concepts[b].id != pre.concepts[idx].id);
            if pre.concepts[b].memoir_id == c.memoir_id && pre.concepts[b].name == c.name {
                assert(concept_name_taken_by_other(pre.concepts, c.memoir_id, c.name, c.id)) by {
                    assert((pre.concepts[b]).memoir_id == c.memoir_id && pre.concepts[b].name
                        == c.name && pre.concepts[b].id != c.id);
                }
            }
        } else if b == idx {
            assert(pre.concepts[a].id != pre.concepts[idx].id);
            if pre.concepts[a].memoir_id == c.memoir_id && pre.concepts[a].name == c.name {
                assert(concept_name_taken_by_other(pre.concepts, c.memoir_id, c.name, c.id)) by {
                    assert((pre.concepts[a]).memoir_id == c.memoir_id && pre.concepts[a].name
                        == c.name && pre.concepts[a].id != c.id);
                }
            }
        } else {
            assert(!concept_clash(pre.concepts[a], pre.concepts[b]));
        }
    }
    assert forall|i: int| 0 <= i < cs.len() implies has_memoir(
        pre.memoirs,
        #[trigger] cs[i].memoir_id,
    ) by {
        if i != idx {
            assert(cs[i] == pre.concepts[i]);
        }
    }
    assert forall|i: int| 0 <= i < pre.links.len() implies has_concept(
        cs,
        #[trigger] pre.links[i].source_id,
    ) && has_concept(cs, pre.links[i].target_id) by {
        let a = choose|a: int|
            0 <= a < pre.concepts.len() && pre.concepts[a].id == pre.links[i].source_id;
        assert(cs[a].id == pre.links[i].source_id);
        let b = choose|b: int|
            0 <= b < pre.concepts.len() && pre.concepts[b].id == pre.links[i].target_id;
        assert(cs[b].id == pre.links[i].target_id);
    }
}

/// Cascading a concept deletion keeps the concept-graph half well formed.
proof fn lemma_concept_delete_wf(pre: StoreView, id: Seq<char>, idx: int)
    requires
        memoir_side_wf(pre),
        0 <= idx < pre.concepts.len(),
        pre.concepts[idx].id == id,
    ensures
        memoirs_wf(pre.memoirs),
        concepts_wf(pre.memoirs, pre.concepts.remove(idx)),
        links_wf(pre.concepts.remove(idx), links_avoiding(pre.links, id)),
{
    let cs = pre.concepts.remove(idx);
    let ls = links_avoiding(pre.links, id);
    assert forall|a: int, b: int|
        #![trigger cs[a], cs[b]]
        0 <= a < b < cs.len() implies !concept_clash(cs[a], cs[b]) by {
        let a2 = if a < idx {
            a
        } else {
            a + 1
        };
        let b2 = if b < idx {
            b
        } else {
            b + 1
        };
        assert(cs[a] == pre.concepts[a2]);
        assert(cs[b] == pre.concepts[b2]);
        assert(!concept_clash(pre.concepts[a2], pre.concepts[b2]));
    }
    assert forall|i: int| 0 <= i < cs.len() implies has_memoir(
        pre.memoirs,
        #[trigger] cs[i].memoir_id,
    ) by {
        let i2 = if i < idx {
            i
        } else {
            i + 1
        };
        assert(cs[i] == pre.concepts[i2]);
    }
    lemma_filter_keeps_pairwise(
        pre.links,
        |l: ConceptLinkView| l.source_id != id && l.target_id != id,
        |a: ConceptLinkView, b: ConceptLinkView| link_clash(a, b),
    );
    assert forall|a: int, b: int|
        #![trigger ls[a], ls[b]]
        0 <= a < b < ls.len() implies !link_clash(ls[a], ls[b]) by {}
    assert forall|i: int| 0 <= i < ls.len() implies has_concept(
        cs,
        #[trigger] ls[i].source_id,
    ) && has_concept(cs, ls[i].target_id) && ls[i].source_id != ls[i].target_id by {
        lemma_filter_member_at(
            pre.links,
            |l: ConceptLinkView| l.source_id != id && l.target_id != id,
            i,
        );
        let k = choose|k: int| 0 <= k < pre.links.len() && pre.links[k] == ls[i];
        assert(pre.links[k].source_id != pre.links[k].target_id);
        let a = choose|a: int|
            0 <= a < pre.concepts.len() && pre.concepts[a].id == pre.links[k].source_id;
        assert(a != idx) by {
            assert(ls[i].source_id != id);
        }
        let a2 = if a < idx {
            a
        } else {
            a - 1
        };
        assert(cs[a2] == pre.concepts[a]);
        assert(cs[a2].id == ls[i].source_id);
        let b = choose|b: int|
            0 <= b < pre.concepts.len() && pre.concepts[b].id == pre.links[k].target_id;
        assert(b != idx) by {
            assert(ls[i].target_id != id);
        }
        let b2 = if b < idx {
            b
        } else {
            b - 1
        };
        assert(cs[b2] == pre.concepts[b]);
        assert(cs[b2].id == ls[i].target_id);
    }
}

/// Cascading a memoir deletion keeps the concept-graph half well formed.
proof fn lemma_memoir_cascade_wf(pre: StoreView, id: Seq<char>, idx: int)
    requires
        memoir_side_wf(pre),
        0 <= idx < pre.memoirs.len(),
        pre.memoirs[idx].id == id,
    ensures
        memoirs_wf(pre.memoirs.remove(idx)),
        concepts_wf(pre.memoirs.remove(idx), concepts_outside(pre.concepts, id)),
        links_wf(
            concepts_outside(pre.concepts, id),
            links_within(pre.links, concepts_outside(pre.concepts, id)),
        ),
{
    let ms = pre.memoirs.remove(idx);
    let cs = concepts_outside(pre.concepts, id);
    let ls = links_within(pre.links, cs);
    assert forall|a: int, b: int|
        #![trigger ms[a], ms[b]]
        0 <= a < b < ms.len() implies !memoir_clash(ms[a], ms[b]) by {
        let a2 = if a < idx {
            a
        } else {
            a + 1
        };
        let b2 = if b < idx {
            b
        } else {
            b + 1
        };
        assert(ms[a] == pre.memoirs[a2]);
        assert(ms[b] == pre.memoirs[b2]);
        assert(!memoir_clash(pre.memoirs[a2], pre.memoirs[b2]));
    }
    lemma_filter_keeps_pairwise(
        pre.concepts,
        |c: ConceptView| c.memoir_id != id,
        |a: ConceptView, b: ConceptView| concept_clash(a, b),
    );
    assert forall|a: int, b: int|
        #![trigger cs[a], cs[b]]
        0 <= a < b < cs.len() implies !concept_clash(cs[a], cs[b]) by {}
    assert forall|i: int| 0 <= i < cs.len() implies has_memoir(
        ms,
        #[trigger] cs[i].memoir_id,
    ) by {
        lemma_filter_member_at(pre.concepts, |c: ConceptView| c.memoir_id != id, i);
        let k = choose|k: int| 0 <= k < pre.concepts.len() && pre.concepts[k] == cs[i];
        assert(has_memoir(pre.memoirs, pre.concepts[k].memoir_id));
        let w = choose|w: int|
            0 <= w < pre.memoirs.len() && pre.memoirs[w].id == pre.concepts[k].memoir_id;
        assert(cs[i].memoir_id != id);
        assert(w != idx);
        let w2 = if w < idx {
            w
        } else {
            w - 1
        };
        assert(ms[w2] == pre.memoirs[w]);
        assert(ms[w2].id == cs[i].memoir_id);
    }
    lemma_filter_keeps_pairwise(
        pre.links,
        |l: ConceptLinkView| has_concept(cs, l.source_id) && has_concept(cs, l.target_id),
        |a: ConceptLinkView, b: ConceptLinkView| link_clash(a, b),
    );
    assert forall|a: int, b: int|
        #![trigger ls[a], ls[b]]
        0 <= a < b < ls.len() implies !link_clash(ls[a], ls[b]) by {}
    assert forall|i: int| 0 <= i < ls.len() implies has_concept(
        cs,
        #[trigger] ls[i].source_id,
    ) && has_concept(cs, ls[i].target_id) && ls[i].source_id != ls[i].target_id by {
        lemma_filter_member_at(
            pre.links,
            |l: ConceptLinkView| has_concept(cs, l.source_id) && has_concept(cs, l.target_id),
            i,
        );
        let k = choose|k: int| 0 <= k < pre.links.len() && pre.links[k] == ls[i];
        assert(pre.links[k].source_id != pre.links[k].target_id);
    }
}

} // verus!
