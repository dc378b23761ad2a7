//! The memory store: an indexed collection of `Memory` records with CRUD,
//! lifecycle (access tracking, decay, pruning) and consolidation.
//!
//! The whole engine state — memories plus the concept graph — lives in one
//! `Store` value; the concept-graph operations are in `memoir_store`.

use vstd::prelude::*;
use vstd::pervasive::VecAdditionalExecFns;

use crate::errors::{IcmError, IcmResult};
use crate::memoir::{Concept, ConceptLink, ConceptLinkView, ConceptView, Memoir, MemoirView};
use crate::memory::{clone_memory, Memory, MemoryView, Importance, WEIGHT_SCALE};
use crate::text::str_eq;
use crate::trusted::now_millis;

verus! {

broadcast use vstd::seq_lib::group_seq_lib_default, vstd::seq_lib::group_to_multiset_ensures;

/// Specification-level image of the whole engine state.
#[verifier::ext_equal]
pub struct StoreView {
    pub mems: Seq<MemoryView>,
    pub memoirs: Seq<MemoirView>,
    pub concepts: Seq<ConceptView>,
    pub links: Seq<ConceptLinkView>,
}

/// The engine state: every memory, memoir, concept and link.
pub struct Store {
    pub mems: Vec<Memory>,
    pub memoirs: Vec<Memoir>,
    pub concepts: Vec<Concept>,
    pub links: Vec<ConceptLink>,
}

impl View for Store {
    type V = StoreView;

    open spec fn view(&self) -> StoreView {
        StoreView {
            mems: self.mems.deep_view(),
            memoirs: self.memoirs.deep_view(),
            concepts: self.concepts.deep_view(),
            links: self.links.deep_view(),
        }
    }
}

// ---------------------------------------------------------------------------
// Spec helpers over the memory half
// ---------------------------------------------------------------------------

/// There is a memory with this identifier.
pub open spec fn has_mem(s: Seq<MemoryView>, id: Seq<char>) -> bool {
    exists|i: int| 0 <= i < s.len() && s[i].id == id
}

/// The index of the memory with this identifier.
pub open spec fn mem_idx(s: Seq<MemoryView>, id: Seq<char>) -> int {
    choose|i: int| 0 <= i < s.len() && s[i].id == id
}

/// The memory with this identifier.
pub open spec fn mem_at(s: Seq<MemoryView>, id: Seq<char>) -> MemoryView {
    s[mem_idx(s, id)]
}

/// All memory identifiers are distinct.
pub open spec fn unique_mem_ids(s: Seq<MemoryView>) -> bool {
    forall|i: int, j: int| 0 <= i < j < s.len() ==> s[i].id != s[j].id
}

/// The memory as it stands after one decay step with `factor` (ppm).
pub open spec fn decayed(m: MemoryView, factor: int) -> MemoryView {
    MemoryView { weight: m.weight * factor / (WEIGHT_SCALE as int), ..m }
}

/// A memory is exempt from decay and pruning.
pub open spec fn is_critical(m: MemoryView) -> bool {
    m.importance == Importance::Critical
}

/// The memories that survive a prune at `threshold`.
pub open spec fn surviving(s: Seq<MemoryView>, threshold: int) -> Seq<MemoryView> {
    s.filter(|m: MemoryView| m.weight >= threshold || is_critical(m))
}

/// The memories under a topic, in store order.
pub open spec fn of_topic(s: Seq<MemoryView>, topic: Seq<char>) -> Seq<MemoryView> {
    s.filter(|m: MemoryView| m.topic == topic)
}

impl Store {
    /// Identifier uniqueness across all four tables, referential integrity
    /// of concepts and links, no self-links, unique memoir names, unique
    /// concept names per memoir, unique link triples.
    pub open spec fn wf(&self) -> bool {
        &&& unique_mem_ids(self@.mems)
        &&& crate::memoir_store::memoir_side_wf(self@)
    }

    /// An empty engine state.
    pub fn new() -> (r: Store)
        ensures
            r.wf(),
            r@.mems =~= Seq::<MemoryView>::empty(),
            r@.memoirs =~= Seq::<MemoirView>::empty(),
            r@.concepts =~= Seq::<ConceptView>::empty(),
            r@.links =~= Seq::<ConceptLinkView>::empty(),
    {
        let s = Store { mems: Vec::new(), memoirs: Vec::new(), concepts: Vec::new(), links: Vec::new() };
        proof {
            assert(s@.mems =~= Seq::<MemoryView>::empty());
            assert(s@.memoirs =~= Seq::<MemoirView>::empty());
            assert(s@.concepts =~= Seq::<ConceptView>::empty());
            assert(s@.links =~= Seq::<ConceptLinkView>::empty());
        }
        s
    }

    /// A fresh transient store, the in-memory counterpart of opening a
    /// database file.
    pub fn in_memory() -> (r: IcmResult<Store>)
        ensures
            r matches Ok(s) && s.wf() && s@.mems.len() == 0 && s@.memoirs.len() == 0
                && s@.concepts.len() == 0 && s@.links.len() == 0,
    {
        Ok(Store::new())
    }

    /// Locate a memory by identifier; returns its index.
    fn find_mem_index(&self, id: &str) -> (r: Option<usize>)
        requires
            self.wf(),
        ensures
            match r {
                Some(i) => i < self@.mems.len() && self@.mems[i as int].id == id@ && has_mem(
                    self@.mems,
                    id@,
                ),
                None => !has_mem(self@.mems, id@),
            },
    {
        let mut i: usize = 0;
        while i < self.mems.len()
            invariant
                i <= self@.mems.len(),
                self.mems.deep_view() == self@.mems,
                forall|k: int| 0 <= k < i ==> self@.mems[k].id != id@,
            decreases self@.mems.len() - i,
        {
            if str_eq(self.mems[i].id.as_str(), id) {
                return Some(i);
            }
            i = i + 1;
        }
        None
    }

    /// Insert a fully formed memory; its identifier must be new, else the
    /// unique-key constraint fires as a `Database` error.
    pub fn store(&mut self, memory: Memory) -> (r: IcmResult<String>)
        requires
            old(self).wf(),
        ensures
            final(self).wf(),
            final(self)@.memoirs == old(self)@.memoirs,
            final(self)@.concepts == old(self)@.concepts,
            final(self)@.links == old(self)@.links,
            match r {
                Ok(id) => !has_mem(old(self)@.mems, memory@.id) && id@ == memory@.id && final(self)@.mems == old(self)@.mems.push(memory@),
                Err(e) => has_mem(old(self)@.mems, memory@.id) && e is Database && final(self)@
                    == old(self)@,
            },
    {
        if let Some(_i) = self.find_mem_index(memory.id.as_str()) {
            return Err(IcmError::Database("unique constraint failed: memories.id".to_owned()));
        }
        let id = memory.id.clone();
        let ghost pre = self@.mems;
        self.mems.push(memory);
        proof {
            assert(self@.mems =~= pre.push(memory@));
            assert(self@.memoirs =~= old(self)@.memoirs);
            assert(self@.concepts =~= old(self)@.concepts);
            assert(self@.links =~= old(self)@.links);
            assert(unique_mem_ids(self@.mems));
        }
        Ok(id)
    }

    /// Fetch a memory by identifier.
    pub fn get(&self, id: &str) -> (r: IcmResult<Option<Memory>>)
        requires
            self.wf(),
        ensures
            match r {
                Ok(Some(m)) => has_mem(self@.mems, id@) && m@ == mem_at(self@.mems, id@) && m@.id
                    == id@,
                Ok(None) => !has_mem(self@.mems, id@),
                Err(_) => false,
            },
    {
        match self.find_mem_index(id) {
            Some(i) => {
                let m = clone_memory(&self.mems[i]);
                proof {
                    let j = mem_idx(self@.mems, id@);
                    assert(self@.mems[j].id == id@);
                    assert(j == i as int);
                }
                Ok(Some(m))
            },
            None => Ok(None),
        }
    }

    /// Overwrite the memory carrying `memory.id` with the argument's
    /// fields, keeping the stored creation instant and embedding;
    /// `NotFound` when absent.
    pub fn update(&mut self, memory: &Memory) -> (r: IcmResult<()>)
        requires
            old(self).wf(),
        ensures
            final(self).wf(),
            final(self)@.memoirs == old(self)@.memoirs,
            final(self)@.concepts == old(self)@.concepts,
            final(self)@.links == old(self)@.links,
            match r {
                Ok(()) => {
                    let i = mem_idx(old(self)@.mems, memory@.id);
                    let kept = old(self)@.mems[i];
                    &&& has_mem(old(self)@.mems, memory@.id)
                    &&& final(self)@.mems == old(self)@.mems.update(
                        i,
                        (MemoryView {
                            created_at: kept.created_at,
                            embedding: kept.embedding,
                            ..memory@
                        }),
                    )
                },
                Err(e) => !has_mem(old(self)@.mems, memory@.id) && e is NotFound && final(self)@
                    == old(self)@,
            },
    {
        match self.find_mem_index(memory.id.as_str()) {
            Some(i) => {
                let ghost pre = self@.mems;
                let mut m = clone_memory(memory);
                m.created_at = self.mems[i].created_at;
                m.embedding = crate::memory::clone_embedding(&self.mems[i].embedding);
                self.mems.set(i, m);
                proof {
                    let j = mem_idx(pre, memory@.id);
                    assert(pre[j].id == memory@.id);
                    assert(j == i as int);
                    assert(self@.mems =~= pre.update(
                        i as int,
                        (MemoryView {
                            created_at: pre[i as int].created_at,
                            embedding: pre[i as int].embedding,
                            ..memory@
                        }),
                    ));
                    assert(self@.memoirs =~= old(self)@.memoirs);
                    assert(self@.concepts =~= old(self)@.concepts);
                    assert(self@.links =~= old(self)@.links);
                    assert(unique_mem_ids(self@.mems));
                }
                Ok(())
            },
            None => {
                Err(IcmError::NotFound(memory.id.clone()))
            },
        }
    }

    /// Remove a memory; `NotFound` when absent.
    pub fn delete(&mut self, id: &str) -> (r: IcmResult<()>)
        requires
            old(self).wf(),
        ensures
            final(self).wf(),
            final(self)@.memoirs == old(self)@.memoirs,
            final(self)@.concepts == old(self)@.concepts,
            final(self)@.links == old(self)@.links,
            match r {
                Ok(()) => has_mem(old(self)@.mems, id@) && final(self)@.mems == old(self)@.mems.remove(mem_idx(old(self)@.mems, id@)),
                Err(e) => !has_mem(old(self)@.mems, id@) && e is NotFound && final(self)@ == old(self)@,
            },
    {
        match self.find_mem_index(id) {
            Some(i) => {
                let ghost pre = self@.mems;
                self.mems.remove(i);
                proof {
                    let j = mem_idx(pre, id@);
                    assert(pre[j].id == id@);
                    assert(j == i as int);
                    assert(self@.mems =~= pre.remove(i as int));
                    assert(self@.memoirs =~= old(self)@.memoirs);
                    assert(self@.concepts =~= old(self)@.concepts);
                    assert(self@.links =~= old(self)@.links);
                    assert(unique_mem_ids(self@.mems));
                }
                Ok(())
            },
            None => {
                Err(IcmError::NotFound(id.to_owned()))
            },
        }
    }

    /// Bump access metadata: `last_accessed` to now, `access_count` up by
    /// one (saturating); `NotFound` when absent.
    pub fn update_access(&mut self, id: &str) -> (r: IcmResult<()>)
        requires
            old(self).wf(),
        ensures
            final(self).wf(),
            final(self)@.memoirs == old(self)@.memoirs,
            final(self)@.concepts == old(self)@.concepts,
            final(self)@.links == old(self)@.links,
            match r {
                Ok(()) => {
                    let i = mem_idx(old(self)@.mems, id@);
                    let m = old(self)@.mems[i];
                    &&& has_mem(old(self)@.mems, id@)
                    &&& final(self)@.mems.len() == old(self)@.mems.len()
                    &&& final(self)@.mems[i].access_count == if m.access_count < u32::MAX as int {
                        m.access_count + 1
                    } else {
                        m.access_count
                    }
                    &&& final(self)@.mems[i] == (MemoryView {
                        access_count: final(self)@.mems[i].access_count,
                        last_accessed: final(self)@.mems[i].last_accessed,
                        ..m
                    })
                    &&& forall|k: int|
                        0 <= k < old(self)@.mems.len() && k != i ==> final(self)@.mems[k] == old(self)@.mems[k]
                },
                Err(e) => !has_mem(old(self)@.mems, id@) && e is NotFound && final(self)@ == old(self)@,
            },
    {
        match self.find_mem_index(id) {
            Some(i) => {
                let ghost pre = self@.mems;
                let now = now_millis();
                let mut m = clone_memory(&self.mems[i]);
                m.last_accessed = now;
                if m.access_count < u32::MAX {
                    m.access_count = m.access_count + 1;
                }
                self.mems.set(i, m);
                proof {
                    let j = mem_idx(pre, id@);
                    assert(pre[j].id == id@);
                    assert(j == i as int);
                    assert(self@.mems =~= pre.update(i as int, self@.mems[i as int]));
                    assert(self@.mems[i as int] == MemoryView {
                        access_count: self@.mems[i as int].access_count,
                        last_accessed: self@.mems[i as int].last_accessed,
                        ..pre[i as int]
                    });
                    assert(self@.memoirs =~= old(self)@.memoirs);
                    assert(self@.concepts =~= old(self)@.concepts);
                    assert(self@.links =~= old(self)@.links);
                    assert(unique_mem_ids(self@.mems));
                }
                Ok(())
            },
            None => {
                Err(IcmError::NotFound(id.to_owned()))
            },
        }
    }

    /// Multiply every non-critical weight by `factor` (in ppm, at most
    /// 1.0); critical memories are untouched. Returns how many were scaled.
    pub fn apply_decay(&mut self, factor: u64) -> (r: IcmResult<usize>)
        requires
            old(self).wf(),
            0 < factor <= WEIGHT_SCALE,
        ensures
            final(self).wf(),
            final(self)@.memoirs == old(self)@.memoirs,
            final(self)@.concepts == old(self)@.concepts,
            final(self)@.links == old(self)@.links,
            match r {
                Ok(n) => {
                    &&& final(self)@.mems.len() == old(self)@.mems.len()
                    &&& forall|i: int|
                        0 <= i < old(self)@.mems.len() ==> #[trigger] final(self)@.mems[i] == (
                        if is_critical(old(self)@.mems[i]) {
                            old(self)@.mems[i]
                        } else {
                            decayed(old(self)@.mems[i], factor as int)
                        })
                    &&& n as int == old(self)@.mems.filter(
                        |m: MemoryView| !is_critical(m),
                    ).len()
                },
                Err(_) => false,
            },
    {
        let ghost pre = self@.mems;
        let mut out: Vec<Memory> = Vec::new();
        let mut touched: usize = 0;
        let mut i: usize = 0;
        while i < self.mems.len()
            invariant
                i <= self.mems@.len(),
                self.mems.deep_view() == pre,
                0 < factor <= WEIGHT_SCALE,
                out@.len() == i,
                forall|k: int|
                    0 <= k < i ==> #[trigger] out.deep_view()[k] == (if is_critical(pre[k]) {
                        pre[k]
                    } else {
                        decayed(pre[k], factor as int)
                    }),
                touched as int == pre.take(i as int).filter(
                    |m: MemoryView| !is_critical(m),
                ).len(),
                touched <= i,
            decreases self.mems@.len() - i,
        {
            let m = &self.mems[i];
            proof {
                assert(pre.take(i + 1) =~= pre.take(i as int).push(pre[i as int]));
                lemma_filter_push(
                    pre.take(i as int),
                    |m: MemoryView| !is_critical(m),
                    pre[i as int],
                );
            }
            let ghost prev = out.deep_view();
            if matches!(m.importance, Importance::Critical) {
                out.push(clone_memory(m));
                proof {
                    assert(out.deep_view() =~= prev.push(pre[i as int]));
                }
            } else {
                let mut d = clone_memory(m);
                proof {
                    lemma_decay_bounds(d.weight as int, factor as int);
                }
                let scaled: u128 = (d.weight as u128) * (factor as u128) / (WEIGHT_SCALE as u128);
                d.weight = scaled as u64;
                out.push(d);
                proof {
                    assert(out.deep_view() =~= prev.push(decayed(pre[i as int], factor as int)));
                }
                touched = touched + 1;
            }
            i = i + 1;
        }
        proof {
            assert(pre.take(pre.len() as int) =~= pre);
        }
        self.mems = out;
        proof {
            assert(unique_mem_ids(self@.mems));
            assert(self@.memoirs =~= old(self)@.memoirs);
            assert(self@.concepts =~= old(self)@.concepts);
            assert(self@.links =~= old(self)@.links);
        }
        Ok(touched)
    }

    /// Delete every non-critical memory whose weight is strictly below the
    /// threshold (ppm). Returns how many were removed.
    pub fn prune(&mut self, weight_threshold: u64) -> (r: IcmResult<usize>)
        requires
            old(self).wf(),
        ensures
            final(self).wf(),
            final(self)@.memoirs == old(self)@.memoirs,
            final(self)@.concepts == old(self)@.concepts,
            final(self)@.links == old(self)@.links,
            match r {
                Ok(n) => final(self)@.mems == surviving(
                    old(self)@.mems,
                    weight_threshold as int,
                ) && n as int == old(self)@.mems.len() - final(self)@.mems.len(),
                Err(_) => false,
            },
    {
        let ghost pre = self@.mems;
        let mut out: Vec<Memory> = Vec::new();
        let mut i: usize = 0;
        while i < self.mems.len()
            invariant
                i <= self.mems@.len(),
                self.mems.deep_view() == pre,
                out.deep_view() == surviving(pre.take(i as int), weight_threshold as int),
                out@.len() <= i,
            decreases self.mems@.len() - i,
        {
            let m = &self.mems[i];
            proof {
                assert(pre.take(i + 1) =~= pre.take(i as int).push(pre[i as int]));
                lemma_filter_push(
                    pre.take(i as int),
                    |m: MemoryView| m.weight >= weight_threshold as int || is_critical(m),
                    pre[i as int],
                );
            }
            let ghost prev = out.deep_view();
            if m.weight >= weight_threshold || matches!(m.importance, Importance::Critical) {
                out.push(clone_memory(m));
                proof {
                    assert(out.deep_view() =~= prev.push(pre[i as int]));
                }
            }
            i = i + 1;
        }
        proof {
            assert(pre.take(pre.len() as int) =~= pre);
        }
        let kept = out.len();
        let removed = self.mems.len() - kept;
        self.mems = out;
        proof {
            assert(self@.memoirs =~= old(self)@.memoirs);
            assert(self@.concepts =~= old(self)@.concepts);
            assert(self@.links =~= old(self)@.links);
            lemma_filter_keeps_uniqueness(pre, |m: MemoryView| m.weight >= weight_threshold as int
                || is_critical(m));
        }
        Ok(removed)
    }

    /// How many memories are stored.
    pub fn count(&self) -> (r: IcmResult<usize>)
        requires
            self.wf(),
        ensures
            r matches Ok(n) && n == self@.mems.len(),
    {
        Ok(self.mems.len())
    }
}

/// How a filtered sequence grows when its source grows by one element.
pub proof fn lemma_filter_push<A>(s: Seq<A>, pred: spec_fn(A) -> bool, x: A)
    ensures
        s.push(x).filter(pred) == (if pred(x) {
            s.filter(pred).push(x)
        } else {
            s.filter(pred)
        }),
{
    reveal(Seq::filter);
    assert(s.push(x).drop_last() =~= s);
    assert(s.push(x).last() == x);
}

/// One decay step shrinks a weight and stays inside the machine bounds.
pub proof fn lemma_decay_bounds(w: int, f: int)
    requires
        0 <= w <= u64::MAX,
        0 < f <= WEIGHT_SCALE,
    ensures
        0 <= w * f / (WEIGHT_SCALE as int) <= w,
        w * f <= u128::MAX,
{
    let sc = WEIGHT_SCALE as int;
    vstd::arithmetic::mul::lemma_mul_inequality(f, sc, w);
    assert(f * w == w * f) by (nonlinear_arith);
    assert(sc * w == w * sc) by (nonlinear_arith);
    vstd::arithmetic::div_mod::lemma_div_is_ordered(w * f, w * sc, sc);
    vstd::arithmetic::div_mod::lemma_div_multiples_vanish(w, sc);
    assert(sc * w / sc == w);
    assert(w * sc / sc == w);
    assert(w * f >= 0) by (nonlinear_arith)
        requires
            w >= 0 && f > 0,
    ;
    vstd::arithmetic::div_mod::lemma_div_pos_is_pos(w * f, sc);
    assert(w * sc <= u64::MAX * (WEIGHT_SCALE as int)) by (nonlinear_arith)
        requires
            0 <= w <= u64::MAX && sc == WEIGHT_SCALE as int,
    ;
}

/// Filtering a sequence with unique identifiers keeps them unique.
pub(crate) proof fn lemma_filter_keeps_uniqueness(s: Seq<MemoryView>, pred: spec_fn(MemoryView) -> bool)
    requires
        unique_mem_ids(s),
    ensures
        unique_mem_ids(s.filter(pred)),
{
    lemma_filter_keeps_pairwise(s, pred, |a: MemoryView, b: MemoryView| a.id == b.id);
}

/// A pairwise "conflict" relation absent from a sequence is absent from
/// any filtering of it.
pub(crate) proof fn lemma_filter_keeps_pairwise<A>(
    s: Seq<A>,
    pred: spec_fn(A) -> bool,
    bad: spec_fn(A, A) -> bool,
)
    requires
        forall|i: int, j: int| 0 <= i < j < s.len() ==> !bad(s[i], s[j]),
    ensures
        forall|i: int, j: int|
            0 <= i < j < s.filter(pred).len() ==> !bad(s.filter(pred)[i], s.filter(pred)[j]),
{
    let f = s.filter(pred);
    assert forall|i: int, j: int| 0 <= i < j < f.len() implies !bad(f[i], f[j]) by {
        lemma_filter_pairwise_at(s, pred, bad, i, j);
    }
}

/// Two distinct positions of a filtered sequence come from two distinct
/// positions of the original.
proof fn lemma_filter_pairwise_at<A>(
    s: Seq<A>,
    pred: spec_fn(A) -> bool,
    bad: spec_fn(A, A) -> bool,
    i: int,
    j: int,
)
    requires
        forall|a: int, b: int| 0 <= a < b < s.len() ==> !bad(s[a], s[b]),
        0 <= i < j < s.filter(pred).len(),
    ensures
        !bad(s.filter(pred)[i], s.filter(pred)[j]),
    decreases s.len(),
{
    reveal(Seq::filter);
    if s.len() > 0 {
        let last = s.last();
        let rest = s.drop_last();
        let fr = rest.filter(pred);
        if j < fr.len() {
            lemma_filter_pairwise_at(rest, pred, bad, i, j);
        } else {
            // j names `last`; i names an element of rest, which stood at
            // an earlier position of s
            assert(pred(last));
            assert(s.filter(pred)[j] == last);
            assert(i < fr.len());
            assert(s.filter(pred)[i] == fr[i]);
            lemma_filter_member_at(rest, pred, i);
            let k = choose|k: int| 0 <= k < rest.len() && rest[k] == fr[i];
            assert(s[k] == rest[k]);
            assert(s[s.len() - 1] == last);
            assert(!bad(s[k], s[s.len() - 1]));
        }
    }
}

/// Every element of a filtered sequence occurs in the original.
pub(crate) proof fn lemma_filter_member_at<A>(s: Seq<A>, pred: spec_fn(A) -> bool, i: int)
    requires
        0 <= i < s.filter(pred).len(),
    ensures
        exists|k: int| 0 <= k < s.len() && s[k] == s.filter(pred)[i],
    decreases s.len(),
{
    reveal(Seq::filter);
    if s.len() > 0 {
        let last = s.last();
        let rest = s.drop_last();
        let fr = rest.filter(pred);
        if i < fr.len() {
            lemma_filter_member_at(rest, pred, i);
            let k = choose|k: int| 0 <= k < rest.len() && rest[k] == fr[i];
            assert(s[k] == fr[i]);
        } else {
            assert(s.filter(pred)[i] == last);
            assert(s[s.len() - 1] == last);
        }
    }
}

} // verus!
