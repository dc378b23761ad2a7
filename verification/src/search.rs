//! Lexical retrieval over the memory store: case-insensitive keyword
//! search (OR across terms) and token-conjunction full-text search, both
//! returning the heaviest matches first.

use vstd::prelude::*;

use crate::errors::IcmResult;
use crate::memory::{clone_memory, Memory, MemoryView};
use crate::store::{lemma_filter_push, Store};
use crate::text::{contains_ci, contains_seq, lower, split_words, tokens};
use crate::topics::{sort_memories_desc, sorted_desc_weight};

verus! {

broadcast use vstd::seq_lib::group_seq_lib_default, vstd::seq_lib::group_to_multiset_ensures;

/// One search term occurs (case-insensitively) in the topic, the summary
/// or one of the keywords.
pub open spec fn kw_hit(m: MemoryView, kw: Seq<char>) -> bool {
    ||| contains_seq(lower(m.topic), lower(kw))
    ||| contains_seq(lower(m.summary), lower(kw))
    ||| exists|i: int|
        0 <= i < m.keywords.len() && contains_seq(lower(#[trigger] m.keywords[i]), lower(kw))
}

/// At least one of the terms occurs (keyword search is OR across terms).
pub open spec fn kw_match(m: MemoryView, kws: Seq<Seq<char>>) -> bool {
    exists|k: int| 0 <= k < kws.len() && kw_hit(m, #[trigger] kws[k])
}

/// Every token of the query occurs (full-text search is AND across
/// tokens).
pub open spec fn fts_match(m: MemoryView, toks: Seq<Seq<char>>) -> bool {
    forall|k: int| 0 <= k < toks.len() ==> kw_hit(m, #[trigger] toks[k])
}

/// `r` is a top-`k` selection of `pool`: as many of the heaviest entries
/// as fit, in descending weight, and nothing left out weighs more than
/// anything returned.
pub open spec fn topk_by_weight(r: Seq<MemoryView>, pool: Seq<MemoryView>, k: int) -> bool {
    &&& r.len() == (if pool.len() < k {
        pool.len() as int
    } else {
        k
    })
    &&& sorted_desc_weight(r)
    &&& forall|x: MemoryView| #[trigger]
        r.to_multiset().count(x) <= pool.to_multiset().count(x)
    &&& forall|x: MemoryView|
        #[trigger] pool.to_multiset().count(x) > r.to_multiset().count(x) ==> (forall|i: int|
            0 <= i < r.len() ==> #[trigger] r[i].weight >= x.weight)
}

/// `m` occurs, as a value, among `mems`.
pub open spec fn mem_member(mems: Seq<MemoryView>, m: MemoryView) -> bool {
    exists|k: int| 0 <= k < mems.len() && mems[k] == m
}

/// Everything the full-text search promises of its result: empty on a
/// blank query, otherwise a weight-ranked top-`limit` of the matching
/// memories, each drawn from the store, with distinct identifiers
/// whenever the store's are distinct.
pub open spec fn fts_result_ok(
    mems: Seq<MemoryView>,
    q: Seq<char>,
    limit: int,
    v: Seq<MemoryView>,
) -> bool {
    &&& tokens(q).len() == 0 ==> v.len() == 0
    &&& tokens(q).len() > 0 ==> topk_by_weight(
        v,
        mems.filter(|m: MemoryView| fts_match(m, tokens(q))),
        limit,
    )
    &&& forall|i: int| 0 <= i < v.len() ==> fts_match(#[trigger] v[i], tokens(q))
    &&& forall|i: int| 0 <= i < v.len() ==> mem_member(mems, #[trigger] v[i])
    &&& crate::store::unique_mem_ids(mems) ==> forall|i: int, j: int|
        #![trigger v[i], v[j]]
        0 <= i < j < v.len() ==> v[i].id != v[j].id
}

/// The same promises for the keyword search, over a term list.
pub open spec fn kw_result_ok(
    mems: Seq<MemoryView>,
    kws: Seq<Seq<char>>,
    limit: int,
    v: Seq<MemoryView>,
) -> bool {
    &&& kws.len() == 0 ==> v.len() == 0
    &&& kws.len() > 0 ==> topk_by_weight(
        v,
        mems.filter(|m: MemoryView| kw_match(m, kws)),
        limit,
    )
    &&& forall|i: int| 0 <= i < v.len() ==> kw_match(#[trigger] v[i], kws)
    &&& forall|i: int| 0 <= i < v.len() ==> mem_member(mems, #[trigger] v[i])
    &&& crate::store::unique_mem_ids(mems) ==> forall|i: int, j: int|
        #![trigger v[i], v[j]]
        0 <= i < j < v.len() ==> v[i].id != v[j].id
}

/// A selection bounded by a pool of store members with distinct
/// identifiers consists of store members with distinct identifiers.
proof fn lemma_topk_members(out: Seq<MemoryView>, pool: Seq<MemoryView>, base: Seq<MemoryView>)
    requires
        forall|x: MemoryView| #[trigger]
            out.to_multiset().count(x) <= pool.to_multiset().count(x),
        forall|i: int| 0 <= i < pool.len() ==> mem_member(base, #[trigger] pool[i]),
        forall|i: int, j: int|
            #![trigger pool[i], pool[j]]
            0 <= i < j < pool.len() ==> pool[i].id != pool[j].id,
    ensures
        forall|i: int| 0 <= i < out.len() ==> mem_member(base, #[trigger] out[i]),
        forall|i: int, j: int|
            #![trigger out[i], out[j]]
            0 <= i < j < out.len() ==> out[i].id != out[j].id,
{
    broadcast use vstd::seq_lib::group_seq_properties;

    assert forall|i: int| 0 <= i < out.len() implies mem_member(base, #[trigger] out[i]) by {
        assert(out.contains(out[i]));
        assert(out.to_multiset().count(out[i]) > 0);
        assert(pool.to_multiset().count(out[i]) > 0);
        assert(pool.contains(out[i]));
        let k = choose|k: int| 0 <= k < pool.len() && pool[k] == out[i];
        assert(mem_member(base, pool[k]));
    }
    assert(pool.no_duplicates()) by {
        assert forall|i: int, j: int|
            0 <= i < pool.len() && 0 <= j < pool.len() && i != j implies pool[i] != pool[j] by {
            if i < j {
                assert(pool[i].id != pool[j].id);
            } else {
                assert(pool[j].id != pool[i].id);
            }
        }
    }
    pool.lemma_multiset_has_no_duplicates();
    assert forall|i: int, j: int|
        #![trigger out[i], out[j]]
        0 <= i < j < out.len() implies out[i].id != out[j].id by {
        if out[i].id == out[j].id {
            if out[i] == out[j] {
                let front = out.take(j);
                let back = out.skip(j);
                assert(out =~= front + back);
                vstd::seq_lib::lemma_multiset_commutative(front, back);
                assert(front[i] == out[i]);
                assert(front.contains(out[i]));
                assert(front.to_multiset().count(out[i]) >= 1);
                assert(back[0] == out[j]);
                assert(back.contains(out[i]));
                assert(back.to_multiset().count(out[i]) >= 1);
                assert(out.to_multiset().count(out[i]) >= 2);
                assert(pool.to_multiset().count(out[i]) >= 2);
                assert(pool.contains(out[i]));
                assert(pool.to_multiset().count(out[i]) == 1);
            } else {
                assert(out.contains(out[i]) && out.contains(out[j]));
                assert(out.to_multiset().count(out[i]) > 0);
                assert(out.to_multiset().count(out[j]) > 0);
                assert(pool.contains(out[i]));
                assert(pool.contains(out[j]));
                let a = choose|a: int| 0 <= a < pool.len() && pool[a] == out[i];
                let b = choose|b: int| 0 <= b < pool.len() && pool[b] == out[j];
                assert(a != b);
                if a < b {
                    assert(pool[a].id != pool[b].id);
                } else {
                    assert(pool[b].id != pool[a].id);
                }
            }
        }
    }
}

/// Everything left out of a sorted prefix weighs no more than what is in
/// it.
proof fn lemma_sorted_prefix_topk(sorted: Seq<MemoryView>, k: int)
    requires
        sorted_desc_weight(sorted),
        0 <= k <= sorted.len(),
    ensures
        topk_by_weight(sorted.take(k), sorted, k),
{
    let r = sorted.take(k);
    let rest = sorted.skip(k);
    assert(sorted =~= r + rest);
    vstd::seq_lib::lemma_multiset_commutative(r, rest);
    assert forall|x: MemoryView| #[trigger]
        sorted.to_multiset().count(x) > r.to_multiset().count(x) implies (forall|i: int|
        0 <= i < r.len() ==> #[trigger] r[i].weight >= x.weight) by {
        assert(rest.to_multiset().count(x) > 0);
        assert(rest.contains(x));
        let j = choose|j: int| 0 <= j < rest.len() && rest[j] == x;
        assert(sorted[k + j] == x);
        assert forall|i: int| 0 <= i < r.len() implies #[trigger] r[i].weight >= x.weight by {
            assert(sorted[i] == r[i]);
        }
    }
}

/// Does one term occur in this memory, case-insensitively?
fn mem_hits_kw(m: &Memory, kw: &str) -> (r: bool)
    ensures
        r == kw_hit(m@, kw@),
{
    if contains_ci(m.topic.as_str(), kw) {
        return true;
    }
    if contains_ci(m.summary.as_str(), kw) {
        return true;
    }
    let mut i: usize = 0;
    while i < m.keywords.len()
        invariant
            i <= m@.keywords.len(),
            m.keywords.deep_view() == m@.keywords,
            !contains_seq(lower(m@.topic), lower(kw@)),
            !contains_seq(lower(m@.summary), lower(kw@)),
            forall|j: int|
                0 <= j < i ==> !contains_seq(lower(#[trigger] m@.keywords[j]), lower(kw@)),
        decreases m@.keywords.len() - i,
    {
        if contains_ci(m.keywords[i].as_str(), kw) {
            proof {
                assert(kw_hit(m@, kw@)) by {
                    assert(contains_seq(lower(m@.keywords[i as int]), lower(kw@)));
                }
            }
            return true;
        }
        i = i + 1;
    }
    false
}

/// Does any of the terms occur in this memory?
fn mem_matches_any(m: &Memory, kws: &Vec<String>) -> (r: bool)
    ensures
        r == kw_match(m@, kws.deep_view()),
{
    let mut k: usize = 0;
    while k < kws.len()
        invariant
            k <= kws@.len(),
            forall|j: int| 0 <= j < k ==> !kw_hit(m@, #[trigger] kws.deep_view()[j]),
        decreases kws@.len() - k,
    {
        if mem_hits_kw(m, kws[k].as_str()) {
            proof {
                assert(kw_match(m@, kws.deep_view())) by {
                    assert(kw_hit(m@, kws.deep_view()[k as int]));
                }
            }
            return true;
        }
        k = k + 1;
    }
    false
}

/// Do all of the tokens occur in this memory?
fn mem_matches_all(m: &Memory, toks: &Vec<String>) -> (r: bool)
    ensures
        r == fts_match(m@, toks.deep_view()),
{
    let mut k: usize = 0;
    while k < toks.len()
        invariant
            k <= toks@.len(),
            forall|j: int| 0 <= j < k ==> kw_hit(m@, #[trigger] toks.deep_view()[j]),
        decreases toks@.len() - k,
    {
        if !mem_hits_kw(m, toks[k].as_str()) {
            proof {
                assert(!fts_match(m@, toks.deep_view())) by {
                    assert(!kw_hit(m@, toks.deep_view()[k as int]));
                }
            }
            return false;
        }
        k = k + 1;
    }
    true
}

impl Store {
    /// Case-insensitive substring search, OR across the given terms,
    /// heaviest matches first, at most `limit` results. An empty term list
    /// returns nothing.
    pub fn search_by_keywords(&self, keywords: &Vec<String>, limit: usize) -> (r: IcmResult<
        Vec<Memory>,
    >)
        requires
            self.wf(),
        ensures
            r matches Ok(v) && {
                &&& keywords@.len() == 0 ==> v@.len() == 0
                &&& keywords@.len() > 0 ==> topk_by_weight(
                    v.deep_view(),
                    self@.mems.filter(|m: MemoryView| kw_match(m, keywords.deep_view())),
                    limit as int,
                )
                &&& forall|i: int|
                    0 <= i < v.deep_view().len() ==> kw_match(
                        #[trigger] v.deep_view()[i],
                        keywords.deep_view(),
                    )
                &&& kw_result_ok(self@.mems, keywords.deep_view(), limit as int, v.deep_view())
            },
    {
        if keywords.len() == 0 {
            let v: Vec<Memory> = Vec::new();
            return Ok(v);
        }
        let picked = self.collect_matching_any(keywords);
        let sorted = sort_memories_desc(picked);
        let ghost sortedv = sorted.deep_view();
        let out = take_prefix(sorted, limit);
        proof {
            let pred = |m: MemoryView| kw_match(m, keywords.deep_view());
            lemma_sorted_matches_topk(out.deep_view(), sortedv, self@.mems, pred, limit as int);
            let pool = self@.mems.filter(pred);
            assert forall|i: int|
                0 <= i < pool.len() implies mem_member(self@.mems, #[trigger] pool[i]) by {
                crate::store::lemma_filter_member_at(self@.mems, pred, i);
            }
            crate::store::lemma_filter_keeps_pairwise(
                self@.mems,
                pred,
                |a: MemoryView, b: MemoryView| a.id == b.id,
            );
            lemma_topk_members(out.deep_view(), pool, self@.mems);
        }
        Ok(out)
    }

    /// Full-text search: every whitespace token of the query must occur,
    /// case-insensitively; heaviest matches first, at most `limit`
    /// results. A blank query returns nothing.
    pub fn search_fts(&self, query: &str, limit: usize) -> (r: IcmResult<Vec<Memory>>)
        requires
            self.wf(),
        ensures
            r matches Ok(v) && {
                &&& tokens(query@).len() == 0 ==> v@.len() == 0
                &&& tokens(query@).len() > 0 ==> topk_by_weight(
                    v.deep_view(),
                    self@.mems.filter(|m: MemoryView| fts_match(m, tokens(query@))),
                    limit as int,
                )
                &&& forall|i: int|
                    0 <= i < v.deep_view().len() ==> fts_match(
                        #[trigger] v.deep_view()[i],
                        tokens(query@),
                    )
                &&& fts_result_ok(self@.mems, query@, limit as int, v.deep_view())
            },
    {
        let toks = split_words(query);
        if toks.len() == 0 {
            let v: Vec<Memory> = Vec::new();
            return Ok(v);
        }
        let picked = self.collect_matching_all(&toks);
        let sorted = sort_memories_desc(picked);
        let ghost sortedv = sorted.deep_view();
        let out = take_prefix(sorted, limit);
        proof {
            let pred = |m: MemoryView| fts_match(m, tokens(query@));
            lemma_sorted_matches_topk(out.deep_view(), sortedv, self@.mems, pred, limit as int);
            let pool = self@.mems.filter(pred);
            assert forall|i: int|
                0 <= i < pool.len() implies mem_member(self@.mems, #[trigger] pool[i]) by {
                crate::store::lemma_filter_member_at(self@.mems, pred, i);
            }
            crate::store::lemma_filter_keeps_pairwise(
                self@.mems,
                pred,
                |a: MemoryView, b: MemoryView| a.id == b.id,
            );
            lemma_topk_members(out.deep_view(), pool, self@.mems);
        }
        Ok(out)
    }

    /// The memories matching any of the terms, in store order.
    fn collect_matching_any(&self, keywords: &Vec<String>) -> (v: Vec<Memory>)
        requires
            self.wf(),
        ensures
            v.deep_view() == self@.mems.filter(
                |m: MemoryView| kw_match(m, keywords.deep_view()),
            ),
    {
        let ghost all = self@.mems;
        let mut picked: Vec<Memory> = Vec::new();
        let mut i: usize = 0;
        proof {
            assert(all.take(0) =~= Seq::<MemoryView>::empty());
            assert(picked.deep_view() =~= all.take(0).filter(
                |m: MemoryView| kw_match(m, keywords.deep_view()),
            ));
        }
        while i < self.mems.len()
            invariant
                i <= all.len(),
                self.mems.deep_view() == all,
                picked.deep_view() == all.take(i as int).filter(
                    |m: MemoryView| kw_match(m, keywords.deep_view()),
                ),
            decreases all.len() - i,
        {
            proof {
                assert(all.take(i + 1) =~= all.take(i as int).push(all[i as int]));
                lemma_filter_push(
                    all.take(i as int),
                    |m: MemoryView| kw_match(m, keywords.deep_view()),
                    all[i as int],
                );
            }
            let ghost prev = picked.deep_view();
            if mem_matches_any(&self.mems[i], keywords) {
                picked.push(clone_memory(&self.mems[i]));
                proof {
                    assert(picked.deep_view() =~= prev.push(all[i as int]));
                }
            }
            i = i + 1;
        }
        proof {
            assert(all.take(all.len() as int) =~= all);
        }
        picked
    }

    /// The memories matching all of the tokens, in store order.
    fn collect_matching_all(&self, toks: &Vec<String>) -> (v: Vec<Memory>)
        requires
            self.wf(),
        ensures
            v.deep_view() == self@.mems.filter(
                |m: MemoryView| fts_match(m, toks.deep_view()),
            ),
    {
        let ghost all = self@.mems;
        let mut picked: Vec<Memory> = Vec::new();
        let mut i: usize = 0;
        proof {
            assert(all.take(0) =~= Seq::<MemoryView>::empty());
            assert(picked.deep_view() =~= all.take(0).filter(
                |m: MemoryView| fts_match(m, toks.deep_view()),
            ));
        }
        while i < self.mems.len()
            invariant
                i <= all.len(),
                self.mems.deep_view() == all,
                picked.deep_view() == all.take(i as int).filter(
                    |m: MemoryView| fts_match(m, toks.deep_view()),
                ),
            decreases all.len() - i,
        {
            proof {
                assert(all.take(i + 1) =~= all.take(i as int).push(all[i as int]));
                lemma_filter_push(
                    all.take(i as int),
                    |m: MemoryView| fts_match(m, toks.deep_view()),
                    all[i as int],
                );
            }
            let ghost prev = picked.deep_view();
            if mem_matches_all(&self.mems[i], toks) {
                picked.push(clone_memory(&self.mems[i]));
                proof {
                    assert(picked.deep_view() =~= prev.push(all[i as int]));
                }
            }
            i = i + 1;
        }
        proof {
            assert(all.take(all.len() as int) =~= all);
        }
        picked
    }
}

/// Keep only the first `k` elements.
fn take_prefix(mut v: Vec<Memory>, k: usize) -> (r: Vec<Memory>)
    ensures
        r.deep_view() == v.deep_view().take(
            if v.deep_view().len() < k {
                v.deep_view().len() as int
            } else {
                k as int
            },
        ),
{
    let ghost pre = v.deep_view();
    if v.len() > k {
        v.truncate(k);
        proof {
            assert(v.deep_view() =~= pre.take(k as int));
        }
    } else {
        proof {
            assert(v.deep_view() =~= pre.take(pre.len() as int));
        }
    }
    v
}

/// A sorted, truncated copy of a filtered pool is a top-`k` selection of
/// it, and all its entries satisfy the filter.
proof fn lemma_sorted_matches_topk(
    out: Seq<MemoryView>,
    sortedv: Seq<MemoryView>,
    base: Seq<MemoryView>,
    pred: spec_fn(MemoryView) -> bool,
    k: int,
)
    requires
        k >= 0,
        base.filter(pred).to_multiset() == sortedv.to_multiset(),
        sorted_desc_weight(sortedv),
        out == sortedv.take(
            if sortedv.len() < k {
                sortedv.len() as int
            } else {
                k
            },
        ),
    ensures
        topk_by_weight(out, base.filter(pred), k),
        forall|i: int| 0 <= i < out.len() ==> pred(#[trigger] out[i]),
{
    let pool = base.filter(pred);
    assert(pool.len() == sortedv.len()) by {
        assert(pool.to_multiset().len() == sortedv.to_multiset().len());
    }
    let kk = if sortedv.len() < k {
        sortedv.len() as int
    } else {
        k
    };
    lemma_sorted_prefix_topk(sortedv, kk);
    assert forall|x: MemoryView| #[trigger]
        pool.to_multiset().count(x) > out.to_multiset().count(x) implies (forall|i: int|
        0 <= i < out.len() ==> #[trigger] out[i].weight >= x.weight) by {
        assert(sortedv.to_multiset().count(x) > out.to_multiset().count(x));
    }
    assert forall|i: int| 0 <= i < out.len() implies pred(#[trigger] out[i]) by {
        assert(out.to_multiset().count(out[i]) > 0) by {
            assert(out.contains(out[i]));
        }
        assert(pool.to_multiset().count(out[i]) > 0);
        assert(pool.contains(out[i]));
        let j = choose|j: int| 0 <= j < pool.len() && pool[j] == out[i];
        assert(pred(pool[j]));
    }
}

} // verus!
