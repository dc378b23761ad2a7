//! The library's general guarantees, stated and proved once over the
//! specification-level models that the operation contracts use.

use vstd::prelude::*;

use crate::memoir_store::merge_sources;
use crate::memory::{MemoryView, WEIGHT_SCALE};
use crate::store::{decayed, has_mem, is_critical, mem_at, mem_idx, surviving, unique_mem_ids};

verus! {

broadcast use vstd::seq_lib::group_seq_lib_default;

/// A stored memory is retrieved unchanged: after inserting a record with
/// a fresh identifier, the lookup of that identifier yields exactly it.
pub proof fn lemma_stored_memory_is_retrievable(mems: Seq<MemoryView>, m: MemoryView)
    requires
        unique_mem_ids(mems),
        !has_mem(mems, m.id),
    ensures
        has_mem(mems.push(m), m.id),
        mem_at(mems.push(m), m.id) == m,
{
    let s2 = mems.push(m);
    assert(s2[mems.len() as int].id == m.id);
    let j = mem_idx(s2, m.id);
    assert(s2[j].id == m.id);
    if j < mems.len() {
        assert(mems[j].id == m.id);
    }
}

/// A critical memory survives any prune: whatever the threshold, it is
/// still among the survivors, unchanged.
pub proof fn lemma_critical_survives_prune(mems: Seq<MemoryView>, threshold: int, i: int)
    requires
        0 <= i < mems.len(),
        is_critical(mems[i]),
    ensures
        surviving(mems, threshold).contains(mems[i]),
{
    reveal(Seq::filter);
    mems.lemma_filter_contains(
        |m: MemoryView| m.weight >= threshold || is_critical(m),
        i,
    );
}

/// One decay step with a factor in (0, 1] never raises a weight, and
/// sets it to exactly the fixed-point product `w * f / 1.0`.
pub proof fn lemma_decay_shrinks_weight(m: MemoryView, factor: int)
    requires
        0 <= m.weight <= u64::MAX,
        0 < factor <= WEIGHT_SCALE,
    ensures
        decayed(m, factor).weight == m.weight * factor / (WEIGHT_SCALE as int),
        decayed(m, factor).weight <= m.weight,
        decayed(m, factor) == (MemoryView { weight: decayed(m, factor).weight, ..m }),
{
    crate::store::lemma_decay_bounds(m.weight, factor);
}

/// Refinement keeps every source identifier already present, in place,
/// and records every new one: the merge holds the base as a prefix and
/// contains each added entry.
pub proof fn lemma_merge_sources_keeps_and_adds(base: Seq<Seq<char>>, add: Seq<Seq<char>>)
    ensures
        merge_sources(base, add).len() >= base.len(),
        forall|i: int|
            0 <= i < base.len() ==> #[trigger] merge_sources(base, add)[i] == base[i],
        forall|k: int|
            0 <= k < add.len() ==> merge_sources(base, add).contains(#[trigger] add[k]),
    decreases add.len(),
{
    if add.len() == 0 {
    } else {
        let rest = merge_sources(base, add.drop_last());
        lemma_merge_sources_keeps_and_adds(base, add.drop_last());
        assert forall|k: int|
            0 <= k < add.len() implies merge_sources(base, add).contains(#[trigger] add[k]) by {
            if k < add.len() - 1 {
                assert(add.drop_last()[k] == add[k]);
                assert(rest.contains(add[k]));
                let w = choose|w: int| 0 <= w < rest.len() && rest[w] == add[k];
                if rest.contains(add.last()) {
                    assert(merge_sources(base, add)[w] == add[k]);
                } else {
                    assert(merge_sources(base, add)[w] == add[k]);
                }
            } else {
                assert(add[k] == add.last());
                if rest.contains(add.last()) {
                } else {
                    assert(merge_sources(base, add).last() == add.last());
                }
            }
        }
    }
}

/// In a fused retrieval, a memory found by both modalities scores
/// strictly above one found by a single modality.
pub proof fn lemma_hybrid_prefers_both(
    out: Seq<(MemoryView, int)>,
    lex: Seq<MemoryView>,
    vecs: Seq<MemoryView>,
    limit: int,
    k: int,
    l: int,
)
    requires
        crate::vector::fused_result(out, lex, vecs, limit),
        0 <= k < out.len(),
        0 <= l < out.len(),
        crate::vector::in_list(lex, out[k].0.id) && crate::vector::in_list(vecs, out[k].0.id),
        !(crate::vector::in_list(lex, out[l].0.id) && crate::vector::in_list(
            vecs,
            out[l].0.id,
        )),
    ensures
        out[k].1 > out[l].1,
{
    assert(out[k].1 == crate::vector::modality_count(lex, vecs, out[k].0.id));
    assert(out[l].1 == crate::vector::modality_count(lex, vecs, out[l].0.id));
}

} // verus!
