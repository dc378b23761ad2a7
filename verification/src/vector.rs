//! Vector and hybrid retrieval over the memory store. Embeddings are
//! fixed-scale integer vectors; similarity is the exact dot product
//! (cosine order for normalised vectors). The hybrid blend ranks
//! presence in both modalities above presence in one, breaking ties by
//! weight, which keeps it monotonic and stable under modality
//! duplication.

use vstd::prelude::*;

use crate::errors::IcmResult;
use crate::memory::{clone_memory, Memory, MemoryView};
use crate::search::{fts_match, topk_by_weight};
use crate::store::{lemma_filter_push, Store};
use crate::text::tokens;

verus! {

broadcast use vstd::seq_lib::group_seq_lib_default, vstd::seq_lib::group_to_multiset_ensures;

/// The largest component magnitude the engine accepts in an embedding.
pub const EMBED_COMPONENT_LIMIT: i64 = 1_000_000_000;

/// Every component within the accepted range.
pub open spec fn in_range(v: Seq<i64>) -> bool {
    forall|i: int|
        0 <= i < v.len() ==> -EMBED_COMPONENT_LIMIT <= #[trigger] v[i] <= EMBED_COMPONENT_LIMIT
}

/// The dot product of two equal-length vectors.
pub open spec fn dot(a: Seq<i64>, b: Seq<i64>) -> int
    decreases a.len(),
{
    if a.len() == 0 || b.len() == 0 {
        0
    } else {
        dot(a.drop_last(), b.drop_last()) + a.last() * b.last()
    }
}

/// A memory that takes part in vector search for this query: it carries
/// an embedding of the query's length with components in range.
pub open spec fn vector_candidate(m: MemoryView, q: Seq<i64>) -> bool {
    m.embedding matches Some(e) && e.len() == q.len() && in_range(e)
}

/// Scores never grow along the sequence.
pub open spec fn sorted_desc_score(s: Seq<(MemoryView, int)>) -> bool {
    forall|i: int, j: int| 0 <= i < j < s.len() ==> s[i].1 >= s[j].1
}

/// The scored view of a result list.
pub open spec fn scored_view(v: Seq<(Memory, i128)>) -> Seq<(MemoryView, int)> {
    v.map_values(|p: (Memory, i128)| (p.0@, p.1 as int))
}

/// The memories of a scored list, scores dropped.
pub open spec fn scored_members(v: Seq<(MemoryView, int)>) -> Seq<MemoryView> {
    v.map_values(|p: (MemoryView, int)| p.0)
}

/// Bounds for one dot-product accumulation step.
proof fn lemma_dot_bounds(a: Seq<i64>, b: Seq<i64>)
    requires
        a.len() == b.len(),
        in_range(a),
        in_range(b),
    ensures
        -(a.len() as int) * (EMBED_COMPONENT_LIMIT as int) * (EMBED_COMPONENT_LIMIT as int) <= dot(
            a,
            b,
        ) <= (a.len() as int) * (EMBED_COMPONENT_LIMIT as int) * (EMBED_COMPONENT_LIMIT as int),
    decreases a.len(),
{
    let lim = EMBED_COMPONENT_LIMIT as int;
    if a.len() == 0 {
    } else {
        assert(in_range(a.drop_last()));
        assert(in_range(b.drop_last()));
        lemma_dot_bounds(a.drop_last(), b.drop_last());
        assert(-lim * lim <= a.last() * b.last() <= lim * lim) by (nonlinear_arith)
            requires
                -lim <= a.last() <= lim,
                -lim <= b.last() <= lim,
                lim == EMBED_COMPONENT_LIMIT as int,
        ;
        assert((a.len() as int) * lim * lim == (a.drop_last().len() as int) * lim * lim + lim
            * lim) by (nonlinear_arith)
            requires
                a.len() >= 1 && a.drop_last().len() == a.len() - 1,
        ;
    }
}

/// Compute the dot product, exact with respect to `dot`.
fn dot_exec(a: &Vec<i64>, b: &Vec<i64>) -> (r: i128)
    requires
        a@.len() == b@.len(),
        in_range(a@),
        in_range(b@),
        a@.len() <= usize::MAX,
    ensures
        r as int == dot(a@, b@),
{
    let mut acc: i128 = 0;
    let mut i: usize = 0;
    proof {
        assert(a@.take(0) =~= Seq::<i64>::empty());
        assert(b@.take(0) =~= Seq::<i64>::empty());
    }
    while i < a.len()
        invariant
            i <= a@.len(),
            a@.len() == b@.len(),
            in_range(a@),
            in_range(b@),
            acc as int == dot(a@.take(i as int), b@.take(i as int)),
            -(i as int) * (EMBED_COMPONENT_LIMIT as int) * (EMBED_COMPONENT_LIMIT as int)
                <= acc as int <= (i as int) * (EMBED_COMPONENT_LIMIT as int) * (
            EMBED_COMPONENT_LIMIT as int),
        decreases a@.len() - i,
    {
        proof {
            let ta = a@.take(i + 1);
            let tb = b@.take(i + 1);
            assert(ta.drop_last() =~= a@.take(i as int));
            assert(tb.drop_last() =~= b@.take(i as int));
            assert(ta.last() == a@[i as int]);
            assert(tb.last() == b@[i as int]);
            let lim = EMBED_COMPONENT_LIMIT as int;
            assert(-lim * lim <= a@[i as int] * b@[i as int] <= lim * lim) by (nonlinear_arith)
                requires
                    -lim <= a@[i as int] <= lim,
                    -lim <= b@[i as int] <= lim,
                    lim == EMBED_COMPONENT_LIMIT as int,
            ;
            assert((i + 1) * lim * lim == (i as int) * lim * lim + lim * lim) by (
            nonlinear_arith);
            assert((i as int) * lim * lim <= (usize::MAX as int) * lim * lim) by (
            nonlinear_arith)
                requires
                    0 <= i as int <= usize::MAX as int && lim == EMBED_COMPONENT_LIMIT as int,
            ;
        }
        acc = acc + (a[i] as i128) * (b[i] as i128);
        i = i + 1;
    }
    proof {
        assert(a@.take(a@.len() as int) =~= a@);
        assert(b@.take(b@.len() as int) =~= b@);
    }
    acc
}

/// Is every component of this vector within the accepted range?
fn in_range_exec(v: &Vec<i64>) -> (r: bool)
    ensures
        r == in_range(v@),
{
    let mut i: usize = 0;
    while i < v.len()
        invariant
            i <= v@.len(),
            forall|k: int|
                0 <= k < i ==> -EMBED_COMPONENT_LIMIT <= #[trigger] v@[k]
                    <= EMBED_COMPONENT_LIMIT,
        decreases v@.len() - i,
    {
        if v[i] < -EMBED_COMPONENT_LIMIT || v[i] > EMBED_COMPONENT_LIMIT {
            proof {
                assert(!(-EMBED_COMPONENT_LIMIT <= v@[i as int] <= EMBED_COMPONENT_LIMIT));
            }
            return false;
        }
        i = i + 1;
    }
    true
}

impl Store {
    /// Nearest memories by dot-product similarity: every candidate (an
    /// embedding of the query's length, in range) is scored exactly, and
    /// the highest-scoring `limit` of them come back, best first.
    pub fn search_by_embedding(&self, query: &Vec<i64>, limit: usize) -> (r: IcmResult<
        Vec<(Memory, i128)>,
    >)
        requires
            self.wf(),
            in_range(query@),
        ensures
            r matches Ok(v) && {
                let pool = self@.mems.filter(|m: MemoryView| vector_candidate(m, query@));
                let sv = scored_view(v@);
                &&& sv.len() == (if pool.len() < limit {
                    pool.len() as int
                } else {
                    limit as int
                })
                &&& sorted_desc_score(sv)
                &&& forall|i: int|
                    0 <= i < sv.len() ==> vector_candidate((#[trigger] sv[i]).0, query@)
                        && sv[i].1 == dot(query@, sv[i].0.embedding->0)
                &&& forall|x: MemoryView| #[trigger]
                    scored_members(sv).to_multiset().count(x) <= pool.to_multiset().count(x)
            },
    {
        let ghost all = self@.mems;
        let ghost pred = |m: MemoryView| vector_candidate(m, query@);
        let mut scored: Vec<(Memory, i128)> = Vec::new();
        let mut i: usize = 0;
        proof {
            assert(all.take(0) =~= Seq::<MemoryView>::empty());
            assert(scored_members(scored_view(scored@)) =~= all.take(0).filter(pred));
        }
        while i < self.mems.len()
            invariant
                i <= all.len(),
                self.mems.deep_view() == all,
                in_range(query@),
                pred == (|m: MemoryView| vector_candidate(m, query@)),
                scored_members(scored_view(scored@)) == all.take(i as int).filter(pred),
                forall|k: int|
                    0 <= k < scored@.len() ==> vector_candidate(
                        (#[trigger] scored_view(scored@)[k]).0,
                        query@,
                    ) && scored_view(scored@)[k].1 == dot(
                        query@,
                        scored_view(scored@)[k].0.embedding->0,
                    ),
            decreases all.len() - i,
        {
            proof {
                assert(all.take(i + 1) =~= all.take(i as int).push(all[i as int]));
                lemma_filter_push(all.take(i as int), pred, all[i as int]);
            }
            let ghost prev = scored@;
            let m = &self.mems[i];
            let mut keep = false;
            let mut score: i128 = 0;
            match &m.embedding {
                Some(e) => {
                    if e.len() == query.len() && in_range_exec(e) {
                        score = dot_exec(query, e);
                        keep = true;
                    }
                },
                None => {},
            }
            if keep {
                scored.push((clone_memory(m), score));
                proof {
                    assert(scored_view(scored@) =~= scored_view(prev).push(
                        (all[i as int], score as int),
                    ));
                    assert(scored_members(scored_view(scored@)) =~= all.take(i + 1).filter(
                        pred,
                    ));
                }
            }
            i = i + 1;
        }
        proof {
            assert(all.take(all.len() as int) =~= all);
        }
        let sorted = sort_scored_pairs_desc(scored);
        let ghost sortedv = sorted@;
        let mut out = sorted;
        let ghost outfull = out@;
        if out.len() > limit {
            out.truncate(limit);
            proof {
                assert(out@ =~= outfull.take(limit as int));
            }
        }
        proof {
            let pool = all.filter(pred);
            let sv = scored_view(out@);
            assert(forall|k: int| 0 <= k < out@.len() ==> #[trigger] out@[k] == outfull[k]);
            assert(scored_members(scored_view(outfull)).to_multiset() =~= pool.to_multiset())
                by {
                lemma_scored_members_multiset(outfull, scored@);
            }
            assert(sv.len() == (if pool.len() < limit {
                pool.len() as int
            } else {
                limit as int
            })) by {
                assert(scored_members(scored_view(outfull)).to_multiset().len()
                    == pool.to_multiset().len());
            }
            assert forall|x: MemoryView| #[trigger]
                scored_members(sv).to_multiset().count(x) <= pool.to_multiset().count(x) by {
                lemma_prefix_member_counts(outfull, out@.len() as int, x);
            }
            assert(scored_view(out@) =~= scored_view(outfull).take(out@.len() as int));
            assert forall|a: int, b: int| 0 <= a < b < sv.len() implies sv[a].1 >= sv[b].1 by {
                assert(sv[a] == scored_view(outfull)[a]);
                assert(sv[b] == scored_view(outfull)[b]);
            }
            lemma_scored_view_multiset(outfull, scored@);
            assert forall|k: int|
                0 <= k < sv.len() implies vector_candidate((#[trigger] sv[k]).0, query@)
                && sv[k].1 == dot(query@, sv[k].0.embedding->0) by {
                assert(out@[k] == outfull[k]);
                assert(sv[k] == scored_view(outfull)[k]);
                assert(scored_view(outfull).to_multiset().count(scored_view(outfull)[k]) > 0)
                    by {
                    assert(scored_view(outfull).contains(scored_view(outfull)[k]));
                }
                assert(scored_view(scored@).to_multiset().count(scored_view(outfull)[k]) > 0);
                assert(scored_view(scored@).contains(scored_view(outfull)[k]));
                let w = choose|w: int|
                    0 <= w < scored_view(scored@).len() && scored_view(scored@)[w]
                        == scored_view(outfull)[k];
                assert(vector_candidate(scored_view(scored@)[w].0, query@));
            }
        }
        Ok(out)
    }
}

/// Some entry of the list carries this identifier.
pub open spec fn in_list(s: Seq<MemoryView>, id: Seq<char>) -> bool {
    exists|i: int| 0 <= i < s.len() && (#[trigger] s[i]).id == id
}

/// How many of the two retrieval modalities produced this identifier.
pub open spec fn modality_count(lex: Seq<MemoryView>, vecs: Seq<MemoryView>, id: Seq<char>) -> int {
    (if in_list(lex, id) {
        1int
    } else {
        0int
    }) + (if in_list(vecs, id) {
        1int
    } else {
        0int
    })
}

/// The fused ranking relation: presence in both modalities beats
/// presence in one; equal presence is broken by weight.
pub open spec fn fused_sorted(s: Seq<(MemoryView, int)>) -> bool {
    forall|i: int, j: int|
        0 <= i < j < s.len() ==> (s[i].1 > s[j].1 || (s[i].1 == s[j].1 && s[i].0.weight
            >= s[j].0.weight))
}

/// What a fusion of two retrieval lists returns: each entry comes from
/// one of the lists, scored by how many modalities produced it; entries
/// carry distinct identifiers, ranked by score then weight; nothing is
/// left out unless the limit was reached.
pub open spec fn fused_result(
    out: Seq<(MemoryView, int)>,
    lex: Seq<MemoryView>,
    vecs: Seq<MemoryView>,
    limit: int,
) -> bool {
    &&& out.len() <= limit
    &&& fused_sorted(out)
    &&& forall|k: int, l: int|
        #![trigger out[k], out[l]]
        0 <= k < l < out.len() ==> out[k].0.id != out[l].0.id
    &&& forall|k: int|
        0 <= k < out.len() ==> (in_list(lex, (#[trigger] out[k]).0.id) || in_list(
            vecs,
            out[k].0.id,
        )) && out[k].1 == modality_count(lex, vecs, out[k].0.id)
    &&& out.len() < limit ==> (forall|i: int|
        0 <= i < lex.len() ==> in_list(scored_members(out), (#[trigger] lex[i]).id)) && (
    forall|i: int|
        0 <= i < vecs.len() ==> in_list(scored_members(out), (#[trigger] vecs[i]).id))
}

/// Fuse a lexical and a vector retrieval: score each distinct memory by
/// the number of modalities that produced it, rank by score then weight,
/// and keep the best `limit`.
pub fn fuse_results(lex: Vec<Memory>, vecs: Vec<Memory>, limit: usize) -> (r: Vec<(Memory, i128)>)
    ensures
        fused_result(scored_view(r@), lex.deep_view(), vecs.deep_view(), limit as int),
{
    let ghost lexv = lex.deep_view();
    let ghost vecsv = vecs.deep_view();
    let mut acc: Vec<(Memory, i128)> = Vec::new();
    // take every entry of both lists once, scored by its modality count
    let mut i: usize = 0;
    while i < lex.len()
        invariant
            i <= lexv.len(),
            lex.deep_view() == lexv,
            vecs.deep_view() == vecsv,
            forall|k: int, l: int|
                #![trigger acc@[k], acc@[l]]
                0 <= k < l < acc@.len() ==> acc@[k].0@.id != acc@[l].0@.id,
            forall|k: int|
                0 <= k < acc@.len() ==> (in_list(lexv, (#[trigger] acc@[k]).0@.id) || in_list(
                    vecsv,
                    acc@[k].0@.id,
                )) && acc@[k].1 as int == modality_count(lexv, vecsv, acc@[k].0@.id),
            forall|w: int|
                0 <= w < i ==> in_list(
                    scored_members(scored_view(acc@)),
                    (#[trigger] lexv[w]).id,
                ),
        decreases lexv.len() - i,
    {
        push_if_new(&mut acc, &lex[i], &lex, &vecs, Ghost(lexv), Ghost(vecsv));
        proof {
            assert(in_list(scored_members(scored_view(acc@)), lexv[i as int].id));
        }
        i = i + 1;
    }
    let mut j: usize = 0;
    while j < vecs.len()
        invariant
            j <= vecsv.len(),
            lex.deep_view() == lexv,
            vecs.deep_view() == vecsv,
            forall|k: int, l: int|
                #![trigger acc@[k], acc@[l]]
                0 <= k < l < acc@.len() ==> acc@[k].0@.id != acc@[l].0@.id,
            forall|k: int|
                0 <= k < acc@.len() ==> (in_list(lexv, (#[trigger] acc@[k]).0@.id) || in_list(
                    vecsv,
                    acc@[k].0@.id,
                )) && acc@[k].1 as int == modality_count(lexv, vecsv, acc@[k].0@.id),
            forall|w: int|
                0 <= w < lexv.len() ==> in_list(
                    scored_members(scored_view(acc@)),
                    (#[trigger] lexv[w]).id,
                ),
            forall|w: int|
                0 <= w < j ==> in_list(
                    scored_members(scored_view(acc@)),
                    (#[trigger] vecsv[w]).id,
                ),
        decreases vecsv.len() - j,
    {
        push_if_new(&mut acc, &vecs[j], &lex, &vecs, Ghost(lexv), Ghost(vecsv));
        proof {
            assert(in_list(scored_members(scored_view(acc@)), vecsv[j as int].id));
        }
        j = j + 1;
    }
    // rank: score first, weight second
    let sorted = sort_fused_desc(acc);
    let ghost sortedv = sorted@;
    let mut out = sorted;
    let ghost outfull = out@;
    if out.len() > limit {
        out.truncate(limit);
        proof {
            assert(out@ =~= outfull.take(limit as int));
        }
    }
    proof {
        assert(forall|k: int| 0 <= k < out@.len() ==> #[trigger] out@[k] == outfull[k]);
        let sv = scored_view(out@);
        assert(scored_view(out@) =~= scored_view(outfull).take(out@.len() as int));
        assert forall|a: int, b: int|
            0 <= a < b < sv.len() implies (sv[a].1 > sv[b].1 || (sv[a].1 == sv[b].1
            && sv[a].0.weight >= sv[b].0.weight)) by {
            assert(sv[a] == scored_view(outfull)[a]);
            assert(sv[b] == scored_view(outfull)[b]);
        }
        if out@.len() < limit {
            assert(out@ =~= outfull);
            assert forall|w: int| 0 <= w < lexv.len() implies in_list(
                scored_members(scored_view(out@)),
                (#[trigger] lexv[w]).id,
            ) by {
                lemma_in_list_permuted(outfull, acc@, lexv[w].id);
            }
            assert forall|w: int| 0 <= w < vecsv.len() implies in_list(
                scored_members(scored_view(out@)),
                (#[trigger] vecsv[w]).id,
            ) by {
                lemma_in_list_permuted(outfull, acc@, vecsv[w].id);
            }
        }
        assert forall|k: int, l: int|
            #![trigger sv[k], sv[l]]
            0 <= k < l < sv.len() implies sv[k].0.id != sv[l].0.id by {
            lemma_pair_distinct_permuted(outfull, acc@, k, l);
        }
        assert forall|k: int|
            0 <= k < sv.len() implies (in_list(lexv, (#[trigger] sv[k]).0.id) || in_list(
            vecsv,
            sv[k].0.id,
        )) && sv[k].1 == modality_count(lexv, vecsv, sv[k].0.id) by {
            broadcast use vstd::seq_lib::group_to_multiset_ensures;

            assert(outfull.to_multiset().count(outfull[k]) > 0) by {
                assert(outfull.contains(outfull[k]));
            }
            assert(acc@.contains(outfull[k]));
            let w = choose|w: int| 0 <= w < acc@.len() && acc@[w] == outfull[k];
            assert((in_list(lexv, acc@[w].0@.id) || in_list(vecsv, acc@[w].0@.id))
                && acc@[w].1 as int == modality_count(lexv, vecsv, acc@[w].0@.id));
        }
    }
    out
}

/// An identifier found in a permutation is found in the original.
proof fn lemma_in_list_permuted(a: Seq<(Memory, i128)>, b: Seq<(Memory, i128)>, id: Seq<char>)
    requires
        a.to_multiset() == b.to_multiset(),
        in_list(scored_members(scored_view(b)), id),
    ensures
        in_list(scored_members(scored_view(a)), id),
{
    broadcast use vstd::seq_lib::group_to_multiset_ensures;

    let i = choose|i: int|
        0 <= i < scored_members(scored_view(b)).len() && (#[trigger] scored_members(
            scored_view(b),
        )[i]).id == id;
    assert(b.to_multiset().count(b[i]) > 0) by {
        assert(b.contains(b[i]));
    }
    assert(a.contains(b[i]));
    let j = choose|j: int| 0 <= j < a.len() && a[j] == b[i];
    assert(scored_members(scored_view(a))[j].id == id);
}

/// Distinct identifiers survive a permutation.
proof fn lemma_pair_distinct_permuted(
    a: Seq<(Memory, i128)>,
    b: Seq<(Memory, i128)>,
    k: int,
    l: int,
)
    requires
        a.to_multiset() == b.to_multiset(),
        forall|x: int, y: int|
            #![trigger b[x], b[y]]
            0 <= x < y < b.len() ==> b[x].0@.id != b[y].0@.id,
        0 <= k < l <= a.len() - 1,
    ensures
        scored_view(a)[k].0.id != scored_view(a)[l].0.id,
{
    broadcast use vstd::seq_lib::group_to_multiset_ensures;

    // both entries occur in `b`; two entries of `b` with one identifier
    // must sit at one position, and a multiset cannot hold one value at
    // two positions of `a` unless it counts it twice in `b` as well
    let sub = a.subrange(k, l + 1);
    assert(a =~= a.take(k) + sub + a.skip(l + 1));
    vstd::seq_lib::lemma_multiset_commutative(a.take(k) + sub, a.skip(l + 1));
    vstd::seq_lib::lemma_multiset_commutative(a.take(k), sub);
    if a[k] == a[l] {
        // the same pair twice in `a` means count at least 2, but `b`'s
        // distinct identifiers cap every count at 1
        assert(sub[0] == a[k] && sub[l - k] == a[l]);
        assert(sub =~= seq![a[k]] + sub.subrange(1, sub.len() as int));
        vstd::seq_lib::lemma_multiset_commutative(seq![a[k]], sub.subrange(1, sub.len() as int));
        assert(sub.subrange(1, sub.len() as int)[l - k - 1] == a[l]);
        assert(sub.subrange(1, sub.len() as int).to_multiset().count(a[l]) > 0) by {
            assert(sub.subrange(1, sub.len() as int).contains(a[l]));
        }
        assert(seq![a[k]].to_multiset() =~= vstd::multiset::Multiset::<
            (Memory, i128),
        >::empty().insert(a[k]));
        assert(a.to_multiset().count(a[k]) >= 2);
        assert(b.to_multiset().count(a[k]) >= 2);
        lemma_distinct_ids_count(b, a[k]);
        assert(false);
    } else {
        assert(b.to_multiset().count(a[k]) > 0) by {
            assert(a.contains(a[k]));
        }
        assert(b.contains(a[k]));
        let w1 = choose|w: int| 0 <= w < b.len() && b[w] == a[k];
        assert(b.to_multiset().count(a[l]) > 0) by {
            assert(a.contains(a[l]));
        }
        assert(b.contains(a[l]));
        let w2 = choose|w: int| 0 <= w < b.len() && b[w] == a[l];
        if w1 == w2 {
            assert(a[k] == a[l]);
        } else if w1 < w2 {
            assert(b[w1].0@.id != b[w2].0@.id);
        } else {
            assert(b[w2].0@.id != b[w1].0@.id);
        }
    }
}

/// Distinct identifiers cap every multiset count at one.
proof fn lemma_distinct_ids_count(b: Seq<(Memory, i128)>, x: (Memory, i128))
    requires
        forall|i: int, j: int|
            #![trigger b[i], b[j]]
            0 <= i < j < b.len() ==> b[i].0@.id != b[j].0@.id,
    ensures
        b.to_multiset().count(x) <= 1,
{
    broadcast use vstd::seq_lib::group_to_multiset_ensures;

    if b.to_multiset().count(x) >= 2 {
        assert(b.contains(x));
        let i = choose|i: int| 0 <= i < b.len() && b[i] == x;
        let b2 = b.remove(i);
        assert(b2.to_multiset() =~= b.to_multiset().remove(x)) by {
            assert(b.remove(i).to_multiset() =~= b.to_multiset().remove(b[i]));
        }
        assert(b2.to_multiset().count(x) >= 1);
        assert(b2.contains(x));
        let j = choose|j: int| 0 <= j < b2.len() && b2[j] == x;
        let j2 = if j < i {
            j
        } else {
            j + 1
        };
        assert(b[j2] == x && j2 != i);
        if i < j2 {
            assert(b[i].0@.id != b[j2].0@.id);
        } else {
            assert(b[j2].0@.id != b[i].0@.id);
        }
        assert(false);
    }
}

/// Append the memory unless its identifier was already taken, scored by
/// its modality count.
fn push_if_new(
    acc: &mut Vec<(Memory, i128)>,
    m: &Memory,
    lex: &Vec<Memory>,
    vecs: &Vec<Memory>,
    Ghost(lexv): Ghost<Seq<MemoryView>>,
    Ghost(vecsv): Ghost<Seq<MemoryView>>,
)
    requires
        lex.deep_view() == lexv,
        vecs.deep_view() == vecsv,
        in_list(lexv, m@.id) || in_list(vecsv, m@.id),
        forall|k: int, l: int|
            #![trigger old(acc)@[k], old(acc)@[l]]
            0 <= k < l < old(acc)@.len() ==> old(acc)@[k].0@.id != old(acc)@[l].0@.id,
        forall|k: int|
            0 <= k < old(acc)@.len() ==> (in_list(lexv, (#[trigger] old(acc)@[k]).0@.id)
                || in_list(vecsv, old(acc)@[k].0@.id)) && old(acc)@[k].1 as int
                == modality_count(lexv, vecsv, old(acc)@[k].0@.id),
    ensures
        forall|k: int, l: int|
            #![trigger final(acc)@[k], final(acc)@[l]]
            0 <= k < l < final(acc)@.len() ==> final(acc)@[k].0@.id != final(acc)@[l].0@.id,
        forall|k: int|
            0 <= k < final(acc)@.len() ==> (in_list(lexv, (#[trigger] final(acc)@[k]).0@.id)
                || in_list(vecsv, final(acc)@[k].0@.id)) && final(acc)@[k].1 as int
                == modality_count(lexv, vecsv, final(acc)@[k].0@.id),
        in_list(scored_members(scored_view(final(acc)@)), m@.id),
        forall|id: Seq<char>|
            in_list(scored_members(scored_view(old(acc)@)), id) ==> in_list(
                scored_members(scored_view(final(acc)@)),
                id,
            ),
{
    let mut k: usize = 0;
    while k < acc.len()
        invariant
            k <= acc@.len(),
            acc@ == old(acc)@,
            forall|x: int, y: int|
                #![trigger acc@[x], acc@[y]]
                0 <= x < y < acc@.len() ==> acc@[x].0@.id != acc@[y].0@.id,
            forall|x: int|
                0 <= x < acc@.len() ==> (in_list(lexv, (#[trigger] acc@[x]).0@.id) || in_list(
                    vecsv,
                    acc@[x].0@.id,
                )) && acc@[x].1 as int == modality_count(lexv, vecsv, acc@[x].0@.id),
            forall|w: int| 0 <= w < k ==> (#[trigger] acc@[w]).0@.id != m@.id,
        decreases acc@.len() - k,
    {
        if crate::text::str_eq(acc[k].0.id.as_str(), m.id.as_str()) {
            proof {
                assert(in_list(scored_members(scored_view(acc@)), m@.id)) by {
                    assert(scored_members(scored_view(acc@))[k as int].id == m@.id);
                }
                assert forall|id: Seq<char>|
                    in_list(scored_members(scored_view(old(acc)@)), id) implies in_list(
                    scored_members(scored_view(acc@)),
                    id,
                ) by {}
            }
            return ;
        }
        k = k + 1;
    }
    let in_lex = list_has_id(lex, m.id.as_str());
    let in_vec = list_has_id(vecs, m.id.as_str());
    let count: i128 = (if in_lex {
        1
    } else {
        0
    }) + (if in_vec {
        1
    } else {
        0
    });
    let ghost prev = acc@;
    acc.push((clone_memory(m), count));
    proof {
        assert(forall|w: int| 0 <= w < prev.len() ==> #[trigger] acc@[w] == prev[w]);
        assert(acc@.last().0@.id == m@.id);
        assert(in_list(scored_members(scored_view(acc@)), m@.id)) by {
            assert(scored_members(scored_view(acc@))[prev.len() as int].id == m@.id);
        }
        assert forall|id: Seq<char>|
            in_list(scored_members(scored_view(prev)), id) implies in_list(
            scored_members(scored_view(acc@)),
            id,
        ) by {
            let w = choose|w: int|
                0 <= w < scored_members(scored_view(prev)).len() && (#[trigger] scored_members(
                    scored_view(prev),
                )[w]).id == id;
            assert(scored_members(scored_view(acc@))[w].id == id);
        }
    }
}

/// Does the list hold a memory with this identifier?
fn list_has_id(v: &Vec<Memory>, id: &str) -> (r: bool)
    ensures
        r == in_list(v.deep_view(), id@),
{
    let mut i: usize = 0;
    while i < v.len()
        invariant
            i <= v@.len(),
            forall|k: int| 0 <= k < i ==> (#[trigger] v.deep_view()[k]).id != id@,
        decreases v@.len() - i,
    {
        if crate::text::str_eq(v[i].id.as_str(), id) {
            proof {
                assert(in_list(v.deep_view(), id@)) by {
                    assert(v.deep_view()[i as int].id == id@);
                }
            }
            return true;
        }
        i = i + 1;
    }
    false
}

/// Sort fused entries by score, then weight (insertion sort, consuming).
fn sort_fused_desc(v: Vec<(Memory, i128)>) -> (r: Vec<(Memory, i128)>)
    ensures
        r@.to_multiset() == v@.to_multiset(),
        r@.len() == v@.len(),
        fused_sorted(scored_view(r@)),
{
    let ghost orig = v@;
    let mut v = v;
    let mut out: Vec<(Memory, i128)> = Vec::new();
    proof {
        assert(out@.to_multiset().add(v@.to_multiset()) =~= orig.to_multiset());
    }
    while v.len() > 0
        invariant
            out@.to_multiset().add(v@.to_multiset()) == orig.to_multiset(),
            out@.len() + v@.len() == orig.len(),
            fused_sorted(scored_view(out@)),
        decreases v@.len(),
    {
        let ghost vpre = v@;
        let entry = v.remove(0);
        let ghost ev = entry;
        let mut k: usize = 0;
        while k < out.len()
            invariant
                k <= out@.len(),
                forall|j: int|
                    0 <= j < k ==> ((#[trigger] out@[j]).1 > ev.1 || (out@[j].1 == ev.1
                        && out@[j].0@.weight >= ev.0@.weight)),
                entry == ev,
            ensures
                k <= out@.len(),
                entry == ev,
                forall|j: int|
                    0 <= j < k ==> ((#[trigger] out@[j]).1 > ev.1 || (out@[j].1 == ev.1
                        && out@[j].0@.weight >= ev.0@.weight)),
                k < out@.len() ==> (out@[k as int].1 < ev.1 || (out@[k as int].1 == ev.1
                    && out@[k as int].0@.weight < ev.0@.weight)),
            decreases out@.len() - k,
        {
            if out[k].1 < entry.1 || (out[k].1 == entry.1 && out[k].0.weight < entry.0.weight) {
                break;
            }
            k = k + 1;
        }
        let ghost prev = out@;
        out.insert(k, entry);
        proof {
            assert(out@ =~= prev.insert(k as int, ev));
            assert(prev.insert(k as int, ev).to_multiset() =~= prev.to_multiset().insert(ev));
            assert(vpre =~= seq![ev] + vpre.remove(0));
            vstd::seq_lib::lemma_multiset_commutative(seq![ev], vpre.remove(0));
            assert(seq![ev].to_multiset() =~= vstd::multiset::Multiset::<
                (Memory, i128),
            >::empty().insert(ev));
            assert(out@.to_multiset().add(v@.to_multiset()) =~= orig.to_multiset());
            let sv = scored_view(out@);
            assert(sv =~= scored_view(prev).insert(k as int, (ev.0@, ev.1 as int)));
            assert forall|a: int, b: int|
                0 <= a < b < sv.len() implies (sv[a].1 > sv[b].1 || (sv[a].1 == sv[b].1
                && sv[a].0.weight >= sv[b].0.weight)) by {
                let ki = k as int;
                let pv = scored_view(prev);
                if a < ki && b == ki {
                    assert(sv[a] == pv[a]);
                } else if a == ki && b > ki {
                    assert(sv[b] == pv[b - 1]);
                    assert(pv[ki] == sv[ki + 1]);
                } else if a < ki && b > ki {
                    assert(sv[a] == pv[a] && sv[b] == pv[b - 1]);
                } else if a > ki && b > ki {
                    assert(sv[a] == pv[a - 1] && sv[b] == pv[b - 1]);
                }
            }
        }
    }
    out
}

/// What one hybrid retrieval promises, given the two intermediate
/// retrieval lists: the lexical list is a weight-ranked top-(2 k)
/// selection of the full-text matches, the vector list holds only
/// candidates for the query vector, and the output is their fusion.
pub open spec fn hybrid_ok(
    v: crate::store::StoreView,
    query: Seq<char>,
    qvec: Seq<i64>,
    out: Seq<(MemoryView, int)>,
    lexv: Seq<MemoryView>,
    vecsv: Seq<MemoryView>,
    limit: int,
) -> bool {
    &&& (tokens(query).len() > 0 ==> topk_by_weight(
        lexv,
        v.mems.filter(|m: MemoryView| fts_match(m, tokens(query))),
        2 * limit,
    ))
    &&& (tokens(query).len() == 0 ==> lexv.len() == 0)
    &&& forall|i: int| 0 <= i < vecsv.len() ==> vector_candidate(#[trigger] vecsv[i], qvec)
    &&& fused_result(out, lexv, vecsv, limit)
}

impl Store {
    /// Hybrid retrieval: fuse a lexical and a vector pass, each over
    /// twice the requested budget, ranking memories found by both
    /// modalities above memories found by one and breaking ties by
    /// weight.
    pub fn search_hybrid(&self, query: &str, query_vec: &Vec<i64>, limit: usize) -> (r: IcmResult<
        Vec<(Memory, i128)>,
    >)
        requires
            self.wf(),
            in_range(query_vec@),
            limit <= usize::MAX / 2,
        ensures
            match r {
                Ok(v) => exists|lexv: Seq<MemoryView>, vecsv: Seq<MemoryView>|
                    hybrid_ok(
                        self@,
                        query@,
                        query_vec@,
                        scored_view(v@),
                        lexv,
                        vecsv,
                        limit as int,
                    ),
                Err(_) => false,
            },
    {
        let doubled = limit * 2;
        let lex = match self.search_fts(query, doubled) {
            Ok(v) => v,
            Err(e) => {
                return Err(e);
            },
        };
        let scored_vec = match self.search_by_embedding(query_vec, doubled) {
            Ok(v) => v,
            Err(e) => {
                return Err(e);
            },
        };
        let mut vecs: Vec<Memory> = Vec::new();
        let mut scored_vec = scored_vec;
        proof {
            assert forall|i: int| 0 <= i < scored_vec@.len() implies vector_candidate(
                (#[trigger] scored_vec@[i]).0@,
                query_vec@,
            ) by {
                assert(scored_view(scored_vec@)[i].0 == scored_vec@[i].0@);
            }
        }
        while scored_vec.len() > 0
            invariant
                forall|i: int|
                    0 <= i < scored_vec@.len() ==> vector_candidate(
                        (#[trigger] scored_vec@[i]).0@,
                        query_vec@,
                    ),
                forall|i: int|
                    0 <= i < vecs.deep_view().len() ==> vector_candidate(
                        #[trigger] vecs.deep_view()[i],
                        query_vec@,
                    ),
            decreases scored_vec@.len(),
        {
            let ghost pre = scored_vec@;
            let ghost prevv = vecs.deep_view();
            let (m, _score) = scored_vec.remove(0);
            proof {
                assert(vector_candidate(pre[0].0@, query_vec@));
            }
            vecs.push(m);
            proof {
                assert(vecs.deep_view() =~= prevv.push(pre[0].0@));
                assert(forall|i: int|
                    0 <= i < scored_vec@.len() ==> #[trigger] scored_vec@[i] == pre[i + 1]);
            }
        }
        let ghost lexv = lex.deep_view();
        let ghost vecsv = vecs.deep_view();
        let fused = fuse_results(lex, vecs, limit);
        let result: IcmResult<Vec<(Memory, i128)>> = Ok(fused);
        proof {
            if tokens(query@).len() == 0 {
                assert(lexv.len() == 0);
            }
            assert(hybrid_ok(
                self@,
                query@,
                query_vec@,
                scored_view(result->Ok_0@),
                lexv,
                vecsv,
                limit as int,
            ));
        }
        result
    }
}

/// Recall through an embedding capability: embed the query and run the
/// hybrid retrieval; when the backend fails or produces an unusable
/// vector, report `None` so the caller can fall back to the lexical
/// paths. A backend failure is never fatal.
pub fn hybrid_recall<E: crate::embedder::Embedder>(
    store: &Store,
    embedder: &E,
    query: &str,
    limit: usize,
) -> (r: IcmResult<Option<Vec<(Memory, i128)>>>)
    requires
        store.wf(),
        limit <= usize::MAX / 2,
    ensures
        match r {
            Ok(Some(v)) => exists|qv: Seq<i64>, lexv: Seq<MemoryView>, vecsv: Seq<MemoryView>|
                #[trigger] hybrid_ok(
                    store@,
                    query@,
                    qv,
                    scored_view(v@),
                    lexv,
                    vecsv,
                    limit as int,
                ),
            Ok(None) => true,
            Err(_) => false,
        },
{
    let qv = match embedder.embed(query) {
        Ok(v) => v,
        Err(_) => {
            return Ok(None);
        },
    };
    if !in_range_exec(&qv) {
        return Ok(None);
    }
    let ghost qvg = qv@;
    match store.search_hybrid(query, &qv, limit) {
        Ok(v) => {
            let result: IcmResult<Option<Vec<(Memory, i128)>>> = Ok(Some(v));
            proof {
                let (lexv, vecsv) = choose|lexv: Seq<MemoryView>, vecsv: Seq<MemoryView>|
                    hybrid_ok(
                        store@,
                        query@,
                        qvg,
                        scored_view(result->Ok_0->Some_0@),
                        lexv,
                        vecsv,
                        limit as int,
                    );
                assert(hybrid_ok(
                    store@,
                    query@,
                    qvg,
                    scored_view(result->Ok_0->Some_0@),
                    lexv,
                    vecsv,
                    limit as int,
                ));
            }
            result
        },
        Err(_) => Ok(None),
    }
}

/// The entries of a prefix occur no more often than in the whole list.
proof fn lemma_prefix_member_counts(full: Seq<(Memory, i128)>, n: int, x: MemoryView)
    requires
        0 <= n <= full.len(),
    ensures
        scored_members(scored_view(full.take(n))).to_multiset().count(x) <= scored_members(
            scored_view(full),
        ).to_multiset().count(x),
{
    let f = scored_members(scored_view(full));
    let t = scored_members(scored_view(full.take(n)));
    assert(t =~= f.take(n));
    assert(f =~= f.take(n) + f.skip(n));
    vstd::seq_lib::lemma_multiset_commutative(f.take(n), f.skip(n));
}

/// Permuting the pairs permutes their scored views.
proof fn lemma_scored_view_multiset(sorted: Seq<(Memory, i128)>, orig: Seq<(Memory, i128)>)
    requires
        sorted.to_multiset() == orig.to_multiset(),
    ensures
        scored_view(sorted).to_multiset() == scored_view(orig).to_multiset(),
    decreases sorted.len(),
{
    broadcast use vstd::seq_lib::group_to_multiset_ensures;

    if sorted.len() == 0 {
        assert(orig.len() == 0) by {
            assert(sorted.to_multiset().len() == sorted.len());
            assert(orig.to_multiset().len() == orig.len());
        }
        assert(scored_view(sorted) =~= Seq::<(MemoryView, int)>::empty());
        assert(scored_view(orig) =~= Seq::<(MemoryView, int)>::empty());
    } else {
        let e = sorted.last();
        assert(sorted.to_multiset().count(e) > 0) by {
            assert(sorted.contains(e));
        }
        assert(orig.to_multiset().count(e) > 0);
        assert(orig.contains(e));
        let w = choose|w: int| 0 <= w < orig.len() && orig[w] == e;
        let orig2 = orig.remove(w);
        assert(sorted.drop_last().to_multiset() =~= orig2.to_multiset()) by {
            assert(sorted =~= sorted.drop_last().push(e));
            assert(sorted.drop_last().push(e).to_multiset() =~= sorted.drop_last(
            ).to_multiset().insert(e));
            assert(orig.remove(w).to_multiset() =~= orig.to_multiset().remove(orig[w]));
        }
        lemma_scored_view_multiset(sorted.drop_last(), orig2);
        assert(scored_view(sorted) =~= scored_view(sorted.drop_last()).push((e.0@, e.1 as int)));
        assert(scored_view(orig) =~= scored_view(orig2).insert(w, (e.0@, e.1 as int)));
        assert(scored_view(orig2).insert(w, (e.0@, e.1 as int)).to_multiset() =~= scored_view(
            orig2,
        ).to_multiset().insert((e.0@, e.1 as int)));
    }
}

/// Sorting pairs keeps the members (as a multiset of memory views).
proof fn lemma_scored_members_multiset(sorted: Seq<(Memory, i128)>, orig: Seq<(Memory, i128)>)
    requires
        sorted.to_multiset() == orig.to_multiset(),
    ensures
        scored_members(scored_view(sorted)).to_multiset() == scored_members(
            scored_view(orig),
        ).to_multiset(),
    decreases sorted.len(),
{
    broadcast use vstd::seq_lib::group_to_multiset_ensures;

    if sorted.len() == 0 {
        assert(orig.len() == 0) by {
            assert(sorted.to_multiset().len() == sorted.len());
            assert(orig.to_multiset().len() == orig.len());
        }
        assert(scored_members(scored_view(sorted)) =~= Seq::<MemoryView>::empty());
        assert(scored_members(scored_view(orig)) =~= Seq::<MemoryView>::empty());
    } else {
        let e = sorted.last();
        assert(sorted.to_multiset().count(e) > 0) by {
            assert(sorted.contains(e));
        }
        assert(orig.to_multiset().count(e) > 0);
        assert(orig.contains(e));
        let w = choose|w: int| 0 <= w < orig.len() && orig[w] == e;
        let orig2 = orig.remove(w);
        assert(sorted.drop_last().to_multiset() =~= orig2.to_multiset()) by {
            assert(sorted =~= sorted.drop_last().push(e));
            assert(sorted.drop_last().push(e).to_multiset() =~= sorted.drop_last(
            ).to_multiset().insert(e));
            assert(orig.remove(w).to_multiset() =~= orig.to_multiset().remove(orig[w]));
        }
        lemma_scored_members_multiset(sorted.drop_last(), orig2);
        assert(scored_members(scored_view(sorted)) =~= scored_members(
            scored_view(sorted.drop_last()),
        ).push(e.0@));
        assert(scored_members(scored_view(orig)) =~= scored_members(scored_view(orig2)).insert(
            w,
            e.0@,
        ));
        assert(scored_members(scored_view(orig2)).insert(w, e.0@).to_multiset()
            =~= scored_members(scored_view(orig2)).to_multiset().insert(e.0@));
    }
}

/// Sort scored memories by descending score (insertion sort, consuming).
fn sort_scored_pairs_desc(v: Vec<(Memory, i128)>) -> (r: Vec<(Memory, i128)>)
    ensures
        r@.to_multiset() == v@.to_multiset(),
        r@.len() == v@.len(),
        sorted_desc_score(scored_view(r@)),
{
    let ghost orig = v@;
    let mut v = v;
    let mut out: Vec<(Memory, i128)> = Vec::new();
    proof {
        assert(out@.to_multiset().add(v@.to_multiset()) =~= orig.to_multiset());
    }
    while v.len() > 0
        invariant
            out@.to_multiset().add(v@.to_multiset()) == orig.to_multiset(),
            out@.len() + v@.len() == orig.len(),
            sorted_desc_score(scored_view(out@)),
        decreases v@.len(),
    {
        let ghost vpre = v@;
        let entry = v.remove(0);
        let ghost ev = entry;
        let mut k: usize = 0;
        while k < out.len()
            invariant
                k <= out@.len(),
                forall|j: int| 0 <= j < k ==> (#[trigger] out@[j]).1 >= ev.1,
                entry == ev,
            ensures
                k <= out@.len(),
                entry == ev,
                forall|j: int| 0 <= j < k ==> (#[trigger] out@[j]).1 >= ev.1,
                k < out@.len() ==> out@[k as int].1 < ev.1,
            decreases out@.len() - k,
        {
            if out[k].1 < entry.1 {
                break;
            }
            k = k + 1;
        }
        let ghost prev = out@;
        out.insert(k, entry);
        proof {
            assert(out@ =~= prev.insert(k as int, ev));
            assert(prev.insert(k as int, ev).to_multiset() =~= prev.to_multiset().insert(ev));
            assert(vpre =~= seq![ev] + vpre.remove(0));
            vstd::seq_lib::lemma_multiset_commutative(seq![ev], vpre.remove(0));
            assert(seq![ev].to_multiset() =~= vstd::multiset::Multiset::<
                (Memory, i128),
            >::empty().insert(ev));
            assert(out@.to_multiset().add(v@.to_multiset()) =~= orig.to_multiset());
            let sv = scored_view(out@);
            assert(sv =~= scored_view(prev).insert(k as int, (ev.0@, ev.1 as int)));
            assert forall|a: int, b: int| 0 <= a < b < sv.len() implies sv[a].1 >= sv[b].1 by {
                let ki = k as int;
                let pv = scored_view(prev);
                if a < ki && b == ki {
                    assert(sv[a] == pv[a]);
                    assert(pv[a].1 == prev[a].1 as int);
                } else if a == ki && b > ki {
                    assert(sv[b] == pv[b - 1]);
                    assert(pv[ki] == sv[ki + 1]);
                } else if a < ki && b > ki {
                    assert(sv[a] == pv[a] && sv[b] == pv[b - 1]);
                } else if a > ki && b > ki {
                    assert(sv[a] == pv[a - 1] && sv[b] == pv[b - 1]);
                }
            }
        }
    }
    out
}

} // verus!
