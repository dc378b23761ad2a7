//! Queries over the concept graph: ordered listings, full-text and
//! label-filtered search, and per-memoir statistics.

use vstd::prelude::*;
use vstd::multiset::Multiset;

use crate::errors::IcmResult;
use crate::memoir::{clone_concept, clone_memoir, Concept, ConceptView, Label, Memoir, MemoirStats, MemoirView};
use crate::memoir_store::{concepts_of, has_concept};
use crate::store::{lemma_filter_push, Store};
use crate::text::{contains_seq, lex_le, lemma_lex_total, lower, split_words, tokens};

verus! {

broadcast use vstd::seq_lib::group_seq_lib_default, vstd::seq_lib::group_to_multiset_ensures;

/// Confidences never grow along the sequence.
pub open spec fn sorted_desc_confidence(s: Seq<ConceptView>) -> bool {
    forall|i: int, j: int| 0 <= i < j < s.len() ==> s[i].confidence >= s[j].confidence
}

/// Concept names never shrink along the sequence.
pub open spec fn concepts_sorted_by_name(s: Seq<ConceptView>) -> bool {
    forall|i: int, j: int| 0 <= i < j < s.len() ==> lex_le(s[i].name, s[j].name)
}

/// Memoir names never shrink along the sequence.
pub open spec fn memoirs_sorted_by_name(s: Seq<MemoirView>) -> bool {
    forall|i: int, j: int| 0 <= i < j < s.len() ==> lex_le(s[i].name, s[j].name)
}

/// One search term occurs (case-insensitively) in the concept's name,
/// definition, or one of its rendered labels.
pub open spec fn concept_kw_hit(c: ConceptView, kw: Seq<char>) -> bool {
    ||| contains_seq(lower(c.name), lower(kw))
    ||| contains_seq(lower(c.definition), lower(kw))
    ||| exists|i: int|
        0 <= i < c.labels.len() && contains_seq(
            lower((#[trigger] c.labels[i]).namespace + ":"@ + c.labels[i].value),
            lower(kw),
        )
}

/// Every token of the query occurs in the concept.
pub open spec fn concept_fts_match(c: ConceptView, toks: Seq<Seq<char>>) -> bool {
    forall|k: int| 0 <= k < toks.len() ==> concept_kw_hit(c, #[trigger] toks[k])
}

/// The free-text refinement: the text occurs (case-insensitively) in the
/// concept's name or definition.
pub open spec fn concept_text_hit(c: ConceptView, q: Seq<char>) -> bool {
    ||| contains_seq(lower(c.name), lower(q))
    ||| contains_seq(lower(c.definition), lower(q))
}

/// The concept carries this exact label.
pub open spec fn has_label(c: ConceptView, ns: Seq<char>, value: Seq<char>) -> bool {
    exists|i: int|
        0 <= i < c.labels.len() && (#[trigger] c.labels[i]).namespace == ns
            && c.labels[i].value == value
}

/// `r` is a top-`k` selection of `pool` by confidence.
pub open spec fn topk_by_confidence(r: Seq<ConceptView>, pool: Seq<ConceptView>, k: int) -> bool {
    &&& r.len() == (if pool.len() < k {
        pool.len() as int
    } else {
        k
    })
    &&& sorted_desc_confidence(r)
    &&& forall|x: ConceptView| #[trigger]
        r.to_multiset().count(x) <= pool.to_multiset().count(x)
    &&& forall|x: ConceptView|
        #[trigger] pool.to_multiset().count(x) > r.to_multiset().count(x) ==> (forall|i: int|
            0 <= i < r.len() ==> #[trigger] r[i].confidence >= x.confidence)
}

/// Everything left out of a sorted prefix is no more confident than what
/// is in it.
proof fn lemma_sorted_conf_prefix_topk(sorted: Seq<ConceptView>, k: int)
    requires
        sorted_desc_confidence(sorted),
        0 <= k <= sorted.len(),
    ensures
        topk_by_confidence(sorted.take(k), sorted, k),
{
    let r = sorted.take(k);
    let rest = sorted.skip(k);
    assert(sorted =~= r + rest);
    vstd::seq_lib::lemma_multiset_commutative(r, rest);
    assert forall|x: ConceptView| #[trigger]
        sorted.to_multiset().count(x) > r.to_multiset().count(x) implies (forall|i: int|
        0 <= i < r.len() ==> #[trigger] r[i].confidence >= x.confidence) by {
        assert(rest.to_multiset().count(x) > 0);
        assert(rest.contains(x));
        let j = choose|j: int| 0 <= j < rest.len() && rest[j] == x;
        assert(sorted[k + j] == x);
        assert forall|i: int| 0 <= i < r.len() implies #[trigger] r[i].confidence
            >= x.confidence by {
            assert(sorted[i] == r[i]);
        }
    }
}

/// A sorted, truncated copy of a filtered pool is a top-`k` selection of
/// it, and all its entries satisfy the filter.
proof fn lemma_sorted_conf_matches_topk(
    out: Seq<ConceptView>,
    sortedv: Seq<ConceptView>,
    base: Seq<ConceptView>,
    pred: spec_fn(ConceptView) -> bool,
    k: int,
)
    requires
        k >= 0,
        base.filter(pred).to_multiset() == sortedv.to_multiset(),
        sorted_desc_confidence(sortedv),
        out == sortedv.take(
            if sortedv.len() < k {
                sortedv.len() as int
            } else {
                k
            },
        ),
    ensures
        topk_by_confidence(out, base.filter(pred), k),
        forall|i: int| 0 <= i < out.len() ==> pred(#[trigger] out[i]),
{
    let pool = base.filter(pred);
    assert(pool.len() == sortedv.len()) by {
        assert(pool.to_multiset().len() == sortedv.to_multiset().len());
    }
    let kk = if sortedv.len() < k {
        sortedv.len() as int
    } else {
        k
    };
    lemma_sorted_conf_prefix_topk(sortedv, kk);
    assert forall|x: ConceptView| #[trigger]
        pool.to_multiset().count(x) > out.to_multiset().count(x) implies (forall|i: int|
        0 <= i < out.len() ==> #[trigger] out[i].confidence >= x.confidence) by {
        assert(sortedv.to_multiset().count(x) > out.to_multiset().count(x));
    }
    assert forall|i: int| 0 <= i < out.len() implies pred(#[trigger] out[i]) by {
        assert(out.to_multiset().count(out[i]) > 0) by {
            assert(out.contains(out[i]));
        }
        assert(pool.to_multiset().count(out[i]) > 0);
        assert(pool.contains(out[i]));
        let j = choose|j: int| 0 <= j < pool.len() && pool[j] == out[i];
        assert(pred(pool[j]));
    }
}

/// Sort concepts by descending confidence (insertion sort).
fn sort_concepts_conf_desc(v: Vec<Concept>) -> (r: Vec<Concept>)
    ensures
        r.deep_view().to_multiset() == v.deep_view().to_multiset(),
        sorted_desc_confidence(r.deep_view()),
{
    let mut out: Vec<Concept> = Vec::new();
    let mut i: usize = 0;
    proof {
        assert(out.deep_view() =~= Seq::<ConceptView>::empty());
        assert(v.deep_view().take(0) =~= Seq::<ConceptView>::empty());
    }
    while i < v.len()
        invariant
            i <= v@.len(),
            out.deep_view().to_multiset() == v.deep_view().take(i as int).to_multiset(),
            sorted_desc_confidence(out.deep_view()),
        decreases v@.len() - i,
    {
        let c = clone_concept(&v[i]);
        let w = c.confidence;
        let mut k: usize = 0;
        while k < out.len()
            invariant
                k <= out@.len(),
                w as int == c@.confidence,
                forall|j: int| 0 <= j < k ==> out.deep_view()[j].confidence >= w as int,
            ensures
                k <= out@.len(),
                forall|j: int| 0 <= j < k ==> out.deep_view()[j].confidence >= w as int,
                k < out@.len() ==> out.deep_view()[k as int].confidence < w as int,
            decreases out@.len() - k,
        {
            if out[k].confidence < w {
                break;
            }
            k = k + 1;
        }
        let ghost prev = out.deep_view();
        out.insert(k, c);
        proof {
            assert(out.deep_view() =~= prev.insert(k as int, c@));
            assert(v.deep_view().take(i + 1) =~= v.deep_view().take(i as int).push(
                v.deep_view()[i as int],
            ));
            assert(out.deep_view().to_multiset() =~= v.deep_view().take(i + 1).to_multiset()) by {
                assert(prev.insert(k as int, c@).to_multiset() =~= prev.to_multiset().insert(c@));
            }
            assert forall|a: int, b: int|
                0 <= a < b < out.deep_view().len() implies out.deep_view()[a].confidence
                >= out.deep_view()[b].confidence by {
                let s = out.deep_view();
                let ki = k as int;
                if a < ki && b == ki {
                } else if a == ki && b > ki {
                    assert(s[b] == prev[b - 1]);
                    assert(prev[ki] == s[ki + 1]);
                } else {
                }
            }
        }
        i = i + 1;
    }
    proof {
        assert(v.deep_view().take(v@.len() as int) =~= v.deep_view());
    }
    out
}

/// Sort concepts by ascending name (insertion sort).
fn sort_concepts_by_name(v: Vec<Concept>) -> (r: Vec<Concept>)
    ensures
        r.deep_view().to_multiset() == v.deep_view().to_multiset(),
        concepts_sorted_by_name(r.deep_view()),
{
    let mut out: Vec<Concept> = Vec::new();
    let mut i: usize = 0;
    proof {
        assert(out.deep_view() =~= Seq::<ConceptView>::empty());
        assert(v.deep_view().take(0) =~= Seq::<ConceptView>::empty());
    }
    while i < v.len()
        invariant
            i <= v@.len(),
            out.deep_view().to_multiset() == v.deep_view().take(i as int).to_multiset(),
            concepts_sorted_by_name(out.deep_view()),
        decreases v@.len() - i,
    {
        let c = clone_concept(&v[i]);
        let mut k: usize = 0;
        while k < out.len()
            invariant
                k <= out@.len(),
                forall|j: int| 0 <= j < k ==> lex_le(out.deep_view()[j].name, c@.name),
            ensures
                k <= out@.len(),
                forall|j: int| 0 <= j < k ==> lex_le(out.deep_view()[j].name, c@.name),
                k < out@.len() ==> lex_le(c@.name, out.deep_view()[k as int].name),
            decreases out@.len() - k,
        {
            if !crate::text::str_le(out[k].name.as_str(), c.name.as_str()) {
                proof {
                    lemma_lex_total(out.deep_view()[k as int].name, c@.name);
                }
                break;
            }
            k = k + 1;
        }
        let ghost prev = out.deep_view();
        out.insert(k, c);
        proof {
            assert(out.deep_view() =~= prev.insert(k as int, c@));
            assert(v.deep_view().take(i + 1) =~= v.deep_view().take(i as int).push(
                v.deep_view()[i as int],
            ));
            assert(out.deep_view().to_multiset() =~= v.deep_view().take(i + 1).to_multiset()) by {
                assert(prev.insert(k as int, c@).to_multiset() =~= prev.to_multiset().insert(c@));
            }
            let s = out.deep_view();
            let ki = k as int;
            assert forall|a: int, b: int|
                0 <= a < b < s.len() implies lex_le(s[a].name, s[b].name) by {
                if a < ki && b == ki {
                } else if a < ki && b > ki {
                    if b - 1 > ki {
                        crate::text::lemma_lex_trans(c@.name, prev[ki].name, prev[b - 1].name);
                    }
                    crate::text::lemma_lex_trans(s[a].name, c@.name, prev[b - 1].name);
                } else if a == ki && b > ki {
                    assert(s[b] == prev[b - 1]);
                    if b - 1 == ki {
                    } else {
                        crate::text::lemma_lex_trans(c@.name, prev[ki].name, prev[b - 1].name);
                    }
                } else {
                }
            }
        }
        i = i + 1;
    }
    proof {
        assert(v.deep_view().take(v@.len() as int) =~= v.deep_view());
    }
    out
}

/// Sort memoirs by ascending name (insertion sort).
fn sort_memoirs_by_name(v: Vec<Memoir>) -> (r: Vec<Memoir>)
    ensures
        r.deep_view().to_multiset() == v.deep_view().to_multiset(),
        memoirs_sorted_by_name(r.deep_view()),
{
    let mut out: Vec<Memoir> = Vec::new();
    let mut i: usize = 0;
    proof {
        assert(out.deep_view() =~= Seq::<MemoirView>::empty());
        assert(v.deep_view().take(0) =~= Seq::<MemoirView>::empty());
    }
    while i < v.len()
        invariant
            i <= v@.len(),
            out.deep_view().to_multiset() == v.deep_view().take(i as int).to_multiset(),
            memoirs_sorted_by_name(out.deep_view()),
        decreases v@.len() - i,
    {
        let m = clone_memoir(&v[i]);
        let mut k: usize = 0;
        while k < out.len()
            invariant
                k <= out@.len(),
                forall|j: int| 0 <= j < k ==> lex_le(out.deep_view()[j].name, m@.name),
            ensures
                k <= out@.len(),
                forall|j: int| 0 <= j < k ==> lex_le(out.deep_view()[j].name, m@.name),
                k < out@.len() ==> lex_le(m@.name, out.deep_view()[k as int].name),
            decreases out@.len() - k,
        {
            if !crate::text::str_le(out[k].name.as_str(), m.name.as_str()) {
                proof {
                    lemma_lex_total(out.deep_view()[k as int].name, m@.name);
                }
                break;
            }
            k = k + 1;
        }
        let ghost prev = out.deep_view();
        out.insert(k, m);
        proof {
            assert(out.deep_view() =~= prev.insert(k as int, m@));
            assert(v.deep_view().take(i + 1) =~= v.deep_view().take(i as int).push(
                v.deep_view()[i as int],
            ));
            assert(out.deep_view().to_multiset() =~= v.deep_view().take(i + 1).to_multiset()) by {
                assert(prev.insert(k as int, m@).to_multiset() =~= prev.to_multiset().insert(m@));
            }
            let s = out.deep_view();
            let ki = k as int;
            assert forall|a: int, b: int|
                0 <= a < b < s.len() implies lex_le(s[a].name, s[b].name) by {
                if a < ki && b == ki {
                } else if a < ki && b > ki {
                    if b - 1 > ki {
                        crate::text::lemma_lex_trans(m@.name, prev[ki].name, prev[b - 1].name);
                    }
                    crate::text::lemma_lex_trans(s[a].name, m@.name, prev[b - 1].name);
                } else if a == ki && b > ki {
                    assert(s[b] == prev[b - 1]);
                    if b - 1 == ki {
                    } else {
                        crate::text::lemma_lex_trans(m@.name, prev[ki].name, prev[b - 1].name);
                    }
                } else {
                }
            }
        }
        i = i + 1;
    }
    proof {
        assert(v.deep_view().take(v@.len() as int) =~= v.deep_view());
    }
    out
}

/// Keep only the first `k` concepts.
fn take_concepts_prefix(mut v: Vec<Concept>, k: usize) -> (r: Vec<Concept>)
    ensures
        r.deep_view() == v.deep_view().take(
            if v.deep_view().len() < k {
                v.deep_view().len() as int
            } else {
                k as int
            },
        ),
{
    let ghost pre = v.deep_view();
    if v.len() > k {
        v.truncate(k);
        proof {
            assert(v.deep_view() =~= pre.take(k as int));
        }
    } else {
        proof {
            assert(v.deep_view() =~= pre.take(pre.len() as int));
        }
    }
    v
}

/// Does one term occur in this concept, case-insensitively?
fn concept_hits_kw(c: &Concept, kw: &str) -> (r: bool)
    ensures
        r == concept_kw_hit(c@, kw@),
{
    if crate::text::contains_ci(c.name.as_str(), kw) {
        return true;
    }
    if crate::text::contains_ci(c.definition.as_str(), kw) {
        return true;
    }
    let mut i: usize = 0;
    while i < c.labels.len()
        invariant
            i <= c@.labels.len(),
            c.labels.deep_view() == c@.labels,
            !contains_seq(lower(c@.name), lower(kw@)),
            !contains_seq(lower(c@.definition), lower(kw@)),
            forall|j: int|
                0 <= j < i ==> !contains_seq(
                    lower((#[trigger] c@.labels[j]).namespace + ":"@ + c@.labels[j].value),
                    lower(kw@),
                ),
        decreases c@.labels.len() - i,
    {
        let rendered = c.labels[i].render();
        if crate::text::contains_ci(rendered.as_str(), kw) {
            proof {
                assert(concept_kw_hit(c@, kw@)) by {
                    assert(contains_seq(
                        lower(c@.labels[i as int].namespace + ":"@ + c@.labels[i as int].value),
                        lower(kw@),
                    ));
                }
            }
            return true;
        }
        i = i + 1;
    }
    false
}

/// Do all of the tokens occur in this concept?
fn concept_matches_all(c: &Concept, toks: &Vec<String>) -> (r: bool)
    ensures
        r == concept_fts_match(c@, toks.deep_view()),
{
    let mut k: usize = 0;
    while k < toks.len()
        invariant
            k <= toks@.len(),
            forall|j: int| 0 <= j < k ==> concept_kw_hit(c@, #[trigger] toks.deep_view()[j]),
        decreases toks@.len() - k,
    {
        if !concept_hits_kw(c, toks[k].as_str()) {
            proof {
                assert(!concept_fts_match(c@, toks.deep_view())) by {
                    assert(!concept_kw_hit(c@, toks.deep_view()[k as int]));
                }
            }
            return false;
        }
        k = k + 1;
    }
    true
}

/// Does the concept carry this exact label?
fn concept_text_match(c: &Concept, text: &str) -> (r: bool)
    ensures
        r == concept_text_hit(c@, text@),
{
    crate::text::contains_ci(c.name.as_str(), text) || crate::text::contains_ci(
        c.definition.as_str(),
        text,
    )
}

fn concept_has_label(c: &Concept, label: &Label) -> (r: bool)
    ensures
        r == has_label(c@, label@.namespace, label@.value),
{
    let mut i: usize = 0;
    while i < c.labels.len()
        invariant
            i <= c@.labels.len(),
            c.labels.deep_view() == c@.labels,
            forall|j: int|
                0 <= j < i ==> !((#[trigger] c@.labels[j]).namespace == label@.namespace
                    && c@.labels[j].value == label@.value),
        decreases c@.labels.len() - i,
    {
        if crate::text::str_eq(c.labels[i].namespace.as_str(), label.namespace.as_str())
            && crate::text::str_eq(c.labels[i].value.as_str(), label.value.as_str()) {
            proof {
                assert(has_label(c@, label@.namespace, label@.value)) by {
                    assert((c@.labels[i as int]).namespace == label@.namespace
                        && c@.labels[i as int].value == label@.value);
                }
            }
            return true;
        }
        i = i + 1;
    }
    false
}

impl Store {
    /// All memoirs, ordered by name.
    pub fn list_memoirs(&self) -> (r: IcmResult<Vec<Memoir>>)
        requires
            self.wf(),
        ensures
            r matches Ok(v) && v.deep_view().to_multiset() == self@.memoirs.to_multiset()
                && memoirs_sorted_by_name(v.deep_view()),
    {
        Ok(sort_memoirs_by_name(self.list_memoirs_unordered()))
    }

    /// The concepts of a memoir, ordered by name.
    pub fn list_concepts(&self, memoir_id: &str) -> (r: IcmResult<Vec<Concept>>)
        requires
            self.wf(),
        ensures
            r matches Ok(v) && v.deep_view().to_multiset() == concepts_of(
                self@.concepts,
                memoir_id@,
            ).to_multiset() && concepts_sorted_by_name(v.deep_view()),
    {
        Ok(sort_concepts_by_name(self.list_concepts_unordered(memoir_id)))
    }

    /// Full-text search within a memoir: every token must occur; most
    /// confident first; at most `limit` results; a blank query returns
    /// nothing.
    pub fn search_concepts_fts(&self, memoir_id: &str, query: &str, limit: usize) -> (r: IcmResult<
        Vec<Concept>,
    >)
        requires
            self.wf(),
        ensures
            r matches Ok(v) && {
                &&& tokens(query@).len() == 0 ==> v@.len() == 0
                &&& tokens(query@).len() > 0 ==> topk_by_confidence(
                    v.deep_view(),
                    self@.concepts.filter(
                        |c: ConceptView| c.memoir_id == memoir_id@ && concept_fts_match(
                            c,
                            tokens(query@),
                        ),
                    ),
                    limit as int,
                )
                &&& forall|i: int|
                    0 <= i < v.deep_view().len() ==> (#[trigger] v.deep_view()[i]).memoir_id
                        == memoir_id@ && concept_fts_match(v.deep_view()[i], tokens(query@))
            },
    {
        let toks = split_words(query);
        if toks.len() == 0 {
            let v: Vec<Concept> = Vec::new();
            return Ok(v);
        }
        let ghost all = self@.concepts;
        let ghost pred = |c: ConceptView|
            c.memoir_id == memoir_id@ && concept_fts_match(c, tokens(query@));
        let mut picked: Vec<Concept> = Vec::new();
        let mut i: usize = 0;
        proof {
            assert(all.take(0) =~= Seq::<ConceptView>::empty());
            assert(picked.deep_view() =~= all.take(0).filter(pred));
        }
        while i < self.concepts.len()
            invariant
                i <= all.len(),
                self.concepts.deep_view() == all,
                pred == (|c: ConceptView|
                    c.memoir_id == memoir_id@ && concept_fts_match(c, tokens(query@))),
                toks.deep_view() == tokens(query@),
                picked.deep_view() == all.take(i as int).filter(pred),
            decreases all.len() - i,
        {
            proof {
                assert(all.take(i + 1) =~= all.take(i as int).push(all[i as int]));
                lemma_filter_push(all.take(i as int), pred, all[i as int]);
            }
            let ghost prev = picked.deep_view();
            if crate::text::str_eq(self.concepts[i].memoir_id.as_str(), memoir_id)
                && concept_matches_all(&self.concepts[i], &toks) {
                picked.push(clone_concept(&self.concepts[i]));
                proof {
                    assert(picked.deep_view() =~= prev.push(all[i as int]));
                }
            }
            i = i + 1;
        }
        proof {
            assert(all.take(all.len() as int) =~= all);
        }
        let sorted = sort_concepts_conf_desc(picked);
        let ghost sortedv = sorted.deep_view();
        let out = take_concepts_prefix(sorted, limit);
        proof {
            lemma_sorted_conf_matches_topk(out.deep_view(), sortedv, all, pred, limit as int);
        }
        Ok(out)
    }

    /// Exact label search within a memoir, most confident first, at most
    /// `limit` results.
    pub fn search_concepts_by_label(&self, memoir_id: &str, label: &Label, limit: usize) -> (r:
        IcmResult<Vec<Concept>>)
        requires
            self.wf(),
        ensures
            r matches Ok(v) && {
                &&& topk_by_confidence(
                    v.deep_view(),
                    self@.concepts.filter(
                        |c: ConceptView| c.memoir_id == memoir_id@ && has_label(
                            c,
                            label@.namespace,
                            label@.value,
                        ),
                    ),
                    limit as int,
                )
                &&& forall|i: int|
                    0 <= i < v.deep_view().len() ==> (#[trigger] v.deep_view()[i]).memoir_id
                        == memoir_id@ && has_label(v.deep_view()[i], label@.namespace, label@.value)
            },
    {
        let ghost all = self@.concepts;
        let ghost pred = |c: ConceptView|
            c.memoir_id == memoir_id@ && has_label(c, label@.namespace, label@.value);
        let mut picked: Vec<Concept> = Vec::new();
        let mut i: usize = 0;
        proof {
            assert(all.take(0) =~= Seq::<ConceptView>::empty());
            assert(picked.deep_view() =~= all.take(0).filter(pred));
        }
        while i < self.concepts.len()
            invariant
                i <= all.len(),
                self.concepts.deep_view() == all,
                pred == (|c: ConceptView|
                    c.memoir_id == memoir_id@ && has_label(c, label@.namespace, label@.value)),
                picked.deep_view() == all.take(i as int).filter(pred),
            decreases all.len() - i,
        {
            proof {
                assert(all.take(i + 1) =~= all.take(i as int).push(all[i as int]));
                lemma_filter_push(all.take(i as int), pred, all[i as int]);
            }
            let ghost prev = picked.deep_view();
            if crate::text::str_eq(self.concepts[i].memoir_id.as_str(), memoir_id)
                && concept_has_label(&self.concepts[i], label) {
                picked.push(clone_concept(&self.concepts[i]));
                proof {
                    assert(picked.deep_view() =~= prev.push(all[i as int]));
                }
            }
            i = i + 1;
        }
        proof {
            assert(all.take(all.len() as int) =~= all);
        }
        let sorted = sort_concepts_conf_desc(picked);
        let ghost sortedv = sorted.deep_view();
        let out = take_concepts_prefix(sorted, limit);
        proof {
            lemma_sorted_conf_matches_topk(out.deep_view(), sortedv, all, pred, limit as int);
        }
        Ok(out)
    }

    /// Full-text search across every memoir: the same matching and ranking
    /// as the per-memoir search, without the memoir restriction.
    pub fn search_all_concepts_fts(&self, query: &str, limit: usize) -> (r: IcmResult<
        Vec<Concept>,
    >)
        requires
            self.wf(),
        ensures
            r matches Ok(v) && {
                &&& tokens(query@).len() == 0 ==> v@.len() == 0
                &&& tokens(query@).len() > 0 ==> topk_by_confidence(
                    v.deep_view(),
                    self@.concepts.filter(
                        |c: ConceptView| concept_fts_match(c, tokens(query@)),
                    ),
                    limit as int,
                )
                &&& forall|i: int|
                    0 <= i < v.deep_view().len() ==> concept_fts_match(
                        #[trigger] v.deep_view()[i],
                        tokens(query@),
                    )
            },
    {
        let toks = split_words(query);
        if toks.len() == 0 {
            let v: Vec<Concept> = Vec::new();
            return Ok(v);
        }
        let ghost all = self@.concepts;
        let ghost pred = |c: ConceptView| concept_fts_match(c, tokens(query@));
        let mut picked: Vec<Concept> = Vec::new();
        let mut i: usize = 0;
        proof {
            assert(all.take(0) =~= Seq::<ConceptView>::empty());
            assert(picked.deep_view() =~= all.take(0).filter(pred));
        }
        while i < self.concepts.len()
            invariant
                i <= all.len(),
                self.concepts.deep_view() == all,
                pred == (|c: ConceptView| concept_fts_match(c, tokens(query@))),
                toks.deep_view() == tokens(query@),
                picked.deep_view() == all.take(i as int).filter(pred),
            decreases all.len() - i,
        {
            proof {
                assert(all.take(i + 1) =~= all.take(i as int).push(all[i as int]));
                lemma_filter_push(all.take(i as int), pred, all[i as int]);
            }
            let ghost prev = picked.deep_view();
            if concept_matches_all(&self.concepts[i], &toks) {
                picked.push(clone_concept(&self.concepts[i]));
                proof {
                    assert(picked.deep_view() =~= prev.push(all[i as int]));
                }
            }
            i = i + 1;
        }
        proof {
            assert(all.take(all.len() as int) =~= all);
        }
        let sorted = sort_concepts_conf_desc(picked);
        let ghost sortedv = sorted.deep_view();
        let out = take_concepts_prefix(sorted, limit);
        proof {
            lemma_sorted_conf_matches_topk(out.deep_view(), sortedv, all, pred, limit as int);
        }
        Ok(out)
    }
}

/// `out` is a label top-`k` selection `base`, thinned by the free-text
/// refinement when `text` is non-empty.
pub open spec fn label_text_search_ok(
    concepts: Seq<ConceptView>,
    memoir_id: Seq<char>,
    label: crate::memoir::LabelView,
    text: Seq<char>,
    limit: int,
    base: Seq<ConceptView>,
    out: Seq<ConceptView>,
) -> bool {
    &&& topk_by_confidence(
        base,
        concepts.filter(
            |c: ConceptView| c.memoir_id == memoir_id && has_label(
                c,
                label.namespace,
                label.value,
            ),
        ),
        limit,
    )
    &&& (text.len() == 0 ==> out == base)
    &&& (text.len() > 0 ==> out == base.filter(|c: ConceptView| concept_text_hit(c, text)))
}

impl Store {
    /// Label search with an optional free-text refinement: when `text` has
    /// any character, only concepts whose name or definition contains it
    /// (case-insensitively) are kept.
    pub fn search_concepts_by_label_text(
        &self,
        memoir_id: &str,
        label: &Label,
        text: &str,
        limit: usize,
    ) -> (r: IcmResult<Vec<Concept>>)
        requires
            self.wf(),
        ensures
            r matches Ok(v) && exists|base: Seq<ConceptView>| #[trigger] label_text_search_ok(
                self@.concepts,
                memoir_id@,
                label@,
                text@,
                limit as int,
                base,
                v.deep_view(),
            ),
    {
        let by_label = match self.search_concepts_by_label(memoir_id, label, limit) {
            Ok(v) => v,
            Err(e) => {
                return Err(e);
            },
        };
        let ghost base = by_label.deep_view();
        if text.unicode_len() == 0 {
            let r = Ok(by_label);
            proof {
                assert(label_text_search_ok(
                    self@.concepts,
                    memoir_id@,
                    label@,
                    text@,
                    limit as int,
                    base,
                    r->Ok_0.deep_view(),
                ));
            }
            return r;
        }
        let ghost pred = |c: ConceptView| concept_text_hit(c, text@);
        let mut kept: Vec<Concept> = Vec::new();
        let mut i: usize = 0;
        proof {
            assert(base.take(0) =~= Seq::<ConceptView>::empty());
            assert(kept.deep_view() =~= base.take(0).filter(pred));
        }
        while i < by_label.len()
            invariant
                i <= base.len(),
                by_label.deep_view() == base,
                pred == (|c: ConceptView| concept_text_hit(c, text@)),
                kept.deep_view() == base.take(i as int).filter(pred),
            decreases base.len() - i,
        {
            proof {
                assert(base.take(i + 1) =~= base.take(i as int).push(base[i as int]));
                lemma_filter_push(base.take(i as int), pred, base[i as int]);
            }
            let ghost prev = kept.deep_view();
            if concept_text_match(&by_label[i], text) {
                kept.push(clone_concept(&by_label[i]));
                proof {
                    assert(kept.deep_view() =~= prev.push(base[i as int]));
                }
            }
            i = i + 1;
        }
        proof {
            assert(base.take(base.len() as int) =~= base);
        }
        let r = Ok(kept);
        proof {
            assert(label_text_search_ok(
                self@.concepts,
                memoir_id@,
                label@,
                text@,
                limit as int,
                base,
                r->Ok_0.deep_view(),
            ));
        }
        r
    }
}

// ---------------------------------------------------------------------------
// Per-memoir statistics
// ---------------------------------------------------------------------------

/// The rendered label names of one concept, in order.
pub open spec fn concept_label_names(c: ConceptView) -> Seq<Seq<char>> {
    c.labels.map_values(|l: crate::memoir::LabelView| l.namespace + ":"@ + l.value)
}

/// Every rendered label of every concept, in order, with multiplicity.
pub open spec fn flat_labels(cs: Seq<ConceptView>) -> Seq<Seq<char>>
    decreases cs.len(),
{
    if cs.len() == 0 {
        Seq::empty()
    } else {
        flat_labels(cs.drop_last()) + concept_label_names(cs.last())
    }
}

/// The total confidence of the concepts, in thousandths.
pub open spec fn sum_confidence(cs: Seq<ConceptView>) -> int
    decreases cs.len(),
{
    if cs.len() == 0 {
        0
    } else {
        sum_confidence(cs.drop_last()) + cs.last().confidence
    }
}

/// The source concept of the link lies in this memoir.
pub open spec fn link_from_memoir(
    concepts: Seq<ConceptView>,
    memoir_id: Seq<char>,
    l: crate::memoir::ConceptLinkView,
) -> bool {
    exists|i: int|
        0 <= i < concepts.len() && (#[trigger] concepts[i]).id == l.source_id
            && concepts[i].memoir_id == memoir_id
}

/// How many entries of the flattened label sequence carry this name.
pub open spec fn label_count_of(flat: Seq<Seq<char>>, name: Seq<char>) -> int {
    flat.filter(|x: Seq<char>| x == name).len() as int
}

/// How the per-name count grows when one more label is appended.
proof fn lemma_label_count_push(s: Seq<Seq<char>>, x: Seq<char>, name: Seq<char>)
    ensures
        label_count_of(s.push(x), name) == label_count_of(s, name) + (if x == name {
            1int
        } else {
            0int
        }),
{
    reveal(Seq::filter);
    assert(s.push(x).drop_last() =~= s);
    assert(s.push(x).last() == x);
}

/// A label entry is exact for the flattened label sequence: its count is
/// the number of occurrences, at least one.
pub open spec fn label_entry_ok(flat: Seq<Seq<char>>, e: (String, usize)) -> bool {
    e.1 as int == label_count_of(flat, e.0@) && flat.contains(e.0@) && e.1 >= 1
}

/// How many entries of `flat` equal `name`.
fn count_occurrences(flat: &Vec<String>, name: &str) -> (c: usize)
    ensures
        c as int == label_count_of(flat.deep_view(), name@),
{
    let ghost all = flat.deep_view();
    let mut c: usize = 0;
    let mut j: usize = 0;
    proof {
        assert(all.take(0) =~= Seq::<Seq<char>>::empty());
        reveal(Seq::filter);
        assert(label_count_of(all.take(0), name@) == 0);
    }
    while j < flat.len()
        invariant
            j <= all.len(),
            flat.deep_view() == all,
            c as int == label_count_of(all.take(j as int), name@),
            c <= j,
        decreases all.len() - j,
    {
        proof {
            assert(all.take(j + 1) =~= all.take(j as int).push(all[j as int]));
            lemma_label_count_push(all.take(j as int), all[j as int], name@);
            assert(label_count_of(all.take(j as int), name@) <= all.take(j as int).len()) by {
                broadcast use vstd::seq_lib::group_seq_lib_default;

            }
        }
        if crate::text::str_eq(flat[j].as_str(), name) {
            c = c + 1;
        }
        j = j + 1;
    }
    proof {
        assert(all.take(all.len() as int) =~= all);
    }
    c
}

/// Sort label entries by descending count (insertion sort).
fn sort_entries_desc(v: Vec<(String, usize)>) -> (r: Vec<(String, usize)>)
    ensures
        r@.to_multiset() == v@.to_multiset(),
        forall|i: int, j: int| 0 <= i < j < r@.len() ==> (r@[i].1) >= (r@[j].1),
{
    let ghost orig = v@;
    let mut v = v;
    let mut out: Vec<(String, usize)> = Vec::new();
    proof {
        assert(out@.to_multiset().add(v@.to_multiset()) =~= orig.to_multiset());
    }
    while v.len() > 0
        invariant
            out@.to_multiset().add(v@.to_multiset()) == orig.to_multiset(),
            forall|a: int, b: int| 0 <= a < b < out@.len() ==> (out@[a].1) >= (out@[b].1),
        decreases v@.len(),
    {
        let ghost vpre = v@;
        let entry = v.remove(0);
        let ghost ev = entry;
        let mut k: usize = 0;
        while k < out.len()
            invariant
                k <= out@.len(),
                forall|j: int| 0 <= j < k ==> (out@[j].1) >= ev.1,
                entry == ev,
            ensures
                k <= out@.len(),
                entry == ev,
                forall|j: int| 0 <= j < k ==> (out@[j].1) >= ev.1,
                k < out@.len() ==> (out@[k as int].1) < ev.1,
            decreases out@.len() - k,
        {
            if out[k].1 < entry.1 {
                break;
            }
            k = k + 1;
        }
        let ghost prev = out@;
        out.insert(k, entry);
        proof {
            assert(out@ =~= prev.insert(k as int, ev));
            assert(prev.insert(k as int, ev).to_multiset() =~= prev.to_multiset().insert(ev));
            assert(vpre =~= seq![ev] + vpre.remove(0));
            vstd::seq_lib::lemma_multiset_commutative(seq![ev], vpre.remove(0));
            assert(seq![ev].to_multiset() =~= Multiset::<(String, usize)>::empty().insert(ev));
            assert(out@.to_multiset().add(v@.to_multiset()) =~= orig.to_multiset());
            assert forall|a: int, b: int|
                0 <= a < b < out@.len() implies (out@[a].1) >= (out@[b].1) by {
                let ki = k as int;
                if a < ki && b == ki {
                } else if a == ki && b > ki {
                    assert(out@[b] == prev[b - 1]);
                    assert(prev[ki] == out@[ki + 1]);
                } else {
                }
            }
        }
    }
    out
}


/// Some entry of the histogram carries this label name.
pub open spec fn entry_listed(list: Seq<(String, usize)>, t: Seq<char>) -> bool {
    exists|j: int| 0 <= j < list.len() && list[j].0@ == t
}

/// Membership among the memoir's concepts agrees with the source-side
/// test on the full concept table.
proof fn lemma_link_source_equiv(concepts: Seq<ConceptView>, memoir_id: Seq<char>, src: Seq<char>)
    ensures
        has_concept(concepts_of(concepts, memoir_id), src) == (exists|i: int|
            0 <= i < concepts.len() && (#[trigger] concepts[i]).id == src
                && concepts[i].memoir_id == memoir_id),
{
    broadcast use vstd::seq_lib::group_seq_lib_default;

    let mcs = concepts_of(concepts, memoir_id);
    if has_concept(mcs, src) {
        let i = choose|i: int| 0 <= i < mcs.len() && mcs[i].id == src;
        crate::store::lemma_filter_member_at(
            concepts,
            |c: ConceptView| c.memoir_id == memoir_id,
            i,
        );
        let k = choose|k: int| 0 <= k < concepts.len() && concepts[k] == mcs[i];
        assert(concepts[k].id == src && concepts[k].memoir_id == memoir_id);
    }
    if exists|i: int|
        0 <= i < concepts.len() && (#[trigger] concepts[i]).id == src && concepts[i].memoir_id
            == memoir_id {
        let i = choose|i: int|
            0 <= i < concepts.len() && (#[trigger] concepts[i]).id == src
                && concepts[i].memoir_id == memoir_id;
        concepts.lemma_filter_contains(|c: ConceptView| c.memoir_id == memoir_id, i);
        assert(mcs.contains(concepts[i]));
        let j = choose|j: int| 0 <= j < mcs.len() && mcs[j] == concepts[i];
        assert(mcs[j].id == src);
    }
}

/// A present label has a positive occurrence count.
proof fn lemma_label_present_counts(flat: Seq<Seq<char>>, t: Seq<char>, i: int)
    requires
        0 <= i < flat.len(),
        flat[i] == t,
    ensures
        label_count_of(flat, t) >= 1,
        flat.contains(t),
    decreases flat.len(),
{
    let rest = flat.drop_last();
    assert(flat =~= rest.push(flat.last()));
    lemma_label_count_push(rest, flat.last(), t);
    if i < flat.len() - 1 {
        lemma_label_present_counts(rest, t, i);
    }
    assert(flat[i] == t);
}

impl Store {
    /// Aggregate statistics of one memoir: concept and outgoing-link
    /// totals, average confidence, and the label histogram, most used
    /// first.
    #[verifier::rlimit(60)]
    pub fn memoir_stats(&self, memoir_id: &str) -> (r: IcmResult<MemoirStats>)
        requires
            self.wf(),
        ensures
            r matches Ok(st) && {
                let mcs = concepts_of(self@.concepts, memoir_id@);
                let flat = flat_labels(mcs);
                &&& st.total_concepts == mcs.len()
                &&& st.total_links as int == self@.links.filter(
                    |l: crate::memoir::ConceptLinkView| link_from_memoir(
                        self@.concepts,
                        memoir_id@,
                        l,
                    ),
                ).len()
                &&& st.avg_confidence as int == (if mcs.len() > 0 {
                    sum_confidence(mcs) / (mcs.len() as int)
                } else {
                    0
                })
                &&& forall|j: int|
                    0 <= j < st.label_counts@.len() ==> label_entry_ok(
                        flat,
                        #[trigger] st.label_counts@[j],
                    )
                &&& forall|i: int, j: int|
                    0 <= i < j < st.label_counts@.len() ==> (st.label_counts@[i].1)
                        >= (st.label_counts@[j].1)
                &&& forall|k: int|
                    0 <= k < flat.len() ==> entry_listed(st.label_counts@, #[trigger] flat[k])
            },
    {
        let ghost mid = memoir_id@;
        let mem_concepts = self.list_concepts_unordered(memoir_id);
        let ghost mcs = mem_concepts.deep_view();
        let total_concepts = mem_concepts.len();

        // outgoing links of this memoir
        let ghost linkpred = |l: crate::memoir::ConceptLinkView| link_from_memoir(
            self@.concepts,
            mid,
            l,
        );
        let mut total_links: usize = 0;
        let mut li: usize = 0;
        proof {
            assert(self@.links.take(0) =~= Seq::<crate::memoir::ConceptLinkView>::empty());
            reveal(Seq::filter);
        }
        while li < self.links.len()
            invariant
                li <= self@.links.len(),
                self.wf(),
                mem_concepts.deep_view() == mcs,
                mcs == concepts_of(self@.concepts, mid),
                linkpred == (|l: crate::memoir::ConceptLinkView| link_from_memoir(
                    self@.concepts,
                    mid,
                    l,
                )),
                total_links as int == self@.links.take(li as int).filter(linkpred).len(),
                total_links <= li,
            decreases self@.links.len() - li,
        {
            proof {
                assert(self@.links.take(li + 1) =~= self@.links.take(li as int).push(
                    self@.links[li as int],
                ));
                lemma_filter_push(self@.links.take(li as int), linkpred, self@.links[li as int]);
                lemma_link_source_equiv(self@.concepts, mid, self@.links[li as int].source_id);
            }
            if crate::memoir_store::concept_vec_has_id(
                &mem_concepts,
                self.links[li].source_id.as_str(),
            ) {
                total_links = total_links + 1;
            }
            li = li + 1;
        }
        proof {
            assert(self@.links.take(self@.links.len() as int) =~= self@.links);
        }

        // average confidence
        let mut totalc: u128 = 0;
        let mut ci: usize = 0;
        proof {
            assert(mcs.take(0) =~= Seq::<ConceptView>::empty());
        }
        while ci < mem_concepts.len()
            invariant
                ci <= mcs.len(),
                mem_concepts.deep_view() == mcs,
                totalc as int == sum_confidence(mcs.take(ci as int)),
                totalc <= ci * (u32::MAX as int),
            decreases mcs.len() - ci,
        {
            proof {
                let t1 = mcs.take(ci + 1);
                assert(t1.drop_last() =~= mcs.take(ci as int));
                assert(t1.last() == mcs[ci as int]);
                assert((ci + 1) * (u32::MAX as int) == ci * (u32::MAX as int) + (
                u32::MAX as int)) by (nonlinear_arith);
            }
            totalc = totalc + (mem_concepts[ci].confidence as u128);
            ci = ci + 1;
        }
        proof {
            assert(mcs.take(mcs.len() as int) =~= mcs);
        }
        let avg_confidence: u32 = if total_concepts == 0 {
            0
        } else {
            proof {
                let t = totalc as int;
                let ni = mcs.len() as int;
                let mx = u32::MAX as int;
                vstd::arithmetic::div_mod::lemma_div_is_ordered(t, ni * mx, ni);
                vstd::arithmetic::div_mod::lemma_div_multiples_vanish(mx, ni);
                assert(t / ni <= mx);
                vstd::arithmetic::div_mod::lemma_div_pos_is_pos(t, ni);
            }
            (totalc / (total_concepts as u128)) as u32
        };

        // flattened rendered labels
        let mut flat: Vec<String> = Vec::new();
        let mut fi: usize = 0;
        proof {
            assert(mcs.take(0) =~= Seq::<ConceptView>::empty());
            assert(flat.deep_view() =~= flat_labels(mcs.take(0)));
        }
        while fi < mem_concepts.len()
            invariant
                fi <= mcs.len(),
                mem_concepts.deep_view() == mcs,
                flat.deep_view() == flat_labels(mcs.take(fi as int)),
            decreases mcs.len() - fi,
        {
            proof {
                let t1 = mcs.take(fi + 1);
                assert(t1.drop_last() =~= mcs.take(fi as int));
                assert(t1.last() == mcs[fi as int]);
            }
            let ghost base = flat.deep_view();
            let mut lj: usize = 0;
            while lj < mem_concepts[fi].labels.len()
                invariant
                    fi < mcs.len(),
                    mem_concepts.deep_view() == mcs,
                    lj <= mcs[fi as int].labels.len(),
                    flat.deep_view() == base + concept_label_names(mcs[fi as int]).take(
                        lj as int,
                    ),
                decreases mcs[fi as int].labels.len() - lj,
            {
                let ghost prevf = flat.deep_view();
                flat.push(mem_concepts[fi].labels[lj].render());
                proof {
                    assert(flat.deep_view() =~= prevf.push(
                        concept_label_names(mcs[fi as int])[lj as int],
                    ));
                    assert(flat.deep_view() =~= base + concept_label_names(mcs[fi as int]).take(
                        lj + 1,
                    ));
                }
                lj = lj + 1;
            }
            proof {
                assert(concept_label_names(mcs[fi as int]).take(
                    mcs[fi as int].labels.len() as int,
                ) =~= concept_label_names(mcs[fi as int]));
                assert(flat.deep_view() =~= flat_labels(mcs.take(fi + 1)));
            }
            fi = fi + 1;
        }
        proof {
            assert(mcs.take(mcs.len() as int) =~= mcs);
        }
        let ghost flatv = flat.deep_view();

        // distinct label names
        let mut names: Vec<String> = Vec::new();
        let mut ni: usize = 0;
        proof {
            assert(flatv.take(0) =~= Seq::<Seq<char>>::empty());
            assert(names.deep_view().to_set() =~= flatv.take(0).to_set());
        }
        while ni < flat.len()
            invariant
                ni <= flatv.len(),
                flat.deep_view() == flatv,
                crate::topics::strictly_sorted_names(names.deep_view()),
                names.deep_view().to_set() == flatv.take(ni as int).to_set(),
            decreases flatv.len() - ni,
        {
            crate::topics::insert_topic_name(&mut names, flat[ni].as_str());
            proof {
                assert(flatv.take(ni + 1) =~= flatv.take(ni as int).push(flatv[ni as int]));
                crate::topics::lemma_push_to_set(flatv.take(ni as int), flatv[ni as int]);
            }
            ni = ni + 1;
        }
        proof {
            assert(flatv.take(flatv.len() as int) =~= flatv);
        }

        // histogram entries
        let mut entries: Vec<(String, usize)> = Vec::new();
        let mut ei: usize = 0;
        while ei < names.len()
            invariant
                ei <= names@.len(),
                flat.deep_view() == flatv,
                entries@.len() == ei,
                forall|j: int| 0 <= j < ei ==> (#[trigger] entries@[j].0)@ == names.deep_view()[j],
                forall|j: int|
                    0 <= j < ei ==> (#[trigger] entries@[j].1) as int == label_count_of(
                        flatv,
                        names.deep_view()[j],
                    ),
            decreases names@.len() - ei,
        {
            let cnt = count_occurrences(&flat, names[ei].as_str());
            entries.push((names[ei].clone(), cnt));
            ei = ei + 1;
        }
        let ghost entriesv = entries@;
        let ghost namesd = names.deep_view();
        proof {
            // every entry is exact for the flattened labels
            assert forall|j: int| 0 <= j < entriesv.len() implies label_entry_ok(
                flatv,
                #[trigger] entriesv[j],
            ) by {
                assert(entriesv[j].0@ == namesd[j]);
                assert(namesd.to_set().contains(namesd[j])) by {
                    assert(namesd[j] == namesd[j]);
                }
                assert(flatv.to_set().contains(namesd[j]));
                let w = choose|w: int| 0 <= w < flatv.len() && flatv[w] == namesd[j];
                lemma_label_present_counts(flatv, namesd[j], w);
                assert(label_count_of(flatv, entriesv[j].0@) == label_count_of(
                    flatv,
                    namesd[j],
                ));
            }
        }
        let sorted = sort_entries_desc(entries);
        proof {
            assert forall|j: int| 0 <= j < sorted@.len() implies label_entry_ok(
                flatv,
                #[trigger] sorted@[j],
            ) by {
                assert(sorted@.to_multiset().count(sorted@[j]) > 0) by {
                    assert(sorted@.contains(sorted@[j]));
                }
                assert(entriesv.to_multiset().count(sorted@[j]) > 0);
                assert(entriesv.contains(sorted@[j]));
                let w = choose|w: int| 0 <= w < entriesv.len() && entriesv[w] == sorted@[j];
                assert(label_entry_ok(flatv, entriesv[w]));
            }
            assert forall|k: int| 0 <= k < flatv.len() implies entry_listed(
                sorted@,
                #[trigger] flatv[k],
            ) by {
                assert(flatv.to_set().contains(flatv[k])) by {
                    assert(flatv[k] == flatv[k]);
                }
                assert(namesd.to_set().contains(flatv[k]));
                let w = choose|w: int| 0 <= w < namesd.len() && namesd[w] == flatv[k];
                assert(entriesv[w].0@ == flatv[k]);
                assert(entriesv.to_multiset().count(entriesv[w]) > 0) by {
                    assert(entriesv.contains(entriesv[w]));
                }
                assert(sorted@.to_multiset().count(entriesv[w]) > 0);
                assert(sorted@.contains(entriesv[w]));
                let z = choose|z: int| 0 <= z < sorted@.len() && sorted@[z] == entriesv[w];
                assert(sorted@[z].0@ == flatv[k]);
            }
        }
        Ok(
            MemoirStats {
                total_concepts,
                total_links,
                avg_confidence,
                label_counts: sorted,
            },
        )
    }
}

} // verus!
