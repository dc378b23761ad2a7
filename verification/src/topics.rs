//! Topic organisation over the memory store: listing by topic, topic
//! summaries, consolidation and aggregate statistics.

use vstd::prelude::*;

use crate::errors::{IcmError, IcmResult};
use crate::memory::{clone_memory, Memory, MemoryView, StoreStats};
use crate::store::{
    has_mem, lemma_filter_keeps_uniqueness, lemma_filter_push, of_topic, unique_mem_ids, Store,
};
use crate::text::{lemma_lex_antisym, lemma_lex_total, lemma_lex_trans, lex_lt, str_eq, str_le};

verus! {

broadcast use vstd::seq_lib::group_seq_lib_default, vstd::seq_lib::group_to_multiset_ensures;

/// Weights never grow along the sequence.
pub open spec fn sorted_desc_weight(s: Seq<MemoryView>) -> bool {
    forall|i: int, j: int| 0 <= i < j < s.len() ==> s[i].weight >= s[j].weight
}

/// Topic names strictly grow along the sequence.
pub open spec fn strictly_sorted_names(s: Seq<Seq<char>>) -> bool {
    forall|i: int, j: int| 0 <= i < j < s.len() ==> lex_lt(s[i], s[j])
}

/// The topics of the memories, with multiplicity.
pub open spec fn topics_of(s: Seq<MemoryView>) -> Seq<Seq<char>> {
    s.map_values(|m: MemoryView| m.topic)
}

/// Some entry of the listing carries this topic name.
pub open spec fn topic_listed(list: Seq<(String, usize)>, t: Seq<char>) -> bool {
    exists|j: int| 0 <= j < list.len() && list[j].0@ == t
}

/// The memories of other topics.
pub open spec fn other_topics(s: Seq<MemoryView>, topic: Seq<char>) -> Seq<MemoryView> {
    s.filter(|m: MemoryView| m.topic != topic)
}

/// The total weight of the memories, in ppm.
pub open spec fn sum_weights(s: Seq<MemoryView>) -> int
    decreases s.len(),
{
    if s.len() == 0 {
        0
    } else {
        sum_weights(s.drop_last()) + s.last().weight
    }
}

/// The earliest creation instant (over a non-empty sequence).
pub open spec fn min_created(s: Seq<MemoryView>) -> int
    decreases s.len(),
{
    if s.len() <= 1 {
        s[0].created_at
    } else if s.last().created_at < min_created(s.drop_last()) {
        s.last().created_at
    } else {
        min_created(s.drop_last())
    }
}

/// The latest creation instant (over a non-empty sequence).
pub open spec fn max_created(s: Seq<MemoryView>) -> int
    decreases s.len(),
{
    if s.len() <= 1 {
        s[0].created_at
    } else if s.last().created_at > max_created(s.drop_last()) {
        s.last().created_at
    } else {
        max_created(s.drop_last())
    }
}

/// Sort memories by descending weight; equal weights keep no particular
/// order, which is all the retrieval contracts promise.
pub fn sort_memories_desc(v: Vec<Memory>) -> (r: Vec<Memory>)
    ensures
        r.deep_view().to_multiset() == v.deep_view().to_multiset(),
        sorted_desc_weight(r.deep_view()),
{
    let mut out: Vec<Memory> = Vec::new();
    let mut i: usize = 0;
    proof {
        assert(out.deep_view() =~= Seq::<MemoryView>::empty());
        assert(v.deep_view().take(0) =~= Seq::<MemoryView>::empty());
    }
    while i < v.len()
        invariant
            i <= v@.len(),
            out.deep_view().to_multiset() == v.deep_view().take(i as int).to_multiset(),
            sorted_desc_weight(out.deep_view()),
        decreases v@.len() - i,
    {
        let m = clone_memory(&v[i]);
        let w = m.weight;
        let mut k: usize = 0;
        while k < out.len()
            invariant
                k <= out@.len(),
                w as int == m@.weight,
                forall|j: int| 0 <= j < k ==> out.deep_view()[j].weight >= w as int,
            ensures
                k <= out@.len(),
                forall|j: int| 0 <= j < k ==> out.deep_view()[j].weight >= w as int,
                k < out@.len() ==> out.deep_view()[k as int].weight < w as int,
            decreases out@.len() - k,
        {
            if out[k].weight < w {
                break;
            }
            k = k + 1;
        }
        let ghost prev = out.deep_view();
        out.insert(k, m);
        proof {
            assert(out.deep_view() =~= prev.insert(k as int, m@));
            assert(v.deep_view().take(i + 1) =~= v.deep_view().take(i as int).push(
                v.deep_view()[i as int],
            ));
            assert(out.deep_view().to_multiset() =~= v.deep_view().take(
                i + 1,
            ).to_multiset()) by {
                assert(prev.insert(k as int, m@).to_multiset() =~= prev.to_multiset().insert(m@));
            }
            assert forall|a: int, b: int|
                0 <= a < b < out.deep_view().len() implies out.deep_view()[a].weight
                >= out.deep_view()[b].weight by {
                let s = out.deep_view();
                let ki = k as int;
                if a < ki && b == ki {
                } else if a == ki && b > ki {
                    assert(s[b] == prev[b - 1]);
                    assert(prev[ki] == s[ki + 1]);
                } else {
                }
            }
        }
        i = i + 1;
    }
    proof {
        assert(v.deep_view().take(v@.len() as int) =~= v.deep_view());
    }
    out
}

/// How many memories carry this topic.
fn count_topic(mems: &Vec<Memory>, topic: &str) -> (c: usize)
    ensures
        c as int == of_topic(mems.deep_view(), topic@).len(),
{
    let ghost all = mems.deep_view();
    let mut c: usize = 0;
    let mut j: usize = 0;
    proof {
        assert(all.take(0) =~= Seq::<MemoryView>::empty());
        reveal(Seq::filter);
    }
    while j < mems.len()
        invariant
            j <= all.len(),
            mems.deep_view() == all,
            c as int == of_topic(all.take(j as int), topic@).len(),
            c <= j,
        decreases all.len() - j,
    {
        proof {
            assert(all.take(j + 1) =~= all.take(j as int).push(all[j as int]));
            lemma_filter_push(
                all.take(j as int),
                |m: MemoryView| m.topic == topic@,
                all[j as int],
            );
        }
        if str_eq(mems[j].topic.as_str(), topic) {
            c = c + 1;
        }
        j = j + 1;
    }
    proof {
        assert(all.take(all.len() as int) =~= all);
    }
    c
}

impl Store {
    /// All memories under a topic, heaviest first.
    pub fn get_by_topic(&self, topic: &str) -> (r: IcmResult<Vec<Memory>>)
        requires
            self.wf(),
        ensures
            r matches Ok(v) && v.deep_view().to_multiset() == of_topic(
                self@.mems,
                topic@,
            ).to_multiset() && sorted_desc_weight(v.deep_view()),
    {
        let ghost all = self@.mems;
        let mut picked: Vec<Memory> = Vec::new();
        let mut i: usize = 0;
        proof {
            assert(all.take(0) =~= Seq::<MemoryView>::empty());
            assert(picked.deep_view() =~= of_topic(all.take(0), topic@));
        }
        while i < self.mems.len()
            invariant
                i <= all.len(),
                self.mems.deep_view() == all,
                picked.deep_view() == of_topic(all.take(i as int), topic@),
            decreases all.len() - i,
        {
            proof {
                assert(all.take(i + 1) =~= all.take(i as int).push(all[i as int]));
                lemma_filter_push(
                    all.take(i as int),
                    |m: MemoryView| m.topic == topic@,
                    all[i as int],
                );
            }
            let ghost prev = picked.deep_view();
            if str_eq(self.mems[i].topic.as_str(), topic) {
                picked.push(clone_memory(&self.mems[i]));
                proof {
                    assert(picked.deep_view() =~= prev.push(all[i as int]));
                }
            }
            i = i + 1;
        }
        proof {
            assert(all.take(all.len() as int) =~= all);
        }
        Ok(sort_memories_desc(picked))
    }

    /// The distinct topics, alphabetically, each with its memory count.
    pub fn list_topics(&self) -> (r: IcmResult<Vec<(String, usize)>>)
        requires
            self.wf(),
        ensures
            r matches Ok(list) && {
                &&& forall|i: int, j: int|
                    0 <= i < j < list@.len() ==> lex_lt(list@[i].0@, list@[j].0@)
                &&& forall|j: int|
                    0 <= j < list@.len() ==> (#[trigger] list@[j].1) as int == of_topic(
                        self@.mems,
                        list@[j].0@,
                    ).len() && list@[j].1 >= 1
                &&& forall|i: int|
                    0 <= i < self@.mems.len() ==> topic_listed(
                        list@,
                        #[trigger] self@.mems[i].topic,
                    )
            },
    {
        let names = self.collect_topic_names();
        let mut list: Vec<(String, usize)> = Vec::new();
        let mut k: usize = 0;
        while k < names.len()
            invariant
                k <= names@.len(),
                self.mems.deep_view() == self@.mems,
                list@.len() == k,
                forall|j: int| 0 <= j < k ==> (#[trigger] list@[j].0)@ == names.deep_view()[j],
                forall|j: int|
                    0 <= j < k ==> (#[trigger] list@[j].1) as int == of_topic(
                        self@.mems,
                        names.deep_view()[j],
                    ).len(),
            decreases names@.len() - k,
        {
            let c = count_topic(&self.mems, names[k].as_str());
            list.push((names[k].clone(), c));
            k = k + 1;
        }
        proof {
            let nd = names.deep_view();
            assert forall|j: int|
                0 <= j < list@.len() implies (#[trigger] list@[j].1) as int == of_topic(
                self@.mems,
                list@[j].0@,
            ).len() && list@[j].1 >= 1 by {
                assert(list@[j].0@ == nd[j]);
                let tops = topics_of(self@.mems);
                assert(nd.contains(nd[j])) by {
                    assert(0 <= j < nd.len() && nd[j] == nd[j]);
                }
                assert(tops.to_set().contains(nd[j]));
                let wit = choose|i: int| 0 <= i < tops.len() && tops[i] == nd[j];
                assert(self@.mems[wit].topic == nd[j]);
                lemma_of_topic_contains(self@.mems, nd[j], wit);
            }
            assert forall|i: int|
                0 <= i < self@.mems.len() implies topic_listed(
                list@,
                #[trigger] self@.mems[i].topic,
            ) by {
                let tops = topics_of(self@.mems);
                assert(tops.contains(self@.mems[i].topic)) by {
                    assert(0 <= i < tops.len() && tops[i] == self@.mems[i].topic);
                }
                assert(nd.to_set().contains(self@.mems[i].topic));
                let j = choose|j: int| 0 <= j < nd.len() && nd[j] == self@.mems[i].topic;
                assert(list@[j].0@ == self@.mems[i].topic);
            }
        }
        Ok(list)
    }

    /// Atomically replace every memory of a topic with one consolidated
    /// record: the old rows vanish and the replacement appears in one step.
    pub fn consolidate_topic(&mut self, topic: &str, consolidated: Memory) -> (r: IcmResult<()>)
        requires
            old(self).wf(),
        ensures
            final(self).wf(),
            final(self)@.memoirs == old(self)@.memoirs,
            final(self)@.concepts == old(self)@.concepts,
            final(self)@.links == old(self)@.links,
            match r {
                Ok(()) => !has_mem(other_topics(old(self)@.mems, topic@), consolidated@.id)
                    && final(self)@.mems == other_topics(old(self)@.mems, topic@).push(
                    consolidated@,
                ),
                Err(e) => e is Database && has_mem(
                    other_topics(old(self)@.mems, topic@),
                    consolidated@.id,
                ) && final(self)@ == old(self)@,
            },
    {
        let ghost all = self@.mems;
        let mut kept: Vec<Memory> = Vec::new();
        let mut i: usize = 0;
        proof {
            assert(all.take(0) =~= Seq::<MemoryView>::empty());
            assert(kept.deep_view() =~= other_topics(all.take(0), topic@));
        }
        while i < self.mems.len()
            invariant
                i <= all.len(),
                self.mems.deep_view() == all,
                kept.deep_view() == other_topics(all.take(i as int), topic@),
            decreases all.len() - i,
        {
            proof {
                assert(all.take(i + 1) =~= all.take(i as int).push(all[i as int]));
                lemma_filter_push(
                    all.take(i as int),
                    |m: MemoryView| m.topic != topic@,
                    all[i as int],
                );
            }
            let ghost prev = kept.deep_view();
            if !str_eq(self.mems[i].topic.as_str(), topic) {
                kept.push(clone_memory(&self.mems[i]));
                proof {
                    assert(kept.deep_view() =~= prev.push(all[i as int]));
                }
            }
            i = i + 1;
        }
        proof {
            assert(all.take(all.len() as int) =~= all);
        }
        let mut j: usize = 0;
        while j < kept.len()
            invariant
                j <= kept@.len(),
                self.wf(),
                self@ == old(self)@,
                all == old(self)@.mems,
                kept.deep_view() == other_topics(all, topic@),
                forall|k: int| 0 <= k < j ==> kept.deep_view()[k].id != consolidated@.id,
            decreases kept@.len() - j,
        {
            if str_eq(kept[j].id.as_str(), consolidated.id.as_str()) {
                proof {
                    assert(has_mem(other_topics(old(self)@.mems, topic@), consolidated@.id)) by {
                        assert(kept.deep_view()[j as int].id == consolidated@.id);
                    }
                }
                return Err(IcmError::Database(
                    "unique constraint failed: memories.id".to_owned(),
                ));
            }
            j = j + 1;
        }
        let ghost keptv = kept.deep_view();
        kept.push(consolidated);
        self.mems = kept;
        proof {
            assert(self@.mems =~= keptv.push(consolidated@));
            assert(self@.memoirs =~= old(self)@.memoirs);
            assert(self@.concepts =~= old(self)@.concepts);
            assert(self@.links =~= old(self)@.links);
            lemma_filter_keeps_uniqueness(all, |m: MemoryView| m.topic != topic@);
            assert(unique_mem_ids(self@.mems));
        }
        Ok(())
    }

    /// Aggregate statistics: totals, average weight, oldest and newest
    /// creation instants.
    pub fn stats(&self) -> (r: IcmResult<StoreStats>)
        requires
            self.wf(),
        ensures
            r matches Ok(st) && {
                &&& st.total_memories == self@.mems.len()
                &&& st.total_topics == topics_of(self@.mems).to_set().len()
                &&& st.avg_weight as int == (if self@.mems.len() > 0 {
                    sum_weights(self@.mems) / (self@.mems.len() as int)
                } else {
                    0
                })
                &&& self@.mems.len() == 0 ==> st.oldest_memory is None && st.newest_memory
                    is None
                &&& self@.mems.len() > 0 ==> (st.oldest_memory matches Some(t) && t as int
                    == min_created(self@.mems))
                &&& self@.mems.len() > 0 ==> (st.newest_memory matches Some(t) && t as int
                    == max_created(self@.mems))
            },
    {
        let ghost all = self@.mems;
        let total_memories = self.mems.len();
        let names = self.collect_topic_names();
        proof {
            let nd = names.deep_view();
            assert forall|a: int, b: int|
                a != b && 0 <= a < nd.len() && 0 <= b < nd.len() implies nd[a] != nd[b] by {
                if a < b {
                    assert(lex_lt(nd[a], nd[b]));
                } else {
                    assert(lex_lt(nd[b], nd[a]));
                }
            }
            assert(nd.no_duplicates());
            nd.unique_seq_to_set();
        }
        let total_topics = names.len();
        if total_memories == 0 {
            return Ok(
                StoreStats {
                    total_memories: 0,
                    total_topics,
                    avg_weight: 0,
                    oldest_memory: None,
                    newest_memory: None,
                },
            );
        }
        let mut total: u128 = 0;
        let mut oldest: i64 = self.mems[0].created_at;
        let mut newest: i64 = self.mems[0].created_at;
        let mut i: usize = 0;
        proof {
            assert(all.take(0) =~= Seq::<MemoryView>::empty());
        }
        while i < self.mems.len()
            invariant
                i <= all.len(),
                all.len() >= 1,
                self.mems.deep_view() == all,
                total as int == sum_weights(all.take(i as int)),
                total <= i * (u64::MAX as int),
                i >= 1 ==> oldest as int == min_created(all.take(i as int)),
                i >= 1 ==> newest as int == max_created(all.take(i as int)),
                i == 0 ==> oldest == all[0].created_at && newest == all[0].created_at,
            decreases all.len() - i,
        {
            proof {
                let t1 = all.take(i + 1);
                assert(t1.drop_last() =~= all.take(i as int));
                assert(t1.last() == all[i as int]);
                assert((i + 1) * (u64::MAX as int) == i * (u64::MAX as int) + (
                u64::MAX as int)) by (nonlinear_arith);
            }
            let m = &self.mems[i];
            total = total + (m.weight as u128);
            if m.created_at < oldest {
                oldest = m.created_at;
            }
            if m.created_at > newest {
                newest = m.created_at;
            }
            proof {
                if i == 0 {
                    assert(all.take(1) =~= seq![all[0]]);
                }
            }
            i = i + 1;
        }
        proof {
            assert(all.take(all.len() as int) =~= all);
        }
        let n = total_memories as u128;
        let avg128 = total / n;
        proof {
            let t = total as int;
            let ni = all.len() as int;
            let mx = u64::MAX as int;
            vstd::arithmetic::div_mod::lemma_div_is_ordered(t, ni * mx, ni);
            vstd::arithmetic::div_mod::lemma_div_multiples_vanish(mx, ni);
            assert(t / ni <= mx);
            vstd::arithmetic::div_mod::lemma_div_pos_is_pos(t, ni);
        }
        let avg_weight = avg128 as u64;
        Ok(
            StoreStats {
                total_memories,
                total_topics,
                avg_weight,
                oldest_memory: Some(oldest),
                newest_memory: Some(newest),
            },
        )
    }

    /// The distinct topic names, strictly sorted, covering exactly the
    /// topics in the store.
    fn collect_topic_names(&self) -> (names: Vec<String>)
        ensures
            strictly_sorted_names(names.deep_view()),
            names.deep_view().to_set() == topics_of(self@.mems).to_set(),
    {
        let ghost all = self@.mems;
        let mut names: Vec<String> = Vec::new();
        let mut i: usize = 0;
        proof {
            assert(topics_of(all.take(0)).to_set() =~= Set::<Seq<char>>::empty());
            assert(names.deep_view().to_set() =~= Set::<Seq<char>>::empty());
        }
        while i < self.mems.len()
            invariant
                i <= all.len(),
                self.mems.deep_view() == all,
                strictly_sorted_names(names.deep_view()),
                names.deep_view().to_set() == topics_of(all.take(i as int)).to_set(),
            decreases all.len() - i,
        {
            insert_topic_name(&mut names, self.mems[i].topic.as_str());
            proof {
                assert(topics_of(all.take(i + 1)) =~= topics_of(all.take(i as int)).push(
                    all[i as int].topic,
                ));
                lemma_push_to_set(topics_of(all.take(i as int)), all[i as int].topic);
            }
            i = i + 1;
        }
        proof {
            assert(all.take(all.len() as int) =~= all);
        }
        names
    }
}

/// Appending to a sequence inserts into its set of values.
pub(crate) proof fn lemma_push_to_set<A>(s: Seq<A>, x: A)
    ensures
        s.push(x).to_set() == s.to_set().insert(x),
{
    assert forall|y: A| s.push(x).contains(y) implies s.to_set().insert(x).contains(y) by {
        let j = choose|j: int| 0 <= j < s.push(x).len() && s.push(x)[j] == y;
        if j < s.len() {
            assert(s[j] == y);
        }
    }
    assert forall|y: A| s.to_set().insert(x).contains(y) implies s.push(x).contains(y) by {
        if y == x {
            assert(s.push(x)[s.len() as int] == y);
        } else {
            let j = choose|j: int| 0 <= j < s.len() && s[j] == y;
            assert(s.push(x)[j] == y);
        }
    }
    assert(s.push(x).to_set() =~= s.to_set().insert(x));
}

/// Place a name at its ordered position unless already present.
pub(crate) fn insert_topic_name(names: &mut Vec<String>, t: &str)
    requires
        strictly_sorted_names(old(names).deep_view()),
    ensures
        strictly_sorted_names(final(names).deep_view()),
        final(names).deep_view().to_set() == old(names).deep_view().to_set().insert(t@),
{
    let ghost prev = names.deep_view();
    let mut k: usize = 0;
    let mut present = false;
    while k < names.len()
        invariant_except_break
            !present,
        invariant
            k <= names@.len(),
            names.deep_view() == prev,
            strictly_sorted_names(prev),
            forall|j: int| 0 <= j < k ==> lex_lt(#[trigger] prev[j], t@),
        ensures
            k <= names@.len(),
            names.deep_view() == prev,
            forall|j: int| 0 <= j < k ==> lex_lt(#[trigger] prev[j], t@),
            present ==> k < prev.len() && prev[k as int] == t@,
            !present && k < prev.len() ==> lex_lt(t@, prev[k as int]),
        decreases names@.len() - k,
    {
        if str_eq(names[k].as_str(), t) {
            present = true;
            break;
        }
        if !str_le(names[k].as_str(), t) {
            proof {
                lemma_lex_total(names.deep_view()[k as int], t@);
            }
            break;
        }
        k = k + 1;
    }
    if present {
        proof {
            assert(prev.contains(t@)) by {
                assert(prev[k as int] == t@);
            }
            assert(names.deep_view().to_set() =~= prev.to_set().insert(t@));
        }
    } else {
        names.insert(k, t.to_owned());
        proof {
            let nd = names.deep_view();
            let ki = k as int;
            assert(nd =~= prev.insert(ki, t@));
            lemma_insert_sorted_name(prev, t@, ki);
            assert forall|x: Seq<char>| nd.contains(x) implies prev.contains(x) || x == t@ by {
                let j = choose|j: int| 0 <= j < nd.len() && nd[j] == x;
                if j < ki {
                    assert(prev[j] == x);
                } else if j > ki {
                    assert(prev[j - 1] == x);
                }
            }
            assert forall|x: Seq<char>| prev.contains(x) implies nd.contains(x) by {
                let j = choose|j: int| 0 <= j < prev.len() && prev[j] == x;
                if j < ki {
                    assert(nd[j] == x);
                } else {
                    assert(nd[j + 1] == x);
                }
            }
            assert(nd.contains(t@)) by {
                assert(nd[ki] == t@);
            }
            assert(nd.to_set() =~= prev.to_set().insert(t@));
        }
    }
}

/// Inserting a name at its ordered position keeps the list strictly sorted.
proof fn lemma_insert_sorted_name(prev: Seq<Seq<char>>, t: Seq<char>, ki: int)
    requires
        strictly_sorted_names(prev),
        0 <= ki <= prev.len(),
        forall|j: int| 0 <= j < ki ==> lex_lt(#[trigger] prev[j], t),
        ki < prev.len() ==> lex_lt(t, prev[ki]),
    ensures
        strictly_sorted_names(prev.insert(ki, t)),
{
    let nd = prev.insert(ki, t);
    assert forall|a: int, b: int| 0 <= a < b < nd.len() implies lex_lt(nd[a], nd[b]) by {
        if b < ki {
        } else if a < ki && b == ki {
        } else if a < ki && b > ki {
            assert(nd[b] == prev[b - 1]);
            if b - 1 == ki {
                lemma_lex_trans(nd[a], t, prev[ki]);
                if nd[a] == prev[ki] {
                    lemma_lex_antisym(nd[a], t);
                }
            } else {
                assert(lex_lt(prev[ki], prev[b - 1]));
                lemma_lex_trans(nd[a], t, prev[ki]);
                lemma_lex_trans(nd[a], prev[ki], prev[b - 1]);
                if nd[a] == prev[b - 1] {
                    lemma_lex_trans(t, prev[ki], prev[b - 1]);
                    lemma_lex_antisym(nd[a], t);
                }
            }
        } else if a == ki && b > ki {
            assert(nd[b] == prev[b - 1]);
            if b - 1 == ki {
            } else {
                assert(lex_lt(prev[ki], prev[b - 1]));
                lemma_lex_trans(t, prev[ki], prev[b - 1]);
                if t == prev[b - 1] {
                    lemma_lex_antisym(t, prev[ki]);
                }
            }
        } else {
            assert(nd[a] == prev[a - 1] && nd[b] == prev[b - 1]);
        }
    }
}

/// A memory with the topic makes the topic's filter non-empty.
proof fn lemma_of_topic_contains(s: Seq<MemoryView>, topic: Seq<char>, i: int)
    requires
        0 <= i < s.len(),
        s[i].topic == topic,
    ensures
        of_topic(s, topic).len() >= 1,
{
    reveal(Seq::filter);
    s.lemma_filter_contains(|m: MemoryView| m.topic == topic, i);
    let f = of_topic(s, topic);
    assert(f.contains(s[i]));
}

} // verus!
