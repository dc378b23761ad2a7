//! The tool registry: named operations over the two stores, each taking
//! a structured argument object and returning a uniform result envelope.

use vstd::prelude::*;
use vstd::string::StringExecFns;

use crate::json::{obj_lookup, JsonValue};
use crate::memoir::{Concept, ConceptLink, Label, Memoir, Relation};
use crate::memory::{Importance, Memory, MemoryView};
use crate::protocol::ToolResult;
use crate::store::Store;
use crate::text::{str_eq, u64_to_string, usize_to_string};

verus! {

/// The string argument under a key, when the field is a JSON string.
pub open spec fn str_arg(args: JsonValue, key: Seq<char>) -> Option<Seq<char>> {
    match obj_lookup(args, key) {
        Some(v) => match v {
            JsonValue::Str(s) => Some(s@),
            _ => None,
        },
        None => None,
    }
}

/// Fetch a string argument.
fn get_str_arg<'a>(args: &'a JsonValue, key: &str) -> (r: Option<&'a String>)
    ensures
        match r {
            Some(s) => str_arg(*args, key@) == Some(s@),
            None => str_arg(*args, key@) is None,
        },
{
    match args.get(key) {
        Some(v) => v.as_str(),
        None => None,
    }
}

/// Fetch an integer argument, with a default.
fn get_i64_arg(args: &JsonValue, key: &str, default: i64) -> (r: i64)
    ensures
        match obj_lookup(*args, key@) {
            Some(v) => (v is Int ==> r == v->Int_0) && (!(v is Int) ==> r == default),
            None => r == default,
        },
{
    match args.get(key) {
        Some(v) => match v.as_i64() {
            Some(n) => n,
            None => default,
        },
        None => default,
    }
}

/// A non-negative request limit as a size.
fn clamp_limit(n: i64) -> (r: usize)
    ensures
        n >= 0 ==> r as int == (if n <= usize::MAX as int {
            n as int
        } else {
            usize::MAX as int
        }),
        n < 0 ==> r == 0,
{
    if n < 0 {
        0
    } else if (n as u64) > (usize::MAX as u64) {
        usize::MAX
    } else {
        n as usize
    }
}

/// One missing-field error envelope.
fn missing_field(name: &str) -> (r: ToolResult)
    ensures
        r.is_error,
        r.content@.len() == 1,
        r.content@[0].text@ == "missing required field: "@ + name@,
{
    let mut msg = String::new();
    msg.append("missing required field: ");
    msg.append(name);
    ToolResult::error(msg)
}

/// Store a new memory from `topic`, `content` and the optional
/// `importance`, `keywords` and `raw_excerpt` fields.
pub fn tool_store(store: &mut Store, args: &JsonValue) -> (r: ToolResult)
    requires
        old(store).wf(),
    ensures
        final(store).wf(),
        final(store)@.memoirs == old(store)@.memoirs,
        final(store)@.concepts == old(store)@.concepts,
        final(store)@.links == old(store)@.links,
        str_arg(*args, "topic"@) is None ==> r.is_error && final(store)@ == old(store)@
            && r.content@[0].text@ == "missing required field: "@ + "topic"@,
        str_arg(*args, "topic"@) is Some && str_arg(*args, "content"@) is None ==> r.is_error
            && final(store)@ == old(store)@ && r.content@[0].text@
            == "missing required field: "@ + "content"@,
        str_arg(*args, "topic"@) matches Some(t) ==> (str_arg(*args, "content"@) matches Some(c)
            ==> (!r.is_error ==> {
            let m = final(store)@.mems.last();
            &&& final(store)@.mems.len() == old(store)@.mems.len() + 1
            &&& final(store)@.mems == old(store)@.mems.push(m)
            &&& m.topic == t
            &&& m.summary == c
            &&& m.id.len() == 26
            &&& m.weight == crate::memory::WEIGHT_SCALE as int
            &&& r.content@[0].text@ == "Stored memory: "@ + m.id
        })),
        str_arg(*args, "topic"@) is Some && str_arg(*args, "content"@) is Some && r.is_error
            ==> exists|idc: Seq<char>|
            idc.len() == 26 && #[trigger] crate::store::has_mem(old(store)@.mems, idc),
        r.is_error ==> final(store)@ == old(store)@,
{
    let topic = match get_str_arg(args, "topic") {
        Some(t) => t.clone(),
        None => {
            return missing_field("topic");
        },
    };
    let content = match get_str_arg(args, "content") {
        Some(c) => c.clone(),
        None => {
            return missing_field("content");
        },
    };
    let importance = match get_str_arg(args, "importance") {
        Some(s) => match Importance::parse(s.as_str()) {
            Some(i) => i,
            None => Importance::Medium,
        },
        None => Importance::Medium,
    };
    let mut memory = Memory::new(topic, content, importance);
    match args.get("keywords") {
        Some(v) => {
            match v {
                JsonValue::Arr(items) => {
                    let mut kws: Vec<String> = Vec::new();
                    let mut i: usize = 0;
                    while i < items.len()
                        decreases items@.len() - i,
                    {
                        match &items[i] {
                            JsonValue::Str(s) => {
                                kws.push(s.clone());
                            },
                            _ => {},
                        }
                        i = i + 1;
                    }
                    memory.keywords = kws;
                },
                _ => {},
            }
        },
        None => {},
    }
    match get_str_arg(args, "raw_excerpt") {
        Some(raw) => {
            memory.raw_excerpt = Some(raw.clone());
        },
        None => {},
    }
    let ghost m = memory@;
    match store.store(memory) {
        Ok(id) => {
            let mut msg = String::new();
            msg.append("Stored memory: ");
            msg.append(id.as_str());
            ToolResult::text(msg)
        },
        Err(e) => {
            proof {
                assert(m.id.len() == 26);
                assert(crate::store::has_mem(old(store)@.mems, m.id));
            }
            let mut msg = String::new();
            msg.append("failed to store: ");
            let d = e.describe();
            msg.append(d.as_str());
            ToolResult::error(msg)
        },
    }
}

/// Delete a memory by identifier.
pub fn tool_forget(store: &mut Store, args: &JsonValue) -> (r: ToolResult)
    requires
        old(store).wf(),
    ensures
        final(store).wf(),
        final(store)@.memoirs == old(store)@.memoirs,
        final(store)@.concepts == old(store)@.concepts,
        final(store)@.links == old(store)@.links,
        str_arg(*args, "id"@) is None ==> r.is_error && final(store)@ == old(store)@
            && r.content@[0].text@ == "missing required field: "@ + "id"@,
        str_arg(*args, "id"@) matches Some(id) ==> {
            &&& !r.is_error <==> crate::store::has_mem(old(store)@.mems, id)
            &&& !r.is_error ==> final(store)@.mems == old(store)@.mems.remove(
                crate::store::mem_idx(old(store)@.mems, id),
            ) && r.content@[0].text@ == "Deleted memory: "@ + id
            &&& r.is_error ==> final(store)@ == old(store)@
        },
{
    let id = match get_str_arg(args, "id") {
        Some(id) => id.clone(),
        None => {
            return missing_field("id");
        },
    };
    match store.delete(id.as_str()) {
        Ok(()) => {
            let mut msg = String::new();
            msg.append("Deleted memory: ");
            msg.append(id.as_str());
            ToolResult::text(msg)
        },
        Err(e) => {
            let mut msg = String::new();
            msg.append("failed to delete: ");
            let d = e.describe();
            msg.append(d.as_str());
            ToolResult::error(msg)
        },
    }
}

/// Replace every memory of a topic by one consolidated summary.
pub fn tool_consolidate(store: &mut Store, args: &JsonValue) -> (r: ToolResult)
    requires
        old(store).wf(),
    ensures
        final(store).wf(),
        final(store)@.memoirs == old(store)@.memoirs,
        final(store)@.concepts == old(store)@.concepts,
        final(store)@.links == old(store)@.links,
        str_arg(*args, "topic"@) is None ==> r.is_error && final(store)@ == old(store)@
            && r.content@[0].text@ == "missing required field: "@ + "topic"@,
        str_arg(*args, "topic"@) is Some && str_arg(*args, "summary"@) is None ==> r.is_error
            && final(store)@ == old(store)@ && r.content@[0].text@
            == "missing required field: "@ + "summary"@,
        str_arg(*args, "topic"@) matches Some(t) ==> (str_arg(*args, "summary"@) matches Some(s)
            ==> (!r.is_error ==> {
            let m = final(store)@.mems.last();
            &&& final(store)@.mems == crate::topics::other_topics(old(store)@.mems, t).push(m)
            &&& m.topic == t
            &&& m.summary == s
            &&& m.importance == Importance::High
            &&& r.content@[0].text@ == "Consolidated topic: "@ + t
        })),
        str_arg(*args, "topic"@) matches Some(t) ==> (str_arg(*args, "summary"@) is Some
            && r.is_error ==> exists|idc: Seq<char>|
            idc.len() == 26 && #[trigger] crate::store::has_mem(
                crate::topics::other_topics(old(store)@.mems, t),
                idc,
            )),
        r.is_error ==> final(store)@ == old(store)@,
{
    let topic = match get_str_arg(args, "topic") {
        Some(t) => t.clone(),
        None => {
            return missing_field("topic");
        },
    };
    let summary = match get_str_arg(args, "summary") {
        Some(s) => s.clone(),
        None => {
            return missing_field("summary");
        },
    };
    let consolidated = Memory::new(topic.clone(), summary, Importance::High);
    let ghost cm = consolidated@;
    match store.consolidate_topic(topic.as_str(), consolidated) {
        Ok(()) => {
            let mut msg = String::new();
            msg.append("Consolidated topic: ");
            msg.append(topic.as_str());
            ToolResult::text(msg)
        },
        Err(e) => {
            proof {
                assert(cm.id.len() == 26);
                assert(topic@ == str_arg(*args, "topic"@)->0);
                assert(crate::store::has_mem(
                    crate::topics::other_topics(old(store)@.mems, str_arg(*args, "topic"@)->0),
                    cm.id,
                ));
            }
            let mut msg = String::new();
            msg.append("failed to consolidate: ");
            let d = e.describe();
            msg.append(d.as_str());
            ToolResult::error(msg)
        },
    }
}

/// The decimal text of a parts-per-million value with three decimals
/// (what `fmt_ppm` renders).
pub open spec fn ppm_text(w: int) -> Seq<char> {
    crate::text::dec_nat((w / 1_000_000) as nat) + "."@ + crate::text::dec_nat(
        ((w % 1_000_000) / 1000 / 100) as nat,
    ) + crate::text::dec_nat(((w % 1_000_000) / 1000 / 10 % 10) as nat) + crate::text::dec_nat(
        ((w % 1_000_000) / 1000 % 10) as nat,
    )
}

/// The decimal text of a thousandths value with two decimals (what
/// `fmt_confidence` renders).
pub open spec fn conf_text(c: int) -> Seq<char> {
    crate::text::dec_nat((c / 1000) as nat) + "."@ + crate::text::dec_nat(
        ((c % 1000) / 100) as nat,
    ) + crate::text::dec_nat(((c % 1000) / 10 % 10) as nat)
}

/// Some entry of a rendered listing carries this name.
pub open spec fn name_listed(list: Seq<(Seq<char>, int)>, t: Seq<char>) -> bool {
    exists|j: int| 0 <= j < list.len() && (#[trigger] list[j]).0 == t
}

/// A topic listing as the contract of `list_topics` pins it: strictly
/// sorted names, exact counts, every stored topic covered.
pub open spec fn topics_listing(mems: Seq<MemoryView>, list: Seq<(Seq<char>, int)>) -> bool {
    &&& forall|i: int, j: int|
        #![trigger list[i], list[j]]
        0 <= i < j < list.len() ==> crate::text::lex_lt(list[i].0, list[j].0)
    &&& forall|j: int|
        0 <= j < list.len() ==> (#[trigger] list[j]).1 == crate::store::of_topic(
            mems,
            list[j].0,
        ).len() && list[j].1 >= 1
    &&& forall|i: int|
        #![trigger mems[i]]
        0 <= i < mems.len() ==> name_listed(list, mems[i].topic)
}

/// One line per topic: two spaces, the name, the count, a label.
pub open spec fn topic_lines(list: Seq<(Seq<char>, int)>) -> Seq<char>
    decreases list.len(),
{
    if list.len() == 0 {
        Seq::empty()
    } else {
        topic_lines(list.drop_last()) + "  "@ + list.last().0 + ": "@ + crate::text::dec_nat(
            list.last().1 as nat,
        ) + " memories\n"@
    }
}

/// The whole topic report.
pub open spec fn topics_report(list: Seq<(Seq<char>, int)>) -> Seq<char> {
    if list.len() == 0 {
        "No topics yet."@
    } else {
        "Topics:\n"@ + topic_lines(list)
    }
}

/// The view of an owned (name, count) listing.
pub open spec fn pairs_view(s: Seq<(String, usize)>) -> Seq<(Seq<char>, int)> {
    s.map_values(|p: (String, usize)| (p.0@, p.1 as int))
}

/// The statistics report, fully determined by the stored memories.
pub open spec fn stats_report(mems: Seq<MemoryView>) -> Seq<char> {
    let head = "Memories: "@ + crate::text::dec_nat(mems.len()) + "\nTopics: "@
        + crate::text::dec_nat(crate::topics::topics_of(mems).to_set().len()) + "\nAvg weight: "@
        + ppm_text(
        if mems.len() > 0 {
            crate::topics::sum_weights(mems) / (mems.len() as int)
        } else {
            0
        },
    ) + "\n"@;
    if mems.len() == 0 {
        head
    } else {
        head + "Oldest: "@ + crate::trusted::civil_datetime(crate::topics::min_created(mems))
            + "\n"@ + "Newest: "@ + crate::trusted::civil_datetime(
            crate::topics::max_created(mems),
        ) + "\n"@
    }
}

/// List the topics with their memory counts.
pub fn tool_list_topics(store: &Store) -> (r: ToolResult)
    requires
        store.wf(),
    ensures
        !r.is_error,
        r.content@.len() == 1,
        exists|list: Seq<(Seq<char>, int)>|
            #[trigger] topics_listing(store@.mems, list) && r.content@[0].text@ == topics_report(
                list,
            ),
{
    let topics = match store.list_topics() {
        Ok(t) => t,
        Err(e) => {
            let mut msg = String::new();
            msg.append("failed to list topics: ");
            let d = e.describe();
            msg.append(d.as_str());
            return ToolResult::text(msg);
        },
    };
    let ghost list = pairs_view(topics@);
    proof {
        assert forall|i: int, j: int|
                #![trigger list[i], list[j]]
                0 <= i < j < list.len() implies crate::text::lex_lt(list[i].0, list[j].0) by {
                assert(list[i] == (topics@[i].0@, topics@[i].1 as int));
                assert(list[j] == (topics@[j].0@, topics@[j].1 as int));
            }
            assert forall|j: int|
                0 <= j < list.len() implies (#[trigger] list[j]).1 == crate::store::of_topic(
                store@.mems,
                list[j].0,
            ).len() && list[j].1 >= 1 by {
                assert(list[j] == (topics@[j].0@, topics@[j].1 as int));
            }
            assert forall|i: int|
                #![trigger store@.mems[i]]
                0 <= i < store@.mems.len() implies name_listed(
                list,
                store@.mems[i].topic,
            ) by {
                assert(crate::topics::topic_listed(topics@, store@.mems[i].topic));
                let j = choose|j: int|
                    0 <= j < topics@.len() && (#[trigger] topics@[j]).0@ == store@.mems[i].topic;
                assert(list[j].0 == store@.mems[i].topic);
            }
        assert(topics_listing(store@.mems, list));
    }
    if topics.len() == 0 {
        proof {
            assert(list =~= Seq::<(Seq<char>, int)>::empty());
        }
        return ToolResult::text("No topics yet.".to_owned());
    }
    let mut out = String::new();
    out.append("Topics:\n");
    let mut i: usize = 0;
    proof {
        assert(list.take(0) =~= Seq::<(Seq<char>, int)>::empty());
        assert(out@ =~= "Topics:\n"@ + topic_lines(list.take(0)));
    }
    while i < topics.len()
        invariant
            i <= topics@.len(),
            list == pairs_view(topics@),
            out@ == "Topics:\n"@ + topic_lines(list.take(i as int)),
        decreases topics@.len() - i,
    {
        proof {
            let t1 = list.take(i + 1);
            assert(t1.drop_last() =~= list.take(i as int));
            assert(t1.last() == list[i as int]);
            assert(list[i as int] == (topics@[i as int].0@, topics@[i as int].1 as int));
        }
        out.append("  ");
        out.append(topics[i].0.as_str());
        out.append(": ");
        let c = usize_to_string(topics[i].1);
        out.append(c.as_str());
        out.append(" memories\n");
        proof {
            assert(out@ =~= "Topics:\n"@ + topic_lines(list.take(i + 1)));
        }
        i = i + 1;
    }
    proof {
        assert(list.take(list.len() as int) =~= list);
    }
    ToolResult::text(out)
}

/// Report the store's aggregate statistics: totals, average weight and
/// the extreme creation instants, exactly as stored.
pub fn tool_stats(store: &Store) -> (r: ToolResult)
    requires
        store.wf(),
    ensures
        !r.is_error,
        r.content@.len() == 1,
        r.content@[0].text@ == stats_report(store@.mems),
{
    let stats = match store.stats() {
        Ok(s) => s,
        Err(e) => {
            let mut msg = String::new();
            msg.append("failed to get stats: ");
            let d = e.describe();
            msg.append(d.as_str());
            return ToolResult::text(msg);
        },
    };
    let mut out = String::new();
    out.append("Memories: ");
    let t = usize_to_string(stats.total_memories);
    out.append(t.as_str());
    out.append("\nTopics: ");
    let t2 = usize_to_string(stats.total_topics);
    out.append(t2.as_str());
    out.append("\nAvg weight: ");
    let t3 = fmt_ppm(stats.avg_weight);
    out.append(t3.as_str());
    out.append("\n");
    match stats.oldest_memory {
        Some(ts) => {
            out.append("Oldest: ");
            let d = crate::trusted::format_timestamp(ts);
            out.append(d.as_str());
            out.append("\n");
        },
        None => {},
    }
    match stats.newest_memory {
        Some(ts) => {
            out.append("Newest: ");
            let d = crate::trusted::format_timestamp(ts);
            out.append(d.as_str());
            out.append("\n");
        },
        None => {},
    }
    proof {
        assert(out@ =~= stats_report(store@.mems));
    }
    ToolResult::text(out)
}

/// Search memories: full-text first, then substring terms, optionally
/// filtered by topic; access metadata of the returned memories is bumped.
/// Render one recalled memory's block.
fn render_recall_block(m: &Memory) -> (r: String)
    ensures
        r@ == recall_block(m@),
{
    let mut out = String::new();
    out.append("--- ");
    out.append(m.id.as_str());
    out.append(" ---\n  topic: ");
    out.append(m.topic.as_str());
    out.append("\n  importance: ");
    out.append(m.importance.as_str());
    out.append("\n  weight: ");
    let w = fmt_ppm(m.weight);
    out.append(w.as_str());
    out.append("\n  summary: ");
    out.append(m.summary.as_str());
    out.append("\n");
    let ghost head = "--- "@ + m@.id + " ---\n  topic: "@ + m@.topic + "\n  importance: "@
        + m@.importance.name_spec() + "\n  weight: "@ + ppm_text(m@.weight) + "\n  summary: "@
        + m@.summary + "\n"@;
    proof {
        assert(out@ =~= head);
    }
    if m.keywords.len() > 0 {
        out.append("  keywords: ");
        let ghost kwsd = m@.keywords;
        proof {
            assert(kwsd.take(0) =~= Seq::<Seq<char>>::empty());
            assert(out@ =~= head + "  keywords: "@ + kw_join(kwsd.take(0)));
        }
        let mut k: usize = 0;
        while k < m.keywords.len()
            invariant
                kwsd == m@.keywords,
                k <= kwsd.len(),
                m.keywords.deep_view() == kwsd,
                out@ == head + "  keywords: "@ + kw_join(kwsd.take(k as int)),
            decreases kwsd.len() - k,
        {
            proof {
                let t2 = kwsd.take(k + 1);
                assert(t2.drop_last() =~= kwsd.take(k as int));
                assert(t2.last() == kwsd[k as int]);
            }
            if k > 0 {
                out.append(", ");
            }
            out.append(m.keywords[k].as_str());
            proof {
                assert(out@ =~= head + "  keywords: "@ + kw_join(kwsd.take(k + 1)));
            }
            k = k + 1;
        }
        out.append("\n");
        proof {
            assert(kwsd.take(kwsd.len() as int) =~= kwsd);
            assert(out@ =~= head + ("  keywords: "@ + kw_join(kwsd) + "\n"@));
        }
    }
    match &m.raw_excerpt {
        Some(raw) => {
            out.append("  raw: ");
            out.append(raw.as_str());
            out.append("\n");
        },
        None => {},
    }
    out.append("\n");
    proof {
        assert(out@ =~= recall_block(m@));
    }
    out
}

/// The results kept by an exact topic filter.
pub open spec fn topic_sel(rs: Seq<MemoryView>, t: Seq<char>) -> Seq<MemoryView> {
    rs.filter(|m: MemoryView| m.topic == t)
}

/// How the topic filter grows, entry by entry.
proof fn lemma_topic_sel_push(s: Seq<MemoryView>, x: MemoryView, t: Seq<char>)
    ensures
        topic_sel(s.push(x), t) == (if x.topic == t {
            topic_sel(s, t).push(x)
        } else {
            topic_sel(s, t)
        }),
{
    reveal(Seq::filter);
    assert(s.push(x).drop_last() =~= s);
    assert(s.push(x).last() == x);
}

/// The topic filter keeps only members of its input, and keeps
/// identifiers distinct when the input's are.
proof fn lemma_topic_sel_props(s: Seq<MemoryView>, t: Seq<char>)
    ensures
        forall|i: int|
            0 <= i < topic_sel(s, t).len() ==> crate::search::mem_member(
                s,
                #[trigger] topic_sel(s, t)[i],
            ),
        (forall|a: int, b: int|
            #![trigger s[a], s[b]]
            0 <= a < b < s.len() ==> s[a].id != s[b].id) ==> forall|a: int, b: int|
            #![trigger topic_sel(s, t)[a], topic_sel(s, t)[b]]
            0 <= a < b < topic_sel(s, t).len() ==> topic_sel(s, t)[a].id != topic_sel(s, t)[b].id,
{
    let f = topic_sel(s, t);
    assert forall|i: int|
        0 <= i < f.len() implies crate::search::mem_member(s, #[trigger] f[i]) by {
        crate::store::lemma_filter_member_at(s, |m: MemoryView| m.topic == t, i);
    }
    if forall|a: int, b: int|
        #![trigger s[a], s[b]]
        0 <= a < b < s.len() ==> s[a].id != s[b].id {
        crate::store::lemma_filter_keeps_pairwise(
            s,
            |m: MemoryView| m.topic == t,
            |a: MemoryView, b: MemoryView| a.id == b.id,
        );
    }
}

/// One raw recall pass: full-text first, the keyword fallback only when
/// it came back empty.
pub open spec fn recall_raw_ok(
    pre: crate::store::StoreView,
    q: Seq<char>,
    limit: int,
    raw: Seq<MemoryView>,
) -> bool {
    exists|f: Seq<MemoryView>|
        #[trigger] crate::search::fts_result_ok(pre.mems, q, limit, f) && ((f.len() > 0 && raw
            == f) || (f.len() == 0 && crate::search::kw_result_ok(
            pre.mems,
            crate::text::tokens(q),
            limit,
            raw,
        )))
}

/// Some returned memory among the first `n` carries this identifier.
pub open spec fn id_among(rs: Seq<MemoryView>, n: int, id: Seq<char>) -> bool {
    exists|j: int| 0 <= j < n && (#[trigger] rs[j]).id == id
}

/// `p` is `m` with its access count stepped once (saturating) and a
/// fresh access instant.
pub open spec fn bump_of(m: MemoryView, p: MemoryView) -> bool {
    &&& p == (MemoryView { access_count: p.access_count, last_accessed: p.last_accessed, ..m })
    &&& p.access_count == (if m.access_count < u32::MAX as int {
        m.access_count + 1
    } else {
        m.access_count
    })
}

/// Exactly the returned memories were bumped; everything else is
/// untouched.
pub open spec fn recall_bumped(
    prem: Seq<MemoryView>,
    postm: Seq<MemoryView>,
    rs: Seq<MemoryView>,
) -> bool {
    &&& postm.len() == prem.len()
    &&& forall|k: int|
        0 <= k < prem.len() ==> (if id_among(rs, rs.len() as int, (#[trigger] prem[k]).id) {
            bump_of(prem[k], postm[k])
        } else {
            postm[k] == prem[k]
        })
}

/// The keyword list joined with commas.
pub open spec fn kw_join(kws: Seq<Seq<char>>) -> Seq<char>
    decreases kws.len(),
{
    if kws.len() == 0 {
        Seq::empty()
    } else {
        kw_join(kws.drop_last()) + (if kws.len() == 1 {
            Seq::<char>::empty()
        } else {
            ", "@
        }) + kws.last()
    }
}

/// One rendered block per recalled memory.
pub open spec fn recall_block(m: MemoryView) -> Seq<char> {
    "--- "@ + m.id + " ---\n  topic: "@ + m.topic + "\n  importance: "@ + m.importance.name_spec()
        + "\n  weight: "@ + ppm_text(m.weight) + "\n  summary: "@ + m.summary + "\n"@ + (
    if m.keywords.len() > 0 {
        "  keywords: "@ + kw_join(m.keywords) + "\n"@
    } else {
        Seq::<char>::empty()
    }) + (match m.raw_excerpt {
        Option::Some(rx) => "  raw: "@ + rx + "\n"@,
        Option::None => Seq::<char>::empty(),
    }) + "\n"@
}

/// The blocks of every recalled memory, in order.
pub open spec fn recall_lines(rs: Seq<MemoryView>) -> Seq<char>
    decreases rs.len(),
{
    if rs.len() == 0 {
        Seq::empty()
    } else {
        recall_lines(rs.drop_last()) + recall_block(rs.last())
    }
}

/// The whole recall reply.
pub open spec fn recall_report(rs: Seq<MemoryView>) -> Seq<char> {
    if rs.len() == 0 {
        "No memories found."@
    } else {
        recall_lines(rs)
    }
}

/// Everything a recall does: a raw search pass, the optional topic
/// filter, an access bump on exactly what is returned, and the rendered
/// report.
pub open spec fn recall_ok(
    pre: crate::store::StoreView,
    post: crate::store::StoreView,
    q: Seq<char>,
    limit: int,
    topic: Option<Seq<char>>,
    rs: Seq<MemoryView>,
    text: Seq<char>,
) -> bool {
    &&& exists|raw: Seq<MemoryView>|
        #[trigger] recall_raw_ok(pre, q, limit, raw) && rs == (match topic {
            Option::None => raw,
            Option::Some(t) => topic_sel(raw, t),
        })
    &&& recall_bumped(pre.mems, post.mems, rs)
    &&& text == recall_report(rs)
}

#[verifier::rlimit(100)]
pub fn tool_recall(store: &mut Store, args: &JsonValue) -> (r: ToolResult)
    requires
        old(store).wf(),
    ensures
        final(store).wf(),
        final(store)@.memoirs == old(store)@.memoirs,
        final(store)@.concepts == old(store)@.concepts,
        final(store)@.links == old(store)@.links,
        final(store)@.mems.len() == old(store)@.mems.len(),
        str_arg(*args, "query"@) is None ==> r.is_error && final(store)@ == old(store)@
            && r.content@[0].text@ == "missing required field: "@ + "query"@,
        str_arg(*args, "query"@) is Some ==> !r.is_error,
        str_arg(*args, "query"@) matches Some(q) ==> exists|rs: Seq<MemoryView>| #[trigger]
            recall_ok(
                old(store)@,
                final(store)@,
                q,
                limit_arg(*args, "limit"@, 5),
                str_arg(*args, "topic"@),
                rs,
                r.content@[0].text@,
            ),
{
    let query = match get_str_arg(args, "query") {
        Some(q) => q.clone(),
        None => {
            return missing_field("query");
        },
    };
    let limit = clamp_limit(get_i64_arg(args, "limit", 5));
    let ghost pre = store@;
    let mut results = match store.search_fts(query.as_str(), limit) {
        Ok(v) => v,
        Err(_) => Vec::new(),
    };
    let ghost f = results.deep_view();
    let ghost mut rawseq = f;
    if results.len() == 0 {
        let words = crate::text::split_words(query.as_str());
        results = match store.search_by_keywords(&words, limit) {
            Ok(v) => v,
            Err(_) => Vec::new(),
        };
        proof {
            rawseq = results.deep_view();
        }
    }
    proof {
        assert(recall_raw_ok(pre, query@, limit as int, rawseq));
        assert(results.deep_view() == rawseq);
    }
    let ghost mut rs = rawseq;
    match get_str_arg(args, "topic") {
        Some(t) => {
            let topic = t.clone();
            let mut kept: Vec<Memory> = Vec::new();
            let mut i: usize = 0;
            proof {
                assert(rawseq.take(0) =~= Seq::<MemoryView>::empty());
                assert(kept.deep_view() =~= topic_sel(rawseq.take(0), topic@)) by {
                    reveal(Seq::filter);
                }
            }
            while i < results.len()
                invariant
                    i <= rawseq.len(),
                    results.deep_view() == rawseq,
                    kept.deep_view() == topic_sel(rawseq.take(i as int), topic@),
                decreases rawseq.len() - i,
            {
                proof {
                    assert(rawseq.take(i + 1) =~= rawseq.take(i as int).push(rawseq[i as int]));
                    lemma_topic_sel_push(rawseq.take(i as int), rawseq[i as int], topic@);
                }
                let ghost prev = kept.deep_view();
                if str_eq(results[i].topic.as_str(), topic.as_str()) {
                    kept.push(crate::memory::clone_memory(&results[i]));
                    proof {
                        assert(kept.deep_view() =~= prev.push(rawseq[i as int]));
                    }
                }
                i = i + 1;
            }
            proof {
                assert(rawseq.take(rawseq.len() as int) =~= rawseq);
            }
            results = kept;
            proof {
                rs = topic_sel(rawseq, topic@);
                lemma_topic_sel_props(rawseq, topic@);
            }
        },
        None => {},
    }
    proof {
        assert(results.deep_view() == rs);
        assert(rs == (match str_arg(*args, "topic"@) {
            Option::None => rawseq,
            Option::Some(t) => topic_sel(rawseq, t),
        }));
        assert(forall|j: int|
            0 <= j < rs.len() ==> crate::search::mem_member(pre.mems, #[trigger] rs[j]));
        assert(forall|a: int, b: int|
            #![trigger rs[a], rs[b]]
            0 <= a < b < rs.len() ==> rs[a].id != rs[b].id);
    }
    let mut i: usize = 0;
    proof {
        assert forall|k: int|
            0 <= k < pre.mems.len() implies (if id_among(rs, 0, (#[trigger] pre.mems[k]).id) {
            bump_of(pre.mems[k], store@.mems[k])
        } else {
            store@.mems[k] == pre.mems[k]
        }) by {
            assert(!id_among(rs, 0, pre.mems[k].id));
        }
    }
    while i < results.len()
        invariant
            store.wf(),
            store@.memoirs == pre.memoirs,
            store@.concepts == pre.concepts,
            store@.links == pre.links,
            store@.mems.len() == pre.mems.len(),
            i <= rs.len(),
            results.deep_view() == rs,
            forall|j: int|
                0 <= j < rs.len() ==> crate::search::mem_member(pre.mems, #[trigger] rs[j]),
            forall|a: int, b: int|
                #![trigger rs[a], rs[b]]
                0 <= a < b < rs.len() ==> rs[a].id != rs[b].id,
            forall|a: int, b: int| 0 <= a < b < pre.mems.len() ==> pre.mems[a].id != pre.mems[b].id,
            forall|k: int|
                0 <= k < pre.mems.len() ==> (if id_among(
                    rs,
                    i as int,
                    (#[trigger] pre.mems[k]).id,
                ) {
                    bump_of(pre.mems[k], store@.mems[k])
                } else {
                    store@.mems[k] == pre.mems[k]
                }),
        decreases rs.len() - i,
    {
        let ghost cur = store@;
        proof {
            let k0 = choose|k0: int| 0 <= k0 < pre.mems.len() && pre.mems[k0] == rs[i as int];
            assert(cur.mems[k0].id == pre.mems[k0].id);
            assert(crate::store::has_mem(cur.mems, rs[i as int].id));
        }
        let _ = store.update_access(results[i].id.as_str());
        proof {
            let k0 = choose|k0: int| 0 <= k0 < pre.mems.len() && pre.mems[k0] == rs[i as int];
            let idx = crate::store::mem_idx(cur.mems, rs[i as int].id);
            assert(cur.mems[idx].id == rs[i as int].id);
            assert(cur.mems[k0].id == rs[i as int].id);
            assert(idx == k0);
            assert(!id_among(rs, i as int, pre.mems[k0].id)) by {
                if id_among(rs, i as int, pre.mems[k0].id) {
                    let j = choose|j: int|
                        0 <= j < i && (#[trigger] rs[j]).id == pre.mems[k0].id;
                    assert(rs[j].id == rs[i as int].id);
                }
            }
            assert(cur.mems[k0] == pre.mems[k0]);
            assert(bump_of(pre.mems[k0], store@.mems[k0]));
            assert forall|k: int|
                0 <= k < pre.mems.len() implies (if id_among(
                rs,
                i + 1,
                (#[trigger] pre.mems[k]).id,
            ) {
                bump_of(pre.mems[k], store@.mems[k])
            } else {
                store@.mems[k] == pre.mems[k]
            }) by {
                if k != k0 {
                    assert(store@.mems[k] == cur.mems[k]);
                    if id_among(rs, i + 1, pre.mems[k].id) && !id_among(rs, i as int, pre.mems[k].id) {
                        let j = choose|j: int|
                            0 <= j < i + 1 && (#[trigger] rs[j]).id == pre.mems[k].id;
                        assert(j == i as int);
                        assert(pre.mems[k].id == pre.mems[k0].id);
                        assert(false);
                    }
                } else {
                    assert(id_among(rs, i + 1, pre.mems[k0].id)) by {
                        assert(rs[i as int].id == pre.mems[k0].id);
                    }
                }
            }
        }
        i = i + 1;
    }
    proof {
        assert(recall_bumped(pre.mems, store@.mems, rs));
    }
    if results.len() == 0 {
        let r = ToolResult::text("No memories found.".to_owned());
        proof {
            assert(rs.len() == 0);
            assert(r.content@[0].text@ == recall_report(rs));
            assert(recall_raw_ok(
                pre,
                str_arg(*args, "query"@)->0,
                limit_arg(*args, "limit"@, 5),
                rawseq,
            ));
            assert(recall_ok(
                pre,
                store@,
                str_arg(*args, "query"@)->0,
                limit_arg(*args, "limit"@, 5),
                str_arg(*args, "topic"@),
                rs,
                r.content@[0].text@,
            ));
        }
        return r;
    }
    let mut out = String::new();
    let mut i: usize = 0;
    proof {
        assert(rs.take(0) =~= Seq::<MemoryView>::empty());
        assert(out@ =~= recall_lines(rs.take(0)));
    }
    while i < results.len()
        invariant
            i <= rs.len(),
            results.deep_view() == rs,
            out@ == recall_lines(rs.take(i as int)),
        decreases rs.len() - i,
    {
        proof {
            let t1 = rs.take(i + 1);
            assert(t1.drop_last() =~= rs.take(i as int));
            assert(t1.last() == rs[i as int]);
        }
        let block = render_recall_block(&results[i]);
        out.append(block.as_str());
        proof {
            assert(out@ =~= recall_lines(rs.take(i + 1)));
        }
        i = i + 1;
    }
    proof {
        assert(rs.take(rs.len() as int) =~= rs);
    }
    let r = ToolResult::text(out);
    proof {
        assert(r.content@[0].text@ == recall_report(rs));
        assert(recall_raw_ok(
            pre,
            str_arg(*args, "query"@)->0,
            limit_arg(*args, "limit"@, 5),
            rawseq,
        ));
        assert(recall_ok(
            pre,
            store@,
            str_arg(*args, "query"@)->0,
            limit_arg(*args, "limit"@, 5),
            str_arg(*args, "topic"@),
            rs,
            r.content@[0].text@,
        ));
    }
    r
}

/// Create a memoir from `name` and the optional `description`.
pub fn tool_memoir_create(store: &mut Store, args: &JsonValue) -> (r: ToolResult)
    requires
        old(store).wf(),
    ensures
        final(store).wf(),
        final(store)@.mems == old(store)@.mems,
        final(store)@.concepts == old(store)@.concepts,
        final(store)@.links == old(store)@.links,
        str_arg(*args, "name"@) is None ==> r.is_error && final(store)@ == old(store)@
            && r.content@[0].text@ == "missing required field: "@ + "name"@,
        str_arg(*args, "name"@) matches Some(n) ==> (!r.is_error ==> {
            let m = final(store)@.memoirs.last();
            &&& final(store)@.memoirs == old(store)@.memoirs.push(m)
            &&& m.name == n
        }),
        str_arg(*args, "name"@) matches Some(n) ==> {
            &&& (crate::memoir_store::has_memoir_name(old(store)@.memoirs, n) ==> r.is_error)
            &&& (r.is_error && !crate::memoir_store::has_memoir_name(old(store)@.memoirs, n)
                ==> exists|idc: Seq<char>|
                idc.len() == 26 && #[trigger] crate::memoir_store::has_memoir(
                    old(store)@.memoirs,
                    idc,
                ))
        },
        r.is_error ==> final(store)@ == old(store)@,
{
    let name = match get_str_arg(args, "name") {
        Some(n) => n.clone(),
        None => {
            return missing_field("name");
        },
    };
    let description = match get_str_arg(args, "description") {
        Some(d) => d.clone(),
        None => String::new(),
    };
    let memoir = Memoir::new(name.clone(), description);
    let ghost mm = memoir@;
    match store.create_memoir(memoir) {
        Ok(id) => {
            proof {
                if crate::memoir_store::has_memoir_name(old(store)@.memoirs, name@) {
                    let j = choose|j: int|
                        0 <= j < old(store)@.memoirs.len() && (#[trigger] old(
                            store,
                        )@.memoirs[j]).name == name@;
                    assert(crate::memoir_store::memoir_clash(old(store)@.memoirs[j], mm));
                    assert(false);
                }
            }
            let mut msg = String::new();
            msg.append("Created memoir '");
            msg.append(name.as_str());
            msg.append("': ");
            msg.append(id.as_str());
            ToolResult::text(msg)
        },
        Err(e) => {
            proof {
                if !crate::memoir_store::has_memoir_name(old(store)@.memoirs, name@) {
                    let i = choose|i: int|
                        0 <= i < old(store)@.memoirs.len() && crate::memoir_store::memoir_clash(
                            #[trigger] old(store)@.memoirs[i],
                            mm,
                        );
                    assert(old(store)@.memoirs[i].id == mm.id);
                    assert(mm.id.len() == 26);
                    assert(crate::memoir_store::has_memoir(old(store)@.memoirs, mm.id));
                }
            }
            let mut msg = String::new();
            msg.append("failed to create memoir: ");
            let d = e.describe();
            msg.append(d.as_str());
            ToolResult::error(msg)
        },
    }
}

/// One line per memoir: its name, how many concepts it holds, and its
/// description.
pub open spec fn memoir_lines(concepts: Seq<crate::memoir::ConceptView>, ml: Seq<
    crate::memoir::MemoirView,
>) -> Seq<char>
    decreases ml.len(),
{
    if ml.len() == 0 {
        Seq::empty()
    } else {
        memoir_lines(concepts, ml.drop_last()) + "  "@ + ml.last().name + " ("@
            + crate::text::dec_nat(
            crate::memoir_store::concepts_of(concepts, ml.last().id).len(),
        ) + " concepts) — "@ + ml.last().description + "\n"@
    }
}

/// The memoir report over one name-ordered arrangement of the memoirs.
pub open spec fn memoir_list_ok(
    memoirs: Seq<crate::memoir::MemoirView>,
    concepts: Seq<crate::memoir::ConceptView>,
    ml: Seq<crate::memoir::MemoirView>,
    text: Seq<char>,
) -> bool {
    &&& ml.to_multiset() == memoirs.to_multiset()
    &&& crate::memoir_query::memoirs_sorted_by_name(ml)
    &&& text == (if ml.len() == 0 {
        "No memoirs yet."@
    } else {
        "Memoirs:\n"@ + memoir_lines(concepts, ml)
    })
}

/// List the memoirs with their concept counts.
pub fn tool_memoir_list(store: &Store) -> (r: ToolResult)
    requires
        store.wf(),
    ensures
        !r.is_error,
        r.content@.len() == 1,
        exists|ml: Seq<crate::memoir::MemoirView>| #[trigger]
            memoir_list_ok(store@.memoirs, store@.concepts, ml, r.content@[0].text@),
{
    let memoirs = match store.list_memoirs() {
        Ok(m) => m,
        Err(e) => {
            let mut msg = String::new();
            msg.append("failed to list memoirs: ");
            let d = e.describe();
            msg.append(d.as_str());
            return ToolResult::text(msg);
        },
    };
    let ghost ml = memoirs.deep_view();
    if memoirs.len() == 0 {
        let r = ToolResult::text("No memoirs yet.".to_owned());
        proof {
            assert(ml =~= Seq::<crate::memoir::MemoirView>::empty());
            assert(memoir_list_ok(store@.memoirs, store@.concepts, ml, r.content@[0].text@));
        }
        return r;
    }
    let mut out = String::new();
    out.append("Memoirs:\n");
    let mut i: usize = 0;
    proof {
        assert(ml.take(0) =~= Seq::<crate::memoir::MemoirView>::empty());
        assert(out@ =~= "Memoirs:\n"@ + memoir_lines(store@.concepts, ml.take(0)));
    }
    while i < memoirs.len()
        invariant
            store.wf(),
            i <= ml.len(),
            memoirs.deep_view() == ml,
            out@ == "Memoirs:\n"@ + memoir_lines(store@.concepts, ml.take(i as int)),
        decreases ml.len() - i,
    {
        proof {
            let t1 = ml.take(i + 1);
            assert(t1.drop_last() =~= ml.take(i as int));
            assert(t1.last() == ml[i as int]);
        }
        let stats = store.memoir_stats(memoirs[i].id.as_str());
        let concept_count = match stats {
            Ok(s) => s.total_concepts,
            Err(_) => 0,
        };
        out.append("  ");
        out.append(memoirs[i].name.as_str());
        out.append(" (");
        let c = usize_to_string(concept_count);
        out.append(c.as_str());
        out.append(" concepts) — ");
        out.append(memoirs[i].description.as_str());
        out.append("\n");
        proof {
            assert(out@ =~= "Memoirs:\n"@ + memoir_lines(store@.concepts, ml.take(i + 1)));
        }
        i = i + 1;
    }
    proof {
        assert(ml.take(ml.len() as int) =~= ml);
    }
    let r = ToolResult::text(out);
    proof {
        assert(memoir_list_ok(store@.memoirs, store@.concepts, ml, r.content@[0].text@));
    }
    r
}

/// One line per histogram entry: the rendered label and its use count.
pub open spec fn label_lines(labels: Seq<(Seq<char>, int)>) -> Seq<char>
    decreases labels.len(),
{
    if labels.len() == 0 {
        Seq::empty()
    } else {
        label_lines(labels.drop_last()) + "  "@ + labels.last().0 + " ("@ + crate::text::dec_nat(
            labels.last().1 as nat,
        ) + ")\n"@
    }
}

/// One block per concept: name, revision, confidence and definition.
pub open spec fn concept_lines(csl: Seq<crate::memoir::ConceptView>) -> Seq<char>
    decreases csl.len(),
{
    if csl.len() == 0 {
        Seq::empty()
    } else {
        concept_lines(csl.drop_last()) + "  "@ + csl.last().name + " [r"@
            + crate::text::dec_nat(csl.last().revision as nat) + " c"@ + conf_text(
            csl.last().confidence,
        ) + "]\n    "@ + csl.last().definition + "\n"@
    }
}

/// The memoir report: the header of exact totals, the label histogram
/// in some most-used-first arrangement, and the concepts ordered by
/// name.
pub open spec fn memoir_show_ok(
    v: crate::store::StoreView,
    name: Seq<char>,
    labels: Seq<(Seq<char>, int)>,
    csl: Seq<crate::memoir::ConceptView>,
    text: Seq<char>,
) -> bool {
    let mv = crate::memoir_store::memoir_by_name(v.memoirs, name);
    let mcs = crate::memoir_store::concepts_of(v.concepts, mv.id);
    let flat = crate::memoir_query::flat_labels(mcs);
    &&& forall|j: int|
        0 <= j < labels.len() ==> (#[trigger] labels[j]).1 == crate::memoir_query::label_count_of(
            flat,
            labels[j].0,
        ) && labels[j].1 >= 1
    &&& forall|i: int, j: int|
        #![trigger labels[i], labels[j]]
        0 <= i < j < labels.len() ==> labels[i].1 >= labels[j].1
    &&& forall|k: int| 0 <= k < flat.len() ==> name_listed(labels, #[trigger] flat[k])
    &&& csl.to_multiset() == mcs.to_multiset()
    &&& crate::memoir_query::concepts_sorted_by_name(csl)
    &&& text == "Memoir: "@ + mv.name + "\nDescription: "@ + mv.description + "\nConcepts: "@
        + crate::text::dec_nat(mcs.len()) + "\nLinks: "@ + crate::text::dec_nat(
        v.links.filter(
            |l: crate::memoir::ConceptLinkView| crate::memoir_query::link_from_memoir(
                v.concepts,
                mv.id,
                l,
            ),
        ).len(),
    ) + "\nAvg confidence: "@ + conf_text(
        if mcs.len() > 0 {
            crate::memoir_query::sum_confidence(mcs) / (mcs.len() as int)
        } else {
            0
        },
    ) + "\n"@ + (if labels.len() == 0 {
        Seq::<char>::empty()
    } else {
        "Labels:\n"@ + label_lines(labels)
    }) + (if csl.len() == 0 {
        Seq::<char>::empty()
    } else {
        "\nConcepts:\n"@ + concept_lines(csl)
    })
}

/// Show a memoir: statistics, labels and concepts.
pub fn tool_memoir_show(store: &Store, args: &JsonValue) -> (r: ToolResult)
    requires
        store.wf(),
    ensures
        str_arg(*args, "name"@) is None ==> r.is_error && r.content@[0].text@
            == "missing required field: "@ + "name"@,
        str_arg(*args, "name"@) matches Some(n) ==> (r.is_error
            <==> !crate::memoir_store::has_memoir_name(store@.memoirs, n)),
        str_arg(*args, "name"@) matches Some(n)
            ==> (crate::memoir_store::has_memoir_name(store@.memoirs, n) ==> exists|
            labels: Seq<(Seq<char>, int)>,
            csl: Seq<crate::memoir::ConceptView>,
        | #[trigger] memoir_show_ok(store@, n, labels, csl, r.content@[0].text@)),
{
    let name = match get_str_arg(args, "name") {
        Some(n) => n.clone(),
        None => {
            return missing_field("name");
        },
    };
    let memoir = match store.get_memoir_by_name(name.as_str()) {
        Ok(Some(m)) => m,
        Ok(None) => {
            let mut msg = String::new();
            msg.append("memoir not found: ");
            msg.append(name.as_str());
            return ToolResult::error(msg);
        },
        Err(_) => {
            return ToolResult::error("memoir lookup failed".to_owned());
        },
    };
    let ghost mv = crate::memoir_store::memoir_by_name(store@.memoirs, name@);
    let ghost mcs = crate::memoir_store::concepts_of(store@.concepts, mv.id);
    let stats = match store.memoir_stats(memoir.id.as_str()) {
        Ok(s) => s,
        Err(_) => {
            return ToolResult::text("Memoir found; statistics unavailable.".to_owned());
        },
    };
    let concepts = match store.list_concepts(memoir.id.as_str()) {
        Ok(c) => c,
        Err(_) => Vec::new(),
    };
    let ghost labels = pairs_view(stats.label_counts@);
    let ghost csl = concepts.deep_view();
    let mut out = String::new();
    out.append("Memoir: ");
    out.append(memoir.name.as_str());
    out.append("\nDescription: ");
    out.append(memoir.description.as_str());
    out.append("\nConcepts: ");
    let t = usize_to_string(stats.total_concepts);
    out.append(t.as_str());
    out.append("\nLinks: ");
    let t2 = usize_to_string(stats.total_links);
    out.append(t2.as_str());
    out.append("\nAvg confidence: ");
    let t3 = fmt_confidence(stats.avg_confidence);
    out.append(t3.as_str());
    out.append("\n");
    let ghost head = out@;
    if stats.label_counts.len() > 0 {
        out.append("Labels:\n");
        let mut i: usize = 0;
        proof {
            assert(labels.take(0) =~= Seq::<(Seq<char>, int)>::empty());
            assert(out@ =~= head + "Labels:\n"@ + label_lines(labels.take(0)));
        }
        while i < stats.label_counts.len()
            invariant
                i <= labels.len(),
                labels == pairs_view(stats.label_counts@),
                out@ == head + "Labels:\n"@ + label_lines(labels.take(i as int)),
            decreases labels.len() - i,
        {
            proof {
                let t1 = labels.take(i + 1);
                assert(t1.drop_last() =~= labels.take(i as int));
                assert(t1.last() == labels[i as int]);
                assert(labels[i as int] == (stats.label_counts@[i as int].0@,
                    stats.label_counts@[i as int].1 as int));
            }
            out.append("  ");
            out.append(stats.label_counts[i].0.as_str());
            out.append(" (");
            let c = usize_to_string(stats.label_counts[i].1);
            out.append(c.as_str());
            out.append(")\n");
            proof {
                assert(out@ =~= head + "Labels:\n"@ + label_lines(labels.take(i + 1)));
            }
            i = i + 1;
        }
        proof {
            assert(labels.take(labels.len() as int) =~= labels);
        }
    }
    let ghost mid = out@;
    if concepts.len() > 0 {
        out.append("\nConcepts:\n");
        let mut i: usize = 0;
        proof {
            assert(csl.take(0) =~= Seq::<crate::memoir::ConceptView>::empty());
            assert(out@ =~= mid + "\nConcepts:\n"@ + concept_lines(csl.take(0)));
        }
        while i < concepts.len()
            invariant
                i <= csl.len(),
                concepts.deep_view() == csl,
                out@ == mid + "\nConcepts:\n"@ + concept_lines(csl.take(i as int)),
            decreases csl.len() - i,
        {
            proof {
                let t1 = csl.take(i + 1);
                assert(t1.drop_last() =~= csl.take(i as int));
                assert(t1.last() == csl[i as int]);
            }
            out.append("  ");
            out.append(concepts[i].name.as_str());
            out.append(" [r");
            let rev = u64_to_string(concepts[i].revision as u64);
            out.append(rev.as_str());
            out.append(" c");
            let conf = fmt_confidence(concepts[i].confidence);
            out.append(conf.as_str());
            out.append("]\n    ");
            out.append(concepts[i].definition.as_str());
            out.append("\n");
            proof {
                assert(out@ =~= mid + "\nConcepts:\n"@ + concept_lines(csl.take(i + 1)));
            }
            i = i + 1;
        }
        proof {
            assert(csl.take(csl.len() as int) =~= csl);
        }
    }
    let r = ToolResult::text(out);
    proof {
        let flat = crate::memoir_query::flat_labels(mcs);
        assert(memoir@ == mv);
        assert(mcs == crate::memoir_store::concepts_of(store@.concepts, memoir@.id));
        assert forall|j: int|
            0 <= j < labels.len() implies (#[trigger] labels[j]).1
            == crate::memoir_query::label_count_of(flat, labels[j].0) && labels[j].1 >= 1 by {
            assert(labels[j] == (stats.label_counts@[j].0@, stats.label_counts@[j].1 as int));
            assert(crate::memoir_query::label_entry_ok(flat, stats.label_counts@[j]));
        }
        assert forall|i: int, j: int|
            #![trigger labels[i], labels[j]]
            0 <= i < j < labels.len() implies labels[i].1 >= labels[j].1 by {
            assert(labels[i] == (stats.label_counts@[i].0@, stats.label_counts@[i].1 as int));
            assert(labels[j] == (stats.label_counts@[j].0@, stats.label_counts@[j].1 as int));
        }
        assert forall|k: int| 0 <= k < flat.len() implies name_listed(
            labels,
            #[trigger] flat[k],
        ) by {
            assert(crate::memoir_query::entry_listed(stats.label_counts@, flat[k]));
            let j = choose|j: int|
                0 <= j < stats.label_counts@.len() && (#[trigger] stats.label_counts@[j]).0@
                    == flat[k];
            assert(labels[j].0 == flat[k]);
        }
        assert(labels.len() == 0 ==> labels =~= Seq::<(Seq<char>, int)>::empty());
        assert(csl.len() == 0 ==> csl =~= Seq::<crate::memoir::ConceptView>::empty());
        assert(memoir_show_ok(store@, name@, labels, csl, r.content@[0].text@)) by {
            assert(r.content@[0].text@ =~= "Memoir: "@ + mv.name + "\nDescription: "@
                + mv.description + "\nConcepts: "@ + crate::text::dec_nat(mcs.len())
                + "\nLinks: "@ + crate::text::dec_nat(
                store@.links.filter(
                    |l: crate::memoir::ConceptLinkView| crate::memoir_query::link_from_memoir(
                        store@.concepts,
                        mv.id,
                        l,
                    ),
                ).len(),
            ) + "\nAvg confidence: "@ + conf_text(
                if mcs.len() > 0 {
                    crate::memoir_query::sum_confidence(mcs) / (mcs.len() as int)
                } else {
                    0
                },
            ) + "\n"@ + (if labels.len() == 0 {
                Seq::<char>::empty()
            } else {
                "Labels:\n"@ + label_lines(labels)
            }) + (if csl.len() == 0 {
                Seq::<char>::empty()
            } else {
                "\nConcepts:\n"@ + concept_lines(csl)
            }));
        }
    }
    r
}

/// Add a concept to a memoir, with optional comma-separated labels.
pub fn tool_memoir_add_concept(store: &mut Store, args: &JsonValue) -> (r: ToolResult)
    requires
        old(store).wf(),
    ensures
        final(store).wf(),
        final(store)@.mems == old(store)@.mems,
        final(store)@.memoirs == old(store)@.memoirs,
        final(store)@.links == old(store)@.links,
        str_arg(*args, "memoir"@) is None ==> r.is_error && final(store)@ == old(store)@
            && r.content@[0].text@ == "missing required field: "@ + "memoir"@,
        str_arg(*args, "memoir"@) is Some && str_arg(*args, "name"@) is None ==> r.is_error
            && final(store)@ == old(store)@ && r.content@[0].text@
            == "missing required field: "@ + "name"@,
        str_arg(*args, "memoir"@) is Some && str_arg(*args, "name"@) is Some && str_arg(
            *args,
            "definition"@,
        ) is None ==> r.is_error && final(store)@ == old(store)@ && r.content@[0].text@
            == "missing required field: "@ + "definition"@,
        str_arg(*args, "name"@) matches Some(n) ==> (str_arg(*args, "definition"@) matches Some(
            d,
        ) ==> (!r.is_error ==> {
            let c = final(store)@.concepts.last();
            &&& final(store)@.concepts == old(store)@.concepts.push(c)
            &&& c.name == n
            &&& c.definition == d
            &&& crate::memoir_store::has_memoir(old(store)@.memoirs, c.memoir_id)
        })),
        str_arg(*args, "memoir"@) matches Some(mn) ==> (str_arg(*args, "name"@) matches Some(n)
            ==> (str_arg(*args, "definition"@) is Some ==> {
            let mv = crate::memoir_store::memoir_by_name(old(store)@.memoirs, mn);
            &&& (!crate::memoir_store::has_memoir_name(old(store)@.memoirs, mn) ==> r.is_error)
            &&& (crate::memoir_store::has_memoir_name(old(store)@.memoirs, mn)
                && crate::memoir_store::has_concept_name(old(store)@.concepts, mv.id, n)
                ==> r.is_error)
            &&& (r.is_error && crate::memoir_store::has_memoir_name(old(store)@.memoirs, mn)
                && !crate::memoir_store::has_concept_name(old(store)@.concepts, mv.id, n)
                ==> exists|idc: Seq<char>|
                idc.len() == 26 && #[trigger] crate::memoir_store::has_concept(
                    old(store)@.concepts,
                    idc,
                ))
        })),
        r.is_error ==> final(store)@ == old(store)@,
{
    let memoir_name = match get_str_arg(args, "memoir") {
        Some(n) => n.clone(),
        None => {
            return missing_field("memoir");
        },
    };
    let name = match get_str_arg(args, "name") {
        Some(n) => n.clone(),
        None => {
            return missing_field("name");
        },
    };
    let definition = match get_str_arg(args, "definition") {
        Some(d) => d.clone(),
        None => {
            return missing_field("definition");
        },
    };
    let memoir = match store.get_memoir_by_name(memoir_name.as_str()) {
        Ok(Some(m)) => m,
        Ok(None) => {
            let mut msg = String::new();
            msg.append("memoir not found: ");
            msg.append(memoir_name.as_str());
            return ToolResult::error(msg);
        },
        Err(_) => {
            return ToolResult::error("memoir lookup failed".to_owned());
        },
    };
    let mut concept = Concept::new(memoir.id, name.clone(), definition);
    match get_str_arg(args, "labels") {
        Some(ls) => {
            concept.labels = parse_label_list(ls.as_str());
        },
        None => {},
    }
    let ghost cc = concept@;
    proof {
        assert(memoir@ == crate::memoir_store::memoir_by_name(old(store)@.memoirs, memoir_name@));
    }
    match store.add_concept(concept) {
        Ok(id) => {
            proof {
                if crate::memoir_store::has_concept_name(
                    old(store)@.concepts,
                    memoir@.id,
                    name@,
                ) {
                    let j = choose|j: int|
                        0 <= j < old(store)@.concepts.len() && (#[trigger] old(
                            store,
                        )@.concepts[j]).memoir_id == memoir@.id && old(store)@.concepts[j].name
                            == name@;
                    assert(crate::memoir_store::concept_clash(old(store)@.concepts[j], cc));
                    assert(false);
                }
            }
            let mut msg = String::new();
            msg.append("Added concept '");
            msg.append(name.as_str());
            msg.append("' to memoir '");
            msg.append(memoir_name.as_str());
            msg.append("': ");
            msg.append(id.as_str());
            ToolResult::text(msg)
        },
        Err(e) => {
            proof {
                assert(crate::memoir_store::has_memoir(old(store)@.memoirs, memoir@.id)) by {
                    let j = choose|j: int|
                        0 <= j < old(store)@.memoirs.len() && (#[trigger] old(
                            store,
                        )@.memoirs[j]).name == memoir_name@;
                    assert(old(store)@.memoirs[j].id == memoir@.id);
                }
                if !crate::memoir_store::has_concept_name(
                    old(store)@.concepts,
                    memoir@.id,
                    name@,
                ) {
                    let i = choose|i: int|
                        0 <= i < old(store)@.concepts.len() && crate::memoir_store::concept_clash(
                            #[trigger] old(store)@.concepts[i],
                            cc,
                        );
                    if old(store)@.concepts[i].id != cc.id {
                        assert(old(store)@.concepts[i].memoir_id == memoir@.id
                            && old(store)@.concepts[i].name == name@);
                        assert(false);
                    }
                    assert(cc.id.len() == 26);
                    assert(crate::memoir_store::has_concept(old(store)@.concepts, cc.id));
                }
            }
            let mut msg = String::new();
            msg.append("failed to add concept: ");
            let d = e.describe();
            msg.append(d.as_str());
            ToolResult::error(msg)
        },
    }
}

/// Parse a comma-separated label list, each entry trimmed.
fn parse_label_list(s: &str) -> (r: Vec<Label>)
{
    let mut out: Vec<Label> = Vec::new();
    let n = s.unicode_len();
    let mut start: usize = 0;
    let mut i: usize = 0;
    while i <= n
        invariant
            start <= i <= n + 1,
            i <= n + 1,
            n == s@.len(),
        decreases n + 1 - i,
    {
        if i == n || s.get_char(i) == ',' {
            if start < i {
                let piece = s.substring_char(start, i);
                let trimmed = crate::extract::trim_str(piece);
                if trimmed.unicode_len() > 0 {
                    out.push(Label::parse(trimmed.as_str()));
                }
            }
            if i == n {
                break;
            }
            start = i + 1;
        }
        i = i + 1;
    }
    out
}

/// What refining through the tool does: the named concept is replaced by
/// its refinement (no extra sources) and the reply reports the new
/// revision and confidence.
pub open spec fn refine_tool_ok(
    pre: crate::store::StoreView,
    post: crate::store::StoreView,
    mname: Seq<char>,
    cname: Seq<char>,
    def: Seq<char>,
    text: Seq<char>,
) -> bool {
    let mv = crate::memoir_store::memoir_by_name(pre.memoirs, mname);
    let cv = crate::memoir_store::concept_by_name(pre.concepts, mv.id, cname);
    let i = crate::memoir_store::concept_idx(pre.concepts, cv.id);
    &&& post.concepts.len() == pre.concepts.len()
    &&& post.concepts[i] == crate::memoir_store::refined_concept(
        cv,
        def,
        Seq::empty(),
        post.concepts[i].updated_at,
    )
    &&& forall|k: int|
        0 <= k < pre.concepts.len() && k != i ==> post.concepts[k] == pre.concepts[k]
    &&& text == "Refined '"@ + cname + "' (r"@ + crate::text::dec_nat(
        (cv.revision + 1) as nat,
    ) + ", confidence="@ + conf_text(post.concepts[i].confidence) + ")"@
}

/// Refine a named concept with a new definition.
pub fn tool_memoir_refine(store: &mut Store, args: &JsonValue) -> (r: ToolResult)
    requires
        old(store).wf(),
    ensures
        final(store).wf(),
        final(store)@.mems == old(store)@.mems,
        final(store)@.memoirs == old(store)@.memoirs,
        final(store)@.links == old(store)@.links,
        final(store)@.concepts.len() == old(store)@.concepts.len(),
        str_arg(*args, "memoir"@) is None ==> r.is_error && final(store)@ == old(store)@
            && r.content@[0].text@ == "missing required field: "@ + "memoir"@,
        str_arg(*args, "memoir"@) is Some && str_arg(*args, "name"@) is None ==> r.is_error
            && final(store)@ == old(store)@ && r.content@[0].text@
            == "missing required field: "@ + "name"@,
        str_arg(*args, "memoir"@) is Some && str_arg(*args, "name"@) is Some && str_arg(
            *args,
            "definition"@,
        ) is None ==> r.is_error && final(store)@ == old(store)@ && r.content@[0].text@
            == "missing required field: "@ + "definition"@,
        r.is_error ==> final(store)@ == old(store)@,
        str_arg(*args, "memoir"@) matches Some(mn) ==> (str_arg(*args, "name"@) matches Some(cn)
            ==> (str_arg(*args, "definition"@) is Some ==> (!r.is_error
            <==> crate::memoir_store::has_memoir_name(old(store)@.memoirs, mn)
            && crate::memoir_store::has_concept_name(
            old(store)@.concepts,
            crate::memoir_store::memoir_by_name(old(store)@.memoirs, mn).id,
            cn,
        ) && crate::memoir_store::concept_by_name(
            old(store)@.concepts,
            crate::memoir_store::memoir_by_name(old(store)@.memoirs, mn).id,
            cn,
        ).revision < u32::MAX as int))),
        str_arg(*args, "memoir"@) matches Some(mn) ==> (str_arg(*args, "name"@) matches Some(cn)
            ==> (str_arg(*args, "definition"@) matches Some(d) ==> (!r.is_error
            ==> refine_tool_ok(
            old(store)@,
            final(store)@,
            mn,
            cn,
            d,
            r.content@[0].text@,
        )))),
{
    let memoir_name = match get_str_arg(args, "memoir") {
        Some(n) => n.clone(),
        None => {
            return missing_field("memoir");
        },
    };
    let name = match get_str_arg(args, "name") {
        Some(n) => n.clone(),
        None => {
            return missing_field("name");
        },
    };
    let definition = match get_str_arg(args, "definition") {
        Some(d) => d.clone(),
        None => {
            return missing_field("definition");
        },
    };
    let memoir = match store.get_memoir_by_name(memoir_name.as_str()) {
        Ok(Some(m)) => m,
        Ok(None) => {
            let mut msg = String::new();
            msg.append("memoir not found: ");
            msg.append(memoir_name.as_str());
            return ToolResult::error(msg);
        },
        Err(_) => {
            return ToolResult::error("memoir lookup failed".to_owned());
        },
    };
    let concept = match store.get_concept_by_name(memoir.id.as_str(), name.as_str()) {
        Ok(Some(c)) => c,
        Ok(None) => {
            let mut msg = String::new();
            msg.append("concept not found: ");
            msg.append(name.as_str());
            return ToolResult::error(msg);
        },
        Err(_) => {
            return ToolResult::error("concept lookup failed".to_owned());
        },
    };
    proof {
        let j = choose|j: int|
            0 <= j < old(store)@.concepts.len() && old(store)@.concepts[j].id == concept@.id;
        assert(crate::memoir_store::has_concept(old(store)@.concepts, concept@.id)) by {
            let k = choose|k: int|
                0 <= k < old(store)@.concepts.len() && old(store)@.concepts[k].memoir_id
                    == memoir@.id && old(store)@.concepts[k].name == name@;
            assert(old(store)@.concepts[k].id == concept@.id);
        }
        let i = crate::memoir_store::concept_idx(old(store)@.concepts, concept@.id);
        assert(old(store)@.concepts[i].id == concept@.id);
        let k = choose|k: int|
            0 <= k < old(store)@.concepts.len() && old(store)@.concepts[k].memoir_id == memoir@.id
                && old(store)@.concepts[k].name == name@;
        assert(old(store)@.concepts[k] == concept@);
        assert(old(store)@.concepts[i] == concept@);
    }
    let ghost pre = store@;
    let no_sources: Vec<String> = Vec::new();
    match store.refine_concept(concept.id.as_str(), definition.as_str(), &no_sources) {
        Ok(()) => {},
        Err(e) => {
            proof {
                assert(crate::memoir_store::has_concept(pre.concepts, concept@.id));
            }
            let mut msg = String::new();
            msg.append("failed to refine: ");
            let d = e.describe();
            msg.append(d.as_str());
            return ToolResult::error(msg);
        },
    }
    let ghost i = crate::memoir_store::concept_idx(pre.concepts, concept@.id);
    let updated = match store.get_concept(concept.id.as_str()) {
        Ok(Some(c)) => c,
        _ => {
            proof {
                assert(store@.concepts[i].id == concept@.id);
                assert(crate::memoir_store::has_concept(store@.concepts, concept@.id));
                assert(false);
            }
            let mut msg = String::new();
            msg.append("Refined concept '");
            msg.append(name.as_str());
            msg.append("'");
            return ToolResult::text(msg);
        },
    };
    proof {
        let j = crate::memoir_store::concept_idx(store@.concepts, concept@.id);
        assert(store@.concepts[j].id == concept@.id);
        assert(store@.concepts[i].id == concept@.id);
        assert(j == i);
        assert(updated@ == store@.concepts[i]);
        assert(no_sources.deep_view() =~= Seq::<Seq<char>>::empty());
    }
    let mut msg = String::new();
    msg.append("Refined '");
    msg.append(name.as_str());
    msg.append("' (r");
    let rev = u64_to_string(updated.revision as u64);
    msg.append(rev.as_str());
    msg.append(", confidence=");
    let conf = fmt_confidence(updated.confidence);
    msg.append(conf.as_str());
    msg.append(")");
    let r = ToolResult::text(msg);
    proof {
        assert(r.content@[0].text@ =~= "Refined '"@ + name@ + "' (r"@ + crate::text::dec_nat(
            (concept@.revision + 1) as nat,
        ) + ", confidence="@ + conf_text(store@.concepts[i].confidence) + ")"@);
        assert(refine_tool_ok(pre, store@, memoir_name@, name@, definition@, r.content@[0].text@));
    }
    r
}

/// The effective non-negative limit drawn from an integer argument.
pub open spec fn limit_arg(args: JsonValue, key: Seq<char>, default: int) -> int {
    let raw = match obj_lookup(args, key) {
        Some(v) => match v {
            JsonValue::Int(n) => n as int,
            _ => default,
        },
        None => default,
    };
    if raw < 0 {
        0
    } else if raw > usize::MAX as int {
        usize::MAX as int
    } else {
        raw
    }
}

/// One block per found concept.
pub open spec fn search_lines(rs: Seq<crate::memoir::ConceptView>) -> Seq<char>
    decreases rs.len(),
{
    if rs.len() == 0 {
        Seq::empty()
    } else {
        search_lines(rs.drop_last()) + "--- "@ + rs.last().name + " [r"@ + crate::text::dec_nat(
            rs.last().revision as nat,
        ) + " c"@ + conf_text(rs.last().confidence) + "] ---\n  "@ + rs.last().definition
            + "\n\n"@
    }
}

/// What a within-memoir search returns: a confidence-ranked top-k of the
/// matching concepts, rendered block by block.
pub open spec fn memoir_search_ok(
    v: crate::store::StoreView,
    mname: Seq<char>,
    q: Seq<char>,
    limit: int,
    rs: Seq<crate::memoir::ConceptView>,
    text: Seq<char>,
) -> bool {
    let mv = crate::memoir_store::memoir_by_name(v.memoirs, mname);
    &&& (crate::text::tokens(q).len() == 0 ==> rs.len() == 0)
    &&& (crate::text::tokens(q).len() > 0 ==> crate::memoir_query::topk_by_confidence(
        rs,
        v.concepts.filter(
            |c: crate::memoir::ConceptView| c.memoir_id == mv.id
                && crate::memoir_query::concept_fts_match(c, crate::text::tokens(q)),
        ),
        limit,
    ))
    &&& text == (if rs.len() == 0 {
        "No concepts found."@
    } else {
        search_lines(rs)
    })
}

/// Full-text search for concepts within a memoir.
pub fn tool_memoir_search(store: &Store, args: &JsonValue) -> (r: ToolResult)
    requires
        store.wf(),
    ensures
        str_arg(*args, "memoir"@) is None ==> r.is_error && r.content@[0].text@
            == "missing required field: "@ + "memoir"@,
        str_arg(*args, "memoir"@) is Some && str_arg(*args, "query"@) is None ==> r.is_error
            && r.content@[0].text@ == "missing required field: "@ + "query"@,
        str_arg(*args, "memoir"@) matches Some(mn) ==> (str_arg(*args, "query"@) is Some
            ==> (r.is_error <==> !crate::memoir_store::has_memoir_name(store@.memoirs, mn))),
        str_arg(*args, "memoir"@) matches Some(mn) ==> (str_arg(*args, "query"@) matches Some(q)
            ==> (crate::memoir_store::has_memoir_name(store@.memoirs, mn) ==> exists|
            rs: Seq<crate::memoir::ConceptView>,
        | #[trigger] memoir_search_ok(
            store@,
            mn,
            q,
            limit_arg(*args, "limit"@, 10),
            rs,
            r.content@[0].text@,
        ))),
{
    let memoir_name = match get_str_arg(args, "memoir") {
        Some(n) => n.clone(),
        None => {
            return missing_field("memoir");
        },
    };
    let query = match get_str_arg(args, "query") {
        Some(q) => q.clone(),
        None => {
            return missing_field("query");
        },
    };
    let limit = clamp_limit(get_i64_arg(args, "limit", 10));
    let memoir = match store.get_memoir_by_name(memoir_name.as_str()) {
        Ok(Some(m)) => m,
        Ok(None) => {
            let mut msg = String::new();
            msg.append("memoir not found: ");
            msg.append(memoir_name.as_str());
            return ToolResult::error(msg);
        },
        Err(_) => {
            return ToolResult::error("memoir lookup failed".to_owned());
        },
    };
    let results = match store.search_concepts_fts(memoir.id.as_str(), query.as_str(), limit) {
        Ok(c) => c,
        Err(_) => {
            return ToolResult::error("search failed".to_owned());
        },
    };
    let ghost rs = results.deep_view();
    if results.len() == 0 {
        let r = ToolResult::text("No concepts found.".to_owned());
        proof {
            assert(rs =~= Seq::<crate::memoir::ConceptView>::empty());
            assert(memoir_search_ok(
                store@,
                str_arg(*args, "memoir"@)->0,
                str_arg(*args, "query"@)->0,
                limit_arg(*args, "limit"@, 10),
                rs,
                r.content@[0].text@,
            ));
        }
        return r;
    }
    let mut out = String::new();
    let mut i: usize = 0;
    proof {
        assert(rs.take(0) =~= Seq::<crate::memoir::ConceptView>::empty());
        assert(out@ =~= search_lines(rs.take(0)));
    }
    while i < results.len()
        invariant
            i <= rs.len(),
            results.deep_view() == rs,
            out@ == search_lines(rs.take(i as int)),
        decreases rs.len() - i,
    {
        proof {
            let t1 = rs.take(i + 1);
            assert(t1.drop_last() =~= rs.take(i as int));
            assert(t1.last() == rs[i as int]);
        }
        out.append("--- ");
        out.append(results[i].name.as_str());
        out.append(" [r");
        let rev = u64_to_string(results[i].revision as u64);
        out.append(rev.as_str());
        out.append(" c");
        let conf = fmt_confidence(results[i].confidence);
        out.append(conf.as_str());
        out.append("] ---\n  ");
        out.append(results[i].definition.as_str());
        out.append("\n\n");
        proof {
            assert(out@ =~= search_lines(rs.take(i + 1)));
        }
        i = i + 1;
    }
    proof {
        assert(rs.take(rs.len() as int) =~= rs);
    }
    let r = ToolResult::text(out);
    proof {
        assert(memoir@ == crate::memoir_store::memoir_by_name(store@.memoirs, memoir_name@));
        assert(memoir_search_ok(
            store@,
            str_arg(*args, "memoir"@)->0,
            str_arg(*args, "query"@)->0,
            limit_arg(*args, "limit"@, 10),
            rs,
            r.content@[0].text@,
        ));
    }
    r
}

/// A link of this (source, target, relation) shape is already present.
pub open spec fn triple_present(
    links: Seq<crate::memoir::ConceptLinkView>,
    src: Seq<char>,
    tgt: Seq<char>,
    rel: Relation,
) -> bool {
    exists|i: int|
        0 <= i < links.len() && (#[trigger] links[i]).source_id == src && links[i].target_id
            == tgt && links[i].relation == rel
}

/// Everything that makes a link request fail for a stated reason: an
/// unknown relation name, a missing memoir or endpoint, a self-link, or a
/// duplicate triple.
pub open spec fn link_args_fault(
    v: crate::store::StoreView,
    mn: Seq<char>,
    fr: Seq<char>,
    tn: Seq<char>,
    relv: Seq<char>,
) -> bool {
    let mv = crate::memoir_store::memoir_by_name(v.memoirs, mn);
    let fc = crate::memoir_store::concept_by_name(v.concepts, mv.id, fr);
    let tc = crate::memoir_store::concept_by_name(v.concepts, mv.id, tn);
    ||| Relation::parse_spec(relv) is None
    ||| !crate::memoir_store::has_memoir_name(v.memoirs, mn)
    ||| !crate::memoir_store::has_concept_name(v.concepts, mv.id, fr)
    ||| !crate::memoir_store::has_concept_name(v.concepts, mv.id, tn)
    ||| fc.id == tc.id
    ||| triple_present(v.links, fc.id, tc.id, Relation::parse_spec(relv)->0)
}

/// Link two named concepts of one memoir with a typed relation.
pub fn tool_memoir_link(store: &mut Store, args: &JsonValue) -> (r: ToolResult)
    requires
        old(store).wf(),
    ensures
        final(store).wf(),
        final(store)@.mems == old(store)@.mems,
        final(store)@.memoirs == old(store)@.memoirs,
        final(store)@.concepts == old(store)@.concepts,
        str_arg(*args, "memoir"@) is None ==> r.is_error && final(store)@ == old(store)@
            && r.content@[0].text@ == "missing required field: "@ + "memoir"@,
        str_arg(*args, "memoir"@) is Some && str_arg(*args, "from"@) is None ==> r.is_error
            && final(store)@ == old(store)@ && r.content@[0].text@
            == "missing required field: "@ + "from"@,
        str_arg(*args, "memoir"@) is Some && str_arg(*args, "from"@) is Some && str_arg(
            *args,
            "to"@,
        ) is None ==> r.is_error && final(store)@ == old(store)@ && r.content@[0].text@
            == "missing required field: "@ + "to"@,
        str_arg(*args, "memoir"@) is Some && str_arg(*args, "from"@) is Some && str_arg(
            *args,
            "to"@,
        ) is Some && str_arg(*args, "relation"@) is None ==> r.is_error && final(store)@ == old(
            store,
        )@ && r.content@[0].text@ == "missing required field: "@ + "relation"@,
        str_arg(*args, "memoir"@) matches Some(mn) ==> (str_arg(*args, "from"@) matches Some(fr)
            ==> (str_arg(*args, "to"@) matches Some(tn) ==> (str_arg(
            *args,
            "relation"@,
        ) matches Some(relv) ==> {
            &&& (Relation::parse_spec(relv) is None ==> r.is_error && r.content@[0].text@
                == "invalid relation: "@ + relv)
            &&& (link_args_fault(old(store)@, mn, fr, tn, relv) ==> r.is_error)
            &&& (r.is_error && !link_args_fault(old(store)@, mn, fr, tn, relv) ==> exists|
                idc: Seq<char>,
            |
                idc.len() == 26 && #[trigger] crate::memoir_store::has_link(
                    old(store)@.links,
                    idc,
                ))
            &&& (!r.is_error ==> {
                let mv = crate::memoir_store::memoir_by_name(old(store)@.memoirs, mn);
                let fc = crate::memoir_store::concept_by_name(old(store)@.concepts, mv.id, fr);
                let tc = crate::memoir_store::concept_by_name(old(store)@.concepts, mv.id, tn);
                let l = final(store)@.links.last();
                &&& !link_args_fault(old(store)@, mn, fr, tn, relv)
                &&& l.source_id == fc.id
                &&& l.target_id == tc.id
                &&& l.relation == Relation::parse_spec(relv)->0
                &&& r.content@[0].text@ == "Linked: "@ + fr + " --"@
                    + Relation::parse_spec(relv)->0.name_spec() + "--> "@ + tn + " ("@ + l.id
                    + ")"@
            })
        }))),
        !r.is_error ==> {
            let l = final(store)@.links.last();
            &&& final(store)@.links == old(store)@.links.push(l)
            &&& l.source_id != l.target_id
            &&& crate::memoir_store::has_concept(old(store)@.concepts, l.source_id)
            &&& crate::memoir_store::has_concept(old(store)@.concepts, l.target_id)
        },
        r.is_error ==> final(store)@ == old(store)@,
{
    let memoir_name = match get_str_arg(args, "memoir") {
        Some(n) => n.clone(),
        None => {
            return missing_field("memoir");
        },
    };
    let from_name = match get_str_arg(args, "from") {
        Some(n) => n.clone(),
        None => {
            return missing_field("from");
        },
    };
    let to_name = match get_str_arg(args, "to") {
        Some(n) => n.clone(),
        None => {
            return missing_field("to");
        },
    };
    let relation_str = match get_str_arg(args, "relation") {
        Some(n) => n.clone(),
        None => {
            return missing_field("relation");
        },
    };
    let relation = match Relation::parse(relation_str.as_str()) {
        Some(rel) => rel,
        None => {
            let mut msg = String::new();
            msg.append("invalid relation: ");
            msg.append(relation_str.as_str());
            return ToolResult::error(msg);
        },
    };
    let memoir = match store.get_memoir_by_name(memoir_name.as_str()) {
        Ok(Some(m)) => m,
        Ok(None) => {
            let mut msg = String::new();
            msg.append("memoir not found: ");
            msg.append(memoir_name.as_str());
            return ToolResult::error(msg);
        },
        Err(_) => {
            return ToolResult::error("memoir lookup failed".to_owned());
        },
    };
    let from = match store.get_concept_by_name(memoir.id.as_str(), from_name.as_str()) {
        Ok(Some(c)) => c,
        Ok(None) => {
            let mut msg = String::new();
            msg.append("concept not found: ");
            msg.append(from_name.as_str());
            return ToolResult::error(msg);
        },
        Err(_) => {
            return ToolResult::error("concept lookup failed".to_owned());
        },
    };
    let to = match store.get_concept_by_name(memoir.id.as_str(), to_name.as_str()) {
        Ok(Some(c)) => c,
        Ok(None) => {
            let mut msg = String::new();
            msg.append("concept not found: ");
            msg.append(to_name.as_str());
            return ToolResult::error(msg);
        },
        Err(_) => {
            return ToolResult::error("concept lookup failed".to_owned());
        },
    };
    let ghost pre = store@;
    let link = ConceptLink::new(from.id, to.id, relation);
    let ghost lv = link@;
    match store.add_link(link) {
        Ok(id) => {
            let mut msg = String::new();
            msg.append("Linked: ");
            msg.append(from_name.as_str());
            msg.append(" --");
            msg.append(relation.as_str());
            msg.append("--> ");
            msg.append(to_name.as_str());
            msg.append(" (");
            msg.append(id.as_str());
            msg.append(")");
            let r = ToolResult::text(msg);
            proof {
                assert(store@.links.last() == lv);
                assert(!triple_present(pre.links, from@.id, to@.id, relation)) by {
                    if triple_present(pre.links, from@.id, to@.id, relation) {
                        let i = choose|i: int|
                            0 <= i < pre.links.len() && (#[trigger] pre.links[i]).source_id
                                == from@.id && pre.links[i].target_id == to@.id
                                && pre.links[i].relation == relation;
                        assert(crate::memoir_store::link_clash(pre.links[i], lv));
                        assert(crate::memoir_store::some_link_clash(pre.links, lv));
                    }
                }
                assert(r.content@[0].text@ =~= "Linked: "@ + from_name@ + " --"@
                    + relation.name_spec() + "--> "@ + to_name@ + " ("@ + lv.id + ")"@);
            }
            r
        },
        Err(e) => {
            proof {
                if !link_args_fault(pre, memoir_name@, from_name@, to_name@, relation_str@) {
                    assert(lv.source_id != lv.target_id);
                    assert(crate::memoir_store::some_link_clash(pre.links, lv));
                    let i = choose|i: int|
                        0 <= i < pre.links.len() && crate::memoir_store::link_clash(
                            #[trigger] pre.links[i],
                            lv,
                        );
                    if pre.links[i].id != lv.id {
                        assert(triple_present(pre.links, from@.id, to@.id, relation));
                        assert(false);
                    }
                    assert(pre.links[i].id == lv.id);
                    assert(lv.id.len() == 26);
                    assert(crate::memoir_store::has_link(pre.links, lv.id));
                }
            }
            let mut msg = String::new();
            msg.append("failed to link: ");
            let d = e.describe();
            msg.append(d.as_str());
            ToolResult::error(msg)
        },
    }
}

/// The name that the graph rendering shows for an identifier: the name
/// of the returned concept that carries it, or a placeholder.
pub open spec fn shown_name(csd: Seq<crate::memoir::ConceptView>, id: Seq<char>) -> Seq<char> {
    if crate::memoir_store::has_concept(csd, id) {
        crate::memoir_store::concept_at(csd, id).name
    } else {
        "?"@
    }
}

/// One rendered edge per traversed link, endpoint names resolved among
/// the returned concepts.
pub open spec fn graph_lines(
    csd: Seq<crate::memoir::ConceptView>,
    lsd: Seq<crate::memoir::ConceptLinkView>,
) -> Seq<char>
    decreases lsd.len(),
{
    if lsd.len() == 0 {
        Seq::empty()
    } else {
        graph_lines(csd, lsd.drop_last()) + "  "@ + shown_name(csd, lsd.last().source_id)
            + " --"@ + lsd.last().relation.name_spec() + "--> "@ + shown_name(
            csd,
            lsd.last().target_id,
        ) + "\n"@
    }
}

/// The header block of an inspection: the concept's own fields.
pub open spec fn inspect_head(cv: crate::memoir::ConceptView) -> Seq<char> {
    "Concept: "@ + cv.name + "\n  id: "@ + cv.id + "\n  definition: "@ + cv.definition
        + "\n  confidence: "@ + conf_text(cv.confidence) + "\n  revision: "@
        + crate::text::dec_nat(cv.revision as nat) + "\n"@
}

///`csd` and `lsd` form a breadth-first neighborhood of `root`, as
/// `get_neighborhood` pins it down: the seed first, distinct nodes all
/// within `depth` hops and complete up to it, and every traversed link
/// distinct with both ends among the nodes, complete one level short.
pub open spec fn neighborhood_of(
    v: crate::store::StoreView,
    root: Seq<char>,
    depth: nat,
    csd: Seq<crate::memoir::ConceptView>,
    lsd: Seq<crate::memoir::ConceptLinkView>,
) -> bool {
    &&& csd.len() >= 1
    &&& csd[0].id == root
    &&& crate::memoir_store::distinct_concept_ids(csd)
    &&& forall|i: int|
        0 <= i < csd.len() ==> crate::memoir_store::neighborhood_node_ok(
            v,
            root,
            depth,
            #[trigger] csd[i],
        )
    &&& forall|x: Seq<char>|
        #[trigger] crate::memoir_store::within_hops(v.links, root, depth, x)
            ==> crate::memoir_store::has_concept(csd, x)
    &&& forall|i: int|
        0 <= i < lsd.len() ==> crate::memoir_store::neighborhood_link_ok(
            v,
            csd,
            #[trigger] lsd[i],
        )
    &&& forall|i: int, j: int|
        #![trigger lsd[i], lsd[j]]
        0 <= i < j < lsd.len() ==> lsd[i].id != lsd[j].id
    &&& depth > 0 ==> forall|k: int|
        0 <= k < v.links.len() && (crate::memoir_store::within_hops(
            v.links,
            root,
            (depth - 1) as nat,
            (#[trigger] v.links[k]).source_id,
        ) || crate::memoir_store::within_hops(
            v.links,
            root,
            (depth - 1) as nat,
            v.links[k].target_id,
        )) ==> crate::memoir_store::has_link(lsd, v.links[k].id)
}

/// The whole inspection reply: the named concept's header, then either a
/// no-links note or the rendered neighborhood of the requested depth.
pub open spec fn inspect_ok(
    v: crate::store::StoreView,
    mname: Seq<char>,
    cname: Seq<char>,
    depth: nat,
    csd: Seq<crate::memoir::ConceptView>,
    lsd: Seq<crate::memoir::ConceptLinkView>,
    text: Seq<char>,
) -> bool {
    let mv = crate::memoir_store::memoir_by_name(v.memoirs, mname);
    let cv = crate::memoir_store::concept_by_name(v.concepts, mv.id, cname);
    &&& neighborhood_of(v, cv.id, depth, csd, lsd)
    &&& text == inspect_head(cv) + (if lsd.len() == 0 {
        "\n(no links)\n"@
    } else {
        "\nGraph (depth="@ + crate::text::dec_nat(depth) + "):\n"@ + graph_lines(csd, lsd)
    })
}

/// Inspect a concept and its breadth-first neighborhood.
pub fn tool_memoir_inspect(store: &Store, args: &JsonValue) -> (r: ToolResult)
    requires
        store.wf(),
    ensures
        str_arg(*args, "memoir"@) is None ==> r.is_error && r.content@[0].text@
            == "missing required field: "@ + "memoir"@,
        str_arg(*args, "memoir"@) is Some && str_arg(*args, "name"@) is None ==> r.is_error
            && r.content@[0].text@ == "missing required field: "@ + "name"@,
        str_arg(*args, "memoir"@) matches Some(mn) ==> (str_arg(*args, "name"@) matches Some(cn)
            ==> (r.is_error <==> !(crate::memoir_store::has_memoir_name(store@.memoirs, mn)
            && crate::memoir_store::has_concept_name(
            store@.concepts,
            crate::memoir_store::memoir_by_name(store@.memoirs, mn).id,
            cn,
        )))),
        str_arg(*args, "memoir"@) matches Some(mn) ==> (str_arg(*args, "name"@) matches Some(cn)
            ==> (!r.is_error ==> exists|
            csd: Seq<crate::memoir::ConceptView>,
            lsd: Seq<crate::memoir::ConceptLinkView>,
        | #[trigger] inspect_ok(
            store@,
            mn,
            cn,
            limit_arg(*args, "depth"@, 1) as nat,
            csd,
            lsd,
            r.content@[0].text@,
        ))),
{
    let memoir_name = match get_str_arg(args, "memoir") {
        Some(n) => n.clone(),
        None => {
            return missing_field("memoir");
        },
    };
    let name = match get_str_arg(args, "name") {
        Some(n) => n.clone(),
        None => {
            return missing_field("name");
        },
    };
    let depth = clamp_limit(get_i64_arg(args, "depth", 1));
    let memoir = match store.get_memoir_by_name(memoir_name.as_str()) {
        Ok(Some(m)) => m,
        Ok(None) => {
            let mut msg = String::new();
            msg.append("memoir not found: ");
            msg.append(memoir_name.as_str());
            return ToolResult::error(msg);
        },
        Err(_) => {
            return ToolResult::error("memoir lookup failed".to_owned());
        },
    };
    let concept = match store.get_concept_by_name(memoir.id.as_str(), name.as_str()) {
        Ok(Some(c)) => c,
        Ok(None) => {
            let mut msg = String::new();
            msg.append("concept not found: ");
            msg.append(name.as_str());
            return ToolResult::error(msg);
        },
        Err(_) => {
            return ToolResult::error("concept lookup failed".to_owned());
        },
    };
    let mut out = String::new();
    out.append("Concept: ");
    out.append(concept.name.as_str());
    out.append("\n  id: ");
    out.append(concept.id.as_str());
    out.append("\n  definition: ");
    out.append(concept.definition.as_str());
    out.append("\n  confidence: ");
    let conf = fmt_confidence(concept.confidence);
    out.append(conf.as_str());
    out.append("\n  revision: ");
    let rev = u64_to_string(concept.revision as u64);
    out.append(rev.as_str());
    out.append("\n");
    proof {
        assert(out@ =~= inspect_head(concept@));
    }
    let ghost head = out@;
    let (neighbors, links) = match store.get_neighborhood(concept.id.as_str(), depth) {
        Ok(nl) => nl,
        Err(_) => {
            proof {
                let k = choose|k: int|
                    0 <= k < store@.concepts.len() && (#[trigger] store@.concepts[k]).memoir_id
                        == memoir@.id && store@.concepts[k].name == name@;
                assert(store@.concepts[k].id == concept@.id);
                assert(crate::memoir_store::has_concept(store@.concepts, concept@.id));
                assert(false);
            }
            return ToolResult::error("graph traversal failed".to_owned());
        },
    };
    let ghost csd = neighbors.deep_view();
    let ghost lsd = links.deep_view();
    if links.len() == 0 {
        out.append("\n(no links)\n");
        proof {
            assert(lsd =~= Seq::<crate::memoir::ConceptLinkView>::empty());
            assert(out@ =~= head + "\n(no links)\n"@);
        }
    } else {
        out.append("\nGraph (depth=");
        let d = usize_to_string(depth);
        out.append(d.as_str());
        out.append("):\n");
        let ghost mid = head + "\nGraph (depth="@ + crate::text::dec_nat(depth as nat)
            + "):\n"@;
        proof {
            assert(out@ =~= mid);
            assert(lsd.take(0) =~= Seq::<crate::memoir::ConceptLinkView>::empty());
            assert(out@ =~= mid + graph_lines(csd, lsd.take(0)));
        }
        let mut i: usize = 0;
        while i < links.len()
            invariant
                i <= lsd.len(),
                links.deep_view() == lsd,
                neighbors.deep_view() == csd,
                crate::memoir_store::distinct_concept_ids(csd),
                out@ == mid + graph_lines(csd, lsd.take(i as int)),
            decreases lsd.len() - i,
        {
            proof {
                let t1 = lsd.take(i + 1);
                assert(t1.drop_last() =~= lsd.take(i as int));
                assert(t1.last() == lsd[i as int]);
            }
            let src = find_concept_name(&neighbors, links[i].source_id.as_str());
            let tgt = find_concept_name(&neighbors, links[i].target_id.as_str());
            out.append("  ");
            out.append(src.as_str());
            out.append(" --");
            out.append(links[i].relation.as_str());
            out.append("--> ");
            out.append(tgt.as_str());
            out.append("\n");
            proof {
                assert(out@ =~= mid + graph_lines(csd, lsd.take(i + 1)));
            }
            i = i + 1;
        }
        proof {
            assert(lsd.take(lsd.len() as int) =~= lsd);
        }
    }
    let r = ToolResult::text(out);
    proof {
        assert(memoir@ == crate::memoir_store::memoir_by_name(store@.memoirs, memoir_name@));
        assert(concept@ == crate::memoir_store::concept_by_name(
            store@.concepts,
            memoir@.id,
            name@,
        ));
        assert(depth as int == limit_arg(*args, "depth"@, 1));
        assert(r.content@[0].text@ =~= inspect_head(concept@) + (if lsd.len() == 0 {
            "\n(no links)\n"@
        } else {
            "\nGraph (depth="@ + crate::text::dec_nat(limit_arg(*args, "depth"@, 1) as nat)
                + "):\n"@ + graph_lines(csd, lsd)
        }));
        assert(inspect_ok(
            store@,
            str_arg(*args, "memoir"@)->0,
            str_arg(*args, "name"@)->0,
            limit_arg(*args, "depth"@, 1) as nat,
            csd,
            lsd,
            r.content@[0].text@,
        ));
    }
    r
}

/// The name of the concept with this identifier, or a placeholder.
fn find_concept_name(concepts: &Vec<Concept>, id: &str) -> (r: String)
    requires
        crate::memoir_store::distinct_concept_ids(concepts.deep_view()),
    ensures
        r@ == shown_name(concepts.deep_view(), id@),
{
    let ghost csd = concepts.deep_view();
    let mut i: usize = 0;
    while i < concepts.len()
        invariant
            i <= csd.len(),
            concepts.deep_view() == csd,
            crate::memoir_store::distinct_concept_ids(csd),
            forall|k: int| 0 <= k < i ==> (#[trigger] csd[k]).id != id@,
        decreases csd.len() - i,
    {
        if str_eq(concepts[i].id.as_str(), id) {
            let r = concepts[i].name.clone();
            proof {
                assert(csd[i as int].id == id@);
                assert(crate::memoir_store::has_concept(csd, id@));
                let j = crate::memoir_store::concept_idx(csd, id@);
                assert(csd[j].id == id@);
                assert(j == i as int);
            }
            return r;
        }
        i = i + 1;
    }
    proof {
        if crate::memoir_store::has_concept(csd, id@) {
            let j = choose|j: int| 0 <= j < csd.len() && csd[j].id == id@;
            assert(csd[j].id != id@);
        }
    }
    "?".to_owned()
}

/// What `icm_store` guarantees of one call.
pub open spec fn store_call_ok(
    pre: crate::store::StoreView,
    post: crate::store::StoreView,
    args: JsonValue,
    tr: ToolResult,
) -> bool {
    &&& post.memoirs == pre.memoirs
    &&& post.concepts == pre.concepts
    &&& post.links == pre.links
    &&& str_arg(args, "topic"@) is None ==> tr.is_error && post == pre && tr.content@[0].text@
        == "missing required field: "@ + "topic"@
    &&& str_arg(args, "topic"@) is Some && str_arg(args, "content"@) is None ==> tr.is_error
        && post == pre && tr.content@[0].text@ == "missing required field: "@ + "content"@
    &&& str_arg(args, "topic"@) matches Some(t) ==> (str_arg(args, "content"@) matches Some(c)
        ==> (!tr.is_error ==> {
        let m = post.mems.last();
        &&& post.mems.len() == pre.mems.len() + 1
        &&& post.mems == pre.mems.push(m)
        &&& m.topic == t
        &&& m.summary == c
        &&& m.id.len() == 26
        &&& m.weight == crate::memory::WEIGHT_SCALE as int
        &&& tr.content@[0].text@ == "Stored memory: "@ + m.id
    }))
    &&& str_arg(args, "topic"@) is Some && str_arg(args, "content"@) is Some && tr.is_error
        ==> exists|idc: Seq<char>|
        idc.len() == 26 && #[trigger] crate::store::has_mem(pre.mems, idc)
    &&& tr.is_error ==> post == pre
}

/// What `icm_recall` guarantees of one call.
pub open spec fn recall_call_ok(
    pre: crate::store::StoreView,
    post: crate::store::StoreView,
    args: JsonValue,
    tr: ToolResult,
) -> bool {
    &&& post.memoirs == pre.memoirs
    &&& post.concepts == pre.concepts
    &&& post.links == pre.links
    &&& post.mems.len() == pre.mems.len()
    &&& str_arg(args, "query"@) is None ==> tr.is_error && post == pre && tr.content@[0].text@
        == "missing required field: "@ + "query"@
    &&& str_arg(args, "query"@) is Some ==> !tr.is_error
    &&& str_arg(args, "query"@) matches Some(q) ==> exists|rs: Seq<MemoryView>| #[trigger]
        recall_ok(pre, post, q, limit_arg(args, "limit"@, 5), str_arg(args, "topic"@), rs, tr.content@[0].text@)
}

/// What `icm_forget` guarantees of one call.
pub open spec fn forget_call_ok(
    pre: crate::store::StoreView,
    post: crate::store::StoreView,
    args: JsonValue,
    tr: ToolResult,
) -> bool {
    &&& post.memoirs == pre.memoirs
    &&& post.concepts == pre.concepts
    &&& post.links == pre.links
    &&& str_arg(args, "id"@) is None ==> tr.is_error && post == pre && tr.content@[0].text@
        == "missing required field: "@ + "id"@
    &&& str_arg(args, "id"@) matches Some(id) ==> {
        &&& !tr.is_error <==> crate::store::has_mem(pre.mems, id)
        &&& !tr.is_error ==> post.mems == pre.mems.remove(crate::store::mem_idx(pre.mems, id))
            && tr.content@[0].text@ == "Deleted memory: "@ + id
        &&& tr.is_error ==> post == pre
    }
}

/// What `icm_consolidate` guarantees of one call.
pub open spec fn consolidate_call_ok(
    pre: crate::store::StoreView,
    post: crate::store::StoreView,
    args: JsonValue,
    tr: ToolResult,
) -> bool {
    &&& post.memoirs == pre.memoirs
    &&& post.concepts == pre.concepts
    &&& post.links == pre.links
    &&& str_arg(args, "topic"@) is None ==> tr.is_error && post == pre && tr.content@[0].text@
        == "missing required field: "@ + "topic"@
    &&& str_arg(args, "topic"@) is Some && str_arg(args, "summary"@) is None ==> tr.is_error
        && post == pre && tr.content@[0].text@ == "missing required field: "@ + "summary"@
    &&& str_arg(args, "topic"@) matches Some(t) ==> (str_arg(args, "summary"@) matches Some(sm)
        ==> (!tr.is_error ==> {
        let m = post.mems.last();
        &&& post.mems == crate::topics::other_topics(pre.mems, t).push(m)
        &&& m.topic == t
        &&& m.summary == sm
        &&& m.importance == Importance::High
        &&& tr.content@[0].text@ == "Consolidated topic: "@ + t
    }))
    &&& str_arg(args, "topic"@) matches Some(t) ==> (str_arg(args, "summary"@) is Some
        && tr.is_error ==> exists|idc: Seq<char>|
        idc.len() == 26 && #[trigger] crate::store::has_mem(
            crate::topics::other_topics(pre.mems, t),
            idc,
        ))
    &&& tr.is_error ==> post == pre
}

/// What `icm_list_topics` guarantees of one call.
pub open spec fn list_topics_call_ok(
    pre: crate::store::StoreView,
    post: crate::store::StoreView,
    tr: ToolResult,
) -> bool {
    &&& post == pre
    &&& !tr.is_error
    &&& tr.content@.len() == 1
    &&& exists|list: Seq<(Seq<char>, int)>|
        #[trigger] topics_listing(pre.mems, list) && tr.content@[0].text@ == topics_report(list)
}

/// What `icm_stats` guarantees of one call.
pub open spec fn stats_call_ok(
    pre: crate::store::StoreView,
    post: crate::store::StoreView,
    tr: ToolResult,
) -> bool {
    &&& post == pre
    &&& !tr.is_error
    &&& tr.content@.len() == 1
    &&& tr.content@[0].text@ == stats_report(pre.mems)
}

/// What `icm_memoir_create` guarantees of one call.
pub open spec fn memoir_create_call_ok(
    pre: crate::store::StoreView,
    post: crate::store::StoreView,
    args: JsonValue,
    tr: ToolResult,
) -> bool {
    &&& post.mems == pre.mems
    &&& post.concepts == pre.concepts
    &&& post.links == pre.links
    &&& str_arg(args, "name"@) is None ==> tr.is_error && post == pre && tr.content@[0].text@
        == "missing required field: "@ + "name"@
    &&& str_arg(args, "name"@) matches Some(n) ==> (!tr.is_error ==> {
        let m = post.memoirs.last();
        &&& post.memoirs == pre.memoirs.push(m)
        &&& m.name == n
    })
    &&& str_arg(args, "name"@) matches Some(n) ==> {
        &&& (crate::memoir_store::has_memoir_name(pre.memoirs, n) ==> tr.is_error)
        &&& (tr.is_error && !crate::memoir_store::has_memoir_name(pre.memoirs, n) ==> exists|
            idc: Seq<char>,
        |
            idc.len() == 26 && #[trigger] crate::memoir_store::has_memoir(pre.memoirs, idc))
    }
    &&& tr.is_error ==> post == pre
}

/// What `icm_memoir_list` guarantees of one call.
pub open spec fn memoir_list_call_ok(
    pre: crate::store::StoreView,
    post: crate::store::StoreView,
    tr: ToolResult,
) -> bool {
    &&& post == pre
    &&& !tr.is_error
    &&& tr.content@.len() == 1
    &&& exists|ml: Seq<crate::memoir::MemoirView>| #[trigger]
        memoir_list_ok(pre.memoirs, pre.concepts, ml, tr.content@[0].text@)
}

/// What `icm_memoir_show` guarantees of one call.
pub open spec fn memoir_show_call_ok(
    pre: crate::store::StoreView,
    post: crate::store::StoreView,
    args: JsonValue,
    tr: ToolResult,
) -> bool {
    &&& post == pre
    &&& str_arg(args, "name"@) is None ==> tr.is_error && tr.content@[0].text@
        == "missing required field: "@ + "name"@
    &&& str_arg(args, "name"@) matches Some(n) ==> (tr.is_error
        <==> !crate::memoir_store::has_memoir_name(pre.memoirs, n))
    &&& str_arg(args, "name"@) matches Some(n)
        ==> (crate::memoir_store::has_memoir_name(pre.memoirs, n) ==> exists|
        labels: Seq<(Seq<char>, int)>,
        csl: Seq<crate::memoir::ConceptView>,
    | #[trigger] memoir_show_ok(pre, n, labels, csl, tr.content@[0].text@))
}

/// What `icm_memoir_add_concept` guarantees of one call.
pub open spec fn add_concept_call_ok(
    pre: crate::store::StoreView,
    post: crate::store::StoreView,
    args: JsonValue,
    tr: ToolResult,
) -> bool {
    &&& post.mems == pre.mems
    &&& post.memoirs == pre.memoirs
    &&& post.links == pre.links
    &&& str_arg(args, "memoir"@) is None ==> tr.is_error && post == pre && tr.content@[0].text@
        == "missing required field: "@ + "memoir"@
    &&& str_arg(args, "memoir"@) is Some && str_arg(args, "name"@) is None ==> tr.is_error
        && post == pre && tr.content@[0].text@ == "missing required field: "@ + "name"@
    &&& str_arg(args, "memoir"@) is Some && str_arg(args, "name"@) is Some && str_arg(
        args,
        "definition"@,
    ) is None ==> tr.is_error && post == pre && tr.content@[0].text@
        == "missing required field: "@ + "definition"@
    &&& str_arg(args, "name"@) matches Some(n) ==> (str_arg(args, "definition"@) matches Some(d)
        ==> (!tr.is_error ==> {
        let c = post.concepts.last();
        &&& post.concepts == pre.concepts.push(c)
        &&& c.name == n
        &&& c.definition == d
        &&& crate::memoir_store::has_memoir(pre.memoirs, c.memoir_id)
    }))
    &&& str_arg(args, "memoir"@) matches Some(mn) ==> (str_arg(args, "name"@) matches Some(n)
        ==> (str_arg(args, "definition"@) is Some ==> {
        let mv = crate::memoir_store::memoir_by_name(pre.memoirs, mn);
        &&& (!crate::memoir_store::has_memoir_name(pre.memoirs, mn) ==> tr.is_error)
        &&& (crate::memoir_store::has_memoir_name(pre.memoirs, mn)
            && crate::memoir_store::has_concept_name(pre.concepts, mv.id, n) ==> tr.is_error)
        &&& (tr.is_error && crate::memoir_store::has_memoir_name(pre.memoirs, mn)
            && !crate::memoir_store::has_concept_name(pre.concepts, mv.id, n) ==> exists|
            idc: Seq<char>,
        |
            idc.len() == 26 && #[trigger] crate::memoir_store::has_concept(pre.concepts, idc))
    }))
    &&& tr.is_error ==> post == pre
}

/// What `icm_memoir_refine` guarantees of one call.
pub open spec fn refine_call_ok(
    pre: crate::store::StoreView,
    post: crate::store::StoreView,
    args: JsonValue,
    tr: ToolResult,
) -> bool {
    &&& post.mems == pre.mems
    &&& post.memoirs == pre.memoirs
    &&& post.links == pre.links
    &&& post.concepts.len() == pre.concepts.len()
    &&& str_arg(args, "memoir"@) is None ==> tr.is_error && post == pre && tr.content@[0].text@
        == "missing required field: "@ + "memoir"@
    &&& str_arg(args, "memoir"@) is Some && str_arg(args, "name"@) is None ==> tr.is_error
        && post == pre && tr.content@[0].text@ == "missing required field: "@ + "name"@
    &&& str_arg(args, "memoir"@) is Some && str_arg(args, "name"@) is Some && str_arg(
        args,
        "definition"@,
    ) is None ==> tr.is_error && post == pre && tr.content@[0].text@
        == "missing required field: "@ + "definition"@
    &&& tr.is_error ==> post == pre
    &&& str_arg(args, "memoir"@) matches Some(mn) ==> (str_arg(args, "name"@) matches Some(cn)
        ==> (str_arg(args, "definition"@) is Some ==> (!tr.is_error
        <==> crate::memoir_store::has_memoir_name(pre.memoirs, mn)
        && crate::memoir_store::has_concept_name(
        pre.concepts,
        crate::memoir_store::memoir_by_name(pre.memoirs, mn).id,
        cn,
    ) && crate::memoir_store::concept_by_name(
        pre.concepts,
        crate::memoir_store::memoir_by_name(pre.memoirs, mn).id,
        cn,
    ).revision < u32::MAX as int)))
    &&& str_arg(args, "memoir"@) matches Some(mn) ==> (str_arg(args, "name"@) matches Some(cn)
        ==> (str_arg(args, "definition"@) matches Some(d) ==> (!tr.is_error ==> refine_tool_ok(
        pre,
        post,
        mn,
        cn,
        d,
        tr.content@[0].text@,
    ))))
}

/// What `icm_memoir_search` guarantees of one call.
pub open spec fn memoir_search_call_ok(
    pre: crate::store::StoreView,
    post: crate::store::StoreView,
    args: JsonValue,
    tr: ToolResult,
) -> bool {
    &&& post == pre
    &&& str_arg(args, "memoir"@) is None ==> tr.is_error && tr.content@[0].text@
        == "missing required field: "@ + "memoir"@
    &&& str_arg(args, "memoir"@) is Some && str_arg(args, "query"@) is None ==> tr.is_error
        && tr.content@[0].text@ == "missing required field: "@ + "query"@
    &&& str_arg(args, "memoir"@) matches Some(mn) ==> (str_arg(args, "query"@) is Some
        ==> (tr.is_error <==> !crate::memoir_store::has_memoir_name(pre.memoirs, mn)))
    &&& str_arg(args, "memoir"@) matches Some(mn) ==> (str_arg(args, "query"@) matches Some(q)
        ==> (crate::memoir_store::has_memoir_name(pre.memoirs, mn) ==> exists|
        rs: Seq<crate::memoir::ConceptView>,
    | #[trigger] memoir_search_ok(pre, mn, q, limit_arg(args, "limit"@, 10), rs, tr.content@[0].text@)))
}

/// What `icm_memoir_link` guarantees of one call.
pub open spec fn link_call_ok(
    pre: crate::store::StoreView,
    post: crate::store::StoreView,
    args: JsonValue,
    tr: ToolResult,
) -> bool {
    &&& post.mems == pre.mems
    &&& post.memoirs == pre.memoirs
    &&& post.concepts == pre.concepts
    &&& str_arg(args, "memoir"@) is None ==> tr.is_error && post == pre && tr.content@[0].text@
        == "missing required field: "@ + "memoir"@
    &&& str_arg(args, "memoir"@) is Some && str_arg(args, "from"@) is None ==> tr.is_error
        && post == pre && tr.content@[0].text@ == "missing required field: "@ + "from"@
    &&& str_arg(args, "memoir"@) is Some && str_arg(args, "from"@) is Some && str_arg(
        args,
        "to"@,
    ) is None ==> tr.is_error && post == pre && tr.content@[0].text@
        == "missing required field: "@ + "to"@
    &&& str_arg(args, "memoir"@) is Some && str_arg(args, "from"@) is Some && str_arg(
        args,
        "to"@,
    ) is Some && str_arg(args, "relation"@) is None ==> tr.is_error && post == pre
        && tr.content@[0].text@ == "missing required field: "@ + "relation"@
    &&& str_arg(args, "memoir"@) matches Some(mn) ==> (str_arg(args, "from"@) matches Some(fr)
        ==> (str_arg(args, "to"@) matches Some(tn) ==> (str_arg(
        args,
        "relation"@,
    ) matches Some(relv) ==> {
        &&& (Relation::parse_spec(relv) is None ==> tr.is_error && tr.content@[0].text@
            == "invalid relation: "@ + relv)
        &&& (link_args_fault(pre, mn, fr, tn, relv) ==> tr.is_error)
        &&& (tr.is_error && !link_args_fault(pre, mn, fr, tn, relv) ==> exists|idc: Seq<char>|
            idc.len() == 26 && #[trigger] crate::memoir_store::has_link(pre.links, idc))
        &&& (!tr.is_error ==> {
            let mv = crate::memoir_store::memoir_by_name(pre.memoirs, mn);
            let fc = crate::memoir_store::concept_by_name(pre.concepts, mv.id, fr);
            let tc = crate::memoir_store::concept_by_name(pre.concepts, mv.id, tn);
            let l = post.links.last();
            &&& !link_args_fault(pre, mn, fr, tn, relv)
            &&& l.source_id == fc.id
            &&& l.target_id == tc.id
            &&& l.relation == Relation::parse_spec(relv)->0
            &&& tr.content@[0].text@ == "Linked: "@ + fr + " --"@
                + Relation::parse_spec(relv)->0.name_spec() + "--> "@ + tn + " ("@ + l.id + ")"@
        })
    })))
    &&& !tr.is_error ==> {
        let l = post.links.last();
        &&& post.links == pre.links.push(l)
        &&& l.source_id != l.target_id
        &&& crate::memoir_store::has_concept(pre.concepts, l.source_id)
        &&& crate::memoir_store::has_concept(pre.concepts, l.target_id)
    }
    &&& tr.is_error ==> post == pre
}

/// What `icm_memoir_inspect` guarantees of one call.
pub open spec fn inspect_call_ok(
    pre: crate::store::StoreView,
    post: crate::store::StoreView,
    args: JsonValue,
    tr: ToolResult,
) -> bool {
    &&& post == pre
    &&& str_arg(args, "memoir"@) is None ==> tr.is_error && tr.content@[0].text@
        == "missing required field: "@ + "memoir"@
    &&& str_arg(args, "memoir"@) is Some && str_arg(args, "name"@) is None ==> tr.is_error
        && tr.content@[0].text@ == "missing required field: "@ + "name"@
    &&& str_arg(args, "memoir"@) matches Some(mn) ==> (str_arg(args, "name"@) matches Some(cn)
        ==> (tr.is_error <==> !(crate::memoir_store::has_memoir_name(pre.memoirs, mn)
        && crate::memoir_store::has_concept_name(
        pre.concepts,
        crate::memoir_store::memoir_by_name(pre.memoirs, mn).id,
        cn,
    ))))
    &&& str_arg(args, "memoir"@) matches Some(mn) ==> (str_arg(args, "name"@) matches Some(cn)
        ==> (!tr.is_error ==> exists|
        csd: Seq<crate::memoir::ConceptView>,
        lsd: Seq<crate::memoir::ConceptLinkView>,
    | #[trigger] inspect_ok(pre, mn, cn, limit_arg(args, "depth"@, 1) as nat, csd, lsd, tr.content@[0].text@)))
}

/// What one dispatched tool call guarantees, by tool name; an unknown
/// name is an error envelope over an untouched store.
pub open spec fn tool_call_ok(
    pre: crate::store::StoreView,
    post: crate::store::StoreView,
    name: Seq<char>,
    args: JsonValue,
    tr: ToolResult,
) -> bool {
    if name == "icm_store"@ {
        store_call_ok(pre, post, args, tr)
    } else if name == "icm_recall"@ {
        recall_call_ok(pre, post, args, tr)
    } else if name == "icm_forget"@ {
        forget_call_ok(pre, post, args, tr)
    } else if name == "icm_consolidate"@ {
        consolidate_call_ok(pre, post, args, tr)
    } else if name == "icm_list_topics"@ {
        list_topics_call_ok(pre, post, tr)
    } else if name == "icm_stats"@ {
        stats_call_ok(pre, post, tr)
    } else if name == "icm_memoir_create"@ {
        memoir_create_call_ok(pre, post, args, tr)
    } else if name == "icm_memoir_list"@ {
        memoir_list_call_ok(pre, post, tr)
    } else if name == "icm_memoir_show"@ {
        memoir_show_call_ok(pre, post, args, tr)
    } else if name == "icm_memoir_add_concept"@ {
        add_concept_call_ok(pre, post, args, tr)
    } else if name == "icm_memoir_refine"@ {
        refine_call_ok(pre, post, args, tr)
    } else if name == "icm_memoir_search"@ {
        memoir_search_call_ok(pre, post, args, tr)
    } else if name == "icm_memoir_link"@ {
        link_call_ok(pre, post, args, tr)
    } else if name == "icm_memoir_inspect"@ {
        inspect_call_ok(pre, post, args, tr)
    } else {
        tr.is_error && post == pre && tr.content@[0].text@ == "unknown tool: "@ + name
    }
}

/// The names the dispatcher knows.
pub open spec fn known_tool(name: Seq<char>) -> bool {
    ||| name == "icm_store"@
    ||| name == "icm_recall"@
    ||| name == "icm_forget"@
    ||| name == "icm_consolidate"@
    ||| name == "icm_list_topics"@
    ||| name == "icm_stats"@
    ||| name == "icm_memoir_create"@
    ||| name == "icm_memoir_list"@
    ||| name == "icm_memoir_show"@
    ||| name == "icm_memoir_add_concept"@
    ||| name == "icm_memoir_refine"@
    ||| name == "icm_memoir_search"@
    ||| name == "icm_memoir_link"@
    ||| name == "icm_memoir_inspect"@
}

/// Dispatch one tool invocation to its handler; unknown names produce an
/// error envelope and leave the state untouched.
pub fn call_tool(store: &mut Store, name: &str, args: &JsonValue) -> (r: ToolResult)
    requires
        old(store).wf(),
    ensures
        final(store).wf(),
        !known_tool(name@) ==> r.is_error && final(store)@ == old(store)@ && r.content@[0].text@
            == "unknown tool: "@ + name@,
        tool_call_ok(old(store)@, final(store)@, name@, *args, r),
{
    if str_eq(name, "icm_store") {
        tool_store(store, args)
    } else if str_eq(name, "icm_recall") {
        tool_recall(store, args)
    } else if str_eq(name, "icm_forget") {
        tool_forget(store, args)
    } else if str_eq(name, "icm_consolidate") {
        tool_consolidate(store, args)
    } else if str_eq(name, "icm_list_topics") {
        tool_list_topics(store)
    } else if str_eq(name, "icm_stats") {
        tool_stats(store)
    } else if str_eq(name, "icm_memoir_create") {
        tool_memoir_create(store, args)
    } else if str_eq(name, "icm_memoir_list") {
        tool_memoir_list(store)
    } else if str_eq(name, "icm_memoir_show") {
        tool_memoir_show(store, args)
    } else if str_eq(name, "icm_memoir_add_concept") {
        tool_memoir_add_concept(store, args)
    } else if str_eq(name, "icm_memoir_refine") {
        tool_memoir_refine(store, args)
    } else if str_eq(name, "icm_memoir_search") {
        tool_memoir_search(store, args)
    } else if str_eq(name, "icm_memoir_link") {
        tool_memoir_link(store, args)
    } else if str_eq(name, "icm_memoir_inspect") {
        tool_memoir_inspect(store, args)
    } else {
        let mut msg = String::new();
        msg.append("unknown tool: ");
        msg.append(name);
        ToolResult::error(msg)
    }
}

/// The tool object at one position carries this name.
pub open spec fn tool_named(v: JsonValue, name: Seq<char>) -> bool {
    obj_lookup(v, "name"@) matches Some(s) && s is Str && s->Str_0@ == name
}

/// One tool description object.
fn make_tool(name: &str, description: &str, schema: JsonValue) -> (r: JsonValue)
    ensures
        tool_named(r, name@),
{
    let mut fields: Vec<(String, JsonValue)> = Vec::new();
    fields.push(("name".to_owned(), JsonValue::Str(name.to_owned())));
    fields.push(("description".to_owned(), JsonValue::Str(description.to_owned())));
    fields.push(("inputSchema".to_owned(), schema));
    JsonValue::Obj(fields)
}

/// A string property with a description.
fn p_str(description: &str) -> JsonValue {
    let mut fields: Vec<(String, JsonValue)> = Vec::new();
    fields.push(("type".to_owned(), JsonValue::Str("string".to_owned())));
    fields.push(("description".to_owned(), JsonValue::Str(description.to_owned())));
    JsonValue::Obj(fields)
}

/// An integer property with a default and a description.
fn p_int(default: i64, description: &str) -> JsonValue {
    let mut fields: Vec<(String, JsonValue)> = Vec::new();
    fields.push(("type".to_owned(), JsonValue::Str("integer".to_owned())));
    fields.push(("default".to_owned(), JsonValue::Int(default)));
    fields.push(("description".to_owned(), JsonValue::Str(description.to_owned())));
    JsonValue::Obj(fields)
}

/// A string-array property with a description.
fn p_arr_str(description: &str) -> JsonValue {
    let mut item_fields: Vec<(String, JsonValue)> = Vec::new();
    item_fields.push(("type".to_owned(), JsonValue::Str("string".to_owned())));
    let mut fields: Vec<(String, JsonValue)> = Vec::new();
    fields.push(("type".to_owned(), JsonValue::Str("array".to_owned())));
    fields.push(("items".to_owned(), JsonValue::Obj(item_fields)));
    fields.push(("description".to_owned(), JsonValue::Str(description.to_owned())));
    JsonValue::Obj(fields)
}

/// A string property constrained to an enumeration.
fn p_enum(values: Vec<String>, default: &str, description: &str) -> JsonValue {
    let mut evals: Vec<JsonValue> = Vec::new();
    let mut vs = values;
    while vs.len() > 0
        decreases vs@.len(),
    {
        let v = vs.remove(0);
        evals.push(JsonValue::Str(v));
    }
    let mut fields: Vec<(String, JsonValue)> = Vec::new();
    fields.push(("type".to_owned(), JsonValue::Str("string".to_owned())));
    fields.push(("enum".to_owned(), JsonValue::Arr(evals)));
    if default.unicode_len() > 0 {
        fields.push(("default".to_owned(), JsonValue::Str(default.to_owned())));
    }
    fields.push(("description".to_owned(), JsonValue::Str(description.to_owned())));
    JsonValue::Obj(fields)
}

/// An object schema with properties and required field names.
fn schema(properties: Vec<(String, JsonValue)>, required: Vec<String>) -> JsonValue {
    let mut fields: Vec<(String, JsonValue)> = Vec::new();
    fields.push(("type".to_owned(), JsonValue::Str("object".to_owned())));
    fields.push(("properties".to_owned(), JsonValue::Obj(properties)));
    if required.len() > 0 {
        let mut reqs: Vec<JsonValue> = Vec::new();
        let mut rs = required;
        while rs.len() > 0
            decreases rs@.len(),
        {
            let v = rs.remove(0);
            reqs.push(JsonValue::Str(v));
        }
        fields.push(("required".to_owned(), JsonValue::Arr(reqs)));
    }
    JsonValue::Obj(fields)
}

/// The registry as JSON schemas: exactly the fourteen dispatchable
/// tools, in a fixed order.
pub fn tool_definitions() -> (r: JsonValue)
    ensures
        obj_lookup(r, "tools"@) matches Some(ts) && ts is Arr && {
            let items = ts->Arr_0@;
            &&& items.len() == 14
            &&& tool_named(items[0], "icm_store"@)
            &&& tool_named(items[1], "icm_recall"@)
            &&& tool_named(items[2], "icm_forget"@)
            &&& tool_named(items[3], "icm_consolidate"@)
            &&& tool_named(items[4], "icm_list_topics"@)
            &&& tool_named(items[5], "icm_stats"@)
            &&& tool_named(items[6], "icm_memoir_create"@)
            &&& tool_named(items[7], "icm_memoir_list"@)
            &&& tool_named(items[8], "icm_memoir_show"@)
            &&& tool_named(items[9], "icm_memoir_add_concept"@)
            &&& tool_named(items[10], "icm_memoir_refine"@)
            &&& tool_named(items[11], "icm_memoir_search"@)
            &&& tool_named(items[12], "icm_memoir_link"@)
            &&& tool_named(items[13], "icm_memoir_inspect"@)
        },
{
    let mut tools: Vec<JsonValue> = Vec::new();

    let mut props: Vec<(String, JsonValue)> = Vec::new();
    props.push(("topic".to_owned(), p_str("Category or namespace for the memory")));
    props.push(("content".to_owned(), p_str("Information to memorize, concise but complete")));
    let mut levels: Vec<String> = Vec::new();
    levels.push("critical".to_owned());
    levels.push("high".to_owned());
    levels.push("medium".to_owned());
    levels.push("low".to_owned());
    props.push((
        "importance".to_owned(),
        p_enum(levels, "medium", "critical is never forgotten; lower levels decay faster"),
    ));
    props.push(("keywords".to_owned(), p_arr_str("Keywords to improve search")));
    props.push(("raw_excerpt".to_owned(), p_str("Optional verbatim excerpt")));
    let mut req: Vec<String> = Vec::new();
    req.push("topic".to_owned());
    req.push("content".to_owned());
    tools.push(make_tool(
        "icm_store",
        "Store important information in long-term memory so it persists between sessions.",
        schema(props, req),
    ));

    let mut props: Vec<(String, JsonValue)> = Vec::new();
    props.push(("query".to_owned(), p_str("Natural language search query")));
    props.push(("topic".to_owned(), p_str("Filter by specific topic (optional)")));
    props.push(("limit".to_owned(), p_int(5, "Max number of results")));
    let mut req: Vec<String> = Vec::new();
    req.push("query".to_owned());
    tools.push(make_tool(
        "icm_recall",
        "Search long-term memory for past decisions, context and solutions.",
        schema(props, req),
    ));

    let mut props: Vec<(String, JsonValue)> = Vec::new();
    props.push(("id".to_owned(), p_str("Memory identifier to delete")));
    let mut req: Vec<String> = Vec::new();
    req.push("id".to_owned());
    tools.push(make_tool(
        "icm_forget",
        "Delete a specific memory by its identifier.",
        schema(props, req),
    ));

    let mut props: Vec<(String, JsonValue)> = Vec::new();
    props.push(("topic".to_owned(), p_str("Topic to consolidate")));
    props.push(("summary".to_owned(), p_str("Consolidated summary replacing the topic's memories")));
    let mut req: Vec<String> = Vec::new();
    req.push("topic".to_owned());
    req.push("summary".to_owned());
    tools.push(make_tool(
        "icm_consolidate",
        "Consolidate all memories of a topic into a single summary.",
        schema(props, req),
    ));

    let props: Vec<(String, JsonValue)> = Vec::new();
    let req: Vec<String> = Vec::new();
    tools.push(make_tool(
        "icm_list_topics",
        "List all memory topics with their counts.",
        schema(props, req),
    ));

    let props: Vec<(String, JsonValue)> = Vec::new();
    let req: Vec<String> = Vec::new();
    tools.push(make_tool(
        "icm_stats",
        "Get global memory statistics.",
        schema(props, req),
    ));

    let mut props: Vec<(String, JsonValue)> = Vec::new();
    props.push(("name".to_owned(), p_str("Unique human-readable name for the memoir")));
    props.push(("description".to_owned(), p_str("What this memoir is for")));
    let mut req: Vec<String> = Vec::new();
    req.push("name".to_owned());
    tools.push(make_tool(
        "icm_memoir_create",
        "Create a memoir: a permanent knowledge container whose concepts never decay.",
        schema(props, req),
    ));

    let props: Vec<(String, JsonValue)> = Vec::new();
    let req: Vec<String> = Vec::new();
    tools.push(make_tool(
        "icm_memoir_list",
        "List all memoirs with their concept counts.",
        schema(props, req),
    ));

    let mut props: Vec<(String, JsonValue)> = Vec::new();
    props.push(("name".to_owned(), p_str("Memoir name")));
    let mut req: Vec<String> = Vec::new();
    req.push("name".to_owned());
    tools.push(make_tool(
        "icm_memoir_show",
        "Show a memoir's statistics, labels and concepts.",
        schema(props, req),
    ));

    let mut props: Vec<(String, JsonValue)> = Vec::new();
    props.push(("memoir".to_owned(), p_str("Memoir name")));
    props.push(("name".to_owned(), p_str("Concept name, unique within the memoir")));
    props.push(("definition".to_owned(), p_str("Dense description of the concept")));
    props.push((
        "labels".to_owned(),
        p_str("Comma-separated labels, each namespace:value or a plain tag"),
    ));
    let mut req: Vec<String> = Vec::new();
    req.push("memoir".to_owned());
    req.push("name".to_owned());
    req.push("definition".to_owned());
    tools.push(make_tool(
        "icm_memoir_add_concept",
        "Add a permanent concept to a memoir; concepts are refined, never decayed.",
        schema(props, req),
    ));

    let mut props: Vec<(String, JsonValue)> = Vec::new();
    props.push(("memoir".to_owned(), p_str("Memoir name")));
    props.push(("name".to_owned(), p_str("Concept name")));
    props.push(("definition".to_owned(), p_str("New, refined definition")));
    let mut req: Vec<String> = Vec::new();
    req.push("memoir".to_owned());
    req.push("name".to_owned());
    req.push("definition".to_owned());
    tools.push(make_tool(
        "icm_memoir_refine",
        "Refine a concept with an improved definition; bumps revision and confidence.",
        schema(props, req),
    ));

    let mut props: Vec<(String, JsonValue)> = Vec::new();
    props.push(("memoir".to_owned(), p_str("Memoir name")));
    props.push(("query".to_owned(), p_str("Search query")));
    props.push(("limit".to_owned(), p_int(10, "Max results")));
    let mut req: Vec<String> = Vec::new();
    req.push("memoir".to_owned());
    req.push("query".to_owned());
    tools.push(make_tool(
        "icm_memoir_search",
        "Full-text search of the concepts within a memoir.",
        schema(props, req),
    ));

    let mut props: Vec<(String, JsonValue)> = Vec::new();
    props.push(("memoir".to_owned(), p_str("Memoir name")));
    props.push(("from".to_owned(), p_str("Source concept name")));
    props.push(("to".to_owned(), p_str("Target concept name")));
    let mut rels: Vec<String> = Vec::new();
    rels.push("part_of".to_owned());
    rels.push("depends_on".to_owned());
    rels.push("related_to".to_owned());
    rels.push("contradicts".to_owned());
    rels.push("refines".to_owned());
    rels.push("alternative_to".to_owned());
    rels.push("caused_by".to_owned());
    rels.push("instance_of".to_owned());
    props.push(("relation".to_owned(), p_enum(rels, "", "Relation type")));
    let mut req: Vec<String> = Vec::new();
    req.push("memoir".to_owned());
    req.push("from".to_owned());
    req.push("to".to_owned());
    req.push("relation".to_owned());
    tools.push(make_tool(
        "icm_memoir_link",
        "Create a directed, typed edge between two concepts of one memoir.",
        schema(props, req),
    ));

    let mut props: Vec<(String, JsonValue)> = Vec::new();
    props.push(("memoir".to_owned(), p_str("Memoir name")));
    props.push(("name".to_owned(), p_str("Concept name")));
    props.push(("depth".to_owned(), p_int(1, "Traversal depth")));
    let mut req: Vec<String> = Vec::new();
    req.push("memoir".to_owned());
    req.push("name".to_owned());
    tools.push(make_tool(
        "icm_memoir_inspect",
        "Inspect a concept and its graph neighborhood.",
        schema(props, req),
    ));

    let mut fields: Vec<(String, JsonValue)> = Vec::new();
    fields.push(("tools".to_owned(), JsonValue::Arr(tools)));
    JsonValue::Obj(fields)
}

/// Render a parts-per-million weight with three decimals.
pub fn fmt_ppm(w: u64) -> (r: String)
    ensures
        r@ == crate::text::dec_nat((w / 1_000_000) as nat) + "."@ + crate::text::dec_nat(
            ((w % 1_000_000) / 1000 / 100) as nat,
        ) + crate::text::dec_nat(((w % 1_000_000) / 1000 / 10 % 10) as nat)
            + crate::text::dec_nat(((w % 1_000_000) / 1000 % 10) as nat),
{
    let whole = w / 1_000_000;
    let milli = (w % 1_000_000) / 1000;
    let mut out = u64_to_string(whole);
    out.append(".");
    let d1 = u64_to_string(milli / 100);
    out.append(d1.as_str());
    let d2 = u64_to_string(milli / 10 % 10);
    out.append(d2.as_str());
    let d3 = u64_to_string(milli % 10);
    out.append(d3.as_str());
    out
}

/// Render a thousandths confidence with two decimals.
pub fn fmt_confidence(c: u32) -> (r: String)
    ensures
        r@ == crate::text::dec_nat((c / 1000) as nat) + "."@ + crate::text::dec_nat(
            ((c % 1000) / 100) as nat,
        ) + crate::text::dec_nat(((c % 1000) / 10 % 10) as nat),
{
    let whole = c / 1000;
    let centi = c % 1000;
    let mut out = u64_to_string(whole as u64);
    out.append(".");
    let d1 = u64_to_string((centi / 100) as u64);
    out.append(d1.as_str());
    let d2 = u64_to_string((centi / 10 % 10) as u64);
    out.append(d2.as_str());
    out
}

} // verus!
