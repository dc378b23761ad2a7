//! Rule-based fact extraction: sentence segmentation, keyword-weighted
//! scoring (in tenths of a point), and greedy Jaccard near-duplicate
//! suppression.

use vstd::prelude::*;
use vstd::string::StrSliceExecFns;
use vstd::string::StringExecFns;

use crate::memory::Importance;
use crate::text::{
    contains_seq, is_space, lower, split_words, str_contains, str_eq, to_lower, tokens,
};

verus! {

broadcast use vstd::seq_lib::group_seq_lib_default, vstd::seq_lib::group_to_multiset_ensures;

/// Minimum score (in tenths) for a sentence to be kept.
pub const MIN_SCORE_TENTHS: u32 = 30;

// ---------------------------------------------------------------------------
// Trimming and sentence segmentation
// ---------------------------------------------------------------------------

/// Without its leading whitespace.
pub open spec fn drop_lead(s: Seq<char>) -> Seq<char>
    decreases s.len(),
{
    if s.len() == 0 || !is_space(s[0]) {
        s
    } else {
        drop_lead(s.drop_first())
    }
}

/// Without its trailing whitespace.
pub open spec fn drop_trail(s: Seq<char>) -> Seq<char>
    decreases s.len(),
{
    if s.len() == 0 || !is_space(s.last()) {
        s
    } else {
        drop_trail(s.drop_last())
    }
}

/// Without leading and trailing whitespace.
pub open spec fn trim_spec(s: Seq<char>) -> Seq<char> {
    drop_trail(drop_lead(s))
}

/// The sentences of the text: split after `.` or a newline, trimmed,
/// keeping only pieces longer than 15 characters.
pub open spec fn sentences_acc(s: Seq<char>, cur: Seq<char>) -> Seq<Seq<char>>
    decreases s.len(),
{
    if s.len() == 0 {
        if trim_spec(cur).len() > 15 {
            seq![trim_spec(cur)]
        } else {
            seq![]
        }
    } else {
        let cur2 = cur.push(s[0]);
        if s[0] == '.' || s[0] == '\n' {
            (if trim_spec(cur2).len() > 15 {
                seq![trim_spec(cur2)]
            } else {
                seq![]
            }) + sentences_acc(s.drop_first(), Seq::empty())
        } else {
            sentences_acc(s.drop_first(), cur2)
        }
    }
}

/// The sentences of the text.
pub open spec fn sentences_spec(s: Seq<char>) -> Seq<Seq<char>> {
    sentences_acc(s, Seq::empty())
}

/// Trim a string, exact with respect to `trim_spec`.
pub fn trim_str(s: &str) -> (r: String)
    ensures
        r@ == trim_spec(s@),
{
    let n = s.unicode_len();
    let mut i: usize = 0;
    proof {
        assert(s@.skip(0) =~= s@);
    }
    while i < n
        invariant
            i <= n,
            n == s@.len(),
            drop_lead(s@) == drop_lead(s@.skip(i as int)),
        ensures
            i <= n,
            drop_lead(s@) == s@.skip(i as int),
        decreases n - i,
    {
        let c = s.get_char(i);
        if !(c == ' ' || c == '\t' || c == '\n' || c == '\r') {
            proof {
                assert(drop_lead(s@.skip(i as int)) == s@.skip(i as int));
            }
            break;
        }
        proof {
            assert(s@.skip(i as int).drop_first() =~= s@.skip(i + 1));
        }
        i = i + 1;
    }
    proof {
        if i == n {
            assert(s@.skip(n as int) =~= Seq::<char>::empty());
        }
    }
    let mut j: usize = n;
    proof {
        assert(s@.subrange(i as int, n as int) =~= s@.skip(i as int));
    }
    while j > i
        invariant
            i <= j <= n,
            n == s@.len(),
            drop_trail(s@.skip(i as int)) == drop_trail(s@.subrange(i as int, j as int)),
        ensures
            i <= j <= n,
            drop_trail(s@.skip(i as int)) == s@.subrange(i as int, j as int),
        decreases j,
    {
        let c = s.get_char(j - 1);
        if !(c == ' ' || c == '\t' || c == '\n' || c == '\r') {
            proof {
                assert(drop_trail(s@.subrange(i as int, j as int)) == s@.subrange(
                    i as int,
                    j as int,
                ));
            }
            break;
        }
        proof {
            assert(s@.subrange(i as int, j as int).drop_last() =~= s@.subrange(i as int, j - 1));
        }
        j = j - 1;
    }
    proof {
        if j == i {
            assert(s@.subrange(i as int, i as int) =~= Seq::<char>::empty());
        }
    }
    s.substring_char(i, j).to_owned()
}

/// Split text into trimmed sentences, exact with respect to
/// `sentences_spec`.
pub fn split_sentences(text: &str) -> (r: Vec<String>)
    ensures
        r.deep_view() == sentences_spec(text@),
{
    let n = text.unicode_len();
    let mut out: Vec<String> = Vec::new();
    let mut cur = String::new();
    let mut i: usize = 0;
    proof {
        assert(text@.skip(0) =~= text@);
        assert(out.deep_view() =~= Seq::<Seq<char>>::empty());
        assert(out.deep_view() + sentences_acc(text@, cur@) =~= sentences_acc(text@, cur@));
    }
    while i < n
        invariant
            i <= n,
            n == text@.len(),
            sentences_spec(text@) == out.deep_view() + sentences_acc(text@.skip(i as int), cur@),
        decreases n - i,
    {
        let c = text.get_char(i);
        proof {
            assert(text@.skip(i as int)[0] == text@[i as int]);
            assert(text@.skip(i as int).drop_first() =~= text@.skip(i + 1));
        }
        crate::text::push_char(&mut cur, c);
        if c == '.' || c == '\n' {
            let t = trim_str(cur.as_str());
            let ghost prev = out.deep_view();
            if t.unicode_len() > 15 {
                out.push(t);
                proof {
                    assert(out.deep_view() =~= prev.push(trim_spec(cur@)));
                }
            }
            cur = String::new();
            proof {
                assert(out.deep_view() + sentences_acc(text@.skip(i + 1), cur@)
                    =~= sentences_spec(text@));
            }
        }
        i = i + 1;
    }
    let t = trim_str(cur.as_str());
    let ghost prev = out.deep_view();
    if t.unicode_len() > 15 {
        out.push(t);
        proof {
            assert(out.deep_view() =~= prev.push(trim_spec(cur@)));
        }
    }
    proof {
        assert(text@.skip(n as int) =~= Seq::<char>::empty());
        assert(out.deep_view() =~= sentences_spec(text@));
    }
    out
}

// ---------------------------------------------------------------------------
// Scoring
// ---------------------------------------------------------------------------

/// Is there a decimal digit in the sentence?
pub open spec fn has_digit(s: Seq<char>) -> bool {
    exists|i: int| 0 <= i < s.len() && '0' <= #[trigger] s[i] <= '9'
}

/// An ASCII capital.
pub open spec fn is_upper(c: char) -> bool {
    'A' <= c <= 'Z'
}

/// A capitalised word that is not all-capitals.
pub open spec fn proper_noun(w: Seq<char>) -> bool {
    w.len() > 1 && is_upper(w[0]) && !(forall|i: int| 0 <= i < w.len() ==> is_upper(#[trigger] w[i]))
}

/// How many interior words (everything but the first) are proper nouns.
pub open spec fn proper_noun_count(s: Seq<char>) -> int {
    if tokens(s).len() == 0 {
        0
    } else {
        tokens(s).skip(1).filter(|w: Seq<char>| proper_noun(w)).len() as int
    }
}

/// The bonus for one keyword, in tenths.
pub open spec fn kw_bonus(ls: Seq<char>, kw: Seq<char>, pts: int) -> int {
    if contains_seq(ls, kw) {
        pts
    } else {
        0
    }
}

/// The definition/specification keyword bonuses (1.5 each).
pub open spec fn spec_kw_score(ls: Seq<char>) -> int {
    kw_bonus(ls, "maximum"@, 15) + kw_bonus(ls, "minimum"@, 15) + kw_bonus(ls, "default"@, 15)
        + kw_bonus(ls, "requires"@, 15) + kw_bonus(ls, "supports"@, 15) + kw_bonus(
        ls,
        "timeout"@,
        15,
    ) + kw_bonus(ls, "threshold"@, 15) + kw_bonus(ls, "configured"@, 15) + kw_bonus(
        ls,
        "limited by"@,
        15,
    ) + kw_bonus(ls, "port"@, 15) + kw_bonus(ls, "nodes"@, 15) + kw_bonus(ls, "cluster"@, 15)
        + kw_bonus(ls, "protocol"@, 15) + kw_bonus(ls, "phase"@, 15)
}

/// The architecture/design keyword bonuses (2.0 each).
pub open spec fn arch_kw_score(ls: Seq<char>) -> int {
    kw_bonus(ls, "architecture"@, 20) + kw_bonus(ls, "module"@, 20) + kw_bonus(ls, "pipeline"@, 20)
        + kw_bonus(ls, "component"@, 20) + kw_bonus(ls, "design"@, 20) + kw_bonus(
        ls,
        "structure"@,
        20,
    ) + kw_bonus(ls, "layer"@, 20) + kw_bonus(ls, "implementation"@, 20) + kw_bonus(
        ls,
        "deployed"@,
        20,
    ) + kw_bonus(ls, "system"@, 20) + kw_bonus(ls, "framework"@, 20) + kw_bonus(ls, "model"@, 20)
}

/// The algorithm/technical-depth keyword bonuses (3.0 each).
pub open spec fn depth_kw_score(ls: Seq<char>) -> int {
    kw_bonus(ls, "algorithm"@, 30) + kw_bonus(ls, "implements"@, 30) + kw_bonus(
        ls,
        "complexity"@,
        30,
    ) + kw_bonus(ls, "o(n"@, 30) + kw_bonus(ls, "recursive"@, 30) + kw_bonus(ls, "tolerance"@, 30)
        + kw_bonus(ls, "consensus"@, 30) + kw_bonus(ls, "replication"@, 30) + kw_bonus(
        ls,
        "latency"@,
        30,
    ) + kw_bonus(ls, "throughput"@, 30) + kw_bonus(ls, "bandwidth"@, 30) + kw_bonus(
        ls,
        "fault"@,
        30,
    )
}

/// The decision/rationale keyword bonuses (2.5 each).
pub open spec fn rationale_kw_score(ls: Seq<char>) -> int {
    kw_bonus(ls, "chose"@, 25) + kw_bonus(ls, "chosen"@, 25) + kw_bonus(ls, "decided"@, 25)
        + kw_bonus(ls, "because"@, 25) + kw_bonus(ls, "instead of"@, 25) + kw_bonus(
        ls,
        "trade-off"@,
        25,
    ) + kw_bonus(ls, "rather than"@, 25) + kw_bonus(ls, "reason"@, 25) + kw_bonus(
        ls,
        "motivated"@,
        25,
    ) + kw_bonus(ls, "proposed"@, 25) + kw_bonus(ls, "introduced"@, 25) + kw_bonus(
        ls,
        "invented"@,
        25,
    )
}

/// The performance keyword bonuses (2.0 each).
pub open spec fn perf_kw_score(ls: Seq<char>) -> int {
    kw_bonus(ls, "benchmark"@, 20) + kw_bonus(ls, "performance"@, 20) + kw_bonus(
        ls,
        "measured"@,
        20,
    ) + kw_bonus(ls, "achieves"@, 20) + kw_bonus(ls, "tps"@, 20) + kw_bonus(ls, "latency"@, 20)
        + kw_bonus(ls, "availability"@, 20) + kw_bonus(ls, "scales"@, 20)
}

/// The named-entity/reference keyword bonuses (1.0 each).
pub open spec fn entity_kw_score(ls: Seq<char>) -> int {
    kw_bonus(ls, "licensed"@, 10) + kw_bonus(ls, "published"@, 10) + kw_bonus(ls, "paper"@, 10)
        + kw_bonus(ls, "team"@, 10) + kw_bonus(ls, "professor"@, 10) + kw_bonus(
        ls,
        "university"@,
        10,
    ) + kw_bonus(ls, "company"@, 10) + kw_bonus(ls, "stanford"@, 10) + kw_bonus(ls, "mit"@, 10)
}

/// The code-reference bonus (1.0).
pub open spec fn code_kw_score(ls: Seq<char>) -> int {
    if contains_seq(ls, ".rs"@) || contains_seq(ls, "fn "@) || contains_seq(ls, "struct "@) {
        10
    } else {
        0
    }
}

/// The total score of a sentence, in tenths.
pub open spec fn score_spec(s: Seq<char>) -> int {
    let ls = lower(s);
    (if has_digit(s) {
        15int
    } else {
        0int
    }) + (if proper_noun_count(s) >= 2 {
        15int
    } else {
        0int
    }) + spec_kw_score(ls) + arch_kw_score(ls) + depth_kw_score(ls) + rationale_kw_score(ls)
        + perf_kw_score(ls) + entity_kw_score(ls) + code_kw_score(ls)
}

/// High importance when a technical-depth or rationale keyword appears.
pub open spec fn importance_spec(s: Seq<char>) -> Importance {
    if depth_kw_score(lower(s)) > 0 || rationale_kw_score(lower(s)) > 0 {
        Importance::High
    } else {
        Importance::Medium
    }
}

/// A sentence worth keeping: within the length window and scoring at
/// least the threshold.
pub open spec fn eligible(s: Seq<char>) -> bool {
    20 <= s.len() <= 500 && score_spec(s) >= MIN_SCORE_TENTHS as int
}

/// Is there a decimal digit?
fn has_digit_exec(s: &str) -> (r: bool)
    ensures
        r == has_digit(s@),
{
    let n = s.unicode_len();
    let mut i: usize = 0;
    while i < n
        invariant
            i <= n,
            n == s@.len(),
            forall|k: int| 0 <= k < i ==> !('0' <= #[trigger] s@[k] <= '9'),
        decreases n - i,
    {
        let c = s.get_char(i);
        if '0' <= c && c <= '9' {
            proof {
                assert(has_digit(s@)) by {
                    assert('0' <= s@[i as int] <= '9');
                }
            }
            return true;
        }
        i = i + 1;
    }
    false
}

/// Is this word a capitalised, not all-capitals word?
fn proper_noun_exec(w: &str) -> (r: bool)
    ensures
        r == proper_noun(w@),
{
    let n = w.unicode_len();
    if n <= 1 {
        return false;
    }
    let c0 = w.get_char(0);
    if !('A' <= c0 && c0 <= 'Z') {
        return false;
    }
    let mut i: usize = 0;
    while i < n
        invariant
            i <= n,
            n == w@.len(),
            n > 1,
            is_upper(w@[0]),
            forall|k: int| 0 <= k < i ==> is_upper(#[trigger] w@[k]),
        decreases n - i,
    {
        let c = w.get_char(i);
        if !('A' <= c && c <= 'Z') {
            proof {
                assert(proper_noun(w@)) by {
                    assert(!is_upper(w@[i as int]));
                }
            }
            return true;
        }
        i = i + 1;
    }
    proof {
        assert(forall|i: int| 0 <= i < w@.len() ==> is_upper(#[trigger] w@[i]));
    }
    false
}

/// How many interior words are proper nouns.
fn proper_noun_count_exec(s: &str) -> (r: usize)
    ensures
        r as int == proper_noun_count(s@),
{
    let words = split_words(s);
    let ghost tail = tokens(s@).skip(1);
    let mut count: usize = 0;
    let mut i: usize = 1;
    proof {
        reveal(Seq::filter);
        assert(tail.take(0) =~= Seq::<Seq<char>>::empty());
    }
    if words.len() == 0 {
        return 0;
    }
    while i < words.len()
        invariant
            1 <= i <= words@.len(),
            words.deep_view() == tokens(s@),
            tail == tokens(s@).skip(1),
            count as int == tail.take(i - 1).filter(|w: Seq<char>| proper_noun(w)).len(),
            count < i,
        decreases words@.len() - i,
    {
        proof {
            assert(tail.take(i as int) =~= tail.take(i - 1).push(tail[i - 1]));
            crate::store::lemma_filter_push(
                tail.take(i - 1),
                |w: Seq<char>| proper_noun(w),
                tail[i - 1],
            );
            assert(tail[i - 1] == words.deep_view()[i as int]);
        }
        if proper_noun_exec(words[i].as_str()) {
            count = count + 1;
        }
        i = i + 1;
    }
    proof {
        assert(tail.take(words@.len() - 1) =~= tail);
    }
    count
}

/// The bonus of one keyword.
fn bonus(ls: &str, kw: &str, pts: u32) -> (g: u32)
    ensures
        g as int == kw_bonus(ls@, kw@, pts as int),
{
    if str_contains(ls, kw) {
        pts
    } else {
        0
    }
}

/// The bonuses of this keyword group, exact with respect to `spec_kw_score`.
fn spec_kw_points(ls: &str) -> (g: u32)
    ensures
        g as int == spec_kw_score(ls@),
{
    bonus(ls, "maximum", 15)
        + bonus(ls, "minimum", 15)
        + bonus(ls, "default", 15)
        + bonus(ls, "requires", 15)
        + bonus(ls, "supports", 15)
        + bonus(ls, "timeout", 15)
        + bonus(ls, "threshold", 15)
        + bonus(ls, "configured", 15)
        + bonus(ls, "limited by", 15)
        + bonus(ls, "port", 15)
        + bonus(ls, "nodes", 15)
        + bonus(ls, "cluster", 15)
        + bonus(ls, "protocol", 15)
        + bonus(ls, "phase", 15)
}

/// The bonuses of this keyword group, exact with respect to `arch_kw_score`.
fn arch_kw_points(ls: &str) -> (g: u32)
    ensures
        g as int == arch_kw_score(ls@),
{
    bonus(ls, "architecture", 20)
        + bonus(ls, "module", 20)
        + bonus(ls, "pipeline", 20)
        + bonus(ls, "component", 20)
        + bonus(ls, "design", 20)
        + bonus(ls, "structure", 20)
        + bonus(ls, "layer", 20)
        + bonus(ls, "implementation", 20)
        + bonus(ls, "deployed", 20)
        + bonus(ls, "system", 20)
        + bonus(ls, "framework", 20)
        + bonus(ls, "model", 20)
}

/// The bonuses of this keyword group, exact with respect to `depth_kw_score`.
fn depth_kw_points(ls: &str) -> (g: u32)
    ensures
        g as int == depth_kw_score(ls@),
{
    bonus(ls, "algorithm", 30)
        + bonus(ls, "implements", 30)
        + bonus(ls, "complexity", 30)
        + bonus(ls, "o(n", 30)
        + bonus(ls, "recursive", 30)
        + bonus(ls, "tolerance", 30)
        + bonus(ls, "consensus", 30)
        + bonus(ls, "replication", 30)
        + bonus(ls, "latency", 30)
        + bonus(ls, "throughput", 30)
        + bonus(ls, "bandwidth", 30)
        + bonus(ls, "fault", 30)
}

/// The bonuses of this keyword group, exact with respect to `rationale_kw_score`.
fn rationale_kw_points(ls: &str) -> (g: u32)
    ensures
        g as int == rationale_kw_score(ls@),
{
    bonus(ls, "chose", 25)
        + bonus(ls, "chosen", 25)
        + bonus(ls, "decided", 25)
        + bonus(ls, "because", 25)
        + bonus(ls, "instead of", 25)
        + bonus(ls, "trade-off", 25)
        + bonus(ls, "rather than", 25)
        + bonus(ls, "reason", 25)
        + bonus(ls, "motivated", 25)
        + bonus(ls, "proposed", 25)
        + bonus(ls, "introduced", 25)
        + bonus(ls, "invented", 25)
}

/// The bonuses of this keyword group, exact with respect to `perf_kw_score`.
fn perf_kw_points(ls: &str) -> (g: u32)
    ensures
        g as int == perf_kw_score(ls@),
{
    bonus(ls, "benchmark", 20)
        + bonus(ls, "performance", 20)
        + bonus(ls, "measured", 20)
        + bonus(ls, "achieves", 20)
        + bonus(ls, "tps", 20)
        + bonus(ls, "latency", 20)
        + bonus(ls, "availability", 20)
        + bonus(ls, "scales", 20)
}

/// The bonuses of this keyword group, exact with respect to `entity_kw_score`.
fn entity_kw_points(ls: &str) -> (g: u32)
    ensures
        g as int == entity_kw_score(ls@),
{
    bonus(ls, "licensed", 10)
        + bonus(ls, "published", 10)
        + bonus(ls, "paper", 10)
        + bonus(ls, "team", 10)
        + bonus(ls, "professor", 10)
        + bonus(ls, "university", 10)
        + bonus(ls, "company", 10)
        + bonus(ls, "stanford", 10)
        + bonus(ls, "mit", 10)
}

/// The code-reference bonus, exact with respect to `code_kw_score`.
fn code_kw_points(ls: &str) -> (g: u32)
    ensures
        g as int == code_kw_score(ls@),
{
    if str_contains(ls, ".rs") || str_contains(ls, "fn ") || str_contains(ls, "struct ") {
        10
    } else {
        0
    }
}

/// The score of a sentence, in tenths, exact with respect to
/// `score_spec`; also whether it ranks as high importance.
fn score_sentence(s: &str) -> (r: (u32, Importance))
    ensures
        r.0 as int == score_spec(s@),
        r.1 == importance_spec(s@),
{
    let ls0 = to_lower(s);
    let ls = ls0.as_str();
    let mut score: u32 = 0;
    if has_digit_exec(s) {
        score = score + 15;
    }
    if proper_noun_count_exec(s) >= 2 {
        score = score + 15;
    }
    let g1 = spec_kw_points(ls);
    let g2 = arch_kw_points(ls);
    let g3 = depth_kw_points(ls);
    let g4 = rationale_kw_points(ls);
    let g5 = perf_kw_points(ls);
    let g6 = entity_kw_points(ls);
    let g7 = code_kw_points(ls);
    score = score + g1 + g2 + g3 + g4 + g5 + g6 + g7;
    let importance = if g3 > 0 || g4 > 0 {
        Importance::High
    } else {
        Importance::Medium
    };
    (score, importance)
}

// ---------------------------------------------------------------------------
// Jaccard similarity
// ---------------------------------------------------------------------------

/// Near-duplicate test: the word sets overlap on more than 60 percent of
/// their union (an empty union counts as similar).
pub open spec fn jaccard_sim(a: Seq<char>, b: Seq<char>) -> bool {
    let aw = tokens(a).to_set();
    let bw = tokens(b).to_set();
    let inter = aw.intersect(bw).len();
    let union = aw.union(bw).len();
    union == 0 || 5 * inter > 3 * union
}

/// The distinct words of a string, strictly sorted.
fn distinct_words(s: &str) -> (r: Vec<String>)
    ensures
        crate::topics::strictly_sorted_names(r.deep_view()),
        r.deep_view().to_set() == tokens(s@).to_set(),
        r.deep_view().no_duplicates(),
        r.deep_view().len() == tokens(s@).to_set().len(),
{
    let words = split_words(s);
    let ghost ws = words.deep_view();
    let mut names: Vec<String> = Vec::new();
    let mut i: usize = 0;
    proof {
        assert(ws.take(0) =~= Seq::<Seq<char>>::empty());
        assert(names.deep_view().to_set() =~= ws.take(0).to_set());
    }
    while i < words.len()
        invariant
            i <= ws.len(),
            words.deep_view() == ws,
            crate::topics::strictly_sorted_names(names.deep_view()),
            names.deep_view().to_set() == ws.take(i as int).to_set(),
        decreases ws.len() - i,
    {
        crate::topics::insert_topic_name(&mut names, words[i].as_str());
        proof {
            assert(ws.take(i + 1) =~= ws.take(i as int).push(ws[i as int]));
            crate::topics::lemma_push_to_set(ws.take(i as int), ws[i as int]);
        }
        i = i + 1;
    }
    proof {
        assert(ws.take(ws.len() as int) =~= ws);
        let nd = names.deep_view();
        assert forall|a: int, b: int|
            0 <= a < nd.len() && 0 <= b < nd.len() && a != b implies nd[a] != nd[b] by {
            if a < b {
                assert(crate::text::lex_lt(nd[a], nd[b]));
            } else {
                assert(crate::text::lex_lt(nd[b], nd[a]));
            }
        }
        nd.unique_seq_to_set();
    }
    names
}

/// How many entries of the duplicate-free list `awn` occur in the set of
/// words of `b`.
fn intersection_count(awn: &Vec<String>, bwn: &Vec<String>) -> (c: usize)
    requires
        awn.deep_view().no_duplicates(),
    ensures
        c as int == awn.deep_view().filter(
            |x: Seq<char>| bwn.deep_view().to_set().contains(x),
        ).len(),
{
    let ghost ad = awn.deep_view();
    let ghost bset = bwn.deep_view().to_set();
    let mut c: usize = 0;
    let mut i: usize = 0;
    proof {
        reveal(Seq::filter);
        assert(ad.take(0) =~= Seq::<Seq<char>>::empty());
    }
    while i < awn.len()
        invariant
            i <= ad.len(),
            awn.deep_view() == ad,
            bwn.deep_view().to_set() == bset,
            c as int == ad.take(i as int).filter(
                |x: Seq<char>| bset.contains(x),
            ).len(),
            c <= i,
        decreases ad.len() - i,
    {
        proof {
            assert(ad.take(i + 1) =~= ad.take(i as int).push(ad[i as int]));
            crate::store::lemma_filter_push(
                ad.take(i as int),
                |x: Seq<char>| bset.contains(x),
                ad[i as int],
            );
        }
        let mut found = false;
        let mut j: usize = 0;
        while j < bwn.len()
            invariant_except_break
                !found,
            invariant
                j <= bwn@.len(),
                bwn.deep_view().to_set() == bset,
                awn.deep_view() == ad,
                i < ad.len(),
                forall|k: int| 0 <= k < j ==> bwn.deep_view()[k] != ad[i as int],
            ensures
                found == bset.contains(ad[i as int]),
            decreases bwn@.len() - j,
        {
            if str_eq(bwn[j].as_str(), awn[i].as_str()) {
                found = true;
                proof {
                    assert(bwn.deep_view().contains(ad[i as int])) by {
                        assert(bwn.deep_view()[j as int] == ad[i as int]);
                    }
                }
                break;
            }
            j = j + 1;
        }
        if found {
            c = c + 1;
        }
        i = i + 1;
    }
    proof {
        assert(ad.take(ad.len() as int) =~= ad);
    }
    c
}

/// The cardinality of the intersection of a duplicate-free list's set
/// with another set equals the count of its members in that set.
proof fn lemma_intersection_card(ad: Seq<Seq<char>>, b: Set<Seq<char>>)
    requires
        ad.no_duplicates(),
        b.finite(),
    ensures
        ad.to_set().intersect(b).len() == ad.filter(|x: Seq<char>| b.contains(x)).len(),
    decreases ad.len(),
{
    broadcast use vstd::seq_lib::group_seq_lib_default;

    reveal(Seq::filter);
    if ad.len() == 0 {
        assert(ad.to_set() =~= Set::<Seq<char>>::empty());
        assert(ad.to_set().intersect(b) =~= Set::<Seq<char>>::empty());
    } else {
        let last = ad.last();
        let rest = ad.drop_last();
        assert(rest.no_duplicates());
        lemma_intersection_card(rest, b);
        assert(ad =~= rest.push(last));
        crate::topics::lemma_push_to_set(rest, last);
        assert(ad.to_set() =~= rest.to_set().insert(last));
        assert(!rest.to_set().contains(last)) by {
            if rest.to_set().contains(last) {
                let j = choose|j: int| 0 <= j < rest.len() && rest[j] == last;
                assert(ad[j] == ad[ad.len() - 1]);
            }
        }
        if b.contains(last) {
            assert(ad.to_set().intersect(b) =~= rest.to_set().intersect(b).insert(last));
            assert(!rest.to_set().intersect(b).contains(last));
            vstd::set::axiom_set_insert_len(rest.to_set().intersect(b), last);
            assert(rest.to_set().intersect(b).finite()) by {
                vstd::set_lib::lemma_len_intersect(rest.to_set(), b);
            }
        } else {
            assert(ad.to_set().intersect(b) =~= rest.to_set().intersect(b));
        }
    }
}

/// Inclusion-exclusion: the union and intersection sizes of two finite
/// sets sum to the sizes of the sets.
proof fn lemma_union_card<A>(a: Set<A>, b: Set<A>)
    requires
        a.finite(),
        b.finite(),
    ensures
        a.union(b).len() + a.intersect(b).len() == a.len() + b.len(),
        a.union(b).finite(),
    decreases a.len(),
{
    broadcast use vstd::set::group_set_axioms;

    if a.is_empty() {
        assert(a.union(b) =~= b);
        assert(a.intersect(b) =~= Set::<A>::empty());
    } else {
        let x = a.choose();
        let a2 = a.remove(x);
        lemma_union_card(a2, b);
        if b.contains(x) {
            assert(a.union(b) =~= a2.union(b));
            assert(a.intersect(b) =~= a2.intersect(b).insert(x));
            assert(!a2.intersect(b).contains(x));
            assert(a2.intersect(b).finite()) by {
                vstd::set_lib::lemma_len_intersect(a2, b);
            }
        } else {
            assert(a.union(b) =~= a2.union(b).insert(x));
            assert(!a2.union(b).contains(x));
            assert(a.intersect(b) =~= a2.intersect(b));
        }
    }
}

/// Are the two sentences near-duplicates, exact with respect to
/// `jaccard_sim`?
pub fn jaccard_similar(a: &str, b: &str) -> (r: bool)
    ensures
        r == jaccard_sim(a@, b@),
{
    let awn = distinct_words(a);
    let bwn = distinct_words(b);
    let an = awn.len();
    let bn = bwn.len();
    let inter = intersection_count(&awn, &bwn);
    proof {
        broadcast use vstd::seq_lib::group_seq_lib_default;

        lemma_intersection_card(awn.deep_view(), bwn.deep_view().to_set());
        let aset = tokens(a@).to_set();
        let bset = tokens(b@).to_set();
        lemma_union_card(aset, bset);
        assert(inter as int == aset.intersect(bset).len());
        assert(aset.intersect(bset).len() <= aset.len()) by {
            vstd::set_lib::lemma_len_subset(aset.intersect(bset), aset);
        }
    }
    // |A ∪ B| = |A| + |B| - |A ∩ B|
    let union: u128 = an as u128 + bn as u128 - inter as u128;
    if union == 0 {
        return true;
    }
    5 * (inter as u128) > 3 * union
}

// ---------------------------------------------------------------------------
// Extraction pipeline
// ---------------------------------------------------------------------------

/// A fact drawn from the text: its topic names the project, its content
/// is an eligible sentence of the text, and its importance follows the
/// content.
pub open spec fn fact_ok(
    text: Seq<char>,
    project: Seq<char>,
    topic: Seq<char>,
    content: Seq<char>,
    importance: Importance,
) -> bool {
    &&& topic == "context-"@ + project
    &&& exists|i: int|
        0 <= i < sentences_spec(text).len() && #[trigger] sentences_spec(text)[i] == content
    &&& eligible(content)
    &&& importance == importance_spec(content)
}

/// Extract up to 20 key facts from free text: eligible sentences, best
/// first, near-duplicates suppressed, all filed under `context-{project}`.
pub fn extract_facts(text: &str, project: &str) -> (r: Vec<(String, String, Importance)>)
    ensures
        r@.len() <= 20,
        forall|i: int|
            0 <= i < r@.len() ==> fact_ok(
                text@,
                project@,
                (#[trigger] r@[i]).0@,
                r@[i].1@,
                r@[i].2,
            ),
        forall|i: int, j: int|
            #![trigger r@[i], r@[j]]
            0 <= i < j < r@.len() ==> !jaccard_sim(r@[i].1@, r@[j].1@),
        (exists|i: int|
            0 <= i < sentences_spec(text@).len() && eligible(
                #[trigger] sentences_spec(text@)[i],
            )) ==> r@.len() >= 1,
        forall|i: int, j: int|
            #![trigger r@[i], r@[j]]
            0 <= i < j < r@.len() ==> score_spec(r@[i].1@) >= score_spec(r@[j].1@),
{
    let ghost sents_spec = sentences_spec(text@);
    let sents = split_sentences(text);
    // score the eligible sentences
    let mut scored: Vec<(u32, String, Importance)> = Vec::new();
    let mut i: usize = 0;
    while i < sents.len()
        invariant
            i <= sents@.len(),
            sents.deep_view() == sents_spec,
            forall|k: int|
                0 <= k < scored@.len() ==> {
                    let e = #[trigger] scored@[k];
                    &&& exists|w: int| 0 <= w < sents_spec.len() && #[trigger] sents_spec[w] == e.1@
                    &&& eligible(e.1@)
                    &&& e.2 == importance_spec(e.1@)
                    &&& e.0 as int == score_spec(e.1@)
                },
            forall|k: int|
                0 <= k < i && eligible(#[trigger] sents_spec[k]) ==> scored@.len() >= 1,
        decreases sents@.len() - i,
    {
        let n = sents[i].unicode_len();
        if 20 <= n && n <= 500 {
            let (sc, imp) = score_sentence(sents[i].as_str());
            if sc >= MIN_SCORE_TENTHS {
                scored.push((sc, sents[i].clone(), imp));
                proof {
                    assert(scored@.last().1@ == sents_spec[i as int]);
                }
            }
        }
        i = i + 1;
    }
    // best first
    let ghost scoredv = scored@;
    let sorted = sort_scored_desc(scored);
    proof {
        assert forall|k: int|
            0 <= k < sorted@.len() implies {
            let e = #[trigger] sorted@[k];
            &&& exists|w: int| 0 <= w < sents_spec.len() && #[trigger] sents_spec[w] == e.1@
            &&& eligible(e.1@)
            &&& e.2 == importance_spec(e.1@)
        } by {
            assert(scored_member(scoredv, sorted@[k]));
            let w = choose|w: int| 0 <= w < scoredv.len() && scoredv[w] == sorted@[k];
            assert(eligible(scoredv[w].1@));
        }
        assert forall|k: int|
            0 <= k < sorted@.len() implies (#[trigger] sorted@[k]).0 as int == score_spec(
            sorted@[k].1@,
        ) by {
            assert(scored_member(scoredv, sorted@[k]));
            let w = choose|w: int| 0 <= w < scoredv.len() && scoredv[w] == sorted@[k];
            assert(scoredv[w].0 as int == score_spec(scoredv[w].1@));
        }
    }
    // suppress near-duplicates, cap the output
    let ghost topic_spec = "context-"@ + project@;
    let mut topic = String::new();
    topic.append("context-");
    topic.append(project);
    let mut out: Vec<(String, String, Importance)> = Vec::new();
    let mut sorted = sorted;
    let ghost sortedv0 = sorted@;
    let mut taken: usize = 0;
    while sorted.len() > 0
        invariant
            sents_spec == sentences_spec(text@),
            topic_spec == "context-"@ + project@,
            topic@ == topic_spec,
            taken <= 30,
            out@.len() <= taken,
            sorted@.len() + taken >= sortedv0.len() || taken == 30,
            forall|k: int|
                0 <= k < sorted@.len() ==> {
                    let e = #[trigger] sorted@[k];
                    &&& exists|w: int| 0 <= w < sents_spec.len() && #[trigger] sents_spec[w] == e.1@
                    &&& eligible(e.1@)
                    &&& e.2 == importance_spec(e.1@)
                    &&& e.0 as int == score_spec(e.1@)
                },
            forall|a: int, b: int|
                #![trigger sorted@[a], sorted@[b]]
                0 <= a < b < sorted@.len() ==> sorted@[a].0 >= sorted@[b].0,
            forall|k: int|
                0 <= k < out@.len() ==> fact_ok(
                    text@,
                    project@,
                    (#[trigger] out@[k]).0@,
                    out@[k].1@,
                    out@[k].2,
                ),
            forall|a: int, b: int|
                #![trigger out@[a], out@[b]]
                0 <= a < b < out@.len() ==> !jaccard_sim(out@[a].1@, out@[b].1@),
            forall|a: int, b: int|
                #![trigger out@[a], out@[b]]
                0 <= a < b < out@.len() ==> score_spec(out@[a].1@) >= score_spec(out@[b].1@),
            forall|a: int, k: int|
                0 <= a < out@.len() && 0 <= k < sorted@.len() ==> score_spec(
                    (#[trigger] out@[a]).1@,
                ) >= score_spec((#[trigger] sorted@[k]).1@),
            taken >= 1 ==> out@.len() >= 1,
            sortedv0.len() >= 1 ==> taken >= 1 || sorted@.len() == sortedv0.len(),
        ensures
            topic@ == topic_spec,
            out@.len() <= 30,
            forall|k: int|
                0 <= k < out@.len() ==> fact_ok(
                    text@,
                    project@,
                    (#[trigger] out@[k]).0@,
                    out@[k].1@,
                    out@[k].2,
                ),
            forall|a: int, b: int|
                #![trigger out@[a], out@[b]]
                0 <= a < b < out@.len() ==> !jaccard_sim(out@[a].1@, out@[b].1@),
            forall|a: int, b: int|
                #![trigger out@[a], out@[b]]
                0 <= a < b < out@.len() ==> score_spec(out@[a].1@) >= score_spec(out@[b].1@),
            sortedv0.len() >= 1 ==> out@.len() >= 1,
        decreases sorted@.len(),
    {
        if taken >= 30 {
            break;
        }
        let ghost spre = sorted@;
        proof {
            assert(spre.len() > 0);
            assert(sorted@[0] == spre[0]);
            assert(eligible(sorted@[0].1@));
            assert(sorted@[0].2 == importance_spec(sorted@[0].1@));
            assert(exists|w: int|
                0 <= w < sents_spec.len() && #[trigger] sents_spec[w] == sorted@[0].1@);
        }
        let entry = sorted.remove(0);
        proof {
            assert forall|k: int|
                0 <= k < sorted@.len() implies {
                let e = #[trigger] sorted@[k];
                &&& exists|w: int| 0 <= w < sents_spec.len() && #[trigger] sents_spec[w] == e.1@
                &&& eligible(e.1@)
                &&& e.2 == importance_spec(e.1@)
                &&& e.0 as int == score_spec(e.1@)
            } by {
                assert(sorted@[k] == spre[k + 1]);
            }
            assert forall|a: int, b: int|
                #![trigger sorted@[a], sorted@[b]]
                0 <= a < b < sorted@.len() implies sorted@[a].0 >= sorted@[b].0 by {
                assert(sorted@[a] == spre[a + 1]);
                assert(sorted@[b] == spre[b + 1]);
            }
            assert forall|k: int|
                0 <= k < sorted@.len() implies score_spec(entry.1@) >= score_spec(
                (#[trigger] sorted@[k]).1@,
            ) by {
                assert(sorted@[k] == spre[k + 1]);
                assert(spre[0].0 >= spre[k + 1].0);
            }
        }
        taken = taken + 1;
        let mut dominated = false;
        let mut j: usize = 0;
        while j < out.len()
            invariant_except_break
                !dominated,
            invariant
                j <= out@.len(),
                spre.len() > 0,
                entry == spre[0],
                forall|k: int| 0 <= k < j ==> !jaccard_sim((#[trigger] out@[k]).1@, entry.1@),
            ensures
                spre.len() > 0,
                entry == spre[0],
                dominated ==> exists|k: int|
                    0 <= k < out@.len() && jaccard_sim((#[trigger] out@[k]).1@, entry.1@),
                !dominated ==> forall|k: int|
                    0 <= k < out@.len() ==> !jaccard_sim((#[trigger] out@[k]).1@, entry.1@),
            decreases out@.len() - j,
        {
            if jaccard_similar(out[j].1.as_str(), entry.1.as_str()) {
                dominated = true;
                proof {
                    assert(jaccard_sim(out@[j as int].1@, entry.1@));
                }
                break;
            }
            j = j + 1;
        }
        if !dominated {
            let ghost prevout = out@;
            out.push((topic.clone(), entry.1, entry.2));
            proof {
                assert(out@.last().0@ == topic_spec);
                assert(out@.last().1@ == spre[0].1@);
                assert(out@.last().2 == spre[0].2);
                assert(forall|k: int|
                    0 <= k < prevout.len() ==> #[trigger] out@[k] == prevout[k]);
                assert forall|k: int|
                    0 <= k < out@.len() implies fact_ok(
                    text@,
                    project@,
                    (#[trigger] out@[k]).0@,
                    out@[k].1@,
                    out@[k].2,
                ) by {
                    if k < prevout.len() {
                        assert(out@[k] == prevout[k]);
                        assert(fact_ok(text@, project@, prevout[k].0@, prevout[k].1@, prevout[k].2));
                    } else {
                        assert(out@[k] == out@.last());
                        let w = choose|w: int|
                            0 <= w < sents_spec.len() && #[trigger] sents_spec[w] == spre[0].1@;
                        assert(sentences_spec(text@)[w] == spre[0].1@);
                    }
                }
                assert forall|a: int, b: int|
                    #![trigger out@[a], out@[b]]
                    0 <= a < b < out@.len() implies score_spec(out@[a].1@) >= score_spec(
                    out@[b].1@,
                ) by {
                    if b < prevout.len() {
                        assert(out@[a] == prevout[a]);
                        assert(out@[b] == prevout[b]);
                    } else {
                        assert(out@[b] == out@.last());
                        assert(out@[b].1@ == entry.1@);
                        if a < prevout.len() {
                            assert(out@[a] == prevout[a]);
                        }
                    }
                }
            }
        }
    }
    // cap at 20
    let ghost outfull = out@;
    if out.len() > 20 {
        out.truncate(20);
        proof {
            assert(out@ =~= outfull.take(20));
        }
    }
    proof {
        assert(forall|k: int| 0 <= k < out@.len() ==> #[trigger] out@[k] == outfull[k]);
    }
    out
}

/// Extract key facts; the public entry point for dry-run display.
pub fn extract_facts_public(text: &str, project: &str) -> (r: Vec<(String, String, Importance)>)
    ensures
        r@.len() <= 20,
        forall|i: int|
            0 <= i < r@.len() ==> fact_ok(
                text@,
                project@,
                (#[trigger] r@[i]).0@,
                r@[i].1@,
                r@[i].2,
            ),
        forall|i: int, j: int|
            #![trigger r@[i], r@[j]]
            0 <= i < j < r@.len() ==> !jaccard_sim(r@[i].1@, r@[j].1@),
        (exists|i: int|
            0 <= i < sentences_spec(text@).len() && eligible(
                #[trigger] sentences_spec(text@)[i],
            )) ==> r@.len() >= 1,
        forall|i: int, j: int|
            #![trigger r@[i], r@[j]]
            0 <= i < j < r@.len() ==> score_spec(r@[i].1@) >= score_spec(r@[j].1@),
{
    extract_facts(text, project)
}

/// Extract facts from the text and store each as a fresh memory filed
/// under `context-{project}`. Returns how many were stored.
pub fn extract_and_store(store: &mut crate::store::Store, text: &str, project: &str) -> (r:
    crate::errors::IcmResult<usize>)
    requires
        old(store).wf(),
    ensures
        final(store).wf(),
        final(store)@.memoirs == old(store)@.memoirs,
        final(store)@.concepts == old(store)@.concepts,
        final(store)@.links == old(store)@.links,
        match r {
            Ok(n) => n <= 20 && final(store)@.mems.len() == old(store)@.mems.len() + n,
            Err(e) => e is Database,
        },
        forall|k: int|
            old(store)@.mems.len() <= k < final(store)@.mems.len() ==> (#[trigger] final(store)@.mems[k]).topic == "context-"@ + project@ && final(store)@.mems[k].weight
                == crate::memory::WEIGHT_SCALE as int,
{
    let facts = extract_facts(text, project);
    let mut stored: usize = 0;
    let mut i: usize = 0;
    let ghost pre = store@.mems;
    while i < facts.len()
        invariant
            i <= facts@.len(),
            facts@.len() <= 20,
            stored == i,
            store.wf(),
            store@.memoirs == old(store)@.memoirs,
            store@.concepts == old(store)@.concepts,
            store@.links == old(store)@.links,
            pre == old(store)@.mems,
            store@.mems.len() == pre.len() + i,
            forall|k: int|
                0 <= k < facts@.len() ==> (#[trigger] facts@[k].0)@ == "context-"@ + project@,
            forall|k: int|
                pre.len() <= k < store@.mems.len() ==> (#[trigger] store@.mems[k]).topic
                    == "context-"@ + project@ && store@.mems[k].weight
                    == crate::memory::WEIGHT_SCALE as int,
        decreases facts@.len() - i,
    {
        let topic = facts[i].0.clone();
        let content = facts[i].1.clone();
        let mem = crate::memory::Memory::new(topic, content, facts[i].2);
        match store.store(mem) {
            Ok(_) => {
                stored = stored + 1;
            },
            Err(e) => {
                return Err(e);
            },
        }
        i = i + 1;
    }
    Ok(stored)
}

/// The fixed preamble of an injected context block.
pub open spec fn context_header() -> Seq<char> {
    "Here is context from previous analysis of this project. Use it to answer efficiently without re-reading files.\n\n"@
}

/// One bullet line per memory, in order.
pub open spec fn bullet_lines(sel: Seq<crate::memory::MemoryView>) -> Seq<char>
    decreases sel.len(),
{
    if sel.len() == 0 {
        Seq::empty()
    } else {
        bullet_lines(sel.drop_last()) + "- "@ + sel.last().summary + "\n"@
    }
}

/// The rendered context block for a non-empty selection.
pub open spec fn context_spec(sel: Seq<crate::memory::MemoryView>) -> Seq<char> {
    context_header() + bullet_lines(sel) + "\n---\n\n"@
}

/// A selection drawn from the store: every entry is one of its memories.
pub open spec fn selection_of(sel: Seq<crate::memory::MemoryView>, mems: Seq<
    crate::memory::MemoryView,
>) -> bool {
    forall|i: int|
        0 <= i < sel.len() ==> exists|w: int| 0 <= w < mems.len() && #[trigger] sel[i]
            == mems[w]
}

/// Recall relevant memories and render them as a context preamble:
/// full-text matches first, falling back to the heaviest memories.
pub fn recall_context(store: &crate::store::Store, query: &str, limit: usize) -> (r:
    crate::errors::IcmResult<String>)
    requires
        store.wf(),
        limit <= usize::MAX / 2,
    ensures
        r matches Ok(ctx) && exists|sel: Seq<crate::memory::MemoryView>|
            {
                &&& #[trigger] selection_of(sel, store@.mems)
                &&& sel.len() <= limit
                &&& sel.len() == 0 ==> ctx@ == Seq::<char>::empty()
                &&& sel.len() > 0 ==> ctx@ == context_spec(sel)
                &&& (store@.mems.len() > 0 && limit > 0) ==> sel.len() > 0
            },
{
    let doubled = limit * 2;
    let found = match store.search_fts(query, doubled) {
        Ok(v) => v,
        Err(e) => {
            return Err(e);
        },
    };
    let ghost all = store@.mems;
    let mut relevant = found;
    proof {
        broadcast use vstd::seq_lib::group_to_multiset_ensures;

        let pool = all.filter(
            |m: crate::memory::MemoryView| crate::search::fts_match(
                m,
                crate::text::tokens(query@),
            ),
        );
        assert forall|i: int| 0 <= i < relevant.deep_view().len() implies exists|w: int|
            0 <= w < all.len() && #[trigger] relevant.deep_view()[i] == all[w] by {
            let rv = relevant.deep_view();
            assert(rv.to_multiset().count(rv[i]) > 0) by {
                assert(rv.contains(rv[i]));
            }
            if crate::text::tokens(query@).len() > 0 {
                assert(pool.to_multiset().count(rv[i]) > 0);
                assert(pool.contains(rv[i]));
                let j = choose|j: int| 0 <= j < pool.len() && pool[j] == rv[i];
                crate::store::lemma_filter_member_at(
                    all,
                    |m: crate::memory::MemoryView| crate::search::fts_match(
                        m,
                        crate::text::tokens(query@),
                    ),
                    j,
                );
                let w = choose|w: int| 0 <= w < all.len() && all[w] == pool[j];
                assert(rv[i] == all[w]);
            }
        }
    }
    if relevant.len() == 0 {
        // fall back to the heaviest memories overall
        let mut everything: Vec<crate::memory::Memory> = Vec::new();
        let mut i: usize = 0;
        while i < store.mems.len()
            invariant
                i <= all.len(),
                store.mems.deep_view() == all,
                everything.deep_view() == all.take(i as int),
            decreases all.len() - i,
        {
            let ghost prev = everything.deep_view();
            everything.push(crate::memory::clone_memory(&store.mems[i]));
            proof {
                assert(everything.deep_view() =~= prev.push(all[i as int]));
                assert(everything.deep_view() =~= all.take(i + 1));
            }
            i = i + 1;
        }
        proof {
            assert(all.take(all.len() as int) =~= all);
        }
        let sorted = crate::topics::sort_memories_desc(everything);
        proof {
            broadcast use vstd::seq_lib::group_to_multiset_ensures;

            assert forall|i: int| 0 <= i < sorted.deep_view().len() implies exists|w: int|
                0 <= w < all.len() && #[trigger] sorted.deep_view()[i] == all[w] by {
                let sv = sorted.deep_view();
                assert(sv.to_multiset().count(sv[i]) > 0) by {
                    assert(sv.contains(sv[i]));
                }
                assert(all.to_multiset().count(sv[i]) > 0);
                assert(all.contains(sv[i]));
            }
        }
        proof {
            assert(sorted.deep_view().len() == all.len()) by {
                assert(sorted.deep_view().to_multiset().len() == sorted.deep_view().len());
                assert(everything.deep_view().to_multiset().len()
                    == everything.deep_view().len());
            }
        }
        relevant = sorted;
    }
    let ghost relfull = relevant.deep_view();
    if relevant.len() > limit {
        relevant.truncate(limit);
        proof {
            assert(relevant.deep_view() =~= relfull.take(limit as int));
        }
    }
    proof {
        assert(forall|k: int|
            0 <= k < relevant.deep_view().len() ==> #[trigger] relevant.deep_view()[k]
                == relfull[k]);
    }
    if relevant.len() == 0 {
        let empty = String::new();
        proof {
            assert(store@.mems.len() == 0 || limit == 0);
            let sel = Seq::<crate::memory::MemoryView>::empty();
            assert(selection_of(sel, store@.mems));
        }
        return Ok(empty);
    }
    let ctx = render_context(&relevant);
    proof {
        let sel = relevant.deep_view();
        assert(selection_of(sel, store@.mems));
    }
    Ok(ctx)
}

/// Render the context preamble for a non-empty memory list, exact with
/// respect to `context_spec`.
fn render_context(mems: &Vec<crate::memory::Memory>) -> (r: String)
    ensures
        r@ == context_spec(mems.deep_view()),
{
    let mut out = String::new();
    out.append(
        "Here is context from previous analysis of this project. Use it to answer efficiently without re-reading files.\n\n",
    );
    let ghost md = mems.deep_view();
    let mut i: usize = 0;
    proof {
        assert(md.take(0) =~= Seq::<crate::memory::MemoryView>::empty());
        assert(out@ =~= context_header() + bullet_lines(md.take(0)));
    }
    while i < mems.len()
        invariant
            i <= md.len(),
            mems.deep_view() == md,
            out@ == context_header() + bullet_lines(md.take(i as int)),
        decreases md.len() - i,
    {
        proof {
            let t1 = md.take(i + 1);
            assert(t1.drop_last() =~= md.take(i as int));
            assert(t1.last() == md[i as int]);
        }
        out.append("- ");
        out.append(mems[i].summary.as_str());
        out.append("\n");
        proof {
            assert(out@ =~= context_header() + bullet_lines(md.take(i + 1)));
        }
        i = i + 1;
    }
    proof {
        assert(md.take(md.len() as int) =~= md);
    }
    out.append("\n---\n\n");
    proof {
        assert(out@ =~= context_spec(md));
    }
    out
}

/// `e` occurs, as a value, in the scored list.
pub open spec fn scored_member(v: Seq<(u32, String, Importance)>, e: (u32, String, Importance)) -> bool {
    exists|w: int| 0 <= w < v.len() && #[trigger] v[w] == e
}

/// Sort scored sentences by descending score (insertion sort, consuming).
fn sort_scored_desc(v: Vec<(u32, String, Importance)>) -> (r: Vec<(u32, String, Importance)>)
    ensures
        r@.to_multiset() == v@.to_multiset(),
        r@.len() == v@.len(),
        forall|i: int, j: int| 0 <= i < j < r@.len() ==> (r@[i].0) >= (r@[j].0),
        forall|k: int| 0 <= k < r@.len() ==> scored_member(v@, #[trigger] r@[k]),
{
    let ghost orig = v@;
    let mut v = v;
    let mut out: Vec<(u32, String, Importance)> = Vec::new();
    proof {
        assert(out@.to_multiset().add(v@.to_multiset()) =~= orig.to_multiset());
    }
    while v.len() > 0
        invariant
            out@.to_multiset().add(v@.to_multiset()) == orig.to_multiset(),
            out@.len() + v@.len() == orig.len(),
            forall|a: int, b: int| 0 <= a < b < out@.len() ==> (out@[a].0) >= (out@[b].0),
        decreases v@.len(),
    {
        let ghost vpre = v@;
        let entry = v.remove(0);
        let ghost ev = entry;
        let mut k: usize = 0;
        while k < out.len()
            invariant
                k <= out@.len(),
                forall|j: int| 0 <= j < k ==> (out@[j].0) >= ev.0,
                entry == ev,
            ensures
                k <= out@.len(),
                entry == ev,
                forall|j: int| 0 <= j < k ==> (out@[j].0) >= ev.0,
                k < out@.len() ==> (out@[k as int].0) < ev.0,
            decreases out@.len() - k,
        {
            if out[k].0 < entry.0 {
                break;
            }
            k = k + 1;
        }
        let ghost prev = out@;
        out.insert(k, entry);
        proof {
            assert(out@ =~= prev.insert(k as int, ev));
            assert(prev.insert(k as int, ev).to_multiset() =~= prev.to_multiset().insert(ev));
            assert(vpre =~= seq![ev] + vpre.remove(0));
            vstd::seq_lib::lemma_multiset_commutative(seq![ev], vpre.remove(0));
            assert(seq![ev].to_multiset() =~= vstd::multiset::Multiset::<
                (u32, String, Importance),
            >::empty().insert(ev));
            assert(out@.to_multiset().add(v@.to_multiset()) =~= orig.to_multiset());
            assert forall|a: int, b: int|
                0 <= a < b < out@.len() implies (out@[a].0) >= (out@[b].0) by {
                let ki = k as int;
                if a < ki && b == ki {
                } else if a == ki && b > ki {
                    assert(out@[b] == prev[b - 1]);
                    assert(prev[ki] == out@[ki + 1]);
                } else {
                }
            }
        }
    }
    proof {
        broadcast use vstd::seq_lib::group_to_multiset_ensures;

        assert forall|k: int| 0 <= k < out@.len() implies scored_member(
            orig,
            #[trigger] out@[k],
        ) by {
            assert(out@.to_multiset().count(out@[k]) > 0) by {
                assert(out@.contains(out@[k]));
            }
            assert(orig.to_multiset().count(out@[k]) > 0);
            assert(orig.contains(out@[k]));
            let w = choose|w: int| 0 <= w < orig.len() && orig[w] == out@[k];
            assert(out@[k] == orig[w]);
        }
    }
    out
}

} // verus!
