//! Verified text utilities: case folding, substring search, tokenizing,
//! lexicographic comparison and decimal rendering.

use vstd::prelude::*;
use vstd::string::StrSliceExecFns;
use vstd::string::StringExecFns;

verus! {

/// ASCII lower-casing of one character.
pub open spec fn lower_char(c: char) -> char {
    if 'A' <= c && c <= 'Z' {
        ((c as u32) + 32) as char
    } else {
        c
    }
}

/// ASCII lower-casing of a character sequence.
pub open spec fn lower(s: Seq<char>) -> Seq<char> {
    s.map_values(|c: char| lower_char(c))
}

/// Lower-case a string, ASCII letters only.
pub fn to_lower(s: &str) -> (r: String)
    ensures
        r@ == lower(s@),
{
    let n = s.unicode_len();
    let mut out: Vec<char> = Vec::new();
    let mut i: usize = 0;
    while i < n
        invariant
            i <= n,
            n == s@.len(),
            out@ == lower(s@).take(i as int),
        decreases n - i,
    {
        let c = s.get_char(i);
        let lc: char = if 'A' <= c && c <= 'Z' {
            proof {
                char_lower_in_range(c);
            }
            (((c as u32) + 32) as u8) as char
        } else {
            c
        };
        assert(lc == lower_char(s@[i as int]));
        out.push(lc);
        proof {
            assert(out@ =~= lower(s@).take(i + 1));
        }
        i = i + 1;
    }
    proof {
        assert(lower(s@).take(n as int) =~= lower(s@));
    }
    chars_to_string(&out)
}

proof fn char_lower_in_range(c: char)
    requires
        'A' <= c && c <= 'Z',
    ensures
        ((c as u32) + 32) as u8 as char == ((c as u32) + 32) as char,
        'a' <= (((c as u32) + 32) as char) && (((c as u32) + 32) as char) <= 'z',
{
    assert('A' as u32 == 65);
    assert('Z' as u32 == 90);
}

/// Build a `String` from a vector of characters.
pub fn chars_to_string(v: &Vec<char>) -> (r: String)
    ensures
        r@ == v@,
{
    let mut out = String::new();
    let mut i: usize = 0;
    while i < v.len()
        invariant
            i <= v@.len(),
            out@ == v@.take(i as int),
        decreases v@.len() - i,
    {
        let c = v[i];
        push_char(&mut out, c);
        proof {
            assert(out@ =~= v@.take(i + 1));
        }
        i = i + 1;
    }
    proof {
        assert(v@.take(v@.len() as int) =~= v@);
    }
    out
}

/// Append one character to a string.
///
/// Relies on `String::push` of std, which vstd leaves unspecified.
#[verifier::external_body]
pub fn push_char(s: &mut String, c: char)
    ensures
        final(s)@ == old(s)@.push(c),
{
    s.push(c);
}

/// Compare two string slices for equality.
///
/// Relies on `str`'s `PartialEq` of std: equal byte content, hence equal
/// character content.
#[verifier::external_body]
pub fn str_eq(a: &str, b: &str) -> (r: bool)
    ensures
        r == (a@ == b@),
{
    a == b
}

/// The needle `n` occurs in `h` starting at position `i`.
pub open spec fn matches_at(h: Seq<char>, n: Seq<char>, i: int) -> bool {
    0 <= i && i + n.len() <= h.len() && h.subrange(i, i + n.len()) == n
}

/// The needle `n` occurs somewhere in `h` (the empty needle always does).
pub open spec fn contains_seq(h: Seq<char>, n: Seq<char>) -> bool {
    exists|i: int| matches_at(h, n, i)
}

/// Substring test, exact with respect to `contains_seq`.
pub fn str_contains(h: &str, n: &str) -> (r: bool)
    ensures
        r == contains_seq(h@, n@),
{
    let hn = h.unicode_len();
    let nn = n.unicode_len();
    if nn > hn {
        proof {
            assert(forall|i: int| !matches_at(h@, n@, i));
        }
        return false;
    }
    let end = hn - nn;
    let mut i: usize = 0;
    loop
        invariant
            nn <= hn,
            hn == h@.len(),
            nn == n@.len(),
            end == hn - nn,
            i <= end,
            forall|k: int| 0 <= k < i ==> !matches_at(h@, n@, k),
        decreases end - i,
    {
        if match_here(h, n, i) {
            return true;
        }
        if i == end {
            proof {
                assert(forall|k: int| matches_at(h@, n@, k) ==> 0 <= k <= end);
            }
            return false;
        }
        i = i + 1;
    }
}

/// Does `n` occur in `h` at exactly position `i`?
fn match_here(h: &str, n: &str, i: usize) -> (r: bool)
    requires
        i + n@.len() <= h@.len(),
        h@.len() <= usize::MAX,
    ensures
        r == matches_at(h@, n@, i as int),
{
    let nn = n.unicode_len();
    let mut j: usize = 0;
    while j < nn
        invariant
            nn == n@.len(),
            i + nn <= h@.len(),
            h@.len() <= usize::MAX,
            j <= nn,
            h@.subrange(i as int, i + j) == n@.take(j as int),
        decreases nn - j,
    {
        if h.get_char(i + j) != n.get_char(j) {
            proof {
                assert(h@.subrange(i as int, i + nn)[j as int] != n@[j as int]);
            }
            return false;
        }
        proof {
            assert(h@.subrange(i as int, i + j + 1) =~= n@.take(j + 1));
        }
        j = j + 1;
    }
    proof {
        assert(n@.take(nn as int) =~= n@);
    }
    true
}

/// Case-insensitive (ASCII) substring test.
pub fn contains_ci(h: &str, n: &str) -> (r: bool)
    ensures
        r == contains_seq(lower(h@), lower(n@)),
{
    let hl = to_lower(h);
    let nl = to_lower(n);
    str_contains(hl.as_str(), nl.as_str())
}

// ---------------------------------------------------------------------------
// Whitespace tokenizing
// ---------------------------------------------------------------------------

/// ASCII whitespace.
pub open spec fn is_space(c: char) -> bool {
    c == ' ' || c == '\t' || c == '\n' || c == '\r'
}

/// Length of the leading run of non-space characters.
pub open spec fn word_len(s: Seq<char>) -> nat
    decreases s.len(),
{
    if s.len() == 0 || is_space(s[0]) {
        0
    } else {
        1 + word_len(s.drop_first())
    }
}

/// The whitespace-separated words of `s`, in order.
pub open spec fn tokens(s: Seq<char>) -> Seq<Seq<char>>
    decreases s.len(),
    via tokens_decreases
{
    if s.len() == 0 {
        seq![]
    } else if is_space(s[0]) {
        tokens(s.drop_first())
    } else {
        seq![s.take(word_len(s) as int)] + tokens(s.skip(word_len(s) as int))
    }
}

#[via_fn]
proof fn tokens_decreases(s: Seq<char>) {
    if s.len() > 0 && !is_space(s[0]) {
        lemma_word_len_bound(s);
    }
}

proof fn lemma_word_len_bound(s: Seq<char>)
    ensures
        word_len(s) <= s.len(),
        s.len() > 0 && !is_space(s[0]) ==> word_len(s) >= 1,
    decreases s.len(),
{
    if s.len() > 0 && !is_space(s[0]) {
        lemma_word_len_bound(s.drop_first());
    }
}

/// Characters inside the leading word are not spaces; the character after it,
/// if any, is a space.
proof fn lemma_word_len_chars(s: Seq<char>)
    ensures
        forall|k: int| 0 <= k < word_len(s) ==> !is_space(s[k]),
        word_len(s) < s.len() ==> is_space(s[word_len(s) as int]),
    decreases s.len(),
{
    lemma_word_len_bound(s);
    if s.len() > 0 && !is_space(s[0]) {
        lemma_word_len_chars(s.drop_first());
        assert forall|k: int| 0 <= k < word_len(s) implies !is_space(s[k]) by {
            if k > 0 {
                assert(s[k] == s.drop_first()[k - 1]);
            }
        }
        if word_len(s) < s.len() {
            assert(s[word_len(s) as int] == s.drop_first()[word_len(s.drop_first()) as int]);
        }
    }
}

/// Split a string into its whitespace-separated words.
pub fn split_words(s: &str) -> (r: Vec<String>)
    ensures
        r.deep_view() == tokens(s@),
{
    let n = s.unicode_len();
    let mut out: Vec<String> = Vec::new();
    let mut i: usize = 0;
    proof {
        assert(s@.skip(0) =~= s@);
        assert(out.deep_view() =~= Seq::<Seq<char>>::empty());
        assert(out.deep_view() + tokens(s@) =~= tokens(s@));
    }
    while i < n
        invariant
            i <= n,
            n == s@.len(),
            tokens(s@) == out.deep_view() + tokens(s@.skip(i as int)),
        decreases n - i,
    {
        let c = s.get_char(i);
        if c == ' ' || c == '\t' || c == '\n' || c == '\r' {
            proof {
                assert(s@.skip(i as int).drop_first() =~= s@.skip(i + 1));
            }
            i = i + 1;
        } else {
            // scan to the end of the word
            let start = i;
            let mut j = i + 1;
            while j < n
                invariant
                    n == s@.len(),
                    start < j <= n,
                    forall|k: int| start <= k < j ==> !is_space(s@[k]),
                ensures
                    start < j <= n,
                    forall|k: int| start <= k < j ==> !is_space(s@[k]),
                    j < n ==> is_space(s@[j as int]),
                decreases n - j,
            {
                let c2 = s.get_char(j);
                if c2 == ' ' || c2 == '\t' || c2 == '\n' || c2 == '\r' {
                    break;
                }
                j = j + 1;
            }
            proof {
                // j marks exactly the end of the leading word of the suffix
                lemma_word_len_chars(s@.skip(start as int));
                lemma_word_len_bound(s@.skip(start as int));
                let suf = s@.skip(start as int);
                let wl = word_len(suf) as int;
                assert forall|k: int| 0 <= k < wl implies !is_space(#[trigger] suf[k]) by {
                    assert(suf[k] == s@[start + k]);
                }
                if j - start < wl {
                    assert(!is_space(suf[j - start]));
                    assert(suf[j - start] == s@[j as int]);
                }
                if j - start > wl {
                    assert(is_space(suf[wl]));
                    assert(suf[wl] == s@[start + wl]);
                }
                assert(j - start == wl);
            }
            let w = s.substring_char(start, j);
            let ghost prev = out.deep_view();
            out.push(w.to_owned());
            proof {
                let suf = s@.skip(start as int);
                let wl = word_len(suf) as int;
                assert(suf.take(wl) =~= s@.subrange(start as int, j as int));
                assert(suf.skip(wl) =~= s@.skip(j as int));
                assert(tokens(suf) == seq![suf.take(wl)] + tokens(suf.skip(wl)));
                assert(out.deep_view() =~= prev.push(w@));
                assert(prev.push(w@) + tokens(s@.skip(j as int)) =~= prev + (seq![suf.take(wl)]
                    + tokens(suf.skip(wl))));
            }
            i = j;
        }
    }
    proof {
        assert(s@.skip(n as int) =~= Seq::<char>::empty());
        assert(out.deep_view() =~= out.deep_view() + tokens(s@.skip(n as int)));
    }
    out
}

// ---------------------------------------------------------------------------
// Lexicographic order on character sequences
// ---------------------------------------------------------------------------

/// Code-point lexicographic order (equal to byte order of the UTF-8 forms).
pub open spec fn lex_le(a: Seq<char>, b: Seq<char>) -> bool
    decreases a.len(),
{
    if a.len() == 0 {
        true
    } else if b.len() == 0 {
        false
    } else if (a[0] as u32) < (b[0] as u32) {
        true
    } else if (a[0] as u32) > (b[0] as u32) {
        false
    } else {
        lex_le(a.drop_first(), b.drop_first())
    }
}

/// Total-order test on strings, exact with respect to `lex_le`.
pub fn str_le(a: &str, b: &str) -> (r: bool)
    ensures
        r == lex_le(a@, b@),
{
    let an = a.unicode_len();
    let bn = b.unicode_len();
    let mut i: usize = 0;
    proof {
        assert(a@.skip(0) =~= a@);
        assert(b@.skip(0) =~= b@);
    }
    loop
        invariant
            an == a@.len(),
            bn == b@.len(),
            i <= an,
            i <= bn,
            lex_le(a@, b@) == lex_le(a@.skip(i as int), b@.skip(i as int)),
        decreases an - i,
    {
        if i >= an {
            proof {
                assert(a@.skip(i as int).len() == 0);
            }
            return true;
        }
        if i >= bn {
            proof {
                assert(b@.skip(i as int).len() == 0);
                assert(a@.skip(i as int).len() > 0);
            }
            return false;
        }
        let ca = a.get_char(i);
        let cb = b.get_char(i);
        proof {
            assert(a@.skip(i as int)[0] == a@[i as int]);
            assert(b@.skip(i as int)[0] == b@[i as int]);
            assert(a@.skip(i as int).drop_first() =~= a@.skip(i + 1));
            assert(b@.skip(i as int).drop_first() =~= b@.skip(i + 1));
        }
        if (ca as u32) < (cb as u32) {
            return true;
        }
        if (ca as u32) > (cb as u32) {
            return false;
        }
        proof {
            vstd::utf8::char_u32_cast(ca, ca as u32);
            vstd::utf8::char_u32_cast(cb, cb as u32);
        }
        i = i + 1;
    }
}

/// Strict lexicographic order.
pub open spec fn lex_lt(a: Seq<char>, b: Seq<char>) -> bool {
    lex_le(a, b) && a != b
}

/// `lex_le` is total.
pub proof fn lemma_lex_total(a: Seq<char>, b: Seq<char>)
    ensures
        lex_le(a, b) || lex_le(b, a),
    decreases a.len(),
{
    if a.len() > 0 && b.len() > 0 {
        vstd::utf8::char_u32_cast(a[0], a[0] as u32);
        vstd::utf8::char_u32_cast(b[0], b[0] as u32);
        if a[0] == b[0] {
            lemma_lex_total(a.drop_first(), b.drop_first());
        }
    }
}

/// `lex_le` is antisymmetric.
pub proof fn lemma_lex_antisym(a: Seq<char>, b: Seq<char>)
    requires
        lex_le(a, b),
        lex_le(b, a),
    ensures
        a == b,
    decreases a.len(),
{
    if a.len() > 0 && b.len() > 0 {
        vstd::utf8::char_u32_cast(a[0], a[0] as u32);
        vstd::utf8::char_u32_cast(b[0], b[0] as u32);
        lemma_lex_antisym(a.drop_first(), b.drop_first());
        assert(a =~= seq![a[0]] + a.drop_first());
        assert(b =~= seq![b[0]] + b.drop_first());
    } else {
        assert(a.len() == 0 && b.len() == 0);
        assert(a =~= b);
    }
}

/// `lex_le` is transitive.
pub proof fn lemma_lex_trans(a: Seq<char>, b: Seq<char>, c: Seq<char>)
    requires
        lex_le(a, b),
        lex_le(b, c),
    ensures
        lex_le(a, c),
    decreases a.len(),
{
    if a.len() > 0 && b.len() > 0 && c.len() > 0 {
        vstd::utf8::char_u32_cast(a[0], a[0] as u32);
        vstd::utf8::char_u32_cast(b[0], b[0] as u32);
        vstd::utf8::char_u32_cast(c[0], c[0] as u32);
        if a[0] == b[0] && b[0] == c[0] {
            lemma_lex_trans(a.drop_first(), b.drop_first(), c.drop_first());
        }
    }
}

// ---------------------------------------------------------------------------
// Decimal rendering
// ---------------------------------------------------------------------------

/// The decimal digit character for `d` (`d < 10`).
pub open spec fn digit_char(d: nat) -> char {
    if d == 0 {
        '0'
    } else if d == 1 {
        '1'
    } else if d == 2 {
        '2'
    } else if d == 3 {
        '3'
    } else if d == 4 {
        '4'
    } else if d == 5 {
        '5'
    } else if d == 6 {
        '6'
    } else if d == 7 {
        '7'
    } else if d == 8 {
        '8'
    } else {
        '9'
    }
}

/// Decimal rendering of a natural number, no leading zeros.
pub open spec fn dec_nat(n: nat) -> Seq<char>
    decreases n,
{
    if n < 10 {
        seq![digit_char(n)]
    } else {
        dec_nat(n / 10).push(digit_char(n % 10))
    }
}

/// Decimal rendering of an integer: a `-` sign for negatives.
pub open spec fn dec_int(n: int) -> Seq<char> {
    if n < 0 {
        seq!['-'] + dec_nat((-n) as nat)
    } else {
        dec_nat(n as nat)
    }
}

/// Render a `u64` in decimal, exact with respect to `dec_nat`.
pub fn u64_to_string(n: u64) -> (r: String)
    ensures
        r@ == dec_nat(n as nat),
    decreases n,
{
    let d: u64 = n % 10;
    let ds: &str = match d {
        0 => "0",
        1 => "1",
        2 => "2",
        3 => "3",
        4 => "4",
        5 => "5",
        6 => "6",
        7 => "7",
        8 => "8",
        _ => "9",
    };
    proof {
        reveal_strlit("0");
        reveal_strlit("1");
        reveal_strlit("2");
        reveal_strlit("3");
        reveal_strlit("4");
        reveal_strlit("5");
        reveal_strlit("6");
        reveal_strlit("7");
        reveal_strlit("8");
        reveal_strlit("9");
        assert(ds@ =~= seq![digit_char((n % 10) as nat)]);
    }
    if n < 10 {
        ds.to_owned()
    } else {
        let mut prefix = u64_to_string(n / 10);
        prefix.append(ds);
        proof {
            assert(prefix@ =~= dec_nat(n as nat));
        }
        prefix
    }
}

/// Render a `usize` in decimal.
pub fn usize_to_string(n: usize) -> (r: String)
    ensures
        r@ == dec_nat(n as nat),
{
    u64_to_string(n as u64)
}

/// Render an `i64` in decimal, exact with respect to `dec_int`.
pub fn i64_to_string(n: i64) -> (r: String)
    ensures
        r@ == dec_int(n as int),
{
    if n >= 0 {
        u64_to_string(n as u64)
    } else {
        let mag: u64 = if n == i64::MIN {
            9223372036854775808u64
        } else {
            (-n) as u64
        };
        let mut out = String::new();
        out.append("-");
        let digits = u64_to_string(mag);
        out.append(digits.as_str());
        proof {
            reveal_strlit("-");
            assert(out@ =~= dec_int(n as int));
        }
        out
    }
}

// ---------------------------------------------------------------------------
// Display truncation helpers
// ---------------------------------------------------------------------------

/// Truncate `s` to at most `max` characters, appending `...` when cut
/// (the ellipsis replaces the last three kept characters).
pub fn truncate(s: &str, max: usize) -> (r: String)
    ensures
        s@.len() <= max ==> r@ == s@,
        s@.len() > max ==> r@ == s@.take(if max >= 3 { max - 3 } else { 0 }) + "..."@,
{
    let n = s.unicode_len();
    if n <= max {
        s.to_owned()
    } else {
        let keep: usize = if max >= 3 {
            max - 3
        } else {
            0
        };
        let mut out = s.substring_char(0, keep).to_owned();
        out.append("...");
        out
    }
}

/// Newlines replaced by spaces.
pub open spec fn flatten_newlines(s: Seq<char>) -> Seq<char> {
    s.map_values(|c: char| if c == '\n' { ' ' } else { c })
}

/// Flatten newlines, then truncate to `max_chars` characters with a trailing
/// `...` when cut.
pub fn truncate_words(s: &str, max_chars: usize) -> (r: String)
    ensures
        flatten_newlines(s@).len() <= max_chars ==> r@ == flatten_newlines(s@),
        flatten_newlines(s@).len() > max_chars ==> r@ == flatten_newlines(s@).take(
            max_chars as int,
        ) + "..."@,
{
    let n = s.unicode_len();
    let mut flat: Vec<char> = Vec::new();
    let mut i: usize = 0;
    while i < n
        invariant
            i <= n,
            n == s@.len(),
            flat@ == flatten_newlines(s@).take(i as int),
        decreases n - i,
    {
        let c = s.get_char(i);
        let fc: char = if c == '\n' {
            ' '
        } else {
            c
        };
        flat.push(fc);
        proof {
            assert(flat@ =~= flatten_newlines(s@).take(i + 1));
        }
        i = i + 1;
    }
    proof {
        assert(flatten_newlines(s@).take(n as int) =~= flatten_newlines(s@));
    }
    if flat.len() <= max_chars {
        chars_to_string(&flat)
    } else {
        flat.truncate(max_chars);
        let mut out = chars_to_string(&flat);
        out.append("...");
        out
    }
}

} // verus!
