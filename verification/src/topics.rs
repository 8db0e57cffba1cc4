//! Text-topic extraction for `GetTextTopics` requests.
//!
//! The topics of a page are its domain, prefixed with `FROM `, followed by one
//! topic for each sentence (text between `.` characters) that has a word: the
//! sentence's first word in upper case, then, if there is one, a space and its
//! second word in lower case. Words are the maximal runs of characters that are
//! not Unicode white space.
use vstd::prelude::*;

use crate::message::ErrorKind;
use crate::text::{chars_of, find_char, find_char_from, lemma_find_char};

verus! {

broadcast use vstd::string::group_string_axioms;

/// Whether `c` has the Unicode `White_Space` property, which is how
/// `char::is_whitespace` decides: tab, line feed, vertical tab, form feed,
/// carriage return, space, next line, no-break space, ogham space mark, the
/// spaces U+2000 to U+200A, line and paragraph separators, narrow no-break
/// space, medium mathematical space and ideographic space.
pub open spec fn white_space(c: char) -> bool {
    let u = c as u32;
    ||| 0x09 <= u <= 0x0d
    ||| u == 0x20
    ||| u == 0x85
    ||| u == 0xa0
    ||| u == 0x1680
    ||| 0x2000 <= u <= 0x200a
    ||| u == 0x2028
    ||| u == 0x2029
    ||| u == 0x202f
    ||| u == 0x205f
    ||| u == 0x3000
}

/// The upper-case mapping of a string, as `str::to_uppercase` computes it.
pub uninterp spec fn upper_case(s: Seq<char>) -> Seq<char>;

/// The lower-case mapping of a string, as `str::to_lowercase` computes it.
pub uninterp spec fn lower_case(s: Seq<char>) -> Seq<char>;

/// Calls `char::is_whitespace`. Claimed: it is true exactly for the 25 characters
/// with the Unicode `White_Space` property, listed in `white_space`.
#[verifier::external_body]
fn char_is_whitespace(c: char) -> (w: bool)
    ensures
        w == white_space(c),
{
    c.is_whitespace()
}

/// Calls `str::to_uppercase`. Claimed: only that the result's characters are
/// `upper_case` of the argument's, a function of the argument alone; the Unicode
/// case mapping itself is left unsaid.
#[verifier::external_body]
fn str_to_uppercase(s: &str) -> (u: String)
    ensures
        u@ == upper_case(s@),
{
    s.to_uppercase()
}

/// Calls `str::to_lowercase`. Claimed: only that the result's characters are
/// `lower_case` of the argument's, a function of the argument alone; the Unicode
/// case mapping itself is left unsaid.
#[verifier::external_body]
fn str_to_lowercase(s: &str) -> (l: String)
    ensures
        l@ == lower_case(s@),
{
    s.to_lowercase()
}

/// First index from `i` on, before `end`, whose character is not white space;
/// `end` when there is none (and `i` itself when `i >= end`).
pub open spec fn skip_space(s: Seq<char>, i: int, end: int) -> int
    decreases end - i,
{
    if i >= end {
        i
    } else if white_space(s[i]) {
        skip_space(s, i + 1, end)
    } else {
        i
    }
}

/// First index from `i` on, before `end`, whose character is white space;
/// `end` when there is none (and `i` itself when `i >= end`).
pub open spec fn skip_word(s: Seq<char>, i: int, end: int) -> int
    decreases end - i,
{
    if i >= end {
        i
    } else if white_space(s[i]) {
        i
    } else {
        skip_word(s, i + 1, end)
    }
}

/// `skip_space` moves forward over white space only, to a non-space character or `end`.
pub proof fn lemma_skip_space(s: Seq<char>, i: int, end: int)
    ensures
        i <= skip_space(s, i, end),
        i <= end ==> skip_space(s, i, end) <= end,
        skip_space(s, i, end) < end ==> !white_space(s[skip_space(s, i, end)]),
        forall|j: int| i <= j < skip_space(s, i, end) ==> white_space(s[j]),
    decreases end - i,
{
    if i < end && white_space(s[i]) {
        lemma_skip_space(s, i + 1, end);
    }
}

/// `skip_word` moves forward over non-space characters only, to a space or `end`.
pub proof fn lemma_skip_word(s: Seq<char>, i: int, end: int)
    ensures
        i <= skip_word(s, i, end),
        i <= end ==> skip_word(s, i, end) <= end,
        i < end && !white_space(s[i]) ==> i < skip_word(s, i, end),
        skip_word(s, i, end) < end ==> white_space(s[skip_word(s, i, end)]),
        forall|j: int| i <= j < skip_word(s, i, end) ==> !white_space(s[j]),
    decreases end - i,
{
    if i < end && !white_space(s[i]) {
        lemma_skip_word(s, i + 1, end);
    }
}

/// The words of `s[start..end]`: its maximal runs of characters that are not white
/// space, in order.
pub open spec fn words_in(s: Seq<char>, start: int, end: int) -> Seq<Seq<char>>
    decreases end - start,
{
    let a = skip_space(s, start, end);
    if a >= end {
        seq![]
    } else {
        let b = skip_word(s, a, end);
        proof {
            lemma_skip_space(s, start, end);
            lemma_skip_word(s, a, end);
        }
        seq![s.subrange(a, b)] + words_in(s, b, end)
    }
}

/// The topic of the sentence `s[start..end]`: none without words; otherwise its
/// first word in upper case, followed by a space and its second word in lower case
/// when it has one.
pub open spec fn sentence_topic(s: Seq<char>, start: int, end: int) -> Option<Seq<char>> {
    let words = words_in(s, start, end);
    if words.len() == 0 {
        None
    } else if words.len() == 1 {
        Some(upper_case(words[0]))
    } else {
        Some(upper_case(words[0]) + seq![' '] + lower_case(words[1]))
    }
}

/// A sentence with no character outside white space, such as one made of spaces
/// and line breaks only, has no topic.
pub proof fn lemma_blank_sentence_has_no_topic(s: Seq<char>, start: int, end: int)
    requires
        0 <= start <= end <= s.len(),
        forall|j: int| start <= j < end ==> white_space(#[trigger] s[j]),
    ensures
        sentence_topic(s, start, end) is None,
{
    lemma_skip_space(s, start, end);
    assert(words_in(s, start, end) =~= Seq::<Seq<char>>::empty());
}

/// The topics of the sentences of `s[start..]`, the sentences being the pieces
/// between `.` characters.
pub open spec fn topics_from(s: Seq<char>, start: int) -> Seq<Seq<char>>
    decreases s.len() - start,
{
    let end = find_char(s, '.', start);
    let here = match sentence_topic(s, start, end) {
        Some(topic) => seq![topic],
        None => seq![],
    };
    if 0 <= start <= end < s.len() {
        here + topics_from(s, end + 1)
    } else {
        here
    }
}

/// `skip_space` over two equal windows `s1[o1..o1 + n]` and `s2[o2..o2 + n]` stops
/// at the same offset.
proof fn lemma_skip_space_window(s1: Seq<char>, o1: int, s2: Seq<char>, o2: int, n: int, x: int)
    requires
        0 <= o1,
        o1 + n <= s1.len(),
        0 <= o2,
        o2 + n <= s2.len(),
        0 <= x <= n,
        s1.subrange(o1, o1 + n) == s2.subrange(o2, o2 + n),
    ensures
        skip_space(s1, o1 + x, o1 + n) - o1 == skip_space(s2, o2 + x, o2 + n) - o2,
    decreases n - x,
{
    if x < n {
        assert(s1.subrange(o1, o1 + n)[x] == s1[o1 + x]);
        assert(s2.subrange(o2, o2 + n)[x] == s2[o2 + x]);
        lemma_skip_space_window(s1, o1, s2, o2, n, x + 1);
        assert(o1 + x + 1 == o1 + (x + 1));
        assert(o2 + x + 1 == o2 + (x + 1));
    }
}

/// `skip_word` over two equal windows stops at the same offset.
proof fn lemma_skip_word_window(s1: Seq<char>, o1: int, s2: Seq<char>, o2: int, n: int, x: int)
    requires
        0 <= o1,
        o1 + n <= s1.len(),
        0 <= o2,
        o2 + n <= s2.len(),
        0 <= x <= n,
        s1.subrange(o1, o1 + n) == s2.subrange(o2, o2 + n),
    ensures
        skip_word(s1, o1 + x, o1 + n) - o1 == skip_word(s2, o2 + x, o2 + n) - o2,
    decreases n - x,
{
    if x < n {
        assert(s1.subrange(o1, o1 + n)[x] == s1[o1 + x]);
        assert(s2.subrange(o2, o2 + n)[x] == s2[o2 + x]);
        lemma_skip_word_window(s1, o1, s2, o2, n, x + 1);
        assert(o1 + x + 1 == o1 + (x + 1));
        assert(o2 + x + 1 == o2 + (x + 1));
    }
}

/// Two equal windows have the same words.
proof fn lemma_words_in_window(s1: Seq<char>, o1: int, s2: Seq<char>, o2: int, n: int, x: int)
    requires
        0 <= o1,
        o1 + n <= s1.len(),
        0 <= o2,
        o2 + n <= s2.len(),
        0 <= x <= n,
        s1.subrange(o1, o1 + n) == s2.subrange(o2, o2 + n),
    ensures
        words_in(s1, o1 + x, o1 + n) == words_in(s2, o2 + x, o2 + n),
    decreases n - x,
{
    lemma_skip_space_window(s1, o1, s2, o2, n, x);
    lemma_skip_space(s1, o1 + x, o1 + n);
    lemma_skip_space(s2, o2 + x, o2 + n);
    let a1 = skip_space(s1, o1 + x, o1 + n);
    let a2 = skip_space(s2, o2 + x, o2 + n);
    if a1 < o1 + n {
        let a = a1 - o1;
        assert(a1 == o1 + a && a2 == o2 + a);
        lemma_skip_word_window(s1, o1, s2, o2, n, a);
        lemma_skip_word(s1, a1, o1 + n);
        lemma_skip_word(s2, a2, o2 + n);
        let b1 = skip_word(s1, a1, o1 + n);
        let b2 = skip_word(s2, a2, o2 + n);
        let b = b1 - o1;
        assert(b1 == o1 + b && b2 == o2 + b);
        assert(s1.subrange(a1, b1) =~= s2.subrange(a2, b2)) by {
            assert forall|k: int| 0 <= k < b - a implies s1.subrange(a1, b1)[k] == s2.subrange(a2, b2)[k] by {
                assert(s1.subrange(o1, o1 + n)[a + k] == s1[o1 + a + k]);
                assert(s2.subrange(o2, o2 + n)[a + k] == s2[o2 + a + k]);
            }
        }
        lemma_words_in_window(s1, o1, s2, o2, n, b);
    }
}

/// `find_char` in `p + b`, from inside `b`, finds what it finds in `b`, shifted by `p`.
proof fn lemma_find_char_suffix(p: Seq<char>, b: Seq<char>, c: char, j: int)
    requires
        0 <= j <= b.len(),
    ensures
        find_char(p + b, c, p.len() + j) == p.len() + find_char(b, c, j),
    decreases b.len() - j,
{
    if j < b.len() {
        assert((p + b)[p.len() + j] == b[j]);
        if b[j] != c {
            lemma_find_char_suffix(p, b, c, j + 1);
            assert(p.len() + j + 1 == p.len() + (j + 1));
        }
    }
}

/// `find_char` for `.` in `a + ['.'] + b`, from inside `a`, finds what it finds in `a`
/// (the added `.` when `a` has none).
proof fn lemma_find_dot_prefix(a: Seq<char>, b: Seq<char>, i: int)
    requires
        0 <= i <= a.len(),
    ensures
        find_char(a + seq!['.'] + b, '.', i) == find_char(a, '.', i),
    decreases a.len() - i,
{
    let s = a + seq!['.'] + b;
    if i < a.len() {
        assert(s[i] == a[i]);
        if a[i] != '.' {
            lemma_find_dot_prefix(a, b, i + 1);
        }
    } else {
        assert(s[i] == '.');
    }
}

/// The topics of `(p + b)[p.len() + j..]` are those of `b[j..]`.
proof fn lemma_topics_from_suffix(p: Seq<char>, b: Seq<char>, j: int)
    requires
        0 <= j <= b.len(),
    ensures
        topics_from(p + b, p.len() + j) == topics_from(b, j),
    decreases b.len() - j,
{
    let s = p + b;
    lemma_find_char(b, '.', j);
    lemma_find_char_suffix(p, b, '.', j);
    let e = find_char(b, '.', j);
    assert(s.subrange(p.len() as int, p.len() + e) =~= b.subrange(0, e));
    lemma_words_in_window(s, p.len() as int, b, 0, e, j);
    assert(b.subrange(0, 0 + e) == b.subrange(0, e));
    assert(words_in(b, 0 + j, 0 + e) == words_in(b, j, e));
    assert(sentence_topic(s, p.len() + j, p.len() + e) == sentence_topic(b, j, e));
    if e < b.len() {
        lemma_topics_from_suffix(p, b, e + 1);
        assert(p.len() + e + 1 == p.len() + (e + 1));
    }
}

/// Topics of `(a + ['.'] + b)[i..]` for `i` inside `a`: those of `a[i..]`, then those of `b`.
proof fn lemma_topics_from_split(a: Seq<char>, b: Seq<char>, i: int)
    requires
        0 <= i <= a.len(),
    ensures
        topics_from(a + seq!['.'] + b, i) == topics_from(a, i) + topics_from(b, 0),
    decreases a.len() - i,
{
    let s = a + seq!['.'] + b;
    lemma_find_char(a, '.', i);
    lemma_find_dot_prefix(a, b, i);
    let e = find_char(a, '.', i);
    assert(s.subrange(0, 0 + e) =~= a.subrange(0, 0 + e));
    lemma_words_in_window(s, 0, a, 0, e, i);
    assert(sentence_topic(s, i, e) == sentence_topic(a, i, e));
    if e < a.len() {
        lemma_topics_from_split(a, b, e + 1);
        assert(topics_from(s, i) =~= topics_from(a, i) + topics_from(b, 0));
    } else {
        let p = a + seq!['.'];
        assert(s =~= p + b);
        lemma_topics_from_suffix(p, b, 0);
        assert(p.len() + 0 == e + 1);
        assert(topics_from(s, i) =~= topics_from(a, i) + topics_from(b, 0));
    }
}

/// Sentences are independent: the topics of `a.b` are the topics of `a` followed by
/// those of `b`. In particular a blank sentence (as between the dots of `...`)
/// contributes no topic and keeps the topics of the sentences after it.
pub proof fn lemma_sentences_independent(url: Seq<char>, a: Seq<char>, b: Seq<char>)
    ensures
        topics_from(a + seq!['.'] + b, 0) == topics_from(a, 0) + topics_from(b, 0),
        text_topics(url, a + seq!['.'] + b) == text_topics(url, a) + topics_from(b, 0),
        topics_from(seq!['.'] + b, 0) == topics_from(b, 0),
{
    lemma_topics_from_split(a, b, 0);
    lemma_topics_from_split(Seq::<char>::empty(), b, 0);
    assert(Seq::<char>::empty() + seq!['.'] + b =~= seq!['.'] + b);
    assert(words_in(Seq::<char>::empty(), 0, 0) =~= Seq::<Seq<char>>::empty());
    assert(topics_from(Seq::<char>::empty(), 0) =~= Seq::<Seq<char>>::empty());
    assert(topics_from(b, 0) =~= Seq::<Seq<char>>::empty() + topics_from(b, 0));
    assert(text_topics(url, a + seq!['.'] + b) =~= text_topics(url, a) + topics_from(b, 0));
}

/// `skip_space` stops at the first character in `[i, end)` that is not white space.
proof fn lemma_skip_space_at(s: Seq<char>, i: int, k: int, end: int)
    requires
        i <= k <= end,
        forall|j: int| i <= j < k ==> white_space(#[trigger] s[j]),
        k < end ==> !white_space(s[k]),
    ensures
        skip_space(s, i, end) == k,
    decreases k - i,
{
    if i < k {
        lemma_skip_space_at(s, i + 1, k, end);
    }
}

/// `skip_word` stops at the first white-space character in `[i, end)`.
proof fn lemma_skip_word_at(s: Seq<char>, i: int, k: int, end: int)
    requires
        i <= k <= end,
        forall|j: int| i <= j < k ==> !white_space(#[trigger] s[j]),
        k < end ==> white_space(s[k]),
    ensures
        skip_word(s, i, end) == k,
    decreases k - i,
{
    if i < k {
        lemma_skip_word_at(s, i + 1, k, end);
    }
}

/// A word: a non-empty run of characters that are neither white space nor `.`.
pub open spec fn is_word(w: Seq<char>) -> bool {
    &&& w.len() > 0
    &&& forall|j: int| 0 <= j < w.len() ==> !white_space(#[trigger] w[j]) && w[j] != '.'
}

/// A sentence that starts with a word, a space and a second word, and goes on
/// (without a `.`) with white space and anything else, has as only topic its first
/// word upper-cased, a space, and its second word lower-cased; later words do not
/// matter.
pub proof fn lemma_two_word_sentence_topic(w1: Seq<char>, w2: Seq<char>, rest: Seq<char>)
    requires
        is_word(w1),
        is_word(w2),
        !rest.contains('.'),
        rest.len() > 0 ==> white_space(rest[0]),
    ensures
        topics_from(w1 + seq![' '] + w2 + rest, 0) == seq![upper_case(w1) + seq![' '] + lower_case(w2)],
{
    let s = w1 + seq![' '] + w2 + rest;
    let n = s.len() as int;
    let m = w1.len() as int;
    let q = m + 1 + w2.len();
    assert forall|j: int| 0 <= j < n implies s[j] != '.' by {
        if j < m {
            assert(s[j] == w1[j]);
        } else if j == m {
            assert(s[j] == ' ');
        } else if j < q {
            assert(s[j] == w2[j - m - 1]);
        } else {
            assert(s[j] == rest[j - q]);
            assert(rest.contains(rest[j - q]));
        }
    }
    lemma_find_char(s, '.', 0);
    assert(find_char(s, '.', 0) == n);
    assert forall|j: int| 0 <= j < m implies !white_space(#[trigger] s[j]) by {
        assert(s[j] == w1[j]);
    }
    assert(!white_space(s[0])) by {
        assert(s[0] == w1[0]);
    }
    lemma_skip_space_at(s, 0, 0, n);
    assert(s[m] == ' ');
    lemma_skip_word_at(s, 0, m, n);
    lemma_skip_space_at(s, m, m + 1, n);
    assert(!white_space(s[m + 1])) by {
        assert(s[m + 1] == w2[0]);
    }
    assert forall|j: int| m + 1 <= j < q implies !white_space(#[trigger] s[j]) by {
        assert(s[j] == w2[j - m - 1]);
    }
    if q < n {
        assert(s[q] == rest[0]);
    }
    lemma_skip_word_at(s, m + 1, q, n);
    lemma_skip_space(s, q, n);
    lemma_skip_word(s, q, n);
    assert(s.subrange(0, m) =~= w1);
    assert(s.subrange(m + 1, q) =~= w2);
    let ws = words_in(s, 0, n);
    assert(ws == seq![w1] + words_in(s, m, n));
    assert(words_in(s, m, n) == seq![w2] + words_in(s, q, n));
    assert(ws.len() >= 2);
    assert(ws[0] == w1);
    assert(ws[1] == w2);
    assert(topics_from(s, 0) =~= seq![upper_case(w1) + seq![' '] + lower_case(w2)]);
}

/// A sentence made of one word, possibly surrounded by white space, has as only
/// topic that word upper-cased.
pub proof fn lemma_one_word_sentence_topic(before: Seq<char>, w: Seq<char>, after: Seq<char>)
    requires
        is_word(w),
        forall|j: int| 0 <= j < before.len() ==> white_space(#[trigger] before[j]),
        forall|j: int| 0 <= j < after.len() ==> white_space(#[trigger] after[j]),
    ensures
        topics_from(before + w + after, 0) == seq![upper_case(w)],
{
    let s = before + w + after;
    let n = s.len() as int;
    let a = before.len() as int;
    let b = a + w.len();
    assert forall|j: int| 0 <= j < n implies s[j] != '.' by {
        if j < a {
            assert(s[j] == before[j]);
            assert(white_space(before[j]));
        } else if j < b {
            assert(s[j] == w[j - a]);
        } else {
            assert(s[j] == after[j - b]);
            assert(white_space(after[j - b]));
        }
    }
    lemma_find_char(s, '.', 0);
    assert(find_char(s, '.', 0) == n);
    assert forall|j: int| 0 <= j < a implies white_space(#[trigger] s[j]) by {
        assert(s[j] == before[j]);
    }
    assert(s[a] == w[0]);
    lemma_skip_space_at(s, 0, a, n);
    assert forall|j: int| a <= j < b implies !white_space(#[trigger] s[j]) by {
        assert(s[j] == w[j - a]);
    }
    assert forall|j: int| b <= j < n implies white_space(#[trigger] s[j]) by {
        assert(s[j] == after[j - b]);
    }
    if b < n {
        assert(s[b] == after[0]);
    }
    lemma_skip_word_at(s, a, b, n);
    lemma_skip_space_at(s, b, n, n);
    assert(s.subrange(a, b) =~= w);
    assert(words_in(s, b, n) =~= Seq::<Seq<char>>::empty());
    assert(words_in(s, 0, n) =~= seq![w]);
    assert(topics_from(s, 0) =~= seq![upper_case(w)]);
}

/// Index of the first `://` in `u` at or after `i`, or `u.len()` when there is none.
pub open spec fn find_scheme_separator(u: Seq<char>, i: int) -> int
    decreases u.len() - i,
{
    if i + 3 > u.len() {
        u.len() as int
    } else if u[i] == ':' && u[i + 1] == '/' && u[i + 2] == '/' {
        i
    } else {
        find_scheme_separator(u, i + 1)
    }
}

proof fn lemma_find_scheme_separator(u: Seq<char>, i: int)
    requires
        0 <= i,
    ensures
        find_scheme_separator(u, i) < u.len() ==> i <= find_scheme_separator(u, i)
            && find_scheme_separator(u, i) + 3 <= u.len(),
    decreases u.len() - i,
{
    if i + 3 <= u.len() && !(u[i] == ':' && u[i + 1] == '/' && u[i + 2] == '/') {
        lemma_find_scheme_separator(u, i + 1);
    }
}

/// Where the domain of `url` starts: after the first `://`, or at the start when
/// there is none.
pub open spec fn domain_start(url: Seq<char>) -> int {
    let sep = find_scheme_separator(url, 0);
    if sep < url.len() {
        sep + 3
    } else {
        0
    }
}

/// The domain of `url`: what follows the first `://` (or the whole url when there is
/// none), up to the next `/`.
pub open spec fn domain(url: Seq<char>) -> Seq<char> {
    url.subrange(domain_start(url), find_char(url, '/', domain_start(url)))
}

/// `find_scheme_separator` lands on a `://` that no `:` precedes (from `i` on).
proof fn lemma_find_scheme_separator_at(u: Seq<char>, i: int, k: int)
    requires
        0 <= i <= k,
        k + 3 <= u.len(),
        u[k] == ':' && u[k + 1] == '/' && u[k + 2] == '/',
        forall|j: int| i <= j < k ==> u[j] != ':',
    ensures
        find_scheme_separator(u, i) == k,
    decreases k - i,
{
    if i < k {
        lemma_find_scheme_separator_at(u, i + 1, k);
    }
}

/// Without any `:` from `i` on, there is no `://` there.
proof fn lemma_find_scheme_separator_none(u: Seq<char>, i: int)
    requires
        0 <= i,
        forall|j: int| i <= j < u.len() ==> u[j] != ':',
    ensures
        find_scheme_separator(u, i) == u.len(),
    decreases u.len() - i,
{
    if i + 3 <= u.len() {
        lemma_find_scheme_separator_none(u, i + 1);
    }
}

/// The domain of `scheme://host/path` (or of `scheme://host`) is `host`, when the
/// scheme has no `:` and the host no `/`; and the domain of a url without any `:`
/// is what comes before its first `/`.
pub proof fn lemma_domain_is_host(scheme: Seq<char>, host: Seq<char>, path: Seq<char>)
    requires
        !scheme.contains(':'),
        !host.contains('/'),
        path.len() > 0 ==> path[0] == '/',
    ensures
        domain(scheme + seq![':', '/', '/'] + host + path) == host,
        !host.contains(':') && !path.contains(':') ==> domain(host + path) == host,
{
    let u = scheme + seq![':', '/', '/'] + host + path;
    let k = scheme.len() as int;
    assert forall|j: int| 0 <= j < k implies u[j] != ':' by {
        assert(u[j] == scheme[j]);
        if u[j] == ':' {
            assert(scheme.contains(scheme[j]));
        }
    }
    assert(u[k] == ':' && u[k + 1] == '/' && u[k + 2] == '/');
    lemma_find_scheme_separator_at(u, 0, k);
    let st = k + 3;
    let h = st + host.len();
    lemma_find_char(u, '/', st);
    assert forall|j: int| st <= j < h implies u[j] != '/' by {
        assert(u[j] == host[j - st]);
        if u[j] == '/' {
            assert(host.contains(host[j - st]));
        }
    }
    if h < u.len() {
        assert(u[h] == path[0]);
    }
    assert(find_char(u, '/', st) == h);
    assert(u.subrange(st, h) =~= host);

    if !host.contains(':') && !path.contains(':') {
        let v = host + path;
        assert forall|j: int| 0 <= j < v.len() implies v[j] != ':' by {
            if j < host.len() {
                assert(v[j] == host[j]);
                if v[j] == ':' {
                    assert(host.contains(host[j]));
                }
            } else {
                assert(v[j] == path[j - host.len()]);
                if v[j] == ':' {
                    assert(path.contains(path[j - host.len()]));
                }
            }
        }
        lemma_find_scheme_separator_none(v, 0);
        lemma_find_char(v, '/', 0);
        assert forall|j: int| 0 <= j < host.len() implies v[j] != '/' by {
            assert(v[j] == host[j]);
            if v[j] == '/' {
                assert(host.contains(host[j]));
            }
        }
        if host.len() < v.len() {
            assert(v[host.len() as int] == path[0]);
        }
        assert(find_char(v, '/', 0) == host.len());
        assert(v.subrange(0, host.len() as int) =~= host);
    }
}

/// All topics of a page: `FROM ` and its domain, then the topics of its sentences.
pub open spec fn text_topics(url: Seq<char>, text: Seq<char>) -> Seq<Seq<char>> {
    seq![seq!['F', 'R', 'O', 'M', ' '] + domain(url)] + topics_from(text, 0)
}

/// The strings of a list, as character sequences.
pub open spec fn strings_view(strings: Seq<String>) -> Seq<Seq<char>> {
    strings.map_values(|t: String| t@)
}

/// A topic from its first word, already upper-cased, and optionally its second word,
/// already lower-cased: the words joined by a space.
pub fn join_topic(first: String, second: Option<String>) -> (topic: String)
    ensures
        topic@ == match second {
            None => first@,
            Some(word) => first@ + seq![' '] + word@,
        },
{
    let mut topic = first;
    match second {
        None => {},
        Some(word) => {
            proof {
                reveal_strlit(" ");
            }
            topic.append(" ");
            topic.append(word.as_str());
        },
    }
    topic
}

fn skip_space_from(chars: &Vec<char>, from: usize, end: usize) -> (index: usize)
    requires
        from <= end <= chars@.len(),
    ensures
        index == skip_space(chars@, from as int, end as int),
{
    let mut i = from;
    while i < end && char_is_whitespace(chars[i])
        invariant
            from <= i <= end <= chars@.len(),
            skip_space(chars@, from as int, end as int) == skip_space(chars@, i as int, end as int),
        decreases end - i,
    {
        i = i + 1;
    }
    i
}

fn skip_word_from(chars: &Vec<char>, from: usize, end: usize) -> (index: usize)
    requires
        from <= end <= chars@.len(),
    ensures
        index == skip_word(chars@, from as int, end as int),
{
    let mut i = from;
    while i < end && !char_is_whitespace(chars[i])
        invariant
            from <= i <= end <= chars@.len(),
            skip_word(chars@, from as int, end as int) == skip_word(chars@, i as int, end as int),
        decreases end - i,
    {
        i = i + 1;
    }
    i
}

/// The topic of the sentence `text[start..end]`, whose characters are `chars`.
fn sentence_topic_of(text: &str, chars: &Vec<char>, start: usize, end: usize) -> (topic: Option<String>)
    requires
        chars@ == text@,
        start <= end <= chars@.len(),
    ensures
        match sentence_topic(chars@, start as int, end as int) {
            None => topic is None,
            Some(t) => topic matches Some(x) && x@ == t,
        },
{
    let ghost s = chars@;
    let a = skip_space_from(chars, start, end);
    proof {
        lemma_skip_space(s, start as int, end as int);
    }
    if a >= end {
        return None;
    }
    let b = skip_word_from(chars, a, end);
    proof {
        lemma_skip_word(s, a as int, end as int);
    }
    assert(words_in(s, start as int, end as int) == seq![s.subrange(a as int, b as int)]
        + words_in(s, b as int, end as int));
    let first = str_to_uppercase(text.substring_char(a, b));
    let c = skip_space_from(chars, b, end);
    proof {
        lemma_skip_space(s, b as int, end as int);
    }
    if c >= end {
        assert(words_in(s, b as int, end as int) =~= seq![]);
        assert(words_in(s, start as int, end as int) =~= seq![s.subrange(a as int, b as int)]);
        return Some(join_topic(first, None));
    }
    let d = skip_word_from(chars, c, end);
    proof {
        lemma_skip_word(s, c as int, end as int);
    }
    assert(words_in(s, b as int, end as int) == seq![s.subrange(c as int, d as int)]
        + words_in(s, d as int, end as int));
    let second = str_to_lowercase(text.substring_char(c, d));
    Some(join_topic(first, Some(second)))
}

/// `FROM ` followed by the domain of `url`.
fn domain_topic(url: &str) -> (topic: String)
    ensures
        topic@ == seq!['F', 'R', 'O', 'M', ' '] + domain(url@),
{
    let chars = chars_of(url);
    let n = chars.len();
    let mut i: usize = 0;
    while n >= 3 && i <= n - 3 && !(chars[i] == ':' && chars[i + 1] == '/' && chars[i + 2] == '/')
        invariant
            n == chars@.len(),
            chars@ == url@,
            i <= n,
            find_scheme_separator(url@, 0) == find_scheme_separator(url@, i as int),
        decreases n - i,
    {
        i = i + 1;
    }
    let sep = if n >= 3 && i <= n - 3 { i } else { n };
    assert(sep == find_scheme_separator(url@, 0));
    proof {
        lemma_find_scheme_separator(url@, 0);
    }
    let start = if sep < n { sep + 3 } else { 0 };
    let end = find_char_from(&chars, '/', start);
    proof {
        lemma_find_char(url@, '/', start as int);
    }
    let mut topic = "FROM ".to_owned();
    proof {
        reveal_strlit("FROM ");
    }
    topic.append(url.substring_char(start, end));
    assert(topic@ =~= seq!['F', 'R', 'O', 'M', ' '] + domain(url@));
    topic
}

/// Return a list containing the first 2 words of each sentence, the first word being
/// uppercase and the second lowercase.
///
/// Includes the domain name of the url (prefixed with `FROM `) at the beginning of the
/// list. Fails with `ClientProcess` when the url is empty.
pub fn get_text_topics(url: &str, text: &str) -> (topics: Result<Vec<String>, ErrorKind>)
    ensures
        url@.len() == 0 ==> topics == Err::<Vec<String>, ErrorKind>(ErrorKind::ClientProcess),
        url@.len() > 0 ==> (topics matches Ok(list) && strings_view(list@) == text_topics(url@, text@)),
{
    if url.is_empty() {
        return Err(ErrorKind::ClientProcess);
    }
    let mut topics: Vec<String> = Vec::new();
    topics.push(domain_topic(url));
    let chars = chars_of(text);
    let n = chars.len();
    let ghost s = text@;
    let mut start: usize = 0;
    assert(strings_view(topics@) =~= seq![seq!['F', 'R', 'O', 'M', ' '] + domain(url@)]);
    loop
        invariant_except_break
            start <= n,
            n == chars@.len(),
            chars@ == s,
            s == text@,
            strings_view(topics@) + topics_from(s, start as int) == text_topics(url@, s),
        ensures
            strings_view(topics@) == text_topics(url@, s),
        decreases n - start,
    {
        let end = find_char_from(&chars, '.', start);
        proof {
            lemma_find_char(s, '.', start as int);
        }
        let ghost before = strings_view(topics@);
        let ghost here = match sentence_topic(s, start as int, end as int) {
            Some(topic) => seq![topic],
            None => Seq::<Seq<char>>::empty(),
        };
        match sentence_topic_of(text, &chars, start, end) {
            Some(topic) => {
                topics.push(topic);
                assert(strings_view(topics@) =~= before + here);
            },
            None => {
                assert(strings_view(topics@) =~= before + here);
            },
        }
        if end >= n {
            assert(topics_from(s, start as int) == here);
            assert(strings_view(topics@) =~= text_topics(url@, s));
            break;
        }
        assert(topics_from(s, start as int) == here + topics_from(s, end + 1));
        assert(strings_view(topics@) + topics_from(s, end + 1) =~= text_topics(url@, s));
        start = end + 1;
    }
    Ok(topics)
}

} // verus!
