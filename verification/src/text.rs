//! Character-level helpers over string views.
use vstd::prelude::*;

verus! {

broadcast use vstd::string::group_string_axioms;

/// Index of the first `c` in `s` at or after `i`, or `s.len()` when there is none.
pub open spec fn find_char(s: Seq<char>, c: char, i: int) -> int
    recommends
        0 <= i,
    decreases s.len() - i,
{
    if i >= s.len() {
        s.len() as int
    } else if s[i] == c {
        i
    } else {
        find_char(s, c, i + 1)
    }
}

/// `find_char` lands on the first `c` at or after `i`, or on the end.
pub proof fn lemma_find_char(s: Seq<char>, c: char, i: int)
    requires
        0 <= i <= s.len(),
    ensures
        i <= find_char(s, c, i) <= s.len(),
        find_char(s, c, i) < s.len() ==> s[find_char(s, c, i)] == c,
        forall|j: int| i <= j < find_char(s, c, i) ==> s[j] != c,
    decreases s.len() - i,
{
    if i < s.len() && s[i] != c {
        lemma_find_char(s, c, i + 1);
    }
}

/// The characters of `s`, in order.
pub fn chars_of(s: &str) -> (chars: Vec<char>)
    ensures
        chars@ == s@,
{
    let mut chars: Vec<char> = Vec::new();
    for c in it: s.chars()
        invariant
            chars@ == it.seq().take(it.index() as int),
    {
        chars.push(c);
    }
    chars
}

/// Index of the first `c` in `chars` at or after `from`, or `chars.len()` when there is none.
pub fn find_char_from(chars: &Vec<char>, c: char, from: usize) -> (index: usize)
    requires
        from <= chars@.len(),
    ensures
        index == find_char(chars@, c, from as int),
{
    let mut i = from;
    while i < chars.len() && chars[i] != c
        invariant
            from <= i <= chars@.len(),
            find_char(chars@, c, from as int) == find_char(chars@, c, i as int),
        decreases chars@.len() - i,
    {
        i = i + 1;
    }
    i
}

} // verus!
