//! Character-level helpers shared by the tokenizer and the classifier:
//! extracting the characters of a string, whitespace trimming, and
//! first-occurrence search.

use vstd::prelude::*;

verus! {

/// Whitespace for the purposes of token trimming: the four common ASCII
/// whitespace characters.
pub open spec fn is_space(c: char) -> bool {
    c == ' ' || c == '\t' || c == '\n' || c == '\r'
}

/// Whether the character is a decimal digit.
pub open spec fn is_digit_char(c: char) -> bool {
    '0' <= c && c <= '9'
}

/// Whether every character of the sequence is a decimal digit.
pub open spec fn all_digits(s: Seq<char>) -> bool {
    forall|j: int| 0 <= j < s.len() ==> is_digit_char(s[j])
}

/// The sequence with leading and trailing whitespace removed.
pub open spec fn trimmed(s: Seq<char>) -> Seq<char>
    decreases s.len(),
{
    if s.len() == 0 {
        s
    } else if is_space(s[0]) {
        trimmed(s.drop_first())
    } else if is_space(s[s.len() - 1]) {
        trimmed(s.drop_last())
    } else {
        s
    }
}

/// A sequence of whitespace alone trims to the empty sequence.
pub proof fn lemma_trimmed_all_space(s: Seq<char>)
    requires
        forall|j: int| 0 <= j < s.len() ==> is_space(s[j]),
    ensures
        trimmed(s) == Seq::<char>::empty(),
    decreases s.len(),
{
    if s.len() == 0 {
        assert(trimmed(s) =~= Seq::<char>::empty());
    } else {
        lemma_trimmed_all_space(s.drop_first());
    }
}

/// Trimming removes exactly the whitespace prefix and suffix: if the
/// characters before `a` and from `b` on are whitespace, and the characters
/// at `a` and `b - 1` are not, the trimmed sequence is the slice `[a, b)`.
pub proof fn lemma_trimmed_is_subrange(s: Seq<char>, a: int, b: int)
    requires
        0 <= a <= b <= s.len(),
        forall|j: int| 0 <= j < a ==> is_space(s[j]),
        forall|j: int| b <= j < s.len() ==> is_space(s[j]),
        a < b ==> !is_space(s[a]),
        a < b ==> !is_space(s[b - 1]),
    ensures
        trimmed(s) == s.subrange(a, b),
    decreases s.len(),
{
    if a == b {
        lemma_trimmed_all_space(s);
        assert(trimmed(s) =~= s.subrange(a, b));
    } else if s.len() == 0 {
        assert(trimmed(s) =~= s.subrange(a, b));
    } else if is_space(s[0]) {
        lemma_trimmed_is_subrange(s.drop_first(), a - 1, b - 1);
        assert(s.drop_first().subrange(a - 1, b - 1) =~= s.subrange(a, b));
    } else if is_space(s[s.len() - 1]) {
        lemma_trimmed_is_subrange(s.drop_last(), a, b);
        assert(s.drop_last().subrange(a, b) =~= s.subrange(a, b));
    } else {
        assert(a == 0 && b == s.len());
        assert(trimmed(s) =~= s.subrange(a, b));
    }
}

/// The index of the first character satisfying `p`, or the length of the
/// sequence if there is none.
pub open spec fn find_first(s: Seq<char>, p: spec_fn(char) -> bool) -> int
    decreases s.len(),
{
    if s.len() == 0 {
        0
    } else if p(s[0]) {
        0
    } else {
        1 + find_first(s.drop_first(), p)
    }
}

/// `find_first` returns the unique index with no match before it and a
/// match at it (or the length, when nothing matches).
pub proof fn lemma_find_first_at(s: Seq<char>, p: spec_fn(char) -> bool, i: int)
    requires
        0 <= i <= s.len(),
        forall|j: int| 0 <= j < i ==> !p(s[j]),
        i < s.len() ==> p(s[i]),
    ensures
        find_first(s, p) == i,
    decreases s.len(),
{
    if s.len() == 0 {
    } else if p(s[0]) {
    } else {
        lemma_find_first_at(s.drop_first(), p, i - 1);
    }
}

/// The characters of a string, in order, as a vector.
pub fn chars_of(s: &str) -> (v: Vec<char>)
    ensures
        v@ == s@,
{
    let n = s.unicode_len();
    let mut v: Vec<char> = Vec::new();
    let mut i: usize = 0;
    while i < n
        invariant
            n == s@.len(),
            i <= n,
            v@ == s@.subrange(0, i as int),
        decreases n - i,
    {
        v.push(s.get_char(i));
        i = i + 1;
        assert(v@ =~= s@.subrange(0, i as int));
    }
    assert(v@ =~= s@);
    v
}

} // verus!
