//! Textual first-occurrence replacement on strings, over their characters.

use vstd::prelude::*;
use vstd::string::*;

verus! {

/// `pat` stands in `text` at index `i`.
pub open spec fn occurs_at(text: Seq<char>, pat: Seq<char>, i: int) -> bool {
    &&& 0 <= i
    &&& i + pat.len() <= text.len()
    &&& text.subrange(i, i + pat.len()) == pat
}

/// `pat` stands somewhere in `text`.
pub open spec fn occurs(text: Seq<char>, pat: Seq<char>) -> bool {
    exists|i: int| occurs_at(text, pat, i)
}

/// `i` is the leftmost index at which `pat` stands in `text`.
pub open spec fn is_first_occurrence(text: Seq<char>, pat: Seq<char>, i: int) -> bool {
    &&& occurs_at(text, pat, i)
    &&& forall|j: int| 0 <= j < i ==> !occurs_at(text, pat, j)
}

/// The leftmost index at which `pat` stands in `text`, if it stands anywhere.
pub open spec fn first_occurrence(text: Seq<char>, pat: Seq<char>) -> Option<int> {
    if occurs(text, pat) {
        Some(choose|i: int| is_first_occurrence(text, pat, i))
    } else {
        None
    }
}

/// `text` with the `len` characters from index `i` on replaced by `with`.
pub open spec fn splice(text: Seq<char>, i: int, len: int, with: Seq<char>) -> Seq<char> {
    text.subrange(0, i) + with + text.subrange(i + len, text.len() as int)
}

/// `text` with the leftmost occurrence of `pat` replaced by `with`; `text`
/// itself where `pat` does not occur.
pub open spec fn replace_first(text: Seq<char>, pat: Seq<char>, with: Seq<char>) -> Seq<char> {
    match first_occurrence(text, pat) {
        Some(i) => splice(text, i, pat.len() as int, with),
        None => text,
    }
}

/// Two leftmost occurrences are the same index.
pub proof fn lemma_first_occurrence_unique(text: Seq<char>, pat: Seq<char>, i: int, j: int)
    requires
        is_first_occurrence(text, pat, i),
        is_first_occurrence(text, pat, j),
    ensures
        i == j,
{
}

/// A pattern that occurs has a leftmost occurrence, at or before any index
/// where it stands.
pub proof fn lemma_occurrence_has_first(text: Seq<char>, pat: Seq<char>, i: int)
    requires
        occurs_at(text, pat, i),
    ensures
        exists|k: int| 0 <= k <= i && is_first_occurrence(text, pat, k),
    decreases i,
{
    if exists|j: int| 0 <= j < i && occurs_at(text, pat, j) {
        let j = choose|j: int| 0 <= j < i && occurs_at(text, pat, j);
        lemma_occurrence_has_first(text, pat, j);
    } else {
        assert(is_first_occurrence(text, pat, i));
    }
}

/// `first_occurrence` is `Some(i)` exactly for the leftmost occurrence `i`.
pub proof fn lemma_first_occurrence_is(text: Seq<char>, pat: Seq<char>, i: int)
    requires
        is_first_occurrence(text, pat, i),
    ensures
        first_occurrence(text, pat) == Some(i),
{
    assert(occurs_at(text, pat, i));
    let k = choose|k: int| is_first_occurrence(text, pat, k);
    lemma_first_occurrence_unique(text, pat, i, k);
}

/// Where `pat` occurs, `first_occurrence` names its leftmost occurrence.
pub proof fn lemma_first_occurrence_some(text: Seq<char>, pat: Seq<char>)
    requires
        occurs(text, pat),
    ensures
        first_occurrence(text, pat) is Some,
        is_first_occurrence(text, pat, first_occurrence(text, pat)->0),
{
    let i = choose|i: int| occurs_at(text, pat, i);
    lemma_occurrence_has_first(text, pat, i);
}

/// Replacing a pattern that does not occur leaves the text as it is.
pub proof fn lemma_replace_absent(text: Seq<char>, pat: Seq<char>, with: Seq<char>)
    requires
        !occurs(text, pat),
    ensures
        replace_first(text, pat, with) == text,
{
}

/// Replacing a pattern whose leftmost occurrence is at `i` keeps what stands
/// before `i` and what follows the occurrence, with `with` between them.
pub proof fn lemma_replace_at(text: Seq<char>, pat: Seq<char>, with: Seq<char>, i: int)
    requires
        is_first_occurrence(text, pat, i),
    ensures
        replace_first(text, pat, with) == text.subrange(0, i) + with + text.subrange(
            i + pat.len(),
            text.len() as int,
        ),
{
    lemma_first_occurrence_is(text, pat, i);
}

/// Only the leftmost occurrence is replaced: what follows it comes out
/// unchanged, further occurrences included.
pub proof fn lemma_replace_keeps_rest(text: Seq<char>, pat: Seq<char>, with: Seq<char>, i: int)
    requires
        is_first_occurrence(text, pat, i),
    ensures
        replace_first(text, pat, with).len() == text.len() - pat.len() + with.len(),
        replace_first(text, pat, with).subrange(0, i) == text.subrange(0, i),
        replace_first(text, pat, with).subrange(i, i + with.len()) == with,
        replace_first(text, pat, with).subrange(
            i + with.len(),
            text.len() - pat.len() + with.len(),
        ) == text.subrange(i + pat.len(), text.len() as int),
{
    lemma_replace_at(text, pat, with, i);
    let out = replace_first(text, pat, with);
    assert(out.subrange(0, i) =~= text.subrange(0, i));
    assert(out.subrange(i, i + with.len()) =~= with);
    assert(out.subrange(i + with.len(), text.len() - pat.len() + with.len()) =~= text.subrange(
        i + pat.len(),
        text.len() as int,
    ));
}

/// The characters of `s`, in order.
pub fn chars_of(s: &str) -> (v: Vec<char>)
    ensures
        v@ == s@,
{
    let mut v: Vec<char> = Vec::new();
    for c in it: s.chars()
        invariant
            it.seq() == s@,
            v@ == s@.subrange(0, it.index() as int),
    {
        v.push(c);
    }
    v
}

/// Whether `pat` stands in `text` at index `i`.
pub fn matches_at(text: &Vec<char>, pat: &Vec<char>, i: usize) -> (b: bool)
    requires
        i + pat@.len() <= text@.len(),
    ensures
        b == occurs_at(text@, pat@, i as int),
{
    let n: usize = text.len();
    let m: usize = pat.len();
    let mut k: usize = 0;
    while k < m
        invariant
            n == text@.len(),
            m == pat@.len(),
            k <= m,
            i + m <= n,
            forall|j: int| 0 <= j < k ==> text@[i + j] == pat@[j],
        decreases m - k,
    {
        if text[i + k] != pat[k] {
            proof {
                assert(text@.subrange(i as int, i + m)[k as int] == text@[i + k]);
            }
            return false;
        }
        k = k + 1;
    }
    proof {
        assert(text@.subrange(i as int, i + m) =~= pat@);
    }
    true
}

/// The leftmost index at which `pat` stands in `text`.
pub fn find_first(text: &Vec<char>, pat: &Vec<char>) -> (found: Option<usize>)
    ensures
        match found {
            Some(i) => first_occurrence(text@, pat@) == Some(i as int),
            None => first_occurrence(text@, pat@) is None,
        },
        found matches Some(i) ==> is_first_occurrence(text@, pat@, i as int),
{
    let n: usize = text.len();
    let m: usize = pat.len();
    if m > n {
        return None;
    }
    let last: usize = n - m;
    let mut i: usize = 0;
    loop
        invariant
            n == text@.len(),
            m == pat@.len(),
            last == n - m,
            i <= last,
            forall|j: int| 0 <= j < i ==> !occurs_at(text@, pat@, j),
        decreases last - i,
    {
        if matches_at(text, pat, i) {
            proof {
                lemma_first_occurrence_is(text@, pat@, i as int);
            }
            return Some(i);
        }
        if i == last {
            return None;
        }
        i = i + 1;
    }
}

/// `text` with the leftmost occurrence of `pat` replaced by `with`, and
/// `text` unchanged where `pat` does not occur in it.
pub fn replace_first_in(text: &str, pat: &str, with: &str) -> (out: String)
    ensures
        out@ == replace_first(text@, pat@, with@),
{
    let text_chars = chars_of(text);
    let pat_chars = chars_of(pat);
    let n: usize = text_chars.len();
    let m: usize = pat_chars.len();
    match find_first(&text_chars, &pat_chars) {
        Some(i) => {
            let mut out = String::from_str(text.substring_char(0, i));
            out.append(with);
            out.append(text.substring_char(i + m, n));
            out
        },
        None => String::from_str(text),
    }
}

} // verus!
