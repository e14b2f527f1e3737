//! The mathematical model of the search: how a text splits into lines, what it
//! means for one character sequence to contain another as a substring, and
//! ASCII lowercasing, together with the lemmas the matcher's proofs rest on.

use vstd::prelude::*;

verus! {

/// ASCII lowercasing of a single character: `'A'..='Z'` map to `'a'..='z'`,
/// every other character is unchanged.
pub open spec fn lower_char(c: char) -> char {
    if 65 <= c as u32 && c as u32 <= 90 {
        ((c as u32 + 32) as u8) as char
    } else {
        c
    }
}

/// Character-wise ASCII lowercasing of a sequence.
pub open spec fn lower_chars(s: Seq<char>) -> Seq<char> {
    Seq::new(s.len(), |i: int| lower_char(s[i]))
}

/// `needle` occurs in `hay` starting exactly at position `i`.
pub open spec fn contains_at(hay: Seq<char>, needle: Seq<char>, i: int) -> bool {
    &&& 0 <= i
    &&& i + needle.len() <= hay.len()
    &&& hay.subrange(i, i + needle.len() as int) == needle
}

/// `needle` occurs somewhere in `hay` (standard substring semantics: the empty
/// sequence occurs in every sequence, at position 0).
pub open spec fn contains_substring(hay: Seq<char>, needle: Seq<char>) -> bool {
    exists|i: int| contains_at(hay, needle, i)
}

/// Lowercasing both sides preserves substring containment: a case-sensitive
/// occurrence is in particular a case-insensitive one.
pub proof fn lemma_contains_lower(hay: Seq<char>, needle: Seq<char>)
    requires
        contains_substring(hay, needle),
    ensures
        contains_substring(lower_chars(hay), lower_chars(needle)),
{
    let i: int = choose|i: int| contains_at(hay, needle, i);
    let lh = lower_chars(hay);
    let ln = lower_chars(needle);
    assert forall|k: int| 0 <= k < ln.len() implies lh.subrange(i, i + ln.len() as int)[k]
        == ln[k] by {
        assert(hay.subrange(i, i + needle.len() as int)[k] == needle[k]);
        assert(hay[i + k] == needle[k]);
    }
    assert(lh.subrange(i, i + ln.len() as int) =~= ln);
    assert(contains_at(lh, ln, i));
}

/// Position of the first newline in `s`, or `s.len()` if `s` has none.
pub open spec fn first_newline_index(s: Seq<char>) -> nat
    decreases s.len(),
{
    if s.len() == 0 {
        0
    } else if s[0] == '\n' {
        0
    } else {
        1 + first_newline_index(s.subrange(1, s.len() as int))
    }
}

/// `first_newline_index` is what its name says: it stays within bounds, it
/// points at a newline whenever one exists, and nothing before it is one.
pub proof fn lemma_first_newline_index(s: Seq<char>)
    ensures
        first_newline_index(s) <= s.len(),
        first_newline_index(s) < s.len() ==> s[first_newline_index(s) as int] == '\n',
        forall|j: int| 0 <= j < first_newline_index(s) ==> s[j] != '\n',
    decreases s.len(),
{
    if s.len() != 0 && s[0] != '\n' {
        let t = s.subrange(1, s.len() as int);
        lemma_first_newline_index(t);
        assert forall|j: int| 0 <= j < first_newline_index(s) implies s[j] != '\n' by {
            if j >= 1 {
                assert(s[j] == t[j - 1]);
            }
        }
    }
}

/// How `lines_spec` unfolds once the position `k` of the first newline of `s`
/// is known (`k == s.len()` meaning `s` has no newline).
pub proof fn lemma_lines_spec_step(s: Seq<char>, k: int)
    requires
        0 <= k <= s.len(),
        forall|j: int| 0 <= j < k ==> s[j] != '\n',
        k < s.len() ==> s[k] == '\n',
    ensures
        k < s.len() ==> lines_spec(s) == seq![s.subrange(0, k)] + lines_spec(
            s.subrange(k + 1, s.len() as int),
        ),
        k == s.len() && s.len() > 0 ==> lines_spec(s) == seq![s],
        s.len() == 0 ==> lines_spec(s) == Seq::<Seq<char>>::empty(),
{
    lemma_first_newline_index(s);
    let f: int = first_newline_index(s) as int;
    if s.len() > 0 {
        if f < k {
            assert(s[f] != '\n');
        }
        if k < f {
            assert(s[k] != '\n');
        }
        assert(f == k);
    }
}

/// The lines of a text: maximal runs of characters between newline separators,
/// the separators excluded; an empty segment after a final trailing newline is
/// not a line, so the empty text has no lines.
pub open spec fn lines_spec(s: Seq<char>) -> Seq<Seq<char>>
    decreases s.len(),
{
    if s.len() == 0 {
        Seq::empty()
    } else {
        let i = first_newline_index(s) as int;
        if i >= s.len() {
            seq![s]
        } else {
            seq![s.subrange(0, i)] + lines_spec(s.subrange(i + 1, s.len() as int))
        }
    }
}

} // verus!
