//! Text operations the catalogue relies on: lowercasing, substring search and
//! the ordering of tags.

use vstd::prelude::*;

verus! {

/// The lowercase form of a text, as `str::to_lowercase` computes it from the
/// Unicode case tables.  The tables are not restated here; the function is
/// only known by name.
pub uninterp spec fn lowercase(s: Seq<char>) -> Seq<char>;

/// `needle` occurs in `hay` starting at position `at`.
pub open spec fn occurs_at(hay: Seq<char>, needle: Seq<char>, at: int) -> bool {
    &&& 0 <= at
    &&& at + needle.len() <= hay.len()
    &&& hay.subrange(at, at + needle.len()) == needle
}

/// `needle` occurs somewhere in `hay` as a contiguous run of characters.
pub open spec fn contains_text(hay: Seq<char>, needle: Seq<char>) -> bool {
    exists|at: int| occurs_at(hay, needle, at)
}

/// `a` comes strictly before `b` when both are compared character by
/// character, a proper prefix coming first.
pub open spec fn text_lt(a: Seq<char>, b: Seq<char>) -> bool
    decreases a.len(),
{
    if b.len() == 0 {
        false
    } else if a.len() == 0 {
        true
    } else if a[0] != b[0] {
        (a[0] as u32) < (b[0] as u32)
    } else {
        text_lt(a.drop_first(), b.drop_first())
    }
}

/// `a` comes before `b` or equals it.
pub open spec fn text_le(a: Seq<char>, b: Seq<char>) -> bool {
    a == b || text_lt(a, b)
}

/// The texts stand in ascending order; equal neighbours are allowed.
pub open spec fn ascending(texts: Seq<Seq<char>>) -> bool {
    forall|i: int, j: int| 0 <= i < j < texts.len() ==> text_le(texts[i], texts[j])
}

/// Every text stands strictly before the texts that follow it.
pub open spec fn strictly_ascending(texts: Seq<Seq<char>>) -> bool {
    forall|i: int, j: int| 0 <= i < j < texts.len() ==> text_lt(texts[i], texts[j])
}

/// Trusted: `str::to_lowercase` of the standard library.  The result is the
/// lowercase form of the argument and depends on nothing else.
#[verifier::external_body]
pub(crate) fn to_lowercase(s: &str) -> (lowered: String)
    ensures
        lowered@ == lowercase(s@),
{
    s.to_lowercase()
}

/// Trusted: `str::contains` of the standard library with a string pattern.
/// It answers whether the pattern occurs in the text as a contiguous run;
/// matching is exact, so case matters.
#[verifier::external_body]
pub(crate) fn str_contains(hay: &str, needle: &str) -> (found: bool)
    ensures
        found == contains_text(hay@, needle@),
{
    hay.contains(needle)
}

/// Trusted: `sort` of the standard library's slices, on strings.  Strings
/// compare character by character, so afterwards the texts stand in
/// ascending order; each text is there as often as it was before.
#[verifier::external_body]
pub(crate) fn sort_texts(texts: &mut Vec<String>)
    ensures
        ascending(final(texts).deep_view()),
        final(texts).deep_view().to_multiset() == old(texts).deep_view().to_multiset(),
{
    texts.sort();
}

/// Of two texts at most one stands before the other.
pub proof fn lemma_text_lt_asymmetric(a: Seq<char>, b: Seq<char>)
    ensures
        !(text_lt(a, b) && text_lt(b, a)),
    decreases a.len(),
{
    if a.len() > 0 && b.len() > 0 && a[0] == b[0] {
        lemma_text_lt_asymmetric(a.drop_first(), b.drop_first());
    }
}

/// Texts in strictly ascending order are all different.
pub proof fn lemma_strictly_ascending_distinct(texts: Seq<Seq<char>>)
    requires
        strictly_ascending(texts),
    ensures
        texts.no_duplicates(),
{
    assert forall|i: int, j: int| 0 <= i < texts.len() && 0 <= j < texts.len() && i != j implies texts[i]
        != texts[j] by {
        lemma_text_lt_asymmetric(texts[i], texts[j]);
    }
}

} // verus!
