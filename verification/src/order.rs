//! The order of the catalogue: entries stand by season year, latest first,
//! and entries of one year keep the order in which they came.

use std::cmp::Ordering;
use vstd::prelude::*;
use crate::model::{Anime, AnimeModel};

verus! {

/// The test for entries of one year.
pub open spec fn has_year(year: int) -> spec_fn(AnimeModel) -> bool {
    |entry: AnimeModel| entry.year_or_zero() == year
}

/// The entries of one year, in the order in which they stand.
pub open spec fn with_year(entries: Seq<AnimeModel>, year: int) -> Seq<AnimeModel> {
    entries.filter(has_year(year))
}

/// No entry stands before an entry of a later year.
pub open spec fn years_descending(entries: Seq<AnimeModel>) -> bool {
    forall|i: int, j: int|
        0 <= i < j < entries.len() ==> entries[i].year_or_zero() >= entries[j].year_or_zero()
}

/// `sorted` holds the entries of `source` by descending year, and the
/// entries of each year in the order that they have in `source`.
pub open spec fn is_stable_year_order(sorted: Seq<AnimeModel>, source: Seq<AnimeModel>) -> bool {
    &&& years_descending(sorted)
    &&& forall|year: int| #[trigger] with_year(sorted, year) == with_year(source, year)
}

/// Where `a` stands relative to `b` in the catalogue: before it when its
/// year is later, after it when its year is earlier.
pub fn year_order(a: &Anime, b: &Anime) -> (order: Ordering)
    ensures
        order == (if a@.year_or_zero() > b@.year_or_zero() {
            Ordering::Less
        } else if a@.year_or_zero() < b@.year_or_zero() {
            Ordering::Greater
        } else {
            Ordering::Equal
        }),
{
    let x = a.anime_season.year_or_zero();
    let y = b.anime_season.year_or_zero();
    if x > y {
        Ordering::Less
    } else if x < y {
        Ordering::Greater
    } else {
        Ordering::Equal
    }
}

/// Trusted: `sort_by` of the standard library's slices, with `year_order` as
/// the comparison.  The sort is stable: afterwards the entries stand by
/// descending year, and those of one year stand as they stood before.
#[verifier::external_body]
pub(crate) fn sort_by_year(entries: &mut Vec<Anime>)
    ensures
        is_stable_year_order(final(entries).deep_view(), old(entries).deep_view()),
{
    entries.sort_by(|a, b| year_order(a, b));
}

/// An entry stands in the ordered sequence exactly when it stands in the
/// source.
pub proof fn lemma_same_members(sorted: Seq<AnimeModel>, source: Seq<AnimeModel>)
    requires
        is_stable_year_order(sorted, source),
    ensures
        forall|entry: AnimeModel| sorted.contains(entry) <==> source.contains(entry),
{
    assert forall|entry: AnimeModel| sorted.contains(entry) implies source.contains(entry) by {
        lemma_member_of_year(sorted, entry);
        assert(with_year(sorted, entry.year_or_zero()) == with_year(source, entry.year_or_zero()));
        source.lemma_filter_contains_rev(has_year(entry.year_or_zero()), entry);
    }
    assert forall|entry: AnimeModel| source.contains(entry) implies sorted.contains(entry) by {
        lemma_member_of_year(source, entry);
        assert(with_year(sorted, entry.year_or_zero()) == with_year(source, entry.year_or_zero()));
        sorted.lemma_filter_contains_rev(has_year(entry.year_or_zero()), entry);
    }
}

/// An entry of a sequence stands among the entries of its year.
pub proof fn lemma_member_of_year(entries: Seq<AnimeModel>, entry: AnimeModel)
    requires
        entries.contains(entry),
    ensures
        with_year(entries, entry.year_or_zero()).contains(entry),
{
    let i = choose|i: int| 0 <= i < entries.len() && entries[i] == entry;
    assert(has_year(entry.year_or_zero())(entries[i]));
    entries.lemma_filter_contains(has_year(entry.year_or_zero()), i);
}

/// The entries of one year, when the last entry of the sequence is set aside.
proof fn lemma_with_year_drop_last(entries: Seq<AnimeModel>, year: int)
    requires
        entries.len() > 0,
    ensures
        with_year(entries, year) == if entries.last().year_or_zero() == year {
            with_year(entries.drop_last(), year).push(entries.last())
        } else {
            with_year(entries.drop_last(), year)
        },
{
    assert(entries.drop_last().push(entries.last()) =~= entries);
    entries.drop_last().lemma_filter_push(entries.last(), has_year(year));
}

/// The stable order by year is determined: two sequences in descending order
/// of years, with the same entries of each year in the same order, are one
/// and the same sequence.
pub proof fn lemma_stable_year_order_unique(a: Seq<AnimeModel>, b: Seq<AnimeModel>)
    requires
        years_descending(a),
        years_descending(b),
        forall|year: int| #[trigger] with_year(a, year) == with_year(b, year),
    ensures
        a == b,
    decreases a.len(),
{
    if a.len() == 0 {
        if b.len() > 0 {
            assert(b.contains(b[0]));
            lemma_member_of_year(b, b[0]);
            a.lemma_filter_len(has_year(b[0].year_or_zero()));
            assert(with_year(a, b[0].year_or_zero()) == with_year(b, b[0].year_or_zero()));
        }
        assert(a =~= b);
    } else {
        let x = a.last();
        let y0 = x.year_or_zero();
        assert(a.contains(x));
        lemma_member_of_year(a, x);
        assert(with_year(a, y0) == with_year(b, y0));
        b.lemma_filter_len(has_year(y0));
        assert(b.len() > 0);
        let z = b.last();
        let y1 = z.year_or_zero();
        assert(b.contains(z));
        lemma_member_of_year(b, z);
        assert(with_year(a, y1) == with_year(b, y1));
        a.lemma_filter_contains_rev(has_year(y1), z);
        b.lemma_filter_contains_rev(has_year(y0), x);
        let i = choose|i: int| 0 <= i < a.len() && a[i] == z;
        let j = choose|j: int| 0 <= j < b.len() && b[j] == x;
        assert(y1 >= y0) by {
            if i < a.len() - 1 {
                assert(a[i].year_or_zero() >= a[a.len() - 1].year_or_zero());
            }
        }
        assert(y0 >= y1) by {
            if j < b.len() - 1 {
                assert(b[j].year_or_zero() >= b[b.len() - 1].year_or_zero());
            }
        }
        lemma_with_year_drop_last(a, y0);
        lemma_with_year_drop_last(b, y0);
        let pa = with_year(a.drop_last(), y0);
        let pb = with_year(b.drop_last(), y0);
        assert(pa.push(x) == pb.push(z));
        assert(x == z) by {
            assert(pa.push(x).last() == x);
            assert(pb.push(z).last() == z);
        }
        assert(pa == pb) by {
            assert(pa.push(x).drop_last() =~= pa);
            assert(pb.push(z).drop_last() =~= pb);
        }
        assert forall|year: int| #[trigger]
            with_year(a.drop_last(), year) == with_year(b.drop_last(), year) by {
            lemma_with_year_drop_last(a, year);
            lemma_with_year_drop_last(b, year);
            assert(with_year(a, year) == with_year(b, year));
        }
        assert(years_descending(a.drop_last()));
        assert(years_descending(b.drop_last()));
        lemma_stable_year_order_unique(a.drop_last(), b.drop_last());
        assert(a =~= a.drop_last().push(x));
        assert(b =~= b.drop_last().push(z));
    }
}

} // verus!
