//! Cutting one page out of a sequence.
//!
//! Pages are numbered from 1.  A page lies past the first
//! `(page - 1) * items` elements and holds up to `items` of them; where the
//! sequence ends earlier the page is shorter, or empty.

use vstd::prelude::*;
use crate::error::SearchError;

verus! {

/// The smaller of two integers.
pub open spec fn least(a: int, b: int) -> int {
    if a <= b {
        a
    } else {
        b
    }
}

/// Where the page begins in a sequence of `len` elements.
pub open spec fn page_start(len: int, page: int, items: int) -> int {
    least((page - 1) * items, len)
}

/// Where the page ends in a sequence of `len` elements.
pub open spec fn page_end(len: int, page: int, items: int) -> int {
    least(page_start(len, page, items) + items, len)
}

/// The page itself: what is left after skipping `(page - 1) * items`
/// elements, cut down to `items` elements.
pub open spec fn page_of<T>(s: Seq<T>, page: int, items: int) -> Seq<T>
    recommends
        page >= 1,
        items >= 1,
{
    s.subrange(page_start(s.len() as int, page, items), page_end(s.len() as int, page, items))
}

/// The page, or the refusal of a page number or a page size below one.
pub open spec fn page_or_error<T>(s: Seq<T>, page: int, items: int) -> Result<Seq<T>, SearchError> {
    if page < 1 || items < 1 {
        Err(SearchError::InvalidPagination)
    } else {
        Ok(page_of(s, page, items))
    }
}

/// Computes the half-open range of positions that a page covers.  A page
/// number or a page size of zero is refused.
pub fn page_bounds(len: usize, page: usize, items: usize) -> (r: Result<(usize, usize), SearchError>)
    ensures
        match r {
            Ok((start, end)) => {
                &&& page >= 1
                &&& items >= 1
                &&& start == page_start(len as int, page as int, items as int)
                &&& end == page_end(len as int, page as int, items as int)
                &&& start <= end <= len
            },
            Err(e) => e == SearchError::InvalidPagination && (page < 1 || items < 1),
        },
{
    if page < 1 || items < 1 {
        return Err(SearchError::InvalidPagination);
    }
    assert(0 <= (page - 1) * items) by (nonlinear_arith)
        requires
            page >= 1,
            items >= 1,
    ;
    let start = match (page - 1).checked_mul(items) {
        Some(skip) => if skip < len {
            skip
        } else {
            len
        },
        None => len,
    };
    let end = if items < len - start {
        start + items
    } else {
        len
    };
    Ok((start, end))
}

/// Keeps the elements of one page and drops the others.
pub fn paginate<T>(seq: Vec<T>, page: usize, items: usize) -> (r: Result<Vec<T>, SearchError>)
    ensures
        match r {
            Ok(v) => page >= 1 && items >= 1 && v@ == page_of(seq@, page as int, items as int),
            Err(e) => e == SearchError::InvalidPagination && (page < 1 || items < 1),
        },
{
    match page_bounds(seq.len(), page, items) {
        Ok((start, end)) => {
            let mut rest = seq;
            rest.truncate(end);
            let kept = rest.split_off(start);
            Ok(kept)
        },
        Err(e) => Err(e),
    }
}

/// A page holds `items` elements, or as many as are left past the pages
/// before it.
pub proof fn lemma_page_len<T>(s: Seq<T>, page: int, items: int)
    requires
        page >= 1,
        items >= 1,
    ensures
        page_of(s, page, items).len() == least(
            items,
            if s.len() - (page - 1) * items >= 0 {
                s.len() - (page - 1) * items
            } else {
                0
            },
        ),
{
    assert(0 <= (page - 1) * items) by (nonlinear_arith)
        requires
            page >= 1,
            items >= 1,
    ;
}

/// The first page holds the first `items` elements, or the whole sequence
/// where it is shorter.
pub proof fn lemma_first_page<T>(s: Seq<T>, items: int)
    requires
        items >= 1,
    ensures
        page_of(s, 1, items) == s.subrange(0, least(items, s.len() as int)),
{
}

/// A page that lies within the first elements of a sequence can be cut from
/// those elements alone.
pub proof fn lemma_page_of_prefix<T>(prefix: Seq<T>, whole: Seq<T>, page: int, items: int)
    requires
        page >= 1,
        items >= 1,
        prefix.len() <= whole.len(),
        prefix == whole.subrange(0, prefix.len() as int),
        prefix.len() >= page * items,
    ensures
        page_of(prefix, page, items) == page_of(whole, page, items),
{
    assert((page - 1) * items + items == page * items) by (nonlinear_arith);
    assert(0 <= (page - 1) * items) by (nonlinear_arith)
        requires
            page >= 1,
            items >= 1,
    ;
}

/// What passes a test among the first elements of a sequence stands first
/// among what passes it in the whole sequence.
pub proof fn lemma_filter_of_prefix<T>(s: Seq<T>, test: spec_fn(T) -> bool, n: int)
    requires
        0 <= n <= s.len(),
    ensures
        s.take(n).filter(test).len() <= s.filter(test).len(),
        s.take(n).filter(test) == s.filter(test).subrange(0, s.take(n).filter(test).len() as int),
{
    assert(s =~= s.take(n) + s.skip(n));
    Seq::filter_distributes_over_add(s.take(n), s.skip(n), test);
    assert(s.take(n).filter(test) =~= (s.take(n).filter(test) + s.skip(n).filter(test)).subrange(
        0,
        s.take(n).filter(test).len() as int,
    ));
}

/// A page that begins at or past the end of the sequence is empty.
pub proof fn lemma_page_past_end<T>(s: Seq<T>, page: int, items: int)
    requires
        page >= 1,
        items >= 1,
        (page - 1) * items >= s.len(),
    ensures
        page_of(s, page, items) == Seq::<T>::empty(),
{
}

} // verus!
