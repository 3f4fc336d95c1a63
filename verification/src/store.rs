//! The operations on a catalogue that is built once and read afterwards.
//!
//! A `Store` starts out empty.  Reading from an empty store is an error, not
//! a crash; `initialize` fills the store, or leaves it as it was when the
//! configuration is malformed.

use vstd::prelude::*;
use crate::config::{alias_document, exclusion_document, inverted};
use crate::data::{is_normalized, none_excluded, Data, DataModel};
use crate::error::SearchError;
use crate::model::{Anime, AnimeModel, Search, SearchModel};
use crate::paginate::{lemma_filter_of_prefix, lemma_page_of_prefix, page_bounds, page_of,
    page_or_error, paginate};
use crate::query::{search_data_lowered, search_matches};
use crate::text::{contains_text, lowercase, str_contains, to_lowercase};

verus! {

/// The test for entries that answer a query.
pub open spec fn answers(query: SearchModel) -> spec_fn(AnimeModel) -> bool {
    |entry: AnimeModel| search_matches(query, entry)
}

/// The entries that answer a query, in the order of the catalogue.
pub open spec fn matching(entries: Seq<AnimeModel>, query: SearchModel) -> Seq<AnimeModel> {
    entries.filter(answers(query))
}

/// The test for tags that hold a text.
pub open spec fn holds_text(part: Seq<char>) -> spec_fn(Seq<char>) -> bool {
    |tag: Seq<char>| contains_text(tag, part)
}

/// The tags that hold a text, in the order of the catalogue.
pub open spec fn tags_with(tags: Seq<Seq<char>>, part: Seq<char>) -> Seq<Seq<char>> {
    tags.filter(holds_text(part))
}

/// What `count` answers.
pub open spec fn count_of(store: Option<DataModel>) -> Result<nat, SearchError> {
    match store {
        None => Err(SearchError::Uninitialized),
        Some(data) => Ok(data.entries.len()),
    }
}

/// What `search` answers.
pub open spec fn search_of(store: Option<DataModel>, query: SearchModel, page: int, items: int) -> Result<
    Seq<AnimeModel>,
    SearchError,
> {
    match store {
        None => Err(SearchError::Uninitialized),
        Some(data) => page_or_error(matching(data.entries, query), page, items),
    }
}

/// What `search_count` answers.
pub open spec fn search_count_of(store: Option<DataModel>, query: SearchModel) -> Result<
    nat,
    SearchError,
> {
    match store {
        None => Err(SearchError::Uninitialized),
        Some(data) => Ok(matching(data.entries, query).len()),
    }
}

/// What `tags` answers.
pub open spec fn tags_of(store: Option<DataModel>, page: int, items: int) -> Result<
    Seq<Seq<char>>,
    SearchError,
> {
    match store {
        None => Err(SearchError::Uninitialized),
        Some(data) => page_or_error(data.tags, page, items),
    }
}

/// What `tag_search` answers.
pub open spec fn tag_search_of(store: Option<DataModel>, part: Seq<char>, page: int, items: int) -> Result<
    Seq<Seq<char>>,
    SearchError,
> {
    match store {
        None => Err(SearchError::Uninitialized),
        Some(data) => page_or_error(tags_with(data.tags, part), page, items),
    }
}

/// The place of the catalogue: empty until `initialize` has filled it.
pub struct Store {
    data: Option<Data>,
}

impl View for Store {
    type V = Option<DataModel>;

    closed spec fn view(&self) -> Option<DataModel> {
        match self.data {
            Some(data) => Some(data@),
            None => None,
        }
    }
}

impl Store {
    /// A store that holds no catalogue yet.
    pub fn new() -> (store: Store)
        ensures
            store@ is None,
    {
        Store { data: None }
    }

    /// Puts a catalogue into the store, in place of what it held.
    pub fn install(&mut self, data: Data)
        ensures
            final(self)@ == Some(data@),
    {
        self.data = Some(data);
    }
}

/// The catalogue of the store, or the error of reading before `initialize`.
pub fn get_data(store: &Store) -> (r: Result<&Data, SearchError>)
    ensures
        match r {
            Ok(data) => store@ == Some(data@) && data@.wf(),
            Err(e) => store@ is None && e == SearchError::Uninitialized,
        },
{
    match &store.data {
        Some(data) => {
            proof {
                use_type_invariant(data);
            }
            Ok(data)
        },
        None => Err(SearchError::Uninitialized),
    }
}

/// Builds the catalogue from a dataset and the two configuration documents
/// and puts it into the store.  Where a document is malformed the store stays
/// as it was.
pub fn initialize(store: &mut Store, entries: Vec<Anime>, merge_tags: &str, exclude: &str) -> (r:
    Result<(), SearchError>)
    ensures
        match r {
            Ok(_) => {
                &&& alias_document(merge_tags@) is Some
                &&& exclusion_document(exclude@) is Some
                &&& final(store)@ matches Some(data)
                &&& data.wf()
                &&& is_normalized(
                    data.entries,
                    entries.deep_view(),
                    inverted(alias_document(merge_tags@).unwrap()),
                    exclusion_document(exclude@).unwrap().to_set(),
                )
                &&& none_excluded(data.entries, exclusion_document(exclude@).unwrap().to_set())
            },
            Err(e) => {
                &&& e == SearchError::InvalidDataset
                &&& (alias_document(merge_tags@) is None || exclusion_document(exclude@) is None)
                &&& final(store)@ == old(store)@
            },
        },
{
    match Data::new(entries, merge_tags, exclude) {
        Ok(data) => {
            store.install(data);
            Ok(())
        },
        Err(e) => Err(e),
    }
}

/// The number of entries in the catalogue.
pub fn count(store: &Store) -> (r: Result<usize, SearchError>)
    ensures
        match r {
            Ok(n) => count_of(store@) == Ok::<nat, SearchError>(n as nat),
            Err(e) => count_of(store@) == Err::<nat, SearchError>(e),
        },
{
    match get_data(store) {
        Ok(data) => Ok(data.entries().len()),
        Err(e) => Err(e),
    }
}

/// One page of the entries that answer `query`, in the order of the
/// catalogue.
pub fn search<'a>(store: &'a Store, query: &Search, page: usize, items: usize) -> (r: Result<
    Vec<&'a Anime>,
    SearchError,
>)
    ensures
        match r {
            Ok(found) => search_of(store@, query@, page as int, items as int) == Ok::<
                Seq<AnimeModel>,
                SearchError,
            >(found.deep_view()),
            Err(e) => search_of(store@, query@, page as int, items as int) == Err::<
                Seq<AnimeModel>,
                SearchError,
            >(e),
        },
{
    let data = match get_data(store) {
        Ok(data) => data,
        Err(e) => {
            return Err(e);
        },
    };
    if page < 1 || items < 1 {
        return Err(SearchError::InvalidPagination);
    }
    let entries = data.entries();
    let ghost all = entries.deep_view();
    let needle = to_lowercase(query.title.as_str());
    let mut found: Vec<&'a Anime> = Vec::new();
    assert(found.deep_view() =~= matching(all.take(0), query@)) by {
        reveal(Seq::filter);
    }
    let limit = page.checked_mul(items);
    let mut enough = false;
    let mut i: usize = 0;
    while i < entries.len() && !enough
        invariant
            i <= entries.len(),
            all == entries.deep_view(),
            needle@ == lowercase(query@.title),
            found.deep_view() == matching(all.take(i as int), query@),
            limit == page.checked_mul(items),
            enough ==> found.len() >= page * items,
        decreases entries.len() - i,
    {
        proof {
            assert(all.take(i as int + 1) =~= all.take(i as int).push(all[i as int]));
            all.take(i as int).lemma_filter_push(all[i as int], answers(query@));
        }
        if search_data_lowered(query, needle.as_str(), &entries[i]) {
            found.push(&entries[i]);
            enough = match limit {
                Some(wanted) => found.len() >= wanted,
                None => false,
            };
        }
        i += 1;
    }
    let ghost matched = found.deep_view();
    proof {
        lemma_filter_of_prefix(all, answers(query@), i as int);
        if enough {
            lemma_page_of_prefix(matched, matching(all, query@), page as int, items as int);
        } else {
            assert(all.take(all.len() as int) =~= all);
        }
    }
    match paginate(found, page, items) {
        Ok(kept) => {
            assert(kept.deep_view() =~= page_of(matched, page as int, items as int));
            Ok(kept)
        },
        Err(e) => Err(e),
    }
}

/// The number of entries that answer `query`.
pub fn search_count(store: &Store, query: &Search) -> (r: Result<usize, SearchError>)
    ensures
        match r {
            Ok(n) => search_count_of(store@, query@) == Ok::<nat, SearchError>(n as nat),
            Err(e) => search_count_of(store@, query@) == Err::<nat, SearchError>(e),
        },
{
    let data = match get_data(store) {
        Ok(data) => data,
        Err(e) => {
            return Err(e);
        },
    };
    let entries = data.entries();
    let ghost all = entries.deep_view();
    let needle = to_lowercase(query.title.as_str());
    let mut n: usize = 0;
    assert(matching(all.take(0), query@).len() == 0) by {
        all.take(0).lemma_filter_len(answers(query@));
    }
    let mut i: usize = 0;
    while i < entries.len()
        invariant
            i <= entries.len(),
            all == entries.deep_view(),
            needle@ == lowercase(query@.title),
            n <= i,
            n == matching(all.take(i as int), query@).len(),
        decreases entries.len() - i,
    {
        proof {
            assert(all.take(i as int + 1) =~= all.take(i as int).push(all[i as int]));
            all.take(i as int).lemma_filter_push(all[i as int], answers(query@));
        }
        if search_data_lowered(query, needle.as_str(), &entries[i]) {
            n += 1;
        }
        i += 1;
    }
    assert(all.take(all.len() as int) =~= all);
    Ok(n)
}

/// One page of the tags of the catalogue.
pub fn tags<'a>(store: &'a Store, page: usize, items: usize) -> (r: Result<
    Vec<&'a String>,
    SearchError,
>)
    ensures
        match r {
            Ok(found) => tags_of(store@, page as int, items as int) == Ok::<
                Seq<Seq<char>>,
                SearchError,
            >(found.deep_view()),
            Err(e) => tags_of(store@, page as int, items as int) == Err::<
                Seq<Seq<char>>,
                SearchError,
            >(e),
        },
{
    let data = match get_data(store) {
        Ok(data) => data,
        Err(e) => {
            return Err(e);
        },
    };
    let all = data.tags();
    let (start, end) = match page_bounds(all.len(), page, items) {
        Ok(bounds) => bounds,
        Err(e) => {
            return Err(e);
        },
    };
    let mut found: Vec<&'a String> = Vec::new();
    let mut i: usize = start;
    while i < end
        invariant
            start <= i <= end <= all.len(),
            found.deep_view() == all.deep_view().subrange(start as int, i as int),
        decreases end - i,
    {
        let ghost before = found.deep_view();
        found.push(&all[i]);
        assert(all.deep_view().subrange(start as int, i as int + 1) =~= before.push(
            all.deep_view()[i as int],
        ));
        i += 1;
    }
    Ok(found)
}

/// One page of the tags that hold `query`.  Upper and lower case are told
/// apart.
pub fn tag_search<'a>(store: &'a Store, query: &str, page: usize, items: usize) -> (r: Result<
    Vec<&'a String>,
    SearchError,
>)
    ensures
        match r {
            Ok(found) => tag_search_of(store@, query@, page as int, items as int) == Ok::<
                Seq<Seq<char>>,
                SearchError,
            >(found.deep_view()),
            Err(e) => tag_search_of(store@, query@, page as int, items as int) == Err::<
                Seq<Seq<char>>,
                SearchError,
            >(e),
        },
{
    let data = match get_data(store) {
        Ok(data) => data,
        Err(e) => {
            return Err(e);
        },
    };
    if page < 1 || items < 1 {
        return Err(SearchError::InvalidPagination);
    }
    let all = data.tags();
    let ghost texts = all.deep_view();
    let mut found: Vec<&'a String> = Vec::new();
    assert(found.deep_view() =~= tags_with(texts.take(0), query@)) by {
        reveal(Seq::filter);
    }
    let limit = page.checked_mul(items);
    let mut enough = false;
    let mut i: usize = 0;
    while i < all.len() && !enough
        invariant
            i <= all.len(),
            texts == all.deep_view(),
            found.deep_view() == tags_with(texts.take(i as int), query@),
            limit == page.checked_mul(items),
            enough ==> found.len() >= page * items,
        decreases all.len() - i,
    {
        proof {
            assert(texts.take(i as int + 1) =~= texts.take(i as int).push(texts[i as int]));
            texts.take(i as int).lemma_filter_push(texts[i as int], holds_text(query@));
        }
        if str_contains(all[i].as_str(), query) {
            found.push(&all[i]);
            enough = match limit {
                Some(wanted) => found.len() >= wanted,
                None => false,
            };
        }
        i += 1;
    }
    let ghost matched = found.deep_view();
    proof {
        lemma_filter_of_prefix(texts, holds_text(query@), i as int);
        if enough {
            lemma_page_of_prefix(matched, tags_with(texts, query@), page as int, items as int);
        } else {
            assert(texts.take(texts.len() as int) =~= texts);
        }
    }
    match paginate(found, page, items) {
        Ok(kept) => {
            assert(kept.deep_view() =~= page_of(matched, page as int, items as int));
            Ok(kept)
        },
        Err(e) => Err(e),
    }
}

/// Counting the entries that answer a query gives the length of the first
/// page of a search whose page size is the size of the catalogue.
pub proof fn lemma_search_count_is_full_page(data: DataModel, query: SearchModel)
    requires
        data.entries.len() >= 1,
    ensures
        search_of(Some(data), query, 1, data.entries.len() as int) matches Ok(found)
            && search_count_of(Some(data), query) == Ok::<nat, SearchError>(found.len())
            && found == matching(data.entries, query),
{
    data.entries.lemma_filter_len(answers(query));
}

} // verus!
