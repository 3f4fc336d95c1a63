//! Deciding whether an entry answers a query.
//!
//! An entry matches when its tags, its type and its status each pass their
//! criterion group, its episode count passes the episode filter, and its
//! title or one of its synonyms passes the title filter.

use vstd::prelude::*;
use crate::error::SearchError;
use crate::model::{Anime, AnimeModel, EpisodeModel, GroupModel, ItemModel, Operation, Search,
    SearchArr, SearchEpisode, SearchModel};
use crate::text::{contains_text, lowercase, str_contains, to_lowercase};

verus! {

/// The field of an entry that a criterion group is held against.
#[derive(Debug, Clone, Copy, PartialEq, Eq, Structural)]
pub enum Field {
    /// The entry carries the value among its tags.
    Tag,
    /// The entry's type equals the value.
    Typ,
    /// The entry's status equals the value.
    Status,
}

/// Whether `value` holds of the given field of `entry`.
pub open spec fn field_holds(field: Field, entry: AnimeModel, value: Seq<char>) -> bool {
    match field {
        Field::Tag => entry.tags.contains(value),
        Field::Typ => entry.typ == value,
        Field::Status => entry.status == value,
    }
}

/// The test that a field of `entry` puts a value to.
pub open spec fn field_test(field: Field, entry: AnimeModel) -> spec_fn(Seq<char>) -> bool {
    |value: Seq<char>| field_holds(field, entry, value)
}

/// The outcome of one criterion: the test on its value, turned round when the
/// criterion is negated.
pub open spec fn effective(item: ItemModel, test: spec_fn(Seq<char>) -> bool) -> bool {
    test(item.value) != item.not
}

/// Whether a criterion group passes under `test`.  A group without criteria
/// puts no constraint.  Otherwise, with `or` one criterion has to come out
/// true, and without it every one.
pub open spec fn group_passes(group: GroupModel, test: spec_fn(Seq<char>) -> bool) -> bool {
    if group.items.len() == 0 {
        true
    } else if group.or {
        exists|i: int| 0 <= i < group.items.len() && effective(#[trigger] group.items[i], test)
    } else {
        forall|i: int| 0 <= i < group.items.len() ==> effective(#[trigger] group.items[i], test)
    }
}

/// Whether an episode count passes the episode filter.
pub open spec fn episodes_pass(filter: EpisodeModel, episodes: int) -> bool {
    match filter.operation {
        Operation::Bigger => episodes > filter.number,
        Operation::Smaller => episodes < filter.number,
        Operation::BiggerEq => episodes >= filter.number,
        Operation::SmallerEq => episodes <= filter.number,
        Operation::Eq => episodes == filter.number,
    }
}

/// Whether `needle` occurs in the lowercased title or in one of the synonyms.
pub open spec fn title_passes(
    needle: Seq<char>,
    lowered_title: Seq<char>,
    synonyms: Seq<Seq<char>>,
) -> bool {
    ||| contains_text(lowered_title, needle)
    ||| exists|i: int| 0 <= i < synonyms.len() && contains_text(#[trigger] synonyms[i], needle)
}

/// Whether `entry` answers `query`, where `needle` is taken for the lowercase
/// form of the query's title.
pub open spec fn matches_lowered(query: SearchModel, needle: Seq<char>, entry: AnimeModel) -> bool {
    &&& group_passes(query.tag, field_test(Field::Tag, entry))
    &&& group_passes(query.typ, field_test(Field::Typ, entry))
    &&& group_passes(query.status, field_test(Field::Status, entry))
    &&& episodes_pass(query.episodes, entry.episodes)
    &&& (query.title.len() == 0 || title_passes(needle, lowercase(entry.title), entry.synonyms))
}

/// Whether `entry` answers `query`.
pub open spec fn search_matches(query: SearchModel, entry: AnimeModel) -> bool {
    matches_lowered(query, lowercase(query.title), entry)
}

/// The operation that a symbol of a query document stands for, if any.
pub open spec fn operation_of(symbol: Seq<char>) -> Option<Operation> {
    if symbol == seq!['>'] {
        Some(Operation::Bigger)
    } else if symbol == seq!['<'] {
        Some(Operation::Smaller)
    } else if symbol == seq!['>', '='] {
        Some(Operation::BiggerEq)
    } else if symbol == seq!['<', '='] {
        Some(Operation::SmallerEq)
    } else if symbol == seq!['='] {
        Some(Operation::Eq)
    } else {
        None
    }
}

impl Operation {
    /// Reads the operation of an episode filter from its symbol: one of
    /// `>`, `<`, `>=`, `<=` and `=`.  Any other text is no valid query.
    pub fn from_symbol(symbol: &str) -> (r: Result<Operation, SearchError>)
        ensures
            match r {
                Ok(op) => operation_of(symbol@) == Some(op),
                Err(e) => operation_of(symbol@) is None && e == SearchError::InvalidQuery,
            },
    {
        let n = symbol.unicode_len();
        if n == 1 {
            let c = symbol.get_char(0);
            assert(symbol@ =~= seq![c]);
            if c == '>' {
                return Ok(Operation::Bigger);
            } else if c == '<' {
                return Ok(Operation::Smaller);
            } else if c == '=' {
                return Ok(Operation::Eq);
            }
        } else if n == 2 {
            let c = symbol.get_char(0);
            let d = symbol.get_char(1);
            assert(symbol@ =~= seq![c, d]);
            if d == '=' {
                if c == '>' {
                    return Ok(Operation::BiggerEq);
                } else if c == '<' {
                    return Ok(Operation::SmallerEq);
                }
            }
        }
        Err(SearchError::InvalidQuery)
    }
}

/// Turns `b1` round when `b2` is set.
pub fn inverse(b1: bool, b2: bool) -> (r: bool)
    ensures
        r == (b1 != b2),
{
    if b2 {
        !b1
    } else {
        b1
    }
}

/// Whether `value` is one of `values`.
pub fn contains_value(values: &Vec<String>, value: &String) -> (found: bool)
    ensures
        found == values.deep_view().contains(value@),
{
    let mut i: usize = 0;
    while i < values.len()
        invariant
            i <= values.len(),
            forall|k: int| 0 <= k < i ==> values.deep_view()[k] != value@,
        decreases values.len() - i,
    {
        if values[i] == *value {
            assert(values.deep_view()[i as int] == value@);
            return true;
        }
        i += 1;
    }
    false
}

/// Whether `value` holds of the given field of `data`.
pub fn field_matches(field: Field, data: &Anime, value: &String) -> (holds: bool)
    ensures
        holds == field_holds(field, data@, value@),
{
    match field {
        Field::Tag => contains_value(&data.tags, value),
        Field::Typ => data.typ == *value,
        Field::Status => data.status == *value,
    }
}

/// Evaluates one criterion group against one field of `data`.
pub fn evaluate_group(group: &SearchArr, field: Field, data: &Anime) -> (passes: bool)
    ensures
        passes == group_passes(group@, field_test(field, data@)),
{
    let ghost test = field_test(field, data@);
    let n = group.items.len();
    if n == 0 {
        return true;
    }
    let mut overall = false;
    let mut i: usize = 0;
    while i < n
        invariant
            i <= n,
            n == group.items.len(),
            n == group@.items.len(),
            test == field_test(field, data@),
            !group.or ==> forall|k: int| 0 <= k < i ==> effective(#[trigger] group@.items[k], test),
            group.or ==> (overall <==> exists|k: int|
                0 <= k < i && effective(#[trigger] group@.items[k], test)),
        decreases n - i,
    {
        let item = &group.items[i];
        let holds = inverse(field_matches(field, data, &item.value), item.not);
        assert(holds == effective(group@.items[i as int], test));
        if !holds {
            if !group.or {
                return false;
            }
        } else if group.or {
            overall = true;
        }
        i += 1;
    }
    !group.or || overall
}

/// Compares an episode count with the number of the filter.
pub fn episodes_match(filter: &SearchEpisode, episodes: i64) -> (passes: bool)
    ensures
        passes == episodes_pass(filter@, episodes as int),
{
    match filter.operation {
        Operation::Bigger => episodes > filter.number,
        Operation::Smaller => episodes < filter.number,
        Operation::BiggerEq => episodes >= filter.number,
        Operation::SmallerEq => episodes <= filter.number,
        Operation::Eq => episodes == filter.number,
    }
}

/// Looks for `needle` in the synonyms, then in the lowercased title.  The
/// comparison is exact: the caller hands in texts that are lowercase already.
pub fn title_matches(needle: &str, lowered_title: &str, synonyms: &Vec<String>) -> (passes: bool)
    ensures
        passes == title_passes(needle@, lowered_title@, synonyms.deep_view()),
{
    let mut i: usize = 0;
    while i < synonyms.len()
        invariant
            i <= synonyms.len(),
            forall|k: int| 0 <= k < i ==> !contains_text(#[trigger] synonyms.deep_view()[k], needle@),
        decreases synonyms.len() - i,
    {
        if str_contains(synonyms[i].as_str(), needle) {
            assert(contains_text(synonyms.deep_view()[i as int], needle@));
            return true;
        }
        i += 1;
    }
    str_contains(lowered_title, needle)
}

/// Decides whether `data` answers `query`, given the lowercase form of the
/// query's title in `needle`.
pub fn search_data_lowered(query: &Search, needle: &str, data: &Anime) -> (matches: bool)
    ensures
        matches == matches_lowered(query@, needle@, data@),
{
    let q1 = evaluate_group(&query.tag, Field::Tag, data);
    let q2 = evaluate_group(&query.typ, Field::Typ, data);
    let q3 = evaluate_group(&query.status, Field::Status, data);
    if !q1 || !q2 || !q3 {
        return false;
    }
    if !episodes_match(&query.episodes, data.episodes) {
        return false;
    }
    if query.title.as_str().is_empty() {
        return true;
    }
    let lowered_title = to_lowercase(data.title.as_str());
    title_matches(needle, lowered_title.as_str(), &data.synonyms)
}

/// Decides whether `data` answers `query`.
pub fn search_data(query: &Search, data: &Anime) -> (matches: bool)
    ensures
        matches == search_matches(query@, data@),
{
    let needle = to_lowercase(query.title.as_str());
    search_data_lowered(query, needle.as_str(), data)
}

/// A group without criteria passes, whichever way it combines them.
pub proof fn lemma_empty_group_passes(or: bool, test: spec_fn(Seq<char>) -> bool)
    ensures
        group_passes(GroupModel { items: Seq::empty(), or }, test),
{
}

/// A group that asks for all of two criteria, the first plain and the second
/// negated, passes exactly when the test holds of the first value and fails
/// of the second.
pub proof fn lemma_all_of_plain_and_negated(
    v1: Seq<char>,
    v2: Seq<char>,
    test: spec_fn(Seq<char>) -> bool,
)
    ensures
        group_passes(
            GroupModel {
                items: seq![
                    ItemModel { value: v1, not: false },
                    ItemModel { value: v2, not: true },
                ],
                or: false,
            },
            test,
        ) <==> (test(v1) && !test(v2)),
{
    let items = seq![ItemModel { value: v1, not: false }, ItemModel { value: v2, not: true }];
    assert(items[0].value == v1 && !items[0].not);
    assert(items[1].value == v2 && items[1].not);
}

/// A group that asks for any of its criteria fails when it has criteria and
/// every one of them comes out false.
pub proof fn lemma_any_group_fails(group: GroupModel, test: spec_fn(Seq<char>) -> bool)
    requires
        group.or,
        group.items.len() > 0,
        forall|i: int| 0 <= i < group.items.len() ==> !effective(#[trigger] group.items[i], test),
    ensures
        !group_passes(group, test),
{
}

/// A group that asks for any of its criteria passes when one of them comes
/// out true.
pub proof fn lemma_any_group_passes(group: GroupModel, test: spec_fn(Seq<char>) -> bool, i: int)
    requires
        group.or,
        0 <= i < group.items.len(),
        effective(group.items[i], test),
    ensures
        group_passes(group, test),
{
}

} // verus!
