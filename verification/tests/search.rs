use anime_search::query::{episodes_match, evaluate_group, title_matches, Field};
use anime_search::{
    count, get_data, initialize, inverse, search, search_count, search_data, tag_search, tags,
    Anime, AnimeSeason, Operation, Search, SearchArr, SearchEpisode, SearchError, SearchItem,
    Store,
};

fn texts(values: &[&str]) -> Vec<String> {
    values.iter().map(|v| v.to_string()).collect()
}

fn entry(title: &str, year: Option<i64>, episodes: i64, status: &str, tag_list: &[&str]) -> Anime {
    Anime {
        sources: texts(&[&format!("https://example.org/{}", title)]),
        title: title.to_string(),
        typ: "TV".to_string(),
        episodes,
        status: status.to_string(),
        anime_season: AnimeSeason { season: "SPRING".to_string(), year },
        picture: format!("https://example.org/{}.png", title),
        thumbnail: format!("https://example.org/{}_t.png", title),
        synonyms: Vec::new(),
        relations: Vec::new(),
        tags: texts(tag_list),
    }
}

fn foo() -> Anime {
    let mut e1 = entry("Foo", Some(2020), 12, "finished", &["action"]);
    e1.synonyms = texts(&["bar"]);
    e1
}

fn baz() -> Anime {
    entry("Baz", Some(2021), 24, "ongoing", &["comedy"])
}

fn group(items: &[(&str, bool)], or: bool) -> SearchArr {
    SearchArr {
        items: items.iter().map(|(v, n)| SearchItem { value: v.to_string(), not: *n }).collect(),
        or,
    }
}

fn query(tag: SearchArr, title: &str, number: i64, operation: Operation) -> Search {
    Search {
        typ: group(&[], false),
        tag,
        status: group(&[], false),
        title: title.to_string(),
        episodes: SearchEpisode { number, operation },
    }
}

fn any_query() -> Search {
    query(group(&[], false), "", 0, Operation::BiggerEq)
}

fn two_entries() -> Store {
    let mut store = Store::new();
    assert_eq!(initialize(&mut store, vec![foo(), baz()], "{}", "[]"), Ok(()));
    store
}

fn titles(found: &[&Anime]) -> Vec<String> {
    found.iter().map(|e| e.title.clone()).collect()
}

#[test]
fn tag_query_matches_only_the_tagged_entry() {
    let store = two_entries();
    let all = get_data(&store).unwrap().entries();
    assert_eq!(all.iter().map(|e| e.title.as_str()).collect::<Vec<_>>(), vec!["Baz", "Foo"]);
    let q = query(group(&[("action", false)], false), "", 0, Operation::BiggerEq);
    assert!(search_data(&q, &all[1]));
    assert!(!search_data(&q, &all[0]));
    let found = search(&store, &q, 1, 10).unwrap();
    assert_eq!(titles(&found), vec!["Foo"]);
    assert_eq!(found[0].synonyms, texts(&["bar"]));
    assert_eq!(found[0].episodes, 12);
}

#[test]
fn episode_filter_alone_matches_the_shorter_entry() {
    let store = two_entries();
    let q = query(group(&[], false), "", 20, Operation::Smaller);
    assert_eq!(titles(&search(&store, &q, 1, 10).unwrap()), vec!["Foo"]);
    assert_eq!(search_count(&store, &q), Ok(1));
}

#[test]
fn tag_search_tells_case_apart() {
    let store = two_entries();
    assert_eq!(tag_search(&store, "ACT", 1, 10).unwrap(), Vec::<&String>::new());
    assert_eq!(tag_search(&store, "act", 1, 10).unwrap(), vec!["action"]);
    assert_eq!(tag_search(&store, "", 1, 10).unwrap(), vec!["action", "comedy"]);
    assert_eq!(tag_search(&store, "o", 1, 1).unwrap(), vec!["action"]);
    assert_eq!(tag_search(&store, "o", 2, 1).unwrap(), vec!["comedy"]);
    assert_eq!(tag_search(&store, "o", 3, 1).unwrap(), Vec::<&String>::new());
}

#[test]
fn inverse_turns_round_when_asked() {
    assert!(inverse(true, false));
    assert!(!inverse(true, true));
    assert!(inverse(false, true));
    assert!(!inverse(false, false));
}

#[test]
fn empty_group_passes_for_either_combinator() {
    let e = foo();
    for field in [Field::Tag, Field::Typ, Field::Status] {
        assert!(evaluate_group(&group(&[], false), field, &e));
        assert!(evaluate_group(&group(&[], true), field, &e));
    }
}

#[test]
fn all_group_with_plain_and_negated_criterion() {
    let both = entry("A", None, 1, "finished", &["action", "comedy"]);
    let first = entry("B", None, 1, "finished", &["action"]);
    let second = entry("C", None, 1, "finished", &["comedy"]);
    let neither = entry("D", None, 1, "finished", &["drama"]);
    let g = group(&[("action", false), ("comedy", true)], false);
    assert!(!evaluate_group(&g, Field::Tag, &both));
    assert!(evaluate_group(&g, Field::Tag, &first));
    assert!(!evaluate_group(&g, Field::Tag, &second));
    assert!(!evaluate_group(&g, Field::Tag, &neither));
}

#[test]
fn any_group_needs_one_true_criterion() {
    let e = entry("A", None, 1, "finished", &["action"]);
    assert!(!evaluate_group(&group(&[("comedy", false), ("drama", false)], true), Field::Tag, &e));
    assert!(!evaluate_group(&group(&[("action", true)], true), Field::Tag, &e));
    assert!(evaluate_group(&group(&[("comedy", false), ("action", false)], true), Field::Tag, &e));
    assert!(evaluate_group(&group(&[("comedy", true), ("drama", false)], true), Field::Tag, &e));
}

#[test]
fn groups_test_type_and_status_by_equality() {
    let e = entry("A", None, 1, "finished", &[]);
    assert!(evaluate_group(&group(&[("TV", false)], false), Field::Typ, &e));
    assert!(!evaluate_group(&group(&[("tv", false)], false), Field::Typ, &e));
    assert!(!evaluate_group(&group(&[("T", false)], false), Field::Typ, &e));
    assert!(evaluate_group(&group(&[("finished", false)], false), Field::Status, &e));
    assert!(!evaluate_group(&group(&[("finished", true)], false), Field::Status, &e));
    assert!(evaluate_group(&group(&[("ongoing", true)], false), Field::Status, &e));
}

#[test]
fn every_field_has_to_pass() {
    let e = foo();
    let mut q = query(group(&[("action", false)], false), "", 0, Operation::BiggerEq);
    assert!(search_data(&q, &e));
    q.typ = group(&[("MOVIE", false)], false);
    assert!(!search_data(&q, &e));
    q.typ = group(&[("TV", false)], false);
    q.status = group(&[("ongoing", false)], true);
    assert!(!search_data(&q, &e));
    q.status = group(&[("ongoing", false), ("finished", false)], true);
    assert!(search_data(&q, &e));
    q.episodes = SearchEpisode { number: 12, operation: Operation::Bigger };
    assert!(!search_data(&q, &e));
}

#[test]
fn episode_operations_compare_as_named() {
    let at = |operation| SearchEpisode { number: 12, operation };
    assert!(episodes_match(&at(Operation::Bigger), 13));
    assert!(!episodes_match(&at(Operation::Bigger), 12));
    assert!(episodes_match(&at(Operation::Smaller), 11));
    assert!(!episodes_match(&at(Operation::Smaller), 12));
    assert!(episodes_match(&at(Operation::BiggerEq), 12));
    assert!(!episodes_match(&at(Operation::BiggerEq), 11));
    assert!(episodes_match(&at(Operation::SmallerEq), 12));
    assert!(!episodes_match(&at(Operation::SmallerEq), 13));
    assert!(episodes_match(&at(Operation::Eq), 12));
    assert!(!episodes_match(&at(Operation::Eq), 13));
}

#[test]
fn operation_symbols() {
    assert_eq!(Operation::from_symbol(">"), Ok(Operation::Bigger));
    assert_eq!(Operation::from_symbol("<"), Ok(Operation::Smaller));
    assert_eq!(Operation::from_symbol(">="), Ok(Operation::BiggerEq));
    assert_eq!(Operation::from_symbol("<="), Ok(Operation::SmallerEq));
    assert_eq!(Operation::from_symbol("="), Ok(Operation::Eq));
    for bad in ["", "==", "!=", "=>", "> ", "Bigger", "\u{2265}"] {
        assert_eq!(Operation::from_symbol(bad), Err(SearchError::InvalidQuery));
    }
}

#[test]
fn title_filter_ignores_case_of_title_and_query() {
    let e = foo();
    for title in ["foo", "FOO", "oO", "Bar", "a"] {
        assert!(search_data(&query(group(&[], false), title, 0, Operation::BiggerEq), &e), "{}", title);
    }
    for title in ["fooo", "baz", " "] {
        assert!(!search_data(&query(group(&[], false), title, 0, Operation::BiggerEq), &e), "{}", title);
    }
}

#[test]
fn title_filter_takes_synonyms_as_they_are() {
    let mut e = foo();
    e.synonyms = texts(&["BAR"]);
    assert!(!search_data(&query(group(&[], false), "bar", 0, Operation::BiggerEq), &e));
    assert!(title_matches("bar", "foo", &texts(&["xbarx"])));
    assert!(title_matches("oo", "foo", &texts(&["bar"])));
    assert!(title_matches("", "", &Vec::new()));
    assert!(!title_matches("BAR", "foo", &texts(&["bar"])));
}

#[test]
fn count_matches_size_of_full_page() {
    let store = two_entries();
    let n = count(&store).unwrap();
    assert_eq!(n, 2);
    for q in [
        any_query(),
        query(group(&[("action", false)], false), "", 0, Operation::BiggerEq),
        query(group(&[("action", true)], false), "", 0, Operation::BiggerEq),
        query(group(&[], false), "zzz", 0, Operation::BiggerEq),
    ] {
        assert_eq!(search_count(&store, &q).unwrap(), search(&store, &q, 1, n).unwrap().len());
    }
}

#[test]
fn search_hands_out_pages_in_catalogue_order() {
    let mut store = Store::new();
    let raw: Vec<Anime> = (0..7)
        .map(|i| entry(&format!("t{}", i), Some(2000 + i), i, "finished", &["x"]))
        .collect();
    initialize(&mut store, raw, "{}", "[]").unwrap();
    let q = query(group(&[], false), "", 1, Operation::BiggerEq);
    assert_eq!(search_count(&store, &q), Ok(6));
    assert_eq!(titles(&search(&store, &q, 1, 4).unwrap()), vec!["t6", "t5", "t4", "t3"]);
    assert_eq!(titles(&search(&store, &q, 2, 4).unwrap()), vec!["t2", "t1"]);
    assert_eq!(titles(&search(&store, &q, 3, 4).unwrap()), Vec::<String>::new());
    assert_eq!(titles(&search(&store, &q, 3, 2).unwrap()), vec!["t2", "t1"]);
    assert_eq!(titles(&search(&store, &q, 6, 1).unwrap()), vec!["t1"]);
    assert_eq!(titles(&search(&store, &q, usize::MAX, usize::MAX).unwrap()), Vec::<String>::new());
    assert_eq!(titles(&search(&store, &q, 1, usize::MAX).unwrap()).len(), 6);
}

#[test]
fn reads_before_initialize_are_errors() {
    let store = Store::new();
    assert_eq!(count(&store), Err(SearchError::Uninitialized));
    assert_eq!(search(&store, &any_query(), 1, 10), Err(SearchError::Uninitialized));
    assert_eq!(search(&store, &any_query(), 0, 0), Err(SearchError::Uninitialized));
    assert_eq!(search_count(&store, &any_query()), Err(SearchError::Uninitialized));
    assert_eq!(tags(&store, 1, 10), Err(SearchError::Uninitialized));
    assert_eq!(tag_search(&store, "a", 1, 10), Err(SearchError::Uninitialized));
    assert!(get_data(&store).is_err());
}

#[test]
fn page_and_size_below_one_are_refused() {
    let store = two_entries();
    assert_eq!(search(&store, &any_query(), 0, 10), Err(SearchError::InvalidPagination));
    assert_eq!(search(&store, &any_query(), 1, 0), Err(SearchError::InvalidPagination));
    assert_eq!(tags(&store, 0, 10), Err(SearchError::InvalidPagination));
    assert_eq!(tags(&store, 1, 0), Err(SearchError::InvalidPagination));
    assert_eq!(tag_search(&store, "a", 0, 1), Err(SearchError::InvalidPagination));
    assert_eq!(tag_search(&store, "a", 1, 0), Err(SearchError::InvalidPagination));
    assert_eq!(count(&store), Ok(2));
}

#[test]
fn tags_are_paged() {
    let mut store = Store::new();
    let raw = vec![entry("A", None, 1, "finished", &["d", "b"]), entry("B", None, 1, "finished", &["a", "c", "b"])];
    initialize(&mut store, raw, "{}", "[]").unwrap();
    assert_eq!(tags(&store, 1, 10).unwrap(), vec!["a", "b", "c", "d"]);
    assert_eq!(tags(&store, 1, 3).unwrap(), vec!["a", "b", "c"]);
    assert_eq!(tags(&store, 2, 3).unwrap(), vec!["d"]);
    assert_eq!(tags(&store, 3, 3).unwrap(), Vec::<&String>::new());
    assert_eq!(tags(&store, 4, 1).unwrap(), vec!["d"]);
}

#[test]
fn error_messages_differ() {
    let all = [
        SearchError::Uninitialized,
        SearchError::InvalidDataset,
        SearchError::InvalidQuery,
        SearchError::InvalidPagination,
    ];
    for (i, a) in all.iter().enumerate() {
        assert!(!a.message().is_empty());
        for b in &all[i + 1..] {
            assert_ne!(a.message(), b.message());
        }
    }
    assert_eq!(SearchError::Uninitialized.message(), "catalogue is not initialized");
}

#[test]
fn copies_equal_what_they_copy() {
    let e = foo();
    assert_eq!(e.clone(), e);
    let q = query(group(&[("action", false), ("x", true)], true), "Foo", 3, Operation::Eq);
    assert_eq!(q.clone(), q);
}
