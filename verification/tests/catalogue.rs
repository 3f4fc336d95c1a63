use anime_search::config::{exclusion_set, load_alias_table, load_exclusion_set, AliasTable};
use anime_search::data::{has_excluded_source, lowercase_all, normalize_entry, rewrite_tags};
use anime_search::order::year_order;
use anime_search::paginate::{page_bounds, paginate};
use anime_search::{get_data, initialize, tags, Anime, AnimeSeason, Data, SearchError, Store};
use std::cmp::Ordering;

fn strings(values: &[&str]) -> Vec<String> {
    values.iter().map(|v| v.to_string()).collect()
}

fn record(title: &str, year: Option<i64>, source: &str, tag_list: &[&str]) -> Anime {
    Anime {
        sources: strings(&[source]),
        title: title.to_string(),
        typ: "TV".to_string(),
        episodes: 1,
        status: "finished".to_string(),
        anime_season: AnimeSeason { season: "FALL".to_string(), year },
        picture: "p".to_string(),
        thumbnail: "t".to_string(),
        synonyms: strings(&["Alt Title", "ÄÖÜ"]),
        relations: strings(&["Rel"]),
        tags: strings(tag_list),
    }
}

fn groups(list: &[(&str, &[&str])]) -> Vec<(String, Vec<String>)> {
    list.iter().map(|(c, a)| (c.to_string(), strings(a))).collect()
}

fn names(data: &Data) -> Vec<String> {
    data.entries().iter().map(|e| e.title.clone()).collect()
}

#[test]
fn first_page_holds_the_first_elements() {
    assert_eq!(paginate(vec![1, 2, 3, 4, 5], 1, 3), Ok(vec![1, 2, 3]));
    assert_eq!(paginate(vec![1, 2], 1, 3), Ok(vec![1, 2]));
    assert_eq!(paginate(Vec::<i32>::new(), 1, 3), Ok(vec![]));
}

#[test]
fn page_length_follows_the_formula() {
    for len in 0..12usize {
        for page in 1..6usize {
            for items in 1..5usize {
                let seq: Vec<usize> = (0..len).collect();
                let got = paginate(seq, page, items).unwrap();
                let skip = (page - 1) * items;
                assert_eq!(got.len(), items.min(len.saturating_sub(skip)));
                assert_eq!(got, (0..len).skip(skip).take(items).collect::<Vec<_>>());
            }
        }
    }
}

#[test]
fn page_zero_is_invalid() {
    assert_eq!(paginate(vec![1, 2, 3], 0, 2), Err(SearchError::InvalidPagination));
    assert_eq!(paginate(vec![1, 2, 3], 2, 0), Err(SearchError::InvalidPagination));
    assert_eq!(paginate(vec![1, 2, 3], 0, 0), Err(SearchError::InvalidPagination));
    assert_eq!(page_bounds(3, 0, 2), Err(SearchError::InvalidPagination));
}

#[test]
fn page_past_the_end_is_empty() {
    assert_eq!(paginate(vec![1, 2, 3], 3, 2), Ok(vec![]));
    assert_eq!(paginate(vec![1, 2, 3], 2, 3), Ok(vec![]));
    assert_eq!(paginate(vec![1, 2, 3], usize::MAX, 2), Ok(vec![]));
    assert_eq!(paginate(vec![1, 2, 3], 2, usize::MAX), Ok(vec![]));
    assert_eq!(paginate(vec![1, 2, 3], 1, usize::MAX), Ok(vec![1, 2, 3]));
}

#[test]
fn page_bounds_are_exact() {
    assert_eq!(page_bounds(10, 1, 3), Ok((0, 3)));
    assert_eq!(page_bounds(10, 4, 3), Ok((9, 10)));
    assert_eq!(page_bounds(10, 5, 3), Ok((10, 10)));
    assert_eq!(page_bounds(0, 1, 1), Ok((0, 0)));
    assert_eq!(page_bounds(10, usize::MAX, usize::MAX), Ok((10, 10)));
}

#[test]
fn entries_stand_by_descending_year() {
    let raw = vec![
        record("a", Some(2001), "s1", &[]),
        record("b", None, "s2", &[]),
        record("c", Some(2010), "s3", &[]),
        record("d", Some(-5), "s4", &[]),
        record("e", Some(2001), "s5", &[]),
        record("f", Some(0), "s6", &[]),
        record("g", Some(2010), "s7", &[]),
    ];
    let data = Data::from_parts(raw, &Vec::new(), &Vec::new());
    assert_eq!(names(&data), strings(&["c", "g", "a", "e", "b", "f", "d"]));
    let years: Vec<i64> = data.entries().iter().map(|e| e.anime_season.year_or_zero()).collect();
    assert!(years.windows(2).all(|w| w[0] >= w[1]));
}

#[test]
fn year_order_puts_later_years_first() {
    let early = record("a", Some(1999), "s", &[]);
    let late = record("b", Some(2005), "s", &[]);
    let none = record("c", None, "s", &[]);
    let zero = record("d", Some(0), "s", &[]);
    assert_eq!(year_order(&late, &early), Ordering::Less);
    assert_eq!(year_order(&early, &late), Ordering::Greater);
    assert_eq!(year_order(&none, &zero), Ordering::Equal);
    assert_eq!(year_order(&none, &early), Ordering::Greater);
    assert_eq!(none.anime_season.year_or_zero(), 0);
}

#[test]
fn entries_with_an_excluded_source_are_dropped() {
    let mut two = record("b", Some(2002), "s2", &["only-b"]);
    two.sources.push("bad".to_string());
    let raw = vec![record("a", Some(2001), "s1", &["x"]), two, record("c", Some(2003), "bad", &["only-c"])];
    let exclude = strings(&["bad", "unused"]);
    let data = Data::from_parts(raw, &Vec::new(), &exclude);
    assert_eq!(names(&data), strings(&["a"]));
    assert_eq!(data.tags(), &strings(&["x"]));
    let set = exclusion_set(&exclude);
    for e in data.entries() {
        assert!(!has_excluded_source(e, &set));
        assert!(e.sources.iter().all(|s| !exclude.contains(s)));
    }
    assert!(has_excluded_source(&record("c", None, "bad", &[]), &set));
}

#[test]
fn stored_tags_are_canonical() {
    let table = groups(&[("action", &["Action", "act"]), ("sci-fi", &["scifi", "SF"])]);
    let raw = vec![
        record("a", Some(2001), "s1", &["act", "scifi", "drama"]),
        record("b", Some(2002), "s2", &["Action", "SF", "action"]),
    ];
    let data = Data::from_parts(raw, &table, &Vec::new());
    assert_eq!(data.entries()[0].tags, strings(&["action", "sci-fi", "action"]));
    assert_eq!(data.entries()[1].tags, strings(&["action", "sci-fi", "drama"]));
    assert_eq!(data.tags(), &strings(&["action", "drama", "sci-fi"]));
    let aliases: Vec<&String> = table.iter().flat_map(|(_, a)| a.iter()).collect();
    assert!(data.tags().iter().all(|t| !aliases.contains(&t)));
}

#[test]
fn last_listing_of_an_alias_counts() {
    let table = AliasTable::from_groups(&groups(&[("one", &["x", "y"]), ("two", &["y"]), ("three", &[])]));
    assert_eq!(table.canonical_tag(&"x".to_string()), "one");
    assert_eq!(table.canonical_tag(&"y".to_string()), "two");
    assert_eq!(table.canonical_tag(&"one".to_string()), "one");
    assert_eq!(table.canonical_tag(&"z".to_string()), "z");
    assert_eq!(rewrite_tags(&strings(&["y", "q", "x"]), &table), strings(&["two", "q", "one"]));
}

#[test]
fn synonyms_are_stored_in_lowercase() {
    let table = AliasTable::from_groups(&Vec::new());
    let normal = normalize_entry(record("Title", Some(1), "S", &["Tag"]), &table);
    assert_eq!(normal.synonyms, strings(&["alt title", "äöü"]));
    assert_eq!(normal.title, "Title");
    assert_eq!(normal.tags, strings(&["Tag"]));
    assert_eq!(normal.sources, strings(&["S"]));
    assert_eq!(normal.relations, strings(&["Rel"]));
    assert_eq!(lowercase_all(&strings(&["ABC", "", "a1B"])), strings(&["abc", "", "a1b"]));
}

#[test]
fn catalogue_tags_are_sorted_and_unique() {
    let raw = vec![
        record("a", None, "s1", &["b", "a", "b", "Z"]),
        record("b", None, "s2", &[]),
        record("c", None, "s3", &["ab", "a", "é", "aa"]),
    ];
    let data = Data::from_parts(raw, &Vec::new(), &Vec::new());
    assert_eq!(data.tags(), &strings(&["Z", "a", "aa", "ab", "b", "é"]));
    assert_eq!(Data::from_parts(Vec::new(), &Vec::new(), &Vec::new()).tags().len(), 0);
}

#[test]
fn configuration_documents_are_read() {
    let raw = vec![
        record("a", Some(2001), "s1", &["act"]),
        record("b", Some(2002), "gone", &["other"]),
    ];
    let data = Data::new(raw, r#"{"action": ["act", "Action"], "misc": []}"#, r#"["gone"]"#).unwrap();
    assert_eq!(names(&data), strings(&["a"]));
    assert_eq!(data.tags(), &strings(&["action"]));
    let set = load_exclusion_set(r#"["a", "b", "a"]"#).unwrap();
    assert_eq!(set.len(), 2);
    assert!(set.contains("b"));
    let table = load_alias_table(r#"{"k": ["v"]}"#).unwrap();
    assert_eq!(table.canonical_tag(&"v".to_string()), "k");
}

#[test]
fn malformed_configuration_is_refused() {
    for bad in ["", "[]", "{", r#"{"a": "b"}"#, r#"{"a": [1]}"#, "null"] {
        assert_eq!(Data::new(Vec::new(), bad, "[]").err(), Some(SearchError::InvalidDataset), "{}", bad);
        assert_eq!(load_alias_table(bad).err(), Some(SearchError::InvalidDataset));
    }
    for bad in ["", "{}", "[", "[1]", r#"["a",]"#, "null"] {
        assert_eq!(Data::new(Vec::new(), "{}", bad).err(), Some(SearchError::InvalidDataset), "{}", bad);
        assert_eq!(load_exclusion_set(bad).err(), Some(SearchError::InvalidDataset));
    }
}

#[test]
fn failed_initialize_leaves_the_store_alone() {
    let mut store = Store::new();
    assert_eq!(initialize(&mut store, vec![record("a", None, "s", &["t"])], "oops", "[]"), Err(SearchError::InvalidDataset));
    assert!(get_data(&store).is_err());
    assert_eq!(initialize(&mut store, vec![record("a", None, "s", &["t"])], "{}", "[]"), Ok(()));
    assert_eq!(initialize(&mut store, vec![record("b", None, "s", &["u"])], "{}", "oops"), Err(SearchError::InvalidDataset));
    assert_eq!(names(get_data(&store).unwrap()), strings(&["a"]));
    assert_eq!(tags(&store, 1, 5).unwrap(), vec!["t"]);
    assert_eq!(initialize(&mut store, vec![record("b", None, "s", &["u"])], "{}", "[]"), Ok(()));
    assert_eq!(names(get_data(&store).unwrap()), strings(&["b"]));
}
