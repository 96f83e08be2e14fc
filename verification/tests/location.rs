use object_store_wrappers::location::Location;
use object_store_wrappers::location_map::LocationMap;

fn at(text: &str) -> Location {
    Location::parse(text).unwrap()
}

fn keys<V>(map: &LocationMap<V>) -> Vec<String> {
    map.keys().iter().map(|location| location.as_str().to_string()).collect()
}

#[test]
fn parse_strips_one_delimiter_at_each_end() {
    assert_eq!(at("/a/b/").as_str(), "a/b");
    assert_eq!(at("a/b").as_str(), "a/b");
    assert_eq!(at("").as_str(), "");
    assert_eq!(at("/").as_str(), "");
    assert_eq!(at("a b/c%20d/\u{e9}").as_str(), "a b/c%20d/\u{e9}");
}

#[test]
fn parse_refuses_what_is_no_path() {
    assert!(Location::parse("//").is_none());
    assert!(Location::parse("a//b").is_none());
    assert!(Location::parse("a//").is_none());
    assert!(Location::parse("./a").is_none());
    assert!(Location::parse("a/..").is_none());
    assert!(Location::parse("a\nb").is_none());
    assert!(Location::parse("a\u{7f}").is_none());
    assert!(Location::parse("a/...").is_some());
}

#[test]
fn parsing_again_changes_nothing() {
    for raw in ["/a/b/", "x", "", "/_versions/1.manifest"] {
        let location = at(raw);
        assert!(at(location.as_str()).is_same(&location));
    }
}

#[test]
fn filename_is_the_last_segment() {
    assert_eq!(at("a/b/c.lance").filename().unwrap(), "c.lance");
    assert_eq!(at("c").filename().unwrap(), "c");
    assert!(at("").filename().is_none());
    assert_eq!(at("").filename_or_empty(), "");
    assert_eq!(at("a/b").filename_or_empty(), "b");
}

#[test]
fn same_location_has_the_same_text() {
    assert!(at("a/b").is_same(&at("/a/b/")));
    assert!(!at("a/b").is_same(&at("a/c")));
    assert!(at("a/b").clone().is_same(&at("a/b")));
}

#[test]
fn map_keeps_the_last_value_in_order_of_text() {
    let mut map = LocationMap::new();
    for (text, value) in [("b", 1), ("a/z", 2), ("\u{e9}", 3), ("a", 4), ("b", 5), ("B", 6)] {
        map.insert(at(text), value);
    }
    assert_eq!(keys(&map), vec!["B", "a", "a/z", "b", "\u{e9}"]);
    assert_eq!(map.get(&at("b")), Some(&5));
    assert_eq!(map.get(&at("c")), None);
    assert!(map.contains_key(&at("a/z")));
    map.remove(&at("a"));
    map.remove(&at("none"));
    assert_eq!(keys(&map), vec!["B", "a/z", "b", "\u{e9}"]);
    let values: Vec<i32> = map.into_entries().into_iter().map(|entry| entry.value).collect();
    assert_eq!(values, vec![6, 2, 5, 3]);
}

#[test]
fn map_drops_entries_that_another_shares() {
    let mut map: LocationMap<u64> = LocationMap::new();
    map.insert(at("a"), 1);
    map.insert(at("b"), 2);
    map.insert(at("c"), 3);
    let mut other = map.snapshot();
    other.insert(at("b"), 7);
    other.remove(&at("c"));
    other.insert(at("d"), 4);
    map.drop_shared(&other);
    assert_eq!(keys(&map), vec!["b", "c"]);
    assert_eq!(map.get(&at("b")), Some(&2));
}
