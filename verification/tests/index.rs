use babel_filter::engine::is_excluded;
use babel_filter::{has_excluded_category, BabelFormat, FilterFormat, MembershipIndex};

fn entry(id: &str, name: Option<&str>, category: Option<Vec<&str>>) -> FilterFormat {
    FilterFormat {
        id: String::from(id),
        name: name.map(String::from),
        category: category.map(|c| c.into_iter().map(String::from).collect()),
    }
}

fn strings(items: Vec<&str>) -> Vec<String> {
    items.into_iter().map(String::from).collect()
}

#[test]
fn new_index_is_empty() {
    let index = MembershipIndex::new();
    assert_eq!(index.len(), 0);
    assert!(!index.contains("A"));
    assert!(index.get("A").is_none());
    assert!(index.into_entries().is_empty());
}

#[test]
fn inserted_entry_is_found_under_its_identifier() {
    let mut index = MembershipIndex::new();
    index.insert(entry("A", Some("a"), None));
    assert_eq!(index.len(), 1);
    assert!(index.contains("A"));
    assert!(!index.contains("a"));
    assert_eq!(index.get("A").unwrap().name, Some(String::from("a")));
}

#[test]
fn later_entry_replaces_earlier_one() {
    let mut index = MembershipIndex::new();
    index.insert(entry("A", Some("first"), None));
    index.insert(entry("B", Some("other"), None));
    index.insert(entry("A", Some("second"), Some(vec!["x"])));
    assert_eq!(index.len(), 2);
    let found = index.get("A").unwrap();
    assert_eq!(found.name, Some(String::from("second")));
    assert_eq!(found.category, Some(strings(vec!["x"])));
}

#[test]
fn removed_entry_is_gone() {
    let mut index = MembershipIndex::new();
    index.insert(entry("A", Some("a"), None));
    index.insert(entry("B", Some("b"), None));
    let removed = index.remove("A").unwrap();
    assert_eq!(removed.id, "A");
    assert_eq!(removed.name, Some(String::from("a")));
    assert!(!index.contains("A"));
    assert!(index.contains("B"));
    assert_eq!(index.len(), 1);
    assert!(index.remove("A").is_none());
    assert_eq!(index.len(), 1);
}

#[test]
fn entries_come_out_once_each() {
    let mut index = MembershipIndex::new();
    index.insert(entry("A", Some("a"), None));
    index.insert(entry("B", Some("b"), None));
    index.insert(entry("C", Some("c"), None));
    index.insert(entry("B", Some("b2"), None));
    let mut entries: Vec<(String, Option<String>)> = index
        .into_entries()
        .into_iter()
        .map(|(key, entry)| {
            assert_eq!(key, entry.id);
            (key, entry.name)
        })
        .collect();
    entries.sort();
    assert_eq!(
        entries,
        vec![
            (String::from("A"), Some(String::from("a"))),
            (String::from("B"), Some(String::from("b2"))),
            (String::from("C"), Some(String::from("c"))),
        ]
    );
}

#[test]
fn shared_category_is_found() {
    assert!(has_excluded_category(
        &strings(vec!["a", "b", "c"]),
        &strings(vec!["x", "c"])
    ));
    assert!(has_excluded_category(&strings(vec!["a"]), &strings(vec!["a"])));
}

#[test]
fn nothing_shared_is_not_found() {
    assert!(!has_excluded_category(
        &strings(vec!["a", "b"]),
        &strings(vec!["x", "y"])
    ));
    assert!(!has_excluded_category(&strings(vec![]), &strings(vec!["x"])));
    assert!(!has_excluded_category(&strings(vec!["a"]), &strings(vec![])));
    assert!(!has_excluded_category(&strings(vec![]), &strings(vec![])));
}

#[test]
fn categories_are_compared_exactly() {
    assert!(!has_excluded_category(
        &strings(vec!["biolink:Gene"]),
        &strings(vec!["biolink:gene", "Gene", "biolink:Gene "])
    ));
}

#[test]
fn exclusion_needs_a_set_and_categories() {
    let with = entry("A", None, Some(vec!["x", "y"]));
    let without = entry("A", None, None);
    assert!(is_excluded(&with, &Some(strings(vec!["y"]))));
    assert!(!is_excluded(&with, &Some(strings(vec!["z"]))));
    assert!(!is_excluded(&with, &Some(strings(vec![]))));
    assert!(!is_excluded(&with, &None));
    assert!(!is_excluded(&without, &Some(strings(vec!["y"]))));
    assert!(!is_excluded(&without, &None));
}

#[test]
fn entering_respects_the_exclusion_set() {
    let mut index = MembershipIndex::new();
    let exclusions = Some(strings(vec!["y"]));
    assert!(index.enter(entry("A", None, Some(vec!["x"])), &exclusions));
    assert!(!index.enter(entry("B", None, Some(vec!["y"])), &exclusions));
    assert!(index.enter(entry("C", None, None), &exclusions));
    assert!(index.contains("A"));
    assert!(!index.contains("B"));
    assert!(index.contains("C"));
    assert_eq!(index.len(), 2);
}

#[test]
fn excluded_entry_leaves_an_earlier_one_in_place() {
    let mut index = MembershipIndex::new();
    let exclusions = Some(strings(vec!["y"]));
    assert!(index.enter(entry("A", Some("kept"), Some(vec!["x"])), &exclusions));
    assert!(!index.enter(entry("A", Some("excluded"), Some(vec!["y"])), &exclusions));
    assert_eq!(index.get("A").unwrap().name, Some(String::from("kept")));
}

#[test]
fn taking_a_record_consumes_its_entry() {
    let mut index = MembershipIndex::new();
    index.insert(entry("A", None, None));
    let record = Some(BabelFormat { curie: String::from("A") });
    assert!(index.take(&record));
    assert!(!index.contains("A"));
    assert!(!index.take(&record));
    assert!(!index.take(&None));
}

#[test]
fn taking_a_line_consumes_its_entry() {
    let mut index = MembershipIndex::new();
    index.insert(entry("A", None, None));
    index.insert(entry("B", None, None));
    assert!(!index.take_line("{\"curie\":\"C\"}", "curie"));
    assert!(!index.take_line("{\"id\":\"A\"}", "curie"));
    assert!(!index.take_line("garbage", "curie"));
    assert_eq!(index.len(), 2);
    assert!(index.take_line("{\"curie\":\"A\",\"x\":1}", "curie"));
    assert_eq!(index.len(), 1);
    assert!(!index.take_line("{\"curie\":\"A\",\"x\":1}", "curie"));
    assert!(index.take_line("{\"id\":\"B\"}", "id"));
    assert_eq!(index.len(), 0);
}
