use babel_filter::{build_index, filter_file, Config, MembershipIndex, Reader, Writer};

fn reader(name: &str, text: &str) -> Reader {
    Reader::new(name, text.as_bytes().to_vec()).unwrap()
}

fn excluding(categories: Vec<&str>) -> Config {
    let mut config = Config::new();
    config.exclude_category = Some(categories.into_iter().map(String::from).collect());
    config
}

fn filtered(index: &mut MembershipIndex, text: &str) -> (String, usize, usize) {
    let mut writer = Writer::new("out.txt");
    let stats = filter_file(index, reader("in.txt", text), &mut writer, "curie");
    (
        String::from_utf8(writer.finish().unwrap()).unwrap(),
        stats.lines_read,
        stats.lines_kept,
    )
}

#[test]
fn every_valid_line_is_indexed_once() {
    let (index, removed) = build_index(
        reader(
            "filter.jsonl",
            "{\"id\":\"A\",\"name\":\"a\"}\n{\"id\":\"B\"}\n{\"id\":\"C\",\"category\":[\"x\"]}\n",
        ),
        &Config::new(),
    );
    assert_eq!(removed, 0);
    assert_eq!(index.len(), 3);
    assert!(index.contains("A") && index.contains("B") && index.contains("C"));
    let mut keys: Vec<String> = index.into_entries().into_iter().map(|(k, _)| k).collect();
    keys.sort();
    assert_eq!(keys, vec!["A", "B", "C"]);
}

#[test]
fn last_line_of_an_identifier_wins() {
    let (index, removed) = build_index(
        reader(
            "filter.jsonl",
            "{\"id\":\"A\",\"name\":\"first\"}\n{\"id\":\"B\"}\n{\"id\":\"A\",\"name\":\"second\",\"category\":[\"c\"]}\n",
        ),
        &Config::new(),
    );
    assert_eq!(removed, 0);
    assert_eq!(index.len(), 2);
    let entry = index.get("A").unwrap();
    assert_eq!(entry.name, Some(String::from("second")));
    assert_eq!(entry.category, Some(vec![String::from("c")]));
}

#[test]
fn malformed_lines_are_passed_over() {
    let mut bytes = b"{\"id\":\"A\"}\nnot json\n{\"name\":\"x\"}\n{\"id\":5}\n\n".to_vec();
    bytes.extend_from_slice(&[0xff, b'\n']);
    bytes.extend_from_slice(b"{\"id\":\"B\"}");
    let (index, removed) =
        build_index(Reader::new("filter.jsonl", bytes).unwrap(), &Config::new());
    assert_eq!(removed, 0);
    assert_eq!(index.len(), 2);
    assert!(index.contains("A") && index.contains("B"));
}

#[test]
fn empty_filter_file_gives_an_empty_index() {
    let (index, removed) = build_index(reader("filter.jsonl", ""), &Config::new());
    assert_eq!(removed, 0);
    assert_eq!(index.len(), 0);
}

#[test]
fn excluded_category_keeps_an_entry_out() {
    let (index, removed) = build_index(
        reader(
            "filter.jsonl",
            "{\"id\":\"A\",\"category\":[\"x\"]}\n{\"id\":\"B\",\"category\":[\"x\",\"y\"]}\n{\"id\":\"C\",\"category\":[\"z\",\"w\"]}\n",
        ),
        &excluding(vec!["y", "z"]),
    );
    assert_eq!(removed, 2);
    assert_eq!(index.len(), 1);
    assert!(index.contains("A"));
    assert!(!index.contains("B"));
    assert!(!index.contains("C"));
}

#[test]
fn entry_without_categories_is_indexed_under_an_exclusion_set() {
    let (index, removed) = build_index(
        reader(
            "filter.jsonl",
            "{\"id\":\"A\"}\n{\"id\":\"B\",\"category\":\"y\"}\n{\"id\":\"C\",\"category\":[]}\n",
        ),
        &excluding(vec!["y"]),
    );
    assert_eq!(removed, 0);
    assert_eq!(index.len(), 3);
}

#[test]
fn later_line_overwrites_an_excluded_one() {
    let (index, removed) = build_index(
        reader(
            "filter.jsonl",
            "{\"id\":\"A\",\"category\":[\"y\"],\"name\":\"out\"}\n{\"id\":\"A\",\"category\":[\"x\"],\"name\":\"in\"}\n",
        ),
        &excluding(vec!["y"]),
    );
    assert_eq!(removed, 1);
    assert_eq!(index.get("A").unwrap().name, Some(String::from("in")));
}

#[test]
fn excluded_line_does_not_remove_an_earlier_entry() {
    let (index, removed) = build_index(
        reader(
            "filter.jsonl",
            "{\"id\":\"A\",\"category\":[\"x\"],\"name\":\"in\"}\n{\"id\":\"A\",\"category\":[\"y\"],\"name\":\"out\"}\n",
        ),
        &excluding(vec!["y"]),
    );
    assert_eq!(removed, 1);
    assert_eq!(index.get("A").unwrap().name, Some(String::from("in")));
}

#[test]
fn without_exclusion_every_category_is_indexed() {
    let (index, removed) = build_index(
        reader(
            "filter.jsonl",
            "{\"id\":\"A\",\"category\":[\"x\"]}\n{\"id\":\"B\",\"category\":[\"y\"]}\n",
        ),
        &Config::new(),
    );
    assert_eq!(removed, 0);
    assert!(index.contains("A") && index.contains("B"));
}

#[test]
fn empty_exclusion_set_excludes_nothing() {
    let (index, removed) = build_index(
        reader("filter.jsonl", "{\"id\":\"A\",\"category\":[\"x\"]}\n"),
        &excluding(vec![]),
    );
    assert_eq!(removed, 0);
    assert!(index.contains("A"));
}

#[test]
fn configured_filter_keys_are_used() {
    let mut config = excluding(vec!["y"]);
    config.filter_file_identifier = String::from("key");
    config.filter_file_category_key = String::from("tags");
    let (index, removed) = build_index(
        reader(
            "filter.jsonl",
            "{\"key\":\"A\",\"category\":[\"y\"]}\n{\"key\":\"B\",\"tags\":[\"y\"]}\n{\"id\":\"C\"}\n",
        ),
        &config,
    );
    assert_eq!(removed, 1);
    assert_eq!(index.len(), 1);
    assert!(index.contains("A"));
}

#[test]
fn compressed_filter_file_is_read() {
    let mut writer = Writer::new("filter.jsonl.gz");
    writer.write_line("{\"id\":\"A\"}");
    writer.write_line("{\"id\":\"B\"}");
    let bytes = writer.finish().unwrap();
    let (index, _) = build_index(
        Reader::new("filter.jsonl.gz", bytes).unwrap(),
        &Config::new(),
    );
    assert_eq!(index.len(), 2);
}

#[test]
fn matching_lines_pass_as_they_stand() {
    let (mut index, _) = build_index(
        reader("filter.jsonl", "{\"id\":\"A\"}\n{\"id\":\"B\"}\n{\"id\":\"C\"}\n"),
        &Config::new(),
    );
    let (out, read, kept) = filtered(
        &mut index,
        "{ \"names\" : [\"n\"],   \"curie\":\"C\" }\n{\"curie\":\"X\"}\n{\"z\":1.50,\"curie\":\"A\",\"a\":\"\\u00e9\"}\n",
    );
    assert_eq!(
        out,
        "{ \"names\" : [\"n\"],   \"curie\":\"C\" }\n{\"z\":1.50,\"curie\":\"A\",\"a\":\"\\u00e9\"}\n"
    );
    assert_eq!(read, 3);
    assert_eq!(kept, 2);
    assert!(!index.contains("A"));
    assert!(index.contains("B"));
    assert!(!index.contains("C"));
}

#[test]
fn lines_without_an_identifier_are_dropped() {
    let (mut index, _) = build_index(reader("filter.jsonl", "{\"id\":\"A\"}\n"), &Config::new());
    let (out, read, kept) = filtered(
        &mut index,
        "garbage\n{\"id\":\"A\"}\n{\"curie\":7}\n\n[\"A\"]\n",
    );
    assert_eq!(out, "");
    assert_eq!(read, 5);
    assert_eq!(kept, 0);
    assert!(index.contains("A"));
}

#[test]
fn second_line_of_an_identifier_is_dropped() {
    let (mut index, _) = build_index(reader("filter.jsonl", "{\"id\":\"A\"}\n"), &Config::new());
    let (out, read, kept) = filtered(
        &mut index,
        "{\"curie\":\"A\",\"n\":1}\n{\"curie\":\"A\",\"n\":2}\n{\"curie\":\"A\",\"n\":1}\n",
    );
    assert_eq!(out, "{\"curie\":\"A\",\"n\":1}\n");
    assert_eq!(read, 3);
    assert_eq!(kept, 1);
}

#[test]
fn first_file_wins() {
    let (mut index, _) = build_index(
        reader("filter.jsonl", "{\"id\":\"X\"}\n{\"id\":\"Y\"}\n"),
        &Config::new(),
    );
    let (first, _, kept_first) = filtered(&mut index, "{\"curie\":\"X\",\"file\":1}\n");
    let (second, read_second, kept_second) = filtered(
        &mut index,
        "{\"curie\":\"X\",\"file\":2}\n{\"curie\":\"Y\",\"file\":2}\n",
    );
    assert_eq!(first, "{\"curie\":\"X\",\"file\":1}\n");
    assert_eq!(kept_first, 1);
    assert_eq!(second, "{\"curie\":\"Y\",\"file\":2}\n");
    assert_eq!(read_second, 2);
    assert_eq!(kept_second, 1);
    assert_eq!(index.len(), 0);
}

#[test]
fn order_of_lines_is_kept() {
    let (mut index, _) = build_index(
        reader("filter.jsonl", "{\"id\":\"1\"}\n{\"id\":\"2\"}\n{\"id\":\"3\"}\n"),
        &Config::new(),
    );
    let (out, _, _) = filtered(
        &mut index,
        "{\"curie\":\"3\"}\n{\"curie\":\"1\"}\n{\"curie\":\"2\"}\n",
    );
    assert_eq!(out, "{\"curie\":\"3\"}\n{\"curie\":\"1\"}\n{\"curie\":\"2\"}\n");
}

#[test]
fn line_that_is_no_text_is_counted_and_dropped() {
    let (mut index, _) = build_index(reader("filter.jsonl", "{\"id\":\"A\"}\n"), &Config::new());
    let mut bytes = vec![0xc3, 0x28, b'\n'];
    bytes.extend_from_slice(b"{\"curie\":\"A\"}\n");
    let mut writer = Writer::new("out.txt");
    let stats = filter_file(
        &mut index,
        Reader::new("in.txt", bytes).unwrap(),
        &mut writer,
        "curie",
    );
    assert_eq!(stats.lines_read, 2);
    assert_eq!(stats.lines_kept, 1);
    assert_eq!(writer.finish().unwrap(), b"{\"curie\":\"A\"}\n".to_vec());
}

#[test]
fn configured_data_key_is_used() {
    let (mut index, _) = build_index(reader("filter.jsonl", "{\"id\":\"A\"}\n"), &Config::new());
    let mut writer = Writer::new("out.txt");
    let stats = filter_file(
        &mut index,
        reader("in.txt", "{\"curie\":\"A\"}\n{\"node\":\"A\"}\n"),
        &mut writer,
        "node",
    );
    assert_eq!(stats.lines_kept, 1);
    assert_eq!(writer.finish().unwrap(), b"{\"node\":\"A\"}\n".to_vec());
}

#[test]
fn kept_lines_follow_what_the_writer_already_holds() {
    let (mut index, _) = build_index(reader("filter.jsonl", "{\"id\":\"A\"}\n"), &Config::new());
    let mut writer = Writer::new("out.txt");
    writer.write_line("header");
    filter_file(
        &mut index,
        reader("in.txt", "{\"curie\":\"A\"}\n"),
        &mut writer,
        "curie",
    );
    assert_eq!(writer.finish().unwrap(), b"header\n{\"curie\":\"A\"}\n".to_vec());
}

#[test]
fn carriage_returns_before_newlines_do_not_pass() {
    let (mut index, _) = build_index(reader("filter.jsonl", "{\"id\":\"A\"}\r\n"), &Config::new());
    let (out, _, _) = filtered(&mut index, "{\"curie\":\"A\"}\r\n");
    assert_eq!(out, "{\"curie\":\"A\"}\n");
}
