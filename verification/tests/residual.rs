use babel_filter::render::{append_decimal, append_escaped, append_quoted, append_quoted_list};
use babel_filter::residual::{residual_records, strip_category_prefix, write_records};
use babel_filter::{
    build_index, filter_file, write_residual, BabelFormat, Config, FilterFormat, MembershipIndex,
    Reader, ResidualRecord, Writer,
};

fn filter_entry(id: &str, name: Option<&str>, category: Option<Vec<&str>>) -> FilterFormat {
    FilterFormat {
        id: String::from(id),
        name: name.map(String::from),
        category: category.map(|c| c.into_iter().map(String::from).collect()),
    }
}

fn decimal(n: usize) -> String {
    let mut out = String::new();
    append_decimal(&mut out, n);
    out
}

fn sorted_lines(bytes: Vec<u8>) -> Vec<String> {
    let mut lines: Vec<String> = String::from_utf8(bytes)
        .unwrap()
        .lines()
        .map(String::from)
        .collect();
    lines.sort();
    lines
}

#[test]
fn prefix_is_taken_off() {
    assert_eq!(strip_category_prefix("biolink:Disease"), "Disease");
    assert_eq!(strip_category_prefix("biolink:"), "");
    assert_eq!(strip_category_prefix("biolink:biolink:Gene"), "biolink:Gene");
    assert_eq!(strip_category_prefix("biolink:größe"), "größe");
}

#[test]
fn only_a_prefix_is_taken_off() {
    assert_eq!(strip_category_prefix("Disease"), "Disease");
    assert_eq!(strip_category_prefix(""), "");
    assert_eq!(strip_category_prefix("biolink"), "biolink");
    assert_eq!(strip_category_prefix("Biolink:Gene"), "Biolink:Gene");
    assert_eq!(strip_category_prefix("xbiolink:Gene"), "xbiolink:Gene");
    assert_eq!(strip_category_prefix("a:biolink:Gene"), "a:biolink:Gene");
    assert_eq!(strip_category_prefix("größe:biolink:"), "größe:biolink:");
}

#[test]
fn numbers_in_decimal() {
    assert_eq!(decimal(0), "0");
    assert_eq!(decimal(7), "7");
    assert_eq!(decimal(10), "10");
    assert_eq!(decimal(109), "109");
    assert_eq!(decimal(1234567890), "1234567890");
    assert_eq!(decimal(usize::MAX), usize::MAX.to_string());
}

#[test]
fn decimal_is_appended() {
    let mut out = String::from("n=");
    append_decimal(&mut out, 42);
    assert_eq!(out, "n=42");
}

#[test]
fn record_of_an_entry() {
    let record = ResidualRecord::from_entry(
        "MONDO:1",
        &filter_entry("other", Some("flu"), Some(vec!["biolink:Disease", "Thing"])),
    )
    .unwrap();
    assert_eq!(record.identifier, "MONDO:1");
    assert_eq!(record.names, vec![String::from("flu")]);
    assert_eq!(record.types, vec![String::from("Disease"), String::from("Thing")]);
    assert_eq!(record.shortest_name_length, 3);
}

#[test]
fn name_length_counts_characters() {
    let record =
        ResidualRecord::from_entry("A", &filter_entry("A", Some("größe"), Some(vec![]))).unwrap();
    assert_eq!(record.shortest_name_length, 5);
    let empty = ResidualRecord::from_entry("A", &filter_entry("A", Some(""), Some(vec![]))).unwrap();
    assert_eq!(empty.shortest_name_length, 0);
}

#[test]
fn entry_without_name_or_categories_gives_no_record() {
    assert!(ResidualRecord::from_entry("A", &filter_entry("A", None, Some(vec!["x"]))).is_none());
    assert!(ResidualRecord::from_entry("A", &filter_entry("A", Some("a"), None)).is_none());
    assert!(ResidualRecord::from_entry("A", &filter_entry("A", None, None)).is_none());
}

#[test]
fn rendered_record() {
    let record = ResidualRecord::from_entry(
        "MONDO:1",
        &filter_entry("MONDO:1", Some("influenza"), Some(vec!["biolink:Disease", "biolink:Thing"])),
    )
    .unwrap();
    assert_eq!(
        record.render("curie"),
        "{\"curie\":\"MONDO:1\",\"names\":[\"influenza\"],\"types\":[\"Disease\",\"Thing\"],\"preferred_name\":[\"influenza\"],\"shortest_name_length\":9}"
    );
}

#[test]
fn rendered_record_without_types_under_another_key() {
    let record = ResidualRecord::from_entry("A", &filter_entry("A", Some("n"), Some(vec![]))).unwrap();
    assert_eq!(
        record.render("id"),
        "{\"id\":\"A\",\"names\":[\"n\"],\"types\":[],\"preferred_name\":[\"n\"],\"shortest_name_length\":1}"
    );
}

#[test]
fn rendered_record_with_one_type() {
    let record = ResidualRecord {
        identifier: String::from("A"),
        names: vec![String::from("n"), String::from("m")],
        types: vec![String::from("T")],
        shortest_name_length: 12,
    };
    assert_eq!(
        record.render("curie"),
        "{\"curie\":\"A\",\"names\":[\"n\",\"m\"],\"types\":[\"T\"],\"preferred_name\":[\"n\",\"m\"],\"shortest_name_length\":12}"
    );
}

#[test]
fn records_follow_the_order_of_the_entries() {
    let entries = vec![
        (String::from("B"), filter_entry("B", Some("b"), Some(vec!["x"]))),
        (String::from("C"), filter_entry("C", None, Some(vec!["x"]))),
        (String::from("A"), filter_entry("A", Some("a"), Some(vec![]))),
        (String::from("D"), filter_entry("D", Some("d"), None)),
    ];
    let records = residual_records(&entries);
    let ids: Vec<&str> = records.iter().map(|r| r.identifier.as_str()).collect();
    assert_eq!(ids, vec!["B", "A"]);
}

#[test]
fn records_are_written_one_to_a_line() {
    let records = residual_records(&vec![
        (String::from("B"), filter_entry("B", Some("b"), Some(vec!["x"]))),
        (String::from("A"), filter_entry("A", Some("a"), Some(vec![]))),
    ]);
    let mut writer = Writer::new("out.txt");
    write_records(&records, &mut writer, "curie");
    assert_eq!(
        String::from_utf8(writer.finish().unwrap()).unwrap(),
        "{\"curie\":\"B\",\"names\":[\"b\"],\"types\":[\"x\"],\"preferred_name\":[\"b\"],\"shortest_name_length\":1}\n{\"curie\":\"A\",\"names\":[\"a\"],\"types\":[],\"preferred_name\":[\"a\"],\"shortest_name_length\":1}\n"
    );
}

#[test]
fn residual_of_an_empty_index_is_empty() {
    let mut writer = Writer::new("out.txt");
    assert_eq!(write_residual(MembershipIndex::new(), &mut writer, "curie"), 0);
    assert_eq!(writer.finish().unwrap(), Vec::<u8>::new());
}

#[test]
fn residual_holds_what_was_left() {
    let mut index = MembershipIndex::new();
    index.insert(filter_entry("A", Some("a"), Some(vec!["biolink:X"])));
    index.insert(filter_entry("B", Some("bb"), Some(vec!["biolink:Y", "Z"])));
    index.insert(filter_entry("C", None, Some(vec!["biolink:X"])));
    index.insert(filter_entry("D", Some("d"), None));
    index.remove("A");
    let mut writer = Writer::new("out.txt");
    let written = write_residual(index, &mut writer, "curie");
    assert_eq!(written, 1);
    assert_eq!(
        String::from_utf8(writer.finish().unwrap()).unwrap(),
        "{\"curie\":\"B\",\"names\":[\"bb\"],\"types\":[\"Y\",\"Z\"],\"preferred_name\":[\"bb\"],\"shortest_name_length\":2}\n"
    );
}

#[test]
fn residual_is_complete() {
    let filter = "{\"id\":\"A\",\"name\":\"a\",\"category\":[\"biolink:X\"]}\n\
                  {\"id\":\"B\",\"name\":\"b\",\"category\":[\"biolink:X\"]}\n\
                  {\"id\":\"C\",\"name\":\"c\",\"category\":[\"biolink:X\"]}\n\
                  {\"id\":\"D\",\"category\":[\"biolink:X\"]}\n\
                  {\"id\":\"E\",\"name\":\"e\"}\n\
                  {\"id\":\"F\",\"name\":\"f\",\"category\":[\"biolink:Out\"]}\n";
    let mut config = Config::new();
    config.exclude_category = Some(vec![String::from("biolink:Out")]);
    let (mut index, removed) = build_index(
        Reader::new("filter.jsonl", filter.as_bytes().to_vec()).unwrap(),
        &config,
    );
    assert_eq!(removed, 1);
    let mut out = Writer::new("one.txt");
    filter_file(
        &mut index,
        Reader::new("one.txt", b"{\"curie\":\"B\"}\n{\"curie\":\"F\"}\n".to_vec()).unwrap(),
        &mut out,
        "curie",
    );
    assert_eq!(out.finish().unwrap(), b"{\"curie\":\"B\"}\n".to_vec());

    let mut writer = Writer::new("residual.txt");
    let written = write_residual(index, &mut writer, "curie");
    assert_eq!(written, 2);
    assert_eq!(
        sorted_lines(writer.finish().unwrap()),
        vec![
            "{\"curie\":\"A\",\"names\":[\"a\"],\"types\":[\"X\"],\"preferred_name\":[\"a\"],\"shortest_name_length\":1}",
            "{\"curie\":\"C\",\"names\":[\"c\"],\"types\":[\"X\"],\"preferred_name\":[\"c\"],\"shortest_name_length\":1}",
        ]
    );
}

#[test]
fn residual_lines_read_as_data_records() {
    let mut index = MembershipIndex::new();
    index.insert(filter_entry("A", Some("a"), Some(vec!["biolink:X"])));
    let mut writer = Writer::new("NonBabelNodes.txt.gz");
    assert_eq!(write_residual(index, &mut writer, "curie"), 1);
    let bytes = writer.finish().unwrap();

    let mut again = MembershipIndex::new();
    again.insert(filter_entry("A", None, None));
    let mut out = Writer::new("out.txt");
    let stats = filter_file(
        &mut again,
        Reader::new("NonBabelNodes.txt.gz", bytes).unwrap(),
        &mut out,
        "curie",
    );
    assert_eq!(stats.lines_read, 1);
    assert_eq!(stats.lines_kept, 1);
}

fn escaped(text: &str) -> String {
    let mut out = String::new();
    append_escaped(&mut out, text);
    out
}

#[test]
fn ordinary_text_is_not_escaped() {
    assert_eq!(escaped(""), "");
    assert_eq!(escaped("MONDO:0005148"), "MONDO:0005148");
    assert_eq!(escaped("type 2 diabetes mellitus"), "type 2 diabetes mellitus");
    assert_eq!(escaped("größe/日本 'x' \u{7f}"), "größe/日本 'x' \u{7f}");
}

#[test]
fn quotes_and_backslashes_are_escaped() {
    assert_eq!(escaped("a\"b"), "a\\\"b");
    assert_eq!(escaped("a\\b"), "a\\\\b");
    assert_eq!(escaped("\"\""), "\\\"\\\"");
}

#[test]
fn control_characters_are_escaped() {
    assert_eq!(escaped("a\nb"), "a\\nb");
    assert_eq!(escaped("\r\t"), "\\r\\t");
    assert_eq!(escaped("\u{8}\u{c}"), "\\b\\f");
    assert_eq!(escaped("\u{0}"), "\\u0000");
    assert_eq!(escaped("\u{1}\u{b}\u{e}"), "\\u0001\\u000b\\u000e");
    assert_eq!(escaped("\u{10}\u{1a}\u{1f}"), "\\u0010\\u001a\\u001f");
    assert_eq!(escaped(" "), " ");
}

#[test]
fn escaped_text_is_what_a_json_writer_writes() {
    let mut text = String::new();
    for code in 0u32..0x180 {
        text.push(char::from_u32(code).unwrap());
    }
    text.push_str("日本\u{10ffff}");
    let written = serde_json::to_string(&text).unwrap();
    assert_eq!(format!("\"{}\"", escaped(&text)), written);
}

#[test]
fn appended_after_what_is_there() {
    let mut out = String::from("x=");
    append_escaped(&mut out, "a\"");
    assert_eq!(out, "x=a\\\"");
}

#[test]
fn rendered_record_with_special_characters() {
    let record = ResidualRecord::from_entry(
        "A\"1",
        &filter_entry("A\"1", Some("a\"b\\c\nd"), Some(vec!["biolink:T\r", "x\ty"])),
    )
    .unwrap();
    assert_eq!(record.shortest_name_length, 7);
    assert_eq!(
        record.render("cu\"rie"),
        "{\"cu\\\"rie\":\"A\\\"1\",\"names\":[\"a\\\"b\\\\c\\nd\"],\"types\":[\"T\\r\",\"x\\ty\"],\"preferred_name\":[\"a\\\"b\\\\c\\nd\"],\"shortest_name_length\":7}"
    );
}

#[test]
fn rendered_record_reads_back() {
    let record = ResidualRecord::from_entry(
        "we\"ird\n\\id",
        &filter_entry("x", Some("na\"me\n"), Some(vec!["biolink:T\r", "x\ty\u{1}"])),
    )
    .unwrap();
    let line = record.render("curie");
    assert!(!line.contains('\n'));

    let value: serde_json::Value = serde_json::from_str(&line).unwrap();
    assert_eq!(value["curie"], serde_json::Value::String(String::from("we\"ird\n\\id")));
    assert_eq!(value["names"][0], serde_json::Value::String(String::from("na\"me\n")));
    assert_eq!(value["preferred_name"][0], value["names"][0]);
    assert_eq!(value["types"][0], serde_json::Value::String(String::from("T\r")));
    assert_eq!(value["types"][1], serde_json::Value::String(String::from("x\ty\u{1}")));
    assert_eq!(value["shortest_name_length"], serde_json::Value::from(6u64));

    assert_eq!(
        BabelFormat::parse(&line, "curie").unwrap().curie,
        "we\"ird\n\\id"
    );
}

#[test]
fn residual_with_newlines_in_names_stays_one_record_to_a_line() {
    let mut index = MembershipIndex::new();
    index.insert(filter_entry("A", Some("two\nlines\r"), Some(vec!["biolink:X\n"])));
    let mut writer = Writer::new("out.txt");
    assert_eq!(write_residual(index, &mut writer, "curie"), 1);
    let lines = Reader::new("out.txt", writer.finish().unwrap()).unwrap().lines();
    assert_eq!(
        lines,
        vec![Ok(String::from(
            "{\"curie\":\"A\",\"names\":[\"two\\nlines\\r\"],\"types\":[\"X\\n\"],\"preferred_name\":[\"two\\nlines\\r\"],\"shortest_name_length\":10}"
        ))]
    );
}

#[test]
fn text_as_a_json_string() {
    let mut out = String::from("k:");
    append_quoted(&mut out, "a\"b");
    assert_eq!(out, "k:\"a\\\"b\"");
    let mut empty = String::new();
    append_quoted(&mut empty, "");
    assert_eq!(empty, "\"\"");
}

#[test]
fn texts_as_json_strings_with_commas_between() {
    let mut none = String::from("[");
    append_quoted_list(&mut none, &vec![]);
    assert_eq!(none, "[");
    let mut one = String::from("[");
    append_quoted_list(&mut one, &vec![String::from("a")]);
    assert_eq!(one, "[\"a\"");
    let mut three = String::new();
    append_quoted_list(
        &mut three,
        &vec![String::from("a"), String::new(), String::from("c,\"d")],
    );
    assert_eq!(three, "\"a\",\"\",\"c,\\\"d\"");
}
