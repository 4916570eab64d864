use phemius::hash::{hash_entries, sha256_bytes, sha256_text};
use phemius::number::{numbers_agree, parse_safe_number, parse_unsigned, Decimal};
use phemius::paths::{
    before_path, climbs, eq_ignore_case, find_file, is_absolute, is_under, join_path,
    plain_components, plain_path, remove_file, write_file, FileEntry,
};
use phemius::schema::{schema_is_supported, validates_schema};
use phemius::table::Table;
use phemius::text::{
    before, blank, contains_part, contains_text, decimal_text, hex_text, is_sha256, join_texts,
    parse_size, parse_u64, split_lines, split_text, split_words, strip_prefix, trimmed,
    trimmed_start,
};
use phemius::unicode::fold_text;
use phemius::value::{parse_json, read_json, Json};

fn json(text: &str) -> Json {
    parse_json(text).expect("valid JSON")
}

fn accepts(schema: &str, value: &str) -> bool {
    validates_schema(&json(schema), &json(value))
}

#[test]
fn digests_are_those_of_sha256() {
    assert_eq!(
        sha256_bytes(b""),
        "e3b0c44298fc1c149afbf4c8996fb92427ae41e4649b934ca495991b7852b855"
    );
    assert_eq!(
        sha256_text("abc"),
        "ba7816bf8f01cfea414140de5dae2223b00361a396177a9cb410ff61f20015ad"
    );
    assert!(is_sha256(&sha256_text("abc")));
    assert!(!is_sha256("abc"));
    assert!(!is_sha256(&sha256_text("abc").to_uppercase()));
}

#[test]
fn tree_digest_frames_paths_and_contents() {
    let tree = vec![
        FileEntry { path: "a.md".into(), bytes: b"one".to_vec() },
        FileEntry { path: "b/c.md".into(), bytes: b"two".to_vec() },
    ];
    assert_eq!(
        hash_entries(&tree),
        "b166315966bedb27650d9bed7b1328dca962611791e1f946dc2d439233e8ddc9"
    );
    let moved = vec![
        FileEntry { path: "a.mdo".into(), bytes: b"ne".to_vec() },
        FileEntry { path: "b/c.md".into(), bytes: b"two".to_vec() },
    ];
    assert_ne!(hash_entries(&tree), hash_entries(&moved));
}

#[test]
fn texts_are_taken_apart() {
    assert!(blank(" \u{3000}\n"));
    assert!(!blank(" x "));
    assert_eq!(trimmed(" \u{3000}a b\t"), "a b");
    assert_eq!(trimmed_start("  a "), "a ");
    assert_eq!(split_text("a//b", '/'), vec!["a", "", "b"]);
    assert_eq!(split_words("  one\u{3000}two\nthree "), vec!["one", "two", "three"]);
    assert_eq!(split_lines("a\r\nb\n\nc"), vec!["a", "b", "", "c"]);
    assert_eq!(strip_prefix("event: x", "event:"), Some(" x".to_string()));
    assert_eq!(strip_prefix("data", "event:"), None);
    assert_eq!(join_texts(&["a".to_string(), "b".to_string()], ", "), "a, b");
    assert!(contains_part("abcabd", "abd"));
    assert!(!contains_part("abcabd", "abe"));
    assert!(contains_text(&["x".to_string()], "x"));
    assert!(!contains_text(&["x".to_string()], "y"));
}

#[test]
fn numbers_are_read_and_written() {
    assert_eq!(decimal_text(0), "0");
    assert_eq!(decimal_text(u64::MAX), "18446744073709551615");
    assert_eq!(parse_u64("+7"), Some(7));
    assert_eq!(parse_u64("18446744073709551616"), None);
    assert_eq!(parse_u64(""), None);
    assert_eq!(parse_size("12"), Some(12));
    assert_eq!(parse_size("-1"), None);
    assert_eq!(hex_text(&[0, 255, 16]), "00ff10");
    assert_eq!(parse_unsigned("+7"), None);
    assert_eq!(parse_unsigned("7"), Some(7));
}

#[test]
fn decimals_compare_by_value() {
    let below = |a: &str, b: &str| {
        Decimal::parse(a).unwrap().below(&Decimal::parse(b).unwrap())
    };
    assert!(below("1.5", "1.50001"));
    assert!(!below("1.50", "1.5"));
    assert!(below("-2", "-1.999"));
    assert!(below("-1", "1e-300"));
    assert!(!below("0", "-0.0"));
    assert!(below("9e2", "901"));
    assert!(!below("1e3", "999.99"));
    assert!(Decimal::parse("1.").is_none());
    assert!(Decimal::parse("1e+-2").is_none());
    assert!(Decimal::parse("").is_none());
    assert!(Decimal::parse("1e999").is_none());
    assert!(parse_safe_number("9007199254740992").is_some());
    assert!(parse_safe_number("9007199254740993").is_none());
    assert!(numbers_agree("-0.0", "0.0"));
    assert!(!numbers_agree("1", "1.0"));
    assert!(numbers_agree("1e2", "100.0"));
}

#[test]
fn order_of_texts_is_that_of_bytes() {
    assert!(before("a", "ab"));
    assert!(before("Z", "a"));
    assert!(!before("本", "a"));
    assert!(!before("a", "a"));
    assert!(before_path("a/b", "a/c"));
}

#[test]
fn paths_are_judged() {
    assert_eq!(join_path("/root", "x"), "/root/x");
    assert_eq!(join_path("/root", "/x"), "/x");
    assert!(is_absolute("/x"));
    assert!(!is_absolute("x"));
    assert!(plain_path("a/b"));
    assert!(!plain_path("a/../b"));
    assert!(climbs("a/../b"));
    assert!(!climbs("a/b..c"));
    assert!(plain_components("a/./b", ".git"));
    assert!(!plain_components("a/.git", ".git"));
    assert!(eq_ignore_case(".GIT", ".git"));
    assert!(is_under("/a/b", "/a"));
    assert!(!is_under("/ab", "/a"));
}

#[test]
fn file_trees_read_what_was_written() {
    let mut tree: Vec<FileEntry> = Vec::new();
    write_file(&mut tree, "b".into(), b"1".to_vec());
    write_file(&mut tree, "a".into(), b"2".to_vec());
    write_file(&mut tree, "b".into(), b"3".to_vec());
    assert_eq!(tree.len(), 2);
    assert_eq!(tree[0].path, "a");
    assert_eq!(find_file(&tree, "b").unwrap().bytes, b"3".to_vec());
    remove_file(&mut tree, "a");
    assert!(find_file(&tree, "a").is_none());
    assert!(find_file(&tree, "b").is_some());
}

#[test]
fn table_keeps_keys_in_order() {
    let mut table: Table<String> = Table::new();
    table.insert("b".into(), "2".into());
    table.insert("a".into(), "1".into());
    table.insert("b".into(), "3".into());
    assert_eq!(table.len(), 2);
    assert_eq!(table.key(0), "a");
    assert_eq!(table.get("b"), Some(&"3".to_string()));
    assert_eq!(table.remove("a"), Some("1".to_string()));
    assert_eq!(table.get("a"), None);
    assert_eq!(table.get("b"), Some(&"3".to_string()));
    assert_eq!(table.remove("a"), None);
}

#[test]
fn folding_makes_names_collide() {
    assert_eq!(fold_text("ＡBC"), "abc");
    assert_eq!(fold_text("①"), "1");
}

#[test]
fn json_documents_are_read() {
    let value = json("{\"b\":[1,-2,2.5,\"x\",null,true],\"a\":{}}");
    let Json::Object(list) = &value else { panic!("object") };
    assert_eq!(list[0].name, "a");
    assert_eq!(list[1].name, "b");
    let Some(Json::Array(items)) = value.get("b") else { panic!("array") };
    assert!(matches!(&items[0], Json::Number(text) if text == "1"));
    assert!(matches!(&items[2], Json::Number(text) if text == "2.5"));
    assert_eq!(items[0].as_u64(), Some(1));
    assert_eq!(items[1].as_u64(), None);
    assert!(value.same(&value.copy()));
    assert!(!value.same(&Json::Null));
    assert!(parse_json("{").is_none());
    assert!(read_json("{").unwrap_err().contains("EOF"));
}

#[test]
fn schemas_check_types_and_members() {
    let schema = "{\"type\":\"object\",\"properties\":{\"n\":{\"type\":\"integer\",\"minimum\":1,\"maximum\":3},\"s\":{\"type\":\"string\",\"minLength\":1,\"pattern\":\"^a\"}},\"required\":[\"n\"],\"additionalProperties\":false}";
    assert!(accepts(schema, "{\"n\":1}"));
    assert!(accepts(schema, "{\"n\":3,\"s\":\"ab\"}"));
    assert!(!accepts(schema, "{\"n\":4}"));
    assert!(!accepts(schema, "{\"n\":0}"));
    assert!(!accepts(schema, "{\"n\":1.0}"));
    assert!(!accepts(schema, "{}"));
    assert!(!accepts(schema, "{\"n\":1,\"x\":2}"));
    assert!(!accepts(schema, "{\"n\":1,\"s\":\"b\"}"));
    assert!(!accepts(schema, "{\"n\":1,\"s\":\"\"}"));
    assert!(!accepts(schema, "[]"));
}

#[test]
fn schemas_combine_and_compare() {
    assert!(accepts("true", "1"));
    assert!(!accepts("false", "1"));
    assert!(accepts("{\"anyOf\":[{\"type\":\"string\"},{\"type\":\"null\"}]}", "null"));
    assert!(!accepts("{\"anyOf\":[{\"type\":\"string\"},{\"type\":\"null\"}]}", "1"));
    assert!(!accepts("{\"allOf\":[{\"type\":\"number\"},{\"minimum\":5}]}", "4"));
    assert!(accepts("{\"enum\":[1,\"a\",[2]]}", "[2]"));
    assert!(!accepts("{\"enum\":[1]}", "1.0"));
    assert!(accepts("{\"const\":{\"a\":1}}", "{\"a\":1}"));
    assert!(accepts("{\"items\":{\"type\":\"integer\"},\"minItems\":1,\"maxItems\":2}", "[1,2]"));
    assert!(!accepts("{\"items\":{\"type\":\"integer\"}}", "[1,\"x\"]"));
    assert!(!accepts("{\"maxItems\":1}", "[1,2]"));
    assert!(accepts("{\"exclusiveMinimum\":1}", "1.5"));
    assert!(!accepts("{\"exclusiveMinimum\":1}", "1"));
    assert!(!accepts("{\"exclusiveMaximum\":2}", "2.0"));
    assert!(!accepts("{\"minProperties\":1}", "{}"));
    assert!(accepts("{\"type\":[\"string\",\"integer\"]}", "1"));
    assert!(!accepts("{\"minimum\":1}", "9007199254740993"));
}

#[test]
fn unsupported_schemas_accept_nothing() {
    for schema in [
        "{\"oneOf\":[true]}",
        "{\"type\":\"float\"}",
        "{\"enum\":[]}",
        "{\"pattern\":\"(\"}",
        "{\"minLength\":-1}",
        "{\"minimum\":\"1\"}",
        "{\"required\":[1]}",
        "{\"properties\":[]}",
        "{\"allOf\":[]}",
        "{\"items\":{\"format\":\"x\"}}",
        "{\"title\":1}",
        "{\"readOnly\":1}",
        "7",
    ] {
        assert!(!schema_is_supported(&json(schema)), "{schema}");
        assert!(!accepts(schema, "\"x\""), "{schema}");
    }
}
