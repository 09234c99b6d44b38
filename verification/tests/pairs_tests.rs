use appledb_api::json::{get_object_field_list, JsonValue};
use appledb_api::os::get_os_entry_vec_from_path as firmware_entries;
use appledb_api::os_file::{get_os_entry_vec_from_path, get_string_pairs};
use appledb_api::output::list_file_lines;
use appledb_api::pairs::{insert_pair, text_less};

fn text(s: &str) -> JsonValue {
    JsonValue::String(s.to_string())
}

fn pair(a: &str, b: &str) -> (String, String) {
    (a.to_string(), b.to_string())
}

fn object(members: Vec<(&str, JsonValue)>) -> JsonValue {
    JsonValue::Object(members.into_iter().map(|(k, v)| (k.to_string(), v)).collect())
}

#[test]
fn text_order_is_string_order() {
    for (a, b) in [("a", "b"), ("", "a"), ("ab", "abc"), ("B", "a"), ("é", "z"), ("sha1", "sha256")] {
        assert_eq!(text_less(a, b), a < b, "{a} {b}");
        assert_eq!(text_less(b, a), b < a, "{b} {a}");
    }
    assert!(!text_less("same", "same"));
    assert!(text_less("z", "é"));
}

#[test]
fn insert_pair_keeps_keys_sorted_and_replaces() {
    let mut m: Vec<(String, String)> = Vec::new();
    insert_pair(&mut m, "md5".to_string(), "1".to_string());
    insert_pair(&mut m, "sha1".to_string(), "2".to_string());
    insert_pair(&mut m, "crc".to_string(), "3".to_string());
    insert_pair(&mut m, "md5".to_string(), "4".to_string());
    assert_eq!(m, vec![pair("crc", "3"), pair("md5", "4"), pair("sha1", "2")]);
}

#[test]
fn string_pairs_form_a_sorted_map() {
    let obj = object(vec![("b", text("1")), ("a", text("2")), ("b", text("3")), ("c", JsonValue::Bool(true))]);
    assert_eq!(get_string_pairs(&obj), vec![pair("a", "2"), pair("b", "1"), pair("c", "")]);
    let field_list = get_object_field_list(&obj);
    assert_eq!(field_list.len(), 4);
    let distinct = object(vec![("b", text("1")), ("a", text("2"))]);
    assert_eq!(get_object_field_list(&distinct), vec!["b".to_string(), "a".to_string()]);
}

#[test]
fn entry_ipd_is_sorted_by_device() {
    let doc = object(vec![
        ("osStr", text("iOS")),
        ("ipd", object(vec![("iPhone2,1", text("y")), ("iPhone1,1", text("x"))])),
    ]);
    let entries = firmware_entries(&doc);
    assert_eq!(entries[0].ipd, vec![pair("iPhone1,1", "x"), pair("iPhone2,1", "y")]);
}

#[test]
fn entry_count_is_root_duplicates_and_sdk_objects() {
    let sdk = object(vec![("osStr", text("iOS")), ("build", text("1"))]);
    let doc = object(vec![
        ("osStr", text("iOS")),
        ("build", text("19A346")),
        ("createDuplicateEntries", JsonValue::Array(vec![
            object(vec![("build", text("19A348"))]),
            object(vec![("sdks", JsonValue::Array(vec![]))]),
        ])),
        ("sdks", JsonValue::Array(vec![sdk, JsonValue::Null, object(vec![])])),
    ]);
    // root and first duplicate: two SDK objects each; second duplicate: none.
    assert_eq!(firmware_entries(&doc).len(), 1 + 2 + 2 + 2);
    assert_eq!(get_os_entry_vec_from_path(&doc).len(), 7);
}

#[test]
fn list_lines() {
    let (main_line, index_line) = list_file_lines(&"{\"a\":1}".to_string(), &"iOS/19A346".to_string());
    assert_eq!(main_line, "{\"a\":1},");
    assert_eq!(index_line, "\"iOS/19A346\",");
}
