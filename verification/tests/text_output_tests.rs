use appledb_api::json::JsonValue;
use appledb_api::output::{add_file_count, add_text, closing_offset, holds_text};
use appledb_api::text::{
    chars_of, concat3, concat4, contains_text, drop_last_char, ends_with_char, replace_char,
    replace_text, starts_with, string_of_chars, text_is,
};

#[test]
fn concatenation() {
    assert_eq!(concat3("iOS", ";", "19A346"), "iOS;19A346");
    assert_eq!(concat4("iOS", "/", "19A346", ".html"), "iOS/19A346.html");
    assert_eq!(concat3("", "", ""), "");
}

#[test]
fn replace_char_replaces_every_occurrence() {
    assert_eq!(replace_char("iOS;19A346;b", ';', '/'), "iOS/19A346/b");
    assert_eq!(replace_char("Apple TV Software", ' ', '-'), "Apple-TV-Software");
    assert_eq!(replace_char("none", 'x', 'y'), "none");
}

#[test]
fn replace_text_scans_left_to_right_without_overlap() {
    assert_eq!(
        replace_text("https://api.appledb.dev/os/iOS/19A346.json", "https://api.appledb.dev", ""),
        "/os/iOS/19A346.json"
    );
    assert_eq!(replace_text("aaa", "aa", "b"), "ba");
    assert_eq!(replace_text("abcabc", "bc", "X"), "aXaX");
    assert_eq!(replace_text("short", "longer pattern", "x"), "short");
}

#[test]
fn contains_and_prefix_tests() {
    assert!(contains_text("Mac OS X SDK", "OS X"));
    assert!(!contains_text("macOS SDK", "OS X"));
    assert!(contains_text("anything", ""));
    assert!(starts_with("iOS;19A346", "iOS"));
    assert!(!starts_with("19A346", "iOS"));
    assert!(starts_with("iOS", ""));
    assert!(ends_with_char("key!", '!'));
    assert!(!ends_with_char("key", '!'));
    assert!(!ends_with_char("", '!'));
    assert!(text_is("left", "left"));
    assert!(!text_is("left", "right"));
}

#[test]
fn drop_last_char_removes_one_char() {
    assert_eq!(drop_last_char("watchOS 8!"), "watchOS 8");
    assert_eq!(drop_last_char("é!"), "é");
}

#[test]
fn chars_round_trip() {
    let v = chars_of("añb");
    assert_eq!(v, vec!['a', 'ñ', 'b']);
    assert_eq!(string_of_chars(&v), "añb");
}

#[test]
fn file_count_overflow_is_reported() {
    assert_eq!(add_file_count(3, 4), Some(7));
    assert_eq!(add_file_count(u32::MAX, 0), Some(u32::MAX));
    assert_eq!(add_file_count(u32::MAX, 1), None);
}

#[test]
fn closing_offset_overwrites_last_byte() {
    assert_eq!(closing_offset(0), 0);
    assert_eq!(closing_offset(1), 1);
    assert_eq!(closing_offset(2), 1);
    assert_eq!(closing_offset(100), 99);
}

#[test]
fn add_text_adds_each_name_once() {
    let mut list: Vec<JsonValue> = Vec::new();
    add_text(&mut list, &"iOS".to_string());
    add_text(&mut list, &"macOS".to_string());
    add_text(&mut list, &"iOS".to_string());
    assert_eq!(list.len(), 2);
    assert!(holds_text(&list, &"iOS".to_string()));
    assert!(holds_text(&list, &"macOS".to_string()));
    assert!(!holds_text(&list, &"tvOS".to_string()));
}
