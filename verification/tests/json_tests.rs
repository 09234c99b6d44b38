use appledb_api::json::{
    get_bool, get_object, get_object_field_list, get_string, get_string_array, get_u64,
    get_vec_from_string_or_string_vec, has_member, holds_value, set_field, find_field,
    texts_of_items, JsonNumber, JsonValue,
};

fn convert(v: &serde_json::Value) -> JsonValue {
    match v {
        serde_json::Value::Null => JsonValue::Null,
        serde_json::Value::Bool(b) => JsonValue::Bool(*b),
        serde_json::Value::Number(n) => {
            if let Some(u) = n.as_u64() {
                JsonValue::Number(JsonNumber::PosInt(u))
            } else if let Some(i) = n.as_i64() {
                JsonValue::Number(JsonNumber::NegInt(i))
            } else {
                JsonValue::Number(JsonNumber::Float(n.to_string()))
            }
        }
        serde_json::Value::String(s) => JsonValue::String(s.clone()),
        serde_json::Value::Array(a) => JsonValue::Array(a.iter().map(convert).collect()),
        serde_json::Value::Object(o) => {
            JsonValue::Object(o.iter().map(|(k, x)| (k.clone(), convert(x))).collect())
        }
    }
}

fn doc(text: &str) -> JsonValue {
    convert(&serde_json::from_str::<serde_json::Value>(text).unwrap())
}

fn strings(v: &[&str]) -> Vec<String> {
    v.iter().map(|s| s.to_string()).collect()
}

#[test]
fn get_string_reads_strings_only() {
    let j = doc(r#"{"name": "iPhone", "count": 3, "flag": true}"#);
    assert_eq!(get_string(&j, "name"), "iPhone");
    assert_eq!(get_string(&j, "count"), "");
    assert_eq!(get_string(&j, "missing"), "");
    assert_eq!(get_string(&JsonValue::Null, "name"), "");
    assert_eq!(get_string(&doc(r#"["name"]"#), "name"), "");
}

#[test]
fn get_bool_reads_booleans_only() {
    let j = doc(r#"{"rc": true, "beta": false, "rsr": "true", "n": 1}"#);
    assert!(get_bool(&j, "rc"));
    assert!(!get_bool(&j, "beta"));
    assert!(!get_bool(&j, "rsr"));
    assert!(!get_bool(&j, "n"));
    assert!(!get_bool(&j, "missing"));
}

#[test]
fn get_u64_reads_non_negative_integers_only() {
    let j = doc(r#"{"size": 4096, "neg": -3, "frac": 1.5, "text": "12"}"#);
    assert_eq!(get_u64(&j, "size"), 4096);
    assert_eq!(get_u64(&j, "neg"), 0);
    assert_eq!(get_u64(&j, "frac"), 0);
    assert_eq!(get_u64(&j, "text"), 0);
    assert_eq!(get_u64(&j, "missing"), 0);
    assert_eq!(get_u64(&doc(r#"{"max": 18446744073709551615}"#), "max"), u64::MAX);
}

#[test]
fn get_string_array_turns_other_items_into_empty_text() {
    let j = doc(r#"{"list": ["a", 1, "b", null, ["c"]], "empty": []}"#);
    assert_eq!(get_string_array(&j, "list"), strings(&["a", "", "b", "", ""]));
    assert_eq!(get_string_array(&j, "empty"), Vec::<String>::new());
    assert_eq!(get_string_array(&j, "missing"), Vec::<String>::new());
}

#[test]
fn get_vec_from_string_or_string_vec_cases() {
    let j = doc(r#"{"one": "x", "many": ["x", "y"], "num": 5}"#);
    assert_eq!(get_vec_from_string_or_string_vec(&j, "one"), strings(&["x"]));
    assert_eq!(get_vec_from_string_or_string_vec(&j, "many"), strings(&["x", "y"]));
    assert_eq!(get_vec_from_string_or_string_vec(&j, "num"), Vec::<String>::new());
    assert_eq!(get_vec_from_string_or_string_vec(&j, "missing"), Vec::<String>::new());
}

#[test]
fn get_object_gives_object_or_braces_text() {
    let j = doc(r#"{"info": {"a": 1}, "text": "x"}"#);
    assert!(get_object(&j, "info").same_value(&doc(r#"{"a": 1}"#)));
    assert!(get_object(&j, "text").same_value(&JsonValue::String("{}".to_string())));
    assert!(get_object(&j, "missing").same_value(&JsonValue::String("{}".to_string())));
}

#[test]
fn field_list_in_document_order() {
    let j = JsonValue::Object(vec![
        ("b".to_string(), JsonValue::Null),
        ("a".to_string(), JsonValue::Bool(true)),
    ]);
    assert_eq!(get_object_field_list(&j), strings(&["b", "a"]));
    assert_eq!(get_object_field_list(&doc("[1, 2]")), Vec::<String>::new());
    assert_eq!(get_object_field_list(&JsonValue::Null), Vec::<String>::new());
    assert!(has_member(&j, "a"));
    assert!(!has_member(&j, "c"));
}

#[test]
fn find_field_takes_first_member_of_a_name() {
    let j = JsonValue::Object(vec![
        ("k".to_string(), JsonValue::String("first".to_string())),
        ("k".to_string(), JsonValue::String("second".to_string())),
    ]);
    assert!(find_field(&j, "k").unwrap().same_value(&JsonValue::String("first".to_string())));
    assert!(find_field(&j, "other").is_none());
    assert_eq!(get_string(&j, "k"), "first");
}

#[test]
fn set_field_reads_back_and_keeps_other_members() {
    let j = doc(r#"{"osStr": "iOS", "build": "19A346"}"#);
    let updated = set_field(j, "build", JsonValue::String("19A348".to_string()));
    assert_eq!(get_string(&updated, "build"), "19A348");
    assert_eq!(get_string(&updated, "osStr"), "iOS");
    assert_eq!(get_object_field_list(&updated), strings(&["build", "osStr"]));
    let added = set_field(updated, "sdk", JsonValue::Bool(true));
    assert!(get_bool(&added, "sdk"));
    assert_eq!(get_object_field_list(&added), strings(&["build", "osStr", "sdk"]));
    let from_null = set_field(JsonValue::Null, "a", JsonValue::Bool(true));
    assert!(from_null.same_value(&doc(r#"{"a": true}"#)));
}

#[test]
fn same_value_compares_structure() {
    assert!(doc(r#"{"a": [1, -2, 1.5, "x", null, false]}"#)
        .same_value(&doc(r#"{"a": [1, -2, 1.5, "x", null, false]}"#)));
    assert!(!doc(r#"{"a": 1}"#).same_value(&doc(r#"{"a": 2}"#)));
    assert!(!doc(r#"[1, 2]"#).same_value(&doc(r#"[1]"#)));
    assert!(!doc(r#""1""#).same_value(&doc("1")));
    let nested = doc(r#"{"x": {"y": [true]}}"#);
    assert!(nested.clone_value().same_value(&nested));
}

#[test]
fn holds_value_finds_equal_documents() {
    let list = vec![doc(r#""iOS""#), doc(r#""macOS""#)];
    assert!(holds_value(&list, &JsonValue::String("macOS".to_string())));
    assert!(!holds_value(&list, &JsonValue::String("tvOS".to_string())));
    assert!(!holds_value(&Vec::new(), &JsonValue::Null));
}

#[test]
fn numbers_and_item_texts() {
    let a = JsonNumber::Float("1.5".to_string());
    assert!(a.same_number(&a.clone_number()));
    assert!(!JsonNumber::PosInt(1).same_number(&JsonNumber::NegInt(-1)));
    let items = vec![JsonValue::String("a".to_string()), JsonValue::Bool(true)];
    assert_eq!(texts_of_items(&items), strings(&["a", ""]));
}
