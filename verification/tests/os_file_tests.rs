use appledb_api::json::{get_bool, get_string, get_string_array, JsonNumber, JsonValue};
use appledb_api::os_file::{
    create_os_entry_from_json, create_source, duplicate_from, get_os_entry_vec_from_path,
    get_string_pairs, os_documents_from_json, os_entry_urls_check, sdk_entries, sdk_entry,
    try_get_os_entry_vec_from_path, OsEntryAppleDBWebImageAlign,
};

fn convert(v: &serde_json::Value) -> JsonValue {
    match v {
        serde_json::Value::Null => JsonValue::Null,
        serde_json::Value::Bool(b) => JsonValue::Bool(*b),
        serde_json::Value::Number(n) => {
            if let Some(u) = n.as_u64() {
                JsonValue::Number(JsonNumber::PosInt(u))
            } else if let Some(i) = n.as_i64() {
                JsonValue::Number(JsonNumber::NegInt(i))
            } else {
                JsonValue::Number(JsonNumber::Float(n.to_string()))
            }
        }
        serde_json::Value::String(s) => JsonValue::String(s.clone()),
        serde_json::Value::Array(a) => JsonValue::Array(a.iter().map(convert).collect()),
        serde_json::Value::Object(o) => {
            JsonValue::Object(o.iter().map(|(k, x)| (k.clone(), convert(x))).collect())
        }
    }
}

fn doc(text: &str) -> JsonValue {
    convert(&serde_json::from_str::<serde_json::Value>(text).unwrap())
}

fn strings(v: &[&str]) -> Vec<String> {
    v.iter().map(|s| s.to_string()).collect()
}

#[test]
fn api_entry_urls() {
    let e = create_os_entry_from_json(&doc(r#"{"osStr": "iOS", "version": "15.0", "build": "19A346"}"#));
    assert_eq!(e.unique_build, "19A346");
    assert_eq!(e.key, "iOS;19A346");
    assert_eq!(e.appledb_web_url, "https://apiappledb.dev/firmware/iOS/19A346.html");
    assert_eq!(e.appledb_api_url, "/os/iOS/19A346.json");
}

#[test]
fn api_entry_urls_dash_spaces() {
    let e = create_os_entry_from_json(&doc(
        r#"{"osStr": "Apple TV Software", "version": "7.0", "uniqueBuild": "11A470 b"}"#,
    ));
    assert_eq!(e.appledb_web_url, "https://apiappledb.dev/firmware/Apple-TV-Software/11A470-b.html");
    assert_eq!(e.appledb_api_url, "/os/Apple-TV-Software/11A470-b.json");
    assert_eq!(e.key, "Apple TV Software;7.0");
}

#[test]
fn api_entry_version_build_and_key_fallbacks() {
    let no_version = create_os_entry_from_json(&doc(r#"{"osStr": "iOS", "build": "1A1"}"#));
    assert_eq!(no_version.version, "1A1");
    assert_eq!(no_version.unique_build, "1A1");
    let no_build = create_os_entry_from_json(&doc(r#"{"osStr": "iOS", "version": "1.0"}"#));
    assert_eq!(no_build.build, "");
    assert_eq!(no_build.unique_build, "1.0");
    assert_eq!(no_build.key, "iOS;1.0");
    let own_key = create_os_entry_from_json(&doc(r#"{"osStr": "iOS", "key": "mine", "build": "1A1"}"#));
    assert_eq!(own_key.key, "mine");
    assert_eq!(own_key.released, "1970-01-01");
}

#[test]
fn api_entry_other_fields() {
    let e = create_os_entry_from_json(&doc(r#"{
        "osStr": "iOS", "version": "15.0", "build": "19A346",
        "safariVersion": ["15.0", "15.1"], "embeddedOSBuild": "e", "bridgeOSBuild": "b",
        "buildTrain": "Sky", "rsr": true, "internal": true, "hideFromLatestVersions": true,
        "deviceMap": ["iPhone14,2"], "osMap": ["x"], "preinstalled": true,
        "notes": "n", "releaseNotes": "rn", "securityNotes": "sn",
        "appledbWebImage": {"id": "img", "align": "left"},
        "sources": [{"type": "ota", "deviceMap": ["iPhone14,2"], "size": 10}]
    }"#));
    assert_eq!(e.safari_version, strings(&["15.0", "15.1"]));
    assert_eq!(e.embedded_os_build, "e");
    assert_eq!(e.bridge_os_build, "b");
    assert_eq!(e.build_train, "Sky");
    assert!(e.rsr && e.internal && e.hide_from_latest_versions);
    assert_eq!(e.preinstalled, strings(&["iPhone14,2"]));
    assert_eq!(e.os_map, strings(&["x"]));
    assert_eq!((e.notes.as_str(), e.release_notes.as_str(), e.security_notes.as_str()), ("n", "rn", "sn"));
    assert_eq!(e.appledb_web_image.id, "img");
    assert_eq!(e.appledb_web_image.align, OsEntryAppleDBWebImageAlign::Left);
    assert_eq!(e.sources.len(), 1);
    assert_eq!(e.sources[0].kind, "ota");
    assert_eq!(e.sources[0].size, 10);
}

#[test]
fn source_fields_and_pairs() {
    let s = create_source(&doc(r#"{"type": "ipsw", "prerequisiteBuild": ["a", "b"], "osMap": ["o"],
        "links": [{"url": "u", "active": true}], "hashes": {"sha2": "x"}}"#));
    assert_eq!(s.prerequisite_build, strings(&["a", "b"]));
    assert_eq!(s.os_map, strings(&["o"]));
    assert_eq!(s.links.len(), 1);
    assert_eq!(s.hashes, vec![("sha2".to_string(), "x".to_string())]);
    assert_eq!(s.size, 0);
    let pairs = get_string_pairs(&doc(r#"{"a": "1", "b": 2}"#));
    assert_eq!(pairs, vec![("a".to_string(), "1".to_string()), ("b".to_string(), "".to_string())]);
    assert!(get_string_pairs(&doc("[1]")).is_empty());
}

#[test]
fn api_sdk_documents() {
    let sdk = sdk_entry(&doc(r#"{"osStr": "iOS", "version": "15.0", "build": "19A339", "released": "2021"}"#));
    assert_eq!(get_string(&sdk, "version"), "15.0-SDK");
    assert_eq!(get_string(&sdk, "uniqueBuild"), "19A339-SDK");
    assert_eq!(get_string(&sdk, "released"), "2021");
    assert_eq!(get_string_array(&sdk, "deviceMap"), strings(&["iOS-SDK"]));
    assert!(get_bool(&sdk, "sdk"));
    let e = create_os_entry_from_json(&sdk);
    assert_eq!(e.key, "iOS;19A339");
    assert_eq!(e.appledb_web_url, "https://apiappledb.dev/firmware/iOS/19A339-SDK.html");
    let list = sdk_entries(&vec![doc(r#"{"osStr": "Mac OS X"}"#), doc("3"), doc("\"x\"")]);
    assert_eq!(list.len(), 1);
    assert_eq!(get_string_array(&list[0], "deviceMap"), strings(&["macOS-SDK"]));
}

#[test]
fn duplicates_carry_their_overrides() {
    let root = doc(r#"{"osStr": "iOS", "build": "19A346", "released": "2021-09-20"}"#);
    let dup = duplicate_from(&root, &doc(r#"{"build": "19A348", "rc": true}"#));
    assert_eq!(get_string(&dup, "build"), "19A348");
    assert!(get_bool(&dup, "rc"));
    assert_eq!(get_string(&dup, "released"), "2021-09-20");
    assert_eq!(get_string(&dup, "osStr"), "iOS");
    let same = duplicate_from(&root, &doc("[1]"));
    assert!(same.same_value(&root));
}

#[test]
fn api_documents_and_entries() {
    let root = doc(r#"{"osStr": "iOS", "version": "15.0", "build": "19A346",
        "createDuplicateEntries": [{"uniqueBuild": "19A346-b"}],
        "sdks": [{"osStr": "iOS", "version": "15.0", "build": "19A339"}]}"#);
    let docs = os_documents_from_json(&root);
    assert_eq!(docs.len(), 4);
    let entries = get_os_entry_vec_from_path(&root);
    let unique: Vec<String> = entries.iter().map(|e| e.unique_build.clone()).collect();
    assert_eq!(unique, strings(&["19A346", "19A346-b", "19A339-SDK", "19A339-SDK"]));
    assert_eq!(entries[1].appledb_web_url, "https://apiappledb.dev/firmware/iOS/19A346-b.html");
    assert!(os_entry_urls_check(&root));
    assert_eq!(try_get_os_entry_vec_from_path(&root).unwrap().len(), 4);
    assert!(try_get_os_entry_vec_from_path(&doc(r#"{"sources": 1}"#)).is_none());
}
