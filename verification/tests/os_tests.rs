use appledb_api::json::{get_bool, get_string, get_string_array, JsonNumber, JsonValue};
use appledb_api::os::{
    create_os_entry_from_json, firmware_documents_from_json, firmware_sdk_entry,
    firmware_urls_check, get_os_entry_vec_from_path, process_entry, try_get_os_entry_vec_from_path,
    try_process_entry,
};
use appledb_api::os_file::{os_entry_shape_check, OsEntryAppleDBWebImageAlign};

fn convert(v: &serde_json::Value) -> JsonValue {
    match v {
        serde_json::Value::Null => JsonValue::Null,
        serde_json::Value::Bool(b) => JsonValue::Bool(*b),
        serde_json::Value::Number(n) => {
            if let Some(u) = n.as_u64() {
                JsonValue::Number(JsonNumber::PosInt(u))
            } else if let Some(i) = n.as_i64() {
                JsonValue::Number(JsonNumber::NegInt(i))
            } else {
                JsonValue::Number(JsonNumber::Float(n.to_string()))
            }
        }
        serde_json::Value::String(s) => JsonValue::String(s.clone()),
        serde_json::Value::Array(a) => JsonValue::Array(a.iter().map(convert).collect()),
        serde_json::Value::Object(o) => {
            JsonValue::Object(o.iter().map(|(k, x)| (k.clone(), convert(x))).collect())
        }
    }
}

fn doc(text: &str) -> JsonValue {
    convert(&serde_json::from_str::<serde_json::Value>(text).unwrap())
}

fn strings(v: &[&str]) -> Vec<String> {
    v.iter().map(|s| s.to_string()).collect()
}

const IOS15: &str = r#"{
    "osStr": "iOS",
    "version": "15.0",
    "build": "19A346",
    "released": "2021-09-20",
    "rc": false,
    "beta": true,
    "safariVersion": "15.0",
    "deviceMap": ["iPhone14,2", "iPhone14,3"],
    "ipd": {"iPhone14,2": "https://x/a.ipsw"},
    "appledb": {"id": "ios15"},
    "appledbWebImage": {"align": "right"},
    "hideFromLatestVersions": true,
    "sources": [{
        "type": "ipsw",
        "prerequisiteBuild": "18G82",
        "deviceMap": ["iPhone14,2"],
        "windowsUpdateDetails": {"updateId": "u1", "revisionId": "r1"},
        "links": [{"url": "https://x/a.ipsw", "active": true}, {"url": "https://y/a.ipsw"}],
        "hashes": {"sha1": "abc", "md5": "def"},
        "skipUpdateLinks": true,
        "size": 6000000000
    }]
}"#;

#[test]
fn firmware_entry_fields() {
    let e = create_os_entry_from_json(&doc(IOS15));
    assert_eq!(e.os_str, "iOS");
    assert_eq!(e.version, "15.0");
    assert_eq!(e.build, "19A346");
    assert_eq!(e.key, "iOS;19A346");
    assert_eq!(e.released, "2021-09-20");
    assert!(!e.rc);
    assert!(e.beta);
    assert!(!e.rsr);
    assert_eq!(e.safari_version, strings(&["15.0"]));
    assert_eq!(e.device_map, strings(&["iPhone14,2", "iPhone14,3"]));
    assert_eq!(e.ipd, vec![("iPhone14,2".to_string(), "https://x/a.ipsw".to_string())]);
    assert_eq!(e.appledb.web_image.id, "ios15");
    assert_eq!(e.appledb.web_image.align, OsEntryAppleDBWebImageAlign::Right);
    assert!(e.appledb.hide_from_latest_versions);
    assert_eq!(e.sources.len(), 1);
    let s = &e.sources[0];
    assert_eq!(s.kind, "ipsw");
    assert_eq!(s.prerequisite_build, strings(&["18G82"]));
    assert_eq!(s.device_map, strings(&["iPhone14,2"]));
    assert_eq!(s.windows_update_details.update_id, "u1");
    assert_eq!(s.windows_update_details.revision_id, "r1");
    assert_eq!(s.links.len(), 2);
    assert_eq!(s.links[0].url, "https://x/a.ipsw");
    assert!(s.links[0].active);
    assert!(!s.links[1].active);
    assert_eq!(
        s.hashes,
        vec![("md5".to_string(), "def".to_string()), ("sha1".to_string(), "abc".to_string())]
    );
    assert!(s.skip_update_links);
    assert_eq!(s.size, 6000000000);
}

#[test]
fn firmware_urls_are_joined_onto_the_site() {
    let e = create_os_entry_from_json(&doc(IOS15));
    assert_eq!(e.appledb.web_url, "https://appledb.dev/firmware/iOS/19A346.html");
    assert_eq!(e.appledb.api_url, "https://api.emiyl.com/firmware/iOS/19A346.json");
}

#[test]
fn firmware_urls_dash_spaces_on_the_web_and_escape_them_in_the_api() {
    let e = create_os_entry_from_json(&doc(
        r#"{"osStr": "Apple TV Software", "version": "7.0", "build": "11A470"}"#,
    ));
    assert_eq!(e.key, "Apple TV Software;11A470");
    assert_eq!(e.appledb.web_url, "https://appledb.dev/firmware/Apple-TV-Software/11A470.html");
    assert_eq!(
        e.appledb.api_url,
        "https://api.emiyl.com/firmware/Apple%20TV%20Software/11A470.json"
    );
}

#[test]
fn firmware_key_rules() {
    let key = |text: &str| create_os_entry_from_json(&doc(text)).key;
    assert_eq!(key(r#"{"osStr": "iOS", "key": "iOS 15.0b"}"#), "iOS 15.0b");
    assert_eq!(key(r#"{"osStr": "iOS", "key": "19A346b"}"#), "iOS;19A346b");
    assert_eq!(key(r#"{"osStr": "iOS", "key": "custom!"}"#), "custom");
    assert_eq!(key(r#"{"osStr": "iOS", "key": "iOS!"}"#), "iOS");
    assert_eq!(key(r#"{"osStr": "iOS", "uniqueBuild": "19A346u", "build": "19A346"}"#), "iOS;19A346u");
    assert_eq!(key(r#"{"osStr": "iOS", "build": "19A346", "version": "15.0"}"#), "iOS;19A346");
    assert_eq!(key(r#"{"osStr": "iOS", "version": "15.0"}"#), "iOS;15.0");
}

#[test]
fn firmware_key_begins_with_os_name_unless_bang() {
    for text in [
        r#"{"osStr": "tvOS", "key": "15.0"}"#,
        r#"{"osStr": "tvOS", "key": "tvOS 15"}"#,
        r#"{"osStr": "tvOS", "build": "19J346"}"#,
    ] {
        assert!(create_os_entry_from_json(&doc(text)).key.starts_with("tvOS"));
    }
    assert_eq!(create_os_entry_from_json(&doc(r#"{"osStr": "tvOS", "key": "x!"}"#)).key, "x");
}

#[test]
fn firmware_defaults() {
    let e = create_os_entry_from_json(&doc(r#"{"osStr": "iOS", "version": "1.0"}"#));
    assert_eq!(e.released, "1970-01-01");
    assert_eq!(e.build, "");
    assert!(e.safari_version.is_empty());
    assert!(e.preinstalled.is_empty());
    assert!(e.sources.is_empty());
    assert_eq!(e.appledb.web_image.id, "");
    assert_eq!(e.appledb.web_image.align, OsEntryAppleDBWebImageAlign::Left);
    let unknown = create_os_entry_from_json(&doc(
        r#"{"osStr": "iOS", "appledb": {"id": "x"}, "appledbWebImage": {"align": "centre"}}"#,
    ));
    assert_eq!(unknown.appledb.web_image.align, OsEntryAppleDBWebImageAlign::Left);
    assert_eq!(unknown.appledb.web_image.id, "x");
}

#[test]
fn firmware_preinstalled_variants() {
    let pre = |text: &str| create_os_entry_from_json(&doc(text)).preinstalled;
    assert_eq!(pre(r#"{"deviceMap": ["a", "b"], "preinstalled": true}"#), strings(&["a", "b"]));
    assert!(pre(r#"{"deviceMap": ["a", "b"], "preinstalled": false}"#).is_empty());
    assert_eq!(pre(r#"{"deviceMap": ["a", "b"], "preinstalled": ["b"]}"#), strings(&["b"]));
    assert!(pre(r#"{"deviceMap": ["a", "b"], "preinstalled": "a"}"#).is_empty());
}

#[test]
fn sdk_documents() {
    let sdk = firmware_sdk_entry(&doc(r#"{"osStr": "iOS", "version": "15.0", "build": "19A339"}"#));
    assert_eq!(get_string(&sdk, "version"), "15.0 SDK");
    assert_eq!(get_string(&sdk, "key"), "19A339-SDK");
    assert_eq!(get_string(&sdk, "released"), "");
    assert_eq!(get_string_array(&sdk, "deviceMap"), strings(&["iOS SDK"]));
    assert!(get_bool(&sdk, "sdk"));
    let mac = firmware_sdk_entry(&doc(r#"{"osStr": "Mac OS X", "version": "10.6", "key": "k"}"#));
    assert_eq!(get_string_array(&mac, "deviceMap"), strings(&["macOS SDK"]));
    assert_eq!(get_string(&mac, "key"), "k-SDK");
}

#[test]
fn documents_root_then_duplicates_then_sdks() {
    let root = doc(r#"{
        "osStr": "iOS", "version": "15.0", "build": "19A346",
        "createDuplicateEntries": [{"build": "19A348", "released": "2021-09-21"}],
        "sdks": [{"osStr": "iOS", "version": "15.0", "build": "19A339"}, 7]
    }"#);
    let docs = firmware_documents_from_json(&root);
    assert_eq!(docs.len(), 4);
    assert!(docs[0].same_value(&root));
    assert_eq!(get_string(&docs[1], "build"), "19A348");
    assert_eq!(get_string(&docs[1], "released"), "2021-09-21");
    assert_eq!(get_string(&docs[1], "version"), "15.0");
    assert_eq!(get_string(&docs[2], "key"), "19A339-SDK");
    assert_eq!(get_string(&docs[3], "key"), "19A339-SDK");

    let entries = get_os_entry_vec_from_path(&root);
    let keys: Vec<String> = entries.iter().map(|e| e.key.clone()).collect();
    assert_eq!(keys, strings(&["iOS;19A346", "iOS;19A348", "iOS;19A339-SDK", "iOS;19A339-SDK"]));
    assert_eq!(entries[1].released, "2021-09-21");
    assert_eq!(entries[2].version, "15.0 SDK");
    assert_eq!(entries[2].device_map, strings(&["iOS SDK"]));
}

#[test]
fn unreadable_documents_are_refused() {
    let bad_sources = doc(r#"{"osStr": "iOS", "sources": {"type": "ipsw"}}"#);
    assert!(!os_entry_shape_check(&bad_sources));
    assert!(try_get_os_entry_vec_from_path(&bad_sources).is_none());
    assert!(try_process_entry(&bad_sources, Vec::new()).is_none());
    let bad_links = doc(r#"{"osStr": "iOS", "sources": [{"links": "x"}]}"#);
    assert!(try_get_os_entry_vec_from_path(&bad_links).is_none());
    let bad_map = doc(r#"{"osStr": "iOS", "deviceMap": "iPhone1,1"}"#);
    assert!(try_get_os_entry_vec_from_path(&bad_map).is_none());
    let bad_duplicate = doc(r#"{"osStr": "iOS", "createDuplicateEntries": [{"deviceMap": 3}]}"#);
    assert!(try_get_os_entry_vec_from_path(&bad_duplicate).is_none());
    let good = doc(IOS15);
    assert!(firmware_urls_check(&good));
    assert_eq!(try_get_os_entry_vec_from_path(&good).unwrap().len(), 1);
}

#[test]
fn process_entry_keeps_os_names_and_paths() {
    let first = doc(r#"{"osStr": "iOS", "build": "19A346",
        "createDuplicateEntries": [{"osStr": "iPadOS", "build": "19A346"}]}"#);
    let (out, names) = process_entry(&first, Vec::new());
    assert_eq!(out.len(), 2);
    assert_eq!(out[0].output.key, "iOS/19A346");
    assert!(out[0].new_os_str);
    assert_eq!(out[1].output.key, "iPadOS/19A346");
    assert!(out[1].new_os_str);
    assert_eq!(names.len(), 2);

    let second = doc(r#"{"osStr": "iOS", "build": "19A348"}"#);
    let (out2, names2) = try_process_entry(&second, names).unwrap();
    assert_eq!(out2.len(), 1);
    assert_eq!(out2[0].output.key, "iOS/19A348");
    assert!(!out2[0].new_os_str);
    assert_eq!(names2.len(), 2);
    assert!(names2[0].same_value(&JsonValue::String("iOS".to_string())));
    assert!(names2[1].same_value(&JsonValue::String("iPadOS".to_string())));
}

#[test]
fn only_the_first_entry_of_a_name_is_new() {
    let file = doc(r#"{"osStr": "iOS", "build": "19A346",
        "createDuplicateEntries": [{"build": "19A348"}, {"osStr": "iPadOS"}, {"build": "19A349"}]}"#);
    let (out, names) = process_entry(&file, vec![JsonValue::String("macOS".to_string())]);
    let flags: Vec<bool> = out.iter().map(|o| o.new_os_str).collect();
    assert_eq!(flags, vec![true, false, true, false]);
    assert_eq!(names.len(), 3);
}
