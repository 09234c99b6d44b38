use appledb_api::adb_web::{
    convert_os_entry_to_os_adb_web_entry, web_device, web_devices_check, web_sources,
};
use appledb_api::adbweb_device::{
    convert_device_entry_to_device_adb_web_entry, firmware_list_check, get_firmwares_vec,
};
use appledb_api::adbweb_device_group::{
    convert_device_group_entry_to_device_group_adb_web_entry, device_in_list_check,
    get_device_info_string, web_group_check,
};
use appledb_api::adbweb_os::{convert_os_entry_to_os_adb_web_entry as convert_with_groups, group_list_check};
use appledb_api::device_file::create_device_entry_from_json;
use appledb_api::device_group_entry::create_device_group_entry_from_json;
use appledb_api::json::{string_array_check, JsonNumber, JsonValue};
use appledb_api::os::create_os_entry_from_json;
fn convert(v: &serde_json::Value) -> JsonValue {
    match v {
        serde_json::Value::Null => JsonValue::Null,
        serde_json::Value::Bool(b) => JsonValue::Bool(*b),
        serde_json::Value::Number(n) => {
            if let Some(u) = n.as_u64() {
                JsonValue::Number(JsonNumber::PosInt(u))
            } else if let Some(i) = n.as_i64() {
                JsonValue::Number(JsonNumber::NegInt(i))
            } else {
                JsonValue::Number(JsonNumber::Float(n.to_string()))
            }
        }
        serde_json::Value::String(s) => JsonValue::String(s.clone()),
        serde_json::Value::Array(a) => JsonValue::Array(a.iter().map(convert).collect()),
        serde_json::Value::Object(o) => {
            JsonValue::Object(o.iter().map(|(k, x)| (k.clone(), convert(x))).collect())
        }
    }
}

fn doc(text: &str) -> JsonValue {
    convert(&serde_json::from_str::<serde_json::Value>(text).unwrap())
}

fn strings(v: &[&str]) -> Vec<String> {
    v.iter().map(|s| s.to_string()).collect()
}

const FIRMWARE: &str = r#"{
    "osStr": "iOS", "version": "15.0", "build": "19A346", "released": "2021-09-20",
    "deviceMap": ["iPhone14,2", "iPhone14,3", "iPad13,1"],
    "preinstalled": ["iPhone14,2"],
    "sources": [{"type": "ipsw", "deviceMap": ["iPhone14,2"], "links": [{"url": "u", "active": true}],
        "hashes": {"sha1": "h"}, "size": 7, "osMap": ["x"]}]
}"#;

fn device_docs() -> Vec<JsonValue> {
    vec![
        doc(r#"{"name": "iPhone 13 Pro", "key": "iPhone14,2", "released": ["2021-09-24"]}"#),
        doc(r#"{"name": "iPhone 13 Pro Max", "key": "iPhone14,3", "released": []}"#),
        doc(r#"{"name": "iPad Air 4", "key": "iPad13,1"}"#),
    ]
}

#[test]
fn web_listing_of_a_firmware() {
    let e = create_os_entry_from_json(&doc(FIRMWARE));
    let w = convert_os_entry_to_os_adb_web_entry(e, &device_docs());
    assert_eq!(w.os_str, "iOS");
    assert_eq!(w.version, "15.0");
    assert_eq!(w.build, "19A346");
    assert_eq!(w.key, "iOS;19A346");
    assert_eq!(w.released, "2021-09-20");
    assert_eq!(w.preinstalled, strings(&["iPhone14,2"]));
    assert_eq!(w.appledb_web.web_url, "https://appledb.dev/firmware/iOS/19A346.html");
    assert_eq!(w.device_map.len(), 3);
    assert_eq!(w.device_map[0].name, "iPhone 13 Pro");
    assert_eq!(w.device_map[0].key, "iPhone14,2");
    assert_eq!(w.device_map[0].released, strings(&["2021-09-24"]));
    assert!(w.device_map[2].released.is_empty());
    assert_eq!(w.sources.len(), 1);
    assert_eq!(w.sources[0].kind, "ipsw");
    assert_eq!(w.sources[0].device_map, strings(&["iPhone14,2"]));
    assert_eq!(w.sources[0].links[0].url, "u");
    assert_eq!(w.sources[0].hashes, vec![("sha1".to_string(), "h".to_string())]);
    assert_eq!(w.sources[0].size, 7);
    let d = web_device(&doc(r#"{"name": "n", "key": "k", "released": ["a", 1]}"#));
    assert_eq!(d.released, strings(&["a", ""]));
}

#[test]
fn web_listing_groups_the_devices() {
    let e = create_os_entry_from_json(&doc(FIRMWARE));
    let groups = doc(r#"[
        {"name": "iPhone 13 Pro", "type": "iPhone", "devices": ["iPhone14,2", "iPhone14,3", "iPhone99,9"]},
        {"name": "Other", "devices": ["iPhone14,3"]}
    ]"#);
    let w = convert_with_groups(e, &device_docs(), &groups);
    assert_eq!(w.device_map.len(), 3);
    assert_eq!(w.device_group_map.len(), 2);
    let first = &w.device_group_map[0];
    assert_eq!(first.name, "iPhone 13 Pro");
    assert_eq!(first.kind, "iPhone");
    assert_eq!(first.devices, strings(&["iPhone14,2", "iPhone14,3"]));
    let alone = &w.device_group_map[1];
    assert_eq!(alone.name, "iPad Air 4");
    assert_eq!(alone.key, "iPad13,1");
    assert_eq!(alone.kind, "");
    assert_eq!(alone.devices, strings(&["iPad13,1"]));
    assert!(alone.subgroups.is_empty());
}

#[test]
fn web_listing_drops_groups_of_devices_off_the_firmware() {
    let e = create_os_entry_from_json(&doc(r#"{"osStr": "iOS", "build": "1", "deviceMap": ["a"]}"#));
    let devices = vec![doc(r#"{"name": "B", "key": "b"}"#)];
    let w = convert_with_groups(e, &devices, &doc("[]"));
    assert_eq!(w.device_group_map.len(), 1);
    assert_eq!(w.device_group_map[0].key, "b");
    assert!(w.device_group_map[0].devices.is_empty());
}

const FIRMWARE_LIST: &str = r#"[
    {"os_str": "iOS", "version": "15.0", "build": "19A346", "key": "iOS;19A346", "released": "2021",
     "rc": true, "device_map": ["iPhone14,2"], "preinstalled": ["iPhone14,2"],
     "sources": [
        {"type": "ota", "device_map": ["iPhone14,2"]},
        {"type": "ipsw", "device_map": ["iPhone14,3"]},
        {"type": "ipsw", "device_map": ["iPhone14,2"], "links": [{"url": "first"}, {"url": "second"}]}
     ]},
    {"os_str": "iOS", "key": "iOS;19A346", "device_map": ["iPhone14,2"], "sources": []},
    {"os_str": "iOS", "key": "iOS;19A404", "device_map": ["iPhone14,3"], "sources": 5},
    {"os_str": "iOS", "key": "iOS;19B74", "device_map": ["iPhone14,2"], "sources": []}
]"#;

#[test]
fn firmwares_of_a_device() {
    let (fws, keys) = get_firmwares_vec("iPhone14,2".to_string(), &doc(FIRMWARE_LIST), Vec::new(), Vec::new());
    assert_eq!(keys, strings(&["iOS;19A346", "iOS;19B74"]));
    assert_eq!(fws.len(), 2);
    assert_eq!(fws[0].key, "iOS;19A346");
    assert_eq!(fws[0].os_str, "iOS");
    assert_eq!(fws[0].version, "15.0");
    assert_eq!(fws[0].build, "19A346");
    assert_eq!(fws[0].released, "2021");
    assert!(fws[0].rc);
    assert_eq!(fws[0].preinstalled, strings(&["iPhone14,2"]));
    assert_eq!(fws[0].sources.len(), 1);
    assert_eq!(fws[0].sources[0].kind, "ipsw");
    assert_eq!(fws[0].sources[0].link, "first");
    assert_eq!(fws[0].sources[0].device_map, strings(&["iPhone14,2"]));
    let (again, keys2) = get_firmwares_vec("iPhone14,2".to_string(), &doc(FIRMWARE_LIST), fws, keys);
    assert_eq!(again.len(), 2);
    assert_eq!(keys2.len(), 2);
}

#[test]
fn web_listing_of_a_device() {
    let d = create_device_entry_from_json(&doc(
        r#"{"name": "iPhone 13 Pro", "key": "iPhone14,2", "type": "iPhone", "arch": "arm64e", "soc": "A15"}"#,
    ));
    let w = convert_device_entry_to_device_adb_web_entry(d, &doc(FIRMWARE_LIST));
    assert_eq!(w.name, "iPhone 13 Pro");
    assert_eq!(w.key, "iPhone14,2");
    assert_eq!(w.kind, "iPhone");
    assert_eq!(w.arch, strings(&["arm64e"]));
    assert_eq!(w.soc, strings(&["A15"]));
    assert_eq!(w.firmwares.len(), 2);
    assert_eq!(w.firmwares[1].key, "iOS;19B74");
}

#[test]
fn device_info_strings_are_gathered_once() {
    let device = doc(r#"{"model": ["A1", "A2", "A1"]}"#);
    let v = get_device_info_string(&device, strings(&["A2", "A0"]), "model");
    assert_eq!(v, strings(&["A2", "A0", "A1"]));
    let none = get_device_info_string(&device, Vec::new(), "board");
    assert!(none.is_empty());
}

const GROUP_FIRMWARES: &str = r#"[
    {"key": "iOS;19A346", "device_map": ["iPhone14,2", "iPhone14,3"],
     "sources": [{"type": "ipsw", "device_map": ["iPhone14,3"], "links": [{"url": "l3"}]}]},
    {"key": "iOS;19A404", "device_map": ["iPhone14,3"], "sources": []},
    {"key": "iOS;19B74", "device_map": ["iPhone14,2"], "sources": []}
]"#;

#[test]
fn web_listing_of_a_device_group() {
    let map = doc(&format!(r#"{{
        "iPhone14,2": {{"key": "iPhone14,2", "identifier": ["iPhone14,2"], "model": ["A2483"],
            "soc": ["A15"], "arch": ["arm64e"], "released": ["2021"]}},
        "iPhone14,3": {{"key": "iPhone14,3", "identifier": ["iPhone14,3"], "model": ["A2484"],
            "soc": ["A15"], "arch": ["arm64e"], "board": ["D64AP"]}},
        "os_main_json_value": {}
    }}"#, GROUP_FIRMWARES));
    let g = create_device_group_entry_from_json(&doc(r#"{"name": "iPhone 13 Pro", "devices": ["iPhone14,2", "iPhone14,3"],
        "subgroups": [{"name": "Max", "devices": ["iPhone14,3"]}]}"#));
    let w = convert_device_group_entry_to_device_group_adb_web_entry(g, &map);
    assert_eq!(w.name, "iPhone 13 Pro");
    assert_eq!(w.key, "iPhone 13 Pro");
    assert_eq!(w.devices, strings(&["iPhone14,2", "iPhone14,3"]));
    assert_eq!(w.identifier, strings(&["iPhone14,2", "iPhone14,3"]));
    assert_eq!(w.model, strings(&["A2483", "A2484"]));
    assert_eq!(w.soc, strings(&["A15"]));
    assert_eq!(w.arch, strings(&["arm64e"]));
    assert_eq!(w.board, strings(&["D64AP"]));
    assert_eq!(w.released, strings(&["2021"]));
    let keys: Vec<String> = w.firmwares.iter().map(|f| f.key.clone()).collect();
    assert_eq!(keys, strings(&["iOS;19A346", "iOS;19B74", "iOS;19A404"]));
    assert_eq!(w.subgroups.len(), 1);
    assert_eq!(w.subgroups[0].name, "Max");
    assert_eq!(w.subgroups[0].identifier, strings(&["iPhone14,3"]));
    assert_eq!(w.firmwares[0].sources.len(), 0);
    assert_eq!(w.subgroups[0].firmwares.len(), 2);
    assert_eq!(w.subgroups[0].firmwares[0].sources[0].link, "l3");
}

#[test]
fn readability_checks() {
    assert!(web_devices_check(&device_docs()));
    assert!(!web_devices_check(&vec![doc(r#"{"released": "2021"}"#)]));
    assert!(group_list_check(&doc(r#"[{"devices": ["a"]}, {}]"#)));
    assert!(!group_list_check(&doc(r#"{"devices": ["a"]}"#)));
    assert!(!group_list_check(&doc(r#"[{"devices": "a"}]"#)));
    let key = "iPhone14,2".to_string();
    assert!(firmware_list_check(&doc(FIRMWARE_LIST), &key));
    assert!(!firmware_list_check(&doc(FIRMWARE_LIST), &"iPhone14,3".to_string()));
    assert!(!firmware_list_check(&doc("{}"), &key));
    assert!(!firmware_list_check(&doc(r#"[{"device_map": ["iPhone14,2"], "sources": [{"type": "ipsw", "device_map": ["iPhone14,2"], "links": []}]}]"#), &key));
    assert!(firmware_list_check(&doc(r#"[{"device_map": ["iPhone14,2"], "sources": [{"type": "ota", "links": []}]}]"#), &key));
    assert!(string_array_check(&doc(r#"{"a": []}"#), "a"));
    assert!(string_array_check(&doc(r#"{"a": []}"#), "b"));
    assert!(!string_array_check(&doc(r#"{"a": 1}"#), "a"));
}

#[test]
fn device_list_checks() {
    let map = doc(&format!(r#"{{
        "a": {{"key": "a", "model": ["m"]}},
        "b": {{"key": 1}},
        "c": {{"key": "c", "soc": "A15"}},
        "os_main_json_value": {}
    }}"#, GROUP_FIRMWARES));
    assert!(device_in_list_check(&map, &"a".to_string()));
    assert!(!device_in_list_check(&map, &"b".to_string()));
    assert!(!device_in_list_check(&map, &"c".to_string()));
    assert!(!device_in_list_check(&map, &"missing".to_string()));
    let good = create_device_group_entry_from_json(&doc(r#"{"name": "G", "devices": ["a"], "subgroups": [{"devices": ["a"]}]}"#));
    assert!(web_group_check(&good, &map));
    let bad = create_device_group_entry_from_json(&doc(r#"{"name": "G", "devices": ["a"], "subgroups": [{"devices": ["c"]}]}"#));
    assert!(!web_group_check(&bad, &map));
}

#[test]
fn web_sources_keep_the_listed_parts() {
    let e = create_os_entry_from_json(&doc(FIRMWARE));
    let sources = web_sources(e.sources);
    assert_eq!(sources.len(), 1);
    assert_eq!(sources[0].kind, "ipsw");
    assert_eq!(sources[0].size, 7);
    let g = create_device_group_entry_from_json(&doc(r#"{"name": "G", "devices": ["a"], "subgroups": [{"name": "S"}]}"#));
    let copy = g.clone_group();
    assert_eq!(copy.name, "G");
    assert_eq!(copy.devices, strings(&["a"]));
    assert_eq!(copy.subgroups[0].name, "S");
}
