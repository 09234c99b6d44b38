use appledb_api::device_file::{create_device_entry_from_json, finalise_entry as device_finalise_entry, process_entry as device_process_entry};
use appledb_api::device_group::{create_device_group_from_json, device_group_check};
use appledb_api::device_group_entry::{
    create_device_group_entry_from_json, finalise_entry, process_entry,
};
use appledb_api::json::{get_string, get_string_array, JsonNumber, JsonValue};
fn convert(v: &serde_json::Value) -> JsonValue {
    match v {
        serde_json::Value::Null => JsonValue::Null,
        serde_json::Value::Bool(b) => JsonValue::Bool(*b),
        serde_json::Value::Number(n) => {
            if let Some(u) = n.as_u64() {
                JsonValue::Number(JsonNumber::PosInt(u))
            } else if let Some(i) = n.as_i64() {
                JsonValue::Number(JsonNumber::NegInt(i))
            } else {
                JsonValue::Number(JsonNumber::Float(n.to_string()))
            }
        }
        serde_json::Value::String(s) => JsonValue::String(s.clone()),
        serde_json::Value::Array(a) => JsonValue::Array(a.iter().map(convert).collect()),
        serde_json::Value::Object(o) => {
            JsonValue::Object(o.iter().map(|(k, x)| (k.clone(), convert(x))).collect())
        }
    }
}

fn doc(text: &str) -> JsonValue {
    convert(&serde_json::from_str::<serde_json::Value>(text).unwrap())
}

fn strings(v: &[&str]) -> Vec<String> {
    v.iter().map(|s| s.to_string()).collect()
}

#[test]
fn device_entry_fields() {
    let d = create_device_entry_from_json(&doc(r#"{
        "name": "iPhone 13 Pro", "key": "iPhone14,2", "type": "iPhone",
        "identifier": "iPhone14,2", "model": ["A2483", "A2636"], "board": "D63AP",
        "released": "2021-09-24", "soc": ["A15"], "arch": "arm64e", "internal": false,
        "alias": ["iPhone 13 Pro"], "info": {"Display": "6.1"}, "iBridge": "x",
        "group": true, "windowsStoreId": "w"
    }"#));
    assert_eq!(d.name, "iPhone 13 Pro");
    assert_eq!(d.key, "iPhone14,2");
    assert_eq!(d.kind, "iPhone");
    assert_eq!(d.identifier, strings(&["iPhone14,2"]));
    assert_eq!(d.model, strings(&["A2483", "A2636"]));
    assert_eq!(d.board, strings(&["D63AP"]));
    assert_eq!(d.released, strings(&["2021-09-24"]));
    assert_eq!(d.soc, strings(&["A15"]));
    assert_eq!(d.arch, "arm64e");
    assert!(!d.internal);
    assert_eq!(d.alias, strings(&["iPhone 13 Pro"]));
    assert!(d.info.same_value(&doc(r#"{"Display": "6.1"}"#)));
    assert_eq!(d.i_bridge, "x");
    assert!(d.group);
    assert_eq!(d.windows_store_id, "w");
}

#[test]
fn device_key_falls_back_to_identifier_then_name() {
    let by_id = create_device_entry_from_json(&doc(r#"{"name": "N", "identifier": ["Id1", "Id2"]}"#));
    assert_eq!(by_id.key, "Id1");
    let by_name = create_device_entry_from_json(&doc(r#"{"name": "N", "identifier": []}"#));
    assert_eq!(by_name.key, "N");
    let no_info = create_device_entry_from_json(&doc(r#"{"name": "N", "info": [1]}"#));
    assert!(no_info.info.same_value(&JsonValue::String("{}".to_string())));
}

#[test]
fn device_process_entry_adds_a_summary() {
    let (out, list, count) = device_process_entry(
        &doc(r#"{"name": "iPad", "type": "iPad", "identifier": "iPad1,1"}"#),
        vec![JsonValue::Null],
    );
    assert_eq!(count, 0);
    assert_eq!(out.len(), 1);
    assert_eq!(out[0].key, "iPad1,1");
    assert_eq!(out[0].entry.name, "iPad");
    assert_eq!(list.len(), 2);
    assert!(list[1].same_value(&doc(r#"{"devices": ["iPad1,1"], "name": "iPad", "type": "iPad"}"#)));
    let (same, n) = device_finalise_entry(&list);
    assert_eq!(n, 0);
    assert_eq!(same.len(), 2);
    assert!(same[1].same_value(&list[1]));
}

const GROUP: &str = r#"{
    "name": "iPhone 13", "type": "iPhone", "devices": ["iPhone14,5", "iPhone14,4"],
    "hideChildren": true,
    "subgroups": [{"name": "Sub", "key": "sub", "devices": ["iPhone14,5"]}]
}"#;

#[test]
fn device_group_fields_and_subgroups() {
    let g = create_device_group_from_json(&doc(GROUP));
    assert_eq!(g.name, "iPhone 13");
    assert_eq!(g.key, "iPhone 13");
    assert_eq!(g.kind, "iPhone");
    assert_eq!(g.devices, strings(&["iPhone14,5", "iPhone14,4"]));
    assert!(g.hide_children);
    assert_eq!(g.subgroups.len(), 1);
    assert_eq!(g.subgroups[0].key, "sub");
    assert_eq!(g.subgroups[0].devices, strings(&["iPhone14,5"]));
    assert!(g.subgroups[0].subgroups.is_empty());
    let e = create_device_group_entry_from_json(&doc(GROUP));
    assert_eq!(e.key, "iPhone 13");
    assert!(e.hide_children);
    assert_eq!(e.subgroups[0].name, "Sub");
}

#[test]
fn device_group_check_refuses_unreadable_documents() {
    assert!(device_group_check(&doc(GROUP)));
    assert!(device_group_check(&doc(r#"{"subgroups": "none"}"#)));
    assert!(!device_group_check(&doc(r#"{"devices": "iPhone1,1"}"#)));
    assert!(!device_group_check(&doc(r#"{"subgroups": [{"devices": 1}]}"#)));
}

#[test]
fn group_process_entry_adds_each_device_once() {
    let (out, format) = process_entry(&doc(GROUP), vec![JsonValue::String("iPhone14,4".to_string())]);
    assert_eq!(format.file_count, 0);
    assert_eq!(out.len(), 1);
    assert_eq!(out[0].key, "iPhone 13");
    assert_eq!(format.value_vec.len(), 2);
    assert!(format.value_vec[0].same_value(&JsonValue::String("iPhone14,4".to_string())));
    assert!(format.value_vec[1].same_value(&JsonValue::String("iPhone14,5".to_string())));
}

#[test]
fn devices_outside_groups_become_groups_of_their_own() {
    let all = vec![
        doc(r#"{"devices": ["a"], "name": "A", "type": "t"}"#),
        doc(r#"{"key": "b", "name": "B"}"#),
        doc(r#"{"key": "c", "name": "C"}"#),
        doc("5"),
    ];
    let grouped = vec![JsonValue::String("b".to_string())];
    let rest = finalise_entry(&all, &grouped);
    assert_eq!(rest.len(), 3);
    assert_eq!(get_string(&rest[0], "name"), "A");
    assert_eq!(get_string(&rest[1], "key"), "c");
    assert!(rest[2].same_value(&doc("5")));
    assert_eq!(get_string_array(&rest[0], "devices"), strings(&["a"]));
    let with_null = finalise_entry(&all, &vec![JsonValue::Null]);
    assert_eq!(with_null.len(), 2);
}
