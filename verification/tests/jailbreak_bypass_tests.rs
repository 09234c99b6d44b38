use appledb_api::bypass::{create_bypass_entry_from_json, match_entry as bypass_match_entry, process_entry as bypass_process_entry};
use appledb_api::jailbreak::{
    create_jailbreak_entry_from_json, get_compat, get_update_link, guide_from_json,
    info_from_json, jailbreak_check, match_compat, match_entry, match_guide, match_info,
    process_entry,
};
use appledb_api::json::{JsonNumber, JsonValue};
fn convert(v: &serde_json::Value) -> JsonValue {
    match v {
        serde_json::Value::Null => JsonValue::Null,
        serde_json::Value::Bool(b) => JsonValue::Bool(*b),
        serde_json::Value::Number(n) => {
            if let Some(u) = n.as_u64() {
                JsonValue::Number(JsonNumber::PosInt(u))
            } else if let Some(i) = n.as_i64() {
                JsonValue::Number(JsonNumber::NegInt(i))
            } else {
                JsonValue::Number(JsonNumber::Float(n.to_string()))
            }
        }
        serde_json::Value::String(s) => JsonValue::String(s.clone()),
        serde_json::Value::Array(a) => JsonValue::Array(a.iter().map(convert).collect()),
        serde_json::Value::Object(o) => {
            JsonValue::Object(o.iter().map(|(k, x)| (k.clone(), convert(x))).collect())
        }
    }
}

fn doc(text: &str) -> JsonValue {
    convert(&serde_json::from_str::<serde_json::Value>(text).unwrap())
}

fn strings(v: &[&str]) -> Vec<String> {
    v.iter().map(|s| s.to_string()).collect()
}

const JB: &str = r##"{
    "name": "checkra1n", "alias": "checkrain", "priority": 2, "hideFromGuide": false,
    "info": {
        "website": {"name": "checkra.in", "url": "https://checkra.in/"},
        "wiki": {"name": "wiki", "url": "https://wiki"},
        "guide": [{
            "name": "Using checkra1n", "url": "/installing-checkra1n/", "pkgman": "cydia",
            "updateLink": [{"text": "Update", "link": "/updating/"}],
            "firmwares": ["12.0", "14.8.1"], "devices": ["iPhone10,1"]
        }],
        "latestVer": "0.12.4", "color": "#1c1c1c", "icon": "/x.png", "notes": "n",
        "jailbreaksmeapp": true, "type": "Semi-tethered", "firmwares": ["12.0"], "soc": "A11"
    },
    "compatibility": [{"firmwares": ["12.0"], "devices": ["iPhone10,1"], "extra": 1}]
}"##;

#[test]
fn jailbreak_entry_fields() {
    let e = create_jailbreak_entry_from_json(&doc(JB));
    assert_eq!(e.name, "checkra1n");
    assert_eq!(e.key, "checkra1n");
    assert_eq!(e.alias, strings(&["checkrain"]));
    assert_eq!(e.priority, 2);
    assert!(!e.hide_from_guide);
    assert_eq!(e.info.website.name, "checkra.in");
    assert_eq!(e.info.website.url, "https://checkra.in/");
    assert_eq!(e.info.wiki.url, "https://wiki");
    assert_eq!(e.info.guide.len(), 1);
    let g = &e.info.guide[0];
    assert_eq!(g.name, "Using checkra1n");
    assert_eq!(g.url, "/installing-checkra1n/");
    assert_eq!(g.pkgman, "cydia");
    assert_eq!(g.update_link.len(), 1);
    assert_eq!(g.update_link[0].name, "Update");
    assert_eq!(g.update_link[0].url, "/updating/");
    assert_eq!(g.firmwares, strings(&["12.0", "14.8.1"]));
    assert_eq!(g.devices, strings(&["iPhone10,1"]));
    assert_eq!(e.info.latest_ver, "0.12.4");
    assert_eq!(e.info.color, "#1c1c1c");
    assert_eq!(e.info.icon, "/x.png");
    assert_eq!(e.info.notes, "n");
    assert!(e.info.jailbreaksmeapp);
    assert_eq!(e.info.firmwares, strings(&["12.0"]));
    assert_eq!(e.info.soc, "A11");
    assert_eq!(e.compatibility.len(), 1);
    assert_eq!(e.compatibility[0].firmwares, strings(&["12.0"]));
    assert_eq!(e.compatibility[0].devices, strings(&["iPhone10,1"]));
}

#[test]
fn jailbreak_type_is_read_from_the_type_member() {
    let plain = create_jailbreak_entry_from_json(&doc(JB));
    assert_eq!(plain.info.kind, "Semi-tethered");
    let named = info_from_json(&doc(r#"{"type": "Untethered"}"#));
    assert_eq!(named.kind, "Untethered");
    let none = info_from_json(&doc(r#"{"color": "red"}"#));
    assert_eq!(none.kind, "");
    let by_field = match_info(info_from_json(&doc("{}")), &doc(r#"{"type": "Semi-untethered"}"#), "r#type");
    assert_eq!(by_field.kind, "Semi-untethered");
}

#[test]
fn matchers_read_only_the_named_member() {
    let bad_guide = doc(r#"{"guide": "not a list", "firmwares": 3, "color": "blue",
        "website": {"name": "w", "url": "u"}}"#);
    let info = match_info(info_from_json(&doc("{}")), &bad_guide, "website");
    assert_eq!(info.website.name, "w");
    assert_eq!(info.website.url, "u");
    let info = match_info(info, &bad_guide, "color");
    assert_eq!(info.color, "blue");
    assert!(info.guide.is_empty());
    let entry = create_jailbreak_entry_from_json(&doc(r#"{"name": "n"}"#));
    let ill_typed = doc(r#"{"name": "other", "compatibility": {"x": 1}, "info": {"guide": 5}}"#);
    let renamed = match_entry(entry, &ill_typed, "name", false);
    assert_eq!(renamed.name, "other");
    let kept = match_entry(renamed, &ill_typed, "compatibility", false);
    assert!(kept.compatibility.is_empty());
    let keyed = match_entry(kept, &ill_typed, "key", false);
    assert_eq!(keyed.key, "other");
    let keyed = match_entry(keyed, &doc(r#"{"name": "a"}"#), "key", true);
    assert_eq!(keyed.key, "");
    let guide = match_guide(guide_from_json(&doc("{}")), &doc(r#"{"url": "x", "updateLink": 1}"#), "url");
    assert_eq!(guide.url, "x");
    let compat = match_compat(get_compat(&doc("{}")), &doc(r#"{"devices": ["d"], "firmwares": 2}"#), "devices");
    assert_eq!(compat.devices, strings(&["d"]));
}

#[test]
fn jailbreak_key_member_wins() {
    let e = create_jailbreak_entry_from_json(&doc(r#"{"name": "unc0ver", "key": "u0"}"#));
    assert_eq!(e.key, "u0");
    assert!(e.compatibility.is_empty());
    assert!(e.info.guide.is_empty());
    assert_eq!(e.priority, 0);
}

#[test]
fn jailbreak_parts() {
    let links = get_update_link(&doc(r#"[{"text": "a", "link": "b"}, 3]"#));
    assert_eq!(links.len(), 2);
    assert_eq!(links[0].url, "b");
    assert_eq!(links[1].name, "");
    let guide = guide_from_json(&doc(r#"{"name": "g", "other": 1}"#));
    assert_eq!(guide.name, "g");
    assert!(guide.update_link.is_empty());
    let compat = get_compat(&doc(r#"{"devices": ["d"]}"#));
    assert!(compat.firmwares.is_empty());
    assert_eq!(compat.devices, strings(&["d"]));
}

#[test]
fn jailbreak_check_and_process_entry() {
    assert!(jailbreak_check(&doc(JB)));
    assert!(!jailbreak_check(&doc(r#"{"compatibility": {"a": 1}}"#)));
    assert!(!jailbreak_check(&doc(r#"{"info": {"guide": [{"updateLink": "x"}]}}"#)));
    assert!(!jailbreak_check(&doc(r#"{"info": {"firmwares": "12.0"}}"#)));
    let (out, format) = process_entry(&doc(JB), vec![JsonValue::Bool(true)]);
    assert_eq!(out.len(), 1);
    assert_eq!(out[0].key, "checkra1n");
    assert_eq!(format.file_count, 0);
    assert_eq!(format.value_vec.len(), 1);
}

#[test]
fn bypass_entry_fields() {
    let j = doc(r#"{"name": "A-Bypass", "bundleId": "com.x.abypass", "uri": "https://x",
        "icon": "i.png", "notes": "n", "bypasses": [{"name": "x"}]}"#);
    let e = create_bypass_entry_from_json(&j);
    assert_eq!(e.name, "A-Bypass");
    assert_eq!(e.bundle_id, "com.x.abypass");
    assert_eq!(e.uri, "https://x");
    assert_eq!(e.icon, "i.png");
    assert_eq!(e.notes, "n");
    assert_eq!(e.bypasses.len(), 1);
    assert_eq!(e.bypasses[0].name, "x");
    assert_eq!(e.bypasses[0].repository.uri, "");
    let (out, format) = bypass_process_entry(&j, Vec::new());
    assert_eq!(out[0].key, "com.x.abypass");
    assert_eq!(format.file_count, 0);
    let only_name = bypass_match_entry(create_bypass_entry_from_json(&doc("{}")), &j, "name", true);
    assert_eq!(only_name.name, "A-Bypass");
    assert_eq!(only_name.bundle_id, "");
}

#[test]
fn jailbreak_members_fill_one_part_each() {
    let info_doc = doc(r#"{"color": "red", "icon": "i", "soc": "A12"}"#);
    let empty_info = info_from_json(&doc("{}"));
    let info = match_info(empty_info, &info_doc, "color");
    assert_eq!(info.color, "red");
    assert_eq!(info.icon, "");
    let info = match_info(info, &info_doc, "unknown");
    assert_eq!(info.soc, "");
    let guide_doc = doc(r#"{"pkgman": "sileo", "devices": ["d"]}"#);
    let guide = match_guide(guide_from_json(&doc("{}")), &guide_doc, "pkgman");
    assert_eq!(guide.pkgman, "sileo");
    assert!(guide.devices.is_empty());
    let compat_doc = doc(r#"{"firmwares": ["1"], "devices": ["d"]}"#);
    let compat = match_compat(get_compat(&doc("{}")), &compat_doc, "firmwares");
    assert_eq!(compat.firmwares, strings(&["1"]));
    assert!(compat.devices.is_empty());
}

#[test]
fn bypasses_are_read_item_by_item() {
    let j = doc(r#"{"bundleId": "b", "bypasses": [
        {"name": "Shadow", "notes": "n1", "version": "2.0", "guide": "g", "repository": {"uri": "https://repo"}},
        {"name": "Liberty"},
        7
    ]}"#);
    let e = create_bypass_entry_from_json(&j);
    assert_eq!(e.bypasses.len(), 3);
    assert_eq!(e.bypasses[0].name, "Shadow");
    assert_eq!(e.bypasses[0].notes, "n1");
    assert_eq!(e.bypasses[0].version, "2.0");
    assert_eq!(e.bypasses[0].guide, "g");
    assert_eq!(e.bypasses[0].repository.uri, "https://repo");
    assert_eq!(e.bypasses[1].name, "Liberty");
    assert_eq!(e.bypasses[2].name, "");
    let none = create_bypass_entry_from_json(&doc(r#"{"bypasses": "none"}"#));
    assert!(none.bypasses.is_empty());
    let kept = bypass_match_entry(e, &doc(r#"{"icon": "i"}"#), "icon", false);
    assert_eq!(kept.icon, "i");
    assert_eq!(kept.bypasses.len(), 3);
    assert_eq!(kept.bypasses[0].name, "Shadow");
}
