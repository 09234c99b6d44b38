use vstd::prelude::*;
use crate::json::{
    bool_at, find_field, get_bool, get_object, get_string, get_vec_from_string_or_string_vec,
    has_field, has_member, lemma_models_push, models, object_at, string_at, strings_at, Json,
    JsonValue,
};
use crate::output::OutputEntry;

verus! {

/// A device entry.
pub struct DeviceEntry {
    pub name: String,
    pub key: String,
    pub kind: String,
    pub identifier: Vec<String>,
    pub model: Vec<String>,
    pub board: Vec<String>,
    pub released: Vec<String>,
    pub soc: Vec<String>,
    pub arch: String,
    pub internal: bool,
    pub alias: Vec<String>,
    pub info: JsonValue,
    pub i_bridge: String,
    pub group: bool,
    pub windows_store_id: String,
}

pub struct DeviceModel {
    pub name: Seq<char>,
    pub key: Seq<char>,
    pub kind: Seq<char>,
    pub identifier: Seq<Seq<char>>,
    pub model: Seq<Seq<char>>,
    pub board: Seq<Seq<char>>,
    pub released: Seq<Seq<char>>,
    pub soc: Seq<Seq<char>>,
    pub arch: Seq<char>,
    pub internal: bool,
    pub alias: Seq<Seq<char>>,
    pub info: Json,
    pub i_bridge: Seq<char>,
    pub group: bool,
    pub windows_store_id: Seq<char>,
}

impl View for DeviceEntry {
    type V = DeviceModel;

    open spec fn view(&self) -> DeviceModel {
        DeviceModel {
            name: self.name@,
            key: self.key@,
            kind: self.kind@,
            identifier: self.identifier.deep_view(),
            model: self.model.deep_view(),
            board: self.board.deep_view(),
            released: self.released.deep_view(),
            soc: self.soc.deep_view(),
            arch: self.arch@,
            internal: self.internal,
            alias: self.alias.deep_view(),
            info: self.info@,
            i_bridge: self.i_bridge@,
            group: self.group,
            windows_store_id: self.windows_store_id@,
        }
    }
}

/// The key of a device: its `key` member, else its first identifier, else its name.
pub open spec fn device_key_of(j: Json) -> Seq<char> {
    if has_field(j, "key"@) {
        string_at(j, "key"@)
    } else if strings_at(j, "identifier"@).len() > 0 {
        strings_at(j, "identifier"@)[0]
    } else {
        string_at(j, "name"@)
    }
}

/// A device's key is its `key` member where it has one; otherwise its first identifier (the
/// `identifier` text, or the first item of an `identifier` array); otherwise its name.
pub proof fn law_device_key(j: Json)
    ensures
        has_field(j, "key"@) ==> device_of(j).key == string_at(j, "key"@),
        !has_field(j, "key"@) ==> (crate::json::field(j, "identifier"@) matches Json::Str(s) ==> device_of(j).key == s),
        !has_field(j, "key"@) ==> (crate::json::field(j, "identifier"@) matches Json::Array(items) ==> (items.len()
            > 0 ==> device_of(j).key == crate::json::text_or_empty(items[0]))),
        (!has_field(j, "key"@) && !(crate::json::field(j, "identifier"@) is Str) && (crate::json::field(
            j,
            "identifier"@,
        ) is Array ==> crate::json::field(j, "identifier"@)->Array_0.len() == 0)) ==> device_of(j).key
            == string_at(j, "name"@),
{
}

/// The device entry that a document describes.
pub open spec fn device_of(j: Json) -> DeviceModel {
    DeviceModel {
        name: string_at(j, "name"@),
        key: device_key_of(j),
        kind: string_at(j, "type"@),
        identifier: strings_at(j, "identifier"@),
        model: strings_at(j, "model"@),
        board: strings_at(j, "board"@),
        released: strings_at(j, "released"@),
        soc: strings_at(j, "soc"@),
        arch: string_at(j, "arch"@),
        internal: bool_at(j, "internal"@),
        alias: strings_at(j, "alias"@),
        info: object_at(j, "info"@),
        i_bridge: string_at(j, "iBridge"@),
        group: bool_at(j, "group"@),
        windows_store_id: string_at(j, "windowsStoreId"@),
    }
}

/// Reads a device entry from its document.
pub fn create_device_entry_from_json(json: &JsonValue) -> (r: DeviceEntry)
    ensures
        r@ == device_of(json@),
{
    let identifier = get_vec_from_string_or_string_vec(json, "identifier");
    let name = get_string(json, "name");
    let key = if has_member(json, "key") {
        get_string(json, "key")
    } else if identifier.len() > 0 {
        identifier[0].clone()
    } else {
        name.clone()
    };
    DeviceEntry {
        name,
        key,
        kind: get_string(json, "type"),
        identifier,
        model: get_vec_from_string_or_string_vec(json, "model"),
        board: get_vec_from_string_or_string_vec(json, "board"),
        released: get_vec_from_string_or_string_vec(json, "released"),
        soc: get_vec_from_string_or_string_vec(json, "soc"),
        arch: get_string(json, "arch"),
        internal: get_bool(json, "internal"),
        alias: get_vec_from_string_or_string_vec(json, "alias"),
        info: get_object(json, "info"),
        i_bridge: get_string(json, "iBridge"),
        group: get_bool(json, "group"),
        windows_store_id: get_string(json, "windowsStoreId"),
    }
}

/// The one-device group that stands for a device in the device group list: the device's
/// name and type, and its key as the one device (members in the order `serde_json` keeps them).
pub open spec fn device_summary_of(d: DeviceModel) -> Json {
    Json::Object(
        seq![
            ("devices"@, Json::Array(seq![Json::Str(d.key)])),
            ("name"@, Json::Str(d.name)),
            ("type"@, Json::Str(d.kind)),
        ],
    )
}

/// The summary that a device adds to the device list has the device's key as its one
/// device, and the device's name and type.
pub proof fn law_device_summary(d: DeviceModel)
    ensures
        crate::json::string_array_at(device_summary_of(d), "devices"@) == seq![d.key],
        string_at(device_summary_of(d), "name"@) == d.name,
        string_at(device_summary_of(d), "type"@) == d.kind,
        crate::json::field_keys(device_summary_of(d)).len() == 3,
{
    reveal_strlit("devices");
    reveal_strlit("name");
    reveal_strlit("type");
    assert("devices"@.len() == 7 && "name"@.len() == 4 && "type"@.len() == 4);
    assert("name"@[0] != "type"@[0]);
    crate::json::law_field_lookup(device_summary_of(d), "devices"@, 0);
    crate::json::law_field_lookup(device_summary_of(d), "name"@, 1);
    crate::json::law_field_lookup(device_summary_of(d), "type"@, 2);
    assert(crate::json::texts_of(seq![Json::Str(d.key)]) =~= seq![d.key]);
}

fn device_summary(d: &DeviceEntry) -> (r: JsonValue)
    ensures
        r@ == device_summary_of(d@),
{
    let mut keys: Vec<JsonValue> = Vec::new();
    keys.push(JsonValue::String(d.key.clone()));
    let keys = JsonValue::Array(keys);
    let mut o: Vec<(String, JsonValue)> = Vec::new();
    o.push((String::from_str("devices"), keys));
    o.push((String::from_str("name"), JsonValue::String(d.name.clone())));
    o.push((String::from_str("type"), JsonValue::String(d.kind.clone())));
    let r = JsonValue::Object(o);
    proof {
        crate::json::lemma_array_model(keys->Array_0, 0);
        assert(keys@->Array_0 =~= seq![Json::Str(d.key@)]);
        crate::json::lemma_object_model(o, 0);
        crate::json::lemma_object_model(o, 1);
        crate::json::lemma_object_model(o, 2);
        assert(r@->Object_0 =~= device_summary_of(d@)->Object_0);
    }
    r
}

/// Reads the device entry of a document, to be written under its key, and adds the
/// one-device group that stands for it at the end of `output_vec`. It writes no file
/// itself, so its file count is 0.
pub fn process_entry(json_value: &JsonValue, output_vec: Vec<JsonValue>) -> (r: (
    Vec<OutputEntry<DeviceEntry>>,
    Vec<JsonValue>,
    u32,
))
    ensures
        r.0@.len() == 1,
        r.0@[0].entry@ == device_of(json_value@),
        r.0@[0].key@ == device_key_of(json_value@),
        models(r.1@) == models(output_vec@).push(device_summary_of(device_of(json_value@))),
        r.2 == 0,
{
    let device_entry = create_device_entry_from_json(json_value);
    let summary = device_summary(&device_entry);
    let mut output_vec = output_vec;
    let ghost before = output_vec@;
    output_vec.push(summary);
    proof {
        lemma_models_push(before, output_vec@.last());
    }
    let key = device_entry.key.clone();
    let mut entries: Vec<OutputEntry<DeviceEntry>> = Vec::new();
    entries.push(OutputEntry { entry: device_entry, key });
    (entries, output_vec, 0)
}

/// The device group list as it stands, and no file written.
pub fn finalise_entry(output_vec: &Vec<JsonValue>) -> (r: (Vec<JsonValue>, u32))
    ensures
        models(r.0@) == models(output_vec@),
        r.1 == 0,
{
    let mut out: Vec<JsonValue> = Vec::new();
    let mut i: usize = 0;
    while i < output_vec.len()
        invariant
            i <= output_vec@.len(),
            out@.len() == i,
            forall|j: int| 0 <= j < i ==> (#[trigger] out@[j])@ == output_vec@[j]@,
        decreases output_vec@.len() - i,
    {
        out.push(output_vec[i].clone_value());
        i = i + 1;
    }
    assert(models(out@) =~= models(output_vec@));
    (out, 0)
}

} // verus!
