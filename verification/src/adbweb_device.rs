use vstd::prelude::*;
use crate::device_file::{DeviceEntry, DeviceModel};
use crate::json::{
    bool_at, contains_text, field, find_field, get_bool, get_string, get_string_array,
    lemma_array_model, model, string_array_at, string_array_check, string_array_ok, string_at,
    Json, JsonValue,
};

verus! {

/// A source of a firmware as a device's page shows it: its type, devices and first link.
pub struct DeviceADBWebEntryOsEntrySource {
    pub kind: String,
    pub device_map: Vec<String>,
    pub link: String,
}

/// A firmware as a device's page shows it.
pub struct DeviceADBWebEntryOsEntry {
    pub os_str: String,
    pub version: String,
    pub build: String,
    pub key: String,
    pub released: String,
    pub rc: bool,
    pub beta: bool,
    pub rsr: bool,
    pub internal: bool,
    pub preinstalled: Vec<String>,
    pub sources: Vec<DeviceADBWebEntryOsEntrySource>,
}

/// A device entry as the web listing shows it, with the firmwares it runs.
pub struct DeviceADBWebEntry {
    pub name: String,
    pub key: String,
    pub kind: String,
    pub identifier: Vec<String>,
    pub model: Vec<String>,
    pub board: Vec<String>,
    pub released: Vec<String>,
    pub soc: Vec<String>,
    pub arch: Vec<String>,
    pub firmwares: Vec<DeviceADBWebEntryOsEntry>,
}

pub struct FwSourceModel {
    pub kind: Seq<char>,
    pub device_map: Seq<Seq<char>>,
    pub link: Seq<char>,
}

pub struct FwModel {
    pub os_str: Seq<char>,
    pub version: Seq<char>,
    pub build: Seq<char>,
    pub key: Seq<char>,
    pub released: Seq<char>,
    pub rc: bool,
    pub beta: bool,
    pub rsr: bool,
    pub internal: bool,
    pub preinstalled: Seq<Seq<char>>,
    pub sources: Seq<FwSourceModel>,
}

pub struct WebDeviceEntryModel {
    pub name: Seq<char>,
    pub key: Seq<char>,
    pub kind: Seq<char>,
    pub identifier: Seq<Seq<char>>,
    pub model: Seq<Seq<char>>,
    pub board: Seq<Seq<char>>,
    pub released: Seq<Seq<char>>,
    pub soc: Seq<Seq<char>>,
    pub arch: Seq<Seq<char>>,
    pub firmwares: Seq<FwModel>,
}

impl View for DeviceADBWebEntryOsEntrySource {
    type V = FwSourceModel;

    open spec fn view(&self) -> FwSourceModel {
        FwSourceModel { kind: self.kind@, device_map: self.device_map.deep_view(), link: self.link@ }
    }
}

impl View for DeviceADBWebEntryOsEntry {
    type V = FwModel;

    open spec fn view(&self) -> FwModel {
        FwModel {
            os_str: self.os_str@,
            version: self.version@,
            build: self.build@,
            key: self.key@,
            released: self.released@,
            rc: self.rc,
            beta: self.beta,
            rsr: self.rsr,
            internal: self.internal,
            preinstalled: self.preinstalled.deep_view(),
            sources: self.sources@.map_values(|s: DeviceADBWebEntryOsEntrySource| s@),
        }
    }
}

impl View for DeviceADBWebEntry {
    type V = WebDeviceEntryModel;

    open spec fn view(&self) -> WebDeviceEntryModel {
        WebDeviceEntryModel {
            name: self.name@,
            key: self.key@,
            kind: self.kind@,
            identifier: self.identifier.deep_view(),
            model: self.model.deep_view(),
            board: self.board.deep_view(),
            released: self.released.deep_view(),
            soc: self.soc.deep_view(),
            arch: self.arch.deep_view(),
            firmwares: self.firmwares@.map_values(|f: DeviceADBWebEntryOsEntry| f@),
        }
    }
}

/// The source documents of a firmware that apply to a device (not of type `ota`, and with the
/// device in their device map), each with its type, devices and the URL of its first link.
pub open spec fn device_sources_of(sources: Seq<Json>, device_key: Seq<char>) -> Seq<FwSourceModel>
    decreases sources.len(),
{
    if sources.len() == 0 {
        Seq::empty()
    } else {
        let prev = device_sources_of(sources.drop_last(), device_key);
        let s = sources.last();
        if string_at(s, "type"@) == "ota"@ || !string_array_at(s, "device_map"@).contains(device_key) {
            prev
        } else {
            prev.push(
                FwSourceModel {
                    kind: string_at(s, "type"@),
                    device_map: string_array_at(s, "device_map"@),
                    link: string_at(field(s, "links"@)->Array_0[0], "url"@),
                },
            )
        }
    }
}

/// The sources of a firmware as a device's page shows them: every source that lists the
/// device and whose type is not `ota` appears, with its type, its devices and the URL of its
/// first link; nothing else appears, and there are no more items than sources.
pub proof fn law_device_sources(sources: Seq<Json>, device_key: Seq<char>)
    ensures
        device_sources_of(sources, device_key).len() <= sources.len(),
        forall|i: int|
            0 <= i < sources.len() && string_at(#[trigger] sources[i], "type"@) != "ota"@
                && string_array_at(sources[i], "device_map"@).contains(device_key)
                ==> device_sources_of(sources, device_key).contains(
                FwSourceModel {
                    kind: string_at(sources[i], "type"@),
                    device_map: string_array_at(sources[i], "device_map"@),
                    link: string_at(field(sources[i], "links"@)->Array_0[0], "url"@),
                },
            ),
        forall|x: FwSourceModel|
            device_sources_of(sources, device_key).contains(x) ==> exists|i: int|
                0 <= i < sources.len() && string_at(#[trigger] sources[i], "type"@) != "ota"@
                    && string_array_at(sources[i], "device_map"@).contains(device_key) && x == (
                FwSourceModel {
                    kind: string_at(sources[i], "type"@),
                    device_map: string_array_at(sources[i], "device_map"@),
                    link: string_at(field(sources[i], "links"@)->Array_0[0], "url"@),
                }),
    decreases sources.len(),
{
    if sources.len() > 0 {
        let rest = sources.drop_last();
        let n = sources.len() - 1;
        law_device_sources(rest, device_key);
        let prev = device_sources_of(rest, device_key);
        let r = device_sources_of(sources, device_key);
        let s = sources[n];
        assert(sources.last() == s);
        let item = FwSourceModel {
            kind: string_at(s, "type"@),
            device_map: string_array_at(s, "device_map"@),
            link: string_at(field(s, "links"@)->Array_0[0], "url"@),
        };
        let keep = !(string_at(s, "type"@) == "ota"@ || !string_array_at(s, "device_map"@).contains(device_key));
        assert(keep ==> r == prev.push(item));
        assert(!keep ==> r == prev);
        assert forall|i: int|
            0 <= i < sources.len() && string_at(#[trigger] sources[i], "type"@) != "ota"@
                && string_array_at(sources[i], "device_map"@).contains(device_key)
                implies r.contains(
                FwSourceModel {
                    kind: string_at(sources[i], "type"@),
                    device_map: string_array_at(sources[i], "device_map"@),
                    link: string_at(field(sources[i], "links"@)->Array_0[0], "url"@),
                },
            ) by {
            if i < n {
                assert(rest[i] == sources[i]);
                let x = FwSourceModel {
                    kind: string_at(sources[i], "type"@),
                    device_map: string_array_at(sources[i], "device_map"@),
                    link: string_at(field(sources[i], "links"@)->Array_0[0], "url"@),
                };
                assert(prev.contains(x));
                if keep {
                    let w = choose|w: int| 0 <= w < prev.len() && prev[w] == x;
                    assert(r[w] == x);
                }
            } else {
                assert(r[r.len() - 1] == item);
            }
        }
        assert forall|x: FwSourceModel| r.contains(x) implies exists|i: int|
            0 <= i < sources.len() && string_at(#[trigger] sources[i], "type"@) != "ota"@
                && string_array_at(sources[i], "device_map"@).contains(device_key) && x == (
            FwSourceModel {
                kind: string_at(sources[i], "type"@),
                device_map: string_array_at(sources[i], "device_map"@),
                link: string_at(field(sources[i], "links"@)->Array_0[0], "url"@),
            }) by {
            let w = choose|w: int| 0 <= w < r.len() && r[w] == x;
            if w < prev.len() {
                assert(prev[w] == x);
                assert(prev.contains(x));
                let i = choose|i: int|
                    0 <= i < rest.len() && string_at(#[trigger] rest[i], "type"@) != "ota"@
                        && string_array_at(rest[i], "device_map"@).contains(device_key) && x == (
                    FwSourceModel {
                        kind: string_at(rest[i], "type"@),
                        device_map: string_array_at(rest[i], "device_map"@),
                        link: string_at(field(rest[i], "links"@)->Array_0[0], "url"@),
                    });
                assert(rest[i] == sources[i]);
            } else {
                assert(x == item);
                assert(string_at(sources[n], "type"@) != "ota"@);
            }
        }
    }
}

/// A source document can be read for a device: where it applies to the device, its links are
/// a non-empty array.
pub open spec fn source_for_device_ok(s: Json, device_key: Seq<char>) -> bool {
    string_at(s, "type"@) != "ota"@ ==> {
        &&& string_array_ok(s, "device_map"@)
        &&& string_array_at(s, "device_map"@).contains(device_key) ==> {
            &&& field(s, "links"@) is Array
            &&& field(s, "links"@)->Array_0.len() > 0
        }
    }
}

/// A firmware document can be read for a device: where the device is in its device map, its
/// sources are an array of sources that can be read for the device.
pub open spec fn firmware_for_device_ok(o: Json, device_key: Seq<char>) -> bool {
    &&& string_array_ok(o, "device_map"@)
    &&& string_array_at(o, "device_map"@).contains(device_key) ==> {
        &&& string_array_ok(o, "preinstalled"@)
        &&& field(o, "sources"@) is Array
        &&& forall|i: int|
            0 <= i < field(o, "sources"@)->Array_0.len() ==> source_for_device_ok(
                #[trigger] field(o, "sources"@)->Array_0[i],
                device_key,
            )
    }
}

/// The firmware list can be read for a device: it is an array of firmware documents that can
/// be read for it.
pub open spec fn firmware_list_ok(list: Json, device_key: Seq<char>) -> bool {
    &&& list is Array
    &&& forall|i: int|
        0 <= i < list->Array_0.len() ==> firmware_for_device_ok(#[trigger] list->Array_0[i], device_key)
}

fn source_for_device_check(s: &JsonValue, device_key: &String) -> (r: bool)
    ensures
        r == source_for_device_ok(s@, device_key@),
{
    let ota = String::from_str("ota");
    proof {
        reveal_strlit("ota");
    }
    if get_string(s, "type") == ota {
        return true;
    }
    if !string_array_check(s, "device_map") {
        return false;
    }
    if !contains_text(&get_string_array(s, "device_map"), device_key.as_str()) {
        return true;
    }
    match find_field(s, "links") {
        Some(JsonValue::Array(links)) => {
            proof {
                if links@.len() > 0 {
                    lemma_array_model(*links, 0);
                }
            }
            links.len() > 0
        },
        _ => false,
    }
}

#[verifier::loop_isolation(false)]
fn firmware_for_device_check(o: &JsonValue, device_key: &String) -> (r: bool)
    ensures
        r == firmware_for_device_ok(o@, device_key@),
{
    if !string_array_check(o, "device_map") {
        return false;
    }
    if !contains_text(&get_string_array(o, "device_map"), device_key.as_str()) {
        return true;
    }
    if !string_array_check(o, "preinstalled") {
        return false;
    }
    match find_field(o, "sources") {
        Some(JsonValue::Array(sources)) => {
            let ghost m = model(JsonValue::Array(*sources))->Array_0;
            let mut i: usize = 0;
            while i < sources.len()
                invariant
                    m == model(JsonValue::Array(*sources))->Array_0,
                    m.len() == sources@.len(),
                    i <= m.len(),
                    forall|k: int| 0 <= k < i ==> source_for_device_ok(#[trigger] m[k], device_key@),
                decreases m.len() - i,
            {
                proof {
                    lemma_array_model(*sources, i as int);
                }
                if !source_for_device_check(&sources[i], device_key) {
                    return false;
                }
                i = i + 1;
            }
            true
        },
        _ => false,
    }
}

/// Whether the firmware list can be read for the device `device_key`.
#[verifier::loop_isolation(false)]
pub fn firmware_list_check(list: &JsonValue, device_key: &String) -> (r: bool)
    ensures
        r == firmware_list_ok(list@, device_key@),
{
    match list {
        JsonValue::Array(items) => {
            let ghost m = list@->Array_0;
            let mut i: usize = 0;
            while i < items.len()
                invariant
                    m == model(JsonValue::Array(*items))->Array_0,
                    m.len() == items@.len(),
                    i <= m.len(),
                    forall|k: int| 0 <= k < i ==> firmware_for_device_ok(#[trigger] m[k], device_key@),
                decreases m.len() - i,
            {
                proof {
                    lemma_array_model(*items, i as int);
                }
                if !firmware_for_device_check(&items[i], device_key) {
                    return false;
                }
                i = i + 1;
            }
            true
        },
        _ => false,
    }
}

/// A firmware as a device's page shows it.
pub open spec fn fw_of(o: Json, device_key: Seq<char>) -> FwModel {
    FwModel {
        os_str: string_at(o, "os_str"@),
        version: string_at(o, "version"@),
        build: string_at(o, "build"@),
        key: string_at(o, "key"@),
        released: string_at(o, "released"@),
        rc: bool_at(o, "rc"@),
        beta: bool_at(o, "beta"@),
        rsr: bool_at(o, "rsr"@),
        internal: bool_at(o, "internal"@),
        preinstalled: string_array_at(o, "preinstalled"@),
        sources: device_sources_of(field(o, "sources"@)->Array_0, device_key),
    }
}

/// The firmwares and their keys after the firmware documents are seen in turn: each that
/// lists the device and whose key is not yet among the keys is added to both.
pub open spec fn firmwares_after(
    fws: Seq<FwModel>,
    keys: Seq<Seq<char>>,
    objs: Seq<Json>,
    device_key: Seq<char>,
) -> (Seq<FwModel>, Seq<Seq<char>>)
    decreases objs.len(),
{
    if objs.len() == 0 {
        (fws, keys)
    } else {
        let prev = firmwares_after(fws, keys, objs.drop_last(), device_key);
        let o = objs.last();
        if !string_array_at(o, "device_map"@).contains(device_key) {
            prev
        } else {
            let e = fw_of(o, device_key);
            if prev.1.contains(e.key) {
                prev
            } else {
                (prev.0.push(e), prev.1.push(e.key))
            }
        }
    }
}

fn device_sources(sources: &Vec<JsonValue>, device_key: &String) -> (r: Vec<
    DeviceADBWebEntryOsEntrySource,
>)
    requires
        forall|i: int|
            0 <= i < sources@.len() ==> source_for_device_ok(#[trigger] sources@[i]@, device_key@),
    ensures
        r@.map_values(|s: DeviceADBWebEntryOsEntrySource| s@) == device_sources_of(
            model(JsonValue::Array(*sources))->Array_0,
            device_key@,
        ),
{
    let ghost m = model(JsonValue::Array(*sources))->Array_0;
    let mut out: Vec<DeviceADBWebEntryOsEntrySource> = Vec::new();
    let mut i: usize = 0;
    assert(m.take(0) =~= Seq::<Json>::empty());
    assert(out@.map_values(|s: DeviceADBWebEntryOsEntrySource| s@) =~= Seq::<FwSourceModel>::empty());
    let ota = String::from_str("ota");
    while i < sources.len()
        invariant
            m == model(JsonValue::Array(*sources))->Array_0,
            m.len() == sources@.len(),
            ota@ == "ota"@,
            forall|k: int| 0 <= k < sources@.len() ==> source_for_device_ok(#[trigger] sources@[k]@, device_key@),
            i <= sources@.len(),
            out@.map_values(|s: DeviceADBWebEntryOsEntrySource| s@) == device_sources_of(
                m.take(i as int),
                device_key@,
            ),
        decreases sources@.len() - i,
    {
        proof {
            lemma_array_model(*sources, i as int);
        }
        assert(m.take(i + 1).drop_last() =~= m.take(i as int));
        assert(m.take(i + 1).last() == m[i as int]);
        let source_data = &sources[i];
        let source_type = get_string(source_data, "type");
        if source_type != ota {
            let device_map = get_string_array(source_data, "device_map");
            if contains_text(&device_map, device_key.as_str()) {
                let link = match find_field(source_data, "links") {
                    Some(JsonValue::Array(links)) => {
                        proof {
                            lemma_array_model(*links, 0);
                        }
                        get_string(&links[0], "url")
                    },
                    _ => String::new(),
                };
                let ghost before = out@;
                out.push(DeviceADBWebEntryOsEntrySource { kind: source_type, device_map, link });
                assert(out@.map_values(|s: DeviceADBWebEntryOsEntrySource| s@) =~= before.map_values(
                    |s: DeviceADBWebEntryOsEntrySource| s@,
                ).push(out@.last()@));
            }
        }
        i = i + 1;
    }
    assert(m.take(m.len() as int) =~= m);
    out
}

/// Adds to `firmwares_vec` each firmware of the list `os_main_json_value` that runs on the
/// device `device_key` and whose key is not yet in `fw_key_vec`, adding its key there too.
/// A firmware shows its sources that apply to the device (not of type `ota`, listing the
/// device), each with the URL of its first link.
pub fn get_firmwares_vec(
    device_key: String,
    os_main_json_value: &JsonValue,
    firmwares_vec: Vec<DeviceADBWebEntryOsEntry>,
    fw_key_vec: Vec<String>,
) -> (r: (Vec<DeviceADBWebEntryOsEntry>, Vec<String>))
    requires
        firmware_list_ok(os_main_json_value@, device_key@),
    ensures
        (r.0@.map_values(|f: DeviceADBWebEntryOsEntry| f@), r.1.deep_view()) == firmwares_after(
            firmwares_vec@.map_values(|f: DeviceADBWebEntryOsEntry| f@),
            fw_key_vec.deep_view(),
            os_main_json_value@->Array_0,
            device_key@,
        ),
{
    let ghost fws0 = firmwares_vec@.map_values(|f: DeviceADBWebEntryOsEntry| f@);
    let ghost keys0 = fw_key_vec.deep_view();
    let mut firmwares_vec = firmwares_vec;
    let mut fw_key_vec = fw_key_vec;
    match os_main_json_value {
        JsonValue::Array(os_array) => {
            let ghost m = model(JsonValue::Array(*os_array))->Array_0;
            let mut i: usize = 0;
            assert(m.take(0) =~= Seq::<Json>::empty());
            while i < os_array.len()
                invariant
                    m == model(JsonValue::Array(*os_array))->Array_0,
                    m == os_main_json_value@->Array_0,
                    firmware_list_ok(os_main_json_value@, device_key@),
                    m.len() == os_array@.len(),
                    i <= os_array@.len(),
                    (firmwares_vec@.map_values(|f: DeviceADBWebEntryOsEntry| f@), fw_key_vec.deep_view())
                        == firmwares_after(fws0, keys0, m.take(i as int), device_key@),
                decreases os_array@.len() - i,
            {
                proof {
                    lemma_array_model(*os_array, i as int);
                }
                assert(m.take(i + 1).drop_last() =~= m.take(i as int));
                assert(m.take(i + 1).last() == m[i as int]);
                let os_obj = &os_array[i];
                assert(firmware_for_device_ok(m[i as int], device_key@));
                let device_map = get_string_array(os_obj, "device_map");
                if contains_text(&device_map, device_key.as_str()) {
                    let sources = match find_field(os_obj, "sources") {
                        Some(JsonValue::Array(source_data_array)) => {
                            proof {
                                assert forall|k: int| 0 <= k < source_data_array@.len() implies source_for_device_ok(
                                    #[trigger] source_data_array@[k]@,
                                    device_key@,
                                ) by {
                                    lemma_array_model(*source_data_array, k);
                                }
                            }
                            device_sources(source_data_array, &device_key)
                        },
                        _ => Vec::new(),
                    };
                    let entry = DeviceADBWebEntryOsEntry {
                        os_str: get_string(os_obj, "os_str"),
                        version: get_string(os_obj, "version"),
                        build: get_string(os_obj, "build"),
                        key: get_string(os_obj, "key"),
                        released: get_string(os_obj, "released"),
                        rc: get_bool(os_obj, "rc"),
                        beta: get_bool(os_obj, "beta"),
                        rsr: get_bool(os_obj, "rsr"),
                        internal: get_bool(os_obj, "internal"),
                        preinstalled: get_string_array(os_obj, "preinstalled"),
                        sources,
                    };
                    assert(entry@ == fw_of(m[i as int], device_key@));
                    if !contains_text(&fw_key_vec, entry.key.as_str()) {
                        let ghost fb = firmwares_vec@;
                        let ghost kb = fw_key_vec@;
                        fw_key_vec.push(entry.key.clone());
                        firmwares_vec.push(entry);
                        assert(firmwares_vec@.map_values(|f: DeviceADBWebEntryOsEntry| f@) =~= fb.map_values(
                            |f: DeviceADBWebEntryOsEntry| f@,
                        ).push(firmwares_vec@.last()@));
                        assert(fw_key_vec.deep_view() =~= kb.map_values(|s: String| s@).push(
                            fw_key_vec@.last()@,
                        ));
                    }
                }
                i = i + 1;
            }
            assert(m.take(m.len() as int) =~= m);
        },
        _ => {},
    }
    (firmwares_vec, fw_key_vec)
}

/// The web listing of a device entry: its fields, its architecture as a one-item list, and
/// the firmwares of `os_main_json_value` that run on it, without two of the same key.
pub open spec fn web_device_entry_of(d: DeviceModel, list: Json) -> WebDeviceEntryModel {
    WebDeviceEntryModel {
        name: d.name,
        key: d.key,
        kind: d.kind,
        identifier: d.identifier,
        model: d.model,
        board: d.board,
        released: d.released,
        soc: d.soc,
        arch: seq![d.arch],
        firmwares: firmwares_after(Seq::empty(), Seq::empty(), list->Array_0, d.key).0,
    }
}

/// The web listing of a device entry, with the firmwares of `os_main_json_value` that run on it.
pub fn convert_device_entry_to_device_adb_web_entry(
    device_entry: DeviceEntry,
    os_main_json_value: &JsonValue,
) -> (r: DeviceADBWebEntry)
    requires
        firmware_list_ok(os_main_json_value@, device_entry.key@),
    ensures
        r@ == web_device_entry_of(device_entry@, os_main_json_value@),
{
    let ghost d = device_entry@;
    let no_firmwares: Vec<DeviceADBWebEntryOsEntry> = Vec::new();
    let no_keys: Vec<String> = Vec::new();
    assert(no_firmwares@.map_values(|f: DeviceADBWebEntryOsEntry| f@) =~= Seq::<FwModel>::empty());
    assert(no_keys.deep_view() =~= Seq::<Seq<char>>::empty());
    let (firmwares, _fw_key_vec) = get_firmwares_vec(
        device_entry.key.clone(),
        os_main_json_value,
        no_firmwares,
        no_keys,
    );
    let mut arch: Vec<String> = Vec::new();
    arch.push(device_entry.arch);
    let r = DeviceADBWebEntry {
        name: device_entry.name,
        key: device_entry.key,
        kind: device_entry.kind,
        identifier: device_entry.identifier,
        model: device_entry.model,
        board: device_entry.board,
        released: device_entry.released,
        soc: device_entry.soc,
        arch,
        firmwares,
    };
    assert(r@.arch =~= seq![d.arch]);
    r
}

/// `f` is the firmware read, for the device, from a document of the list that lists the
/// device, with that document's key.
pub open spec fn read_from_listing(objs: Seq<Json>, device_key: Seq<char>, f: FwModel) -> bool {
    exists|i: int|
        0 <= i < objs.len() && string_array_at(#[trigger] objs[i], "device_map"@).contains(device_key)
            && f == fw_of(objs[i], device_key) && f.key == string_at(objs[i], "key"@)
}

/// Listing a device's firmwares loses none and adds no stranger: the firmwares given stay at
/// the front; the key of every firmware document that lists the device ends up among the
/// keys; and every firmware added is read from a document that lists the device, with that
/// document's key.
pub proof fn law_firmwares_of_device(
    fws: Seq<FwModel>,
    keys: Seq<Seq<char>>,
    objs: Seq<Json>,
    device_key: Seq<char>,
)
    ensures
        fws.is_prefix_of(firmwares_after(fws, keys, objs, device_key).0),
        keys.is_prefix_of(firmwares_after(fws, keys, objs, device_key).1),
        forall|i: int|
            0 <= i < objs.len() && string_array_at(#[trigger] objs[i], "device_map"@).contains(device_key)
                ==> firmwares_after(fws, keys, objs, device_key).1.contains(string_at(objs[i], "key"@)),
        forall|k: int|
            fws.len() <= k < firmwares_after(fws, keys, objs, device_key).0.len() ==> read_from_listing(
                objs,
                device_key,
                #[trigger] firmwares_after(fws, keys, objs, device_key).0[k],
            ),
    decreases objs.len(),
{
    if objs.len() > 0 {
        let rest = objs.drop_last();
        let n = objs.len() - 1;
        law_firmwares_of_device(fws, keys, rest, device_key);
        let prev = firmwares_after(fws, keys, rest, device_key);
        let r = firmwares_after(fws, keys, objs, device_key);
        let o = objs[n];
        assert(objs.last() == o);
        let added = string_array_at(o, "device_map"@).contains(device_key) && !prev.1.contains(fw_of(o, device_key).key);
        assert(added ==> r == (prev.0.push(fw_of(o, device_key)), prev.1.push(fw_of(o, device_key).key)));
        assert(!added ==> r == prev);
        assert forall|i: int|
            0 <= i < objs.len() && string_array_at(#[trigger] objs[i], "device_map"@).contains(device_key)
                implies r.1.contains(string_at(objs[i], "key"@)) by {
            if i < n {
                assert(rest[i] == objs[i]);
                assert(prev.1.contains(string_at(rest[i], "key"@)));
                let w = choose|w: int| 0 <= w < prev.1.len() && prev.1[w] == string_at(rest[i], "key"@);
                if added {
                    assert(r.1[w] == prev.1[w]);
                }
            } else if added {
                assert(r.1[r.1.len() - 1] == string_at(o, "key"@));
            }
        }
        assert forall|k: int|
            fws.len() <= k < r.0.len() implies read_from_listing(objs, device_key, #[trigger] r.0[k]) by {
            if k < prev.0.len() {
                assert(fws.len() <= k < firmwares_after(fws, keys, rest, device_key).0.len());
                let pk = firmwares_after(fws, keys, rest, device_key).0[k];
                assert(read_from_listing(rest, device_key, pk));
                let i = choose|i: int|
                    0 <= i < rest.len() && string_array_at(#[trigger] rest[i], "device_map"@).contains(device_key)
                        && pk == fw_of(rest[i], device_key)
                        && fw_of(rest[i], device_key).key == string_at(rest[i], "key"@);
                assert(rest[i] == objs[i]);
                if added {
                    assert(r.0[k] == prev.0[k]);
                }
                assert(string_array_at(objs[i], "device_map"@).contains(device_key)
                    && r.0[k] == fw_of(objs[i], device_key)
                    && fw_of(objs[i], device_key).key == string_at(objs[i], "key"@));
            } else {
                assert(added);
                assert(r.0[k] == fw_of(o, device_key));
                assert(string_array_at(objs[n], "device_map"@).contains(device_key)
                    && r.0[k] == fw_of(objs[n], device_key)
                    && fw_of(objs[n], device_key).key == string_at(objs[n], "key"@));
            }
        }
        if added {
            assert(fws.is_prefix_of(r.0)) by {
                assert forall|x: int| 0 <= x < fws.len() implies r.0[x] == fws[x] by {
                    assert(r.0[x] == prev.0[x]);
                }
            }
            assert(keys.is_prefix_of(r.1)) by {
                assert forall|x: int| 0 <= x < keys.len() implies r.1[x] == keys[x] by {
                    assert(r.1[x] == prev.1[x]);
                }
            }
        }
    }
    else {
        assert(firmwares_after(fws, keys, objs, device_key) == (fws, keys));
        assert(fws.is_prefix_of(fws));
    }
}

/// No two firmwares of a device share a key, and the key list is the list of their keys,
/// where that held of the lists given.
pub proof fn law_firmware_keys_unique(
    fws: Seq<FwModel>,
    keys: Seq<Seq<char>>,
    objs: Seq<Json>,
    device_key: Seq<char>,
)
    requires
        fws.map_values(|f: FwModel| f.key) == keys,
        forall|i: int, j: int| 0 <= i < keys.len() && 0 <= j < keys.len() && i != j ==> keys[i] != keys[j],
    ensures
        firmwares_after(fws, keys, objs, device_key).0.map_values(|f: FwModel| f.key)
            == firmwares_after(fws, keys, objs, device_key).1,
        forall|i: int, j: int|
            0 <= i < firmwares_after(fws, keys, objs, device_key).1.len() && 0 <= j
                < firmwares_after(fws, keys, objs, device_key).1.len() && i != j
                ==> firmwares_after(fws, keys, objs, device_key).1[i]
                != firmwares_after(fws, keys, objs, device_key).1[j],
    decreases objs.len(),
{
    if objs.len() > 0 {
        law_firmware_keys_unique(fws, keys, objs.drop_last(), device_key);
        let prev = firmwares_after(fws, keys, objs.drop_last(), device_key);
        let next = firmwares_after(fws, keys, objs, device_key);
        let o = objs.last();
        if string_array_at(o, "device_map"@).contains(device_key) {
            let e = fw_of(o, device_key);
            if !prev.1.contains(e.key) {
                assert(next.0.map_values(|f: FwModel| f.key) =~= prev.0.map_values(|f: FwModel| f.key).push(e.key));
                assert forall|i: int, j: int|
                    0 <= i < next.1.len() && 0 <= j < next.1.len() && i != j implies next.1[i] != next.1[j] by {
                    if i == prev.1.len() {
                        assert(prev.1[j] != e.key);
                    } else if j == prev.1.len() {
                        assert(prev.1[i] != e.key);
                    }
                }
            }
        }
    }
}

} // verus!
