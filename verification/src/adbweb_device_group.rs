use vstd::prelude::*;
use crate::adbweb_device::{
    firmware_list_check, firmware_list_ok, firmwares_after, get_firmwares_vec,
    DeviceADBWebEntryOsEntry, FwModel,
};
use crate::device_group::{empty_group, GroupModel};
use crate::device_group_entry::DeviceGroupEntry;
use crate::json::{
    contains_text, field, find_field, get_string, get_string_array, string_array_at,
    string_array_check, string_array_ok, string_at, Json, JsonValue,
};

verus! {

/// A device group as the web listing shows it: the group, with what its devices have in
/// common gathered from the device list.
pub struct DeviceGroupADBWebEntry {
    pub name: String,
    pub key: String,
    pub kind: String,
    pub devices: Vec<String>,
    pub hide_children: bool,
    pub subgroups: Vec<DeviceGroupADBWebEntry>,
    pub identifier: Vec<String>,
    pub model: Vec<String>,
    pub board: Vec<String>,
    pub released: Vec<String>,
    pub soc: Vec<String>,
    pub arch: Vec<String>,
    pub firmwares: Vec<DeviceADBWebEntryOsEntry>,
}

pub struct WebGroupModel {
    pub name: Seq<char>,
    pub key: Seq<char>,
    pub kind: Seq<char>,
    pub devices: Seq<Seq<char>>,
    pub hide_children: bool,
    pub subgroups: Seq<WebGroupModel>,
    pub identifier: Seq<Seq<char>>,
    pub model: Seq<Seq<char>>,
    pub board: Seq<Seq<char>>,
    pub released: Seq<Seq<char>>,
    pub soc: Seq<Seq<char>>,
    pub arch: Seq<Seq<char>>,
    pub firmwares: Seq<FwModel>,
}

pub open spec fn empty_web_group() -> WebGroupModel {
    WebGroupModel {
        name: Seq::empty(),
        key: Seq::empty(),
        kind: Seq::empty(),
        devices: Seq::empty(),
        hide_children: false,
        subgroups: Seq::empty(),
        identifier: Seq::empty(),
        model: Seq::empty(),
        board: Seq::empty(),
        released: Seq::empty(),
        soc: Seq::empty(),
        arch: Seq::empty(),
        firmwares: Seq::empty(),
    }
}

pub open spec fn web_group_model(g: DeviceGroupADBWebEntry) -> WebGroupModel
    decreases g,
{
    WebGroupModel {
        name: g.name@,
        key: g.key@,
        kind: g.kind@,
        devices: g.devices.deep_view(),
        hide_children: g.hide_children,
        subgroups: Seq::new(
            g.subgroups@.len(),
            |i: int|
                if 0 <= i < g.subgroups@.len() {
                    web_group_model(g.subgroups@[i])
                } else {
                    empty_web_group()
                },
        ),
        identifier: g.identifier.deep_view(),
        model: g.model.deep_view(),
        board: g.board.deep_view(),
        released: g.released.deep_view(),
        soc: g.soc.deep_view(),
        arch: g.arch.deep_view(),
        firmwares: g.firmwares@.map_values(|f: DeviceADBWebEntryOsEntry| f@),
    }
}

impl View for DeviceGroupADBWebEntry {
    type V = WebGroupModel;

    open spec fn view(&self) -> WebGroupModel {
        web_group_model(*self)
    }
}

/// `acc` with each text of `items` that it does not yet hold added at its end, in order.
pub open spec fn add_new(acc: Seq<Seq<char>>, items: Seq<Seq<char>>) -> Seq<Seq<char>>
    decreases items.len(),
{
    if items.len() == 0 {
        acc
    } else {
        let prev = add_new(acc, items.drop_last());
        if prev.contains(items.last()) {
            prev
        } else {
            prev.push(items.last())
        }
    }
}

/// Gathering texts keeps a list free of repeats and loses nothing: the result starts with
/// `acc`, holds every text of `items`, and holds no text twice where `acc` held none twice.
pub proof fn law_add_new_distinct(acc: Seq<Seq<char>>, items: Seq<Seq<char>>)
    requires
        acc.no_duplicates(),
    ensures
        add_new(acc, items).no_duplicates(),
        acc.is_prefix_of(add_new(acc, items)),
        forall|i: int| 0 <= i < items.len() ==> add_new(acc, items).contains(#[trigger] items[i]),
        forall|t: Seq<char>| add_new(acc, items).contains(t) ==> acc.contains(t) || items.contains(t),
    decreases items.len(),
{
    if items.len() > 0 {
        let rest = items.drop_last();
        law_add_new_distinct(acc, rest);
        let prev = add_new(acc, rest);
        let t = items.last();
        assert forall|i: int| 0 <= i < items.len() implies add_new(acc, items).contains(#[trigger] items[i]) by {
            if i < items.len() - 1 {
                assert(rest[i] == items[i]);
                let w = choose|w: int| 0 <= w < prev.len() && prev[w] == items[i];
                if !prev.contains(t) {
                    assert(prev.push(t)[w] == items[i]);
                }
            } else if !prev.contains(t) {
                assert(prev.push(t)[prev.len() as int] == t);
            }
        }
        assert forall|x: Seq<char>| add_new(acc, items).contains(x) implies acc.contains(x) || items.contains(x) by {
            if prev.contains(x) {
                if rest.contains(x) {
                    let w = choose|w: int| 0 <= w < rest.len() && rest[w] == x;
                    assert(items[w] == x);
                }
            } else {
                assert(x == t);
                assert(items[items.len() - 1] == t);
            }
        }
        if !prev.contains(t) {
            assert(acc.is_prefix_of(prev.push(t))) by {
                assert forall|i: int| 0 <= i < acc.len() implies prev.push(t)[i] == acc[i] by {
                    assert(prev[i] == acc[i]);
                }
            }
        }
    }
}

/// What the devices of a group have in common, gathered device by device.
pub struct GroupInfo {
    pub identifier: Seq<Seq<char>>,
    pub model: Seq<Seq<char>>,
    pub board: Seq<Seq<char>>,
    pub released: Seq<Seq<char>>,
    pub soc: Seq<Seq<char>>,
    pub arch: Seq<Seq<char>>,
    pub firmwares: Seq<FwModel>,
    pub fw_keys: Seq<Seq<char>>,
}

/// What the devices named in `devs` have in common, read from the device list `map` (devices
/// by key, and the firmware list under `os_main_json_value`).
pub open spec fn group_info_after(devs: Seq<Seq<char>>, map: Json) -> GroupInfo
    decreases devs.len(),
{
    if devs.len() == 0 {
        GroupInfo {
            identifier: Seq::empty(),
            model: Seq::empty(),
            board: Seq::empty(),
            released: Seq::empty(),
            soc: Seq::empty(),
            arch: Seq::empty(),
            firmwares: Seq::empty(),
            fw_keys: Seq::empty(),
        }
    } else {
        let prev = group_info_after(devs.drop_last(), map);
        let d = field(map, devs.last());
        let fw = firmwares_after(
            prev.firmwares,
            prev.fw_keys,
            field(map, "os_main_json_value"@)->Array_0,
            string_at(d, "key"@),
        );
        GroupInfo {
            identifier: add_new(prev.identifier, string_array_at(d, "identifier"@)),
            model: add_new(prev.model, string_array_at(d, "model"@)),
            board: add_new(prev.board, string_array_at(d, "board"@)),
            released: add_new(prev.released, string_array_at(d, "released"@)),
            soc: add_new(prev.soc, string_array_at(d, "soc"@)),
            arch: add_new(prev.arch, string_array_at(d, "arch"@)),
            firmwares: fw.0,
            fw_keys: fw.1,
        }
    }
}

/// The texts that the devices named in `devs` list under `f` in the device list `map`,
/// gathered device by device, each kept once.
pub open spec fn gathered(devs: Seq<Seq<char>>, map: Json, f: Seq<char>) -> Seq<Seq<char>>
    decreases devs.len(),
{
    if devs.len() == 0 {
        Seq::empty()
    } else {
        add_new(gathered(devs.drop_last(), map, f), string_array_at(field(map, devs.last()), f))
    }
}

proof fn lemma_group_info_gathered(devs: Seq<Seq<char>>, map: Json)
    ensures
        group_info_after(devs, map).identifier == gathered(devs, map, "identifier"@),
        group_info_after(devs, map).model == gathered(devs, map, "model"@),
        group_info_after(devs, map).board == gathered(devs, map, "board"@),
        group_info_after(devs, map).released == gathered(devs, map, "released"@),
        group_info_after(devs, map).soc == gathered(devs, map, "soc"@),
        group_info_after(devs, map).arch == gathered(devs, map, "arch"@),
    decreases devs.len(),
{
    if devs.len() > 0 {
        lemma_group_info_gathered(devs.drop_last(), map);
    }
}

proof fn lemma_gathered(devs: Seq<Seq<char>>, map: Json, f: Seq<char>)
    ensures
        gathered(devs, map, f).no_duplicates(),
        forall|t: Seq<char>| gathered(devs, map, f).contains(t) <==> exists|i: int|
            0 <= i < devs.len() && string_array_at(field(map, #[trigger] devs[i]), f).contains(t),
    decreases devs.len(),
{
    if devs.len() > 0 {
        let rest = devs.drop_last();
        let n = devs.len() - 1;
        lemma_gathered(rest, map, f);
        let prev = gathered(rest, map, f);
        let items = string_array_at(field(map, devs[n]), f);
        assert(devs.last() == devs[n]);
        law_add_new_distinct(prev, items);
        assert forall|t: Seq<char>| gathered(devs, map, f).contains(t) <==> exists|i: int|
            0 <= i < devs.len() && string_array_at(field(map, #[trigger] devs[i]), f).contains(t) by {
            if gathered(devs, map, f).contains(t) {
                if prev.contains(t) {
                    let i = choose|i: int|
                        0 <= i < rest.len() && string_array_at(field(map, #[trigger] rest[i]), f).contains(t);
                    assert(devs[i] == rest[i]);
                } else {
                    assert(items.contains(t));
                    let w = choose|w: int| 0 <= w < items.len() && items[w] == t;
                    assert(string_array_at(field(map, devs[n]), f).contains(t));
                }
            }
            if exists|i: int| 0 <= i < devs.len() && string_array_at(field(map, #[trigger] devs[i]), f).contains(t) {
                let i = choose|i: int| 0 <= i < devs.len() && string_array_at(field(map, #[trigger] devs[i]), f).contains(t);
                if i < n {
                    assert(rest[i] == devs[i]);
                    assert(prev.contains(t));
                    let w = choose|w: int| 0 <= w < prev.len() && prev[w] == t;
                    assert(gathered(devs, map, f)[w] == t);
                } else {
                    let w = choose|w: int| 0 <= w < items.len() && items[w] == t;
                    assert(gathered(devs, map, f).contains(items[w]));
                }
            }
        }
    }
}

/// A group's firmware keys cover every firmware of the list that runs on one of its devices:
/// for each device of the group and each firmware document that lists that device's key,
/// the firmware's key is among the keys gathered.
pub proof fn law_group_firmwares(devs: Seq<Seq<char>>, map: Json)
    ensures
        forall|i: int, o: int|
            0 <= i < devs.len() && 0 <= o < field(map, "os_main_json_value"@)->Array_0.len()
                && string_array_at(#[trigger] field(map, "os_main_json_value"@)->Array_0[o], "device_map"@).contains(
                string_at(field(map, #[trigger] devs[i]), "key"@),
            ) ==> group_info_after(devs, map).fw_keys.contains(
                string_at(field(map, "os_main_json_value"@)->Array_0[o], "key"@),
            ),
    decreases devs.len(),
{
    if devs.len() > 0 {
        let rest = devs.drop_last();
        let n = devs.len() - 1;
        let list = field(map, "os_main_json_value"@)->Array_0;
        law_group_firmwares(rest, map);
        let prev = group_info_after(rest, map);
        let d = field(map, devs[n]);
        assert(devs.last() == devs[n]);
        crate::adbweb_device::law_firmwares_of_device(
            prev.firmwares,
            prev.fw_keys,
            list,
            string_at(d, "key"@),
        );
        let r = group_info_after(devs, map);
        assert forall|i: int, o: int|
            0 <= i < devs.len() && 0 <= o < list.len()
                && string_array_at(#[trigger] list[o], "device_map"@).contains(
                string_at(field(map, #[trigger] devs[i]), "key"@),
            ) implies r.fw_keys.contains(string_at(list[o], "key"@)) by {
            if i < n {
                assert(rest[i] == devs[i]);
                assert(prev.fw_keys.contains(string_at(list[o], "key"@)));
                let w = choose|w: int| 0 <= w < prev.fw_keys.len() && prev.fw_keys[w] == string_at(list[o], "key"@);
                assert(r.fw_keys[w] == prev.fw_keys[w]);
            }
        }
    }
}

/// What a group's listing gathers from its devices: each of its identifier, model, board,
/// release, SoC and architecture lists holds a text exactly where some device of the group
/// lists it under that name in the device list, and holds it once.
pub proof fn law_group_info(g: GroupModel, map: Json)
    ensures
        forall|t: Seq<char>| web_group_of(g, map).identifier.contains(t) <==> exists|i: int|
            0 <= i < g.devices.len() && string_array_at(field(map, #[trigger] g.devices[i]), "identifier"@).contains(t),
        forall|t: Seq<char>| web_group_of(g, map).model.contains(t) <==> exists|i: int|
            0 <= i < g.devices.len() && string_array_at(field(map, #[trigger] g.devices[i]), "model"@).contains(t),
        forall|t: Seq<char>| web_group_of(g, map).board.contains(t) <==> exists|i: int|
            0 <= i < g.devices.len() && string_array_at(field(map, #[trigger] g.devices[i]), "board"@).contains(t),
        forall|t: Seq<char>| web_group_of(g, map).released.contains(t) <==> exists|i: int|
            0 <= i < g.devices.len() && string_array_at(field(map, #[trigger] g.devices[i]), "released"@).contains(t),
        forall|t: Seq<char>| web_group_of(g, map).soc.contains(t) <==> exists|i: int|
            0 <= i < g.devices.len() && string_array_at(field(map, #[trigger] g.devices[i]), "soc"@).contains(t),
        forall|t: Seq<char>| web_group_of(g, map).arch.contains(t) <==> exists|i: int|
            0 <= i < g.devices.len() && string_array_at(field(map, #[trigger] g.devices[i]), "arch"@).contains(t),
        web_group_of(g, map).identifier.no_duplicates(),
        web_group_of(g, map).model.no_duplicates(),
        web_group_of(g, map).board.no_duplicates(),
        web_group_of(g, map).released.no_duplicates(),
        web_group_of(g, map).soc.no_duplicates(),
        web_group_of(g, map).arch.no_duplicates(),
{
    lemma_group_info_gathered(g.devices, map);
    lemma_gathered(g.devices, map, "identifier"@);
    lemma_gathered(g.devices, map, "model"@);
    lemma_gathered(g.devices, map, "board"@);
    lemma_gathered(g.devices, map, "released"@);
    lemma_gathered(g.devices, map, "soc"@);
    lemma_gathered(g.devices, map, "arch"@);
}

/// The device list can be read for the device `k`: it holds an object under `k` whose
/// information lists are arrays where present, whose key is a string, and for which the
/// firmware list can be read.
pub open spec fn device_in_list_ok(map: Json, k: Seq<char>) -> bool {
    let d = field(map, k);
    &&& d is Object
    &&& string_array_ok(d, "identifier"@)
    &&& string_array_ok(d, "model"@)
    &&& string_array_ok(d, "board"@)
    &&& string_array_ok(d, "released"@)
    &&& string_array_ok(d, "soc"@)
    &&& string_array_ok(d, "arch"@)
    &&& field(d, "key"@) is Str
    &&& firmware_list_ok(field(map, "os_main_json_value"@), string_at(d, "key"@))
}

/// Every device of the group and of the groups nested in it can be read from the list.
pub open spec fn web_group_ok(g: GroupModel, map: Json) -> bool
    decreases g,
{
    &&& forall|i: int| 0 <= i < g.devices.len() ==> device_in_list_ok(map, #[trigger] g.devices[i])
    &&& forall|i: int| 0 <= i < g.subgroups.len() ==> web_group_ok(#[trigger] g.subgroups[i], map)
}

/// Whether the device list can be read for the device `k`.
pub fn device_in_list_check(map: &JsonValue, k: &String) -> (r: bool)
    ensures
        r == device_in_list_ok(map@, k@),
{
    let d = match find_field(map, k.as_str()) {
        Some(d) => d,
        None => {
            return false;
        },
    };
    if !matches!(d, JsonValue::Object(_)) {
        return false;
    }
    if !string_array_check(d, "identifier") || !string_array_check(d, "model")
        || !string_array_check(d, "board") || !string_array_check(d, "released")
        || !string_array_check(d, "soc") || !string_array_check(d, "arch") {
        return false;
    }
    let key = match find_field(d, "key") {
        Some(JsonValue::String(key)) => key,
        _ => {
            return false;
        },
    };
    match find_field(map, "os_main_json_value") {
        Some(list) => firmware_list_check(list, key),
        None => firmware_list_check(&JsonValue::Null, key),
    }
}

/// Whether every device of the group, and of the groups nested in it, can be read from the
/// device list.
pub fn web_group_check(g: &DeviceGroupEntry, map: &JsonValue) -> (r: bool)
    ensures
        r == web_group_ok(g@, map@),
    decreases g,
{
    let ghost gm = g@;
    let mut i: usize = 0;
    while i < g.devices.len()
        invariant
            gm == g@,
            gm.devices == g.devices.deep_view(),
            i <= gm.devices.len(),
            forall|k: int| 0 <= k < i ==> device_in_list_ok(map@, #[trigger] gm.devices[k]),
        decreases gm.devices.len() - i,
    {
        if !device_in_list_check(map, &g.devices[i]) {
            assert(gm.devices[i as int] == g.devices@[i as int]@);
            return false;
        }
        i = i + 1;
    }
    let mut k: usize = 0;
    while k < g.subgroups.len()
        invariant
            gm == g@,
            gm.subgroups.len() == g.subgroups@.len(),
            forall|x: int| 0 <= x < gm.devices.len() ==> device_in_list_ok(map@, #[trigger] gm.devices[x]),
            k <= gm.subgroups.len(),
            forall|x: int| 0 <= x < k ==> web_group_ok(#[trigger] gm.subgroups[x], map@),
        decreases gm.subgroups.len() - k,
    {
        proof {
            assert(decreases_to!(*g => g.subgroups));
            assert(decreases_to!(g.subgroups => g.subgroups@));
            assert(decreases_to!(g.subgroups@ => g.subgroups@[k as int]));
        }
        assert(gm.subgroups[k as int] == g.subgroups@[k as int]@);
        if !web_group_check(&g.subgroups[k], map) {
            return false;
        }
        k = k + 1;
    }
    true
}

/// The web listing of a group, and of the groups nested in it.
pub open spec fn web_group_of(g: GroupModel, map: Json) -> WebGroupModel
    decreases g,
{
    let info = group_info_after(g.devices, map);
    WebGroupModel {
        name: g.name,
        key: g.key,
        kind: g.kind,
        devices: g.devices,
        hide_children: g.hide_children,
        subgroups: Seq::new(
            g.subgroups.len(),
            |i: int|
                if 0 <= i < g.subgroups.len() {
                    web_group_of(g.subgroups[i], map)
                } else {
                    empty_web_group()
                },
        ),
        identifier: info.identifier,
        model: info.model,
        board: info.board,
        released: info.released,
        soc: info.soc,
        arch: info.arch,
        firmwares: info.firmwares,
    }
}

/// Adds to `internal_vec` each text of the array `field_str` of `device` that it does not yet
/// hold, in order.
pub fn get_device_info_string(device: &JsonValue, internal_vec: Vec<String>, field_str: &str) -> (r:
    Vec<String>)
    requires
        string_array_ok(device@, field_str@),
    ensures
        r.deep_view() == add_new(internal_vec.deep_view(), string_array_at(device@, field_str@)),
{
    let string_array = get_string_array(device, field_str);
    let ghost items = string_array.deep_view();
    let ghost acc = internal_vec.deep_view();
    let mut internal_vec = internal_vec;
    let mut i: usize = 0;
    assert(items.take(0) =~= Seq::<Seq<char>>::empty());
    while i < string_array.len()
        invariant
            items == string_array.deep_view(),
            i <= items.len(),
            internal_vec.deep_view() == add_new(acc, items.take(i as int)),
        decreases items.len() - i,
    {
        assert(items.take(i + 1).drop_last() =~= items.take(i as int));
        assert(items.take(i + 1).last() == string_array@[i as int]@);
        if !contains_text(&internal_vec, string_array[i].as_str()) {
            let ghost before = internal_vec@;
            internal_vec.push(string_array[i].clone());
            assert(internal_vec.deep_view() =~= before.map_values(|s: String| s@).push(
                string_array@[i as int]@,
            ));
        }
        i = i + 1;
    }
    assert(items.take(items.len() as int) =~= items);
    internal_vec
}

/// The web listing of a group: the group's own fields, what its devices have in common
/// (identifiers, models, boards, release dates, SoCs and architectures, each without
/// repeats, and their firmwares without two of the same key), read from the device list
/// `device_main_map_value`, and the web listing of each group nested in it.
pub fn convert_device_group_entry_to_device_group_adb_web_entry(
    device_group_entry: DeviceGroupEntry,
    device_main_map_value: &JsonValue,
) -> (r: DeviceGroupADBWebEntry)
    requires
        web_group_ok(device_group_entry@, device_main_map_value@),
    ensures
        r@ == web_group_of(device_group_entry@, device_main_map_value@),
    decreases device_group_entry,
{
    let ghost g0 = device_group_entry;
    let ghost gm = device_group_entry@;
    let ghost map = device_main_map_value@;
    let mut identifier: Vec<String> = Vec::new();
    let mut model: Vec<String> = Vec::new();
    let mut board: Vec<String> = Vec::new();
    let mut released: Vec<String> = Vec::new();
    let mut soc: Vec<String> = Vec::new();
    let mut arch: Vec<String> = Vec::new();
    let mut firmwares: Vec<DeviceADBWebEntryOsEntry> = Vec::new();
    let mut fw_key_vec: Vec<String> = Vec::new();
    let ghost devs = device_group_entry.devices.deep_view();
    assert(devs == gm.devices);
    let mut i: usize = 0;
    proof {
        assert(devs.take(0) =~= Seq::<Seq<char>>::empty());
        let info = group_info_after(devs.take(0), map);
        assert(identifier.deep_view() =~= info.identifier);
        assert(model.deep_view() =~= info.model);
        assert(board.deep_view() =~= info.board);
        assert(released.deep_view() =~= info.released);
        assert(soc.deep_view() =~= info.soc);
        assert(arch.deep_view() =~= info.arch);
        assert(firmwares@.map_values(|f: DeviceADBWebEntryOsEntry| f@) =~= info.firmwares);
        assert(fw_key_vec.deep_view() =~= info.fw_keys);
    }
    while i < device_group_entry.devices.len()
        invariant
            devs == device_group_entry.devices.deep_view(),
            devs == gm.devices,
            gm == device_group_entry@,
            map == device_main_map_value@,
            web_group_ok(gm, map),
            i <= devs.len(),
            identifier.deep_view() == group_info_after(devs.take(i as int), map).identifier,
            model.deep_view() == group_info_after(devs.take(i as int), map).model,
            board.deep_view() == group_info_after(devs.take(i as int), map).board,
            released.deep_view() == group_info_after(devs.take(i as int), map).released,
            soc.deep_view() == group_info_after(devs.take(i as int), map).soc,
            arch.deep_view() == group_info_after(devs.take(i as int), map).arch,
            firmwares@.map_values(|f: DeviceADBWebEntryOsEntry| f@) == group_info_after(
                devs.take(i as int),
                map,
            ).firmwares,
            fw_key_vec.deep_view() == group_info_after(devs.take(i as int), map).fw_keys,
        decreases devs.len() - i,
    {
        let device_key = &device_group_entry.devices[i];
        assert(device_key@ == devs[i as int]);
        assert(devs.take(i + 1).drop_last() =~= devs.take(i as int));
        assert(devs.take(i + 1).last() == devs[i as int]);
        assert(device_in_list_ok(map, devs[i as int]));
        match find_field(device_main_map_value, device_key.as_str()) {
            Some(device) => {
                identifier = get_device_info_string(device, identifier, "identifier");
                model = get_device_info_string(device, model, "model");
                released = get_device_info_string(device, released, "released");
                board = get_device_info_string(device, board, "board");
                soc = get_device_info_string(device, soc, "soc");
                arch = get_device_info_string(device, arch, "arch");
                let device_key_text = get_string(device, "key");
                let os_list = match find_field(device_main_map_value, "os_main_json_value") {
                    Some(l) => l,
                    None => device_main_map_value,
                };
                let pair = get_firmwares_vec(device_key_text, os_list, firmwares, fw_key_vec);
                firmwares = pair.0;
                fw_key_vec = pair.1;
            },
            None => {},
        }
        i = i + 1;
    }
    assert(devs.take(devs.len() as int) =~= devs);
    let DeviceGroupEntry { name, key, kind, devices, hide_children, subgroups } = device_group_entry;
    let ghost subs = subgroups@;
    let mut subgroups = subgroups;
    let mut converted: Vec<DeviceGroupADBWebEntry> = Vec::new();
    let n = subgroups.len();
    let mut k: usize = 0;
    assert(subs.skip(0) =~= subs);
    #[verifier::loop_isolation(false)]
    while k < n
        invariant
            n == subs.len(),
            subs == g0.subgroups@,
            gm == g0@,
            map == device_main_map_value@,
            web_group_ok(gm, map),
            k <= n,
            subgroups@ == subs.skip(k as int),
            converted@.len() == k,
            forall|j: int| 0 <= j < k ==> (#[trigger] converted@[j])@ == web_group_of(subs[j]@, map),
        decreases n - k,
    {
        let sg = subgroups.remove(0);
        assert(subgroups@ =~= subs.skip(k + 1));
        proof {
            assert(gm.subgroups[k as int] == subs[k as int]@);
            assert(web_group_ok(gm.subgroups[k as int], map));
            assert(decreases_to!(g0 => g0.subgroups)) ;
            assert(decreases_to!(g0.subgroups => g0.subgroups@));
            assert(decreases_to!(g0.subgroups@ => g0.subgroups@[k as int]));
            assert(sg == g0.subgroups@[k as int]);
            assert(decreases_to!(g0 => sg));
        }
        converted.push(convert_device_group_entry_to_device_group_adb_web_entry(sg, device_main_map_value));
        k = k + 1;
    }
    let r = DeviceGroupADBWebEntry {
        name,
        key,
        kind,
        devices,
        hide_children,
        subgroups: converted,
        identifier,
        model,
        board,
        released,
        soc,
        arch,
        firmwares,
    };
    proof {
        let target = web_group_of(gm, map);
        assert(r@.subgroups =~= target.subgroups);
    }
    r
}

} // verus!
