use vstd::prelude::*;
use crate::adb_web::{
    web_device, web_device_of, web_devices_ok, web_source_of, web_sources, OsADBWebEntryDevice,
    OsADBWebEntrySource, WebDeviceModel, WebSourceModel,
};
use crate::device_group::{device_group_check, device_group_ok, group_of, GroupModel};
use crate::device_group_entry::{create_device_group_entry_from_json, DeviceGroupEntry};
use crate::json::{contains_text, lemma_array_model, model, models, Json, JsonValue};
use crate::os::{AppleDbModel, FirmwareModel, OsEntry, OsEntryAppleDB};
use crate::os_file::{OsEntrySource, SourceModel};

verus! {

/// A firmware entry as the web listing shows it, with its devices gathered into groups.
pub struct OsADBWebEntry {
    pub os_str: String,
    pub version: String,
    pub build: String,
    pub key: String,
    pub released: String,
    pub rc: bool,
    pub beta: bool,
    pub rsr: bool,
    pub internal: bool,
    pub preinstalled: Vec<String>,
    pub appledb_web: OsEntryAppleDB,
    pub device_map: Vec<OsADBWebEntryDevice>,
    pub device_group_map: Vec<DeviceGroupEntry>,
    pub sources: Vec<OsADBWebEntrySource>,
}

pub struct GroupedFirmwareModel {
    pub os_str: Seq<char>,
    pub version: Seq<char>,
    pub build: Seq<char>,
    pub key: Seq<char>,
    pub released: Seq<char>,
    pub rc: bool,
    pub beta: bool,
    pub rsr: bool,
    pub internal: bool,
    pub preinstalled: Seq<Seq<char>>,
    pub appledb_web: AppleDbModel,
    pub device_map: Seq<WebDeviceModel>,
    pub device_group_map: Seq<GroupModel>,
    pub sources: Seq<WebSourceModel>,
}

impl View for OsADBWebEntry {
    type V = GroupedFirmwareModel;

    open spec fn view(&self) -> GroupedFirmwareModel {
        GroupedFirmwareModel {
            os_str: self.os_str@,
            version: self.version@,
            build: self.build@,
            key: self.key@,
            released: self.released@,
            rc: self.rc,
            beta: self.beta,
            rsr: self.rsr,
            internal: self.internal,
            preinstalled: self.preinstalled.deep_view(),
            appledb_web: self.appledb_web@,
            device_map: self.device_map@.map_values(|d: OsADBWebEntryDevice| d@),
            device_group_map: self.device_group_map@.map_values(|g: DeviceGroupEntry| g@),
            sources: self.sources@.map_values(|s: OsADBWebEntrySource| s@),
        }
    }
}

/// The position of the first group that lists the device `k`, if any.
pub open spec fn first_group_with(groups: Seq<GroupModel>, k: Seq<char>) -> Option<int>
    decreases groups.len(),
{
    if groups.len() == 0 {
        None
    } else {
        match first_group_with(groups.drop_last(), k) {
            Some(i) => Some(i),
            None => if groups.last().devices.contains(k) {
                Some(groups.len() - 1)
            } else {
                None
            },
        }
    }
}

proof fn lemma_first_group_facts(groups: Seq<GroupModel>, k: Seq<char>)
    ensures
        first_group_with(groups, k) matches Some(w) ==> {
            &&& 0 <= w < groups.len()
            &&& groups[w].devices.contains(k)
            &&& forall|j: int| 0 <= j < w ==> !(#[trigger] groups[j]).devices.contains(k)
        },
        first_group_with(groups, k) is None ==> forall|j: int|
            0 <= j < groups.len() ==> !(#[trigger] groups[j]).devices.contains(k),
    decreases groups.len(),
{
    if groups.len() > 0 {
        let rest = groups.drop_last();
        let n: int = rest.len() as int;
        lemma_first_group_facts(rest, k);
        if let Some(w) = first_group_with(rest, k) {
            assert(rest[w] == groups[w]);
            assert forall|j: int| 0 <= j < w implies !(#[trigger] groups[j]).devices.contains(k) by {
                assert(rest[j] == groups[j]);
            }
        } else {
            assert forall|j: int| 0 <= j < n implies !(#[trigger] groups[j]).devices.contains(k) by {
                assert(rest[j] == groups[j]);
            }
            assert(groups.last() == groups[n]);
        }
    }
}

/// The group found for a device is the first group whose device list holds the device's key,
/// wherever in that list it stands; none is found only where no group holds it.
pub proof fn law_first_group_with(groups: Seq<GroupModel>, k: Seq<char>)
    ensures
        forall|i: int|
            first_group_with(groups, k) == Some(i) <==> (0 <= i < groups.len()
                && (#[trigger] groups[i]).devices.contains(k) && forall|j: int|
                0 <= j < i ==> !groups[j].devices.contains(k)),
        first_group_with(groups, k) is None <==> forall|j: int|
            0 <= j < groups.len() ==> !(#[trigger] groups[j]).devices.contains(k),
{
    lemma_first_group_facts(groups, k);
    assert forall|i: int|
        first_group_with(groups, k) == Some(i) <==> (0 <= i < groups.len()
            && (#[trigger] groups[i]).devices.contains(k) && forall|j: int|
            0 <= j < i ==> !groups[j].devices.contains(k)) by {
        if 0 <= i < groups.len() && groups[i].devices.contains(k) && forall|j: int|
            0 <= j < i ==> !groups[j].devices.contains(k) {
            if let Some(w) = first_group_with(groups, k) {
                if w < i {
                    assert(!groups[w].devices.contains(k));
                } else if w > i {
                    assert(!groups[i].devices.contains(k));
                }
            }
        }
    }
}

/// The texts of `items` that `allowed` holds, in order.
pub open spec fn keep_listed(items: Seq<Seq<char>>, allowed: Seq<Seq<char>>) -> Seq<Seq<char>>
    decreases items.len(),
{
    if items.len() == 0 {
        Seq::empty()
    } else if allowed.contains(items.last()) {
        keep_listed(items.drop_last(), allowed).push(items.last())
    } else {
        keep_listed(items.drop_last(), allowed)
    }
}

/// The group of a device, kept to the firmware's devices: the first group that lists the
/// device, or where none does (or it lists no device) a group of the device alone.
pub open spec fn group_for(
    groups: Seq<GroupModel>,
    d: WebDeviceModel,
    os_devices: Seq<Seq<char>>,
) -> GroupModel {
    let found = match first_group_with(groups, d.key) {
        Some(i) => groups[i],
        None => crate::device_group::empty_group(),
    };
    let base = if found.devices.len() == 0 {
        GroupModel {
            name: d.name,
            key: d.key,
            kind: Seq::empty(),
            devices: seq![d.key],
            hide_children: false,
            subgroups: Seq::empty(),
        }
    } else {
        found
    };
    GroupModel { devices: keep_listed(base.devices, os_devices), ..base }
}

/// The groups of the devices and the devices they cover, after the devices are seen in turn:
/// a device not yet covered adds its group, and the group's devices become covered.
pub open spec fn device_groups_after(
    groups: Seq<GroupModel>,
    devs: Seq<WebDeviceModel>,
    os_devices: Seq<Seq<char>>,
) -> (Seq<GroupModel>, Seq<Seq<char>>)
    decreases devs.len(),
{
    if devs.len() == 0 {
        (Seq::empty(), Seq::empty())
    } else {
        let prev = device_groups_after(groups, devs.drop_last(), os_devices);
        let d = devs.last();
        if prev.1.contains(d.key) {
            prev
        } else {
            let g = group_for(groups, d, os_devices);
            (prev.0.push(g), prev.1 + g.devices)
        }
    }
}

/// A device's group is the first group that holds its key, with that group's name, key,
/// type and subgroups; where no group holds the key, it is a group of the device alone, named
/// after the device. Either way its devices are kept to the firmware's devices.
pub proof fn law_group_for(groups: Seq<GroupModel>, d: WebDeviceModel, os_devices: Seq<Seq<char>>)
    ensures
        forall|i: int|
            0 <= i < groups.len() && (#[trigger] groups[i]).devices.contains(d.key) && (forall|j: int|
                0 <= j < i ==> !groups[j].devices.contains(d.key)) ==> {
                &&& group_for(groups, d, os_devices).name == groups[i].name
                &&& group_for(groups, d, os_devices).key == groups[i].key
                &&& group_for(groups, d, os_devices).kind == groups[i].kind
                &&& group_for(groups, d, os_devices).subgroups == groups[i].subgroups
                &&& group_for(groups, d, os_devices).devices == keep_listed(groups[i].devices, os_devices)
            },
        (forall|j: int| 0 <= j < groups.len() ==> !(#[trigger] groups[j]).devices.contains(d.key)) ==> {
            &&& group_for(groups, d, os_devices).name == d.name
            &&& group_for(groups, d, os_devices).key == d.key
            &&& group_for(groups, d, os_devices).kind == Seq::<char>::empty()
            &&& group_for(groups, d, os_devices).devices == keep_listed(seq![d.key], os_devices)
        },
{
    law_first_group_with(groups, d.key);
    assert forall|i: int|
        0 <= i < groups.len() && (#[trigger] groups[i]).devices.contains(d.key) && (forall|j: int|
            0 <= j < i ==> !groups[j].devices.contains(d.key)) implies {
            &&& group_for(groups, d, os_devices).name == groups[i].name
            &&& group_for(groups, d, os_devices).key == groups[i].key
            &&& group_for(groups, d, os_devices).kind == groups[i].kind
            &&& group_for(groups, d, os_devices).subgroups == groups[i].subgroups
            &&& group_for(groups, d, os_devices).devices == keep_listed(groups[i].devices, os_devices)
        } by {
        assert(first_group_with(groups, d.key) == Some(i));
        assert(groups[i].devices.len() > 0);
    }
    if forall|j: int| 0 <= j < groups.len() ==> !(#[trigger] groups[j]).devices.contains(d.key) {
        assert(first_group_with(groups, d.key) is None);
    }
}

/// Keeping the texts that `allowed` holds: every text kept is in both lists, and every text
/// of `items` that `allowed` holds is kept, in the order of `items`.
pub proof fn law_keep_listed(items: Seq<Seq<char>>, allowed: Seq<Seq<char>>)
    ensures
        forall|t: Seq<char>| keep_listed(items, allowed).contains(t) <==> (items.contains(t)
            && allowed.contains(t)),
        keep_listed(items, allowed).len() <= items.len(),
    decreases items.len(),
{
    lemma_keep_listed_within(items, allowed);
    if items.len() > 0 {
        let rest = items.drop_last();
        law_keep_listed(rest, allowed);
        let r = keep_listed(items, allowed);
        let prev = keep_listed(rest, allowed);
        assert forall|t: Seq<char>| items.contains(t) && allowed.contains(t) implies r.contains(t) by {
            let w = choose|w: int| 0 <= w < items.len() && items[w] == t;
            if w < items.len() - 1 {
                assert(rest[w] == t);
                assert(prev.contains(t));
                let v = choose|v: int| 0 <= v < prev.len() && prev[v] == t;
                if allowed.contains(items.last()) {
                    assert(r[v] == t);
                }
            } else {
                assert(r[r.len() - 1] == t);
            }
        }
    }
}

proof fn lemma_keep_listed_within(items: Seq<Seq<char>>, allowed: Seq<Seq<char>>)
    ensures
        forall|t: Seq<char>| keep_listed(items, allowed).contains(t) ==> allowed.contains(t) && items.contains(t),
    decreases items.len(),
{
    if items.len() > 0 {
        let rest = items.drop_last();
        lemma_keep_listed_within(rest, allowed);
        assert forall|t: Seq<char>| keep_listed(items, allowed).contains(t) implies allowed.contains(t) && items.contains(t) by {
            if keep_listed(rest, allowed).contains(t) {
                assert(rest.contains(t));
                let w = choose|w: int| 0 <= w < rest.len() && rest[w] == t;
                assert(items[w] == t);
            } else {
                assert(t == items.last());
                assert(items[items.len() - 1] == t);
            }
        }
    }
}

/// The groups of a firmware list only the firmware's own devices, and every device that the
/// groups list counts as covered.
pub proof fn law_groups_within_firmware(
    groups: Seq<GroupModel>,
    devs: Seq<WebDeviceModel>,
    os_devices: Seq<Seq<char>>,
)
    ensures
        forall|i: int, t: Seq<char>|
            0 <= i < device_groups_after(groups, devs, os_devices).0.len()
                && #[trigger] device_groups_after(groups, devs, os_devices).0[i].devices.contains(t)
                ==> os_devices.contains(t) && device_groups_after(groups, devs, os_devices).1.contains(t),
    decreases devs.len(),
{
    if devs.len() > 0 {
        let rest = devs.drop_last();
        law_groups_within_firmware(groups, rest, os_devices);
        let prev = device_groups_after(groups, rest, os_devices);
        let d = devs.last();
        if !prev.1.contains(d.key) {
            let g = group_for(groups, d, os_devices);
            let found = match first_group_with(groups, d.key) {
                Some(i) => groups[i],
                None => crate::device_group::empty_group(),
            };
            let base = if found.devices.len() == 0 {
                GroupModel {
                    name: d.name,
                    key: d.key,
                    kind: Seq::empty(),
                    devices: seq![d.key],
                    hide_children: false,
                    subgroups: Seq::empty(),
                }
            } else {
                found
            };
            lemma_keep_listed_within(base.devices, os_devices);
            let cur = device_groups_after(groups, devs, os_devices);
            assert(cur == (prev.0.push(g), prev.1 + g.devices));
            assert forall|i: int, t: Seq<char>|
                0 <= i < cur.0.len() && #[trigger] cur.0[i].devices.contains(t)
                implies os_devices.contains(t) && cur.1.contains(t) by {
                if i < prev.0.len() {
                    assert(cur.0[i] == prev.0[i]);
                    let w = choose|w: int| 0 <= w < prev.1.len() && prev.1[w] == t;
                    assert(cur.1[w] == t);
                } else {
                    assert(cur.0[i] == g);
                    let w = choose|w: int| 0 <= w < g.devices.len() && g.devices[w] == t;
                    assert(cur.1[prev.1.len() + w] == t);
                }
            }
        }
    }
}

proof fn lemma_group_for_holds_device(groups: Seq<GroupModel>, d: WebDeviceModel, os_devices: Seq<Seq<char>>)
    requires
        os_devices.contains(d.key),
    ensures
        group_for(groups, d, os_devices).devices.contains(d.key),
{
    lemma_first_group_facts(groups, d.key);
    let found = match first_group_with(groups, d.key) {
        Some(i) => groups[i],
        None => crate::device_group::empty_group(),
    };
    let base = if found.devices.len() == 0 {
        GroupModel {
            name: d.name,
            key: d.key,
            kind: Seq::empty(),
            devices: seq![d.key],
            hide_children: false,
            subgroups: Seq::empty(),
        }
    } else {
        found
    };
    if found.devices.len() == 0 {
        assert(base.devices[0] == d.key);
    }
    assert(base.devices.contains(d.key));
    law_keep_listed(base.devices, os_devices);
}

/// Every device of the firmware is covered: after the devices are seen, the key of each
/// device that the firmware's device map holds is among the covered devices, and what was
/// covered stays covered.
pub proof fn law_every_device_covered(
    groups: Seq<GroupModel>,
    devs: Seq<WebDeviceModel>,
    os_devices: Seq<Seq<char>>,
)
    ensures
        forall|i: int|
            0 <= i < devs.len() && os_devices.contains(#[trigger] devs[i].key)
                ==> device_groups_after(groups, devs, os_devices).1.contains(devs[i].key),
    decreases devs.len(),
{
    if devs.len() > 0 {
        let rest = devs.drop_last();
        let n = devs.len() - 1;
        law_every_device_covered(groups, rest, os_devices);
        let prev = device_groups_after(groups, rest, os_devices);
        let r = device_groups_after(groups, devs, os_devices);
        let d = devs[n];
        assert(devs.last() == d);
        if !prev.1.contains(d.key) {
            let g = group_for(groups, d, os_devices);
            assert(r.1 == prev.1 + g.devices);
        }
        assert forall|i: int|
            0 <= i < devs.len() && os_devices.contains(#[trigger] devs[i].key) implies r.1.contains(devs[i].key) by {
            if i < n {
                assert(rest[i] == devs[i]);
                assert(prev.1.contains(devs[i].key));
                if !prev.1.contains(d.key) {
                    let w = choose|w: int| 0 <= w < prev.1.len() && prev.1[w] == devs[i].key;
                    assert(r.1[w] == devs[i].key);
                }
            } else if !prev.1.contains(d.key) {
                let g = group_for(groups, d, os_devices);
                lemma_group_for_holds_device(groups, d, os_devices);
                let w = choose|w: int| 0 <= w < g.devices.len() && g.devices[w] == d.key;
                assert(r.1[prev.1.len() + w] == d.key);
            }
        }
    }
}

/// The group list can be read: it is an array of readable group documents.
pub open spec fn group_list_ok(list: Json) -> bool {
    &&& list is Array
    &&& forall|i: int| 0 <= i < list->Array_0.len() ==> device_group_ok(#[trigger] list->Array_0[i])
}

/// Whether the group list can be read: it is an array of readable group documents.
#[verifier::loop_isolation(false)]
pub fn group_list_check(list: &JsonValue) -> (r: bool)
    ensures
        r == group_list_ok(list@),
{
    match list {
        JsonValue::Array(items) => {
            let ghost m = list@->Array_0;
            let mut i: usize = 0;
            while i < items.len()
                invariant
                    i <= m.len(),
                    forall|k: int| 0 <= k < i ==> device_group_ok(#[trigger] m[k]),
                decreases m.len() - i,
            {
                proof {
                    lemma_array_model(*items, i as int);
                }
                if !device_group_check(&items[i]) {
                    return false;
                }
                i = i + 1;
            }
            true
        },
        _ => false,
    }
}

/// The web listing of a firmware entry with its device groups: `devices` are the documents of
/// its devices, `groups` the group list.
pub open spec fn grouped_firmware_of(e: FirmwareModel, devices: Seq<Json>, groups: Json) -> GroupedFirmwareModel {
    let devs = devices.map_values(|d: Json| web_device_of(d));
    GroupedFirmwareModel {
        os_str: e.os_str,
        version: e.version,
        build: e.build,
        key: e.key,
        released: e.released,
        rc: e.rc,
        beta: e.beta,
        rsr: e.rsr,
        internal: e.internal,
        preinstalled: e.preinstalled,
        appledb_web: e.appledb,
        device_map: devs,
        device_group_map: device_groups_after(
            groups->Array_0.map_values(|g: Json| group_of(g)),
            devs,
            e.device_map,
        ).0,
        sources: e.sources.map_values(|s: SourceModel| web_source_of(s)),
    }
}

/// The grouped web listing holds one device per device document, in order, with that
/// document's `name`, `key` and `released` texts, and one web source per source; its groups
/// are gathered from the group list's documents, one group per item.
pub proof fn law_grouped_listing(e: FirmwareModel, devices: Seq<Json>, groups: Json)
    ensures
        grouped_firmware_of(e, devices, groups).device_map.len() == devices.len(),
        forall|i: int|
            0 <= i < devices.len() ==> {
                &&& grouped_firmware_of(e, devices, groups).device_map[i].name == crate::json::string_at(
                    #[trigger] devices[i],
                    "name"@,
                )
                &&& grouped_firmware_of(e, devices, groups).device_map[i].key == crate::json::string_at(
                    devices[i],
                    "key"@,
                )
            },
        grouped_firmware_of(e, devices, groups).sources.len() == e.sources.len(),
        grouped_firmware_of(e, devices, groups).key == e.key,
        grouped_firmware_of(e, devices, groups).device_group_map == device_groups_after(
            groups->Array_0.map_values(|g: Json| group_of(g)),
            devices.map_values(|d: Json| web_device_of(d)),
            e.device_map,
        ).0,
{
}

fn first_group_index(groups: &Vec<DeviceGroupEntry>, k: &String) -> (r: Option<usize>)
    ensures
        match r {
            Some(i) => i < groups@.len() && first_group_with(groups@.map_values(|g: DeviceGroupEntry| g@), k@) == Some(i as int),
            None => first_group_with(groups@.map_values(|g: DeviceGroupEntry| g@), k@) is None,
        },
{
    let ghost gs = groups@.map_values(|g: DeviceGroupEntry| g@);
    let mut i: usize = 0;
    assert(gs.take(0) =~= Seq::<GroupModel>::empty());
    while i < groups.len()
        invariant
            gs == groups@.map_values(|g: DeviceGroupEntry| g@),
            i <= gs.len(),
            first_group_with(gs.take(i as int), k@) is None,
        decreases gs.len() - i,
    {
        assert(gs.take(i + 1).drop_last() =~= gs.take(i as int));
        if contains_text(&groups[i].devices, k.as_str()) {
            proof {
                assert(first_group_with(gs.take(i + 1), k@) == Some(i as int));
                lemma_first_group_prefix(gs, k@, i + 1, gs.len() as int);
                assert(gs.take(gs.len() as int) =~= gs);
            }
            return Some(i);
        }
        i = i + 1;
    }
    assert(gs.take(gs.len() as int) =~= gs);
    None
}

proof fn lemma_first_group_prefix(gs: Seq<GroupModel>, k: Seq<char>, n: int, m: int)
    requires
        0 <= n <= m <= gs.len(),
        first_group_with(gs.take(n), k) is Some,
    ensures
        first_group_with(gs.take(m), k) == first_group_with(gs.take(n), k),
    decreases m - n,
{
    if m > n {
        lemma_first_group_prefix(gs, k, n, m - 1);
        assert(gs.take(m).drop_last() =~= gs.take(m - 1));
    }
}

fn group_for_device(
    groups: &Vec<DeviceGroupEntry>,
    device: &OsADBWebEntryDevice,
    os_devices: &Vec<String>,
) -> (r: DeviceGroupEntry)
    ensures
        r@ == group_for(groups@.map_values(|g: DeviceGroupEntry| g@), device@, os_devices.deep_view()),
{
    let ghost gs = groups@.map_values(|g: DeviceGroupEntry| g@);
    let mut group = match first_group_index(groups, &device.key) {
        Some(i) => groups[i].clone_group(),
        None => DeviceGroupEntry {
            name: String::new(),
            key: String::new(),
            kind: String::new(),
            devices: Vec::new(),
            hide_children: false,
            subgroups: Vec::new(),
        },
    };
    proof {
        let e = crate::device_group::empty_group();
        assert(group@.devices.len() == group.devices@.len());
        if first_group_with(gs, device.key@) is None {
            assert(group@.devices =~= e.devices);
            assert(group@.subgroups =~= e.subgroups);
        }
    }
    if group.devices.len() == 0 {
        let mut only: Vec<String> = Vec::new();
        only.push(device.key.clone());
        group = DeviceGroupEntry {
            name: device.name.clone(),
            key: device.key.clone(),
            kind: String::new(),
            devices: only,
            hide_children: false,
            subgroups: Vec::new(),
        };
        assert(group@.devices =~= seq![device.key@]);
        assert(group@.subgroups =~= Seq::<GroupModel>::empty());
    }
    let ghost items = group.devices.deep_view();
    let ghost allowed = os_devices.deep_view();
    let mut kept: Vec<String> = Vec::new();
    let mut i: usize = 0;
    assert(items.take(0) =~= Seq::<Seq<char>>::empty());
    assert(kept.deep_view() =~= Seq::<Seq<char>>::empty());
    while i < group.devices.len()
        invariant
            items == group.devices.deep_view(),
            allowed == os_devices.deep_view(),
            i <= items.len(),
            kept.deep_view() == keep_listed(items.take(i as int), allowed),
        decreases items.len() - i,
    {
        assert(items.take(i + 1).drop_last() =~= items.take(i as int));
        assert(items.take(i + 1).last() == group.devices@[i as int]@);
        if contains_text(os_devices, group.devices[i].as_str()) {
            let ghost before = kept@;
            kept.push(group.devices[i].clone());
            assert(kept.deep_view() =~= before.map_values(|s: String| s@).push(
                group.devices@[i as int]@,
            ));
        }
        i = i + 1;
    }
    assert(items.take(items.len() as int) =~= items);
    let ghost before = group@;
    group.devices = kept;
    assert(group@.subgroups =~= before.subgroups);
    group
}

/// The web listing of a firmware entry with its device groups. `device_json_vec` holds the
/// document of each device of the entry's device map, in the same order; each device not yet
/// covered adds its group from `device_group_main_json_value` (the first that lists it, else a
/// group of the device alone), kept to the entry's devices, which it then covers.
pub fn convert_os_entry_to_os_adb_web_entry(
    os_entry: OsEntry,
    device_json_vec: &Vec<JsonValue>,
    device_group_main_json_value: &JsonValue,
) -> (r: OsADBWebEntry)
    requires
        device_json_vec@.len() == os_entry.device_map@.len(),
        web_devices_ok(models(device_json_vec@)),
        group_list_ok(device_group_main_json_value@),
    ensures
        r@ == grouped_firmware_of(os_entry@, models(device_json_vec@), device_group_main_json_value@),
{
    let ghost e = os_entry@;
    let mut device_map: Vec<OsADBWebEntryDevice> = Vec::new();
    let mut i: usize = 0;
    while i < device_json_vec.len()
        invariant
            web_devices_ok(models(device_json_vec@)),
            i <= device_json_vec@.len(),
            device_map@.len() == i,
            forall|j: int| 0 <= j < i ==> (#[trigger] device_map@[j])@ == web_device_of(device_json_vec@[j]@),
        decreases device_json_vec@.len() - i,
    {
        assert(models(device_json_vec@)[i as int] == device_json_vec@[i as int]@);
        device_map.push(web_device(&device_json_vec[i]));
        i = i + 1;
    }
    let ghost devs = models(device_json_vec@).map_values(|d: Json| web_device_of(d));
    assert(device_map@.map_values(|d: OsADBWebEntryDevice| d@) =~= devs);
    let mut group_entry_vec: Vec<DeviceGroupEntry> = Vec::new();
    let ghost gl = device_group_main_json_value@->Array_0;
    if let JsonValue::Array(group_value_vec) = device_group_main_json_value {
        let mut k: usize = 0;
        while k < group_value_vec.len()
            invariant
                gl == model(JsonValue::Array(*group_value_vec))->Array_0,
                gl.len() == group_value_vec@.len(),
                forall|x: int| 0 <= x < gl.len() ==> device_group_ok(#[trigger] gl[x]),
                k <= gl.len(),
                group_entry_vec@.len() == k,
                forall|j: int| 0 <= j < k ==> (#[trigger] group_entry_vec@[j])@ == group_of(gl[j]),
            decreases gl.len() - k,
        {
            proof {
                lemma_array_model(*group_value_vec, k as int);
            }
            group_entry_vec.push(create_device_group_entry_from_json(&group_value_vec[k]));
            k = k + 1;
        }
    }
    let ghost gs = gl.map_values(|g: Json| group_of(g));
    assert(group_entry_vec@.map_values(|g: DeviceGroupEntry| g@) =~= gs);
    let ghost os_devices = os_entry.device_map.deep_view();
    let mut device_group_map: Vec<DeviceGroupEntry> = Vec::new();
    let mut processed_devices_vec: Vec<String> = Vec::new();
    let mut d: usize = 0;
    assert(devs.take(0) =~= Seq::<WebDeviceModel>::empty());
    assert(device_group_map@.map_values(|g: DeviceGroupEntry| g@) =~= Seq::<GroupModel>::empty());
    assert(processed_devices_vec.deep_view() =~= Seq::<Seq<char>>::empty());
    while d < device_map.len()
        invariant
            devs == device_map@.map_values(|x: OsADBWebEntryDevice| x@),
            gs == group_entry_vec@.map_values(|g: DeviceGroupEntry| g@),
            os_devices == os_entry.device_map.deep_view(),
            d <= devs.len(),
            (device_group_map@.map_values(|g: DeviceGroupEntry| g@), processed_devices_vec.deep_view())
                == device_groups_after(gs, devs.take(d as int), os_devices),
        decreases devs.len() - d,
    {
        assert(devs.take(d + 1).drop_last() =~= devs.take(d as int));
        assert(devs.take(d + 1).last() == device_map@[d as int]@);
        let device = &device_map[d];
        if !contains_text(&processed_devices_vec, device.key.as_str()) {
            let group = group_for_device(&group_entry_vec, device, &os_entry.device_map);
            let ghost pv = processed_devices_vec.deep_view();
            let ghost gd = group.devices.deep_view();
            let ghost gb = device_group_map@;
            let mut j: usize = 0;
            assert(gd.take(0) =~= Seq::<Seq<char>>::empty());
            assert(pv + gd.take(0) =~= pv);
            while j < group.devices.len()
                invariant
                    gd == group.devices.deep_view(),
                    j <= gd.len(),
                    processed_devices_vec.deep_view() == pv + gd.take(j as int),
                decreases gd.len() - j,
            {
                let ghost before = processed_devices_vec.deep_view();
                processed_devices_vec.push(group.devices[j].clone());
                assert(processed_devices_vec.deep_view() =~= before.push(gd[j as int]));
                assert(gd.take(j + 1) =~= gd.take(j as int).push(gd[j as int]));
                assert((pv + gd.take(j as int)).push(gd[j as int]) =~= pv + gd.take(j + 1));
                j = j + 1;
            }
            assert(group.devices.deep_view().take(group.devices@.len() as int) =~= group.devices.deep_view());
            device_group_map.push(group);
            assert(device_group_map@.map_values(|g: DeviceGroupEntry| g@) =~= gb.map_values(
                |g: DeviceGroupEntry| g@,
            ).push(device_group_map@.last()@));
        }
        d = d + 1;
    }
    assert(devs.take(devs.len() as int) =~= devs);
    let sources = web_sources(os_entry.sources);
    proof {
        assert(e.sources =~= os_entry.sources@.map_values(|s: OsEntrySource| s@));
        assert(sources@.map_values(|s: OsADBWebEntrySource| s@) =~= e.sources.map_values(
            |s: SourceModel| web_source_of(s),
        ));
    }
    OsADBWebEntry {
        os_str: os_entry.os_str,
        version: os_entry.version,
        build: os_entry.build,
        key: os_entry.key,
        released: os_entry.released,
        rc: os_entry.rc,
        beta: os_entry.beta,
        rsr: os_entry.rsr,
        internal: os_entry.internal,
        preinstalled: os_entry.preinstalled,
        appledb_web: os_entry.appledb,
        device_map,
        device_group_map,
        sources,
    }
}

} // verus!
