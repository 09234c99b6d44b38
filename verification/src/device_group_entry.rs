use vstd::prelude::*;
use crate::device_group::{device_group_ok, empty_group, group_key_of, group_of, GroupModel};
use crate::json::{
    field, find_field, get_bool, get_string, get_string_array, has_member, lemma_array_model,
    lemma_member_items_decrease, lemma_models_push, model, models, Json, JsonValue,
};
use crate::output::{add_one_text, add_text, add_texts, lemma_add_texts_push, OutputEntry, OutputFormat};

verus! {

/// A group of devices, with groups nested in it.
pub struct DeviceGroupEntry {
    pub name: String,
    pub key: String,
    pub kind: String,
    pub devices: Vec<String>,
    pub hide_children: bool,
    pub subgroups: Vec<DeviceGroupEntry>,
}

pub open spec fn group_entry_model(g: DeviceGroupEntry) -> GroupModel
    decreases g,
{
    GroupModel {
        name: g.name@,
        key: g.key@,
        kind: g.kind@,
        devices: g.devices.deep_view(),
        hide_children: g.hide_children,
        subgroups: Seq::new(
            g.subgroups@.len(),
            |i: int|
                if 0 <= i < g.subgroups@.len() {
                    group_entry_model(g.subgroups@[i])
                } else {
                    empty_group()
                },
        ),
    }
}

impl View for DeviceGroupEntry {
    type V = GroupModel;

    open spec fn view(&self) -> GroupModel {
        group_entry_model(*self)
    }
}

impl DeviceGroupEntry {
    /// A copy of the group, and of every group nested in it.
    pub fn clone_group(&self) -> (r: DeviceGroupEntry)
        ensures
            r@ == self@,
        decreases self,
    {
        let mut devices: Vec<String> = Vec::new();
        let mut i: usize = 0;
        while i < self.devices.len()
            invariant
                i <= self.devices@.len(),
                devices@.len() == i,
                forall|j: int| 0 <= j < i ==> (#[trigger] devices@[j])@ == self.devices@[j]@,
            decreases self.devices@.len() - i,
        {
            devices.push(self.devices[i].clone());
            i = i + 1;
        }
        let mut subgroups: Vec<DeviceGroupEntry> = Vec::new();
        let mut k: usize = 0;
        while k < self.subgroups.len()
            invariant
                k <= self.subgroups@.len(),
                subgroups@.len() == k,
                forall|j: int| 0 <= j < k ==> (#[trigger] subgroups@[j])@ == self.subgroups@[j]@,
            decreases self.subgroups@.len() - k,
        {
            assert(decreases_to!(*self => self.subgroups@[k as int])) by {
                assert(decreases_to!(*self => self.subgroups));
                assert(decreases_to!(self.subgroups => self.subgroups@));
                assert(decreases_to!(self.subgroups@ => self.subgroups@[k as int]));
            }
            subgroups.push(self.subgroups[k].clone_group());
            k = k + 1;
        }
        let r = DeviceGroupEntry {
            name: self.name.clone(),
            key: self.key.clone(),
            kind: self.kind.clone(),
            devices,
            hide_children: self.hide_children,
            subgroups,
        };
        assert(r@.devices =~= self@.devices);
        assert(r@.subgroups =~= self@.subgroups);
        r
    }
}

/// Reads a group, and every group nested in it, from its document.
pub fn create_device_group_entry_from_json(json: &JsonValue) -> (r: DeviceGroupEntry)
    requires
        device_group_ok(json@),
    ensures
        r@ == group_of(json@),
    decreases json@,
{
    let name = get_string(json, "name");
    let key = if has_member(json, "key") {
        get_string(json, "key")
    } else {
        get_string(json, "name")
    };
    let kind = get_string(json, "type");
    let devices = get_string_array(json, "devices");
    let hide_children = get_bool(json, "hideChildren");
    let mut subgroups: Vec<DeviceGroupEntry> = Vec::new();
    match find_field(json, "subgroups") {
        Some(JsonValue::Array(items)) => {
            let ghost m = model(JsonValue::Array(*items))->Array_0;
            proof {
                lemma_member_items_decrease(json@, "subgroups"@);
            }
            let mut i: usize = 0;
            while i < items.len()
                invariant
                    m == model(JsonValue::Array(*items))->Array_0,
                    field(json@, "subgroups"@) == Json::Array(m),
                    device_group_ok(json@),
                    forall|k: int| 0 <= k < m.len() ==> decreases_to!(json@ => #[trigger] m[k]),
                    m.len() == items@.len(),
                    i <= items@.len(),
                    subgroups@.len() == i,
                    forall|j: int| 0 <= j < i ==> (#[trigger] subgroups@[j])@ == group_of(m[j]),
                decreases items@.len() - i,
            {
                proof {
                    lemma_array_model(*items, i as int);
                    assert(device_group_ok(m[i as int]));
                    assert(decreases_to!(json@ => m[i as int]));
                }
                subgroups.push(create_device_group_entry_from_json(&items[i]));
                i = i + 1;
            }
        },
        _ => {},
    }
    let r = DeviceGroupEntry { name, key, kind, devices, hide_children, subgroups };
    proof {
        assert(r@.subgroups =~= group_of(json@).subgroups);
    }
    r
}

/// Reads the group of a document, to be written under its key, and adds each of its
/// devices not yet in `value_vec` at its end, in order. It writes no file itself, so its
/// file count is 0.
pub fn process_entry(json_value: &JsonValue, value_vec: Vec<JsonValue>) -> (r: (
    Vec<OutputEntry<DeviceGroupEntry>>,
    OutputFormat,
))
    requires
        device_group_ok(json_value@),
    ensures
        r.0@.len() == 1,
        r.0@[0].entry@ == group_of(json_value@),
        r.0@[0].key@ == group_key_of(json_value@),
        models(r.1.value_vec@) == add_texts(models(value_vec@), group_of(json_value@).devices),
        r.1.file_count == 0,
{
    let device_group = create_device_group_entry_from_json(json_value);
    let ghost vals = models(value_vec@);
    let ghost devs = device_group.devices.deep_view();
    let mut value_vec = value_vec;
    let mut i: usize = 0;
    assert(devs.take(0) =~= Seq::<Seq<char>>::empty());
    while i < device_group.devices.len()
        invariant
            devs == device_group.devices.deep_view(),
            i <= devs.len(),
            models(value_vec@) == add_texts(vals, devs.take(i as int)),
        decreases devs.len() - i,
    {
        add_text(&mut value_vec, &device_group.devices[i]);
        proof {
            lemma_add_texts_push(vals, devs.take(i as int), devs[i as int]);
            assert(devs.take(i + 1) =~= devs.take(i as int).push(devs[i as int]));
        }
        i = i + 1;
    }
    assert(devs.take(devs.len() as int) =~= devs);
    let key = device_group.key.clone();
    let mut entries: Vec<OutputEntry<DeviceGroupEntry>> = Vec::new();
    entries.push(OutputEntry { entry: device_group, key });
    (entries, OutputFormat { value_vec, file_count: 0 })
}

/// The devices of a list whose `key` is not in `grouped`.
pub open spec fn devices_outside(devices: Seq<Json>, grouped: Seq<Json>) -> Seq<Json>
    decreases devices.len(),
{
    if devices.len() == 0 {
        Seq::empty()
    } else if grouped.contains(field(devices.last(), "key"@)) {
        devices_outside(devices.drop_last(), grouped)
    } else {
        devices_outside(devices.drop_last(), grouped).push(devices.last())
    }
}

/// The devices of `all_devices_vec` that no group names: those whose `key` member is not in
/// `value_vec`, in order. Each of them is then written as a group of its own.
pub fn finalise_entry(all_devices_vec: &Vec<JsonValue>, value_vec: &Vec<JsonValue>) -> (r: Vec<
    JsonValue,
>)
    ensures
        models(r@) == devices_outside(models(all_devices_vec@), models(value_vec@)),
{
    let ghost all = models(all_devices_vec@);
    let ghost grouped = models(value_vec@);
    let mut out: Vec<JsonValue> = Vec::new();
    let mut i: usize = 0;
    assert(all.take(0) =~= Seq::<Json>::empty());
    assert(models(out@) =~= Seq::<Json>::empty());
    while i < all_devices_vec.len()
        invariant
            all == models(all_devices_vec@),
            grouped == models(value_vec@),
            i <= all.len(),
            models(out@) == devices_outside(all.take(i as int), grouped),
        decreases all.len() - i,
    {
        let device = &all_devices_vec[i];
        let key = match find_field(device, "key") {
            Some(k) => k.clone_value(),
            None => JsonValue::Null,
        };
        assert(all.take(i + 1).drop_last() =~= all.take(i as int));
        assert(all.take(i + 1).last() == device@);
        if !crate::json::holds_value(value_vec, &key) {
            let ghost before = out@;
            out.push(device.clone_value());
            proof {
                lemma_models_push(before, out@.last());
            }
        }
        i = i + 1;
    }
    assert(all.take(all.len() as int) =~= all);
    out
}

/// Every device that `finalise_entry` gives is one of the list whose key no group names,
/// and every such device is given.
pub proof fn law_devices_outside(devices: Seq<Json>, grouped: Seq<Json>)
    ensures
        forall|x: Json|
            devices_outside(devices, grouped).contains(x) <==> (devices.contains(x)
                && !grouped.contains(field(x, "key"@))),
    decreases devices.len(),
{
    if devices.len() > 0 {
        let rest = devices.drop_last();
        law_devices_outside(rest, grouped);
        let prev = devices_outside(rest, grouped);
        let d = devices.last();
        assert forall|x: Json|
            devices_outside(devices, grouped).contains(x) <==> (devices.contains(x)
                && !grouped.contains(field(x, "key"@))) by {
            if devices.contains(x) {
                let w = choose|k: int| 0 <= k < devices.len() && devices[k] == x;
                if w < rest.len() {
                    assert(rest[w] == x);
                }
            }
            if rest.contains(x) {
                let w = choose|k: int| 0 <= k < rest.len() && rest[k] == x;
                assert(devices[w] == x);
            }
            if !grouped.contains(field(d, "key"@)) {
                let next = prev.push(d);
                if prev.contains(x) {
                    let w = choose|k: int| 0 <= k < prev.len() && prev[k] == x;
                    assert(next[w] == x);
                }
                if next.contains(x) {
                    let w = choose|k: int| 0 <= k < next.len() && next[k] == x;
                    if w < prev.len() {
                        assert(prev[w] == x);
                    }
                }
                assert(next[prev.len() as int] == d);
            }
            assert(devices[devices.len() - 1] == d);
        }
    } else {
        assert(devices_outside(devices, grouped) =~= Seq::<Json>::empty());
    }
}

} // verus!
