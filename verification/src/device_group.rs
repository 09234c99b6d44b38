use vstd::prelude::*;
use crate::json::{
    bool_at, field, find_field, get_bool, get_string, get_string_array, has_field, has_member,
    lemma_array_model, lemma_member_items_decrease, model, string_array_at, string_array_ok,
    string_at, Json, JsonValue,
};

verus! {

/// A group of devices, with groups nested in it.
pub struct DeviceGroup {
    pub name: String,
    pub key: String,
    pub kind: String,
    pub devices: Vec<String>,
    pub hide_children: bool,
    pub subgroups: Vec<DeviceGroup>,
}

pub struct GroupModel {
    pub name: Seq<char>,
    pub key: Seq<char>,
    pub kind: Seq<char>,
    pub devices: Seq<Seq<char>>,
    pub hide_children: bool,
    pub subgroups: Seq<GroupModel>,
}

pub open spec fn empty_group() -> GroupModel {
    GroupModel {
        name: Seq::empty(),
        key: Seq::empty(),
        kind: Seq::empty(),
        devices: Seq::empty(),
        hide_children: false,
        subgroups: Seq::empty(),
    }
}

pub open spec fn group_model(g: DeviceGroup) -> GroupModel
    decreases g,
{
    GroupModel {
        name: g.name@,
        key: g.key@,
        kind: g.kind@,
        devices: g.devices.deep_view(),
        hide_children: g.hide_children,
        subgroups: Seq::new(
            g.subgroups@.len(),
            |i: int|
                if 0 <= i < g.subgroups@.len() {
                    group_model(g.subgroups@[i])
                } else {
                    empty_group()
                },
        ),
    }
}

impl View for DeviceGroup {
    type V = GroupModel;

    open spec fn view(&self) -> GroupModel {
        group_model(*self)
    }
}

/// A group document can be read: its devices are an array where present, and so on for
/// every group nested in it.
pub open spec fn device_group_ok(j: Json) -> bool
    decreases j,
{
    &&& string_array_ok(j, "devices"@)
    &&& field(j, "subgroups"@) matches Json::Array(items) ==> forall|i: int|
        0 <= i < items.len() ==> {
            proof {
                lemma_member_items_decrease(j, "subgroups"@);
            }
            device_group_ok(#[trigger] items[i])
        }
}

/// The key of a group: its `key` member, else its name.
pub open spec fn group_key_of(j: Json) -> Seq<char> {
    if has_field(j, "key"@) {
        string_at(j, "key"@)
    } else {
        string_at(j, "name"@)
    }
}

/// A group's key is its `key` member, else its name; its devices are the texts of its
/// `devices` array, in order; it has one nested group per item of a `subgroups` array, each
/// read from that item, and none where `subgroups` is not an array.
pub proof fn law_group_reads(j: Json)
    ensures
        has_field(j, "key"@) ==> group_of(j).key == string_at(j, "key"@),
        !has_field(j, "key"@) ==> group_of(j).key == string_at(j, "name"@),
        group_of(j).name == string_at(j, "name"@),
        group_of(j).devices == string_array_at(j, "devices"@),
        field(j, "subgroups"@) matches Json::Array(items) ==> {
            &&& group_of(j).subgroups.len() == items.len()
            &&& forall|i: int| 0 <= i < items.len() ==> group_of(j).subgroups[i] == group_of(#[trigger] items[i])
        },
        !(field(j, "subgroups"@) is Array) ==> group_of(j).subgroups.len() == 0,
{
}

/// The group that a document describes, with the groups nested in it.
pub open spec fn group_of(j: Json) -> GroupModel
    decreases j,
{
    GroupModel {
        name: string_at(j, "name"@),
        key: group_key_of(j),
        kind: string_at(j, "type"@),
        devices: string_array_at(j, "devices"@),
        hide_children: bool_at(j, "hideChildren"@),
        subgroups: match field(j, "subgroups"@) {
            Json::Array(items) => Seq::new(
                items.len(),
                |i: int|
                    if 0 <= i < items.len() {
                        proof {
                            lemma_member_items_decrease(j, "subgroups"@);
                        }
                        group_of(items[i])
                    } else {
                        empty_group()
                    },
            ),
            _ => Seq::empty(),
        },
    }
}

/// Reads a group, and every group nested in it, from its document.
pub fn create_device_group_from_json(json: &JsonValue) -> (r: DeviceGroup)
    requires
        device_group_ok(json@),
    ensures
        r@ == group_of(json@),
    decreases json@,
{
    let name = get_string(json, "name");
    let key = if has_member(json, "key") {
        get_string(json, "key")
    } else {
        get_string(json, "name")
    };
    let kind = get_string(json, "type");
    let devices = get_string_array(json, "devices");
    let hide_children = get_bool(json, "hideChildren");
    let mut subgroups: Vec<DeviceGroup> = Vec::new();
    match find_field(json, "subgroups") {
        Some(JsonValue::Array(items)) => {
            let ghost m = model(JsonValue::Array(*items))->Array_0;
            proof {
                lemma_member_items_decrease(json@, "subgroups"@);
            }
            let mut i: usize = 0;
            while i < items.len()
                invariant
                    m == model(JsonValue::Array(*items))->Array_0,
                    field(json@, "subgroups"@) == Json::Array(m),
                    device_group_ok(json@),
                    forall|k: int| 0 <= k < m.len() ==> decreases_to!(json@ => #[trigger] m[k]),
                    m.len() == items@.len(),
                    i <= items@.len(),
                    subgroups@.len() == i,
                    forall|j: int| 0 <= j < i ==> (#[trigger] subgroups@[j])@ == group_of(m[j]),
                decreases items@.len() - i,
            {
                proof {
                    lemma_array_model(*items, i as int);
                    assert(device_group_ok(m[i as int]));
                    assert(decreases_to!(json@ => m[i as int]));
                }
                subgroups.push(create_device_group_from_json(&items[i]));
                i = i + 1;
            }
        },
        _ => {},
    }
    let r = DeviceGroup { name, key, kind, devices, hide_children, subgroups };
    proof {
        let target = group_of(json@);
        assert(r@.subgroups =~= target.subgroups);
    }
    r
}


/// Whether a group document, and every group nested in it, can be read.
pub fn device_group_check(json: &JsonValue) -> (r: bool)
    ensures
        r == device_group_ok(json@),
    decreases json@,
{
    match find_field(json, "devices") {
        None => {},
        Some(JsonValue::Array(_)) => {},
        _ => {
            return false;
        },
    }
    match find_field(json, "subgroups") {
        Some(JsonValue::Array(items)) => {
            let ghost m = model(JsonValue::Array(*items))->Array_0;
            proof {
                lemma_member_items_decrease(json@, "subgroups"@);
            }
            let mut i: usize = 0;
            while i < items.len()
                invariant
                    m == model(JsonValue::Array(*items))->Array_0,
                    field(json@, "subgroups"@) == Json::Array(m),
                    forall|k: int| 0 <= k < m.len() ==> decreases_to!(json@ => #[trigger] m[k]),
                    m.len() == items@.len(),
                    i <= items@.len(),
                    forall|j: int| 0 <= j < i ==> device_group_ok(#[trigger] m[j]),
                decreases items@.len() - i,
            {
                proof {
                    lemma_array_model(*items, i as int);
                    assert(decreases_to!(json@ => m[i as int]));
                }
                if !device_group_check(&items[i]) {
                    return false;
                }
                i = i + 1;
            }
            true
        },
        _ => true,
    }
}

} // verus!
