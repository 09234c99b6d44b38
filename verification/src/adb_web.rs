use vstd::prelude::*;
use crate::json::{
    get_string, get_string_array, models, string_array_at, string_array_check, string_array_ok,
    string_at, Json, JsonValue,
};
use crate::os::{AppleDbModel, FirmwareModel, OsEntry, OsEntryAppleDB};
use crate::os_file::{LinkModel, OsEntrySource, OsEntrySourceLink, SourceModel};

verus! {

/// A device that a firmware runs on, as the web listing shows it.
pub struct OsADBWebEntryDevice {
    pub name: String,
    pub key: String,
    pub released: Vec<String>,
}

/// A source of a firmware, as the web listing shows it.
pub struct OsADBWebEntrySource {
    pub kind: String,
    pub device_map: Vec<String>,
    pub links: Vec<OsEntrySourceLink>,
    /// Hash name and value pairs, a map kept sorted by name (see `pairs`).
    pub hashes: Vec<(String, String)>,
    pub size: u64,
}

/// A firmware entry as the web listing shows it.
pub struct OsADBWebEntry {
    pub os_str: String,
    pub version: String,
    pub build: String,
    pub key: String,
    pub released: String,
    pub rc: bool,
    pub beta: bool,
    pub rsr: bool,
    pub internal: bool,
    pub preinstalled: Vec<String>,
    pub appledb_web: OsEntryAppleDB,
    pub device_map: Vec<OsADBWebEntryDevice>,
    pub sources: Vec<OsADBWebEntrySource>,
}

pub struct WebDeviceModel {
    pub name: Seq<char>,
    pub key: Seq<char>,
    pub released: Seq<Seq<char>>,
}

pub struct WebSourceModel {
    pub kind: Seq<char>,
    pub device_map: Seq<Seq<char>>,
    pub links: Seq<LinkModel>,
    pub hashes: Seq<(Seq<char>, Seq<char>)>,
    pub size: u64,
}

pub struct WebFirmwareModel {
    pub os_str: Seq<char>,
    pub version: Seq<char>,
    pub build: Seq<char>,
    pub key: Seq<char>,
    pub released: Seq<char>,
    pub rc: bool,
    pub beta: bool,
    pub rsr: bool,
    pub internal: bool,
    pub preinstalled: Seq<Seq<char>>,
    pub appledb_web: AppleDbModel,
    pub device_map: Seq<WebDeviceModel>,
    pub sources: Seq<WebSourceModel>,
}

impl View for OsADBWebEntryDevice {
    type V = WebDeviceModel;

    open spec fn view(&self) -> WebDeviceModel {
        WebDeviceModel { name: self.name@, key: self.key@, released: self.released.deep_view() }
    }
}

impl View for OsADBWebEntrySource {
    type V = WebSourceModel;

    open spec fn view(&self) -> WebSourceModel {
        WebSourceModel {
            kind: self.kind@,
            device_map: self.device_map.deep_view(),
            links: self.links@.map_values(|l: OsEntrySourceLink| l@),
            hashes: self.hashes.deep_view(),
            size: self.size,
        }
    }
}

impl View for OsADBWebEntry {
    type V = WebFirmwareModel;

    open spec fn view(&self) -> WebFirmwareModel {
        WebFirmwareModel {
            os_str: self.os_str@,
            version: self.version@,
            build: self.build@,
            key: self.key@,
            released: self.released@,
            rc: self.rc,
            beta: self.beta,
            rsr: self.rsr,
            internal: self.internal,
            preinstalled: self.preinstalled.deep_view(),
            appledb_web: self.appledb_web@,
            device_map: self.device_map@.map_values(|d: OsADBWebEntryDevice| d@),
            sources: self.sources@.map_values(|s: OsADBWebEntrySource| s@),
        }
    }
}

/// A device as its document describes it: name, key and release dates.
pub open spec fn web_device_of(d: Json) -> WebDeviceModel {
    WebDeviceModel {
        name: string_at(d, "name"@),
        key: string_at(d, "key"@),
        released: string_array_at(d, "released"@),
    }
}

/// The parts of a source that the web listing shows.
pub open spec fn web_source_of(s: SourceModel) -> WebSourceModel {
    WebSourceModel {
        kind: s.kind,
        device_map: s.device_map,
        links: s.links,
        hashes: s.hashes,
        size: s.size,
    }
}

/// The web listing of a firmware entry, with the documents of its devices, one per entry
/// of its device map, in order.
pub open spec fn web_firmware_of(e: FirmwareModel, devices: Seq<Json>) -> WebFirmwareModel {
    WebFirmwareModel {
        os_str: e.os_str,
        version: e.version,
        build: e.build,
        key: e.key,
        released: e.released,
        rc: e.rc,
        beta: e.beta,
        rsr: e.rsr,
        internal: e.internal,
        preinstalled: e.preinstalled,
        appledb_web: e.appledb,
        device_map: devices.map_values(|d: Json| web_device_of(d)),
        sources: e.sources.map_values(|s: SourceModel| web_source_of(s)),
    }
}

/// The device documents can be read: their release dates are arrays where present.
pub open spec fn web_devices_ok(devices: Seq<Json>) -> bool {
    forall|i: int| 0 <= i < devices.len() ==> string_array_ok(#[trigger] devices[i], "released"@)
}

/// A device of the web listing has its document's `name`, `key` and `released` texts; each
/// web source keeps its source's type, devices, links, hashes and size; a web listing holds
/// one device per device document, in order, and one web source per source.
pub proof fn law_web_listing(e: FirmwareModel, devices: Seq<Json>)
    ensures
        web_firmware_of(e, devices).device_map.len() == devices.len(),
        forall|i: int|
            0 <= i < devices.len() ==> {
                &&& web_firmware_of(e, devices).device_map[i].name == string_at(#[trigger] devices[i], "name"@)
                &&& web_firmware_of(e, devices).device_map[i].key == string_at(devices[i], "key"@)
                &&& web_firmware_of(e, devices).device_map[i].released == string_array_at(devices[i], "released"@)
            },
        web_firmware_of(e, devices).sources.len() == e.sources.len(),
        forall|i: int|
            0 <= i < e.sources.len() ==> {
                &&& web_firmware_of(e, devices).sources[i].kind == (#[trigger] e.sources[i]).kind
                &&& web_firmware_of(e, devices).sources[i].device_map == e.sources[i].device_map
                &&& web_firmware_of(e, devices).sources[i].links == e.sources[i].links
                &&& web_firmware_of(e, devices).sources[i].hashes == e.sources[i].hashes
                &&& web_firmware_of(e, devices).sources[i].size == e.sources[i].size
            },
        web_firmware_of(e, devices).key == e.key,
        web_firmware_of(e, devices).os_str == e.os_str,
        web_firmware_of(e, devices).build == e.build,
{
}

/// Whether every device document can be read for the web listing.
pub fn web_devices_check(devices: &Vec<JsonValue>) -> (r: bool)
    ensures
        r == web_devices_ok(models(devices@)),
{
    let mut i: usize = 0;
    while i < devices.len()
        invariant
            i <= devices@.len(),
            forall|k: int| 0 <= k < i ==> string_array_ok(#[trigger] models(devices@)[k], "released"@),
        decreases devices@.len() - i,
    {
        if !string_array_check(&devices[i], "released") {
            assert(models(devices@)[i as int] == devices@[i as int]@);
            return false;
        }
        i = i + 1;
    }
    true
}

/// Reads a device of the web listing from its document.
pub fn web_device(d: &JsonValue) -> (r: OsADBWebEntryDevice)
    requires
        string_array_ok(d@, "released"@),
    ensures
        r@ == web_device_of(d@),
{
    OsADBWebEntryDevice {
        name: get_string(d, "name"),
        key: get_string(d, "key"),
        released: get_string_array(d, "released"),
    }
}

/// The parts of a firmware's sources that the web listing shows, in order.
pub fn web_sources(sources: Vec<OsEntrySource>) -> (r: Vec<OsADBWebEntrySource>)
    ensures
        r@.map_values(|s: OsADBWebEntrySource| s@) == sources@.map_values(
            |s: OsEntrySource| web_source_of(s@),
        ),
{
    let ghost all = sources@;
    let mut sources = sources;
    let mut out: Vec<OsADBWebEntrySource> = Vec::new();
    let n = sources.len();
    let mut i: usize = 0;
    assert(all.skip(0) =~= all);
    while i < n
        invariant
            n == all.len(),
            i <= n,
            sources@ == all.skip(i as int),
            out@.len() == i,
            forall|j: int| 0 <= j < i ==> (#[trigger] out@[j])@ == web_source_of(all[j]@),
        decreases n - i,
    {
        let s = sources.remove(0);
        assert(sources@ =~= all.skip(i + 1));
        out.push(
            OsADBWebEntrySource {
                kind: s.kind,
                device_map: s.device_map,
                links: s.links,
                hashes: s.hashes,
                size: s.size,
            },
        );
        i = i + 1;
    }
    assert(out@.map_values(|s: OsADBWebEntrySource| s@) =~= all.map_values(
        |s: OsEntrySource| web_source_of(s@),
    ));
    out
}

/// The web listing of a firmware entry. `device_json_vec` holds the document of each device
/// of the entry's device map, in the same order; each gives the device's name, key and
/// release dates.
pub fn convert_os_entry_to_os_adb_web_entry(os_entry: OsEntry, device_json_vec: &Vec<JsonValue>) -> (r:
    OsADBWebEntry)
    requires
        device_json_vec@.len() == os_entry.device_map@.len(),
        web_devices_ok(models(device_json_vec@)),
    ensures
        r@ == web_firmware_of(os_entry@, models(device_json_vec@)),
{
    let ghost e = os_entry@;
    let sources = web_sources(os_entry.sources);
    proof {
        assert(e.sources =~= os_entry.sources@.map_values(|s: OsEntrySource| s@));
        assert(sources@.map_values(|s: OsADBWebEntrySource| s@) =~= e.sources.map_values(
            |s: SourceModel| web_source_of(s),
        ));
    }
    let mut device_map: Vec<OsADBWebEntryDevice> = Vec::new();
    let mut i: usize = 0;
    while i < device_json_vec.len()
        invariant
            web_devices_ok(models(device_json_vec@)),
            i <= device_json_vec@.len(),
            device_map@.len() == i,
            forall|j: int| 0 <= j < i ==> (#[trigger] device_map@[j])@ == web_device_of(device_json_vec@[j]@),
        decreases device_json_vec@.len() - i,
    {
        assert(models(device_json_vec@)[i as int] == device_json_vec@[i as int]@);
        device_map.push(web_device(&device_json_vec[i]));
        i = i + 1;
    }
    assert(device_map@.map_values(|d: OsADBWebEntryDevice| d@) =~= models(device_json_vec@).map_values(
        |d: Json| web_device_of(d),
    ));
    OsADBWebEntry {
        os_str: os_entry.os_str,
        version: os_entry.version,
        build: os_entry.build,
        key: os_entry.key,
        released: os_entry.released,
        rc: os_entry.rc,
        beta: os_entry.beta,
        rsr: os_entry.rsr,
        internal: os_entry.internal,
        preinstalled: os_entry.preinstalled,
        appledb_web: os_entry.appledb,
        device_map,
        sources,
    }
}

} // verus!
