use vstd::prelude::*;
use crate::json::{
    bool_at, field, find_field, get_bool, get_string, get_string_array, has_field, has_member,
    lemma_array_model, lemma_models_add, lemma_models_push, model, models, set_field,
    string_array_at, string_at, with_field, Json, JsonValue,
};
use crate::os_file::{
    duplicate_count, object_count, sdk_total,
    create_source, duplicate_from, duplicates_of, get_string_pairs, os_entry_shape_ok,
    preinstalled_of, safari_version_of, source_ok, sources_of, string_pairs_of, OsEntryAppleDBWebImage,
    OsEntryAppleDBWebImageAlign, OsEntrySource, SourceModel, WebImageModel,
};
use crate::text::{
    concat3, contains_seq, contains_text, drop_last_char, ends_with_char, map_char, replace_char,
    starts_with,
};
use crate::web_url::{join_url, url_join};
use crate::output::{add_text, add_texts, OutputEntry};

verus! {

/// What appledb.dev shows of a firmware.
pub struct OsEntryAppleDB {
    pub web_image: OsEntryAppleDBWebImage,
    pub web_url: String,
    pub api_url: String,
    pub hide_from_latest_versions: bool,
}

/// A firmware (operating system release) entry.
pub struct OsEntry {
    pub os_str: String,
    pub version: String,
    pub safari_version: Vec<String>,
    pub build: String,
    pub key: String,
    pub embedded_os_build: String,
    pub bridge_os_build: String,
    pub build_train: String,
    pub released: String,
    pub rc: bool,
    pub beta: bool,
    pub rsr: bool,
    pub internal: bool,
    pub preinstalled: Vec<String>,
    pub notes: String,
    pub release_notes: String,
    pub security_notes: String,
    /// Device and IPSW pairs, a map kept sorted by device (see `pairs`).
    pub ipd: Vec<(String, String)>,
    pub appledb: OsEntryAppleDB,
    pub device_map: Vec<String>,
    pub os_map: Vec<String>,
    pub sources: Vec<OsEntrySource>,
}

pub struct AppleDbModel {
    pub web_image: WebImageModel,
    pub web_url: Seq<char>,
    pub api_url: Seq<char>,
    pub hide_from_latest_versions: bool,
}

pub struct FirmwareModel {
    pub os_str: Seq<char>,
    pub version: Seq<char>,
    pub safari_version: Seq<Seq<char>>,
    pub build: Seq<char>,
    pub key: Seq<char>,
    pub embedded_os_build: Seq<char>,
    pub bridge_os_build: Seq<char>,
    pub build_train: Seq<char>,
    pub released: Seq<char>,
    pub rc: bool,
    pub beta: bool,
    pub rsr: bool,
    pub internal: bool,
    pub preinstalled: Seq<Seq<char>>,
    pub notes: Seq<char>,
    pub release_notes: Seq<char>,
    pub security_notes: Seq<char>,
    pub ipd: Seq<(Seq<char>, Seq<char>)>,
    pub appledb: AppleDbModel,
    pub device_map: Seq<Seq<char>>,
    pub os_map: Seq<Seq<char>>,
    pub sources: Seq<SourceModel>,
}

impl View for OsEntryAppleDB {
    type V = AppleDbModel;

    open spec fn view(&self) -> AppleDbModel {
        AppleDbModel {
            web_image: self.web_image@,
            web_url: self.web_url@,
            api_url: self.api_url@,
            hide_from_latest_versions: self.hide_from_latest_versions,
        }
    }
}

impl View for OsEntry {
    type V = FirmwareModel;

    open spec fn view(&self) -> FirmwareModel {
        FirmwareModel {
            os_str: self.os_str@,
            version: self.version@,
            safari_version: self.safari_version.deep_view(),
            build: self.build@,
            key: self.key@,
            embedded_os_build: self.embedded_os_build@,
            bridge_os_build: self.bridge_os_build@,
            build_train: self.build_train@,
            released: self.released@,
            rc: self.rc,
            beta: self.beta,
            rsr: self.rsr,
            internal: self.internal,
            preinstalled: self.preinstalled.deep_view(),
            notes: self.notes@,
            release_notes: self.release_notes@,
            security_notes: self.security_notes@,
            ipd: self.ipd.deep_view(),
            appledb: self.appledb@,
            device_map: self.device_map.deep_view(),
            os_map: self.os_map.deep_view(),
            sources: self.sources@.map_values(|s: OsEntrySource| s@),
        }
    }
}

/// `s` ends with the character `c`.
pub open spec fn ends_with(s: Seq<char>, c: char) -> bool {
    s.len() > 0 && s.last() == c
}

/// The key. A `key` member is used as it is where it begins with the OS name; one that ends
/// with `!` loses the `!`; any other is prefixed with `<osStr>;`. Without a `key` member the
/// key is `<osStr>;` followed by the unique build, else the build, else the version.
pub open spec fn firmware_key_of(j: Json) -> Seq<char> {
    let os = string_at(j, "osStr"@);
    if has_field(j, "key"@) {
        let k = string_at(j, "key"@);
        if !os.is_prefix_of(k) && !ends_with(k, '!') {
            os + ";"@ + k
        } else if ends_with(k, '!') {
            k.drop_last()
        } else {
            k
        }
    } else {
        os + ";"@ + (if has_field(j, "uniqueBuild"@) {
            string_at(j, "uniqueBuild"@)
        } else if has_field(j, "build"@) {
            string_at(j, "build"@)
        } else {
            string_at(j, "version"@)
        })
    }
}

/// A firmware key begins with its OS name, unless the document's own key ends with `!`.
pub proof fn law_firmware_key_prefix(j: Json)
    requires
        !(has_field(j, "key"@) && ends_with(string_at(j, "key"@), '!')),
    ensures
        string_at(j, "osStr"@).is_prefix_of(firmware_key_of(j)),
{
    let os = string_at(j, "osStr"@);
    let r = firmware_key_of(j);
    if has_field(j, "key"@) {
        let k = string_at(j, "key"@);
        if !os.is_prefix_of(k) {
            assert(r == os + ";"@ + k);
            assert(os.is_prefix_of(r)) by {
                assert forall|i: int| 0 <= i < os.len() implies r[i] == os[i] by {
                    assert((os + ";"@)[i] == os[i]);
                }
            }
        }
    } else {
        let rest = if has_field(j, "uniqueBuild"@) {
            string_at(j, "uniqueBuild"@)
        } else if has_field(j, "build"@) {
            string_at(j, "build"@)
        } else {
            string_at(j, "version"@)
        };
        assert(r == os + ";"@ + rest);
        assert(os.is_prefix_of(r)) by {
            assert forall|i: int| 0 <= i < os.len() implies r[i] == os[i] by {
                assert((os + ";"@)[i] == os[i]);
            }
        }
    }
}

/// A key's path has the key's length and turns each `;` into `/`, keeping every other
/// character; the page path is the key path followed by `.html` with spaces turned into
/// dashes, and the API path the key path followed by `.json`.
pub proof fn law_key_paths(j: Json)
    ensures
        key_path(firmware_key_of(j)).len() == firmware_key_of(j).len(),
        forall|i: int|
            0 <= i < firmware_key_of(j).len() ==> (firmware_key_of(j)[i] == ';' ==> #[trigger] key_path(
                firmware_key_of(j),
            )[i] == '/') && (firmware_key_of(j)[i] != ';' ==> key_path(firmware_key_of(j))[i]
                == firmware_key_of(j)[i]),
        firmware_api_path(j) == key_path(firmware_key_of(j)) + seq!['.', 'j', 's', 'o', 'n'],
        firmware_web_path(j).len() == firmware_key_of(j).len() + 5,
        forall|i: int|
            0 <= i < firmware_key_of(j).len() ==> #[trigger] firmware_web_path(j)[i] == (if key_path(
                firmware_key_of(j),
            )[i] == ' ' {
                '-'
            } else {
                key_path(firmware_key_of(j))[i]
            }),
        firmware_web_path(j).subrange(firmware_key_of(j).len() as int, firmware_web_path(j).len() as int)
            == seq!['.', 'h', 't', 'm', 'l'],
{
    reveal_strlit(".json");
    reveal_strlit(".html");
    assert(".json"@ =~= seq!['.', 'j', 's', 'o', 'n']);
    assert(".html"@ =~= seq!['.', 'h', 't', 'm', 'l']);
    assert(firmware_web_path(j).subrange(firmware_key_of(j).len() as int, firmware_web_path(j).len() as int)
        =~= seq!['.', 'h', 't', 'm', 'l']);
}

/// The key as a path: each `;` becomes `/`.
pub open spec fn key_path(key: Seq<char>) -> Seq<char> {
    map_char(key, ';', '/')
}

/// The path of the firmware's page: the key path with `.html`, spaces turned into dashes.
pub open spec fn firmware_web_path(j: Json) -> Seq<char> {
    map_char(key_path(firmware_key_of(j)) + ".html"@, ' ', '-')
}

/// The path of the firmware's API document: the key path with `.json`.
pub open spec fn firmware_api_path(j: Json) -> Seq<char> {
    key_path(firmware_key_of(j)) + ".json"@
}

/// The web image: where the document has an `appledbWebImage` member, its id is read from
/// the `appledb` member and its alignment from `appledbWebImage` (right where that reads
/// `right`, else left).
pub open spec fn firmware_web_image_of(j: Json) -> WebImageModel {
    if !has_field(j, "appledbWebImage"@) {
        WebImageModel { id: Seq::empty(), align: OsEntryAppleDBWebImageAlign::Left }
    } else {
        WebImageModel {
            id: string_at(field(j, "appledb"@), "id"@),
            align: if string_at(field(j, "appledbWebImage"@), "align"@) == "right"@ {
                OsEntryAppleDBWebImageAlign::Right
            } else {
                OsEntryAppleDBWebImageAlign::Left
            },
        }
    }
}

/// The key of an SDK document is its `key` member, else `uniqueBuild`, else `build`, else
/// `version`, followed by `-SDK`; its device is `<osStr> SDK`, or `macOS SDK` where that
/// holds `OS X`.
pub proof fn law_sdk_naming(sdk: Json)
    ensures
        has_field(sdk, "key"@) ==> sdk_key_of(sdk) == string_at(sdk, "key"@) + seq!['-', 'S', 'D', 'K'],
        (!has_field(sdk, "key"@) && has_field(sdk, "uniqueBuild"@)) ==> sdk_key_of(sdk) == string_at(
            sdk,
            "uniqueBuild"@,
        ) + seq!['-', 'S', 'D', 'K'],
        (!has_field(sdk, "key"@) && !has_field(sdk, "uniqueBuild"@) && has_field(sdk, "build"@))
            ==> sdk_key_of(sdk) == string_at(sdk, "build"@) + seq!['-', 'S', 'D', 'K'],
        (!has_field(sdk, "key"@) && !has_field(sdk, "uniqueBuild"@) && !has_field(sdk, "build"@))
            ==> sdk_key_of(sdk) == string_at(sdk, "version"@) + seq!['-', 'S', 'D', 'K'],
        contains_seq(string_at(sdk, "osStr"@) + " SDK"@, "OS X"@) ==> sdk_device_name(sdk) == seq![
            'm', 'a', 'c', 'O', 'S', ' ', 'S', 'D', 'K'],
        !contains_seq(string_at(sdk, "osStr"@) + " SDK"@, "OS X"@) ==> sdk_device_name(sdk) == string_at(
            sdk,
            "osStr"@,
        ) + seq![' ', 'S', 'D', 'K'],
{
    reveal_strlit("-SDK");
    reveal_strlit(" SDK");
    reveal_strlit("macOS SDK");
    assert("-SDK"@ =~= seq!['-', 'S', 'D', 'K']);
    assert(" SDK"@ =~= seq![' ', 'S', 'D', 'K']);
    assert("macOS SDK"@ =~= seq!['m', 'a', 'c', 'O', 'S', ' ', 'S', 'D', 'K']);
}

/// A firmware's release date is its `released` member, or 1970-01-01 where it has none; its
/// version, build and OS name are those members' texts.
pub proof fn law_firmware_fields(j: Json)
    ensures
        has_field(j, "released"@) ==> firmware_of(j).released == string_at(j, "released"@),
        !has_field(j, "released"@) ==> firmware_of(j).released == seq!['1', '9', '7', '0', '-', '0', '1', '-', '0', '1'],
        firmware_of(j).version == string_at(j, "version"@),
        firmware_of(j).build == string_at(j, "build"@),
        firmware_of(j).os_str == string_at(j, "osStr"@),
{
    reveal_strlit("1970-01-01");
    assert("1970-01-01"@ =~= seq!['1', '9', '7', '0', '-', '0', '1', '-', '0', '1']);
}

/// A firmware entry's web image is aligned right exactly where the document has an
/// `appledbWebImage` member whose `align` text is `right`, and left otherwise; its id is read
/// from the document's `appledb` member where there is an image, and is empty without one.
pub proof fn law_firmware_web_image(j: Json)
    ensures
        (has_field(j, "appledbWebImage"@) && string_at(field(j, "appledbWebImage"@), "align"@)
            == "right"@) ==> firmware_of(j).appledb.web_image.align == OsEntryAppleDBWebImageAlign::Right,
        !(has_field(j, "appledbWebImage"@) && string_at(field(j, "appledbWebImage"@), "align"@)
            == "right"@) ==> firmware_of(j).appledb.web_image.align == OsEntryAppleDBWebImageAlign::Left,
        has_field(j, "appledbWebImage"@) ==> firmware_of(j).appledb.web_image.id == string_at(
            field(j, "appledb"@),
            "id"@,
        ),
        !has_field(j, "appledbWebImage"@) ==> firmware_of(j).appledb.web_image.id == Seq::<char>::empty(),
{
}

/// Both URLs of the firmware can be formed.
pub open spec fn firmware_urls_ok(j: Json) -> bool {
    &&& url_join("https://appledb.dev/firmware/"@, firmware_web_path(j)) is Some
    &&& url_join("https://api.emiyl.com/firmware/"@, firmware_api_path(j)) is Some
}

pub open spec fn released_or_epoch(j: Json) -> Seq<char> {
    if has_field(j, "released"@) {
        string_at(j, "released"@)
    } else {
        "1970-01-01"@
    }
}

/// The firmware entry that a document describes.
pub open spec fn firmware_of(j: Json) -> FirmwareModel {
    FirmwareModel {
        os_str: string_at(j, "osStr"@),
        version: string_at(j, "version"@),
        safari_version: safari_version_of(j),
        build: string_at(j, "build"@),
        key: firmware_key_of(j),
        embedded_os_build: string_at(j, "embeddedOSBuild"@),
        bridge_os_build: string_at(j, "bridgeOSBuild"@),
        build_train: string_at(j, "buildTrain"@),
        released: released_or_epoch(j),
        rc: bool_at(j, "rc"@),
        beta: bool_at(j, "beta"@),
        rsr: bool_at(j, "rsr"@),
        internal: bool_at(j, "internal"@),
        preinstalled: preinstalled_of(j),
        notes: string_at(j, "notes"@),
        release_notes: string_at(j, "releaseNotes"@),
        security_notes: string_at(j, "securityNotes"@),
        ipd: string_pairs_of(field(j, "ipd"@)),
        appledb: AppleDbModel {
            web_image: firmware_web_image_of(j),
            web_url: url_join("https://appledb.dev/firmware/"@, firmware_web_path(j))->0,
            api_url: url_join("https://api.emiyl.com/firmware/"@, firmware_api_path(j))->0,
            hide_from_latest_versions: bool_at(j, "hideFromLatestVersions"@),
        },
        device_map: string_array_at(j, "deviceMap"@),
        os_map: string_array_at(j, "osMap"@),
        sources: sources_of(j),
    }
}

fn firmware_key(json: &JsonValue, os_str: &String) -> (r: String)
    ensures
        os_str@ == string_at(json@, "osStr"@) ==> r@ == firmware_key_of(json@),
{
    if has_member(json, "key") {
        let k = get_string(json, "key");
        if !starts_with(k.as_str(), os_str.as_str()) && !ends_with_char(k.as_str(), '!') {
            concat3(os_str.as_str(), ";", k.as_str())
        } else if ends_with_char(k.as_str(), '!') {
            drop_last_char(k.as_str())
        } else {
            k
        }
    } else {
        let second = if has_member(json, "uniqueBuild") {
            get_string(json, "uniqueBuild")
        } else if has_member(json, "build") {
            get_string(json, "build")
        } else {
            get_string(json, "version")
        };
        concat3(os_str.as_str(), ";", second.as_str())
    }
}

fn firmware_web_image(json: &JsonValue) -> (r: OsEntryAppleDBWebImage)
    ensures
        r@ == firmware_web_image_of(json@),
{
    if !has_member(json, "appledbWebImage") {
        return OsEntryAppleDBWebImage { id: String::new(), align: OsEntryAppleDBWebImageAlign::Left };
    }
    let align_text = match find_field(json, "appledbWebImage") {
        Some(w) => get_string(w, "align"),
        None => String::new(),
    };
    let id = match find_field(json, "appledb") {
        Some(a) => get_string(a, "id"),
        None => String::new(),
    };
    let left = String::from_str("left");
    let right = String::from_str("right");
    let align = if align_text == left {
        OsEntryAppleDBWebImageAlign::Left
    } else if align_text == right {
        OsEntryAppleDBWebImageAlign::Right
    } else {
        OsEntryAppleDBWebImageAlign::Left
    };
    proof {
        reveal_strlit("left");
        reveal_strlit("right");
        assert("left"@.len() == 4);
        assert("right"@.len() == 5);
        assert("left"@ != "right"@);
    }
    OsEntryAppleDBWebImage { id, align }
}

fn firmware_sources(json: &JsonValue) -> (r: Vec<OsEntrySource>)
    requires
        os_entry_shape_ok(json@),
    ensures
        r@.map_values(|s: OsEntrySource| s@) == sources_of(json@),
{
    let mut out: Vec<OsEntrySource> = Vec::new();
    match find_field(json, "sources") {
        Some(JsonValue::Array(items)) => {
            let ghost m = model(JsonValue::Array(*items))->Array_0;
            let mut i: usize = 0;
            while i < items.len()
                invariant
                    m == model(JsonValue::Array(*items))->Array_0,
                    m.len() == items@.len(),
                    forall|k: int| 0 <= k < m.len() ==> source_ok(#[trigger] m[k]),
                    i <= items@.len(),
                    out@.len() == i,
                    forall|j: int| 0 <= j < i ==> (#[trigger] out@[j])@ == crate::os_file::source_of(m[j]),
                decreases items@.len() - i,
            {
                proof {
                    lemma_array_model(*items, i as int);
                }
                out.push(create_source(&items[i]));
                i = i + 1;
            }
        },
        _ => {},
    }
    assert(out@.map_values(|s: OsEntrySource| s@) =~= sources_of(json@));
    out
}

/// Reads a firmware entry from its document.
pub fn create_os_entry_from_json(json: &JsonValue) -> (r: OsEntry)
    requires
        os_entry_shape_ok(json@),
        firmware_urls_ok(json@),
    ensures
        r@ == firmware_of(json@),
{
    let os_str = get_string(json, "osStr");
    let safari_version = match find_field(json, "safariVersion") {
        Some(JsonValue::Array(_)) => get_string_array(json, "safariVersion"),
        Some(JsonValue::String(_)) => {
            let mut v: Vec<String> = Vec::new();
            v.push(get_string(json, "safariVersion"));
            v
        },
        _ => Vec::new(),
    };
    assert(safari_version.deep_view() =~= safari_version_of(json@));
    let key = firmware_key(json, &os_str);
    let released = if has_member(json, "released") {
        get_string(json, "released")
    } else {
        String::from_str("1970-01-01")
    };
    let preinstalled = if !has_member(json, "preinstalled") {
        Vec::new()
    } else {
        match find_field(json, "preinstalled") {
            Some(JsonValue::Bool(b)) => if *b {
                get_string_array(json, "deviceMap")
            } else {
                Vec::new()
            },
            Some(JsonValue::Array(_)) => get_string_array(json, "preinstalled"),
            _ => Vec::new(),
        }
    };
    assert(preinstalled.deep_view() =~= preinstalled_of(json@));
    let ipd = match find_field(json, "ipd") {
        Some(v) => get_string_pairs(v),
        None => Vec::new(),
    };
    assert(ipd.deep_view() =~= string_pairs_of(field(json@, "ipd"@)));
    let path = replace_char(key.as_str(), ';', '/');
    let mut web_path = path.clone();
    web_path.append(".html");
    let web_path = replace_char(web_path.as_str(), ' ', '-');
    let web_url = match join_url("https://appledb.dev/firmware/", web_path.as_str()) {
        Some(u) => u,
        None => String::new(),
    };
    let mut api_path = path;
    api_path.append(".json");
    let api_url = match join_url("https://api.emiyl.com/firmware/", api_path.as_str()) {
        Some(u) => u,
        None => String::new(),
    };
    let appledb = OsEntryAppleDB {
        web_image: firmware_web_image(json),
        web_url,
        api_url,
        hide_from_latest_versions: get_bool(json, "hideFromLatestVersions"),
    };
    OsEntry {
        os_str,
        version: get_string(json, "version"),
        safari_version,
        build: get_string(json, "build"),
        key,
        embedded_os_build: get_string(json, "embeddedOSBuild"),
        bridge_os_build: get_string(json, "bridgeOSBuild"),
        build_train: get_string(json, "buildTrain"),
        released,
        rc: get_bool(json, "rc"),
        beta: get_bool(json, "beta"),
        rsr: get_bool(json, "rsr"),
        internal: get_bool(json, "internal"),
        preinstalled,
        notes: get_string(json, "notes"),
        release_notes: get_string(json, "releaseNotes"),
        security_notes: get_string(json, "securityNotes"),
        ipd,
        appledb,
        device_map: get_string_array(json, "deviceMap"),
        os_map: get_string_array(json, "osMap"),
        sources: firmware_sources(json),
    }
}


/// The key of an SDK document: its `key`, else `uniqueBuild`, else `build`, else `version`
/// member, followed by `-SDK`.
pub open spec fn sdk_key_of(sdk: Json) -> Seq<char> {
    (if has_field(sdk, "key"@) {
        string_at(sdk, "key"@)
    } else if has_field(sdk, "uniqueBuild"@) {
        string_at(sdk, "uniqueBuild"@)
    } else if has_field(sdk, "build"@) {
        string_at(sdk, "build"@)
    } else {
        string_at(sdk, "version"@)
    }) + "-SDK"@
}

/// The device of an SDK document: `<osStr> SDK`, or `macOS SDK` where that holds "OS X".
pub open spec fn sdk_device_name(sdk: Json) -> Seq<char> {
    let t = string_at(sdk, "osStr"@) + " SDK"@;
    if contains_seq(t, "OS X"@) {
        "macOS SDK"@
    } else {
        t
    }
}

/// The firmware document made from an SDK object.
pub open spec fn firmware_sdk_entry_of(sdk: Json) -> Json {
    let v1 = with_field(sdk, "version"@, Json::Str(string_at(sdk, "version"@) + " SDK"@));
    let v2 = with_field(v1, "build"@, Json::Str(string_at(sdk, "build"@)));
    let v3 = with_field(v2, "key"@, Json::Str(sdk_key_of(sdk)));
    let v4 = with_field(v3, "released"@, Json::Str(string_at(sdk, "released"@)));
    let v5 = with_field(v4, "deviceMap"@, Json::Array(seq![Json::Str(sdk_device_name(sdk))]));
    with_field(v5, "sdk"@, Json::Bool(true))
}

/// An SDK document reads as one: it is marked `sdk`, its key is the SDK key, its version is
/// the SDK's version followed by ` SDK`, and its one device is the SDK device name.
pub proof fn law_sdk_entry_reads(sdk: Json)
    requires
        sdk is Object,
    ensures
        bool_at(firmware_sdk_entry_of(sdk), "sdk"@),
        string_at(firmware_sdk_entry_of(sdk), "key"@) == sdk_key_of(sdk),
        string_at(firmware_sdk_entry_of(sdk), "version"@) == string_at(sdk, "version"@) + " SDK"@,
        string_array_at(firmware_sdk_entry_of(sdk), "deviceMap"@) == seq![sdk_device_name(sdk)],
        string_at(firmware_sdk_entry_of(sdk), "build"@) == string_at(sdk, "build"@),
        firmware_of(firmware_sdk_entry_of(sdk)).build == string_at(sdk, "build"@),
        firmware_of(firmware_sdk_entry_of(sdk)).version == string_at(sdk, "version"@) + " SDK"@,
        firmware_of(firmware_sdk_entry_of(sdk)).device_map == seq![sdk_device_name(sdk)],
{
    reveal_strlit("version");
    reveal_strlit("build");
    reveal_strlit("key");
    reveal_strlit("released");
    reveal_strlit("deviceMap");
    reveal_strlit("sdk");
    let v1 = with_field(sdk, "version"@, Json::Str(string_at(sdk, "version"@) + " SDK"@));
    let v2 = with_field(v1, "build"@, Json::Str(string_at(sdk, "build"@)));
    let v3 = with_field(v2, "key"@, Json::Str(sdk_key_of(sdk)));
    let v4 = with_field(v3, "released"@, Json::Str(string_at(sdk, "released"@)));
    let dm = Json::Array(seq![Json::Str(sdk_device_name(sdk))]);
    let v5 = with_field(v4, "deviceMap"@, dm);
    let v6 = with_field(v5, "sdk"@, Json::Bool(true));
    assert("key"@ != "sdk"@) by {
        assert("key"@[0] != "sdk"@[0]);
    }
    assert("version"@.len() == 7 && "build"@.len() == 5 && "key"@.len() == 3);
    assert("released"@.len() == 8 && "deviceMap"@.len() == 9 && "sdk"@.len() == 3);
    crate::json::law_set_field_reads_back(sdk, "version"@, Json::Str(string_at(sdk, "version"@) + " SDK"@), "build"@);
    crate::json::law_set_field_reads_back(v1, "build"@, Json::Str(string_at(sdk, "build"@)), "version"@);
    crate::json::law_set_field_reads_back(v2, "key"@, Json::Str(sdk_key_of(sdk)), "version"@);
    crate::json::law_set_field_reads_back(v3, "released"@, Json::Str(string_at(sdk, "released"@)), "version"@);
    crate::json::law_set_field_reads_back(v3, "released"@, Json::Str(string_at(sdk, "released"@)), "key"@);
    crate::json::law_set_field_reads_back(v4, "deviceMap"@, dm, "version"@);
    crate::json::law_set_field_reads_back(v4, "deviceMap"@, dm, "key"@);
    crate::json::law_set_field_reads_back(v5, "sdk"@, Json::Bool(true), "version"@);
    crate::json::law_set_field_reads_back(v5, "sdk"@, Json::Bool(true), "key"@);
    crate::json::law_set_field_reads_back(v5, "sdk"@, Json::Bool(true), "deviceMap"@);
    crate::json::law_set_field_reads_back(v2, "key"@, Json::Str(sdk_key_of(sdk)), "build"@);
    crate::json::law_set_field_reads_back(v3, "released"@, Json::Str(string_at(sdk, "released"@)), "build"@);
    crate::json::law_set_field_reads_back(v4, "deviceMap"@, dm, "build"@);
    crate::json::law_set_field_reads_back(v5, "sdk"@, Json::Bool(true), "build"@);
    assert(crate::json::texts_of(seq![Json::Str(sdk_device_name(sdk))]) =~= seq![sdk_device_name(sdk)]);
}

/// The SDK documents made from the objects of a list; other items are skipped.
pub open spec fn firmware_sdk_entries_in(items: Seq<Json>) -> Seq<Json>
    decreases items.len(),
{
    if items.len() == 0 {
        Seq::empty()
    } else if items.last() is Object {
        firmware_sdk_entries_in(items.drop_last()).push(firmware_sdk_entry_of(items.last()))
    } else {
        firmware_sdk_entries_in(items.drop_last())
    }
}

pub open spec fn firmware_sdk_entries_of(j: Json) -> Seq<Json> {
    match field(j, "sdks"@) {
        Json::Array(items) => firmware_sdk_entries_in(items),
        _ => Seq::empty(),
    }
}

pub open spec fn firmware_all_sdk_entries(docs: Seq<Json>) -> Seq<Json>
    decreases docs.len(),
{
    if docs.len() == 0 {
        Seq::empty()
    } else {
        firmware_all_sdk_entries(docs.drop_last()) + firmware_sdk_entries_of(docs.last())
    }
}

/// Every document that one firmware file stands for: the root, its duplicates, then the SDK
/// documents of each of these.
pub open spec fn firmware_documents(root: Json) -> Seq<Json> {
    let base = seq![root] + duplicates_of(root);
    base + firmware_all_sdk_entries(base)
}

/// The firmware document made from an SDK object.
pub fn firmware_sdk_entry(sdk: &JsonValue) -> (r: JsonValue)
    requires
        sdk@ is Object,
    ensures
        r@ == firmware_sdk_entry_of(sdk@),
{
    let mut version = get_string(sdk, "version");
    version.append(" SDK");
    let build = get_string(sdk, "build");
    let mut key = if has_member(sdk, "key") {
        get_string(sdk, "key")
    } else if has_member(sdk, "uniqueBuild") {
        get_string(sdk, "uniqueBuild")
    } else if has_member(sdk, "build") {
        get_string(sdk, "build")
    } else {
        get_string(sdk, "version")
    };
    key.append("-SDK");
    let released = get_string(sdk, "released");
    let mut device = get_string(sdk, "osStr");
    device.append(" SDK");
    if contains_text(device.as_str(), "OS X") {
        device = String::from_str("macOS SDK");
    }
    let mut devices: Vec<JsonValue> = Vec::new();
    devices.push(JsonValue::String(device));
    let devices = JsonValue::Array(devices);
    proof {
        lemma_array_model(devices->Array_0, 0);
        assert(devices@->Array_0 =~= seq![Json::Str(sdk_device_name(sdk@))]);
    }
    let e = sdk.clone_value();
    let e = set_field(e, "version", JsonValue::String(version));
    let e = set_field(e, "build", JsonValue::String(build));
    let e = set_field(e, "key", JsonValue::String(key));
    let e = set_field(e, "released", JsonValue::String(released));
    let e = set_field(e, "deviceMap", devices);
    set_field(e, "sdk", JsonValue::Bool(true))
}

fn firmware_sdk_entries(items: &Vec<JsonValue>) -> (r: Vec<JsonValue>)
    ensures
        models(r@) == firmware_sdk_entries_in(model(JsonValue::Array(*items))->Array_0),
{
    let ghost m = model(JsonValue::Array(*items))->Array_0;
    let mut out: Vec<JsonValue> = Vec::new();
    let mut i: usize = 0;
    assert(m.take(0) =~= Seq::<Json>::empty());
    assert(models(out@) =~= Seq::<Json>::empty());
    while i < items.len()
        invariant
            m == model(JsonValue::Array(*items))->Array_0,
            m.len() == items@.len(),
            i <= items@.len(),
            models(out@) == firmware_sdk_entries_in(m.take(i as int)),
        decreases items@.len() - i,
    {
        proof {
            lemma_array_model(*items, i as int);
        }
        assert(m.take(i + 1).drop_last() =~= m.take(i as int));
        assert(m.take(i + 1).last() == m[i as int]);
        if let JsonValue::Object(_) = &items[i] {
            let ghost before = out@;
            out.push(firmware_sdk_entry(&items[i]));
            proof {
                lemma_models_push(before, out@.last());
            }
            assert(models(out@) =~= firmware_sdk_entries_in(m.take(i + 1)));
        }
        i = i + 1;
    }
    assert(m.take(m.len() as int) =~= m);
    out
}

/// Every document that one firmware file stands for: the root, one copy per item of its
/// `createDuplicateEntries` array (with that item's members written over it), then the SDK
/// documents that the `sdks` array of each of these asks for.
pub fn firmware_documents_from_json(root: &JsonValue) -> (r: Vec<JsonValue>)
    ensures
        models(r@) == firmware_documents(root@),
{
    let mut docs: Vec<JsonValue> = Vec::new();
    docs.push(root.clone_value());
    assert(models(docs@) =~= seq![root@]);
    match find_field(root, "createDuplicateEntries") {
        Some(JsonValue::Array(items)) => {
            let ghost m = model(JsonValue::Array(*items))->Array_0;
            let mut i: usize = 0;
            while i < items.len()
                invariant
                    m == model(JsonValue::Array(*items))->Array_0,
                    m == field(root@, "createDuplicateEntries"@)->Array_0,
                    field(root@, "createDuplicateEntries"@) is Array,
                    root@ is Object,
                    m.len() == items@.len(),
                    i <= items@.len(),
                    models(docs@) == seq![root@] + m.take(i as int).map_values(
                        |e: Json| crate::os_file::duplicate_of(root@, e),
                    ),
                decreases items@.len() - i,
            {
                proof {
                    lemma_array_model(*items, i as int);
                }
                let ghost before = docs@;
                docs.push(duplicate_from(root, &items[i]));
                proof {
                    lemma_models_push(before, docs@.last());
                }
                assert(models(docs@) =~= seq![root@] + m.take(i + 1).map_values(
                    |e: Json| crate::os_file::duplicate_of(root@, e),
                ));
                i = i + 1;
            }
            assert(m.take(m.len() as int) =~= m);
        },
        _ => {},
    }
    assert(models(docs@) =~= seq![root@] + duplicates_of(root@));
    let ghost base = models(docs@);
    let n = docs.len();
    let mut extra: Vec<JsonValue> = Vec::new();
    let mut k: usize = 0;
    assert(base.take(0) =~= Seq::<Json>::empty());
    assert(models(extra@) =~= Seq::<Json>::empty());
    while k < n
        invariant
            n == docs@.len(),
            base == models(docs@),
            k <= n,
            models(extra@) == firmware_all_sdk_entries(base.take(k as int)),
        decreases n - k,
    {
        assert(base[k as int] == docs@[k as int]@);
        let found = match find_field(&docs[k], "sdks") {
            Some(JsonValue::Array(items)) => firmware_sdk_entries(items),
            _ => Vec::new(),
        };
        assert(models(found@) =~= firmware_sdk_entries_of(base[k as int]));
        let ghost before = extra@;
        let ghost found_before = found@;
        let mut found = found;
        extra.append(&mut found);
        proof {
            lemma_models_add(before, found_before);
        }
        assert(base.take(k + 1).drop_last() =~= base.take(k as int));
        k = k + 1;
    }
    assert(base.take(n as int) =~= base);
    let ghost docs_before = docs@;
    let ghost extra_before = extra@;
    docs.append(&mut extra);
    proof {
        lemma_models_add(docs_before, extra_before);
        assert(models(docs@) =~= firmware_documents(root@));
    }
    docs
}

/// Every document that a firmware file stands for can be read into an entry.
pub open spec fn firmware_documents_ok(root: Json) -> bool {
    forall|i: int|
        0 <= i < firmware_documents(root).len() ==> os_entry_shape_ok(
            #[trigger] firmware_documents(root)[i],
        ) && firmware_urls_ok(firmware_documents(root)[i])
}

/// The firmware entries that a firmware file stands for, one per document.
pub open spec fn firmwares_of(root: Json) -> Seq<FirmwareModel> {
    firmware_documents(root).map_values(|d: Json| firmware_of(d))
}

proof fn lemma_firmware_sdk_entries_len(items: Seq<Json>)
    ensures
        firmware_sdk_entries_in(items).len() == object_count(items),
    decreases items.len(),
{
    if items.len() > 0 {
        lemma_firmware_sdk_entries_len(items.drop_last());
    }
}

proof fn lemma_firmware_all_sdk_entries_len(docs: Seq<Json>)
    ensures
        firmware_all_sdk_entries(docs).len() == sdk_total(docs),
    decreases docs.len(),
{
    if docs.len() > 0 {
        lemma_firmware_all_sdk_entries_len(docs.drop_last());
        if let Json::Array(items) = field(docs.last(), "sdks"@) {
            lemma_firmware_sdk_entries_len(items);
        }
    }
}

/// A firmware file stands for one entry, one more per item of `createDuplicateEntries`, and
/// one more per SDK object in the `sdks` array of each of these.
pub proof fn law_firmware_count(root: Json)
    ensures
        firmwares_of(root).len() == 1 + duplicate_count(root) + sdk_total(
            seq![root] + duplicates_of(root),
        ),
{
    lemma_firmware_all_sdk_entries_len(seq![root] + duplicates_of(root));
}

proof fn lemma_firmware_sdk_entries_all_objects(items: Seq<Json>)
    requires
        forall|i: int| 0 <= i < items.len() ==> #[trigger] items[i] is Object,
    ensures
        firmware_sdk_entries_in(items) == items.map_values(|x: Json| firmware_sdk_entry_of(x)),
    decreases items.len(),
{
    if items.len() > 0 {
        let rest = items.drop_last();
        assert forall|i: int| 0 <= i < rest.len() implies #[trigger] rest[i] is Object by {
            assert(rest[i] == items[i]);
        }
        lemma_firmware_sdk_entries_all_objects(rest);
        assert(items[items.len() - 1] is Object);
        assert(firmware_sdk_entries_in(items) =~= items.map_values(|x: Json| firmware_sdk_entry_of(x)));
    } else {
        assert(firmware_sdk_entries_in(items) =~= items.map_values(|x: Json| firmware_sdk_entry_of(x)));
    }
}

/// A firmware file with no duplicates and an `sdks` array of objects stands for its own entry
/// followed by one entry per SDK, in order; each SDK entry has the SDK's own build, its
/// version followed by ` SDK`, and the SDK device as its one device.
pub proof fn law_sdk_entries_of_a_file(root: Json)
    requires
        !(field(root, "createDuplicateEntries"@) is Array),
        field(root, "sdks"@) is Array,
        forall|i: int|
            0 <= i < field(root, "sdks"@)->Array_0.len() ==> #[trigger] field(root, "sdks"@)->Array_0[i] is Object,
    ensures
        firmwares_of(root).len() == 1 + field(root, "sdks"@)->Array_0.len(),
        firmwares_of(root)[0] == firmware_of(root),
        forall|i: int|
            0 <= i < field(root, "sdks"@)->Array_0.len() ==> {
                let sdk = #[trigger] field(root, "sdks"@)->Array_0[i];
                &&& firmwares_of(root)[1 + i].build == string_at(sdk, "build"@)
                &&& firmwares_of(root)[1 + i].version == string_at(sdk, "version"@) + " SDK"@
                &&& firmwares_of(root)[1 + i].device_map == seq![sdk_device_name(sdk)]
            },
{
    let items = field(root, "sdks"@)->Array_0;
    assert(duplicates_of(root) =~= Seq::<Json>::empty());
    let base = seq![root] + duplicates_of(root);
    assert(base =~= seq![root]);
    lemma_firmware_sdk_entries_all_objects(items);
    assert(base.drop_last() =~= Seq::<Json>::empty());
    assert(firmware_all_sdk_entries(base.drop_last()) =~= Seq::<Json>::empty());
    assert(base.last() == root);
    assert(firmware_all_sdk_entries(base) =~= firmware_sdk_entries_of(root));
    let docs = firmware_documents(root);
    assert(docs =~= seq![root] + items.map_values(|x: Json| firmware_sdk_entry_of(x)));
    assert forall|i: int| 0 <= i < items.len() implies {
        let sdk = #[trigger] items[i];
        &&& firmwares_of(root)[1 + i].build == string_at(sdk, "build"@)
        &&& firmwares_of(root)[1 + i].version == string_at(sdk, "version"@) + " SDK"@
        &&& firmwares_of(root)[1 + i].device_map == seq![sdk_device_name(sdk)]
    } by {
        assert(docs[1 + i] == firmware_sdk_entry_of(items[i]));
        law_sdk_entry_reads(items[i]);
    }
}

/// Reads every firmware entry that a firmware file stands for: the entry itself, one per
/// item of `createDuplicateEntries`, and one per SDK object of each of these.
pub fn get_os_entry_vec_from_path(json: &JsonValue) -> (r: Vec<OsEntry>)
    requires
        firmware_documents_ok(json@),
    ensures
        r@.map_values(|e: OsEntry| e@) == firmwares_of(json@),
{
    let docs = firmware_documents_from_json(json);
    let ghost d = firmware_documents(json@);
    let mut out: Vec<OsEntry> = Vec::new();
    let mut i: usize = 0;
    while i < docs.len()
        invariant
            models(docs@) == d,
            d == firmware_documents(json@),
            firmware_documents_ok(json@),
            i <= docs@.len(),
            out@.len() == i,
            forall|j: int| 0 <= j < i ==> (#[trigger] out@[j])@ == firmware_of(d[j]),
        decreases docs@.len() - i,
    {
        assert(d[i as int] == docs@[i as int]@);
        out.push(create_os_entry_from_json(&docs[i]));
        i = i + 1;
    }
    assert(out@.map_values(|e: OsEntry| e@) =~= firmwares_of(json@));
    out
}

/// Whether both URLs of a firmware document can be formed.
pub fn firmware_urls_check(j: &JsonValue) -> (r: bool)
    ensures
        r == firmware_urls_ok(j@),
{
    let os_str = get_string(j, "osStr");
    let key = firmware_key(j, &os_str);
    let path = replace_char(key.as_str(), ';', '/');
    let mut web_path = path.clone();
    web_path.append(".html");
    let web_path = replace_char(web_path.as_str(), ' ', '-');
    let mut api_path = path;
    api_path.append(".json");
    join_url("https://appledb.dev/firmware/", web_path.as_str()).is_some() && join_url(
        "https://api.emiyl.com/firmware/",
        api_path.as_str(),
    ).is_some()
}

/// Reads every firmware entry that a firmware file stands for, as
/// `get_os_entry_vec_from_path` does; `None` where some document cannot be read.
pub fn try_get_os_entry_vec_from_path(json: &JsonValue) -> (r: Option<Vec<OsEntry>>)
    ensures
        r is Some <==> firmware_documents_ok(json@),
        r matches Some(v) ==> v@.map_values(|e: OsEntry| e@) == firmwares_of(json@),
{
    let docs = firmware_documents_from_json(json);
    let ghost d = firmware_documents(json@);
    let mut i: usize = 0;
    while i < docs.len()
        invariant
            models(docs@) == d,
            d == firmware_documents(json@),
            i <= docs@.len(),
            forall|j: int|
                0 <= j < i ==> os_entry_shape_ok(#[trigger] d[j]) && firmware_urls_ok(d[j]),
        decreases docs@.len() - i,
    {
        assert(d[i as int] == docs@[i as int]@);
        if !crate::os_file::os_entry_shape_check(&docs[i]) || !firmware_urls_check(&docs[i]) {
            return None;
        }
        i = i + 1;
    }
    Some(get_os_entry_vec_from_path(json))
}


/// A firmware entry to be written, with whether it is the first of its OS name, whose own
/// list files are then started afresh.
pub struct FirmwareOutput {
    pub output: OutputEntry<OsEntry>,
    pub new_os_str: bool,
}

/// The OS names of a list of entries.
pub open spec fn os_strs(entries: Seq<FirmwareModel>) -> Seq<Seq<char>> {
    entries.map_values(|e: FirmwareModel| e.os_str)
}

/// The list of OS names after the entries are seen in turn: each name not yet in the list
/// is added at its end.
pub open spec fn os_str_list_after(vals: Seq<Json>, entries: Seq<FirmwareModel>) -> Seq<Json> {
    add_texts(vals, os_strs(entries))
}

/// Only the first entry of an OS name in a file can be the first of its name: once an entry
/// of the name has been seen, the name is in the list when a later entry of it comes.
pub proof fn law_os_str_seen(vals: Seq<Json>, es: Seq<FirmwareModel>, i: int, j: int)
    requires
        0 <= i < j < es.len(),
        es[i].os_str == es[j].os_str,
    ensures
        os_str_list_after(vals, es.take(j)).contains(Json::Str(es[j].os_str)),
{
    let names = os_strs(es.take(j));
    crate::output::law_add_texts_contents(vals, names);
    assert(names[i] == es[i].os_str);
}

/// What `process_entry` gives for the `i`th firmware entry of a file.
pub open spec fn firmware_output_ok(
    o: FirmwareOutput,
    vals: Seq<Json>,
    es: Seq<FirmwareModel>,
    i: int,
) -> bool {
    &&& o.output.entry@ == es[i]
    &&& o.output.key@ == key_path(es[i].key)
    &&& o.new_os_str == !os_str_list_after(vals, es.take(i)).contains(Json::Str(es[i].os_str))
}

/// Reads the firmware entries of a file, each with its key as a path (`;` becoming `/`), and
/// keeps the list of OS names seen so far: each entry whose OS name is not yet in `value_vec`
/// adds it at the end and is marked as the first of its name.
pub fn process_entry(json_value: &JsonValue, value_vec: Vec<JsonValue>) -> (r: (
    Vec<FirmwareOutput>,
    Vec<JsonValue>,
))
    requires
        firmware_documents_ok(json_value@),
    ensures
        r.0@.len() == firmwares_of(json_value@).len(),
        forall|i: int|
            0 <= i < r.0@.len() ==> firmware_output_ok(
                #[trigger] r.0@[i],
                models(value_vec@),
                firmwares_of(json_value@),
                i,
            ),
        models(r.1@) == os_str_list_after(models(value_vec@), firmwares_of(json_value@)),
{
    let ghost vals = models(value_vec@);
    let ghost es = firmwares_of(json_value@);
    let mut entries = get_os_entry_vec_from_path(json_value);
    let ghost all = entries@;
    let mut value_vec = value_vec;
    let mut out: Vec<FirmwareOutput> = Vec::new();
    let n = entries.len();
    let mut i: usize = 0;
    assert(es.take(0) =~= Seq::<FirmwareModel>::empty());
    assert(all.skip(0) =~= all);
    while i < n
        invariant
            n == all.len(),
            all.map_values(|e: OsEntry| e@) == es,
            es == firmwares_of(json_value@),
            i <= n,
            entries@ == all.skip(i as int),
            out@.len() == i,
            forall|j: int| 0 <= j < i ==> firmware_output_ok(#[trigger] out@[j], vals, es, j),
            models(value_vec@) == os_str_list_after(vals, es.take(i as int)),
        decreases n - i,
    {
        let e = entries.remove(0);
        assert(entries@ =~= all.skip(i + 1));
        assert(e@ == es[i as int]);
        let key = replace_char(e.key.as_str(), ';', '/');
        let seen = crate::output::holds_text(&value_vec, &e.os_str);
        let ghost before = models(value_vec@);
        add_text(&mut value_vec, &e.os_str);
        proof {
            let names = os_strs(es.take(i + 1));
            assert(names.drop_last() =~= os_strs(es.take(i as int)));
            assert(names.last() == e.os_str@);
            crate::output::lemma_add_texts_push(vals, os_strs(es.take(i as int)), e.os_str@);
            assert(names =~= os_strs(es.take(i as int)).push(e.os_str@));
        }
        out.push(FirmwareOutput { output: OutputEntry { entry: e, key }, new_os_str: !seen });
        i = i + 1;
    }
    assert(es.take(n as int) =~= es);
    (out, value_vec)
}

/// As `process_entry`, where every document of the file can be read; `None` otherwise.
pub fn try_process_entry(json_value: &JsonValue, value_vec: Vec<JsonValue>) -> (r: Option<
    (Vec<FirmwareOutput>, Vec<JsonValue>),
>)
    ensures
        r is Some <==> firmware_documents_ok(json_value@),
        r matches Some(p) ==> {
            &&& p.0@.len() == firmwares_of(json_value@).len()
            &&& forall|i: int|
                0 <= i < p.0@.len() ==> firmware_output_ok(
                    #[trigger] p.0@[i],
                    models(value_vec@),
                    firmwares_of(json_value@),
                    i,
                )
            &&& models(p.1@) == os_str_list_after(models(value_vec@), firmwares_of(json_value@))
        },
{
    match try_get_os_entry_vec_from_path(json_value) {
        Some(_) => Some(process_entry(json_value, value_vec)),
        None => None,
    }
}

} // verus!
