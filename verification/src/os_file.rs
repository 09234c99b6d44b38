use vstd::prelude::*;
use crate::json::{
    json_wf, bool_at, field, field_keys, find_field, get_bool, get_object_field_list, get_string,
    get_string_array, get_u64, has_field, has_member, lemma_array_model, model, models,
    lemma_models_add, lemma_models_push, set_field, string_array_at, string_array_check,
    string_array_ok, string_at, texts_of, u64_at, with_field, Json,
    JsonValue,
};
use crate::text::{
    concat3, concat4, contains_seq, contains_text, map_char, replace_char, replace_text, replaced,
};
use crate::web_url::{join_url, url_join};
use crate::pairs::{insert_pair, law_pairs_insert, pairs_have, pairs_insert, pairs_sorted};

verus! {

/// How an entry's web image is aligned.
#[derive(Clone, Copy, PartialEq, Eq, Debug, Structural)]
pub enum OsEntryAppleDBWebImageAlign {
    Left,
    Right,
}

/// The image shown for a firmware on appledb.dev.
pub struct OsEntryAppleDBWebImage {
    pub id: String,
    pub align: OsEntryAppleDBWebImageAlign,
}

/// A download link of a firmware source.
pub struct OsEntrySourceLink {
    pub url: String,
    pub active: bool,
}

/// Windows Update identifiers of a firmware source.
pub struct OsEntrySourceWindowsUpdateDetails {
    pub update_id: String,
    pub revision_id: String,
}

/// One place a firmware can be had from.
pub struct OsEntrySource {
    pub kind: String,
    pub prerequisite_build: Vec<String>,
    pub device_map: Vec<String>,
    pub os_map: Vec<String>,
    pub windows_update_details: OsEntrySourceWindowsUpdateDetails,
    pub links: Vec<OsEntrySourceLink>,
    /// Hash name and value pairs, a map kept sorted by name (see `pairs`).
    pub hashes: Vec<(String, String)>,
    pub skip_update_links: bool,
    pub size: u64,
}

/// A firmware (operating system release) entry.
pub struct OsEntry {
    pub os_str: String,
    pub version: String,
    pub safari_version: Vec<String>,
    pub build: String,
    pub unique_build: String,
    pub key: String,
    pub embedded_os_build: String,
    pub bridge_os_build: String,
    pub build_train: String,
    pub released: String,
    pub rc: bool,
    pub beta: bool,
    pub rsr: bool,
    pub internal: bool,
    pub hide_from_latest_versions: bool,
    pub preinstalled: Vec<String>,
    pub notes: String,
    pub release_notes: String,
    pub security_notes: String,
    /// Device and IPSW pairs, a map kept sorted by device (see `pairs`).
    pub ipd: Vec<(String, String)>,
    pub appledb_web_image: OsEntryAppleDBWebImage,
    pub appledb_web_url: String,
    pub appledb_api_url: String,
    pub device_map: Vec<String>,
    pub os_map: Vec<String>,
    pub sources: Vec<OsEntrySource>,
}

pub struct WebImageModel {
    pub id: Seq<char>,
    pub align: OsEntryAppleDBWebImageAlign,
}

pub struct LinkModel {
    pub url: Seq<char>,
    pub active: bool,
}

pub struct UpdateDetailsModel {
    pub update_id: Seq<char>,
    pub revision_id: Seq<char>,
}

pub struct SourceModel {
    pub kind: Seq<char>,
    pub prerequisite_build: Seq<Seq<char>>,
    pub device_map: Seq<Seq<char>>,
    pub os_map: Seq<Seq<char>>,
    pub windows_update_details: UpdateDetailsModel,
    pub links: Seq<LinkModel>,
    pub hashes: Seq<(Seq<char>, Seq<char>)>,
    pub skip_update_links: bool,
    pub size: u64,
}

pub struct OsEntryModel {
    pub os_str: Seq<char>,
    pub version: Seq<char>,
    pub safari_version: Seq<Seq<char>>,
    pub build: Seq<char>,
    pub unique_build: Seq<char>,
    pub key: Seq<char>,
    pub embedded_os_build: Seq<char>,
    pub bridge_os_build: Seq<char>,
    pub build_train: Seq<char>,
    pub released: Seq<char>,
    pub rc: bool,
    pub beta: bool,
    pub rsr: bool,
    pub internal: bool,
    pub hide_from_latest_versions: bool,
    pub preinstalled: Seq<Seq<char>>,
    pub notes: Seq<char>,
    pub release_notes: Seq<char>,
    pub security_notes: Seq<char>,
    pub ipd: Seq<(Seq<char>, Seq<char>)>,
    pub appledb_web_image: WebImageModel,
    pub appledb_web_url: Seq<char>,
    pub appledb_api_url: Seq<char>,
    pub device_map: Seq<Seq<char>>,
    pub os_map: Seq<Seq<char>>,
    pub sources: Seq<SourceModel>,
}

impl View for OsEntryAppleDBWebImage {
    type V = WebImageModel;

    open spec fn view(&self) -> WebImageModel {
        WebImageModel { id: self.id@, align: self.align }
    }
}

impl View for OsEntrySourceLink {
    type V = LinkModel;

    open spec fn view(&self) -> LinkModel {
        LinkModel { url: self.url@, active: self.active }
    }
}

impl View for OsEntrySourceWindowsUpdateDetails {
    type V = UpdateDetailsModel;

    open spec fn view(&self) -> UpdateDetailsModel {
        UpdateDetailsModel { update_id: self.update_id@, revision_id: self.revision_id@ }
    }
}

impl View for OsEntrySource {
    type V = SourceModel;

    open spec fn view(&self) -> SourceModel {
        SourceModel {
            kind: self.kind@,
            prerequisite_build: self.prerequisite_build.deep_view(),
            device_map: self.device_map.deep_view(),
            os_map: self.os_map.deep_view(),
            windows_update_details: self.windows_update_details@,
            links: self.links@.map_values(|l: OsEntrySourceLink| l@),
            hashes: self.hashes.deep_view(),
            skip_update_links: self.skip_update_links,
            size: self.size,
        }
    }
}

impl View for OsEntry {
    type V = OsEntryModel;

    open spec fn view(&self) -> OsEntryModel {
        OsEntryModel {
            os_str: self.os_str@,
            version: self.version@,
            safari_version: self.safari_version.deep_view(),
            build: self.build@,
            unique_build: self.unique_build@,
            key: self.key@,
            embedded_os_build: self.embedded_os_build@,
            bridge_os_build: self.bridge_os_build@,
            build_train: self.build_train@,
            released: self.released@,
            rc: self.rc,
            beta: self.beta,
            rsr: self.rsr,
            internal: self.internal,
            hide_from_latest_versions: self.hide_from_latest_versions,
            preinstalled: self.preinstalled.deep_view(),
            notes: self.notes@,
            release_notes: self.release_notes@,
            security_notes: self.security_notes@,
            ipd: self.ipd.deep_view(),
            appledb_web_image: self.appledb_web_image@,
            appledb_web_url: self.appledb_web_url@,
            appledb_api_url: self.appledb_api_url@,
            device_map: self.device_map.deep_view(),
            os_map: self.os_map.deep_view(),
            sources: self.sources@.map_values(|s: OsEntrySource| s@),
        }
    }
}

/// The map built by inserting, for each name in `keys` in turn, the name with the text of
/// that member of `obj`.
pub open spec fn pairs_built(obj: Json, keys: Seq<Seq<char>>) -> Seq<(Seq<char>, Seq<char>)>
    decreases keys.len(),
{
    if keys.len() == 0 {
        Seq::empty()
    } else {
        pairs_insert(pairs_built(obj, keys.drop_last()), keys.last(), string_at(obj, keys.last()))
    }
}

/// The member names of an object, each with the text of its string value, as a map sorted by
/// name (a `BTreeMap` filled member by member).
pub open spec fn string_pairs_of(obj: Json) -> Seq<(Seq<char>, Seq<char>)> {
    pairs_built(obj, field_keys(obj))
}

proof fn lemma_pairs_built(obj: Json, keys: Seq<Seq<char>>)
    ensures
        pairs_sorted(pairs_built(obj, keys)),
        forall|k: Seq<char>| pairs_have(pairs_built(obj, keys), k) <==> keys.contains(k),
        forall|p: (Seq<char>, Seq<char>)|
            pairs_built(obj, keys).contains(p) ==> p.1 == string_at(obj, p.0),
    decreases keys.len(),
{
    if keys.len() > 0 {
        let rest = keys.drop_last();
        let prev = pairs_built(obj, rest);
        let k = keys.last();
        let v = string_at(obj, k);
        lemma_pairs_built(obj, rest);
        law_pairs_insert(prev, k, v);
        let r = pairs_built(obj, keys);
        assert forall|x: Seq<char>| pairs_have(r, x) <==> keys.contains(x) by {
            if x == k {
                assert(keys[keys.len() - 1] == k);
            } else {
                if rest.contains(x) {
                    let w = choose|w: int| 0 <= w < rest.len() && rest[w] == x;
                    assert(keys[w] == x);
                }
                if keys.contains(x) {
                    let w = choose|w: int| 0 <= w < keys.len() && keys[w] == x;
                    assert(rest[w] == x);
                }
            }
        }
        assert forall|p: (Seq<char>, Seq<char>)| r.contains(p) implies p.1 == string_at(obj, p.0) by {
            if p != (k, v) {
                assert(prev.contains(p));
            }
        }
    } else {
        assert forall|k: Seq<char>| pairs_have(pairs_built(obj, keys), k) <==> keys.contains(k) by {}
    }
}

/// Like the `BTreeMap` it stands for, the map of an object's string members is sorted by name,
/// so no name occurs twice; it holds exactly the object's member names, each with the text
/// of that member.
pub proof fn law_string_pairs_map(obj: Json)
    ensures
        pairs_sorted(string_pairs_of(obj)),
        forall|k: Seq<char>| pairs_have(string_pairs_of(obj), k) <==> has_field(obj, k),
        forall|p: (Seq<char>, Seq<char>)|
            string_pairs_of(obj).contains(p) ==> p.1 == string_at(obj, p.0),
{
    lemma_pairs_built(obj, field_keys(obj));
    assert forall|k: Seq<char>| field_keys(obj).contains(k) <==> has_field(obj, k) by {
        if let Json::Object(e) = obj {
            if has_field(obj, k) {
                let i = choose|i: int| 0 <= i < e.len() && #[trigger] e[i].0 == k;
                assert(field_keys(obj)[i] == k);
            }
            if field_keys(obj).contains(k) {
                let i = choose|i: int| 0 <= i < field_keys(obj).len() && field_keys(obj)[i] == k;
                assert(e[i].0 == k);
            }
        }
    }
}

/// A source document can be read: its device and OS maps and its links are arrays where present.
pub open spec fn source_ok(s: Json) -> bool {
    &&& string_array_ok(s, "deviceMap"@)
    &&& string_array_ok(s, "osMap"@)
    &&& string_array_ok(s, "links"@)
}

pub open spec fn link_of(l: Json) -> LinkModel {
    LinkModel { url: string_at(l, "url"@), active: bool_at(l, "active"@) }
}

pub open spec fn prerequisite_build_of(s: Json) -> Seq<Seq<char>> {
    match field(s, "prerequisiteBuild"@) {
        Json::Array(items) => texts_of(items),
        Json::Str(t) => seq![t],
        _ => Seq::empty(),
    }
}

pub open spec fn links_of(s: Json) -> Seq<LinkModel> {
    match field(s, "links"@) {
        Json::Array(items) => items.map_values(|l: Json| link_of(l)),
        _ => Seq::empty(),
    }
}

/// The source that a source document describes.
pub open spec fn source_of(s: Json) -> SourceModel {
    SourceModel {
        kind: string_at(s, "type"@),
        prerequisite_build: prerequisite_build_of(s),
        device_map: string_array_at(s, "deviceMap"@),
        os_map: string_array_at(s, "osMap"@),
        windows_update_details: UpdateDetailsModel {
            update_id: string_at(field(s, "windowsUpdateDetails"@), "updateId"@),
            revision_id: string_at(field(s, "windowsUpdateDetails"@), "revisionId"@),
        },
        links: links_of(s),
        hashes: string_pairs_of(field(s, "hashes"@)),
        skip_update_links: bool_at(s, "skipUpdateLinks"@),
        size: u64_at(s, "size"@),
    }
}

/// The member names of an object paired with the text of their values, as a list.
pub fn get_string_pairs(obj: &JsonValue) -> (r: Vec<(String, String)>)
    ensures
        r.deep_view() == string_pairs_of(obj@),
{
    let keys = get_object_field_list(obj);
    let ghost ks = field_keys(obj@);
    let mut out: Vec<(String, String)> = Vec::new();
    let mut i: usize = 0;
    assert(out.deep_view() =~= pairs_built(obj@, ks.take(0)));
    while i < keys.len()
        invariant
            keys.deep_view() == ks,
            ks == field_keys(obj@),
            i <= keys@.len(),
            out.deep_view() == pairs_built(obj@, ks.take(i as int)),
        decreases keys@.len() - i,
    {
        let k = keys[i].clone();
        let v = get_string(obj, keys[i].as_str());
        insert_pair(&mut out, k, v);
        assert(ks.take(i + 1).drop_last() =~= ks.take(i as int));
        assert(ks.take(i + 1).last() == keys@[i as int]@);
        i = i + 1;
    }
    assert(ks.take(ks.len() as int) =~= ks);
    out
}

fn create_link(l: &JsonValue) -> (r: OsEntrySourceLink)
    ensures
        r@ == link_of(l@),
{
    OsEntrySourceLink { url: get_string(l, "url"), active: get_bool(l, "active") }
}

/// Reads a firmware source from its document.
pub fn create_source(s: &JsonValue) -> (r: OsEntrySource)
    requires
        source_ok(s@),
    ensures
        r@ == source_of(s@),
{
    let kind = get_string(s, "type");
    let prerequisite_build = match find_field(s, "prerequisiteBuild") {
        Some(JsonValue::Array(_)) => get_string_array(s, "prerequisiteBuild"),
        Some(JsonValue::String(_)) => {
            let mut v: Vec<String> = Vec::new();
            v.push(get_string(s, "prerequisiteBuild"));
            v
        },
        _ => Vec::new(),
    };
    assert(prerequisite_build.deep_view() =~= prerequisite_build_of(s@));
    let device_map = get_string_array(s, "deviceMap");
    let os_map = get_string_array(s, "osMap");
    let windows_update_details = match find_field(s, "windowsUpdateDetails") {
        Some(w) => OsEntrySourceWindowsUpdateDetails {
            update_id: get_string(w, "updateId"),
            revision_id: get_string(w, "revisionId"),
        },
        None => OsEntrySourceWindowsUpdateDetails {
            update_id: String::new(),
            revision_id: String::new(),
        },
    };
    let mut links: Vec<OsEntrySourceLink> = Vec::new();
    match find_field(s, "links") {
        Some(JsonValue::Array(items)) => {
            let ghost m = model(JsonValue::Array(*items))->Array_0;
            let mut i: usize = 0;
            while i < items.len()
                invariant
                    m == model(JsonValue::Array(*items))->Array_0,
                    m.len() == items@.len(),
                    i <= items@.len(),
                    links@.len() == i,
                    forall|j: int| 0 <= j < i ==> (#[trigger] links@[j])@ == link_of(m[j]),
                decreases items@.len() - i,
            {
                proof {
                    lemma_array_model(*items, i as int);
                }
                links.push(create_link(&items[i]));
                i = i + 1;
            }
        },
        _ => {},
    }
    assert(links@.map_values(|l: OsEntrySourceLink| l@) =~= links_of(s@));
    let hashes = match find_field(s, "hashes") {
        Some(h) => get_string_pairs(h),
        None => Vec::new(),
    };
    assert(hashes.deep_view() =~= string_pairs_of(field(s@, "hashes"@)));
    let skip_update_links = get_bool(s, "skipUpdateLinks");
    let size = get_u64(s, "size");
    OsEntrySource {
        kind,
        prerequisite_build,
        device_map,
        os_map,
        windows_update_details,
        links,
        hashes,
        skip_update_links,
        size,
    }
}


/// The version: the `version` member, or the `build` member where there is no `version`.
pub open spec fn version_of(j: Json) -> Seq<char> {
    if has_field(j, "version"@) {
        string_at(j, "version"@)
    } else {
        string_at(j, "build"@)
    }
}

/// The unique build: the `uniqueBuild` member, else the build where there is a `build` member,
/// else the version.
pub open spec fn unique_build_of(j: Json) -> Seq<char> {
    if has_field(j, "uniqueBuild"@) {
        string_at(j, "uniqueBuild"@)
    } else if has_field(j, "build"@) {
        string_at(j, "build"@)
    } else {
        version_of(j)
    }
}

/// The key: the `key` member where there is one, else `<osStr>;<build>` (the `version`
/// member taking the place of a missing `build`).
pub open spec fn key_of(j: Json) -> Seq<char> {
    if has_field(j, "key"@) {
        string_at(j, "key"@)
    } else {
        string_at(j, "osStr"@) + ";"@ + (if has_field(j, "build"@) {
            string_at(j, "build"@)
        } else {
            string_at(j, "version"@)
        })
    }
}

/// The release date: the `released` member, or 1970-01-01 where there is none.
pub open spec fn released_of(j: Json) -> Seq<char> {
    if has_field(j, "released"@) {
        string_at(j, "released"@)
    } else {
        "1970-01-01"@
    }
}

/// A list of Safari versions, read from an array or from a single string.
pub open spec fn safari_version_of(j: Json) -> Seq<Seq<char>> {
    match field(j, "safariVersion"@) {
        Json::Array(items) => texts_of(items),
        Json::Str(t) => seq![t],
        _ => Seq::empty(),
    }
}

/// The devices a firmware comes installed on: `true` stands for the whole device map,
/// an array lists them, anything else gives none.
pub open spec fn preinstalled_of(j: Json) -> Seq<Seq<char>> {
    if !has_field(j, "preinstalled"@) {
        Seq::empty()
    } else {
        match field(j, "preinstalled"@) {
            Json::Bool(b) => if b {
                string_array_at(j, "deviceMap"@)
            } else {
                Seq::empty()
            },
            Json::Array(items) => texts_of(items),
            _ => Seq::empty(),
        }
    }
}

/// The web image: its id, aligned right where `align` reads `right` and left otherwise.
pub open spec fn web_image_of(j: Json) -> WebImageModel {
    if !has_field(j, "appledbWebImage"@) {
        WebImageModel { id: Seq::empty(), align: OsEntryAppleDBWebImageAlign::Left }
    } else {
        let w = field(j, "appledbWebImage"@);
        WebImageModel {
            id: string_at(w, "id"@),
            align: if string_at(w, "align"@) == "right"@ {
                OsEntryAppleDBWebImageAlign::Right
            } else {
                OsEntryAppleDBWebImageAlign::Left
            },
        }
    }
}

/// The path of the entry's page, relative to the web base: `<osStr>/<uniqueBuild>.html`
/// with spaces turned into dashes.
pub open spec fn web_path_of(j: Json) -> Seq<char> {
    map_char(string_at(j, "osStr"@) + "/"@ + unique_build_of(j) + ".html"@, ' ', '-')
}

/// The path of the entry's API document: `<osStr>/<uniqueBuild>.json` with spaces turned into dashes.
pub open spec fn api_path_of(j: Json) -> Seq<char> {
    map_char(string_at(j, "osStr"@) + "/"@ + unique_build_of(j) + ".json"@, ' ', '-')
}

pub open spec fn sources_of(j: Json) -> Seq<SourceModel> {
    match field(j, "sources"@) {
        Json::Array(items) => items.map_values(|x: Json| source_of(x)),
        _ => Seq::empty(),
    }
}

/// The document can be read without a panic: device and OS maps are arrays where present,
/// and so are the sources, each of which can be read.
pub open spec fn os_entry_shape_ok(j: Json) -> bool {
    &&& string_array_ok(j, "deviceMap"@)
    &&& string_array_ok(j, "osMap"@)
    &&& string_array_ok(j, "sources"@)
    &&& field(j, "sources"@) matches Json::Array(items) ==> forall|i: int|
        0 <= i < items.len() ==> source_ok(#[trigger] items[i])
}

/// Both URLs of the entry can be formed.
pub open spec fn os_entry_urls_ok(j: Json) -> bool {
    &&& url_join("https://apiappledb.dev/firmware/"@, web_path_of(j)) is Some
    &&& url_join("https://api.appledb.dev/os/"@, api_path_of(j)) is Some
}

/// The firmware entry that a document describes.
pub open spec fn os_entry_of(j: Json) -> OsEntryModel {
    OsEntryModel {
        os_str: string_at(j, "osStr"@),
        version: version_of(j),
        safari_version: safari_version_of(j),
        build: string_at(j, "build"@),
        unique_build: unique_build_of(j),
        key: key_of(j),
        embedded_os_build: string_at(j, "embeddedOSBuild"@),
        bridge_os_build: string_at(j, "bridgeOSBuild"@),
        build_train: string_at(j, "buildTrain"@),
        released: released_of(j),
        rc: bool_at(j, "rc"@),
        beta: bool_at(j, "beta"@),
        rsr: bool_at(j, "rsr"@),
        internal: bool_at(j, "internal"@),
        hide_from_latest_versions: bool_at(j, "hideFromLatestVersions"@),
        preinstalled: preinstalled_of(j),
        notes: string_at(j, "notes"@),
        release_notes: string_at(j, "releaseNotes"@),
        security_notes: string_at(j, "securityNotes"@),
        ipd: string_pairs_of(field(j, "ipd"@)),
        appledb_web_image: web_image_of(j),
        appledb_web_url: url_join("https://apiappledb.dev/firmware/"@, web_path_of(j))->0,
        appledb_api_url: replaced(
            url_join("https://api.appledb.dev/os/"@, api_path_of(j))->0,
            "https://api.appledb.dev"@,
            Seq::empty(),
        ),
        device_map: string_array_at(j, "deviceMap"@),
        os_map: string_array_at(j, "osMap"@),
        sources: sources_of(j),
    }
}

fn create_web_image(json: &JsonValue) -> (r: OsEntryAppleDBWebImage)
    ensures
        r@ == web_image_of(json@),
{
    match find_field(json, "appledbWebImage") {
        None => OsEntryAppleDBWebImage {
            id: String::new(),
            align: OsEntryAppleDBWebImageAlign::Left,
        },
        Some(w) => {
            let align_text = get_string(w, "align");
            let left = String::from_str("left");
            let right = String::from_str("right");
            let align = if align_text == left {
                OsEntryAppleDBWebImageAlign::Left
            } else if align_text == right {
                OsEntryAppleDBWebImageAlign::Right
            } else {
                OsEntryAppleDBWebImageAlign::Left
            };
            proof {
                reveal_strlit("left");
                reveal_strlit("right");
                assert("left"@.len() == 4);
                assert("right"@.len() == 5);
                assert("left"@ != "right"@);
                assert((align == OsEntryAppleDBWebImageAlign::Right) == (align_text@ == "right"@));
            }
            let id = get_string(w, "id");
            let r = OsEntryAppleDBWebImage { id, align };
            r
        },
    }
}

fn create_sources(json: &JsonValue) -> (r: Vec<OsEntrySource>)
    requires
        os_entry_shape_ok(json@),
    ensures
        r@.map_values(|s: OsEntrySource| s@) == sources_of(json@),
{
    let mut out: Vec<OsEntrySource> = Vec::new();
    match find_field(json, "sources") {
        Some(JsonValue::Array(items)) => {
            let ghost m = model(JsonValue::Array(*items))->Array_0;
            let mut i: usize = 0;
            while i < items.len()
                invariant
                    m == model(JsonValue::Array(*items))->Array_0,
                    m.len() == items@.len(),
                    forall|k: int| 0 <= k < m.len() ==> source_ok(#[trigger] m[k]),
                    i <= items@.len(),
                    out@.len() == i,
                    forall|j: int| 0 <= j < i ==> (#[trigger] out@[j])@ == source_of(m[j]),
                decreases items@.len() - i,
            {
                proof {
                    lemma_array_model(*items, i as int);
                }
                out.push(create_source(&items[i]));
                i = i + 1;
            }
        },
        _ => {},
    }
    assert(out@.map_values(|s: OsEntrySource| s@) =~= sources_of(json@));
    out
}

/// Reads a firmware entry from its document.
pub fn create_os_entry_from_json(json: &JsonValue) -> (r: OsEntry)
    requires
        os_entry_shape_ok(json@),
        os_entry_urls_ok(json@),
    ensures
        r@ == os_entry_of(json@),
{
    let os_str = get_string(json, "osStr");
    let version = if has_member(json, "version") {
        get_string(json, "version")
    } else {
        get_string(json, "build")
    };
    let safari_version = match find_field(json, "safariVersion") {
        Some(JsonValue::Array(_)) => get_string_array(json, "safariVersion"),
        Some(JsonValue::String(_)) => {
            let mut v: Vec<String> = Vec::new();
            v.push(get_string(json, "safariVersion"));
            v
        },
        _ => Vec::new(),
    };
    assert(safari_version.deep_view() =~= safari_version_of(json@));
    let build = get_string(json, "build");
    let unique_build = if has_member(json, "uniqueBuild") {
        get_string(json, "uniqueBuild")
    } else if has_member(json, "build") {
        build.clone()
    } else {
        version.clone()
    };
    let key = if has_member(json, "key") {
        get_string(json, "key")
    } else {
        let second = if has_member(json, "build") {
            build.clone()
        } else {
            get_string(json, "version")
        };
        concat3(os_str.as_str(), ";", second.as_str())
    };
    let embedded_os_build = get_string(json, "embeddedOSBuild");
    let bridge_os_build = get_string(json, "bridgeOSBuild");
    let build_train = get_string(json, "buildTrain");
    let released = if has_member(json, "released") {
        get_string(json, "released")
    } else {
        String::from_str("1970-01-01")
    };
    let preinstalled = if !has_member(json, "preinstalled") {
        Vec::new()
    } else {
        match find_field(json, "preinstalled") {
            Some(JsonValue::Bool(b)) => if *b {
                get_string_array(json, "deviceMap")
            } else {
                Vec::new()
            },
            Some(JsonValue::Array(_)) => get_string_array(json, "preinstalled"),
            _ => Vec::new(),
        }
    };
    assert(preinstalled.deep_view() =~= preinstalled_of(json@));
    let ipd = match find_field(json, "ipd") {
        Some(v) => get_string_pairs(v),
        None => Vec::new(),
    };
    assert(ipd.deep_view() =~= string_pairs_of(field(json@, "ipd"@)));
    let web_path = replace_char(
        concat4(os_str.as_str(), "/", unique_build.as_str(), ".html").as_str(),
        ' ',
        '-',
    );
    let appledb_web_url = match join_url("https://apiappledb.dev/firmware/", web_path.as_str()) {
        Some(u) => u,
        None => String::new(),
    };
    let api_path = replace_char(
        concat4(os_str.as_str(), "/", unique_build.as_str(), ".json").as_str(),
        ' ',
        '-',
    );
    let api_url = match join_url("https://api.appledb.dev/os/", api_path.as_str()) {
        Some(u) => u,
        None => String::new(),
    };
    proof {
        reveal_strlit("https://api.appledb.dev");
    }
    let appledb_api_url = replace_text(api_url.as_str(), "https://api.appledb.dev", "");
    proof {
        reveal_strlit("");
        assert(""@ =~= Seq::<char>::empty());
    }
    let r = OsEntry {
        os_str,
        version,
        safari_version,
        build,
        unique_build,
        key,
        embedded_os_build,
        bridge_os_build,
        build_train,
        released,
        rc: get_bool(json, "rc"),
        beta: get_bool(json, "beta"),
        rsr: get_bool(json, "rsr"),
        internal: get_bool(json, "internal"),
        hide_from_latest_versions: get_bool(json, "hideFromLatestVersions"),
        preinstalled,
        notes: get_string(json, "notes"),
        release_notes: get_string(json, "releaseNotes"),
        security_notes: get_string(json, "securityNotes"),
        ipd,
        appledb_web_image: create_web_image(json),
        appledb_web_url,
        appledb_api_url,
        device_map: get_string_array(json, "deviceMap"),
        os_map: get_string_array(json, "osMap"),
        sources: create_sources(json),
    };
    r
}


/// `base` with each member named in `keys`, in turn, set to that member of `src`.
pub open spec fn apply_fields(base: Json, src: Json, keys: Seq<Seq<char>>) -> Json
    decreases keys.len(),
{
    if keys.len() == 0 {
        base
    } else {
        with_field(apply_fields(base, src, keys.drop_last()), keys.last(), field(src, keys.last()))
    }
}

/// A copy of `root` with every member of `overrides` written over it.
pub open spec fn duplicate_of(root: Json, overrides: Json) -> Json {
    apply_fields(root, overrides, field_keys(overrides))
}

/// The documents that `createDuplicateEntries` asks for: one copy of the root per item,
/// with that item's members written over it.
pub open spec fn duplicates_of(root: Json) -> Seq<Json> {
    match field(root, "createDuplicateEntries"@) {
        Json::Array(items) => items.map_values(|e: Json| duplicate_of(root, e)),
        _ => Seq::empty(),
    }
}

/// The device map of an SDK document: `<osStr>-SDK`, or `macOS-SDK` where that holds "OS X".
pub open spec fn sdk_device_of(sdk: Json) -> Seq<char> {
    let t = string_at(sdk, "osStr"@) + "-SDK"@;
    if contains_seq(t, "OS X"@) {
        "macOS-SDK"@
    } else {
        t
    }
}

/// The firmware document made from an SDK object.
pub open spec fn sdk_entry_of(sdk: Json) -> Json {
    let v1 = with_field(sdk, "version"@, Json::Str(string_at(sdk, "version"@) + "-SDK"@));
    let v2 = with_field(v1, "uniqueBuild"@, Json::Str(string_at(sdk, "build"@) + "-SDK"@));
    let v3 = with_field(v2, "released"@, Json::Str(string_at(sdk, "released"@)));
    let v4 = with_field(v3, "deviceMap"@, Json::Array(seq![Json::Str(sdk_device_of(sdk))]));
    with_field(v4, "sdk"@, Json::Bool(true))
}

/// The SDK documents made from the objects of a list; other items are skipped.
pub open spec fn sdk_entries_in(items: Seq<Json>) -> Seq<Json>
    decreases items.len(),
{
    if items.len() == 0 {
        Seq::empty()
    } else if items.last() is Object {
        sdk_entries_in(items.drop_last()).push(sdk_entry_of(items.last()))
    } else {
        sdk_entries_in(items.drop_last())
    }
}

/// The SDK documents that the `sdks` array of a document asks for.
pub open spec fn sdk_entries_of(j: Json) -> Seq<Json> {
    match field(j, "sdks"@) {
        Json::Array(items) => sdk_entries_in(items),
        _ => Seq::empty(),
    }
}

/// The SDK documents of each document of a list, in order.
pub open spec fn all_sdk_entries(docs: Seq<Json>) -> Seq<Json>
    decreases docs.len(),
{
    if docs.len() == 0 {
        Seq::empty()
    } else {
        all_sdk_entries(docs.drop_last()) + sdk_entries_of(docs.last())
    }
}

/// Every document that one firmware file stands for: the root, its duplicates, then the SDK
/// documents of each of these.
pub open spec fn os_documents(root: Json) -> Seq<Json> {
    let base = seq![root] + duplicates_of(root);
    base + all_sdk_entries(base)
}

proof fn lemma_apply_fields_object(base: Json, src: Json, keys: Seq<Seq<char>>)
    requires
        base is Object,
    ensures
        apply_fields(base, src, keys) is Object,
    decreases keys.len(),
{
    if keys.len() > 0 {
        lemma_apply_fields_object(base, src, keys.drop_last());
    }
}

proof fn lemma_apply_fields_reads(base: Json, src: Json, keys: Seq<Seq<char>>, k: Seq<char>)
    requires
        base is Object,
    ensures
        keys.contains(k) ==> field(apply_fields(base, src, keys), k) == field(src, k),
        !keys.contains(k) ==> field(apply_fields(base, src, keys), k) == field(base, k),
    decreases keys.len(),
{
    if keys.len() > 0 {
        let rest = keys.drop_last();
        lemma_apply_fields_reads(base, src, rest, k);
        lemma_apply_fields_object(base, src, rest);
        let prev = apply_fields(base, src, rest);
        if keys.last() == k {
            assert(k.push('!').len() != k.len());
            crate::json::law_set_field_reads_back(prev, k, field(src, k), k.push('!'));
            assert(keys.contains(k)) by {
                assert(keys[keys.len() - 1] == k);
            }
        } else {
            crate::json::law_set_field_reads_back(prev, keys.last(), field(src, keys.last()), k);
            assert(keys.contains(k) <==> rest.contains(k)) by {
                if keys.contains(k) {
                    let i = choose|i: int| 0 <= i < keys.len() && keys[i] == k;
                    assert(i != keys.len() - 1);
                    assert(rest[i] == k);
                }
                if rest.contains(k) {
                    let i = choose|i: int| 0 <= i < rest.len() && rest[i] == k;
                    assert(keys[i] == k);
                }
            }
        }
    }
}

/// A duplicate entry reads as its overrides where they name a member, and as the root
/// everywhere else.
pub proof fn law_duplicate_reads(root: Json, overrides: Json, k: Seq<char>)
    requires
        root is Object,
    ensures
        has_field(overrides, k) ==> field(duplicate_of(root, overrides), k) == field(overrides, k),
        !has_field(overrides, k) ==> field(duplicate_of(root, overrides), k) == field(root, k),
{
    lemma_apply_fields_reads(root, overrides, field_keys(overrides), k);
    if let Json::Object(e) = overrides {
        let ks = field_keys(overrides);
        if has_field(overrides, k) {
            let i = choose|i: int| 0 <= i < e.len() && #[trigger] e[i].0 == k;
            assert(ks[i] == k);
        }
        if ks.contains(k) {
            let i = choose|i: int| 0 <= i < ks.len() && ks[i] == k;
            assert(e[i].0 == k);
        }
    }
}

proof fn lemma_apply_fields_wf(base: Json, src: Json, keys: Seq<Seq<char>>)
    requires
        base is Object,
        json_wf(base),
        json_wf(src),
    ensures
        json_wf(apply_fields(base, src, keys)),
    decreases keys.len(),
{
    if keys.len() > 0 {
        lemma_apply_fields_wf(base, src, keys.drop_last());
        lemma_apply_fields_object(base, src, keys.drop_last());
        crate::json::lemma_field_wf(src, keys.last());
        crate::json::law_set_field_keeps_wf(
            apply_fields(base, src, keys.drop_last()),
            keys.last(),
            field(src, keys.last()),
        );
    }
}

/// A duplicate of a well-formed document, made with well-formed overrides, is well-formed.
pub proof fn law_duplicate_keeps_wf(root: Json, overrides: Json)
    requires
        root is Object,
        json_wf(root),
        json_wf(overrides),
    ensures
        json_wf(duplicate_of(root, overrides)),
{
    lemma_apply_fields_wf(root, overrides, field_keys(overrides));
}

/// A copy of `root` with every member of `overrides` written over it.
pub fn duplicate_from(root: &JsonValue, overrides: &JsonValue) -> (r: JsonValue)
    requires
        root@ is Object,
    ensures
        r@ == duplicate_of(root@, overrides@),
{
    let keys = get_object_field_list(overrides);
    let ghost ks = field_keys(overrides@);
    let mut dup = root.clone_value();
    let mut i: usize = 0;
    assert(ks.take(0) =~= Seq::<Seq<char>>::empty());
    while i < keys.len()
        invariant
            root@ is Object,
            keys.deep_view() == ks,
            ks == field_keys(overrides@),
            i <= keys@.len(),
            dup@ == apply_fields(root@, overrides@, ks.take(i as int)),
        decreases keys@.len() - i,
    {
        proof {
            lemma_apply_fields_object(root@, overrides@, ks.take(i as int));
        }
        let v = match find_field(overrides, keys[i].as_str()) {
            Some(x) => x.clone_value(),
            None => JsonValue::Null,
        };
        dup = set_field(dup, keys[i].as_str(), v);
        assert(ks.take(i + 1).drop_last() =~= ks.take(i as int));
        assert(keys@[i as int]@ == ks[i as int]);
        i = i + 1;
    }
    assert(ks.take(ks.len() as int) =~= ks);
    dup
}

/// The firmware document made from an SDK object.
pub fn sdk_entry(sdk: &JsonValue) -> (r: JsonValue)
    requires
        sdk@ is Object,
    ensures
        r@ == sdk_entry_of(sdk@),
{
    let mut version = get_string(sdk, "version");
    version.append("-SDK");
    let mut unique_build = get_string(sdk, "build");
    unique_build.append("-SDK");
    let released = get_string(sdk, "released");
    let mut device = get_string(sdk, "osStr");
    device.append("-SDK");
    if contains_text(device.as_str(), "OS X") {
        device = String::from_str("macOS-SDK");
    }
    let mut devices: Vec<JsonValue> = Vec::new();
    devices.push(JsonValue::String(device));
    let devices = JsonValue::Array(devices);
    proof {
        lemma_array_model(devices->Array_0, 0);
        assert(devices@->Array_0 =~= seq![Json::Str(sdk_device_of(sdk@))]);
    }
    let e = sdk.clone_value();
    let e = set_field(e, "version", JsonValue::String(version));
    let e = set_field(e, "uniqueBuild", JsonValue::String(unique_build));
    let e = set_field(e, "released", JsonValue::String(released));
    let e = set_field(e, "deviceMap", devices);
    set_field(e, "sdk", JsonValue::Bool(true))
}

/// The SDK documents made from the objects of `items`; other items are skipped.
pub fn sdk_entries(items: &Vec<JsonValue>) -> (r: Vec<JsonValue>)
    ensures
        models(r@) == sdk_entries_in(model(JsonValue::Array(*items))->Array_0),
{
    let ghost m = model(JsonValue::Array(*items))->Array_0;
    let mut out: Vec<JsonValue> = Vec::new();
    let mut i: usize = 0;
    assert(m.take(0) =~= Seq::<Json>::empty());
    assert(models(out@) =~= Seq::<Json>::empty());
    while i < items.len()
        invariant
            m == model(JsonValue::Array(*items))->Array_0,
            m.len() == items@.len(),
            i <= items@.len(),
            models(out@) == sdk_entries_in(m.take(i as int)),
        decreases items@.len() - i,
    {
        proof {
            lemma_array_model(*items, i as int);
        }
        assert(m.take(i + 1).drop_last() =~= m.take(i as int));
        assert(m.take(i + 1).last() == m[i as int]);
        if let JsonValue::Object(_) = &items[i] {
            let ghost before = out@;
            out.push(sdk_entry(&items[i]));
            proof {
                lemma_models_push(before, out@.last());
            }
            assert(models(out@) =~= sdk_entries_in(m.take(i + 1)));
        }
        i = i + 1;
    }
    assert(m.take(m.len() as int) =~= m);
    out
}

/// Every document that one firmware file stands for: the root, one copy per item of its
/// `createDuplicateEntries` array (with that item's members written over it), then the SDK
/// documents that the `sdks` array of each of these asks for.
pub fn os_documents_from_json(root: &JsonValue) -> (r: Vec<JsonValue>)
    ensures
        models(r@) == os_documents(root@),
{
    let mut docs: Vec<JsonValue> = Vec::new();
    docs.push(root.clone_value());
    assert(models(docs@) =~= seq![root@]);
    match find_field(root, "createDuplicateEntries") {
        Some(JsonValue::Array(items)) => {
            let ghost m = model(JsonValue::Array(*items))->Array_0;
            let mut i: usize = 0;
            while i < items.len()
                invariant
                    m == model(JsonValue::Array(*items))->Array_0,
                    m == field(root@, "createDuplicateEntries"@)->Array_0,
                    field(root@, "createDuplicateEntries"@) is Array,
                    root@ is Object,
                    m.len() == items@.len(),
                    i <= items@.len(),
                    models(docs@) == seq![root@] + m.take(i as int).map_values(
                        |e: Json| duplicate_of(root@, e),
                    ),
                decreases items@.len() - i,
            {
                proof {
                    lemma_array_model(*items, i as int);
                }
                let ghost before = docs@;
                docs.push(duplicate_from(root, &items[i]));
                proof {
                    lemma_models_push(before, docs@.last());
                }
                assert(models(docs@) =~= seq![root@] + m.take(i + 1).map_values(
                    |e: Json| duplicate_of(root@, e),
                ));
                i = i + 1;
            }
            assert(m.take(m.len() as int) =~= m);
        },
        _ => {},
    }
    assert(models(docs@) =~= seq![root@] + duplicates_of(root@));
    let ghost base = models(docs@);
    let n = docs.len();
    let mut extra: Vec<JsonValue> = Vec::new();
    let mut k: usize = 0;
    assert(base.take(0) =~= Seq::<Json>::empty());
    assert(models(extra@) =~= Seq::<Json>::empty());
    while k < n
        invariant
            n == docs@.len(),
            base == models(docs@),
            k <= n,
            models(extra@) == all_sdk_entries(base.take(k as int)),
        decreases n - k,
    {
        assert(base[k as int] == docs@[k as int]@);
        let found = match find_field(&docs[k], "sdks") {
            Some(JsonValue::Array(items)) => sdk_entries(items),
            _ => Vec::new(),
        };
        assert(models(found@) =~= sdk_entries_of(base[k as int]));
        let ghost before = extra@;
        let ghost found_before = found@;
        let mut found = found;
        extra.append(&mut found);
        proof {
            lemma_models_add(before, found_before);
        }
        assert(base.take(k + 1).drop_last() =~= base.take(k as int));
        k = k + 1;
    }
    assert(base.take(n as int) =~= base);
    let ghost docs_before = docs@;
    let ghost extra_before = extra@;
    docs.append(&mut extra);
    proof {
        lemma_models_add(docs_before, extra_before);
        assert(models(docs@) =~= os_documents(root@));
    }
    docs
}


/// Every document that a firmware file stands for can be read into an entry.
pub open spec fn os_documents_ok(root: Json) -> bool {
    forall|i: int|
        0 <= i < os_documents(root).len() ==> os_entry_shape_ok(#[trigger] os_documents(root)[i])
            && os_entry_urls_ok(os_documents(root)[i])
}

/// The firmware entries that a firmware file stands for, one per document.
pub open spec fn os_entries_of(root: Json) -> Seq<OsEntryModel> {
    os_documents(root).map_values(|d: Json| os_entry_of(d))
}

/// The number of objects in a list.
pub open spec fn object_count(items: Seq<Json>) -> nat
    decreases items.len(),
{
    if items.len() == 0 {
        0
    } else {
        object_count(items.drop_last()) + if items.last() is Object { 1nat } else { 0nat }
    }
}

/// The number of SDK objects that a document's `sdks` array holds (none where it is not an
/// array).
pub open spec fn sdk_count(j: Json) -> nat {
    match field(j, "sdks"@) {
        Json::Array(items) => object_count(items),
        _ => 0,
    }
}

/// The SDK objects of a list of documents, all together.
pub open spec fn sdk_total(docs: Seq<Json>) -> nat
    decreases docs.len(),
{
    if docs.len() == 0 {
        0
    } else {
        sdk_total(docs.drop_last()) + sdk_count(docs.last())
    }
}

/// The number of duplicates that a document asks for: the length of its
/// `createDuplicateEntries` array (none where it is not an array).
pub open spec fn duplicate_count(root: Json) -> nat {
    match field(root, "createDuplicateEntries"@) {
        Json::Array(items) => items.len(),
        _ => 0,
    }
}

proof fn lemma_sdk_entries_len(items: Seq<Json>)
    ensures
        sdk_entries_in(items).len() == object_count(items),
    decreases items.len(),
{
    if items.len() > 0 {
        lemma_sdk_entries_len(items.drop_last());
    }
}

proof fn lemma_all_sdk_entries_len(docs: Seq<Json>)
    ensures
        all_sdk_entries(docs).len() == sdk_total(docs),
    decreases docs.len(),
{
    if docs.len() > 0 {
        lemma_all_sdk_entries_len(docs.drop_last());
        if let Json::Array(items) = field(docs.last(), "sdks"@) {
            lemma_sdk_entries_len(items);
        }
    }
}

/// A firmware file stands for one entry, one more per item of `createDuplicateEntries`, and
/// one more per SDK object in the `sdks` array of each of these.
pub proof fn law_os_entry_count(root: Json)
    ensures
        os_entries_of(root).len() == 1 + duplicate_count(root) + sdk_total(
            seq![root] + duplicates_of(root),
        ),
{
    lemma_all_sdk_entries_len(seq![root] + duplicates_of(root));
}

/// What an API entry takes from its document besides its names: a string `safariVersion`
/// gives that one version and an array one per item; `preinstalled: true` stands for the
/// whole device map, `false` for none, and an array lists the devices; each source is read
/// from the matching item of the `sources` array, with its type and one link per item of its
/// `links` array (the link's `url` and `active`).
pub proof fn law_api_entry_lists(j: Json)
    ensures
        field(j, "safariVersion"@) matches Json::Str(t) ==> os_entry_of(j).safari_version == seq![t],
        field(j, "safariVersion"@) matches Json::Array(items) ==> os_entry_of(j).safari_version.len()
            == items.len(),
        (has_field(j, "preinstalled"@) && field(j, "preinstalled"@) == Json::Bool(true))
            ==> os_entry_of(j).preinstalled == string_array_at(j, "deviceMap"@),
        (has_field(j, "preinstalled"@) && field(j, "preinstalled"@) == Json::Bool(false))
            ==> os_entry_of(j).preinstalled.len() == 0,
        (has_field(j, "preinstalled"@) && field(j, "preinstalled"@) is Array) ==> os_entry_of(j).preinstalled
            == string_array_at(j, "preinstalled"@),
        field(j, "sources"@) matches Json::Array(items) ==> {
            &&& os_entry_of(j).sources.len() == items.len()
            &&& forall|i: int|
                0 <= i < items.len() ==> {
                    &&& os_entry_of(j).sources[i].kind == string_at(#[trigger] items[i], "type"@)
                    &&& os_entry_of(j).sources[i].device_map == string_array_at(items[i], "deviceMap"@)
                    &&& os_entry_of(j).sources[i].size == u64_at(items[i], "size"@)
                    &&& (field(items[i], "links"@) matches Json::Array(ls) ==> {
                        &&& os_entry_of(j).sources[i].links.len() == ls.len()
                        &&& forall|k: int|
                            0 <= k < ls.len() ==> os_entry_of(j).sources[i].links[k].url == string_at(
                                #[trigger] ls[k],
                                "url"@,
                            ) && os_entry_of(j).sources[i].links[k].active == bool_at(ls[k], "active"@)
                    })
                }
        },
{
    if let Json::Str(t) = field(j, "safariVersion"@) {
        assert(os_entry_of(j).safari_version =~= seq![t]);
    }
}

/// The device of an SDK document for the API site is `<osStr>-SDK`, or `macOS-SDK` where
/// that name holds `OS X`.
pub proof fn law_api_sdk_device(sdk: Json)
    ensures
        contains_seq(string_at(sdk, "osStr"@) + "-SDK"@, "OS X"@) ==> sdk_device_of(sdk) == seq![
            'm', 'a', 'c', 'O', 'S', '-', 'S', 'D', 'K'],
        !contains_seq(string_at(sdk, "osStr"@) + "-SDK"@, "OS X"@) ==> sdk_device_of(sdk) == string_at(
            sdk,
            "osStr"@,
        ) + seq!['-', 'S', 'D', 'K'],
{
    reveal_strlit("macOS-SDK");
    reveal_strlit("-SDK");
    assert("macOS-SDK"@ =~= seq!['m', 'a', 'c', 'O', 'S', '-', 'S', 'D', 'K']);
    assert("-SDK"@ =~= seq!['-', 'S', 'D', 'K']);
}

/// How an API entry names itself: its version is the `version` member, else the build; its
/// unique build is the `uniqueBuild` member, else the build where there is a `build` member,
/// else the version; its key is the `key` member, else `<osStr>;` followed by the build (the
/// version where there is no `build` member); its release date is the `released` member, else
/// 1970-01-01.
pub proof fn law_api_entry_names(j: Json)
    ensures
        has_field(j, "version"@) ==> os_entry_of(j).version == string_at(j, "version"@),
        !has_field(j, "version"@) ==> os_entry_of(j).version == string_at(j, "build"@),
        has_field(j, "uniqueBuild"@) ==> os_entry_of(j).unique_build == string_at(j, "uniqueBuild"@),
        (!has_field(j, "uniqueBuild"@) && has_field(j, "build"@)) ==> os_entry_of(j).unique_build
            == string_at(j, "build"@),
        (!has_field(j, "uniqueBuild"@) && !has_field(j, "build"@)) ==> os_entry_of(j).unique_build
            == os_entry_of(j).version,
        has_field(j, "key"@) ==> os_entry_of(j).key == string_at(j, "key"@),
        (!has_field(j, "key"@) && has_field(j, "build"@)) ==> os_entry_of(j).key == string_at(
            j,
            "osStr"@,
        ) + seq![';'] + string_at(j, "build"@),
        (!has_field(j, "key"@) && !has_field(j, "build"@)) ==> os_entry_of(j).key == string_at(
            j,
            "osStr"@,
        ) + seq![';'] + string_at(j, "version"@),
        has_field(j, "released"@) ==> os_entry_of(j).released == string_at(j, "released"@),
        !has_field(j, "released"@) ==> os_entry_of(j).released == seq!['1', '9', '7', '0', '-', '0', '1', '-', '0', '1'],
        os_entry_of(j).os_str == string_at(j, "osStr"@),
        os_entry_of(j).build == string_at(j, "build"@),
{
    reveal_strlit(";");
    reveal_strlit("1970-01-01");
    assert(";"@ =~= seq![';']);
    assert("1970-01-01"@ =~= seq!['1', '9', '7', '0', '-', '0', '1', '-', '0', '1']);
}

/// A firmware entry's web image is aligned right exactly where the document has an
/// `appledbWebImage` member whose `align` text is `right`, and left otherwise (for `left`,
/// any other text, or no image); its id is that member's `id`, or empty without one.
pub proof fn law_web_image_align(j: Json)
    ensures
        (has_field(j, "appledbWebImage"@) && string_at(field(j, "appledbWebImage"@), "align"@)
            == "right"@) ==> os_entry_of(j).appledb_web_image.align == OsEntryAppleDBWebImageAlign::Right,
        !(has_field(j, "appledbWebImage"@) && string_at(field(j, "appledbWebImage"@), "align"@)
            == "right"@) ==> os_entry_of(j).appledb_web_image.align == OsEntryAppleDBWebImageAlign::Left,
        has_field(j, "appledbWebImage"@) ==> os_entry_of(j).appledb_web_image.id == string_at(
            field(j, "appledbWebImage"@),
            "id"@,
        ),
        !has_field(j, "appledbWebImage"@) ==> os_entry_of(j).appledb_web_image.id == Seq::<char>::empty(),
{
}

/// An SDK document for the API site reads as one: its version and unique build are the
/// SDK's version and build followed by `-SDK`, its one device is the SDK device, and it is
/// marked `sdk`. The entry read from it has that version and unique build, and the SDK's
/// own build.
pub proof fn law_api_sdk_entry_reads(sdk: Json)
    requires
        sdk is Object,
    ensures
        bool_at(sdk_entry_of(sdk), "sdk"@),
        string_at(sdk_entry_of(sdk), "version"@) == string_at(sdk, "version"@) + "-SDK"@,
        string_at(sdk_entry_of(sdk), "uniqueBuild"@) == string_at(sdk, "build"@) + "-SDK"@,
        string_array_at(sdk_entry_of(sdk), "deviceMap"@) == seq![sdk_device_of(sdk)],
        os_entry_of(sdk_entry_of(sdk)).version == string_at(sdk, "version"@) + "-SDK"@,
        os_entry_of(sdk_entry_of(sdk)).unique_build == string_at(sdk, "build"@) + "-SDK"@,
        os_entry_of(sdk_entry_of(sdk)).build == string_at(sdk, "build"@),
        os_entry_of(sdk_entry_of(sdk)).device_map == seq![sdk_device_of(sdk)],
{
    reveal_strlit("version");
    reveal_strlit("uniqueBuild");
    reveal_strlit("build");
    reveal_strlit("released");
    reveal_strlit("deviceMap");
    reveal_strlit("sdk");
    assert("version"@.len() == 7 && "uniqueBuild"@.len() == 11 && "build"@.len() == 5);
    assert("released"@.len() == 8 && "deviceMap"@.len() == 9 && "sdk"@.len() == 3);
    let ver = Json::Str(string_at(sdk, "version"@) + "-SDK"@);
    let ub = Json::Str(string_at(sdk, "build"@) + "-SDK"@);
    let rel = Json::Str(string_at(sdk, "released"@));
    let dm = Json::Array(seq![Json::Str(sdk_device_of(sdk))]);
    let v1 = with_field(sdk, "version"@, ver);
    let v2 = with_field(v1, "uniqueBuild"@, ub);
    let v3 = with_field(v2, "released"@, rel);
    let v4 = with_field(v3, "deviceMap"@, dm);
    crate::json::law_set_field_reads_back(sdk, "version"@, ver, "build"@);
    crate::json::law_set_field_reads_back(v1, "uniqueBuild"@, ub, "version"@);
    crate::json::law_set_field_reads_back(v1, "uniqueBuild"@, ub, "build"@);
    crate::json::law_set_field_reads_back(v2, "released"@, rel, "version"@);
    crate::json::law_set_field_reads_back(v2, "released"@, rel, "uniqueBuild"@);
    crate::json::law_set_field_reads_back(v2, "released"@, rel, "build"@);
    crate::json::law_set_field_reads_back(v3, "deviceMap"@, dm, "version"@);
    crate::json::law_set_field_reads_back(v3, "deviceMap"@, dm, "uniqueBuild"@);
    crate::json::law_set_field_reads_back(v3, "deviceMap"@, dm, "build"@);
    crate::json::law_set_field_reads_back(v4, "sdk"@, Json::Bool(true), "version"@);
    crate::json::law_set_field_reads_back(v4, "sdk"@, Json::Bool(true), "uniqueBuild"@);
    crate::json::law_set_field_reads_back(v4, "sdk"@, Json::Bool(true), "build"@);
    crate::json::law_set_field_reads_back(v4, "sdk"@, Json::Bool(true), "deviceMap"@);
    assert(texts_of(seq![Json::Str(sdk_device_of(sdk))]) =~= seq![sdk_device_of(sdk)]);
}

/// Reads every firmware entry that a firmware file stands for: the entry itself, one per
/// item of `createDuplicateEntries`, and one per SDK object of each of these.
pub fn get_os_entry_vec_from_path(json: &JsonValue) -> (r: Vec<OsEntry>)
    requires
        os_documents_ok(json@),
    ensures
        r@.map_values(|e: OsEntry| e@) == os_entries_of(json@),
{
    let docs = os_documents_from_json(json);
    let ghost d = os_documents(json@);
    let mut out: Vec<OsEntry> = Vec::new();
    let mut i: usize = 0;
    while i < docs.len()
        invariant
            models(docs@) == d,
            d == os_documents(json@),
            os_documents_ok(json@),
            i <= docs@.len(),
            out@.len() == i,
            forall|j: int| 0 <= j < i ==> (#[trigger] out@[j])@ == os_entry_of(d[j]),
        decreases docs@.len() - i,
    {
        assert(d[i as int] == docs@[i as int]@);
        out.push(create_os_entry_from_json(&docs[i]));
        i = i + 1;
    }
    assert(out@.map_values(|e: OsEntry| e@) =~= os_entries_of(json@));
    out
}

/// Whether a member is absent or an array.
/// Whether a firmware document can be read without a panic.
pub fn os_entry_shape_check(j: &JsonValue) -> (r: bool)
    ensures
        r == os_entry_shape_ok(j@),
{
    if !string_array_check(j, "deviceMap") || !string_array_check(j, "osMap")
        || !string_array_check(j, "sources") {
        return false;
    }
    match find_field(j, "sources") {
        Some(JsonValue::Array(items)) => {
            let ghost m = model(JsonValue::Array(*items))->Array_0;
            let mut i: usize = 0;
            while i < items.len()
                invariant
                    m == model(JsonValue::Array(*items))->Array_0,
                    field(j@, "sources"@) == Json::Array(m),
                    m.len() == items@.len(),
                    i <= items@.len(),
                    forall|k: int| 0 <= k < i ==> source_ok(#[trigger] m[k]),
                decreases items@.len() - i,
            {
                proof {
                    lemma_array_model(*items, i as int);
                }
                let s = &items[i];
                if !string_array_check(s, "deviceMap") || !string_array_check(s, "osMap")
                    || !string_array_check(s, "links") {
                    return false;
                }
                i = i + 1;
            }
            true
        },
        _ => true,
    }
}

/// Whether both URLs of a firmware document can be formed.
pub fn os_entry_urls_check(j: &JsonValue) -> (r: bool)
    ensures
        r == os_entry_urls_ok(j@),
{
    let os_str = get_string(j, "osStr");
    let version = if has_member(j, "version") {
        get_string(j, "version")
    } else {
        get_string(j, "build")
    };
    let unique_build = if has_member(j, "uniqueBuild") {
        get_string(j, "uniqueBuild")
    } else if has_member(j, "build") {
        get_string(j, "build")
    } else {
        version
    };
    let web_path = replace_char(
        concat4(os_str.as_str(), "/", unique_build.as_str(), ".html").as_str(),
        ' ',
        '-',
    );
    let api_path = replace_char(
        concat4(os_str.as_str(), "/", unique_build.as_str(), ".json").as_str(),
        ' ',
        '-',
    );
    join_url("https://apiappledb.dev/firmware/", web_path.as_str()).is_some() && join_url(
        "https://api.appledb.dev/os/",
        api_path.as_str(),
    ).is_some()
}

/// Reads every firmware entry that a firmware file stands for, as
/// `get_os_entry_vec_from_path` does; `None` where some document cannot be read.
pub fn try_get_os_entry_vec_from_path(json: &JsonValue) -> (r: Option<Vec<OsEntry>>)
    ensures
        r is Some <==> os_documents_ok(json@),
        r matches Some(v) ==> v@.map_values(|e: OsEntry| e@) == os_entries_of(json@),
{
    let docs = os_documents_from_json(json);
    let ghost d = os_documents(json@);
    let mut i: usize = 0;
    while i < docs.len()
        invariant
            models(docs@) == d,
            d == os_documents(json@),
            i <= docs@.len(),
            forall|j: int|
                0 <= j < i ==> os_entry_shape_ok(#[trigger] d[j]) && os_entry_urls_ok(d[j]),
        decreases docs@.len() - i,
    {
        assert(d[i as int] == docs@[i as int]@);
        if !os_entry_shape_check(&docs[i]) || !os_entry_urls_check(&docs[i]) {
            return None;
        }
        i = i + 1;
    }
    Some(get_os_entry_vec_from_path(json))
}

} // verus!
