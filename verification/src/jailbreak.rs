use vstd::prelude::*;
use crate::json::{
    bool_at, field, find_field, get_bool, get_object_field_list, get_string, get_string_array,
    get_u64, get_vec_from_string_or_string_vec, has_field, has_member, lemma_array_model, model,
    string_array_at, string_array_check, string_array_ok, string_at, strings_at, u64_at, Json,
    JsonValue,
};
use crate::output::{OutputEntry, OutputFormat};
use crate::text::text_is;

verus! {

/// A named link.
pub struct UrlStruct {
    pub name: String,
    pub url: String,
}

/// A guide to a jailbreak.
pub struct JailbreakEntryGuide {
    pub name: String,
    pub url: String,
    pub pkgman: String,
    pub update_link: Vec<UrlStruct>,
    pub firmwares: Vec<String>,
    pub devices: Vec<String>,
}

/// What is known of a jailbreak.
pub struct JailbreakEntryInfo {
    pub website: UrlStruct,
    pub wiki: UrlStruct,
    pub guide: Vec<JailbreakEntryGuide>,
    pub latest_ver: String,
    pub color: String,
    pub icon: String,
    pub notes: String,
    pub jailbreaksmeapp: bool,
    pub kind: String,
    pub firmwares: Vec<String>,
    pub soc: String,
}

/// The firmwares and devices a jailbreak works on.
pub struct JailbreakEntryCompatibility {
    pub firmwares: Vec<String>,
    pub devices: Vec<String>,
}

/// A jailbreak entry.
pub struct JailbreakEntry {
    pub name: String,
    pub key: String,
    pub alias: Vec<String>,
    pub priority: u64,
    pub hide_from_guide: bool,
    pub info: JailbreakEntryInfo,
    pub compatibility: Vec<JailbreakEntryCompatibility>,
}

pub struct UrlModel {
    pub name: Seq<char>,
    pub url: Seq<char>,
}

pub struct GuideModel {
    pub name: Seq<char>,
    pub url: Seq<char>,
    pub pkgman: Seq<char>,
    pub update_link: Seq<UrlModel>,
    pub firmwares: Seq<Seq<char>>,
    pub devices: Seq<Seq<char>>,
}

pub struct InfoModel {
    pub website: UrlModel,
    pub wiki: UrlModel,
    pub guide: Seq<GuideModel>,
    pub latest_ver: Seq<char>,
    pub color: Seq<char>,
    pub icon: Seq<char>,
    pub notes: Seq<char>,
    pub jailbreaksmeapp: bool,
    pub kind: Seq<char>,
    pub firmwares: Seq<Seq<char>>,
    pub soc: Seq<char>,
}

pub struct CompatModel {
    pub firmwares: Seq<Seq<char>>,
    pub devices: Seq<Seq<char>>,
}

pub struct JailbreakModel {
    pub name: Seq<char>,
    pub key: Seq<char>,
    pub alias: Seq<Seq<char>>,
    pub priority: u64,
    pub hide_from_guide: bool,
    pub info: InfoModel,
    pub compatibility: Seq<CompatModel>,
}

impl View for UrlStruct {
    type V = UrlModel;

    open spec fn view(&self) -> UrlModel {
        UrlModel { name: self.name@, url: self.url@ }
    }
}

impl View for JailbreakEntryGuide {
    type V = GuideModel;

    open spec fn view(&self) -> GuideModel {
        GuideModel {
            name: self.name@,
            url: self.url@,
            pkgman: self.pkgman@,
            update_link: self.update_link@.map_values(|u: UrlStruct| u@),
            firmwares: self.firmwares.deep_view(),
            devices: self.devices.deep_view(),
        }
    }
}

impl View for JailbreakEntryInfo {
    type V = InfoModel;

    open spec fn view(&self) -> InfoModel {
        InfoModel {
            website: self.website@,
            wiki: self.wiki@,
            guide: self.guide@.map_values(|g: JailbreakEntryGuide| g@),
            latest_ver: self.latest_ver@,
            color: self.color@,
            icon: self.icon@,
            notes: self.notes@,
            jailbreaksmeapp: self.jailbreaksmeapp,
            kind: self.kind@,
            firmwares: self.firmwares.deep_view(),
            soc: self.soc@,
        }
    }
}

impl View for JailbreakEntryCompatibility {
    type V = CompatModel;

    open spec fn view(&self) -> CompatModel {
        CompatModel { firmwares: self.firmwares.deep_view(), devices: self.devices.deep_view() }
    }
}

impl View for JailbreakEntry {
    type V = JailbreakModel;

    open spec fn view(&self) -> JailbreakModel {
        JailbreakModel {
            name: self.name@,
            key: self.key@,
            alias: self.alias.deep_view(),
            priority: self.priority,
            hide_from_guide: self.hide_from_guide,
            info: self.info@,
            compatibility: self.compatibility@.map_values(|c: JailbreakEntryCompatibility| c@),
        }
    }
}

/// A link as a guide's update list gives it: its name from `text`, its URL from `link`.
pub open spec fn update_link_of(l: Json) -> UrlModel {
    UrlModel { name: string_at(l, "text"@), url: string_at(l, "link"@) }
}

/// A link given by `name` and `url` members.
pub open spec fn url_of(u: Json) -> UrlModel {
    UrlModel { name: string_at(u, "name"@), url: string_at(u, "url"@) }
}

/// A guide document can be read: its firmwares, devices and update links are arrays where present.
pub open spec fn guide_ok(g: Json) -> bool {
    &&& string_array_ok(g, "firmwares"@)
    &&& string_array_ok(g, "devices"@)
    &&& string_array_ok(g, "updateLink"@)
}

pub open spec fn guide_of(g: Json) -> GuideModel {
    GuideModel {
        name: string_at(g, "name"@),
        url: string_at(g, "url"@),
        pkgman: string_at(g, "pkgman"@),
        update_link: match field(g, "updateLink"@) {
            Json::Array(items) => items.map_values(|l: Json| update_link_of(l)),
            _ => Seq::empty(),
        },
        firmwares: string_array_at(g, "firmwares"@),
        devices: string_array_at(g, "devices"@),
    }
}

/// An info document can be read: its guides are an array of readable guides and its
/// firmwares an array, where present.
pub open spec fn info_ok(i: Json) -> bool {
    &&& string_array_ok(i, "guide"@)
    &&& field(i, "guide"@) matches Json::Array(items) ==> forall|k: int|
        0 <= k < items.len() ==> guide_ok(#[trigger] items[k])
    &&& string_array_ok(i, "firmwares"@)
}

/// What is known of a jailbreak, read from its info document.
pub open spec fn info_of(i: Json) -> InfoModel {
    InfoModel {
        website: url_of(field(i, "website"@)),
        wiki: url_of(field(i, "wiki"@)),
        guide: match field(i, "guide"@) {
            Json::Array(items) => items.map_values(|g: Json| guide_of(g)),
            _ => Seq::empty(),
        },
        latest_ver: string_at(i, "latestVer"@),
        color: string_at(i, "color"@),
        icon: string_at(i, "icon"@),
        notes: string_at(i, "notes"@),
        jailbreaksmeapp: bool_at(i, "jailbreaksmeapp"@),
        kind: string_at(i, "type"@),
        firmwares: string_array_at(i, "firmwares"@),
        soc: string_at(i, "soc"@),
    }
}

/// What `match_guide` needs of a guide document for the member `f`: the update links must
/// be an array, and the firmwares and devices an array where present.
pub open spec fn guide_field_ok(g: Json, f: Seq<char>) -> bool {
    &&& f == "updateLink"@ ==> field(g, f) is Array
    &&& f == "firmwares"@ ==> string_array_ok(g, f)
    &&& f == "devices"@ ==> string_array_ok(g, f)
}

/// What `match_info` needs of an info document for the member `f`: the guides must be an
/// array of readable guides, and the firmwares an array where present.
pub open spec fn info_field_ok(i: Json, f: Seq<char>) -> bool {
    &&& f == "guide"@ ==> {
        &&& field(i, f) is Array
        &&& forall|k: int|
            0 <= k < field(i, f)->Array_0.len() ==> guide_ok(#[trigger] field(i, f)->Array_0[k])
    }
    &&& f == "firmwares"@ ==> string_array_ok(i, f)
}

/// What `match_compat` needs of a compatibility document for the member `f`: the firmwares
/// and devices an array where present.
pub open spec fn compat_field_ok(c: Json, f: Seq<char>) -> bool {
    &&& f == "firmwares"@ ==> string_array_ok(c, f)
    &&& f == "devices"@ ==> string_array_ok(c, f)
}

/// What `match_entry` needs of a jailbreak document for the member `f`: a readable info
/// document, and, where the member is said to exist, an array of readable compatibilities.
pub open spec fn entry_field_ok(j: Json, f: Seq<char>, exists: bool) -> bool {
    &&& f == "info"@ ==> info_ok(field(j, f))
    &&& (f == "compatibility"@ && exists) ==> {
        &&& field(j, f) is Array
        &&& forall|k: int|
            0 <= k < field(j, f)->Array_0.len() ==> compat_ok(#[trigger] field(j, f)->Array_0[k])
    }
}

pub open spec fn compat_ok(c: Json) -> bool {
    &&& string_array_ok(c, "firmwares"@)
    &&& string_array_ok(c, "devices"@)
}

pub open spec fn compat_of(c: Json) -> CompatModel {
    CompatModel {
        firmwares: string_array_at(c, "firmwares"@),
        devices: string_array_at(c, "devices"@),
    }
}

/// A jailbreak document can be read without a panic.
pub open spec fn jailbreak_ok(j: Json) -> bool {
    &&& info_ok(field(j, "info"@))
    &&& string_array_ok(j, "compatibility"@)
    &&& field(j, "compatibility"@) matches Json::Array(items) ==> forall|k: int|
        0 <= k < items.len() ==> compat_ok(#[trigger] items[k])
}

/// The jailbreak entry that a document describes; its key is its `key` member, else its name.
pub open spec fn jailbreak_of(j: Json) -> JailbreakModel {
    JailbreakModel {
        name: string_at(j, "name"@),
        key: if has_field(j, "key"@) {
            string_at(j, "key"@)
        } else {
            string_at(j, "name"@)
        },
        alias: strings_at(j, "alias"@),
        priority: u64_at(j, "priority"@),
        hide_from_guide: bool_at(j, "hideFromGuide"@),
        info: info_of(field(j, "info"@)),
        compatibility: match field(j, "compatibility"@) {
            Json::Array(items) => items.map_values(|c: Json| compat_of(c)),
            _ => Seq::empty(),
        },
    }
}

/// What a jailbreak's info gives: the website and wiki links are the `name` and `url` of
/// those members; there is one guide per item of the `guide` array, each with its `name`,
/// `url` and `pkgman` and one update link per item of its `updateLink` array, named by the
/// link's `text` and pointing at its `link`; the other parts are the members of those names.
pub proof fn law_jailbreak_info(j: Json)
    ensures
        jailbreak_of(j).info.website.name == string_at(field(field(j, "info"@), "website"@), "name"@),
        jailbreak_of(j).info.website.url == string_at(field(field(j, "info"@), "website"@), "url"@),
        jailbreak_of(j).info.wiki.name == string_at(field(field(j, "info"@), "wiki"@), "name"@),
        jailbreak_of(j).info.wiki.url == string_at(field(field(j, "info"@), "wiki"@), "url"@),
        jailbreak_of(j).info.latest_ver == string_at(field(j, "info"@), "latestVer"@),
        jailbreak_of(j).info.color == string_at(field(j, "info"@), "color"@),
        jailbreak_of(j).info.soc == string_at(field(j, "info"@), "soc"@),
        jailbreak_of(j).info.jailbreaksmeapp == bool_at(field(j, "info"@), "jailbreaksmeapp"@),
        jailbreak_of(j).info.firmwares == string_array_at(field(j, "info"@), "firmwares"@),
        field(field(j, "info"@), "guide"@) matches Json::Array(gs) ==> {
            &&& jailbreak_of(j).info.guide.len() == gs.len()
            &&& forall|g: int|
                0 <= g < gs.len() ==> {
                    &&& jailbreak_of(j).info.guide[g].name == string_at(#[trigger] gs[g], "name"@)
                    &&& jailbreak_of(j).info.guide[g].url == string_at(gs[g], "url"@)
                    &&& jailbreak_of(j).info.guide[g].pkgman == string_at(gs[g], "pkgman"@)
                    &&& (field(gs[g], "updateLink"@) matches Json::Array(ls) ==> {
                        &&& jailbreak_of(j).info.guide[g].update_link.len() == ls.len()
                        &&& forall|k: int|
                            0 <= k < ls.len() ==> jailbreak_of(j).info.guide[g].update_link[k].name
                                == string_at(#[trigger] ls[k], "text"@)
                                && jailbreak_of(j).info.guide[g].update_link[k].url == string_at(
                                ls[k],
                                "link"@,
                            )
                    })
                }
        },
{
}

/// A jailbreak's key is its `key` member, else its name; its compatibilities are one per
/// item of a `compatibility` array, each with the item's firmwares and devices, and none where
/// that member is not an array.
pub proof fn law_jailbreak_key_and_compatibility(j: Json)
    ensures
        has_field(j, "key"@) ==> jailbreak_of(j).key == string_at(j, "key"@),
        !has_field(j, "key"@) ==> jailbreak_of(j).key == string_at(j, "name"@),
        field(j, "compatibility"@) matches Json::Array(items) ==> {
            &&& jailbreak_of(j).compatibility.len() == items.len()
            &&& forall|i: int|
                0 <= i < items.len() ==> jailbreak_of(j).compatibility[i].firmwares == string_array_at(
                    #[trigger] items[i],
                    "firmwares"@,
                ) && jailbreak_of(j).compatibility[i].devices == string_array_at(items[i], "devices"@)
        },
        !(field(j, "compatibility"@) is Array) ==> jailbreak_of(j).compatibility.len() == 0,
        jailbreak_of(j).info.kind == string_at(field(j, "info"@), "type"@),
{
}

/// A jailbreak's aliases: a string `alias` member gives that one alias; an array gives one
/// alias per item, in order, each the item's text (empty for an item that is not a string);
/// anything else gives none. Filling in the `alias` field gives the same list.
pub proof fn law_jailbreak_alias(j: Json, e: JailbreakModel, exists: bool)
    ensures
        field(j, "alias"@) matches Json::Str(s) ==> jailbreak_of(j).alias == seq![s],
        field(j, "alias"@) matches Json::Array(items) ==> {
            &&& jailbreak_of(j).alias.len() == items.len()
            &&& forall|i: int|
                0 <= i < items.len() ==> (#[trigger] items[i] matches Json::Str(t) ==> jailbreak_of(j).alias[i] == t)
                    && (!(items[i] is Str) ==> jailbreak_of(j).alias[i] == Seq::<char>::empty())
        },
        !(field(j, "alias"@) is Str || field(j, "alias"@) is Array) ==> jailbreak_of(j).alias
            == Seq::<Seq<char>>::empty(),
        entry_with(e, j, "alias"@, exists).alias == jailbreak_of(j).alias,
{
    lemma_entry_literals_differ();
    if let Json::Array(items) = field(j, "alias"@) {
        assert forall|i: int| 0 <= i < items.len() implies (#[trigger] items[i] matches Json::Str(t) ==> jailbreak_of(j).alias[i] == t)
            && (!(items[i] is Str) ==> jailbreak_of(j).alias[i] == Seq::<char>::empty()) by {
            assert(jailbreak_of(j).alias[i] == crate::json::text_or_empty(items[i]));
        }
    }
}

fn empty_url() -> (r: UrlStruct)
    ensures
        r@ == url_of(Json::Null),
{
    UrlStruct { name: String::new(), url: String::new() }
}

fn empty_info() -> (r: JailbreakEntryInfo)
    ensures
        r@ == info_of(Json::Null),
{
    let r = JailbreakEntryInfo {
        website: empty_url(),
        wiki: empty_url(),
        guide: Vec::new(),
        latest_ver: String::new(),
        color: String::new(),
        icon: String::new(),
        notes: String::new(),
        jailbreaksmeapp: false,
        kind: String::new(),
        firmwares: Vec::new(),
        soc: String::new(),
    };
    assert(r@.guide =~= info_of(Json::Null).guide);
    assert(r@.firmwares =~= info_of(Json::Null).firmwares);
    r
}

fn read_url(j: &JsonValue, name_key: &str, url_key: &str) -> (r: UrlStruct)
    ensures
        r@ == (UrlModel { name: string_at(j@, name_key@), url: string_at(j@, url_key@) }),
{
    UrlStruct { name: get_string(j, name_key), url: get_string(j, url_key) }
}

fn read_url_member(j: &JsonValue, key: &str) -> (r: UrlStruct)
    ensures
        r@ == url_of(field(j@, key@)),
{
    match find_field(j, key) {
        Some(u) => read_url(u, "name", "url"),
        None => empty_url(),
    }
}

/// The update links of a guide, read from an array: names from `text`, URLs from `link`.
pub fn get_update_link(json: &JsonValue) -> (r: Vec<UrlStruct>)
    requires
        json@ is Array,
    ensures
        r@.map_values(|u: UrlStruct| u@) == json@->Array_0.map_values(|l: Json| update_link_of(l)),
{
    let mut out: Vec<UrlStruct> = Vec::new();
    if let JsonValue::Array(items) = json {
        let ghost m = json@->Array_0;
        let mut i: usize = 0;
        while i < items.len()
            invariant
                m == model(JsonValue::Array(*items))->Array_0,
                m.len() == items@.len(),
                i <= items@.len(),
                out@.len() == i,
                forall|k: int| 0 <= k < i ==> (#[trigger] out@[k])@ == update_link_of(m[k]),
            decreases items@.len() - i,
        {
            proof {
                lemma_array_model(*items, i as int);
            }
            out.push(read_url(&items[i], "text", "link"));
            i = i + 1;
        }
    }
    assert(out@.map_values(|u: UrlStruct| u@) =~= json@->Array_0.map_values(|l: Json| update_link_of(l)));
    out
}

/// A guide with the member `field_name` of its document filled in.
pub open spec fn guide_with(g: GuideModel, j: Json, f: Seq<char>) -> GuideModel {
    if f == "name"@ {
        GuideModel { name: string_at(j, f), ..g }
    } else if f == "url"@ {
        GuideModel { url: string_at(j, f), ..g }
    } else if f == "pkgman"@ {
        GuideModel { pkgman: string_at(j, f), ..g }
    } else if f == "updateLink"@ {
        GuideModel { update_link: guide_of(j).update_link, ..g }
    } else if f == "firmwares"@ {
        GuideModel { firmwares: string_array_at(j, f), ..g }
    } else if f == "devices"@ {
        GuideModel { devices: string_array_at(j, f), ..g }
    } else {
        g
    }
}

/// Fills in the part of a guide that the member `field_name` of its document gives.
pub fn match_guide(guide: JailbreakEntryGuide, json: &JsonValue, field_name: &str) -> (r:
    JailbreakEntryGuide)
    requires
        guide_field_ok(json@, field_name@),
    ensures
        r@ == guide_with(guide@, json@, field_name@),
{
    let mut guide = guide;
    if text_is(field_name, "name") {
        guide.name = get_string(json, field_name);
    } else if text_is(field_name, "url") {
        guide.url = get_string(json, field_name);
    } else if text_is(field_name, "pkgman") {
        guide.pkgman = get_string(json, field_name);
    } else if text_is(field_name, "updateLink") {
        match find_field(json, field_name) {
            Some(links) => {
                if let JsonValue::Array(_) = links {
                    guide.update_link = get_update_link(links);
                }
            },
            None => {},
        }
    } else if text_is(field_name, "firmwares") {
        guide.firmwares = get_string_array(json, field_name);
    } else if text_is(field_name, "devices") {
        guide.devices = get_string_array(json, field_name);
    }
    guide
}

/// An empty guide.
fn empty_guide() -> (r: JailbreakEntryGuide)
    ensures
        r@ == guide_of(Json::Null),
{
    let r = JailbreakEntryGuide {
        name: String::new(),
        url: String::new(),
        pkgman: String::new(),
        update_link: Vec::new(),
        firmwares: Vec::new(),
        devices: Vec::new(),
    };
    assert(r@.update_link =~= guide_of(Json::Null).update_link);
    assert(r@.firmwares =~= guide_of(Json::Null).firmwares);
    assert(r@.devices =~= guide_of(Json::Null).devices);
    r
}

proof fn lemma_literals_differ()
    ensures
        "name"@ != "url"@,
        "name"@ != "pkgman"@,
        "name"@ != "updateLink"@,
        "name"@ != "firmwares"@,
        "name"@ != "devices"@,
        "url"@ != "pkgman"@,
        "url"@ != "updateLink"@,
        "url"@ != "firmwares"@,
        "url"@ != "devices"@,
        "pkgman"@ != "updateLink"@,
        "pkgman"@ != "firmwares"@,
        "pkgman"@ != "devices"@,
        "updateLink"@ != "firmwares"@,
        "updateLink"@ != "devices"@,
        "firmwares"@ != "devices"@,
{
    reveal_strlit("name");
    reveal_strlit("url");
    reveal_strlit("pkgman");
    reveal_strlit("updateLink");
    reveal_strlit("firmwares");
    reveal_strlit("devices");
    assert("name"@[0] != "url"@[0]);
    assert("name"@[0] != "pkgman"@[0]);
    assert("name"@[0] != "updateLink"@[0]);
    assert("name"@[0] != "firmwares"@[0]);
    assert("name"@[0] != "devices"@[0]);
    assert("url"@[0] != "pkgman"@[0]);
    assert("url"@[0] != "updateLink"@[1]);
    assert("url"@[0] != "firmwares"@[0]);
    assert("url"@[0] != "devices"@[0]);
    assert("pkgman"@[0] != "updateLink"@[0]);
    assert("pkgman"@[0] != "firmwares"@[0]);
    assert("pkgman"@[0] != "devices"@[0]);
    assert("updateLink"@[0] != "firmwares"@[0]);
    assert("updateLink"@[0] != "devices"@[0]);
    assert("firmwares"@[0] != "devices"@[0]);
}

/// Reads a guide from its document, member by member.
pub fn guide_from_json(json: &JsonValue) -> (r: JailbreakEntryGuide)
    requires
        guide_ok(json@),
    ensures
        r@ == guide_of(json@),
{
    proof {
        lemma_literals_differ();
    }
    let mut guide = empty_guide();
    if has_member(json, "name") {
        guide = match_guide(guide, json, "name");
    }
    if has_member(json, "url") {
        guide = match_guide(guide, json, "url");
    }
    if has_member(json, "pkgman") {
        guide = match_guide(guide, json, "pkgman");
    }
    if has_member(json, "updateLink") {
        guide = match_guide(guide, json, "updateLink");
    }
    if has_member(json, "firmwares") {
        guide = match_guide(guide, json, "firmwares");
    }
    if has_member(json, "devices") {
        guide = match_guide(guide, json, "devices");
    }
    assert(guide@.update_link =~= guide_of(json@).update_link);
    assert(guide@.firmwares =~= guide_of(json@).firmwares);
    assert(guide@.devices =~= guide_of(json@).devices);
    guide
}


/// An info with the part that the member `f` of its document gives filled in.
pub open spec fn info_with(i: InfoModel, j: Json, f: Seq<char>) -> InfoModel {
    if f == "website"@ {
        InfoModel { website: url_of(field(j, f)), ..i }
    } else if f == "wiki"@ {
        InfoModel { wiki: url_of(field(j, f)), ..i }
    } else if f == "guide"@ {
        InfoModel { guide: info_of(j).guide, ..i }
    } else if f == "latestVer"@ {
        InfoModel { latest_ver: string_at(j, f), ..i }
    } else if f == "color"@ {
        InfoModel { color: string_at(j, f), ..i }
    } else if f == "icon"@ {
        InfoModel { icon: string_at(j, f), ..i }
    } else if f == "notes"@ {
        InfoModel { notes: string_at(j, f), ..i }
    } else if f == "jailbreaksmeapp"@ {
        InfoModel { jailbreaksmeapp: bool_at(j, f), ..i }
    } else if f == "r#type"@ {
        InfoModel { kind: string_at(j, "type"@), ..i }
    } else if f == "firmwares"@ {
        InfoModel { firmwares: string_array_at(j, f), ..i }
    } else if f == "soc"@ {
        InfoModel { soc: string_at(j, f), ..i }
    } else {
        i
    }
}

proof fn lemma_info_literals_differ()
    ensures
        "website"@ != "wiki"@,
        "website"@ != "guide"@,
        "website"@ != "latestVer"@,
        "website"@ != "color"@,
        "website"@ != "icon"@,
        "website"@ != "notes"@,
        "website"@ != "jailbreaksmeapp"@,
        "website"@ != "r#type"@,
        "website"@ != "firmwares"@,
        "website"@ != "soc"@,
        "wiki"@ != "guide"@,
        "wiki"@ != "latestVer"@,
        "wiki"@ != "color"@,
        "wiki"@ != "icon"@,
        "wiki"@ != "notes"@,
        "wiki"@ != "jailbreaksmeapp"@,
        "wiki"@ != "r#type"@,
        "wiki"@ != "firmwares"@,
        "wiki"@ != "soc"@,
        "guide"@ != "latestVer"@,
        "guide"@ != "color"@,
        "guide"@ != "icon"@,
        "guide"@ != "notes"@,
        "guide"@ != "jailbreaksmeapp"@,
        "guide"@ != "r#type"@,
        "guide"@ != "firmwares"@,
        "guide"@ != "soc"@,
        "latestVer"@ != "color"@,
        "latestVer"@ != "icon"@,
        "latestVer"@ != "notes"@,
        "latestVer"@ != "jailbreaksmeapp"@,
        "latestVer"@ != "r#type"@,
        "latestVer"@ != "firmwares"@,
        "latestVer"@ != "soc"@,
        "color"@ != "icon"@,
        "color"@ != "notes"@,
        "color"@ != "jailbreaksmeapp"@,
        "color"@ != "r#type"@,
        "color"@ != "firmwares"@,
        "color"@ != "soc"@,
        "icon"@ != "notes"@,
        "icon"@ != "jailbreaksmeapp"@,
        "icon"@ != "r#type"@,
        "icon"@ != "firmwares"@,
        "icon"@ != "soc"@,
        "notes"@ != "jailbreaksmeapp"@,
        "notes"@ != "r#type"@,
        "notes"@ != "firmwares"@,
        "notes"@ != "soc"@,
        "jailbreaksmeapp"@ != "r#type"@,
        "jailbreaksmeapp"@ != "firmwares"@,
        "jailbreaksmeapp"@ != "soc"@,
        "r#type"@ != "firmwares"@,
        "r#type"@ != "soc"@,
        "firmwares"@ != "soc"@,
{
    reveal_strlit("website");
    reveal_strlit("wiki");
    reveal_strlit("guide");
    reveal_strlit("latestVer");
    reveal_strlit("color");
    reveal_strlit("icon");
    reveal_strlit("notes");
    reveal_strlit("jailbreaksmeapp");
    reveal_strlit("r#type");
    reveal_strlit("firmwares");
    reveal_strlit("soc");
    assert("website"@.len() != "wiki"@.len());
    assert("website"@[0] != "guide"@[0]);
    assert("website"@[0] != "latestVer"@[0]);
    assert("website"@[0] != "color"@[0]);
    assert("website"@[0] != "icon"@[0]);
    assert("website"@[0] != "notes"@[0]);
    assert("website"@[0] != "jailbreaksmeapp"@[0]);
    assert("website"@[0] != "r#type"@[0]);
    assert("website"@[0] != "firmwares"@[0]);
    assert("website"@[0] != "soc"@[0]);
    assert("wiki"@[0] != "guide"@[0]);
    assert("wiki"@[0] != "latestVer"@[0]);
    assert("wiki"@[0] != "color"@[0]);
    assert("wiki"@[0] != "icon"@[0]);
    assert("wiki"@[0] != "notes"@[0]);
    assert("wiki"@[0] != "jailbreaksmeapp"@[0]);
    assert("wiki"@[0] != "r#type"@[0]);
    assert("wiki"@[0] != "firmwares"@[0]);
    assert("wiki"@[0] != "soc"@[0]);
    assert("guide"@[0] != "latestVer"@[0]);
    assert("guide"@[0] != "color"@[0]);
    assert("guide"@[0] != "icon"@[0]);
    assert("guide"@[0] != "notes"@[0]);
    assert("guide"@[0] != "jailbreaksmeapp"@[0]);
    assert("guide"@[0] != "r#type"@[0]);
    assert("guide"@[0] != "firmwares"@[0]);
    assert("guide"@[0] != "soc"@[0]);
    assert("latestVer"@[0] != "color"@[0]);
    assert("latestVer"@[0] != "icon"@[0]);
    assert("latestVer"@[0] != "notes"@[0]);
    assert("latestVer"@[0] != "jailbreaksmeapp"@[0]);
    assert("latestVer"@[0] != "r#type"@[0]);
    assert("latestVer"@[0] != "firmwares"@[0]);
    assert("latestVer"@[0] != "soc"@[0]);
    assert("color"@[0] != "icon"@[0]);
    assert("color"@[0] != "notes"@[0]);
    assert("color"@[0] != "jailbreaksmeapp"@[0]);
    assert("color"@[0] != "r#type"@[0]);
    assert("color"@[0] != "firmwares"@[0]);
    assert("color"@[0] != "soc"@[0]);
    assert("icon"@[0] != "notes"@[0]);
    assert("icon"@[0] != "jailbreaksmeapp"@[0]);
    assert("icon"@[0] != "r#type"@[0]);
    assert("icon"@[0] != "firmwares"@[0]);
    assert("icon"@[0] != "soc"@[0]);
    assert("notes"@[0] != "jailbreaksmeapp"@[0]);
    assert("notes"@[0] != "r#type"@[0]);
    assert("notes"@[0] != "firmwares"@[0]);
    assert("notes"@[0] != "soc"@[0]);
    assert("jailbreaksmeapp"@[0] != "r#type"@[0]);
    assert("jailbreaksmeapp"@[0] != "firmwares"@[0]);
    assert("jailbreaksmeapp"@[0] != "soc"@[0]);
    assert("r#type"@[0] != "firmwares"@[0]);
    assert("r#type"@[0] != "soc"@[0]);
    assert("firmwares"@[0] != "soc"@[0]);
}

/// Fills in the part of a jailbreak's info that the member `field_name` of its document gives;
/// the field name `r#type` fills in the type from the `type` member. Any other field name
/// leaves the info as it is.
pub fn match_info(info: JailbreakEntryInfo, json: &JsonValue, field_name: &str) -> (r:
    JailbreakEntryInfo)
    requires
        info_field_ok(json@, field_name@),
    ensures
        r@ == info_with(info@, json@, field_name@),
{
    proof {
        lemma_info_literals_differ();
    }
    let mut info = info;
    if text_is(field_name, "website") {
        info.website = read_url_member(json, field_name);
    } else if text_is(field_name, "wiki") {
        info.wiki = read_url_member(json, field_name);
    } else if text_is(field_name, "guide") {
        let mut guides: Vec<JailbreakEntryGuide> = Vec::new();
        match find_field(json, field_name) {
            Some(JsonValue::Array(items)) => {
                let ghost m = model(JsonValue::Array(*items))->Array_0;
                let mut i: usize = 0;
                while i < items.len()
                    invariant
                        m == model(JsonValue::Array(*items))->Array_0,
                        m.len() == items@.len(),
                        forall|k: int| 0 <= k < m.len() ==> guide_ok(#[trigger] m[k]),
                        i <= items@.len(),
                        guides@.len() == i,
                        forall|k: int| 0 <= k < i ==> (#[trigger] guides@[k])@ == guide_of(m[k]),
                    decreases items@.len() - i,
                {
                    proof {
                        lemma_array_model(*items, i as int);
                    }
                    guides.push(guide_from_json(&items[i]));
                    i = i + 1;
                }
            },
            _ => {},
        }
        assert(guides@.map_values(|g: JailbreakEntryGuide| g@) =~= info_of(json@).guide);
        info.guide = guides;
    } else if text_is(field_name, "latestVer") {
        info.latest_ver = get_string(json, field_name);
    } else if text_is(field_name, "color") {
        info.color = get_string(json, field_name);
    } else if text_is(field_name, "icon") {
        info.icon = get_string(json, field_name);
    } else if text_is(field_name, "notes") {
        info.notes = get_string(json, field_name);
    } else if text_is(field_name, "jailbreaksmeapp") {
        info.jailbreaksmeapp = get_bool(json, field_name);
    } else if text_is(field_name, "r#type") {
        info.kind = get_string(json, "type");
    } else if text_is(field_name, "firmwares") {
        info.firmwares = get_string_array(json, field_name);
    } else if text_is(field_name, "soc") {
        info.soc = get_string(json, field_name);
    }
    info
}

/// Reads what is known of a jailbreak: each field whose member is in the document is filled
/// in by `match_info`, in the order of the fields (the type from the `type` member).
#[verifier::rlimit(60)]
pub fn info_from_json(json: &JsonValue) -> (r: JailbreakEntryInfo)
    requires
        info_ok(json@),
    ensures
        r@ == info_of(json@),
{
    proof {
        lemma_info_literals_differ();
    }
    let mut info = empty_info();
    if has_member(json, "website") {
        info = match_info(info, json, "website");
    }
    if has_member(json, "wiki") {
        info = match_info(info, json, "wiki");
    }
    if has_member(json, "guide") {
        info = match_info(info, json, "guide");
    }
    if has_member(json, "latestVer") {
        info = match_info(info, json, "latestVer");
    }
    if has_member(json, "color") {
        info = match_info(info, json, "color");
    }
    if has_member(json, "icon") {
        info = match_info(info, json, "icon");
    }
    if has_member(json, "notes") {
        info = match_info(info, json, "notes");
    }
    if has_member(json, "jailbreaksmeapp") {
        info = match_info(info, json, "jailbreaksmeapp");
    }
    if has_member(json, "type") {
        info = match_info(info, json, "r#type");
    }
    if has_member(json, "firmwares") {
        info = match_info(info, json, "firmwares");
    }
    if has_member(json, "soc") {
        info = match_info(info, json, "soc");
    }
    assert(info@.guide =~= info_of(json@).guide);
    assert(info@.firmwares =~= info_of(json@).firmwares);
    info
}

/// A compatibility with the part that the member `f` of its document gives filled in.
pub open spec fn compat_with(c: CompatModel, j: Json, f: Seq<char>) -> CompatModel {
    if f == "firmwares"@ {
        CompatModel { firmwares: string_array_at(j, f), ..c }
    } else if f == "devices"@ {
        CompatModel { devices: string_array_at(j, f), ..c }
    } else {
        c
    }
}

/// Fills in the part of a compatibility that the member `field_name` of its document gives.
pub fn match_compat(compat: JailbreakEntryCompatibility, json: &JsonValue, field_name: &str) -> (r:
    JailbreakEntryCompatibility)
    requires
        compat_field_ok(json@, field_name@),
    ensures
        r@ == compat_with(compat@, json@, field_name@),
{
    let mut compat = compat;
    if text_is(field_name, "firmwares") {
        compat.firmwares = get_string_array(json, field_name);
    } else if text_is(field_name, "devices") {
        compat.devices = get_string_array(json, field_name);
    }
    compat
}

/// Reads a compatibility from its document.
pub fn get_compat(json: &JsonValue) -> (r: JailbreakEntryCompatibility)
    requires
        compat_ok(json@),
    ensures
        r@ == compat_of(json@),
{
    proof {
        lemma_literals_differ();
    }
    let mut compat = JailbreakEntryCompatibility { firmwares: Vec::new(), devices: Vec::new() };
    if has_member(json, "firmwares") {
        compat = match_compat(compat, json, "firmwares");
    }
    if has_member(json, "devices") {
        compat = match_compat(compat, json, "devices");
    }
    assert(compat@.firmwares =~= compat_of(json@).firmwares);
    assert(compat@.devices =~= compat_of(json@).devices);
    compat
}

/// An entry with the part that the member `f` of its document gives filled in; `exists`
/// says whether the document has that member.
pub open spec fn entry_with(e: JailbreakModel, j: Json, f: Seq<char>, exists: bool) -> JailbreakModel {
    if f == "name"@ {
        JailbreakModel { name: string_at(j, f), ..e }
    } else if f == "key"@ {
        JailbreakModel {
            key: if exists {
                string_at(j, f)
            } else {
                string_at(j, "name"@)
            },
            ..e
        }
    } else if f == "alias"@ {
        JailbreakModel { alias: strings_at(j, f), ..e }
    } else if f == "priority"@ {
        JailbreakModel { priority: u64_at(j, f), ..e }
    } else if f == "hideFromGuide"@ {
        JailbreakModel { hide_from_guide: bool_at(j, f), ..e }
    } else if f == "info"@ {
        JailbreakModel { info: info_of(field(j, f)), ..e }
    } else if f == "compatibility"@ {
        if exists {
            JailbreakModel { compatibility: jailbreak_of(j).compatibility, ..e }
        } else {
            e
        }
    } else {
        e
    }
}

proof fn lemma_entry_literals_differ()
    ensures
        "name"@ != "key"@,
        "name"@ != "alias"@,
        "name"@ != "priority"@,
        "name"@ != "hideFromGuide"@,
        "name"@ != "info"@,
        "name"@ != "compatibility"@,
        "key"@ != "alias"@,
        "key"@ != "priority"@,
        "key"@ != "hideFromGuide"@,
        "key"@ != "info"@,
        "key"@ != "compatibility"@,
        "alias"@ != "priority"@,
        "alias"@ != "hideFromGuide"@,
        "alias"@ != "info"@,
        "alias"@ != "compatibility"@,
        "priority"@ != "hideFromGuide"@,
        "priority"@ != "info"@,
        "priority"@ != "compatibility"@,
        "hideFromGuide"@ != "info"@,
        "hideFromGuide"@ != "compatibility"@,
        "info"@ != "compatibility"@,
{
    reveal_strlit("name");
    reveal_strlit("key");
    reveal_strlit("alias");
    reveal_strlit("priority");
    reveal_strlit("hideFromGuide");
    reveal_strlit("info");
    reveal_strlit("compatibility");
    assert("name"@[0] != "key"@[0]);
    assert("name"@[0] != "alias"@[0]);
    assert("name"@[0] != "priority"@[0]);
    assert("name"@[0] != "hideFromGuide"@[0]);
    assert("name"@[0] != "info"@[0]);
    assert("name"@[0] != "compatibility"@[0]);
    assert("key"@[0] != "alias"@[0]);
    assert("key"@[0] != "priority"@[0]);
    assert("key"@[0] != "hideFromGuide"@[0]);
    assert("key"@[0] != "info"@[0]);
    assert("key"@[0] != "compatibility"@[0]);
    assert("alias"@[0] != "priority"@[0]);
    assert("alias"@[0] != "hideFromGuide"@[0]);
    assert("alias"@[0] != "info"@[0]);
    assert("alias"@[0] != "compatibility"@[0]);
    assert("priority"@[0] != "hideFromGuide"@[0]);
    assert("priority"@[0] != "info"@[0]);
    assert("priority"@[0] != "compatibility"@[0]);
    assert("hideFromGuide"@[0] != "info"@[0]);
    assert("hideFromGuide"@[0] != "compatibility"@[0]);
    assert("info"@[0] != "compatibility"@[0]);
}

/// Fills in the part of a jailbreak entry that the member `field_name` of its document gives.
/// The flag `field_exists_in_json` is taken as given: it picks between the `key` and `name`
/// members for the key, and whether the compatibilities are read at all.
pub fn match_entry(
    entry: JailbreakEntry,
    json: &JsonValue,
    field_name: &str,
    field_exists_in_json: bool,
) -> (r: JailbreakEntry)
    requires
        entry_field_ok(json@, field_name@, field_exists_in_json),
    ensures
        r@ == entry_with(entry@, json@, field_name@, field_exists_in_json),
{
    proof {
        lemma_entry_literals_differ();
    }
    let mut entry = entry;
    if text_is(field_name, "name") {
        entry.name = get_string(json, field_name);
    } else if text_is(field_name, "key") {
        entry.key = if field_exists_in_json {
            get_string(json, field_name)
        } else {
            get_string(json, "name")
        };
    } else if text_is(field_name, "alias") {
        entry.alias = get_vec_from_string_or_string_vec(json, field_name);
    } else if text_is(field_name, "priority") {
        entry.priority = get_u64(json, field_name);
    } else if text_is(field_name, "hideFromGuide") {
        entry.hide_from_guide = get_bool(json, field_name);
    } else if text_is(field_name, "info") {
        entry.info = match find_field(json, field_name) {
            Some(info_json) => info_from_json(info_json),
            None => empty_info(),
        };
    } else if text_is(field_name, "compatibility") {
        if field_exists_in_json {
            let mut compat_vec: Vec<JailbreakEntryCompatibility> = Vec::new();
            match find_field(json, field_name) {
                Some(JsonValue::Array(items)) => {
                    let ghost m = model(JsonValue::Array(*items))->Array_0;
                    let mut i: usize = 0;
                    while i < items.len()
                        invariant
                            m == model(JsonValue::Array(*items))->Array_0,
                            m.len() == items@.len(),
                            forall|k: int| 0 <= k < m.len() ==> compat_ok(#[trigger] m[k]),
                            i <= items@.len(),
                            compat_vec@.len() == i,
                            forall|k: int| 0 <= k < i ==> (#[trigger] compat_vec@[k])@ == compat_of(m[k]),
                        decreases items@.len() - i,
                    {
                        proof {
                            lemma_array_model(*items, i as int);
                        }
                        compat_vec.push(get_compat(&items[i]));
                        i = i + 1;
                    }
                },
                _ => {},
            }
            assert(compat_vec@.map_values(|c: JailbreakEntryCompatibility| c@) =~= jailbreak_of(
                json@,
            ).compatibility);
            entry.compatibility = compat_vec;
        }
    }
    entry
}

/// Reads a jailbreak entry from its document: each field is filled in by `match_entry`, in
/// the order of the fields.
pub fn create_jailbreak_entry_from_json(json: &JsonValue) -> (r: JailbreakEntry)
    requires
        jailbreak_ok(json@),
    ensures
        r@ == jailbreak_of(json@),
{
    proof {
        lemma_entry_literals_differ();
    }
    let mut entry = JailbreakEntry {
        name: String::new(),
        key: String::new(),
        alias: Vec::new(),
        priority: 0,
        hide_from_guide: false,
        info: empty_info(),
        compatibility: Vec::new(),
    };
    let e = has_member(json, "name");
    entry = match_entry(entry, json, "name", e);
    let e = has_member(json, "key");
    entry = match_entry(entry, json, "key", e);
    let e = has_member(json, "alias");
    entry = match_entry(entry, json, "alias", e);
    let e = has_member(json, "priority");
    entry = match_entry(entry, json, "priority", e);
    let e = has_member(json, "hideFromGuide");
    entry = match_entry(entry, json, "hideFromGuide", e);
    let e = has_member(json, "info");
    entry = match_entry(entry, json, "info", e);
    let e = has_member(json, "compatibility");
    entry = match_entry(entry, json, "compatibility", e);
    assert(entry@.compatibility =~= jailbreak_of(json@).compatibility);
    entry
}

/// Whether a jailbreak document can be read without a panic.
pub fn jailbreak_check(json: &JsonValue) -> (r: bool)
    ensures
        r == jailbreak_ok(json@),
{
    let info_ok_now = match find_field(json, "info") {
        Some(i) => info_check(i),
        None => info_check(&JsonValue::Null),
    };
    if !info_ok_now {
        return false;
    }
    match find_field(json, "compatibility") {
        None => true,
        Some(JsonValue::Array(items)) => {
            let ghost m = model(JsonValue::Array(*items))->Array_0;
            let mut i: usize = 0;
            while i < items.len()
                invariant
                    m == model(JsonValue::Array(*items))->Array_0,
                    field(json@, "compatibility"@) == Json::Array(m),
                    m.len() == items@.len(),
                    i <= items@.len(),
                    forall|k: int| 0 <= k < i ==> compat_ok(#[trigger] m[k]),
                decreases items@.len() - i,
            {
                proof {
                    lemma_array_model(*items, i as int);
                }
                if !string_array_check(&items[i], "firmwares") || !string_array_check(&items[i], "devices") {
                    return false;
                }
                i = i + 1;
            }
            true
        },
        _ => false,
    }
}

fn info_check(i: &JsonValue) -> (r: bool)
    ensures
        r == info_ok(i@),
{
    if !string_array_check(i, "guide") || !string_array_check(i, "firmwares") {
        return false;
    }
    match find_field(i, "guide") {
        Some(JsonValue::Array(items)) => {
            let ghost m = model(JsonValue::Array(*items))->Array_0;
            let mut k: usize = 0;
            while k < items.len()
                invariant
                    m == model(JsonValue::Array(*items))->Array_0,
                    field(i@, "guide"@) == Json::Array(m),
                    m.len() == items@.len(),
                    k <= items@.len(),
                    forall|x: int| 0 <= x < k ==> guide_ok(#[trigger] m[x]),
                decreases items@.len() - k,
            {
                proof {
                    lemma_array_model(*items, k as int);
                }
                let g = &items[k];
                if !string_array_check(g, "firmwares") || !string_array_check(g, "devices")
                    || !string_array_check(g, "updateLink") {
                    return false;
                }
                k = k + 1;
            }
            true
        },
        _ => true,
    }
}

/// Reads the jailbreak entry of a document, to be written under its name; `value_vec` passes
/// through unchanged, and no file is written here.
pub fn process_entry(json_value: &JsonValue, value_vec: Vec<JsonValue>) -> (r: (
    Vec<OutputEntry<JailbreakEntry>>,
    OutputFormat,
))
    requires
        jailbreak_ok(json_value@),
    ensures
        r.0@.len() == 1,
        r.0@[0].entry@ == jailbreak_of(json_value@),
        r.0@[0].key@ == string_at(json_value@, "name"@),
        r.1.value_vec@ == value_vec@,
        r.1.file_count == 0,
{
    let jailbreak_entry = create_jailbreak_entry_from_json(json_value);
    let key = jailbreak_entry.name.clone();
    let mut entries: Vec<OutputEntry<JailbreakEntry>> = Vec::new();
    entries.push(OutputEntry { entry: jailbreak_entry, key });
    (entries, OutputFormat { value_vec, file_count: 0 })
}

} // verus!
