use vstd::prelude::*;
use crate::json::{
    field, find_field, get_string, has_member, lemma_array_model, model, string_at, Json, JsonValue,
};
use crate::output::{OutputEntry, OutputFormat};
use crate::text::text_is;

verus! {

/// Where a bypass is published.
pub struct BypassEntryBypassRepository {
    pub uri: String,
}

/// One way to bypass an app's jailbreak detection.
pub struct BypassEntryBypass {
    pub name: String,
    pub notes: String,
    pub version: String,
    pub guide: String,
    pub repository: BypassEntryBypassRepository,
}

/// An app that detects jailbreaks, and the bypasses for it.
pub struct BypassEntry {
    pub name: String,
    pub bundle_id: String,
    pub uri: String,
    pub icon: String,
    pub notes: String,
    pub bypasses: Vec<BypassEntryBypass>,
}

pub struct BypassItemModel {
    pub name: Seq<char>,
    pub notes: Seq<char>,
    pub version: Seq<char>,
    pub guide: Seq<char>,
    pub repository_uri: Seq<char>,
}

pub struct BypassModel {
    pub name: Seq<char>,
    pub bundle_id: Seq<char>,
    pub uri: Seq<char>,
    pub icon: Seq<char>,
    pub notes: Seq<char>,
    pub bypasses: Seq<BypassItemModel>,
}

impl View for BypassEntryBypass {
    type V = BypassItemModel;

    open spec fn view(&self) -> BypassItemModel {
        BypassItemModel {
            name: self.name@,
            notes: self.notes@,
            version: self.version@,
            guide: self.guide@,
            repository_uri: self.repository.uri@,
        }
    }
}

impl View for BypassEntry {
    type V = BypassModel;

    open spec fn view(&self) -> BypassModel {
        BypassModel {
            name: self.name@,
            bundle_id: self.bundle_id@,
            uri: self.uri@,
            icon: self.icon@,
            notes: self.notes@,
            bypasses: self.bypasses@.map_values(|b: BypassEntryBypass| b@),
        }
    }
}

/// A bypass read from its document: `name`, `notes`, `version`, `guide`, and the `uri` of
/// its `repository` object.
pub open spec fn bypass_item_of(b: Json) -> BypassItemModel {
    BypassItemModel {
        name: string_at(b, "name"@),
        notes: string_at(b, "notes"@),
        version: string_at(b, "version"@),
        guide: string_at(b, "guide"@),
        repository_uri: string_at(field(b, "repository"@), "uri"@),
    }
}

/// The bypasses of a document: one per item of its `bypasses` array, none where that member
/// is not an array.
pub open spec fn bypasses_of(j: Json) -> Seq<BypassItemModel> {
    match field(j, "bypasses"@) {
        Json::Array(items) => items.map_values(|b: Json| bypass_item_of(b)),
        _ => Seq::empty(),
    }
}

/// The bypass entry that a document describes.
pub open spec fn bypass_of(j: Json) -> BypassModel {
    BypassModel {
        name: string_at(j, "name"@),
        bundle_id: string_at(j, "bundleId"@),
        uri: string_at(j, "uri"@),
        icon: string_at(j, "icon"@),
        notes: string_at(j, "notes"@),
        bypasses: bypasses_of(j),
    }
}

/// An entry with the part that the member `f` of its document gives filled in.
pub open spec fn bypass_with(e: BypassModel, j: Json, f: Seq<char>) -> BypassModel {
    if f == "name"@ {
        BypassModel { name: string_at(j, f), ..e }
    } else if f == "bundleId"@ {
        BypassModel { bundle_id: string_at(j, f), ..e }
    } else if f == "uri"@ {
        BypassModel { uri: string_at(j, f), ..e }
    } else if f == "icon"@ {
        BypassModel { icon: string_at(j, f), ..e }
    } else if f == "notes"@ {
        BypassModel { notes: string_at(j, f), ..e }
    } else if f == "bypasses"@ {
        BypassModel { bypasses: bypasses_of(j), ..e }
    } else {
        e
    }
}

/// A bypass entry has one bypass per item of its `bypasses` array, in order, each with the
/// item's `name`, `notes`, `version`, `guide` and the `uri` of its `repository`; its other
/// parts are the members of those names.
pub proof fn law_bypass_reads(j: Json)
    ensures
        bypass_of(j).name == string_at(j, "name"@),
        bypass_of(j).bundle_id == string_at(j, "bundleId"@),
        bypass_of(j).uri == string_at(j, "uri"@),
        bypass_of(j).icon == string_at(j, "icon"@),
        bypass_of(j).notes == string_at(j, "notes"@),
        field(j, "bypasses"@) matches Json::Array(items) ==> {
            &&& bypass_of(j).bypasses.len() == items.len()
            &&& forall|i: int|
                0 <= i < items.len() ==> {
                    &&& bypass_of(j).bypasses[i].name == string_at(#[trigger] items[i], "name"@)
                    &&& bypass_of(j).bypasses[i].notes == string_at(items[i], "notes"@)
                    &&& bypass_of(j).bypasses[i].version == string_at(items[i], "version"@)
                    &&& bypass_of(j).bypasses[i].guide == string_at(items[i], "guide"@)
                    &&& bypass_of(j).bypasses[i].repository_uri == string_at(
                        field(items[i], "repository"@),
                        "uri"@,
                    )
                }
        },
        !(field(j, "bypasses"@) is Array) ==> bypass_of(j).bypasses.len() == 0,
{
}

/// Reads one bypass from its document.
pub fn create_bypass(b: &JsonValue) -> (r: BypassEntryBypass)
    ensures
        r@ == bypass_item_of(b@),
{
    let repository_uri = match find_field(b, "repository") {
        Some(repo) => get_string(repo, "uri"),
        None => String::new(),
    };
    BypassEntryBypass {
        name: get_string(b, "name"),
        notes: get_string(b, "notes"),
        version: get_string(b, "version"),
        guide: get_string(b, "guide"),
        repository: BypassEntryBypassRepository { uri: repository_uri },
    }
}

/// Reads the bypasses of a document, one per item of its `bypasses` array.
pub fn get_bypasses(json: &JsonValue) -> (r: Vec<BypassEntryBypass>)
    ensures
        r@.map_values(|b: BypassEntryBypass| b@) == bypasses_of(json@),
{
    let mut out: Vec<BypassEntryBypass> = Vec::new();
    match find_field(json, "bypasses") {
        Some(JsonValue::Array(items)) => {
            let ghost m = model(JsonValue::Array(*items))->Array_0;
            let mut i: usize = 0;
            while i < items.len()
                invariant
                    m == model(JsonValue::Array(*items))->Array_0,
                    m.len() == items@.len(),
                    i <= items@.len(),
                    out@.len() == i,
                    forall|k: int| 0 <= k < i ==> (#[trigger] out@[k])@ == bypass_item_of(m[k]),
                decreases items@.len() - i,
            {
                proof {
                    lemma_array_model(*items, i as int);
                }
                out.push(create_bypass(&items[i]));
                i = i + 1;
            }
        },
        _ => {},
    }
    assert(out@.map_values(|b: BypassEntryBypass| b@) =~= bypasses_of(json@));
    out
}

proof fn lemma_bypass_literals_differ()
    ensures
        "name"@ != "bundleId"@,
        "name"@ != "uri"@,
        "name"@ != "icon"@,
        "name"@ != "notes"@,
        "name"@ != "bypasses"@,
        "bundleId"@ != "uri"@,
        "bundleId"@ != "icon"@,
        "bundleId"@ != "notes"@,
        "bundleId"@ != "bypasses"@,
        "uri"@ != "icon"@,
        "uri"@ != "notes"@,
        "uri"@ != "bypasses"@,
        "icon"@ != "notes"@,
        "icon"@ != "bypasses"@,
        "notes"@ != "bypasses"@,
{
    reveal_strlit("name");
    reveal_strlit("bundleId");
    reveal_strlit("uri");
    reveal_strlit("icon");
    reveal_strlit("notes");
    reveal_strlit("bypasses");
    assert("name"@[0] != "bundleId"@[0]);
    assert("name"@[0] != "uri"@[0]);
    assert("name"@[0] != "icon"@[0]);
    assert("name"@[1] != "notes"@[1]);
    assert("name"@[0] != "bypasses"@[0]);
    assert("bundleId"@[1] != "bypasses"@[1]);
    assert("bundleId"@[0] != "uri"@[0]);
    assert("bundleId"@[0] != "icon"@[0]);
    assert("bundleId"@[0] != "notes"@[0]);
    assert("uri"@[0] != "icon"@[0]);
    assert("uri"@[0] != "notes"@[0]);
    assert("uri"@[0] != "bypasses"@[0]);
    assert("icon"@[0] != "notes"@[0]);
    assert("icon"@[0] != "bypasses"@[0]);
    assert("notes"@[0] != "bypasses"@[0]);
}

/// Fills in the part of a bypass entry that the member `field_name` of its document gives;
/// any other field name leaves the entry as it is. Whether the member exists makes no
/// difference.
pub fn match_entry(
    entry: BypassEntry,
    json: &JsonValue,
    field_name: &str,
    field_exists_in_json: bool,
) -> (r: BypassEntry)
    ensures
        r@ == bypass_with(entry@, json@, field_name@),
{
    let mut entry = entry;
    if text_is(field_name, "name") {
        entry.name = get_string(json, field_name);
    } else if text_is(field_name, "bundleId") {
        entry.bundle_id = get_string(json, field_name);
    } else if text_is(field_name, "uri") {
        entry.uri = get_string(json, field_name);
    } else if text_is(field_name, "icon") {
        entry.icon = get_string(json, field_name);
    } else if text_is(field_name, "notes") {
        entry.notes = get_string(json, field_name);
    } else if text_is(field_name, "bypasses") {
        entry.bypasses = get_bypasses(json);
    }
    entry
}

/// Reads a bypass entry from its document: each field is filled in by `match_entry`, in the
/// order of the fields.
pub fn create_bypass_entry_from_json(json: &JsonValue) -> (r: BypassEntry)
    ensures
        r@ == bypass_of(json@),
{
    proof {
        lemma_bypass_literals_differ();
    }
    let mut entry = BypassEntry {
        name: String::new(),
        bundle_id: String::new(),
        uri: String::new(),
        icon: String::new(),
        notes: String::new(),
        bypasses: Vec::new(),
    };
    let e = has_member(json, "name");
    entry = match_entry(entry, json, "name", e);
    let e = has_member(json, "bundleId");
    entry = match_entry(entry, json, "bundleId", e);
    let e = has_member(json, "uri");
    entry = match_entry(entry, json, "uri", e);
    let e = has_member(json, "icon");
    entry = match_entry(entry, json, "icon", e);
    let e = has_member(json, "notes");
    entry = match_entry(entry, json, "notes", e);
    let e = has_member(json, "bypasses");
    entry = match_entry(entry, json, "bypasses", e);
    assert(entry@.bypasses =~= bypass_of(json@).bypasses);
    entry
}

/// Reads the bypass entry of a document, to be written under its bundle id; `value_vec`
/// passes through unchanged, and no file is written here.
pub fn process_entry(json_value: &JsonValue, value_vec: Vec<JsonValue>) -> (r: (
    Vec<OutputEntry<BypassEntry>>,
    OutputFormat,
))
    ensures
        r.0@.len() == 1,
        r.0@[0].entry@ == bypass_of(json_value@),
        r.0@[0].key@ == string_at(json_value@, "bundleId"@),
        r.1.value_vec@ == value_vec@,
        r.1.file_count == 0,
{
    let bypass_entry = create_bypass_entry_from_json(json_value);
    let key = bypass_entry.bundle_id.clone();
    let mut entries: Vec<OutputEntry<BypassEntry>> = Vec::new();
    entries.push(OutputEntry { entry: bypass_entry, key });
    (entries, OutputFormat { value_vec, file_count: 0 })
}

} // verus!
