use vstd::prelude::*;
use crate::json::{Json, JsonValue};

verus! {

/// The kinds of AppleDB documents.
#[derive(Clone, Copy, PartialEq, Eq, Debug, Structural)]
pub enum EntryType {
    Os,
    Device,
    DeviceGroup,
    Jailbreak,
    Bypass,
}

/// An entry ready to be written: the entry, and the key that names its file.
pub struct OutputEntry<E> {
    pub entry: E,
    pub key: String,
}

/// What a run over a directory of documents carries from one document to the next.
pub struct OutputFormat {
    pub value_vec: Vec<JsonValue>,
    pub file_count: u32,
}

/// The number of files a run has written, after `n` more, or `None` where the count would
/// not fit a `u32`.
pub fn add_file_count(count: u32, n: u32) -> (r: Option<u32>)
    ensures
        r matches Some(c) ==> c == count + n,
        r is None <==> count + n > u32::MAX,
{
    count.checked_add(n)
}

/// The offset at which a JSON list file is closed: over its last byte (the comma after the
/// last item, or the opening bracket of an empty list), except for a file of at most one
/// byte, which is closed at its end.
pub fn closing_offset(len: u64) -> (r: u64)
    ensures
        len > 1 ==> r == len - 1,
        len <= 1 ==> r == len,
{
    if len > 1 {
        len - 1
    } else {
        len
    }
}

/// The lines that an entry adds to the `main.json` and `index.json` lists of its directory:
/// its JSON text followed by a comma, and its key in quotes followed by a comma.
pub fn list_file_lines(json: &String, key: &String) -> (r: (String, String))
    ensures
        r.0@ == json@ + ","@,
        r.1@ == "\""@ + key@ + "\","@,
{
    let mut main_line = json.clone();
    main_line.append(",");
    let mut index_line = String::from_str("\"");
    index_line.append(key.as_str());
    index_line.append("\",");
    (main_line, index_line)
}

/// `list` holds the model `v`.
pub open spec fn holds(list: Seq<Json>, v: Json) -> bool {
    list.contains(v)
}

/// The items of a list differ pairwise.
pub open spec fn no_duplicates(list: Seq<Json>) -> bool {
    forall|i: int, j: int| 0 <= i < list.len() && 0 <= j < list.len() && i != j ==> list[i] != list[j]
}

/// Whether `list` holds a string with the text `s`.
pub fn holds_text(list: &Vec<JsonValue>, s: &String) -> (r: bool)
    ensures
        r == crate::json::models(list@).contains(Json::Str(s@)),
{
    let mut i: usize = 0;
    while i < list.len()
        invariant
            i <= list@.len(),
            forall|j: int| 0 <= j < i ==> (#[trigger] list@[j])@ != Json::Str(s@),
        decreases list@.len() - i,
    {
        match &list[i] {
            JsonValue::String(t) => {
                if *t == *s {
                    assert(crate::json::models(list@)[i as int] == Json::Str(s@));
                    return true;
                }
            },
            _ => {},
        }
        i = i + 1;
    }
    proof {
        let m = crate::json::models(list@);
        if m.contains(Json::Str(s@)) {
            let w = choose|k: int| 0 <= k < m.len() && m[k] == Json::Str(s@);
            assert(list@[w]@ == Json::Str(s@));
        }
    }
    false
}


/// The list with the string `t` added at its end, where it does not hold it already.
pub open spec fn add_one_text(list: Seq<Json>, t: Seq<char>) -> Seq<Json> {
    if list.contains(Json::Str(t)) {
        list
    } else {
        list.push(Json::Str(t))
    }
}

/// The list after each text is seen in turn: a text whose string is not yet in the list is
/// added at its end.
pub open spec fn add_texts(vals: Seq<Json>, texts: Seq<Seq<char>>) -> Seq<Json>
    decreases texts.len(),
{
    if texts.len() == 0 {
        vals
    } else {
        add_one_text(add_texts(vals, texts.drop_last()), texts.last())
    }
}

pub proof fn lemma_add_texts_push(vals: Seq<Json>, texts: Seq<Seq<char>>, t: Seq<char>)
    ensures
        add_texts(vals, texts.push(t)) == add_one_text(add_texts(vals, texts), t),
{
    assert(texts.push(t).drop_last() =~= texts);
}

/// Adding texts never makes a list hold an item twice, where it did not before.
pub proof fn law_add_texts_unique(vals: Seq<Json>, texts: Seq<Seq<char>>)
    requires
        no_duplicates(vals),
    ensures
        no_duplicates(add_texts(vals, texts)),
    decreases texts.len(),
{
    if texts.len() > 0 {
        law_add_texts_unique(vals, texts.drop_last());
        let prev = add_texts(vals, texts.drop_last());
        let s = Json::Str(texts.last());
        if !prev.contains(s) {
            let next = prev.push(s);
            assert forall|i: int, j: int|
                0 <= i < next.len() && 0 <= j < next.len() && i != j implies next[i] != next[j] by {
                if i == prev.len() {
                    assert(prev[j] != s);
                } else if j == prev.len() {
                    assert(prev[i] != s);
                }
            }
        }
    }
}

/// Adding texts keeps what the list held, adds each text, and adds nothing else: the list
/// afterwards is what it held followed by texts, each at most once.
pub proof fn law_add_texts_contents(vals: Seq<Json>, texts: Seq<Seq<char>>)
    ensures
        vals.is_prefix_of(add_texts(vals, texts)),
        forall|i: int| 0 <= i < texts.len() ==> add_texts(vals, texts).contains(Json::Str(#[trigger] texts[i])),
        forall|x: Json| add_texts(vals, texts).contains(x) ==> vals.contains(x) || exists|i: int|
            0 <= i < texts.len() && x == Json::Str(#[trigger] texts[i]),
    decreases texts.len(),
{
    if texts.len() > 0 {
        let rest = texts.drop_last();
        law_add_texts_contents(vals, rest);
        let prev = add_texts(vals, rest);
        let s = Json::Str(texts.last());
        let next = add_texts(vals, texts);
        assert(prev.is_prefix_of(next));
        assert(vals.is_prefix_of(next)) by {
            assert forall|k: int| 0 <= k < vals.len() implies vals[k] == next[k] by {
                assert(prev[k] == vals[k]);
            }
        }
        assert(next.contains(s)) by {
            if !prev.contains(s) {
                assert(next[prev.len() as int] == s);
            }
        }
        assert forall|i: int| 0 <= i < texts.len() implies next.contains(Json::Str(#[trigger] texts[i])) by {
            if i < texts.len() - 1 {
                assert(rest[i] == texts[i]);
                assert(prev.contains(Json::Str(rest[i])));
                let w = choose|k: int| 0 <= k < prev.len() && prev[k] == Json::Str(rest[i]);
                assert(next[w] == Json::Str(texts[i]));
            }
        }
        assert forall|x: Json| next.contains(x) implies vals.contains(x) || exists|i: int|
            0 <= i < texts.len() && x == Json::Str(#[trigger] texts[i]) by {
            let w = choose|k: int| 0 <= k < next.len() && next[k] == x;
            if w < prev.len() {
                assert(prev.contains(x));
                if !vals.contains(x) {
                    let i = choose|i: int| 0 <= i < rest.len() && x == Json::Str(#[trigger] rest[i]);
                    assert(texts[i] == rest[i]);
                }
            } else {
                assert(x == Json::Str(texts[texts.len() - 1]));
            }
        }
    }
}

/// Adds the string `s` at the end of `list`, where `list` does not hold it already.
pub fn add_text(list: &mut Vec<JsonValue>, s: &String)
    ensures
        crate::json::models(final(list)@) == add_one_text(crate::json::models(old(list)@), s@),
{
    let ghost before = list@;
    if !holds_text(list, s) {
        list.push(JsonValue::String(s.clone()));
        proof {
            crate::json::lemma_models_push(before, list@.last());
        }
    }
}

} // verus!
