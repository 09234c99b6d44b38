use vstd::prelude::*;

verus! {

/// A JSON number as read from a document.
pub enum JsonNumber {
    PosInt(u64),
    NegInt(i64),
    Float(String),
}

/// A JSON document.
pub enum JsonValue {
    Null,
    Bool(bool),
    Number(JsonNumber),
    String(String),
    Array(Vec<JsonValue>),
    Object(Vec<(String, JsonValue)>),
}

/// The mathematical model of a JSON number.
pub enum NumberModel {
    PosInt(u64),
    NegInt(i64),
    Float(Seq<char>),
}

/// The mathematical model of a JSON document.
#[verifier::ext_equal]
pub enum Json {
    Null,
    Bool(bool),
    Number(NumberModel),
    Str(Seq<char>),
    Array(Seq<Json>),
    Object(Seq<(Seq<char>, Json)>),
}

impl View for JsonNumber {
    type V = NumberModel;

    open spec fn view(&self) -> NumberModel {
        match self {
            JsonNumber::PosInt(n) => NumberModel::PosInt(*n),
            JsonNumber::NegInt(n) => NumberModel::NegInt(*n),
            JsonNumber::Float(s) => NumberModel::Float(s@),
        }
    }
}

pub open spec fn model(v: JsonValue) -> Json
    decreases v,
{
    match v {
        JsonValue::Null => Json::Null,
        JsonValue::Bool(b) => Json::Bool(b),
        JsonValue::Number(n) => Json::Number(n@),
        JsonValue::String(s) => Json::Str(s@),
        JsonValue::Array(a) => Json::Array(
            Seq::new(a@.len(), |i: int| if 0 <= i < a@.len() { model(a@[i]) } else { Json::Null }),
        ),
        JsonValue::Object(o) => Json::Object(
            Seq::new(o@.len(), |i: int| if 0 <= i < o@.len() { (o@[i].0@, model(o@[i].1)) } else { (Seq::empty(), Json::Null) }),
        ),
    }
}


impl View for JsonValue {
    type V = Json;

    open spec fn view(&self) -> Json {
        model(*self)
    }
}

impl JsonNumber {
    pub fn clone_number(&self) -> (r: JsonNumber)
        ensures
            r@ == self@,
    {
        match self {
            JsonNumber::PosInt(n) => JsonNumber::PosInt(*n),
            JsonNumber::NegInt(n) => JsonNumber::NegInt(*n),
            JsonNumber::Float(s) => JsonNumber::Float(s.clone()),
        }
    }
}

impl JsonValue {
    pub fn clone_value(&self) -> (r: JsonValue)
        ensures
            r@ == self@,
        decreases self,
    {
        match self {
            JsonValue::Null => JsonValue::Null,
            JsonValue::Bool(b) => JsonValue::Bool(*b),
            JsonValue::Number(n) => JsonValue::Number(n.clone_number()),
            JsonValue::String(s) => JsonValue::String(s.clone()),
            JsonValue::Array(a) => {
                let mut out: Vec<JsonValue> = Vec::new();
                let mut i: usize = 0;
                while i < a.len()
                    invariant
                        *self == JsonValue::Array(*a),
                        i <= a@.len(),
                        out@.len() == i,
                        forall|j: int| 0 <= j < i ==> model(#[trigger] out@[j]) == model(a@[j]),
                    decreases a@.len() - i,
                {
                    assert(decreases_to!(*self => a@[i as int])) by {
                        assert(decreases_to!(*self => self->Array_0));
                        assert(decreases_to!(*a => a@));
                        assert(decreases_to!(a@ => a@[i as int]));
                    }
                    let c = a[i].clone_value();
                    out.push(c);
                    i = i + 1;
                }
                let r = JsonValue::Array(out);
                assert(model(r) is Array);
                assert(model(r)->Array_0.len() == a@.len());
                assert(model(*self)->Array_0.len() == a@.len());
                assert(forall|k: int| 0 <= k < a@.len() ==> model(r)->Array_0[k] == model(out@[k]));
                assert(forall|k: int| 0 <= k < a@.len() ==> model(*self)->Array_0[k] == model(a@[k]));
                assert(model(r)->Array_0 =~= model(*self)->Array_0);
                r
            },
            JsonValue::Object(o) => {
                let mut out: Vec<(String, JsonValue)> = Vec::new();
                let mut i: usize = 0;
                while i < o.len()
                    invariant
                        *self == JsonValue::Object(*o),
                        i <= o@.len(),
                        out@.len() == i,
                        forall|j: int| 0 <= j < i ==> (#[trigger] out@[j]).0@ == o@[j].0@ && model(out@[j].1) == model(o@[j].1),
                    decreases o@.len() - i,
                {
                    assert(decreases_to!(*self => o@[i as int].1)) by {
                        assert(decreases_to!(*self => self->Object_0));
                        assert(decreases_to!(o@[i as int] => o@[i as int].1));
                        assert(decreases_to!(*o => o@));
                        assert(decreases_to!(o@ => o@[i as int]));
                    }
                    let k = o[i].0.clone();
                    let c = o[i].1.clone_value();
                    out.push((k, c));
                    i = i + 1;
                }
                let r = JsonValue::Object(out);
                assert(forall|k: int| 0 <= k < o@.len() ==> model(r)->Object_0[k] == (out@[k].0@, model(out@[k].1)));
                assert(forall|k: int| 0 <= k < o@.len() ==> model(*self)->Object_0[k] == (o@[k].0@, model(o@[k].1)));
                assert(model(r)->Object_0 =~= model(*self)->Object_0);
                r
            },
        }
    }
}


/// `i` is the position of the first entry of `entries` whose key is `key`.
pub open spec fn first_key_at(entries: Seq<(Seq<char>, Json)>, key: Seq<char>, i: int) -> bool {
    &&& 0 <= i < entries.len()
    &&& entries[i].0 == key
    &&& forall|j: int| 0 <= j < i ==> #[trigger] entries[j].0 != key
}

/// Some entry of `entries` has the key `key`.
pub open spec fn entries_have(entries: Seq<(Seq<char>, Json)>, key: Seq<char>) -> bool {
    exists|i: int| 0 <= i < entries.len() && #[trigger] entries[i].0 == key
}

/// The value stored under `key`: that of its first entry, or `Null` where there is none.
pub open spec fn entries_get(entries: Seq<(Seq<char>, Json)>, key: Seq<char>) -> Json {
    if exists|i: int| first_key_at(entries, key, i) {
        entries[choose|i: int| first_key_at(entries, key, i)].1
    } else {
        Json::Null
    }
}

/// No two members of an object share a name (anything else has no members).
pub open spec fn members_distinct(j: Json) -> bool {
    match j {
        Json::Object(e) => forall|a: int, b: int|
            0 <= a < e.len() && 0 <= b < e.len() && a != b ==> #[trigger] e[a].0 != #[trigger] e[b].0,
        _ => true,
    }
}

/// A well-formed document: in it and in every document nested in it, no two members of an
/// object share a name, as in a parsed JSON text.
pub open spec fn json_wf(j: Json) -> bool
    decreases j,
{
    match j {
        Json::Array(items) => forall|i: int| 0 <= i < items.len() ==> json_wf(#[trigger] items[i]),
        Json::Object(e) => {
            &&& members_distinct(j)
            &&& forall|i: int|
                0 <= i < e.len() ==> {
                    proof {
                        assert(decreases_to!(e => e[i]));
                    }
                    json_wf(#[trigger] e[i].1)
                }
        },
        _ => true,
    }
}

/// `j` is an object with a member named `key`.
pub open spec fn has_field(j: Json, key: Seq<char>) -> bool {
    match j {
        Json::Object(e) => entries_have(e, key),
        _ => false,
    }
}

/// `j[key]`: the member named `key` of an object, and `Null` for anything else.
pub open spec fn field(j: Json, key: Seq<char>) -> Json {
    match j {
        Json::Object(e) => entries_get(e, key),
        _ => Json::Null,
    }
}

/// The member names of an object, in order; nothing for any other value.
pub open spec fn field_keys(j: Json) -> Seq<Seq<char>> {
    match j {
        Json::Object(e) => e.map_values(|p: (Seq<char>, Json)| p.0),
        _ => Seq::empty(),
    }
}

/// The text of a string member, and the empty text otherwise.
pub open spec fn string_at(j: Json, key: Seq<char>) -> Seq<char> {
    match field(j, key) {
        Json::Str(s) => s,
        _ => Seq::empty(),
    }
}

/// The value of a boolean member, and `false` otherwise.
pub open spec fn bool_at(j: Json, key: Seq<char>) -> bool {
    match field(j, key) {
        Json::Bool(b) => b,
        _ => false,
    }
}

/// The value of a member that is a non-negative integer, and `0` otherwise.
pub open spec fn u64_at(j: Json, key: Seq<char>) -> u64 {
    match field(j, key) {
        Json::Number(NumberModel::PosInt(n)) => n,
        _ => 0,
    }
}

/// The text of a string, and the empty text for any other value.
pub open spec fn text_or_empty(j: Json) -> Seq<char> {
    match j {
        Json::Str(s) => s,
        _ => Seq::empty(),
    }
}

/// Each item of an array as text: strings give their text, anything else the empty text.
pub open spec fn texts_of(items: Seq<Json>) -> Seq<Seq<char>> {
    items.map_values(|x: Json| text_or_empty(x))
}

/// `get_string_array` does not panic: the member is absent or is an array.
pub open spec fn string_array_ok(j: Json, key: Seq<char>) -> bool {
    !has_field(j, key) || field(j, key) is Array
}

/// The items of an array member as text; nothing where the member is absent.
pub open spec fn string_array_at(j: Json, key: Seq<char>) -> Seq<Seq<char>> {
    match field(j, key) {
        Json::Array(items) => texts_of(items),
        _ => Seq::empty(),
    }
}

/// A member that is a string gives a list of that one text, an array the texts of its items,
/// anything else nothing.
pub open spec fn strings_at(j: Json, key: Seq<char>) -> Seq<Seq<char>> {
    match field(j, key) {
        Json::Str(s) => seq![s],
        Json::Array(items) => texts_of(items),
        _ => Seq::empty(),
    }
}

/// A member that is an object, and otherwise the string `"{}"`.
pub open spec fn object_at(j: Json, key: Seq<char>) -> Json {
    if field(j, key) is Object {
        field(j, key)
    } else {
        Json::Str("{}"@)
    }
}

/// What the member readers give: a string member gives its text and anything else the empty
/// text; a boolean member its value and anything else `false`; a non-negative integer member
/// its value and anything else `0`; an array member one text per item, in order (the empty
/// text for an item that is not a string); a string member read as a list gives that one
/// text; an object member read as an object gives itself, anything else the text `{}`.
pub proof fn law_member_readers(j: Json, key: Seq<char>)
    ensures
        field(j, key) matches Json::Str(s) ==> string_at(j, key) == s,
        !(field(j, key) is Str) ==> string_at(j, key) == Seq::<char>::empty(),
        field(j, key) matches Json::Bool(b) ==> bool_at(j, key) == b,
        !(field(j, key) is Bool) ==> !bool_at(j, key),
        field(j, key) matches Json::Number(NumberModel::PosInt(n)) ==> u64_at(j, key) == n,
        !(field(j, key) matches Json::Number(NumberModel::PosInt(_))) ==> u64_at(j, key) == 0,
        field(j, key) matches Json::Array(items) ==> {
            &&& string_array_at(j, key).len() == items.len()
            &&& strings_at(j, key).len() == items.len()
            &&& forall|i: int|
                0 <= i < items.len() ==> (#[trigger] items[i] matches Json::Str(t) ==> string_array_at(
                    j,
                    key,
                )[i] == t && strings_at(j, key)[i] == t) && (!(items[i] is Str) ==> string_array_at(
                    j,
                    key,
                )[i] == Seq::<char>::empty() && strings_at(j, key)[i] == Seq::<char>::empty())
        },
        !(field(j, key) is Array) ==> string_array_at(j, key) == Seq::<Seq<char>>::empty(),
        field(j, key) matches Json::Str(s) ==> strings_at(j, key) == seq![s],
        !(field(j, key) is Str || field(j, key) is Array) ==> strings_at(j, key) == Seq::<Seq<char>>::empty(),
        field(j, key) is Object ==> object_at(j, key) == field(j, key),
        !(field(j, key) is Object) ==> object_at(j, key) == Json::Str(seq!['{', '}']),
        !(j is Object) ==> field(j, key) == Json::Null,
{
    reveal_strlit("{}");
    assert("{}"@ =~= seq!['{', '}']);
}

/// A member is looked up by its first occurrence: where an object's member at `i` is the
/// first with the name `key`, that member's value is read; an object with no such member, or
/// any other value, reads as `Null`.
pub proof fn law_field_lookup(j: Json, key: Seq<char>, i: int)
    ensures
        (j matches Json::Object(e) && 0 <= i < e.len() && e[i].0 == key && forall|k: int|
            0 <= k < i ==> #[trigger] e[k].0 != key) ==> field(j, key) == j->Object_0[i].1
            && has_field(j, key),
        (j matches Json::Object(e) && forall|k: int| 0 <= k < e.len() ==> #[trigger] e[k].0 != key)
            ==> field(j, key) == Json::Null && !has_field(j, key),
{
    if let Json::Object(e) = j {
        if 0 <= i < e.len() && e[i].0 == key && forall|k: int| 0 <= k < i ==> #[trigger] e[k].0 != key {
            assert(first_key_at(e, key, i));
            let c = choose|m: int| first_key_at(e, key, m);
            lemma_first_key_unique(e, key, i, c);
        }
    }
}

/// The first entry with a given key is unique.
pub proof fn lemma_first_key_unique(entries: Seq<(Seq<char>, Json)>, key: Seq<char>, i: int, k: int)
    requires
        first_key_at(entries, key, i),
        first_key_at(entries, key, k),
    ensures
        i == k,
{
    if i < k {
        assert(entries[i].0 != key);
    } else if k < i {
        assert(entries[k].0 != key);
    }
}

/// Where some entry has the key, the first one exists.
pub proof fn lemma_first_key_exists(entries: Seq<(Seq<char>, Json)>, key: Seq<char>)
    requires
        entries_have(entries, key),
    ensures
        exists|i: int| first_key_at(entries, key, i),
    decreases entries.len(),
{
    if entries[0].0 == key {
        assert(first_key_at(entries, key, 0));
    } else {
        let rest = entries.drop_first();
        let w = choose|i: int| 0 <= i < entries.len() && #[trigger] entries[i].0 == key;
        assert(rest[w - 1].0 == key);
        lemma_first_key_exists(rest, key);
        let k = choose|i: int| first_key_at(rest, key, i);
        assert forall|j: int| 0 <= j < k + 1 implies #[trigger] entries[j].0 != key by {
            if j > 0 {
                assert(entries[j] == rest[j - 1]);
            }
        }
        assert(first_key_at(entries, key, k + 1));
    }
}

/// The model of an object is the list of its keys' texts paired with its values' models.
pub proof fn lemma_object_model(o: Vec<(String, JsonValue)>, i: int)
    requires
        0 <= i < o@.len(),
    ensures
        model(JsonValue::Object(o)) is Object,
        model(JsonValue::Object(o))->Object_0.len() == o@.len(),
        model(JsonValue::Object(o))->Object_0[i] == (o@[i].0@, model(o@[i].1)),
{
}

/// The model of an array is the list of its items' models.
pub proof fn lemma_array_model(a: Vec<JsonValue>, i: int)
    requires
        0 <= i < a@.len(),
    ensures
        model(JsonValue::Array(a)) is Array,
        model(JsonValue::Array(a))->Array_0.len() == a@.len(),
        model(JsonValue::Array(a))->Array_0[i] == model(a@[i]),
{
}

/// Finds the member named `field` of an object: `None` where there is none,
/// or where `json` is not an object.
pub fn find_field<'a>(json: &'a JsonValue, field_name: &str) -> (r: Option<&'a JsonValue>)
    ensures
        r is Some <==> has_field(json@, field_name@),
        r matches Some(v) ==> v@ == field(json@, field_name@),
{
    match json {
        JsonValue::Object(o) => {
            let key = field_name.to_string();
            let ghost e = json@->Object_0;
            proof {
                assert(e.len() == o@.len());
            }
            let mut i: usize = 0;
            while i < o.len()
                invariant
                    json@ == model(JsonValue::Object(*o)),
                    e == json@->Object_0,
                    e.len() == o@.len(),
                    key@ == field_name@,
                    i <= o@.len(),
                    forall|j: int| 0 <= j < i ==> #[trigger] e[j].0 != key@,
                decreases o@.len() - i,
            {
                proof {
                    lemma_object_model(*o, i as int);
                }
                if o[i].0 == key {
                    proof {
                        assert(first_key_at(e, key@, i as int));
                        assert(entries_have(e, key@));
                        let c = choose|k: int| first_key_at(e, key@, k);
                        lemma_first_key_unique(e, key@, i as int, c);
                    }
                    return Some(&o[i].1);
                }
                i = i + 1;
            }
            proof {
                if entries_have(e, key@) {
                    let w = choose|k: int| 0 <= k < e.len() && #[trigger] e[k].0 == key@;
                    assert(e[w].0 != key@);
                }
            }
            None
        },
        _ => None,
    }
}

/// The member names of an object, in order; an empty list for any other value.
pub fn get_object_field_list(json: &JsonValue) -> (r: Vec<String>)
    ensures
        r.deep_view() == field_keys(json@),
        json@ is Object ==> r@.len() == json@->Object_0.len(),
        !(json@ is Object) ==> r@.len() == 0,
        members_distinct(json@) ==> r.deep_view().no_duplicates(),
{
    let mut out: Vec<String> = Vec::new();
    match json {
        JsonValue::Object(o) => {
            let ghost e = json@->Object_0;
            let mut i: usize = 0;
            while i < o.len()
                invariant
                    json@ == model(JsonValue::Object(*o)),
                    e == json@->Object_0,
                    e.len() == o@.len(),
                    i <= o@.len(),
                    out@.len() == i,
                    forall|j: int| 0 <= j < i ==> (#[trigger] out@[j])@ == e[j].0,
                decreases o@.len() - i,
            {
                proof {
                    lemma_object_model(*o, i as int);
                }
                out.push(o[i].0.clone());
                i = i + 1;
            }
            assert(out.deep_view() =~= field_keys(json@));
        },
        _ => {
            assert(out.deep_view() =~= field_keys(json@));
        },
    }
    out
}

/// Whether `list` holds a string with the text of `s`.
pub fn contains_text(list: &Vec<String>, s: &str) -> (r: bool)
    ensures
        r == list.deep_view().contains(s@),
{
    let key = s.to_string();
    let mut i: usize = 0;
    while i < list.len()
        invariant
            key@ == s@,
            i <= list@.len(),
            forall|j: int| 0 <= j < i ==> (#[trigger] list@[j])@ != s@,
        decreases list@.len() - i,
    {
        if list[i] == key {
            assert(list.deep_view()[i as int] == s@);
            return true;
        }
        i = i + 1;
    }
    proof {
        if list.deep_view().contains(s@) {
            let w = choose|k: int| 0 <= k < list.deep_view().len() && list.deep_view()[k] == s@;
            assert(list@[w]@ == s@);
        }
    }
    false
}

/// Whether `json` is an object with a member named `field_name`.
pub fn has_member(json: &JsonValue, field_name: &str) -> (r: bool)
    ensures
        r == has_field(json@, field_name@),
{
    find_field(json, field_name).is_some()
}

/// The text of the string member `field_name`, or the empty text.
pub fn get_string(json: &JsonValue, field_name: &str) -> (r: String)
    ensures
        r@ == string_at(json@, field_name@),
{
    match find_field(json, field_name) {
        Some(JsonValue::String(s)) => s.clone(),
        _ => String::new(),
    }
}

/// The boolean member `field_name`, or `false`.
pub fn get_bool(json: &JsonValue, field_name: &str) -> (r: bool)
    ensures
        r == bool_at(json@, field_name@),
{
    match find_field(json, field_name) {
        Some(JsonValue::Bool(b)) => *b,
        _ => false,
    }
}

/// The member `field_name` where it is a non-negative integer, or `0`.
pub fn get_u64(json: &JsonValue, field_name: &str) -> (r: u64)
    ensures
        r == u64_at(json@, field_name@),
{
    match find_field(json, field_name) {
        Some(JsonValue::Number(JsonNumber::PosInt(n))) => *n,
        _ => 0,
    }
}

/// The texts of the items of an array: strings give their text, anything else the empty text.
pub fn texts_of_items(items: &Vec<JsonValue>) -> (r: Vec<String>)
    ensures
        r.deep_view() == texts_of(model(JsonValue::Array(*items))->Array_0),
{
    let ghost m = model(JsonValue::Array(*items))->Array_0;
    let mut out: Vec<String> = Vec::new();
    let mut i: usize = 0;
    while i < items.len()
        invariant
            m == model(JsonValue::Array(*items))->Array_0,
            m.len() == items@.len(),
            i <= items@.len(),
            out@.len() == i,
            forall|j: int| 0 <= j < i ==> (#[trigger] out@[j])@ == text_or_empty(m[j]),
        decreases items@.len() - i,
    {
        proof {
            lemma_array_model(*items, i as int);
        }
        match &items[i] {
            JsonValue::String(s) => out.push(s.clone()),
            _ => out.push(String::new()),
        }
        i = i + 1;
    }
    assert(out.deep_view() =~= texts_of(m));
    out
}

/// The items of the array member `field_name` as text (strings give their text, anything else
/// the empty text); nothing where the member is absent.
pub fn get_string_array(json: &JsonValue, field_name: &str) -> (r: Vec<String>)
    requires
        string_array_ok(json@, field_name@),
    ensures
        r.deep_view() == string_array_at(json@, field_name@),
{
    match find_field(json, field_name) {
        Some(JsonValue::Array(items)) => texts_of_items(items),
        _ => {
            let r: Vec<String> = Vec::new();
            assert(r.deep_view() =~= string_array_at(json@, field_name@));
            r
        },
    }
}

/// Whether `get_string_array` can read the member `key`: it is absent or an array.
pub fn string_array_check(j: &JsonValue, key: &str) -> (r: bool)
    ensures
        r == string_array_ok(j@, key@),
{
    match find_field(j, key) {
        None => true,
        Some(JsonValue::Array(_)) => true,
        _ => false,
    }
}

/// A string member gives a list of its one text, an array member the texts of its items,
/// anything else an empty list.
pub fn get_vec_from_string_or_string_vec(json: &JsonValue, field_name: &str) -> (r: Vec<String>)
    ensures
        r.deep_view() == strings_at(json@, field_name@),
{
    match find_field(json, field_name) {
        Some(JsonValue::String(s)) => {
            let mut r: Vec<String> = Vec::new();
            r.push(s.clone());
            assert(r.deep_view() =~= strings_at(json@, field_name@));
            r
        },
        Some(JsonValue::Array(items)) => texts_of_items(items),
        _ => {
            let r: Vec<String> = Vec::new();
            assert(r.deep_view() =~= strings_at(json@, field_name@));
            r
        },
    }
}

/// A copy of the object member `field_name`; where there is none, the string `"{}"`.
pub fn get_object(json: &JsonValue, field_name: &str) -> (r: JsonValue)
    ensures
        r@ == object_at(json@, field_name@),
{
    match find_field(json, field_name) {
        Some(v) => {
            if let JsonValue::Object(_) = v {
                v.clone_value()
            } else {
                JsonValue::String(String::from_str("{}"))
            }
        },
        None => JsonValue::String(String::from_str("{}")),
    }
}


/// `entries` with the value under `key` replaced by `v`, or with `(key, v)` added at the end
/// where there is no such entry.
pub open spec fn entries_set(entries: Seq<(Seq<char>, Json)>, key: Seq<char>, v: Json) -> Seq<(Seq<char>, Json)> {
    if exists|i: int| first_key_at(entries, key, i) {
        entries.update(choose|i: int| first_key_at(entries, key, i), (key, v))
    } else {
        entries.push((key, v))
    }
}

/// `j[key] = v`: an object gets the member set, `Null` becomes an object of that one member.
pub open spec fn with_field(j: Json, key: Seq<char>, v: Json) -> Json {
    match j {
        Json::Object(e) => Json::Object(entries_set(e, key, v)),
        Json::Null => Json::Object(seq![(key, v)]),
        _ => j,
    }
}

/// Two entry lists whose keys agree, where the longer one adds no entry named `key` and the
/// entries named `key` keep their values, hold the same value under `key`.
proof fn lemma_entries_get_same(e: Seq<(Seq<char>, Json)>, n: Seq<(Seq<char>, Json)>, key: Seq<char>)
    requires
        e.len() <= n.len(),
        forall|i: int| 0 <= i < e.len() ==> #[trigger] n[i].0 == e[i].0,
        forall|i: int| e.len() <= i < n.len() ==> #[trigger] n[i].0 != key,
        forall|i: int| 0 <= i < e.len() && e[i].0 == key ==> #[trigger] n[i].1 == e[i].1,
    ensures
        entries_get(n, key) == entries_get(e, key),
{
    if exists|i: int| first_key_at(e, key, i) {
        let c = choose|i: int| first_key_at(e, key, i);
        assert forall|j: int| 0 <= j < c implies #[trigger] n[j].0 != key by {
            assert(e[j].0 != key);
        }
        assert(first_key_at(n, key, c));
        let d = choose|i: int| first_key_at(n, key, i);
        lemma_first_key_unique(n, key, c, d);
    } else {
        assert forall|m: int| !first_key_at(n, key, m) by {
            if first_key_at(n, key, m) && m < e.len() {
                assert forall|j: int| 0 <= j < m implies #[trigger] e[j].0 != key by {
                    assert(n[j].0 != key);
                }
                assert(first_key_at(e, key, m));
            }
        }
    }
}

/// What is written is read back: after `j[key] = v` on an object (or on `Null`), the member
/// `key` is there and holds `v`, and every other member reads as before.
pub proof fn law_set_field_reads_back(j: Json, key: Seq<char>, v: Json, other: Seq<char>)
    requires
        j is Object || j is Null,
        other != key,
    ensures
        has_field(with_field(j, key, v), key),
        field(with_field(j, key, v), key) == v,
        field(with_field(j, key, v), other) == field(j, other),
{
    match j {
        Json::Object(e) => {
            let n = entries_set(e, key, v);
            if exists|i: int| first_key_at(e, key, i) {
                let c = choose|i: int| first_key_at(e, key, i);
                assert(n == e.update(c, (key, v)));
                assert(first_key_at(n, key, c));
                let d = choose|i: int| first_key_at(n, key, i);
                lemma_first_key_unique(n, key, c, d);
                assert(n[c].0 == key);
                lemma_entries_get_same(e, n, other);
            } else {
                assert forall|i: int| 0 <= i < e.len() implies #[trigger] e[i].0 != key by {
                    if e[i].0 == key {
                        lemma_first_key_exists(e, key);
                    }
                }
                assert(first_key_at(n, key, e.len() as int));
                let d = choose|i: int| first_key_at(n, key, i);
                lemma_first_key_unique(n, key, e.len() as int, d);
                assert(n[e.len() as int].0 == key);
                lemma_entries_get_same(e, n, other);
            }
        },
        _ => {
            let n = seq![(key, v)];
            assert(first_key_at(n, key, 0));
            let d = choose|i: int| first_key_at(n, key, i);
            lemma_first_key_unique(n, key, 0, d);
            assert(n[0].0 == key);
            assert(!exists|i: int| first_key_at(n, other, i));
        },
    }
}

/// A member of a well-formed document is well-formed.
pub proof fn lemma_field_wf(j: Json, key: Seq<char>)
    requires
        json_wf(j),
    ensures
        json_wf(field(j, key)),
{
    if let Json::Object(e) = j {
        if exists|i: int| first_key_at(e, key, i) {
            let c = choose|i: int| first_key_at(e, key, i);
            assert(json_wf(e[c].1));
        }
    }
}

/// Setting a member keeps a document well-formed: the member replaces the one of its name,
/// or is added where there is none, so names stay distinct.
pub proof fn law_set_field_keeps_wf(j: Json, key: Seq<char>, v: Json)
    requires
        j is Object || j is Null,
        json_wf(j),
        json_wf(v),
    ensures
        json_wf(with_field(j, key, v)),
{
    match j {
        Json::Object(e) => {
            let n = entries_set(e, key, v);
            if exists|i: int| first_key_at(e, key, i) {
                let c = choose|i: int| first_key_at(e, key, i);
                assert(n == e.update(c, (key, v)));
                assert forall|a: int, b: int|
                    0 <= a < n.len() && 0 <= b < n.len() && a != b implies #[trigger] n[a].0
                    != #[trigger] n[b].0 by {
                    assert(n[a].0 == e[a].0);
                    assert(n[b].0 == e[b].0);
                }
                assert forall|i: int| 0 <= i < n.len() implies json_wf(#[trigger] n[i].1) by {
                    if i != c {
                        assert(n[i] == e[i]);
                    }
                }
            } else {
                assert forall|i: int| 0 <= i < e.len() implies #[trigger] e[i].0 != key by {
                    if e[i].0 == key {
                        lemma_first_key_exists(e, key);
                    }
                }
                assert(n == e.push((key, v)));
                assert forall|a: int, b: int|
                    0 <= a < n.len() && 0 <= b < n.len() && a != b implies #[trigger] n[a].0
                    != #[trigger] n[b].0 by {
                    if a < e.len() && b < e.len() {
                        assert(n[a] == e[a] && n[b] == e[b]);
                    } else if a < e.len() {
                        assert(n[a] == e[a]);
                    } else {
                        assert(n[b] == e[b]);
                    }
                }
                assert forall|i: int| 0 <= i < n.len() implies json_wf(#[trigger] n[i].1) by {
                    if i < e.len() {
                        assert(n[i] == e[i]);
                    }
                }
            }
            assert(members_distinct(Json::Object(n)));
        },
        _ => {
            let n = seq![(key, v)];
            assert(members_distinct(Json::Object(n)));
            assert forall|i: int| 0 <= i < n.len() implies json_wf(#[trigger] n[i].1) by {
                assert(n[i].1 == v);
            }
        },
    }
}

/// The models of a list of documents.
pub open spec fn models(v: Seq<JsonValue>) -> Seq<Json> {
    v.map_values(|x: JsonValue| x@)
}

/// The position of the first member of `o` named `key`, if there is one.
fn first_index(o: &Vec<(String, JsonValue)>, key: &String) -> (r: Option<usize>)
    ensures
        match r {
            Some(i) => first_key_at(model(JsonValue::Object(*o))->Object_0, key@, i as int),
            None => !exists|m: int| first_key_at(model(JsonValue::Object(*o))->Object_0, key@, m),
        },
{
    let ghost e = model(JsonValue::Object(*o))->Object_0;
    let mut i: usize = 0;
    while i < o.len()
        invariant
            e == model(JsonValue::Object(*o))->Object_0,
            e.len() == o@.len(),
            i <= o@.len(),
            forall|j: int| 0 <= j < i ==> #[trigger] e[j].0 != key@,
        decreases o@.len() - i,
    {
        proof {
            lemma_object_model(*o, i as int);
        }
        if o[i].0 == *key {
            return Some(i);
        }
        i = i + 1;
    }
    proof {
        if exists|m: int| first_key_at(e, key@, m) {
            let w = choose|m: int| first_key_at(e, key@, m);
            assert(e[w].0 != key@);
        }
    }
    None
}

pub proof fn lemma_models_push(v: Seq<JsonValue>, x: JsonValue)
    ensures
        models(v.push(x)) == models(v).push(x@),
{
    assert(models(v.push(x)) =~= models(v).push(x@));
}

pub proof fn lemma_models_add(a: Seq<JsonValue>, b: Seq<JsonValue>)
    ensures
        models(a + b) == models(a) + models(b),
{
    assert(models(a + b) =~= models(a) + models(b));
}

impl JsonNumber {
    /// Whether two numbers are the same number.
    pub fn same_number(&self, other: &JsonNumber) -> (r: bool)
        ensures
            r == (self@ == other@),
    {
        match (self, other) {
            (JsonNumber::PosInt(a), JsonNumber::PosInt(b)) => *a == *b,
            (JsonNumber::NegInt(a), JsonNumber::NegInt(b)) => *a == *b,
            (JsonNumber::Float(a), JsonNumber::Float(b)) => *a == *b,
            _ => false,
        }
    }
}

impl JsonValue {
    /// Whether two documents are equal, as `serde_json::Value` compares them.
    pub fn same_value(&self, other: &JsonValue) -> (r: bool)
        ensures
            r == (self@ == other@),
        decreases self,
    {
        match (self, other) {
            (JsonValue::Null, JsonValue::Null) => true,
            (JsonValue::Bool(a), JsonValue::Bool(b)) => *a == *b,
            (JsonValue::Number(a), JsonValue::Number(b)) => a.same_number(b),
            (JsonValue::String(a), JsonValue::String(b)) => *a == *b,
            (JsonValue::Array(a), JsonValue::Array(b)) => {
                if a.len() != b.len() {
                    proof {
                        lemma_array_len(*a);
                        lemma_array_len(*b);
                    }
                    return false;
                }
                let mut i: usize = 0;
                while i < a.len()
                    invariant
                        *self == JsonValue::Array(*a),
                        *other == JsonValue::Array(*b),
                        a@.len() == b@.len(),
                        i <= a@.len(),
                        forall|j: int| 0 <= j < i ==> model(#[trigger] a@[j]) == model(b@[j]),
                    decreases a@.len() - i,
                {
                    assert(decreases_to!(*self => a@[i as int])) by {
                        assert(decreases_to!(*self => self->Array_0));
                        assert(decreases_to!(*a => a@));
                        assert(decreases_to!(a@ => a@[i as int]));
                    }
                    if !a[i].same_value(&b[i]) {
                        proof {
                            lemma_array_model(*a, i as int);
                            lemma_array_model(*b, i as int);
                        }
                        return false;
                    }
                    i = i + 1;
                }
                proof {
                    assert forall|k: int| 0 <= k < a@.len() implies model(*self)->Array_0[k] == model(*other)->Array_0[k] by {
                        lemma_array_model(*a, k);
                        lemma_array_model(*b, k);
                    }
                    lemma_array_len(*a);
                    lemma_array_len(*b);
                    assert(model(*self)->Array_0 =~= model(*other)->Array_0);
                }
                true
            },
            (JsonValue::Object(a), JsonValue::Object(b)) => {
                if a.len() != b.len() {
                    proof {
                        lemma_object_len(*a);
                        lemma_object_len(*b);
                    }
                    return false;
                }
                let mut i: usize = 0;
                while i < a.len()
                    invariant
                        *self == JsonValue::Object(*a),
                        *other == JsonValue::Object(*b),
                        a@.len() == b@.len(),
                        i <= a@.len(),
                        forall|j: int| 0 <= j < i ==> (#[trigger] a@[j]).0@ == b@[j].0@ && model(a@[j].1) == model(b@[j].1),
                    decreases a@.len() - i,
                {
                    assert(decreases_to!(*self => a@[i as int].1)) by {
                        assert(decreases_to!(*self => self->Object_0));
                        assert(decreases_to!(*a => a@));
                        assert(decreases_to!(a@ => a@[i as int]));
                        assert(decreases_to!(a@[i as int] => a@[i as int].1));
                    }
                    if a[i].0 != b[i].0 || !a[i].1.same_value(&b[i].1) {
                        proof {
                            lemma_object_model(*a, i as int);
                            lemma_object_model(*b, i as int);
                        }
                        return false;
                    }
                    i = i + 1;
                }
                proof {
                    assert forall|k: int| 0 <= k < a@.len() implies model(*self)->Object_0[k] == model(*other)->Object_0[k] by {
                        lemma_object_model(*a, k);
                        lemma_object_model(*b, k);
                    }
                    lemma_object_len(*a);
                    lemma_object_len(*b);
                    assert(model(*self)->Object_0 =~= model(*other)->Object_0);
                }
                true
            },
            _ => false,
        }
    }
}

/// The model of an array has as many items as the array.
pub proof fn lemma_array_len(a: Vec<JsonValue>)
    ensures
        model(JsonValue::Array(a)) is Array,
        model(JsonValue::Array(a))->Array_0.len() == a@.len(),
{
}

/// The model of an object has as many members as the object.
pub proof fn lemma_object_len(o: Vec<(String, JsonValue)>)
    ensures
        model(JsonValue::Object(o)) is Object,
        model(JsonValue::Object(o))->Object_0.len() == o@.len(),
{
}

/// Whether `list` holds a document equal to `v`.
pub fn holds_value(list: &Vec<JsonValue>, v: &JsonValue) -> (r: bool)
    ensures
        r == models(list@).contains(v@),
{
    let mut i: usize = 0;
    while i < list.len()
        invariant
            i <= list@.len(),
            forall|j: int| 0 <= j < i ==> (#[trigger] list@[j])@ != v@,
        decreases list@.len() - i,
    {
        if list[i].same_value(v) {
            assert(models(list@)[i as int] == v@);
            return true;
        }
        i = i + 1;
    }
    proof {
        let m = models(list@);
        if m.contains(v@) {
            let w = choose|k: int| 0 <= k < m.len() && m[k] == v@;
            assert(list@[w]@ == v@);
        }
    }
    false
}

/// The items of an array member lie inside the document.
pub proof fn lemma_member_items_decrease(j: Json, key: Seq<char>)
    ensures
        field(j, key) matches Json::Array(items) ==> forall|i: int|
            0 <= i < items.len() ==> decreases_to!(j => #[trigger] items[i]),
{
    if let Json::Object(e) = j {
        if exists|i: int| first_key_at(e, key, i) {
            let c = choose|i: int| first_key_at(e, key, i);
            assert(decreases_to!(j => e));
            assert(decreases_to!(e => e[c]));
            assert(decreases_to!(e[c] => e[c].1));
            if let Json::Array(items) = e[c].1 {
                assert forall|i: int| 0 <= i < items.len() implies decreases_to!(j => #[trigger] items[i]) by {
                    assert(decreases_to!(e[c].1 => items));
                    assert(decreases_to!(items => items[i]));
                }
            }
        }
    }
}

/// `obj[key] = v`: sets the member `key` of an object (replacing the first member of that
/// name, or adding it at the end); `Null` becomes an object holding that one member.
pub fn set_field(obj: JsonValue, key: &str, v: JsonValue) -> (r: JsonValue)
    requires
        obj@ is Object || obj@ is Null,
    ensures
        r@ == with_field(obj@, key@, v@),
{
    let k = key.to_string();
    let ghost m0 = obj@;
    let ghost vm = v@;
    match obj {
        JsonValue::Object(o) => {
            let mut o = o;
            let ghost e = model(JsonValue::Object(o))->Object_0;
            assert(m0 == Json::Object(e));
            let ghost old_o = o@;
            match first_index(&o, &k) {
                Some(i) => {
                    proof {
                        let c = choose|m: int| first_key_at(e, key@, m);
                        lemma_first_key_unique(e, key@, i as int, c);
                    }
                    o.set(i, (k, v));
                    let r = JsonValue::Object(o);
                    proof {
                        let target = e.update(i as int, (key@, vm));
                        assert forall|m: int| 0 <= m < o@.len() implies model(r)->Object_0[m] == target[m] by {
                            lemma_object_model(o, m);
                            if m != i {
                                assert(o@[m] == old_o[m]);
                                lemma_object_model(JsonValue::Object(o)->Object_0, m);
                            }
                        }
                        assert(model(r)->Object_0 =~= target);
                        assert(model(r) == Json::Object(target));
                    }
                    r
                },
                None => {
                    o.push((k, v));
                    let r = JsonValue::Object(o);
                    proof {
                        let target = e.push((key@, vm));
                        assert forall|m: int| 0 <= m < o@.len() implies model(r)->Object_0[m] == target[m] by {
                            lemma_object_model(o, m);
                        }
                        assert(model(r)->Object_0 =~= target);
                    }
                    r
                },
            }
        },
        _ => {
            let mut o: Vec<(String, JsonValue)> = Vec::new();
            o.push((k, v));
            let r = JsonValue::Object(o);
            proof {
                lemma_object_model(o, 0);
                assert(model(r)->Object_0 =~= seq![(key@, vm)]);
            }
            r
        },
    }
}

} // verus!
