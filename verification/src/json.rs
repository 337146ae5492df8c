//! JSON documents as plain values, read and written by `serde_json`.

use vstd::prelude::*;

verus! {

/// A number of a JSON document, kept as `serde_json` holds it.
#[verifier::external_type_specification]
#[verifier::external_body]
pub struct ExNumber(serde_json::Number);

/// A JSON document as `serde_json` holds it.
#[verifier::external_type_specification]
#[verifier::external_body]
pub struct ExValue(serde_json::Value);

/// A JSON document. The fields of an object stand in a list; where one key
/// stands twice, the later field counts.
#[derive(Debug, PartialEq, Eq)]
pub enum Json {
    Null,
    Bool(bool),
    Number(serde_json::Number),
    Str(String),
    Array(Vec<Json>),
    Object(Vec<(String, Json)>),
}

/// The mathematical value of a JSON document.
pub ghost enum JsonValue {
    Null,
    Bool(bool),
    Number(serde_json::Number),
    Str(Seq<char>),
    Array(Seq<JsonValue>),
    Object(Map<Seq<char>, JsonValue>),
}

/// The keys of a list of fields, in order.
pub open spec fn keys_of(fields: Seq<(String, Json)>) -> Seq<Seq<char>> {
    fields.map_values(|f: (String, Json)| f.0@)
}

/// The index of the last key equal to `key`, or -1 where there is none.
pub open spec fn key_index(keys: Seq<Seq<char>>, key: Seq<char>) -> int
    decreases keys.len(),
{
    if keys.len() == 0 {
        -1
    } else if keys.last() == key {
        keys.len() - 1
    } else {
        key_index(keys.drop_last(), key)
    }
}

impl View for Json {
    type V = JsonValue;

    open spec fn view(&self) -> JsonValue
        decreases self,
    {
        match self {
            Json::Null => JsonValue::Null,
            Json::Bool(b) => JsonValue::Bool(*b),
            Json::Number(n) => JsonValue::Number(*n),
            Json::Str(s) => JsonValue::Str(s@),
            Json::Array(items) => JsonValue::Array(
                Seq::new(
                    items@.len(),
                    |i: int|
                        if 0 <= i < items@.len() {
                            items@[i].view()
                        } else {
                            JsonValue::Null
                        },
                ),
            ),
            Json::Object(fields) => JsonValue::Object(
                Map::new(
                    |k: Seq<char>| key_index(keys_of(fields@), k) >= 0,
                    |k: Seq<char>|
                        {
                            let i = key_index(keys_of(fields@), k);
                            if 0 <= i < fields@.len() {
                                fields@[i].1.view()
                            } else {
                                JsonValue::Null
                            }
                        },
                ),
            ),
        }
    }
}

/// The field `key` of a document, where it is an object that has one.
pub open spec fn field(doc: JsonValue, key: Seq<char>) -> Option<JsonValue> {
    match doc {
        JsonValue::Object(m) => if m.contains_key(key) {
            Some(m[key])
        } else {
            None
        },
        _ => None,
    }
}

/// The text of a document, where it is a string.
pub open spec fn text_of(doc: JsonValue) -> Option<Seq<char>> {
    match doc {
        JsonValue::Str(s) => Some(s),
        _ => None,
    }
}

/// The items of a document, where it is an array.
pub open spec fn items_of(doc: JsonValue) -> Option<Seq<JsonValue>> {
    match doc {
        JsonValue::Array(a) => Some(a),
        _ => None,
    }
}

/// The text of the field `key` of a document, where that field is a string.
pub open spec fn text_field(doc: JsonValue, key: Seq<char>) -> Option<Seq<char>> {
    match field(doc, key) {
        Some(v) => text_of(v),
        None => None,
    }
}

/// `key_index` finds a field with that key, and no later field has it.
pub proof fn lemma_key_index(keys: Seq<Seq<char>>, key: Seq<char>)
    ensures
        -1 <= key_index(keys, key) < keys.len(),
        key_index(keys, key) >= 0 ==> keys[key_index(keys, key)] == key,
        forall|j: int| key_index(keys, key) < j < keys.len() ==> keys[j] != key,
    decreases keys.len(),
{
    if keys.len() > 0 && keys.last() != key {
        lemma_key_index(keys.drop_last(), key);
        assert forall|j: int| key_index(keys, key) < j < keys.len() implies keys[j] != key by {
            if j < keys.len() - 1 {
                assert(keys[j] == keys.drop_last()[j]);
            }
        }
    }
}

impl Json {
    /// The text that this document holds, where it is a string.
    pub fn as_str(&self) -> (r: Option<&str>)
        ensures
            r is Some == text_of(self@) is Some,
            r matches Some(t) ==> text_of(self@) == Some(t@),
    {
        match self {
            Json::Str(s) => Some(s.as_str()),
            _ => None,
        }
    }

    /// The items that this document holds, where it is an array.
    pub fn as_array(&self) -> (r: Option<&Vec<Json>>)
        ensures
            r is Some == items_of(self@) is Some,
            r matches Some(a) ==> items_of(self@) matches Some(items) && items.len() == a@.len()
                && forall|i: int| 0 <= i < a@.len() ==> items[i] == (#[trigger] a@[i])@,
    {
        match self {
            Json::Array(a) => Some(a),
            _ => None,
        }
    }

    /// The field `key` of this document, where it is an object that has one.
    pub fn get(&self, key: &str) -> (r: Option<&Json>)
        ensures
            r is Some == field(self@, key@) is Some,
            r matches Some(j) ==> field(self@, key@) == Some(j@),
    {
        match self {
            Json::Object(fields) => match find_key(fields, key) {
                Some(i) => Some(&fields[i].1),
                None => None,
            },
            _ => None,
        }
    }

    /// The document that holds the text `s`.
    pub fn text(s: &str) -> (j: Json)
        ensures
            j@ == JsonValue::Str(s@),
    {
        let mut copy = String::new();
        crate::text::push_str(&mut copy, s);
        Json::Str(copy)
    }

    /// The object without fields.
    pub fn empty_object() -> (j: Json)
        ensures
            j@ == JsonValue::Object(Map::empty()),
    {
        let fields: Vec<(String, Json)> = Vec::new();
        proof {
            lemma_object_view(fields);
            assert(object_map(fields@) =~= Map::empty());
        }
        Json::Object(fields)
    }
}

/// The map that a list of fields stands for.
pub open spec fn object_map(fields: Seq<(String, Json)>) -> Map<Seq<char>, JsonValue> {
    Map::new(
        |k: Seq<char>| key_index(keys_of(fields), k) >= 0,
        |k: Seq<char>|
            {
                let i = key_index(keys_of(fields), k);
                if 0 <= i < fields.len() {
                    fields[i].1@
                } else {
                    JsonValue::Null
                }
            },
    )
}

/// An object stands for the map of its fields.
pub proof fn lemma_object_view(fields: Vec<(String, Json)>)
    ensures
        Json::Object(fields)@ == JsonValue::Object(object_map(fields@)),
{
    assert(Json::Object(fields)@->Object_0 =~= object_map(fields@));
}

/// The index of the last field with the key `key`.
pub fn find_key(fields: &Vec<(String, Json)>, key: &str) -> (r: Option<usize>)
    ensures
        match r {
            Some(i) => i < fields.len() && i == key_index(keys_of(fields@), key@),
            None => key_index(keys_of(fields@), key@) == -1,
        },
{
    let mut i: usize = fields.len();
    while i > 0
        invariant
            i <= fields.len(),
            forall|j: int| i <= j < fields.len() ==> keys_of(fields@)[j] != key@,
        decreases i,
    {
        i -= 1;
        if crate::text::same_text(fields[i].0.as_str(), key) {
            proof {
                let keys = keys_of(fields@);
                lemma_key_index(keys, key@);
                assert(keys[i as int] == key@);
            }
            return Some(i);
        }
    }
    proof {
        lemma_key_index(keys_of(fields@), key@);
    }
    None
}

/// Sets the field `key` of a list of fields to `value`.
pub fn set_field(fields: &mut Vec<(String, Json)>, key: &str, value: Json)
    ensures
        object_map(final(fields)@) == object_map(old(fields)@).insert(key@, value@),
{
    let mut name = String::new();
    crate::text::push_str(&mut name, key);
    let ghost before = fields@;
    fields.push((name, value));
    proof {
        let keys = keys_of(before);
        let after = keys_of(fields@);
        assert(after =~= keys.push(key@));
        assert forall|k: Seq<char>|
            #[trigger] object_map(fields@).dom().contains(k) == object_map(before).insert(
                key@,
                value@,
            ).dom().contains(k) by {
            assert(after.drop_last() =~= keys);
        }
        assert forall|k: Seq<char>| #[trigger]
            object_map(fields@).dom().contains(k) implies object_map(fields@)[k] == object_map(
            before,
        ).insert(key@, value@)[k] by {
            assert(after.drop_last() =~= keys);
            lemma_key_index(keys, k);
        }
        assert(object_map(fields@) =~= object_map(before).insert(key@, value@));
    }
}

/// A copy of a number is that number.
pub assume_specification[ <serde_json::Number as Clone>::clone ](
    n: &serde_json::Number,
) -> (r: serde_json::Number)
    ensures
        r == *n,
;

/// The views of the items of an array.
pub open spec fn item_views(items: Seq<Json>) -> Seq<JsonValue> {
    Seq::new(items.len(), |i: int| items[i]@)
}

/// An array stands for the views of its items.
pub proof fn lemma_array_view(items: Vec<Json>)
    ensures
        Json::Array(items)@ == JsonValue::Array(item_views(items@)),
{
    assert(Json::Array(items)@->Array_0 =~= item_views(items@));
}

/// A copy of a document.
pub fn copy(j: &Json) -> (r: Json)
    ensures
        r@ == j@,
    decreases j,
{
    match j {
        Json::Null => Json::Null,
        Json::Bool(b) => Json::Bool(*b),
        Json::Number(n) => Json::Number(n.clone()),
        Json::Str(s) => Json::text(s.as_str()),
        Json::Array(items) => {
            let mut out: Vec<Json> = Vec::new();
            let mut i: usize = 0;
            while i < items.len()
                invariant
                    i <= items.len(),
                    *j == Json::Array(*items),
                    out@.len() == i,
                    forall|k: int| 0 <= k < i ==> (#[trigger] out@[k])@ == items@[k]@,
                decreases items.len() - i,
            {
                proof {
                    broadcast use vstd::std_specs::vec::axiom_vec_index_decreases;

                    assert(decreases_to!(*j => j->Array_0));
                    assert(decreases_to!(j->Array_0 => (j->Array_0)[i as int]));
                }
                out.push(copy(&items[i]));
                i += 1;
            }
            proof {
                lemma_array_view(out);
                lemma_array_view(*items);
                assert(item_views(out@) =~= item_views(items@));
            }
            Json::Array(out)
        },
        Json::Object(fields) => {
            let mut out: Vec<(String, Json)> = Vec::new();
            let mut i: usize = 0;
            while i < fields.len()
                invariant
                    i <= fields.len(),
                    *j == Json::Object(*fields),
                    out@.len() == i,
                    forall|k: int| 0 <= k < i ==> (#[trigger] out@[k]).0@ == fields@[k].0@,
                    forall|k: int| 0 <= k < i ==> (#[trigger] out@[k]).1@ == fields@[k].1@,
                decreases fields.len() - i,
            {
                let mut key = String::new();
                crate::text::push_str(&mut key, fields[i].0.as_str());
                proof {
                    broadcast use vstd::std_specs::vec::axiom_vec_index_decreases;

                    assert(decreases_to!(*j => j->Object_0));
                    assert(decreases_to!(j->Object_0 => (j->Object_0)[i as int]));
                    assert(decreases_to!((j->Object_0)[i as int] => (j->Object_0)[i as int].1));
                }
                out.push((key, copy(&fields[i].1)));
                i += 1;
            }
            proof {
                lemma_object_view(out);
                lemma_object_view(*fields);
                assert(keys_of(out@) =~= keys_of(fields@));
                assert(object_map(out@) =~= object_map(fields@));
            }
            Json::Object(out)
        },
    }
}

/// What a `serde_json::Value` holds.
pub uninterp spec fn document(v: serde_json::Value) -> JsonValue;

/// What `serde_json::from_str` makes of a text: the document that it reads,
/// or the message of the error that it reports.
pub uninterp spec fn parsed(text: Seq<char>) -> Result<JsonValue, Seq<char>>;

/// The text that `serde_json::to_string_pretty` writes for a document.
pub uninterp spec fn pretty(doc: JsonValue) -> Seq<char>;

/// `serde_json::from_str` at the type `serde_json::Value`: the value that it
/// reads from `text`, or the message of its error. The same text always gives
/// the same outcome.
#[verifier::external_body]
fn read_value(text: &str) -> (r: Result<serde_json::Value, String>)
    ensures
        match r {
            Ok(v) => parsed(text@) == Ok::<JsonValue, Seq<char>>(document(v)),
            Err(e) => parsed(text@) == Err::<JsonValue, Seq<char>>(e@),
        },
{
    serde_json::from_str::<serde_json::Value>(text).map_err(|e| e.to_string())
}

/// Hands a `serde_json::Value` over as a `Json`, variant for variant. The
/// fields of an object come in the order of its map, each key once.
#[verifier::external_body]
fn from_value(v: &serde_json::Value) -> (j: Json)
    ensures
        j@ == document(*v),
{
    match v {
        serde_json::Value::Null => Json::Null,
        serde_json::Value::Bool(b) => Json::Bool(*b),
        serde_json::Value::Number(n) => Json::Number(n.clone()),
        serde_json::Value::String(s) => Json::Str(s.clone()),
        serde_json::Value::Array(a) => Json::Array(a.iter().map(from_value).collect()),
        serde_json::Value::Object(o) => Json::Object(
            o.iter().map(|(k, x)| (k.clone(), from_value(x))).collect(),
        ),
    }
}

/// Hands a `Json` over as a `serde_json::Value`, variant for variant. The map
/// of an object takes the fields one by one with `serde_json::Map::insert`,
/// which lets the later of two fields with one key stay.
#[verifier::external_body]
fn to_value(j: &Json) -> (v: serde_json::Value)
    ensures
        document(v) == j@,
{
    match j {
        Json::Null => serde_json::Value::Null,
        Json::Bool(b) => serde_json::Value::Bool(*b),
        Json::Number(n) => serde_json::Value::Number(n.clone()),
        Json::Str(s) => serde_json::Value::String(s.clone()),
        Json::Array(a) => serde_json::Value::Array(a.iter().map(to_value).collect()),
        Json::Object(o) => {
            let mut map = serde_json::Map::new();
            for (k, x) in o.iter() {
                map.insert(k.clone(), to_value(x));
            }
            serde_json::Value::Object(map)
        },
    }
}

/// `serde_json::to_string_pretty` on a `serde_json::Value`, which it always
/// writes: the text depends on the document alone.
#[verifier::external_body]
fn write_value(v: &serde_json::Value) -> (s: String)
    ensures
        s@ == pretty(document(*v)),
{
    serde_json::to_string_pretty(v).unwrap_or_default()
}

/// Reads a JSON document from `text`: the document, or the message that says
/// why the text is none.
pub fn parse(text: &str) -> (r: Result<Json, String>)
    ensures
        match r {
            Ok(j) => parsed(text@) == Ok::<JsonValue, Seq<char>>(j@),
            Err(e) => parsed(text@) == Err::<JsonValue, Seq<char>>(e@),
        },
{
    match read_value(text) {
        Ok(v) => Ok(from_value(&v)),
        Err(e) => Err(e),
    }
}

/// Writes a JSON document as indented text.
pub fn to_pretty(j: &Json) -> (s: String)
    ensures
        s@ == pretty(j@),
{
    let v = to_value(j);
    write_value(&v)
}

} // verus!
