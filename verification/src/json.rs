//! A JSON document as the library builds it, before it is printed.

use vstd::prelude::*;
use crate::toplevel::{opt_chars, strings_view};

verus! {

/// A JSON value. An object holds its members in the order they were
/// added; the order of the keys is not kept when the document is printed,
/// which writes an object's keys sorted.
#[derive(Debug)]
pub enum JsonValue {
    Null,
    Bool(bool),
    Number(u64),
    Str(String),
    Array(Vec<JsonValue>),
    Object(Vec<(String, JsonValue)>),
}

/// The mathematical content of a [`JsonValue`].
pub enum JsonModel {
    Null,
    Bool(bool),
    Number(nat),
    Str(Seq<char>),
    Array(Seq<JsonModel>),
    Object(Seq<(Seq<char>, JsonModel)>),
}

/// The model of a JSON value.
pub open spec fn json_model(v: JsonValue) -> JsonModel
    decreases v,
{
    match v {
        JsonValue::Null => JsonModel::Null,
        JsonValue::Bool(b) => JsonModel::Bool(b),
        JsonValue::Number(n) => JsonModel::Number(n as nat),
        JsonValue::Str(s) => JsonModel::Str(s@),
        JsonValue::Array(a) => JsonModel::Array(
            Seq::new(a@.len(), |i: int| if 0 <= i < a@.len() { json_model(a@[i]) } else { JsonModel::Null }),
        ),
        JsonValue::Object(o) => JsonModel::Object(
            Seq::new(o@.len(), |i: int| if 0 <= i < o@.len() { (o@[i].0@, json_model(o@[i].1)) } else { (Seq::empty(), JsonModel::Null) }),
        ),
    }
}

impl View for JsonValue {
    type V = JsonModel;

    open spec fn view(&self) -> JsonModel {
        json_model(*self)
    }
}

/// The models of a sequence of JSON values.
pub open spec fn models(a: Seq<JsonValue>) -> Seq<JsonModel> {
    a.map_values(|e: JsonValue| json_model(e))
}

/// The model of the members of an object.
pub open spec fn members_model(o: Seq<(String, JsonValue)>) -> Seq<(Seq<char>, JsonModel)> {
    o.map_values(|m: (String, JsonValue)| (m.0@, json_model(m.1)))
}

/// The model of an array is the models of its elements.
pub proof fn lemma_array_model(v: Vec<JsonValue>)
    ensures
        json_model(JsonValue::Array(v)) == JsonModel::Array(models(v@)),
{
    let m = json_model(JsonValue::Array(v));
    if let JsonModel::Array(s) = m {
        assert forall|i: int| 0 <= i < s.len() implies s[i] == models(v@)[i] by {}
        assert(s =~= models(v@));
    }
}

/// The model of an object is its keys' characters paired with its values' models.
pub proof fn lemma_object_model(o: Vec<(String, JsonValue)>)
    ensures
        json_model(JsonValue::Object(o)) == JsonModel::Object(members_model(o@)),
{
    let m = json_model(JsonValue::Object(o));
    if let JsonModel::Object(s) = m {
        assert forall|i: int| 0 <= i < s.len() implies s[i] == members_model(o@)[i] by {}
        assert(s =~= members_model(o@));
    }
}

/// A JSON object from its members.
pub fn object(members: Vec<(String, JsonValue)>) -> (r: JsonValue)
    ensures
        r@ == JsonModel::Object(members_model(members@)),
{
    proof {
        lemma_object_model(members);
    }
    JsonValue::Object(members)
}

/// Appends a member to a list of object members.
pub fn push_member(members: &mut Vec<(String, JsonValue)>, key: &str, value: JsonValue)
    ensures
        members_model(final(members)@) == members_model(old(members)@).push((key@, value@)),
{
    members.push((key.to_owned(), value));
    assert(members_model(members@) =~= members_model(old(members)@).push((key@, value@)));
}

/// A JSON string, or null when there is none.
pub open spec fn str_or_null(o: Option<Seq<char>>) -> JsonModel {
    match o {
        Some(s) => JsonModel::Str(s),
        None => JsonModel::Null,
    }
}

/// A JSON string, or null when there is none.
pub fn string_or_null(o: &Option<String>) -> (r: JsonValue)
    ensures
        r@ == str_or_null(opt_chars(*o)),
{
    match o {
        Some(s) => JsonValue::Str(s.clone()),
        None => JsonValue::Null,
    }
}

/// The JSON strings of a sequence of character sequences.
pub open spec fn strs_model(v: Seq<Seq<char>>) -> Seq<JsonModel> {
    v.map_values(|s: Seq<char>| JsonModel::Str(s))
}

/// A JSON array of strings.
pub fn string_array(v: &Vec<String>) -> (r: JsonValue)
    ensures
        r@ == JsonModel::Array(strs_model(strings_view(v@))),
{
    let ghost sv = strings_view(v@);
    let mut a: Vec<JsonValue> = Vec::new();
    let n = v.len();
    let mut i: usize = 0;
    while i < n
        invariant
            n == v@.len(),
            sv == strings_view(v@),
            i <= n,
            a@.len() == i,
            models(a@) == strs_model(sv.take(i as int)),
        decreases n - i,
    {
        let e = JsonValue::Str(v[i].clone());
        assert(json_model(e) == JsonModel::Str(sv[i as int]));
        let ghost prev = a@;
        a.push(e);
        assert forall|j: int| 0 <= j < i + 1 implies models(a@)[j] == strs_model(sv.take(i + 1))[j] by {
            if j < i {
                assert(models(prev)[j] == strs_model(sv.take(i as int))[j]);
            }
        }
        assert(models(a@) =~= strs_model(sv.take(i + 1)));
        i = i + 1;
    }
    assert(sv.take(n as int) =~= sv);
    proof {
        lemma_array_model(a);
    }
    JsonValue::Array(a)
}

} // verus!
