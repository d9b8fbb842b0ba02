//! The JSON records the commands print: a flat object of named members,
//! each a string, an integer, or an array of flat objects of such scalars.
use vstd::prelude::*;

use serde_json::Value;

verus! {

/// A JSON value as the spec sees it.
pub enum JsonView {
    Str(Seq<char>),
    Int(int),
    Array(Seq<JsonView>),
    Object(Seq<(Seq<char>, JsonView)>),
}

/// What `serde_json` prints (with `Value`'s `Display`) for a value. Objects
/// are `serde_json::Map`s, so their members come out ordered by key.
pub uninterp spec fn json_text(v: JsonView) -> Seq<char>;

/// A string or an integer.
#[derive(Debug)]
pub enum JsonScalar {
    Str(String),
    Int(i64),
}

/// The value of a member of a printed object: a scalar, or an array of
/// flat objects whose members are scalars.
#[derive(Debug)]
pub enum JsonMember {
    Scalar(JsonScalar),
    Objects(Vec<Vec<(String, JsonScalar)>>),
}

/// The JSON value of a scalar.
pub open spec fn scalar_view(s: JsonScalar) -> JsonView {
    match s {
        JsonScalar::Str(t) => JsonView::Str(t@),
        JsonScalar::Int(i) => JsonView::Int(i as int),
    }
}

/// The JSON object of named scalars.
pub open spec fn flat_object_view(fields: Seq<(String, JsonScalar)>) -> JsonView {
    JsonView::Object(Seq::new(fields.len(), |i: int| (fields[i].0@, scalar_view(fields[i].1))))
}

/// The JSON value of a member.
pub open spec fn member_view(m: JsonMember) -> JsonView {
    match m {
        JsonMember::Scalar(s) => scalar_view(s),
        JsonMember::Objects(os) => JsonView::Array(
            Seq::new(os@.len(), |i: int| flat_object_view(os@[i]@)),
        ),
    }
}

/// The JSON object of named members.
pub open spec fn object_view(fields: Seq<(String, JsonMember)>) -> JsonView {
    JsonView::Object(Seq::new(fields.len(), |i: int| (fields[i].0@, member_view(fields[i].1))))
}

/// Converts the members to a `serde_json::Value` object one for one
/// (strings to `Value::String`, integers to numbers, arrays of objects to
/// `Value::Array` of `Value::Object`) and prints it with `Value`'s
/// `Display`. The text is named `json_text` of the object's view; nothing
/// more of JSON's layout is stated.
#[verifier::external_body]
pub(crate) fn render_object(fields: &[(String, JsonMember)]) -> (r: String)
    ensures
        r@ == json_text(object_view(fields@)),
{
    let scalar = |s: &JsonScalar| match s {
        JsonScalar::Str(t) => Value::from(t.as_str()),
        JsonScalar::Int(i) => Value::from(*i),
    };
    let flat = |o: &Vec<(String, JsonScalar)>| {
        Value::Object(o.iter().map(|(k, s)| (k.clone(), scalar(s))).collect())
    };
    let members = fields.iter().map(|(k, m)| match m {
        JsonMember::Scalar(s) => (k.clone(), scalar(s)),
        JsonMember::Objects(os) => (k.clone(), Value::Array(os.iter().map(flat).collect())),
    });
    Value::Object(members.collect()).to_string()
}

/// A member holding a string.
pub(crate) fn string_member(name: &str, value: &str) -> (r: (String, JsonMember))
    ensures
        r.0@ == name@,
        member_view(r.1) == JsonView::Str(value@),
{
    (name.to_owned(), JsonMember::Scalar(JsonScalar::Str(value.to_owned())))
}

} // verus!
