//! JSON values, as the messages and the control protocol use them.
//!
//! Building, printing and parsing JSON is the work of `serde_json`.  The
//! contracts speak of a value through its model, [`JsonModel`].

use vstd::prelude::*;
use vstd::string::*;

verus! {

/// The dynamically typed JSON value of `serde_json`.
#[verifier::external_type_specification]
#[verifier::external_body]
pub struct ExValue(serde_json::Value);

/// The error that `serde_json` reports for text that is not JSON.
#[verifier::external_type_specification]
#[verifier::external_body]
pub struct ExError(serde_json::Error);

/// The table of members of a JSON object of `serde_json`.
#[verifier::external_type_specification]
#[verifier::external_body]
#[verifier::reject_recursive_types(K)]
#[verifier::reject_recursive_types(V)]
pub struct ExMembers<K, V>(serde_json::Map<K, V>);

/// What a JSON value says.
pub enum JsonModel {
    Null,
    Bool(bool),
    /// A number without a fraction.
    Number(int),
    /// Any other number, by its notation.
    Fraction(Seq<char>),
    Text(Seq<char>),
    List(Seq<JsonModel>),
    Object(Map<Seq<char>, JsonModel>),
}

/// The contents of a `serde_json::Value`.
pub uninterp spec fn value_model(v: serde_json::Value) -> JsonModel;

/// The members in a table of `serde_json`, by name.
pub uninterp spec fn members_model(members: serde_json::Map<String, serde_json::Value>) -> Map<
    Seq<char>,
    JsonModel,
>;

/// The text that `serde_json` prints for a value with the given contents.
pub uninterp spec fn json_text(m: JsonModel) -> Seq<char>;

/// What `serde_json` reads from a text: the contents of the value, or nothing
/// when the text is not JSON.
pub uninterp spec fn json_parse(s: Seq<char>) -> Option<JsonModel>;

/// Whether a value is made of texts, flags and natural numbers that fit in 64
/// bits, in lists and objects that are nested at most `depth` deep.
pub open spec fn nested_within(m: JsonModel, depth: nat) -> bool
    decreases depth,
{
    match m {
        JsonModel::Null => true,
        JsonModel::Bool(_) => true,
        JsonModel::Number(n) => 0 <= n <= u64::MAX,
        JsonModel::Fraction(_) => false,
        JsonModel::Text(_) => true,
        JsonModel::List(items) => depth > 0 && forall|i: int|
            0 <= i < items.len() ==> nested_within(#[trigger] items[i], (depth - 1) as nat),
        JsonModel::Object(members) => depth > 0 && forall|k: Seq<char>|
            members.contains_key(k) ==> nested_within(#[trigger] members[k], (depth - 1) as nat),
    }
}

/// The deepest nesting for which printing and parsing are stated to agree.
pub const PLAIN_DEPTH: u32 = 100;

/// Whether a value is plain and nested no deeper than [`PLAIN_DEPTH`].
pub open spec fn plain(m: JsonModel) -> bool {
    nested_within(m, PLAIN_DEPTH as nat)
}

/// The member of an object with the given name.
pub open spec fn member(m: JsonModel, name: Seq<char>) -> Option<JsonModel> {
    match m {
        JsonModel::Object(members) => if members.contains_key(name) {
            Some(members[name])
        } else {
            None
        },
        _ => None,
    }
}

/// The text that the member `name` holds, if it is there and is a text.
pub open spec fn text_of_member(m: JsonModel, name: Seq<char>) -> Option<Seq<char>> {
    match member(m, name) {
        Some(JsonModel::Text(t)) => Some(t),
        _ => None,
    }
}

/// `serde_json::Value::from` on a string slice: a JSON string with that text.
#[verifier::external_body]
pub(crate) fn text_value(s: &str) -> (v: serde_json::Value)
    ensures
        value_model(v) == JsonModel::Text(s@),
{
    serde_json::Value::from(s)
}

/// `serde_json::Value::from` on a `u64`: a JSON number with that value.
#[verifier::external_body]
pub(crate) fn number_value(n: u64) -> (v: serde_json::Value)
    ensures
        value_model(v) == JsonModel::Number(n as int),
{
    serde_json::Value::from(n)
}

/// `serde_json::Value::Bool`: a JSON boolean.
#[verifier::external_body]
pub(crate) fn flag_value(b: bool) -> (v: serde_json::Value)
    ensures
        value_model(v) == JsonModel::Bool(b),
{
    serde_json::Value::Bool(b)
}

/// `serde_json::Value::Array`: a JSON array with the given items in order.
#[verifier::external_body]
pub(crate) fn list_value(items: Vec<serde_json::Value>) -> (v: serde_json::Value)
    ensures
        value_model(v) == JsonModel::List(
            Seq::new(items@.len(), |i: int| value_model(items@[i])),
        ),
{
    serde_json::Value::Array(items)
}

/// The members of an empty object.
pub open spec fn no_members() -> Map<Seq<char>, JsonModel> {
    Map::empty()
}

/// `serde_json::Map::new`: a table without members.
#[verifier::external_body]
pub(crate) fn new_members() -> (members: serde_json::Map<String, serde_json::Value>)
    ensures
        members_model(members) == no_members(),
{
    serde_json::Map::new()
}

/// `serde_json::Map::insert`: adds a member, or updates the one with that name.
#[verifier::external_body]
pub(crate) fn add_member(
    members: &mut serde_json::Map<String, serde_json::Value>,
    name: &str,
    value: serde_json::Value,
)
    ensures
        members_model(*final(members)) == members_model(*old(members)).insert(
            name@,
            value_model(value),
        ),
{
    members.insert(name.to_string(), value);
}

/// `serde_json::Value::Object`: a JSON object with the given members.
#[verifier::external_body]
pub(crate) fn object_value(members: serde_json::Map<String, serde_json::Value>) -> (v:
    serde_json::Value)
    ensures
        value_model(v) == JsonModel::Object(members_model(members)),
{
    serde_json::Value::Object(members)
}

/// `serde_json::Value::to_string`: the compact JSON text of the value.
///
/// The text is a function of the contents, since the members of an object are
/// kept sorted by name, and holds no line break, since control characters inside
/// strings are escaped.  For a value of plain parts
/// that is not nested too deeply, parsing the text gives the contents back.
#[verifier::external_body]
pub(crate) fn json_string(v: &serde_json::Value) -> (s: String)
    ensures
        s@ == json_text(value_model(*v)),
        !s@.contains('\n'),
        plain(value_model(*v)) ==> json_parse(s@) == Some(value_model(*v)),
{
    v.to_string()
}

/// `serde_json::from_str`: parses a JSON text.
#[verifier::external_body]
pub(crate) fn parse_json(s: &str) -> (r: Result<serde_json::Value, serde_json::Error>)
    ensures
        match r {
            Ok(v) => json_parse(s@) == Some(value_model(v)),
            Err(_) => json_parse(s@) is None,
        },
{
    serde_json::from_str(s)
}

/// `serde_json::Value::get` and `as_str`: the text of a member of an object.
#[verifier::external_body]
pub(crate) fn text_member(v: &serde_json::Value, name: &str) -> (r: Option<String>)
    ensures
        match r {
            Some(t) => text_of_member(value_model(*v), name@) == Some(t@),
            None => text_of_member(value_model(*v), name@) is None,
        },
{
    v.get(name).and_then(|m| m.as_str()).map(|t| t.to_string())
}

} // verus!
