use serde_json::Value;
use vstd::prelude::*;

verus! {

/// A JSON value of `serde_json`. Nothing inside it is visible here: it is
/// carried, compared as a whole, and handed back to `serde_json`.
#[verifier::external_type_specification]
#[verifier::external_body]
pub struct ExValue(Value);

/// The compact JSON text that `serde_json::to_string` writes for a value.
pub uninterp spec fn json_value_text(value: Value) -> Seq<char>;

/// What `serde_json::from_str` makes of a text that is read as a JSON
/// object: its members, key and value, in the order in which the parsed
/// object hands them out; or, where the text is not one JSON object, the
/// message of the parser's error.
pub uninterp spec fn json_object_outcome(text: Seq<char>) -> Result<
    Seq<(Seq<char>, Value)>,
    Seq<char>,
>;

/// What `serde_json::from_str` finds under a key of a JSON document, as
/// far as this crate reads it; or, where the text is not JSON, the message
/// of the parser's error.
pub uninterp spec fn json_member_outcome(text: Seq<char>, key: Seq<char>) -> Result<
    MemberView,
    Seq<char>,
>;

/// What a JSON document holds under one key.
#[derive(Debug)]
pub enum Member {
    /// Nothing: the document is no object, it has no such key, or the
    /// member is `null`.
    Absent,
    /// A JSON string.
    Text(String),
    /// A value of any other kind.
    Other,
}

/// A `Member` as a mathematical value.
pub enum MemberView {
    Absent,
    Text(Seq<char>),
    Other,
}

impl View for Member {
    type V = MemberView;

    open spec fn view(&self) -> MemberView {
        match self {
            Member::Absent => MemberView::Absent,
            Member::Text(text) => MemberView::Text(text@),
            Member::Other => MemberView::Other,
        }
    }
}

/// The members of a JSON object, each key taken as a sequence of characters.
pub open spec fn members_view(members: Seq<(String, Value)>) -> Seq<(Seq<char>, Value)> {
    members.map_values(|m: (String, Value)| (m.0@, m.1))
}

/// The outcome of reading a JSON object, as a mathematical value.
pub open spec fn object_outcome(r: Result<Vec<(String, Value)>, String>) -> Result<
    Seq<(Seq<char>, Value)>,
    Seq<char>,
> {
    match r {
        Ok(members) => Ok(members_view(members@)),
        Err(cause) => Err(cause@),
    }
}

/// The outcome of reading one member, as a mathematical value.
pub open spec fn member_outcome(r: Result<Member, String>) -> Result<MemberView, Seq<char>> {
    match r {
        Ok(member) => Ok(member@),
        Err(cause) => Err(cause@),
    }
}

/// `serde_json::to_string` on a `Value`. The call cannot fail for this type:
/// the keys of an object are strings and the text is written to memory.
#[verifier::external_body]
pub(crate) fn value_to_text(value: &Value) -> (text: String)
    ensures
        text@ == json_value_text(*value),
{
    serde_json::to_string(value).unwrap_or_default()
}

/// `serde_json::from_str` for a `serde_json::Map`, whose members are then
/// handed out in the map's own order; the error is turned into its message.
/// The outcome depends on the text alone.
#[verifier::external_body]
pub(crate) fn parse_object(text: &str) -> (r: Result<Vec<(String, Value)>, String>)
    ensures
        object_outcome(r) == json_object_outcome(text@),
{
    match serde_json::from_str::<serde_json::Map<String, Value>>(text) {
        Ok(object) => Ok(object.into_iter().collect()),
        Err(cause) => Err(format!("{}", cause)),
    }
}

/// `serde_json::from_str` for a `Value`, which is then indexed by `key`;
/// the error is turned into its message. Indexing gives `null` where the
/// document is no object or has no such key. The outcome depends on the
/// text and the key alone.
#[verifier::external_body]
pub(crate) fn parse_member(text: &str, key: &str) -> (r: Result<Member, String>)
    ensures
        member_outcome(r) == json_member_outcome(text@, key@),
{
    match serde_json::from_str::<Value>(text) {
        Ok(document) => Ok(match &document[key] {
            Value::Null => Member::Absent,
            Value::String(text) => Member::Text(text.clone()),
            Value::Bool(_) | Value::Number(_) | Value::Array(_) | Value::Object(_) => Member::Other,
        }),
        Err(cause) => Err(format!("{}", cause)),
    }
}

/// The empty JSON object, `Value::Object` of `serde_json::Map::new()`,
/// which `serde_json` writes as `{}`.
#[verifier::external_body]
pub(crate) fn empty_object() -> (value: Value)
    ensures
        json_value_text(value) == "{}"@,
{
    Value::Object(serde_json::Map::new())
}

} // verus!
