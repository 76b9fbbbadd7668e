//! JSON values, built and read with `serde_json`.
use serde_json::Value;
use vstd::prelude::*;

verus! {

/// A JSON value.
#[verifier::external_type_specification]
#[verifier::external_body]
pub struct ExValue(serde_json::Value);

/// What a JSON value says.
pub enum JsonView {
    Null,
    Bool(bool),
    /// A number, as it is written.
    Number(Seq<char>),
    Text(Seq<char>),
    List(Seq<JsonView>),
    Object(Map<Seq<char>, JsonView>),
}

/// What a JSON value says.
pub uninterp spec fn json_of(value: serde_json::Value) -> JsonView;

/// What JSON values say.
pub open spec fn json_views(values: Seq<Value>) -> Seq<JsonView> {
    values.map_values(|v: Value| json_of(v))
}

/// An object with no members.
///
/// Trusted: `Map::new` of `serde_json`.
#[verifier::external_body]
pub(crate) fn empty_object() -> (r: Value)
    ensures
        json_of(r) == JsonView::Object(Map::empty()),
{
    Value::Object(serde_json::Map::new())
}

/// Gives an object a member, which takes the place of one with the same name.
///
/// Trusted: `IndexMut` of `Value` of `serde_json`, on an object. It panics on other values but
/// `null`.
#[verifier::external_body]
pub(crate) fn put(object: &mut Value, name: &str, member: Value)
    requires
        json_of(*old(object)) is Object,
    ensures
        json_of(*final(object)) == JsonView::Object(
            json_of(*old(object))->Object_0.insert(name@, json_of(member)),
        ),
{
    object[name] = member;
}

/// An integer.
///
/// Trusted: `Value::from` of `serde_json` for `i64`.
#[verifier::external_body]
pub(crate) fn integer(n: i64) -> (r: Value)
    ensures
        json_of(r) == JsonView::Number(crate::text::signed_decimal(n as int)),
{
    Value::from(n)
}

/// A natural number.
///
/// Trusted: `Value::from` of `serde_json` for `u64`.
#[verifier::external_body]
pub(crate) fn natural(n: u64) -> (r: Value)
    ensures
        json_of(r) == JsonView::Number(crate::text::decimal(n as nat)),
{
    Value::from(n)
}

/// A boolean.
///
/// Trusted: `Value::from` of `serde_json` for `bool`.
#[verifier::external_body]
pub(crate) fn boolean(b: bool) -> (r: Value)
    ensures
        json_of(r) == JsonView::Bool(b),
{
    Value::from(b)
}

/// A string.
///
/// Trusted: `Value::from` of `serde_json` for `&str`.
#[verifier::external_body]
pub(crate) fn string(s: &str) -> (r: Value)
    ensures
        json_of(r) == JsonView::Text(s@),
{
    Value::from(s)
}

/// A list.
///
/// Trusted: `Value::from` of `serde_json` for `Vec<Value>`.
#[verifier::external_body]
pub(crate) fn list(values: Vec<Value>) -> (r: Value)
    ensures
        json_of(r) == JsonView::List(json_views(values@)),
{
    Value::from(values)
}

/// How a JSON value is written.
pub uninterp spec fn json_text(value: JsonView) -> Seq<char>;

/// The JSON value that a text stands for, or why it stands for none.
pub uninterp spec fn json_parsed(text: Seq<char>) -> Result<JsonView, Seq<char>>;

/// Whether a text stands for a value.
pub open spec fn reads_as(text: Seq<char>, value: JsonView) -> bool {
    json_parsed(text) == Ok::<JsonView, Seq<char>>(value)
}

impl JsonView {
    /// Whether the value is a boolean, a text or a natural number of sixty-four bits.
    pub open spec fn simple(self) -> bool {
        match self {
            JsonView::Bool(_) => true,
            JsonView::Text(_) => true,
            JsonView::Number(text) => exists|n: u64| text == #[trigger] crate::text::decimal(
                n as nat,
            ),
            _ => false,
        }
    }

    /// Whether the value is an object with simple members.
    pub open spec fn flat(self) -> bool {
        &&& self is Object
        &&& forall|name: Seq<char>| #[trigger]
            self->Object_0.dom().contains(name) ==> self->Object_0[name].simple()
    }
}

/// Writes a JSON value.
///
/// Trusted: `serde_json::to_string`, which can write every value. The members of an object are
/// written in the order of their names, so that the text rests on what the value says alone; it is
/// named, not described. An object with simple members is read back by `serde_json::from_str`.
#[verifier::external_body]
pub(crate) fn write(value: &Value) -> (r: String)
    ensures
        r@ == json_text(json_of(*value)),
        json_of(*value).flat() ==> reads_as(r@, json_of(*value)),
{
    serde_json::to_string(value).expect("every JSON value can be written")
}

/// Reads a JSON value.
///
/// Trusted: `serde_json::from_str` for `Value`. What it makes of a text is named, not described.
#[verifier::external_body]
pub(crate) fn parse(text: &str) -> (r: Result<Value, String>)
    ensures
        match r {
            Ok(value) => json_parsed(text@) == Ok::<JsonView, Seq<char>>(json_of(value)),
            Err(e) => json_parsed(text@) == Err::<JsonView, Seq<char>>(e@),
        },
{
    serde_json::from_str::<Value>(text).map_err(|e| e.to_string())
}

impl JsonView {
    /// The text of a member; none where the value is no object, or has no such member, or the
    /// member is no text.
    pub open spec fn member_text(self, name: Seq<char>) -> Option<Seq<char>> {
        match self {
            JsonView::Object(members) => if members.dom().contains(name) {
                match members[name] {
                    JsonView::Text(text) => Some(text),
                    _ => None,
                }
            } else {
                None
            },
            _ => None,
        }
    }
}

impl JsonView {
    /// The number that a member is; none where the value is no object, or has no such member, or
    /// the member is no natural number of sixty-four bits.
    pub open spec fn member_u64(self, name: Seq<char>) -> Option<u64> {
        match self {
            JsonView::Object(members) => if members.dom().contains(name) {
                match members[name] {
                    JsonView::Number(text) => {
                        match crate::text::number_value(text, u64::MAX as nat) {
                            Ok(n) if crate::text::decimal(n) == text => Some(n as u64),
                            _ => None,
                        }
                    },
                    _ => None,
                }
            } else {
                None
            },
            _ => None,
        }
    }
}

/// The number that a member of an object is.
///
/// Trusted: `Value::get` and `Value::as_u64` of `serde_json`. A natural number is written in
/// decimal digits, and no other number is.
#[verifier::external_body]
pub(crate) fn member_u64(value: &Value, name: &str) -> (r: Option<u64>)
    ensures
        r == json_of(*value).member_u64(name@),
{
    value.get(name).and_then(|member| member.as_u64())
}

/// The text of a member of an object.
///
/// Trusted: `Value::get` and `Value::as_str` of `serde_json`.
#[verifier::external_body]
pub(crate) fn member_text(value: &Value, name: &str) -> (r: Option<String>)
    ensures
        crate::debug::op::text_view(r) == json_of(*value).member_text(name@),
{
    value.get(name).and_then(|member| member.as_str()).map(String::from)
}

// ---------------------------------------------------------------------------------------------
// What holds of every value
// ---------------------------------------------------------------------------------------------

/// A member is read by its name alone, where it is of the sort that is asked for.
pub proof fn members_are_read_by_name(
    members: vstd::map::Map<Seq<char>, JsonView>,
    name: Seq<char>,
    text: Seq<char>,
    n: u64,
)
    ensures
        JsonView::Object(members.insert(name, JsonView::Text(text))).member_text(name) == Some(
            text,
        ),
        JsonView::Object(members.insert(name, JsonView::Text(text))).member_u64(name) is None,
        JsonView::Object(
            members.insert(name, JsonView::Number(crate::text::decimal(n as nat))),
        ).member_u64(name) == Some(n),
        JsonView::Object(
            members.insert(name, JsonView::Number(crate::text::decimal(n as nat))),
        ).member_text(name) is None,
        JsonView::Object(members.remove(name)).member_text(name) is None,
        JsonView::Object(members.remove(name)).member_u64(name) is None,
        JsonView::Text(text).member_text(name) is None && JsonView::Text(text).member_u64(
            name,
        ) is None,
        JsonView::Object(members.insert(name, JsonView::Number(text))).member_u64(name) matches Some(
            m,
        ) ==> crate::text::shows_number(text, m as int),
{
    crate::text::decimal_reads_back(n as nat, u64::MAX as nat);
    let read = JsonView::Object(members.insert(name, JsonView::Number(text))).member_u64(name);
    if let Some(m) = read {
        crate::text::a_number_is_read_digit_by_digit(text, u64::MAX as nat);
        crate::text::a_sign_stands_in_front(m as int);
    }
}

} // verus!
