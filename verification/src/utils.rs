pub mod geo;
pub mod text;

use serde_json::Value;
use vstd::prelude::*;

verus! {

/// A JSON value, carried through and read only by the calls below.
#[verifier::external_type_specification]
#[verifier::external_body]
pub struct ExValue(Value);

/// The member of a JSON value under a key; the null value where the value
/// is no object or has no such member.
pub uninterp spec fn json_member(v: Value, key: Seq<char>) -> Value;

/// The item of a JSON value at a position; the null value where the value
/// is no array or is shorter.
pub uninterp spec fn json_item(v: Value, index: int) -> Value;

/// The text of a JSON value that is a string.
pub uninterp spec fn json_text(v: Value) -> Option<Seq<char>>;

/// The number of a JSON value that is a whole number in the range of
/// `i64`.
pub uninterp spec fn json_integer(v: Value) -> Option<i64>;

/// The items of a JSON value that is an array.
pub uninterp spec fn json_array(v: Value) -> Option<Seq<Value>>;

/// Whether a JSON value is an object.
pub uninterp spec fn json_is_object(v: Value) -> bool;

/// Indexing a `Value` of the crate serde_json by a key: the member of that
/// name, or the null value where the value is no object or has no such
/// member.
#[verifier::external_body]
pub(crate) fn value_member<'a>(v: &'a Value, key: &str) -> (r: &'a Value)
    ensures
        *r == json_member(*v, key@),
{
    &v[key]
}

/// Indexing a `Value` of the crate serde_json by a position: the item at
/// that position, or the null value where the value is no array or is
/// shorter.
#[verifier::external_body]
pub(crate) fn value_item(v: &Value, index: usize) -> (r: &Value)
    ensures
        *r == json_item(*v, index as int),
{
    &v[index]
}

/// `Value::as_str` of the crate serde_json: the text of a value that is a
/// string.
#[verifier::external_body]
pub(crate) fn value_text(v: &Value) -> (r: Option<String>)
    ensures
        r is Some <==> json_text(*v) is Some,
        r matches Some(s) ==> json_text(*v) == Some(s@),
{
    v.as_str().map(String::from)
}

/// `Value::as_i64` of the crate serde_json: the number of a value that is
/// a whole number in the range of `i64`.
#[verifier::external_body]
pub(crate) fn value_integer(v: &Value) -> (r: Option<i64>)
    ensures
        r == json_integer(*v),
{
    v.as_i64()
}

/// `Value::as_array` of the crate serde_json: the items of a value that is
/// an array.
#[verifier::external_body]
pub(crate) fn value_array(v: &Value) -> (r: Option<Vec<Value>>)
    ensures
        r is Some <==> json_array(*v) is Some,
        r matches Some(items) ==> json_array(*v) == Some(items@),
{
    v.as_array().cloned()
}

/// `Value::as_object` of the crate serde_json: a value that is an object,
/// as a value of its own.
#[verifier::external_body]
pub(crate) fn value_object(v: &Value) -> (r: Option<Value>)
    ensures
        r is Some <==> json_is_object(*v),
        r matches Some(o) ==> o == *v,
{
    v.as_object().map(|o| Value::Object(o.clone()))
}

/// The address to use for a service: `value`, which is what the
/// environment holds for it, or `default` where that is empty.
pub fn resolve_url(value: &str, default: &str) -> (url: String)
    ensures
        url@ == if value@.len() == 0 {
            default@
        } else {
            value@
        },
{
    if value.is_empty() {
        default.to_string()
    } else {
        value.to_string()
    }
}

/// What stands for a value that is neither a text nor a whole number.
pub const UNKNOWN: &'static str = "UNKNOWN";

/// The items of a list, given what the place of the list holds: the items
/// of an array, the one item where an object stands in place of a list,
/// and nothing otherwise.
pub fn items_of<T>(array: Option<Vec<T>>, object: Option<T>) -> (items: Vec<T>)
    ensures
        items@ == match array {
            Some(a) => a@,
            None => match object {
                Some(o) => seq![o],
                None => Seq::empty(),
            },
        },
{
    match array {
        Some(a) => a,
        None => {
            let mut items: Vec<T> = Vec::new();
            match object {
                Some(o) => {
                    items.push(o);
                },
                None => {},
            }
            items
        },
    }
}

/// The place of the items in an answer of the transit service: what stands
/// under `response`, `body`, `items`, `item`.
pub open spec fn items_place(json: Value) -> Value {
    json_member(
        json_member(json_member(json_member(json, "response"@), "body"@), "items"@),
        "item"@,
    )
}

/// The items of an answer of the transit service: the items of the list in
/// their place, the one item where an object stands in place of a list,
/// and nothing otherwise.
pub open spec fn items_in(json: Value) -> Seq<Value> {
    let place = items_place(json);
    match json_array(place) {
        Some(items) => items,
        None => if json_is_object(place) {
            seq![place]
        } else {
            Seq::empty()
        },
    }
}

/// The items of an answer of the transit service: what stands under
/// `response`, `body`, `items`, `item`, which is a list, a single item or
/// nothing.
pub fn extract_items(json: &Value) -> (items: Vec<Value>)
    ensures
        items@ == items_in(*json),
{
    let items = value_member(
        value_member(value_member(value_member(json, "response"), "body"), "items"),
        "item",
    );
    items_of(value_array(items), value_object(items))
}

/// `r` writes a value that is a text or a whole number: the text as it is,
/// the number in decimal digits, and `UNKNOWN` for a value that is
/// neither.
pub open spec fn is_flexible_string(r: String, text: Option<Seq<char>>, number: Option<i64>) -> bool {
    &&& text matches Some(t) ==> r@ == t
    &&& text is None && number is Some ==> vstd::string::to_string_from_display_ensures::<i64>(
        &number->0,
        r,
    )
    &&& text is None && number is None ==> r@ == UNKNOWN@
}

/// A value that the service writes now as a text, now as a number, as a
/// text: the text as it is, the number in decimal digits, and `UNKNOWN`
/// for a value that is neither. `text` is the value where it is a text,
/// `number` where it is a whole number.
pub fn flexible_string(text: Option<String>, number: Option<i64>) -> (r: String)
    ensures
        is_flexible_string(
            r,
            match text {
                Some(t) => Some(t@),
                None => None,
            },
            number,
        ),
{
    match text {
        Some(t) => t,
        None => match number {
            Some(n) => n.to_string(),
            None => UNKNOWN.to_string(),
        },
    }
}

/// A JSON value that the service writes now as a text, now as a number, as
/// a text: its text where it is a string, its decimal digits where it is a
/// whole number, and `UNKNOWN` otherwise.
pub fn parse_flexible_string(v: &Value) -> (r: String)
    ensures
        is_flexible_string(r, json_text(*v), json_integer(*v)),
{
    flexible_string(value_text(v), value_integer(v))
}

} // verus!
