//! The payload type of the agent runtime and the few facts about it that the
//! rest of the library relies on.

use agent_stream_kit::{AgentError, AgentValue};
use im::Vector;
use vstd::prelude::*;

verus! {

/// The runtime's payload type. Its inside is not visible here: values of it
/// are moved, cloned and regrouped, and read only through the functions
/// specified below.
#[verifier::external_type_specification]
#[verifier::external_body]
pub struct ExAgentValue(AgentValue);

/// The persistent vector in which an array payload keeps its elements.
#[verifier::external_type_specification]
#[verifier::external_body]
#[verifier::reject_recursive_types(A)]
pub struct ExVector<A>(Vector<A>);

/// The runtime's error type. The library only tells success from failure.
#[verifier::external_type_specification]
#[verifier::external_body]
pub struct ExAgentError(AgentError);

/// The elements of a vector of payloads, front to back.
pub uninterp spec fn vector_items(v: Vector<AgentValue>) -> Seq<AgentValue>;

/// The elements of an array payload in order, or `None` for any other
/// payload: what `AgentValue::as_array` reports.
pub uninterp spec fn array_items(v: AgentValue) -> Option<Seq<AgentValue>>;

/// The integer that `AgentValue::as_i64` reads out of a payload, if any.
pub uninterp spec fn integer_of(v: AgentValue) -> Option<i64>;

/// The payload that `AgentValue::integer` builds for an integer.
pub uninterp spec fn integer_value(i: i64) -> AgentValue;

/// The fields of an object payload by key, or `None` for any other payload:
/// what `AgentValue::as_object` reports.
pub uninterp spec fn object_fields(v: AgentValue) -> Option<Map<Seq<char>, AgentValue>>;

/// The text of a string payload, or `None` for any other payload: what
/// `AgentValue::as_str` reports.
pub uninterp spec fn text_of(v: AgentValue) -> Option<Seq<char>>;

/// Whether the payload is the unit value: what `AgentValue::is_unit`
/// reports.
pub uninterp spec fn is_unit(v: AgentValue) -> bool;

/// `AgentValue`'s derived `Clone`: the copy is the same value.
pub assume_specification[ <AgentValue as Clone>::clone ](v: &AgentValue) -> (r: AgentValue)
    ensures
        r == *v,
;

/// `AgentValue::integer` wraps the integer in the `Integer` variant, which
/// `as_i64` reads back unchanged.
pub assume_specification[ AgentValue::integer ](value: i64) -> (r: AgentValue)
    ensures
        r == integer_value(value),
        integer_of(r) == Some(value),
;

/// `AgentValue::as_i64` gives the content of an `Integer`, the truncation of a
/// `Number`, and `None` for every other variant.
pub assume_specification[ AgentValue::as_i64 ](v: &AgentValue) -> (r: Option<i64>)
    ensures
        r == integer_of(*v),
;

/// `AgentValue::as_array` borrows the vector of an `Array` payload and gives
/// `None` for every other variant.
pub assume_specification[ AgentValue::as_array ](v: &AgentValue) -> (r: Option<&Vector<AgentValue>>)
    ensures
        match r {
            Some(items) => array_items(*v) == Some(vector_items(*items)),
            None => array_items(*v).is_none(),
        },
;

/// `AgentValue::array` wraps the vector in the `Array` variant.
pub assume_specification[ AgentValue::array ](value: Vector<AgentValue>) -> (r: AgentValue)
    ensures
        array_items(r) == Some(vector_items(value)),
;

/// `Vector::new` makes an empty vector.
#[verifier::external_body]
pub(crate) fn vector_new() -> (r: Vector<AgentValue>)
    ensures
        vector_items(r) == Seq::<AgentValue>::empty(),
{
    Vector::new()
}

/// `Vector::len` counts the elements.
#[verifier::external_body]
pub(crate) fn vector_len(v: &Vector<AgentValue>) -> (r: usize)
    ensures
        r == vector_items(*v).len(),
{
    v.len()
}

/// `Vector::get` borrows the element at `index`, or gives `None` when the
/// index is past the end.
#[verifier::external_body]
pub(crate) fn vector_get(v: &Vector<AgentValue>, index: usize) -> (r: Option<&AgentValue>)
    ensures
        match r {
            Some(item) => index < vector_items(*v).len() && *item == vector_items(*v)[index as int],
            None => index >= vector_items(*v).len(),
        },
{
    v.get(index)
}

/// `Vector::push_back` appends one element at the back.
#[verifier::external_body]
pub(crate) fn vector_push_back(v: &mut Vector<AgentValue>, value: AgentValue)
    ensures
        vector_items(*final(v)) == vector_items(*old(v)).push(value),
{
    v.push_back(value)
}

/// `AgentValue::unit` builds the `Unit` variant.
pub assume_specification[ AgentValue::unit ]() -> (r: AgentValue)
    ensures
        is_unit(r),
;

/// `AgentValue::object_default` builds an object without fields.
pub assume_specification[ AgentValue::object_default ]() -> (r: AgentValue)
    ensures
        object_fields(r) == Some(Map::<Seq<char>, AgentValue>::empty()),
;

/// `AgentValue::is_object` tells whether the payload is the `Object`
/// variant.
pub assume_specification[ AgentValue::is_object ](v: &AgentValue) -> (r: bool)
    ensures
        r == object_fields(*v).is_some(),
;

/// `AgentValue::get` borrows the field stored under `key` in an object, and
/// gives `None` for a missing field and for a payload that is no object.
pub assume_specification<'a, 'b>[ AgentValue::get ](v: &'a AgentValue, key: &'b str) -> (r: Option<&'a AgentValue>)
    ensures
        match r {
            Some(field) => {
                &&& object_fields(*v).is_some()
                &&& object_fields(*v).unwrap().contains_key(key@)
                &&& *field == object_fields(*v).unwrap()[key@]
            },
            None => object_fields(*v).is_none() || !object_fields(*v).unwrap().contains_key(key@),
        },
;

/// `AgentValue::set` stores `value` under `key` in an object, replacing what
/// was there; on any other payload it fails and changes nothing.
pub assume_specification[ AgentValue::set ](v: &mut AgentValue, key: String, value: AgentValue) -> (r: Result<
    (),
    AgentError,
>)
    ensures
        match object_fields(*old(v)) {
            Some(fields) => r.is_ok() && object_fields(*final(v)) == Some(fields.insert(key@, value)),
            None => r.is_err() && *final(v) == *old(v),
        },
;

/// `AgentValue::as_str` borrows the text of a `String` payload and gives
/// `None` for every other variant.
pub assume_specification[ AgentValue::as_str ](v: &AgentValue) -> (r: Option<&str>)
    ensures
        match r {
            Some(text) => text_of(*v) == Some(text@),
            None => text_of(*v).is_none(),
        },
;

/// `AgentValue::string` wraps the text in the `String` variant.
#[verifier::external_body]
pub(crate) fn string_value(text: String) -> (r: AgentValue)
    ensures
        text_of(r) == Some(text@),
{
    AgentValue::string(text)
}

} // verus!
