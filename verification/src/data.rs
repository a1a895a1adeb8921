//! Reading and writing a field of an object by a dotted path.
//!
//! A path such as `a.b.c` names the field `c` of the object that is the
//! field `b` of the object that is the field `a` of the value at hand.

use crate::error::InputError;
use crate::text::{piece_views, same_text, segments, split_path};
use crate::value::{
    array_items, is_unit, object_fields, vector_get, vector_items, vector_len, vector_new, vector_push_back,
};
use agent_stream_kit::AgentValue;
use vstd::prelude::*;

verus! {

/// The pin on which the object arrives and leaves.
pub const PIN_DATA: &'static str = "data";

/// The pin on which a looked-up value leaves and a value to store arrives.
pub const PIN_VALUE: &'static str = "value";

/// The value that `path` leads to from `v`, or `None` where the path leaves
/// the objects: at a value that is no object, or at a missing field.
pub open spec fn resolve(v: AgentValue, path: Seq<Seq<char>>) -> Option<AgentValue>
    decreases path.len(),
{
    if path.len() == 0 {
        Some(v)
    } else {
        match object_fields(v) {
            Some(fields) => if fields.contains_key(path[0]) {
                resolve(fields[path[0]], path.skip(1))
            } else {
                None
            },
            None => None,
        }
    }
}

/// `found` is what looking `path` up in `v` gives: the value that the path
/// leads to, and the unit value where it leads nowhere.
pub open spec fn is_looked_up(v: AgentValue, path: Seq<Seq<char>>, found: AgentValue) -> bool {
    match resolve(v, path) {
        Some(target) => found == target,
        None => is_unit(found),
    }
}

/// Follows `path` from `value`.
pub fn lookup(value: &AgentValue, path: &Vec<&str>) -> (found: AgentValue)
    ensures
        is_looked_up(*value, piece_views(path@), found),
{
    let ghost full = piece_views(path@);
    let mut current: &AgentValue = value;
    let mut k: usize = 0;
    assert(full.skip(0) =~= full);
    while k < path.len()
        invariant
            0 <= k <= path.len(),
            full == piece_views(path@),
            resolve(*value, full) == resolve(*current, full.skip(k as int)),
        decreases path.len() - k,
    {
        proof {
            assert(full.skip(k as int)[0] == path@[k as int]@);
            assert(full.skip(k as int).skip(1) =~= full.skip(k + 1));
        }
        match current.get(path[k]) {
            Some(field) => {
                current = field;
            },
            None => {
                return AgentValue::unit();
            },
        }
        k += 1;
    }
    assert(full.skip(k as int).len() == 0);
    current.clone()
}

/// What looking `key` up in `value` sends on, if anything.
///
/// An empty key sends nothing. A sequence sends the sequence of what the
/// path gives in each element; an object sends what the path gives in it;
/// any other value sends nothing.
pub open spec fn is_get_result(key: Seq<char>, value: AgentValue, out: Option<AgentValue>) -> bool {
    if key.len() == 0 {
        out.is_none()
    } else if array_items(value).is_some() {
        let items = array_items(value).unwrap();
        &&& out.is_some()
        &&& array_items(out.unwrap()).is_some()
        &&& array_items(out.unwrap()).unwrap().len() == items.len()
        &&& forall|k: int|
            0 <= k < items.len() ==> is_looked_up(
                #[trigger] items[k],
                segments(key),
                array_items(out.unwrap()).unwrap()[k],
            )
    } else if object_fields(value).is_some() {
        out.is_some() && is_looked_up(value, segments(key), out.unwrap())
    } else {
        out.is_none()
    }
}

/// Looks the dotted path `key` up in `value`.
pub fn get_value(key: &str, value: &AgentValue) -> (out: Option<AgentValue>)
    ensures
        is_get_result(key@, *value, out),
{
    proof {
        reveal_strlit("");
    }
    if same_text(key, "") {
        return None;
    }
    assert(key@.len() != 0) by {
        if key@.len() == 0 {
            assert(key@ =~= ""@);
        }
    }
    let path = split_path(key);
    match value.as_array() {
        Some(items) => {
            let n = vector_len(items);
            let mut found = vector_new();
            let mut k: usize = 0;
            while k < n
                invariant
                    0 <= k <= n,
                    n == vector_items(*items).len(),
                    piece_views(path@) == segments(key@),
                    vector_items(found).len() == k,
                    forall|j: int|
                        0 <= j < k ==> is_looked_up(
                            #[trigger] vector_items(*items)[j],
                            segments(key@),
                            vector_items(found)[j],
                        ),
                decreases n - k,
            {
                match vector_get(items, k) {
                    Some(item) => {
                        vector_push_back(&mut found, lookup(item, &path));
                    },
                    None => {},
                }
                k += 1;
            }
            Some(AgentValue::array(found))
        },
        None => {
            if value.is_object() {
                Some(lookup(value, &path))
            } else {
                None
            }
        },
    }
}

/// The fields of the object that an assignment descends into under `key`:
/// those of the field if it is an object, none at all if the field is
/// missing, and `None` if the field holds something else.
pub open spec fn inner_fields(fields: Map<Seq<char>, AgentValue>, key: Seq<char>) -> Option<
    Map<Seq<char>, AgentValue>,
> {
    if fields.contains_key(key) {
        object_fields(fields[key])
    } else {
        Some(Map::empty())
    }
}

/// Every field that `path` leads through, short of the last, is an object
/// or missing.
pub open spec fn can_assign(fields: Map<Seq<char>, AgentValue>, path: Seq<Seq<char>>) -> bool
    decreases path.len(),
{
    if path.len() <= 1 {
        true
    } else {
        match inner_fields(fields, path[0]) {
            Some(inner) => can_assign(inner, path.skip(1)),
            None => false,
        }
    }
}

/// `after` is `fields` with `value` stored at the end of `path`: the last
/// segment names the field that holds `value`; every segment before it
/// names a field that is an object, made on the way where it was missing.
/// All other fields stay as they were.
pub open spec fn is_assigned(
    fields: Map<Seq<char>, AgentValue>,
    path: Seq<Seq<char>>,
    value: AgentValue,
    after: Map<Seq<char>, AgentValue>,
) -> bool
    recommends
        path.len() >= 1,
    decreases path.len(),
{
    if path.len() <= 1 {
        after == fields.insert(path[0], value)
    } else {
        &&& after.contains_key(path[0])
        &&& after == fields.insert(path[0], after[path[0]])
        &&& inner_fields(fields, path[0]).is_some()
        &&& object_fields(after[path[0]]).is_some()
        &&& is_assigned(
            inner_fields(fields, path[0]).unwrap(),
            path.skip(1),
            value,
            object_fields(after[path[0]]).unwrap(),
        )
    }
}

/// Stores `value` in `object` at the end of the part of `path` that starts
/// at `from`.
pub fn assign_at(object: AgentValue, path: &Vec<&str>, from: usize, value: AgentValue) -> (r: Result<
    AgentValue,
    InputError,
>)
    requires
        object_fields(object).is_some(),
        from < path.len(),
    ensures
        match r {
            Ok(after) => {
                &&& can_assign(object_fields(object).unwrap(), piece_views(path@).skip(from as int))
                &&& object_fields(after).is_some()
                &&& is_assigned(
                    object_fields(object).unwrap(),
                    piece_views(path@).skip(from as int),
                    value,
                    object_fields(after).unwrap(),
                )
            },
            Err(e) => {
                &&& !can_assign(object_fields(object).unwrap(), piece_views(path@).skip(from as int))
                &&& e == InputError::NotAnObject
            },
        },
    decreases path.len() - from,
{
    let ghost rest = piece_views(path@).skip(from as int);
    let ghost fields = object_fields(object).unwrap();
    proof {
        assert(rest[0] == path@[from as int]@);
        assert(rest.skip(1) =~= piece_views(path@).skip(from + 1));
    }
    let mut target = object;
    if from + 1 == path.len() {
        let _ = target.set(path[from].to_string(), value);
        Ok(target)
    } else {
        let inner = match target.get(path[from]) {
            Some(field) => field.clone(),
            None => AgentValue::object_default(),
        };
        if !inner.is_object() {
            return Err(InputError::NotAnObject);
        }
        match assign_at(inner, path, from + 1, value) {
            Ok(filled) => {
                let _ = target.set(path[from].to_string(), filled);
                proof {
                    let after = object_fields(target).unwrap();
                    assert(after == fields.insert(rest[0], filled));
                    assert(after[rest[0]] == filled);
                }
                Ok(target)
            },
            Err(e) => Err(e),
        }
    }
}

/// What a setting agent holds while it waits for its two inputs.
pub struct Pending {
    /// The wave that the inputs belong to.
    pub id: usize,
    /// The object to store into, once it has arrived.
    pub data: Option<AgentValue>,
    /// The value to store, once it has arrived.
    pub value: Option<AgentValue>,
}

/// What is held after `value` arrived on `pin` under the wave `id`.
///
/// Another wave drops what was held. An object on the data pin becomes the
/// object to store into; anything else there is ignored. Whatever arrives
/// on the value pin becomes the value to store.
pub open spec fn accepted(before: Pending, id: usize, pin: Seq<char>, value: AgentValue) -> Pending {
    let base = if id != before.id {
        Pending { id, data: None, value: None }
    } else {
        before
    };
    if pin == PIN_DATA@ {
        if object_fields(value).is_some() {
            Pending { id: base.id, data: Some(value), value: base.value }
        } else {
            base
        }
    } else if pin == PIN_VALUE@ {
        Pending { id: base.id, data: base.data, value: Some(value) }
    } else {
        base
    }
}

/// Both inputs have arrived.
pub open spec fn is_ready(held: Pending) -> bool {
    held.data.is_some() && held.value.is_some()
}

/// The state of a setting agent.
pub struct Setter {
    current_id: usize,
    input_data: Option<AgentValue>,
    input_value: Option<AgentValue>,
}

impl Setter {
    /// What the setter holds.
    pub closed spec fn view(&self) -> Pending {
        Pending { id: self.current_id, data: self.input_data, value: self.input_value }
    }

    /// A setter that holds nothing, for the wave zero.
    pub fn new() -> (r: Self)
        ensures
            r@ == (Pending { id: 0, data: None, value: None }),
    {
        Setter { current_id: 0, input_data: None, input_value: None }
    }

    /// Takes one delivery and tells whether both inputs are there.
    pub fn accept(&mut self, id: usize, pin: &str, value: AgentValue) -> (ready: bool)
        ensures
            final(self)@ == accepted(old(self)@, id, pin@, value),
            ready == is_ready(final(self)@),
    {
        if id != self.current_id {
            self.current_id = id;
            self.input_data = None;
            self.input_value = None;
        }
        if same_text(pin, PIN_DATA) {
            if value.is_object() {
                self.input_data = Some(value);
            }
        } else if same_text(pin, PIN_VALUE) {
            self.input_value = Some(value);
        }
        self.input_data.is_some() && self.input_value.is_some()
    }

    /// Stores the held value into the held object at the dotted path `key`.
    ///
    /// Nothing happens, and nothing is sent, while an input is missing or
    /// the key is empty. Otherwise both inputs are used up, and the object
    /// with the value stored is sent on, unless the path leads through a
    /// field that is not an object.
    pub fn assign(&mut self, key: &str) -> (r: Result<Option<AgentValue>, InputError>)
        ensures
            if is_ready(old(self)@) && key@.len() > 0 && object_fields(old(self)@.data.unwrap()).is_some() {
                let fields = object_fields(old(self)@.data.unwrap()).unwrap();
                &&& final(self)@ == (Pending { id: old(self)@.id, data: None, value: None })
                &&& match r {
                    Ok(out) => {
                        &&& can_assign(fields, segments(key@))
                        &&& out.is_some()
                        &&& object_fields(out.unwrap()).is_some()
                        &&& is_assigned(
                            fields,
                            segments(key@),
                            old(self)@.value.unwrap(),
                            object_fields(out.unwrap()).unwrap(),
                        )
                    },
                    Err(e) => !can_assign(fields, segments(key@)) && e == InputError::NotAnObject,
                }
            } else {
                final(self)@ == old(self)@ && r == Ok::<Option<AgentValue>, InputError>(None)
            },
    {
        proof {
            reveal_strlit("");
        }
        if self.input_data.is_none() || self.input_value.is_none() {
            return Ok(None);
        }
        if same_text(key, "") {
            return Ok(None);
        }
        assert(key@.len() != 0) by {
            if key@.len() == 0 {
                assert(key@ =~= ""@);
            }
        }
        let is_object = match &self.input_data {
            Some(data) => data.is_object(),
            None => false,
        };
        if !is_object {
            return Ok(None);
        }
        let path = split_path(key);
        proof {
            crate::text::lemma_segments_hold_no_dot(key@);
            assert(piece_views(path@).skip(0) =~= piece_views(path@));
        }
        let data = self.input_data.take();
        let value = self.input_value.take();
        match (data, value) {
            (Some(data), Some(value)) => {
                match assign_at(data, &path, 0, value) {
                    Ok(out) => Ok(Some(out)),
                    Err(e) => Err(e),
                }
            },
            _ => Ok(None),
        }
    }
}

} // verus!
