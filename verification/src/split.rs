//! Fan-out: one sequence value becomes one tagged value per element.
//!
//! Each element leaves under the context of the input, extended by two
//! variables that let a later stage regroup the siblings: the element's
//! position and the number of elements.

use crate::context::{context_frames, context_id, context_vars};
use crate::error::InputError;
use crate::value::{array_items, integer_of, integer_value, vector_get, vector_items, vector_len};
use agent_stream_kit::{AgentContext, AgentValue};
use vstd::prelude::*;

verus! {

/// Name of the context variable that holds an element's position.
pub const INDEX_VAR: &'static str = "map_i";

/// Name of the context variable that holds the number of elements.
pub const COUNT_VAR: &'static str = "map_n";

/// A value together with the context it flows under.
#[derive(Clone, Debug)]
pub struct Tagged {
    pub ctx: AgentContext,
    pub value: AgentValue,
}

/// The two variable names differ, so setting one never hides the other.
pub proof fn lemma_var_names_differ()
    ensures
        INDEX_VAR@ != COUNT_VAR@,
{
    reveal_strlit("map_i");
    reveal_strlit("map_n");
    assert(INDEX_VAR@[4] == 'i');
    assert(COUNT_VAR@[4] == 'n');
}

/// `out` is `ctx` tagged for element `index` of `count`: same identifier and
/// frames, and the same variables but for position and count, which hold the
/// two integers.
pub open spec fn is_tagged(ctx: AgentContext, out: AgentContext, index: i64, count: i64) -> bool {
    &&& context_id(out) == context_id(ctx)
    &&& context_frames(out) == context_frames(ctx)
    &&& context_vars(out) == context_vars(ctx).insert(INDEX_VAR@, integer_value(index)).insert(
        COUNT_VAR@,
        integer_value(count),
    )
    &&& integer_of(integer_value(index)) == Some(index)
    &&& integer_of(integer_value(count)) == Some(count)
}

/// `outs` is the fan-out of `items` under `ctx`: one output per element, in
/// order, each carrying its element and the context tagged with the
/// element's position and the length of `items`.
pub open spec fn is_fan_out(ctx: AgentContext, items: Seq<AgentValue>, outs: Seq<Tagged>) -> bool {
    &&& outs.len() == items.len()
    &&& forall|k: int|
        0 <= k < items.len() ==> {
            &&& (#[trigger] outs[k]).value == items[k]
            &&& is_tagged(ctx, outs[k].ctx, k as i64, items.len() as i64)
        }
}

/// Tags `ctx` for element `index` of `count`.
pub fn tag_context(ctx: &AgentContext, index: i64, count: i64) -> (out: AgentContext)
    ensures
        is_tagged(*ctx, out, index, count),
{
    ctx.with_var(INDEX_VAR.to_string(), AgentValue::integer(index)).with_var(
        COUNT_VAR.to_string(),
        AgentValue::integer(count),
    )
}

/// Splits a sequence value into its elements.
///
/// The outputs come in the sequence's own order, one per element; an empty
/// sequence gives none. A value that is not a sequence is rejected.
pub fn split(ctx: &AgentContext, value: &AgentValue) -> (r: Result<Vec<Tagged>, InputError>)
    ensures
        match r {
            Ok(outs) => array_items(*value).is_some() && is_fan_out(*ctx, array_items(*value).unwrap(), outs@),
            Err(e) => array_items(*value).is_none() && e == InputError::NotAnArray,
        },
{
    let items = match value.as_array() {
        Some(items) => items,
        None => {
            return Err(InputError::NotAnArray);
        },
    };
    let n = vector_len(items);
    let mut outs: Vec<Tagged> = Vec::new();
    let mut i: usize = 0;
    while i < n
        invariant
            0 <= i <= n,
            n == vector_items(*items).len(),
            outs@.len() == i,
            forall|k: int|
                0 <= k < i ==> {
                    &&& (#[trigger] outs@[k]).value == vector_items(*items)[k]
                    &&& is_tagged(*ctx, outs@[k].ctx, k as i64, n as i64)
                },
        decreases n - i,
    {
        match vector_get(items, i) {
            Some(item) => {
                let out = Tagged { ctx: tag_context(ctx, i as i64, n as i64), value: item.clone() };
                outs.push(out);
            },
            None => {},
        }
        i += 1;
    }
    Ok(outs)
}

} // verus!
