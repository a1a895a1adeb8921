//! The context that travels with every value: an identifier shared by all
//! values of one wave, and named variables that carry correlation metadata
//! beside the payload.

use agent_stream_kit::{AgentContext, AgentValue};
use vstd::prelude::*;

verus! {

/// The runtime's context type. It is read and extended only through the
/// functions specified below.
#[verifier::external_type_specification]
#[verifier::external_body]
pub struct ExAgentContext(AgentContext);

/// The identifier of a context: what `AgentContext::id` returns.
pub uninterp spec fn context_id(ctx: AgentContext) -> usize;

/// The variables of a context by name; a context without variables has the
/// empty map.
pub uninterp spec fn context_vars(ctx: AgentContext) -> Map<Seq<char>, AgentValue>;

/// The frame stack of a context, oldest first, each frame as its name and
/// data; a context without frames has the empty sequence.
pub uninterp spec fn context_frames(ctx: AgentContext) -> Seq<(Seq<char>, AgentValue)>;

/// `AgentContext`'s derived `Clone`: the copy is the same context.
pub assume_specification[ <AgentContext as Clone>::clone ](ctx: &AgentContext) -> (r: AgentContext)
    ensures
        r == *ctx,
;

/// `AgentContext::id` reads the identifier.
pub assume_specification[ AgentContext::id ](ctx: &AgentContext) -> (r: usize)
    ensures
        r == context_id(*ctx),
;

/// `AgentContext::get_var` borrows the variable stored under `key`, or gives
/// `None` when there is none.
pub assume_specification<'a, 'b>[ AgentContext::get_var ](ctx: &'a AgentContext, key: &'b str) -> (r: Option<&'a AgentValue>)
    ensures
        match r {
            Some(value) => context_vars(*ctx).contains_key(key@) && *value == context_vars(*ctx)[key@],
            None => !context_vars(*ctx).contains_key(key@),
        },
;

/// `AgentContext::with_var` returns a context with the same identifier and
/// frames whose variables are those of the receiver with `key` set to
/// `value`.
pub assume_specification[ AgentContext::with_var ](ctx: &AgentContext, key: String, value: AgentValue) -> (r: AgentContext)
    ensures
        context_id(r) == context_id(*ctx),
        context_frames(r) == context_frames(*ctx),
        context_vars(r) == context_vars(*ctx).insert(key@, value),
;

/// The integer stored in the variable `name`, if the context has that
/// variable and its value reads as an integer.
pub open spec fn integer_var(ctx: AgentContext, name: Seq<char>) -> Option<i64> {
    if context_vars(ctx).contains_key(name) {
        crate::value::integer_of(context_vars(ctx)[name])
    } else {
        None
    }
}

/// Reads the variable `name` as an integer.
pub fn read_integer_var(ctx: &AgentContext, name: &str) -> (r: Option<i64>)
    ensures
        r == integer_var(*ctx, name@),
{
    match ctx.get_var(name) {
        Some(value) => value.as_i64(),
        None => None,
    }
}

} // verus!
