use agent_stream_kit::{AgentContext, AgentValue};
use im::Vector;
use stream_join::collect::Collector;
use stream_join::error::InputError;
use stream_join::split::{split, tag_context, Tagged, COUNT_VAR, INDEX_VAR};

fn int_array(items: &[i64]) -> AgentValue {
    let mut v = Vector::new();
    for i in items {
        v.push_back(AgentValue::integer(*i));
    }
    AgentValue::array(v)
}

fn tagged(ctx: &AgentContext, index: i64, count: i64, value: i64) -> Tagged {
    Tagged { ctx: tag_context(ctx, index, count), value: AgentValue::integer(value) }
}

#[test]
fn split_tags_each_element() {
    let ctx = AgentContext::new().with_var("keep".to_string(), AgentValue::string("me"));
    let outs = split(&ctx, &int_array(&[10, 20, 30])).unwrap();
    assert_eq!(outs.len(), 3);
    for (k, out) in outs.iter().enumerate() {
        assert_eq!(out.value, AgentValue::integer(10 * (k as i64 + 1)));
        assert_eq!(out.ctx.id(), ctx.id());
        assert_eq!(out.ctx.get_var(INDEX_VAR), Some(&AgentValue::integer(k as i64)));
        assert_eq!(out.ctx.get_var(COUNT_VAR), Some(&AgentValue::integer(3)));
        assert_eq!(out.ctx.get_var("keep"), Some(&AgentValue::string("me")));
    }
    assert!(ctx.get_var(INDEX_VAR).is_none());
}

#[test]
fn split_of_empty_sequence_gives_nothing() {
    let ctx = AgentContext::new();
    let outs = split(&ctx, &int_array(&[])).unwrap();
    assert!(outs.is_empty());
}

#[test]
fn split_rejects_non_sequence() {
    let ctx = AgentContext::new();
    assert_eq!(split(&ctx, &AgentValue::integer(1)).err(), Some(InputError::NotAnArray));
    assert_eq!(split(&ctx, &AgentValue::unit()).err(), Some(InputError::NotAnArray));
    assert_eq!(split(&ctx, &AgentValue::string("abc")).err(), Some(InputError::NotAnArray));
}

#[test]
fn round_trip_in_shuffled_order() {
    let ctx = AgentContext::new();
    let source = int_array(&[10, 20, 30]);
    let outs = split(&ctx, &source).unwrap();
    let mut collector = Collector::new();
    let first = collector.deliver(outs[1].ctx.clone(), outs[1].value.clone()).unwrap();
    assert!(first.is_none());
    let second = collector.deliver(outs[0].ctx.clone(), outs[0].value.clone()).unwrap();
    assert!(second.is_none());
    let third = collector.deliver(outs[2].ctx.clone(), outs[2].value.clone()).unwrap().unwrap();
    assert_eq!(third.value, source);
    assert_eq!(third.ctx.id(), ctx.id());
    assert_eq!(third.ctx.get_var(INDEX_VAR), Some(&AgentValue::integer(2)));
}

#[test]
fn round_trip_in_reverse_order() {
    let ctx = AgentContext::new();
    let source = int_array(&[1, 2, 3, 4, 5]);
    let outs = split(&ctx, &source).unwrap();
    let mut collector = Collector::new();
    let mut emitted = Vec::new();
    for out in outs.iter().rev() {
        if let Some(t) = collector.deliver(out.ctx.clone(), out.value.clone()).unwrap() {
            emitted.push(t.value);
        }
    }
    assert_eq!(emitted, vec![source]);
}

#[test]
fn sequential_waves_emit_once_each() {
    let a = AgentContext::new();
    let b = AgentContext::new();
    let mut collector = Collector::new();
    let mut emitted = Vec::new();
    for t in [tagged(&a, 0, 2, 1), tagged(&a, 1, 2, 2), tagged(&b, 0, 2, 3), tagged(&b, 1, 2, 4)] {
        if let Some(out) = collector.deliver(t.ctx, t.value).unwrap() {
            emitted.push((out.ctx.id(), out.value));
        }
    }
    assert_eq!(emitted, vec![(a.id(), int_array(&[1, 2])), (b.id(), int_array(&[3, 4]))]);
}

#[test]
fn interleaved_waves_never_mix() {
    let a = AgentContext::new();
    let b = AgentContext::new();
    let mut collector = Collector::new();
    let mut emitted = Vec::new();
    for t in [tagged(&a, 0, 2, 1), tagged(&b, 0, 2, 3), tagged(&a, 1, 2, 2), tagged(&b, 1, 2, 4)] {
        if let Some(out) = collector.deliver(t.ctx, t.value).unwrap() {
            emitted.push(out.value);
        }
    }
    // Every change of wave drops what was held, so no wave completes and
    // nothing made of both waves ever leaves.
    assert!(emitted.is_empty());
}

#[test]
fn id_change_resets_the_buffer() {
    let a = AgentContext::new();
    let b = AgentContext::new();
    let mut collector = Collector::new();
    assert!(collector.deliver(tag_context(&a, 0, 2), AgentValue::integer(1)).unwrap().is_none());
    assert!(collector.deliver(tag_context(&b, 0, 2), AgentValue::integer(3)).unwrap().is_none());
    let done = collector.deliver(tag_context(&b, 1, 2), AgentValue::integer(4)).unwrap().unwrap();
    assert_eq!(done.value, int_array(&[3, 4]));
    assert_eq!(done.ctx.id(), b.id());
    // The first wave's slot is gone: its second element alone completes nothing.
    assert!(collector.deliver(tag_context(&a, 1, 2), AgentValue::integer(2)).unwrap().is_none());
}

#[test]
fn untagged_value_bypasses() {
    let ctx = AgentContext::new().with_var("other".to_string(), AgentValue::integer(7));
    let mut collector = Collector::new();
    let out = collector.deliver(ctx.clone(), AgentValue::string("plain")).unwrap().unwrap();
    assert_eq!(out.value, AgentValue::string("plain"));
    assert_eq!(out.ctx.id(), ctx.id());
    assert_eq!(out.ctx.get_var("other"), Some(&AgentValue::integer(7)));
}

#[test]
fn bypass_leaves_a_running_wave_alone() {
    let a = AgentContext::new();
    let plain = AgentContext::new();
    let mut collector = Collector::new();
    assert!(collector.deliver(tag_context(&a, 0, 2), AgentValue::integer(1)).unwrap().is_none());
    let out = collector.deliver(plain, AgentValue::integer(99)).unwrap().unwrap();
    assert_eq!(out.value, AgentValue::integer(99));
    let done = collector.deliver(tag_context(&a, 1, 2), AgentValue::integer(2)).unwrap().unwrap();
    assert_eq!(done.value, int_array(&[1, 2]));
}

#[test]
fn only_index_or_only_count_bypasses() {
    let mut collector = Collector::new();
    let only_index = AgentContext::new().with_var(INDEX_VAR.to_string(), AgentValue::integer(0));
    let out = collector.deliver(only_index, AgentValue::integer(5)).unwrap().unwrap();
    assert_eq!(out.value, AgentValue::integer(5));
    let only_count = AgentContext::new().with_var(COUNT_VAR.to_string(), AgentValue::integer(1));
    let out = collector.deliver(only_count, AgentValue::integer(6)).unwrap().unwrap();
    assert_eq!(out.value, AgentValue::integer(6));
}

#[test]
fn index_out_of_bounds_is_rejected_and_state_kept() {
    let a = AgentContext::new();
    let mut collector = Collector::new();
    assert!(collector.deliver(tag_context(&a, 0, 2), AgentValue::integer(1)).unwrap().is_none());
    assert_eq!(
        collector.deliver(tag_context(&a, 2, 2), AgentValue::integer(9)).err(),
        Some(InputError::IndexOutOfBounds)
    );
    assert_eq!(
        collector.deliver(tag_context(&a, -1, 2), AgentValue::integer(9)).err(),
        Some(InputError::IndexOutOfBounds)
    );
    // A rejected delivery of another wave does not reset the running one.
    let b = AgentContext::new();
    assert_eq!(
        collector.deliver(tag_context(&b, 5, 3), AgentValue::integer(9)).err(),
        Some(InputError::IndexOutOfBounds)
    );
    let done = collector.deliver(tag_context(&a, 1, 2), AgentValue::integer(2)).unwrap().unwrap();
    assert_eq!(done.value, int_array(&[1, 2]));
}

#[test]
fn negative_count_is_rejected() {
    let a = AgentContext::new();
    let mut collector = Collector::new();
    assert_eq!(
        collector.deliver(tag_context(&a, 0, -3), AgentValue::integer(9)).err(),
        Some(InputError::IndexOutOfBounds)
    );
}

#[test]
fn empty_wave_completes_at_once() {
    let a = AgentContext::new();
    let mut collector = Collector::new();
    let done = collector.deliver(tag_context(&a, 0, 0), AgentValue::integer(1)).unwrap().unwrap();
    assert_eq!(done.value, int_array(&[]));
    assert_eq!(done.ctx.id(), a.id());
}

#[test]
fn duplicate_index_overwrites() {
    let a = AgentContext::new();
    let mut collector = Collector::new();
    assert!(collector.deliver(tag_context(&a, 0, 2), AgentValue::integer(1)).unwrap().is_none());
    assert!(collector.deliver(tag_context(&a, 0, 2), AgentValue::integer(7)).unwrap().is_none());
    let done = collector.deliver(tag_context(&a, 1, 2), AgentValue::integer(2)).unwrap().unwrap();
    assert_eq!(done.value, int_array(&[7, 2]));
}

#[test]
fn late_delivery_to_completed_wave_emits_again() {
    let a = AgentContext::new();
    let mut collector = Collector::new();
    assert!(collector.deliver(tag_context(&a, 0, 1), AgentValue::integer(1)).unwrap().is_some());
    let again = collector.deliver(tag_context(&a, 0, 1), AgentValue::integer(8)).unwrap().unwrap();
    assert_eq!(again.value, int_array(&[8]));
}

#[test]
fn single_element_wave_completes_immediately() {
    let ctx = AgentContext::new();
    let outs = split(&ctx, &int_array(&[42])).unwrap();
    let mut collector = Collector::new();
    let done = collector.deliver(outs[0].ctx.clone(), outs[0].value.clone()).unwrap().unwrap();
    assert_eq!(done.value, int_array(&[42]));
}

#[test]
fn fractional_index_is_read_as_integer() {
    let a = AgentContext::new();
    let ctx = a
        .with_var(INDEX_VAR.to_string(), AgentValue::number(1.0))
        .with_var(COUNT_VAR.to_string(), AgentValue::number(2.0));
    let mut collector = Collector::new();
    assert!(collector.deliver(ctx, AgentValue::integer(2)).unwrap().is_none());
    let done = collector.deliver(tag_context(&a, 0, 2), AgentValue::integer(1)).unwrap().unwrap();
    assert_eq!(done.value, int_array(&[1, 2]));
}

#[test]
fn variables_that_are_no_integers_bypass() {
    let ctx = AgentContext::new()
        .with_var(INDEX_VAR.to_string(), AgentValue::string("0"))
        .with_var(COUNT_VAR.to_string(), AgentValue::integer(1));
    let mut collector = Collector::new();
    let out = collector.deliver(ctx, AgentValue::integer(5)).unwrap().unwrap();
    assert_eq!(out.value, AgentValue::integer(5));
}

#[test]
fn nested_sequences_split_one_level() {
    let ctx = AgentContext::new();
    let inner = int_array(&[1, 2]);
    let mut v = Vector::new();
    v.push_back(inner.clone());
    v.push_back(AgentValue::string("x"));
    let outs = split(&ctx, &AgentValue::array(v)).unwrap();
    assert_eq!(outs.len(), 2);
    assert_eq!(outs[0].value, inner);
    assert_eq!(outs[1].value, AgentValue::string("x"));
}
