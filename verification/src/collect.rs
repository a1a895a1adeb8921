//! Fan-in: the siblings of one wave are regrouped into one sequence.
//!
//! A collector holds one slot per element of the wave it is working on. An
//! arriving value is written into the slot that its context names; once no
//! slot is empty, the slots leave together as one sequence. A value whose
//! context belongs to another wave makes the collector drop what it holds
//! and start over with that wave. A value that was never fanned out passes
//! straight through.
//!
//! The slots are not emptied when a wave leaves: they stay as they are until
//! a value of another wave arrives. A late or repeated value of a wave that
//! has already left therefore replaces its slot and makes the wave leave
//! once more. Identifiers are expected not to be used again while values of
//! their wave can still arrive.

use crate::context::{context_id, integer_var, read_integer_var};
use crate::error::InputError;
use crate::split::{is_fan_out, is_tagged, lemma_var_names_differ, Tagged, COUNT_VAR, INDEX_VAR};
use crate::value::{array_items, vector_items, vector_new, vector_push_back};
use agent_stream_kit::{AgentContext, AgentValue};
use vstd::prelude::*;

verus! {

/// What a collector is doing.
pub enum Phase {
    /// No wave has been seen yet.
    Idle,
    /// The wave `id` is being collected into `slots`.
    Collecting { id: usize, slots: Seq<Option<AgentValue>> },
}

/// What one delivery does to a collector in a given phase.
pub enum Step {
    /// The value is not part of a wave: it is passed on, the phase stays.
    Bypass,
    /// The position does not fit the wave: the delivery is rejected, the
    /// phase stays.
    Reject,
    /// The value was stored and a slot is still empty.
    Hold { id: usize, slots: Seq<Option<AgentValue>> },
    /// The value was stored and every slot is filled.
    Emit { id: usize, slots: Seq<Option<AgentValue>> },
}

/// The slots that a delivery under `id` with count `count` works on: those
/// of the running wave if it has this identifier, else `count` empty ones.
pub open spec fn working_slots(phase: Phase, id: usize, count: i64) -> Seq<Option<AgentValue>> {
    match phase {
        Phase::Collecting { id: current, slots } if current == id => slots,
        _ => Seq::new(
            if count > 0 {
                count as nat
            } else {
                0
            },
            |k: int| None,
        ),
    }
}

/// No slot is empty.
pub open spec fn all_filled(slots: Seq<Option<AgentValue>>) -> bool {
    forall|k: int| 0 <= k < slots.len() ==> (#[trigger] slots[k]).is_some()
}

/// The contents of the slots in position order.
pub open spec fn contents(slots: Seq<Option<AgentValue>>) -> Seq<AgentValue> {
    Seq::new(slots.len(), |k: int| slots[k].unwrap())
}

/// The effect of delivering `value` under `ctx` in `phase`.
///
/// Without both wave variables the value bypasses the collector. Otherwise
/// the delivery works on the slots of its wave. A wave of no elements is
/// complete at once. In every other case the position must lie within the
/// declared count and within the slots, and the value replaces whatever the
/// slot held.
pub open spec fn step(phase: Phase, ctx: AgentContext, value: AgentValue) -> Step {
    match (integer_var(ctx, INDEX_VAR@), integer_var(ctx, COUNT_VAR@)) {
        (Some(index), Some(count)) => {
            let id = context_id(ctx);
            let slots = working_slots(phase, id, count);
            if count == 0 && slots.len() == 0 {
                Step::Emit { id, slots }
            } else if 0 <= index < count && index < slots.len() {
                let slots = slots.update(index as int, Some(value));
                if all_filled(slots) {
                    Step::Emit { id, slots }
                } else {
                    Step::Hold { id, slots }
                }
            } else {
                Step::Reject
            }
        },
        _ => Step::Bypass,
    }
}

/// The phase that a delivery with effect `step` leaves behind.
pub open spec fn next_phase(phase: Phase, step: Step) -> Phase {
    match step {
        Step::Bypass | Step::Reject => phase,
        Step::Hold { id, slots } | Step::Emit { id, slots } => Phase::Collecting { id, slots },
    }
}

/// The phase reached from `phase` by the deliveries of `arrivals`, in order.
pub open spec fn run(phase: Phase, arrivals: Seq<Tagged>) -> Phase
    decreases arrivals.len(),
{
    if arrivals.len() == 0 {
        phase
    } else {
        let before = run(phase, arrivals.drop_last());
        next_phase(before, step(before, arrivals.last().ctx, arrivals.last().value))
    }
}

/// The effect of delivery number `k` of `arrivals` on a collector that
/// started in `phase`.
pub open spec fn step_at(phase: Phase, arrivals: Seq<Tagged>, k: int) -> Step {
    step(run(phase, arrivals.take(k)), arrivals[k].ctx, arrivals[k].value)
}

/// `order` names every position below `n` exactly once.
pub open spec fn is_arrival_order(order: Seq<int>, n: int) -> bool {
    &&& order.len() == n
    &&& forall|k: int| 0 <= k < n ==> 0 <= #[trigger] order[k] < n
    &&& forall|j: int| 0 <= j < n ==> #[trigger] order.contains(j)
    &&& forall|k: int, m: int| 0 <= k < m < n ==> order[k] != order[m]
}

/// A phase in which a delivery under `id` starts a wave of its own.
pub open spec fn is_new_wave(phase: Phase, id: usize) -> bool {
    match phase {
        Phase::Idle => true,
        Phase::Collecting { id: current, .. } => current != id,
    }
}

/// The fan-in state of one agent instance.
pub struct Collector {
    current_id: Option<usize>,
    slots: Vec<Option<AgentValue>>,
}

impl Collector {
    /// The phase of the collector.
    pub closed spec fn view(&self) -> Phase {
        match self.current_id {
            Some(id) => Phase::Collecting { id, slots: self.slots@ },
            None => Phase::Idle,
        }
    }

    /// A collector that has not seen any wave.
    pub fn new() -> (r: Self)
        ensures
            r@ == Phase::Idle,
    {
        Collector { current_id: None, slots: Vec::new() }
    }

    /// Whether every slot holds a value.
    fn is_complete(&self) -> (r: bool)
        ensures
            r == all_filled(self.slots@),
    {
        let mut k: usize = 0;
        while k < self.slots.len()
            invariant
                0 <= k <= self.slots.len(),
                forall|j: int| 0 <= j < k ==> (#[trigger] self.slots@[j]).is_some(),
            decreases self.slots.len() - k,
        {
            if self.slots[k].is_none() {
                return false;
            }
            k += 1;
        }
        true
    }

    /// The slot contents as one sequence value.
    fn assemble(&self) -> (r: AgentValue)
        requires
            all_filled(self.slots@),
        ensures
            array_items(r) == Some(contents(self.slots@)),
    {
        let mut items = vector_new();
        let mut k: usize = 0;
        while k < self.slots.len()
            invariant
                0 <= k <= self.slots.len(),
                all_filled(self.slots@),
                vector_items(items) == contents(self.slots@).take(k as int),
            decreases self.slots.len() - k,
        {
            match &self.slots[k] {
                Some(value) => {
                    vector_push_back(&mut items, value.clone());
                },
                None => {},
            }
            assert(contents(self.slots@).take(k as int).push(contents(self.slots@)[k as int])
                == contents(self.slots@).take(k + 1));
            k += 1;
        }
        assert(contents(self.slots@).take(self.slots@.len() as int) == contents(self.slots@));
        AgentValue::array(items)
    }

    /// Takes one delivery.
    ///
    /// Gives `Ok(Some(..))` with what is to be sent on: the value itself
    /// under its own context where it bypasses the collector, or the
    /// completed sequence under the context of this delivery. Gives
    /// `Ok(None)` while a slot of the wave is still empty, and an error,
    /// with the collector unchanged, where the position does not fit.
    pub fn deliver(&mut self, ctx: AgentContext, value: AgentValue) -> (r: Result<Option<Tagged>, InputError>)
        ensures
            final(self)@ == next_phase(old(self)@, step(old(self)@, ctx, value)),
            match step(old(self)@, ctx, value) {
                Step::Bypass => r == Ok::<Option<Tagged>, InputError>(Some(Tagged { ctx, value })),
                Step::Reject => r == Err::<Option<Tagged>, InputError>(InputError::IndexOutOfBounds),
                Step::Hold { .. } => r == Ok::<Option<Tagged>, InputError>(None),
                Step::Emit { id, slots } => {
                    &&& r.is_ok()
                    &&& r.unwrap().is_some()
                    &&& r.unwrap().unwrap().ctx == ctx
                    &&& array_items(r.unwrap().unwrap().value) == Some(contents(slots))
                },
            },
    {
        let index = match read_integer_var(&ctx, INDEX_VAR) {
            Some(index) => index,
            None => {
                return Ok(Some(Tagged { ctx, value }));
            },
        };
        let count = match read_integer_var(&ctx, COUNT_VAR) {
            Some(count) => count,
            None => {
                return Ok(Some(Tagged { ctx, value }));
            },
        };
        let id = ctx.id();
        let same_wave = match self.current_id {
            Some(current) => current == id,
            None => false,
        };
        let len = self.slots.len();
        let empty_wave = count == 0 && (!same_wave || len == 0);
        if !empty_wave {
            let in_count = 0 <= index && index < count;
            let in_slots = !same_wave || (index as u64) < (len as u64);
            if !(in_count && in_slots) {
                return Err(InputError::IndexOutOfBounds);
            }
        }
        if !same_wave {
            let mut slots: Vec<Option<AgentValue>> = Vec::new();
            let mut made: i64 = 0;
            while made < count
                invariant
                    0 <= made <= count,
                    slots@.len() == made,
                    forall|k: int| 0 <= k < made ==> (#[trigger] slots@[k]).is_none(),
                decreases count - made,
            {
                slots.push(None);
                made += 1;
            }
            assert(slots@ =~= working_slots(old(self)@, id, count));
            self.current_id = Some(id);
            self.slots = slots;
        }
        if !empty_wave {
            let len = self.slots.len();
            assert(index < len);
            self.slots.set(index as usize, Some(value));
            assert(self.slots@ =~= working_slots(old(self)@, id, count).update(index as int, Some(value)));
        }
        if !self.is_complete() {
            return Ok(None);
        }
        let array = self.assemble();
        Ok(Some(Tagged { ctx, value: array }))
    }
}

/// The outputs of a fan-out in the order in which they arrive.
pub open spec fn arrivals_in(outs: Seq<Tagged>, order: Seq<int>) -> Seq<Tagged> {
    Seq::new(order.len(), |k: int| outs[order[k]])
}

/// The slots of a wave of `items` after the first `k` arrivals of `order`.
pub open spec fn slots_after(items: Seq<AgentValue>, order: Seq<int>, k: int) -> Seq<Option<AgentValue>> {
    Seq::new(
        items.len(),
        |j: int|
            if order.take(k).contains(j) {
                Some(items[j])
            } else {
                None
            },
    )
}

/// A context tagged for element `index` of `count` reads back as exactly
/// that pair.
pub proof fn lemma_tagged_reads_back(ctx: AgentContext, out: AgentContext, index: i64, count: i64)
    requires
        is_tagged(ctx, out, index, count),
    ensures
        integer_var(out, INDEX_VAR@) == Some(index),
        integer_var(out, COUNT_VAR@) == Some(count),
        context_id(out) == context_id(ctx),
{
    lemma_var_names_differ();
}

/// After `k` arrivals of a wave, the collector holds exactly the elements
/// that have arrived, each in its own slot.
proof fn lemma_wave_progress(
    start: Phase,
    ctx: AgentContext,
    items: Seq<AgentValue>,
    outs: Seq<Tagged>,
    order: Seq<int>,
    k: int,
)
    requires
        is_fan_out(ctx, items, outs),
        items.len() <= i64::MAX,
        is_new_wave(start, context_id(ctx)),
        is_arrival_order(order, items.len() as int),
        1 <= k <= items.len(),
    ensures
        run(start, arrivals_in(outs, order).take(k)) == (Phase::Collecting {
            id: context_id(ctx),
            slots: slots_after(items, order, k),
        }),
        step_at(start, arrivals_in(outs, order), k - 1) == (if all_filled(slots_after(items, order, k)) {
            Step::Emit { id: context_id(ctx), slots: slots_after(items, order, k) }
        } else {
            Step::Hold { id: context_id(ctx), slots: slots_after(items, order, k) }
        }),
    decreases k,
{
    let n = items.len() as int;
    let id = context_id(ctx);
    let arrivals = arrivals_in(outs, order);
    let prefix = arrivals.take(k);
    assert(prefix.drop_last() =~= arrivals.take(k - 1));
    assert(prefix.last() == arrivals[k - 1]);
    let at = order[k - 1];
    let arrival = outs[at];
    assert(arrivals[k - 1] == arrival);
    assert(is_tagged(ctx, arrival.ctx, at as i64, n as i64));
    lemma_tagged_reads_back(ctx, arrival.ctx, at as i64, n as i64);
    let before = run(start, arrivals.take(k - 1));
    let held = slots_after(items, order, k - 1);
    if k == 1 {
        assert(arrivals.take(0).len() == 0);
        assert(before == start);
        assert(order.take(0).len() == 0);
        assert(working_slots(before, id, n as i64) =~= held);
    } else {
        lemma_wave_progress(start, ctx, items, outs, order, k - 1);
        assert(working_slots(before, id, n as i64) == held);
    }
    let shorter = order.take(k - 1);
    let longer = order.take(k);
    assert forall|j: int| 0 <= j < n implies (longer.contains(j) <==> (shorter.contains(j) || j == at)) by {
        if longer.contains(j) {
            let m = choose|m: int| 0 <= m < longer.len() && longer[m] == j;
            if m < k - 1 {
                assert(shorter[m] == j);
            }
        }
        if shorter.contains(j) {
            let m = choose|m: int| 0 <= m < shorter.len() && shorter[m] == j;
            assert(longer[m] == j);
        }
        if j == at {
            assert(longer[k - 1] == j);
        }
    }
    assert(held.update(at, Some(arrival.value)) =~= slots_after(items, order, k));
}

/// Splitting a sequence and collecting all of its elements gives the
/// sequence back, whatever the order of arrival.
///
/// A collector that is idle, or busy with another wave, takes the outputs of
/// one fan-out in any order that delivers each of them once. Every delivery
/// but the last is held back; the last one completes the wave, and the
/// contents of the slots are the elements in the order of the sequence.
pub proof fn lemma_split_collect_round_trip(
    start: Phase,
    ctx: AgentContext,
    items: Seq<AgentValue>,
    outs: Seq<Tagged>,
    order: Seq<int>,
)
    requires
        is_fan_out(ctx, items, outs),
        0 < items.len() <= i64::MAX,
        is_new_wave(start, context_id(ctx)),
        is_arrival_order(order, items.len() as int),
    ensures
        forall|k: int|
            0 <= k < items.len() - 1 ==> #[trigger] step_at(start, arrivals_in(outs, order), k) is Hold,
        step_at(start, arrivals_in(outs, order), items.len() - 1) is Emit,
        contents(step_at(start, arrivals_in(outs, order), items.len() - 1)->Emit_slots) == items,
{
    let n = items.len() as int;
    let arrivals = arrivals_in(outs, order);
    assert forall|k: int| 0 <= k < n - 1 implies #[trigger] step_at(start, arrivals, k) is Hold by {
        lemma_wave_progress(start, ctx, items, outs, order, k + 1);
        let slots = slots_after(items, order, k + 1);
        let last = order[n - 1];
        let arrived = order.take(k + 1);
        assert(!arrived.contains(last)) by {
            if arrived.contains(last) {
                let m = choose|m: int| 0 <= m < arrived.len() && arrived[m] == last;
                assert(order[m] == order[n - 1]);
            }
        }
        assert(slots[last].is_none());
    }
    lemma_wave_progress(start, ctx, items, outs, order, n);
    let slots = slots_after(items, order, n);
    assert(order.take(n) =~= order);
    assert(all_filled(slots));
    assert(contents(slots) =~= items);
}

/// A delivery that starts a wave of its own is treated as by a collector
/// that has never seen a value: whatever was held of another wave is
/// dropped and has no influence on the outcome.
pub proof fn lemma_new_wave_discards(phase: Phase, ctx: AgentContext, value: AgentValue)
    requires
        is_new_wave(phase, context_id(ctx)),
    ensures
        step(phase, ctx, value) == step(Phase::Idle, ctx, value),
{
}

/// The first arrival of a wave of two or more elements never completes it.
pub proof fn lemma_first_arrival_is_held(phase: Phase, ctx: AgentContext, value: AgentValue)
    requires
        is_new_wave(phase, context_id(ctx)),
        integer_var(ctx, INDEX_VAR@).is_some(),
        integer_var(ctx, COUNT_VAR@).is_some(),
        integer_var(ctx, COUNT_VAR@).unwrap() >= 2,
    ensures
        !(step(phase, ctx, value) is Emit),
        !(step(phase, ctx, value) is Bypass),
{
    let index = integer_var(ctx, INDEX_VAR@).unwrap();
    let count = integer_var(ctx, COUNT_VAR@).unwrap();
    let slots = working_slots(phase, context_id(ctx), count);
    if 0 <= index < count {
        let other = if index == 0 {
            1int
        } else {
            0int
        };
        assert(slots.update(index as int, Some(value))[other].is_none());
    }
}

/// Delivery number `e` of `arrivals` was stored in a slot.
pub open spec fn is_stored(arrivals: Seq<Tagged>, e: int) -> bool {
    step_at(Phase::Idle, arrivals, e) is Hold || step_at(Phase::Idle, arrivals, e) is Emit
}

/// Delivery number `d` of `arrivals` is where slot `j` of the wave `id` got
/// the value `value`: it carried that value for that slot under that
/// identifier, and every delivery stored after it belonged to the same
/// wave.
pub open spec fn is_source(arrivals: Seq<Tagged>, id: usize, j: int, value: AgentValue, d: int) -> bool {
    &&& 0 <= d < arrivals.len()
    &&& arrivals[d].value == value
    &&& context_id(arrivals[d].ctx) == id
    &&& integer_var(arrivals[d].ctx, INDEX_VAR@) == Some(j as i64)
    &&& forall|e: int| d < e < arrivals.len() && #[trigger] is_stored(arrivals, e) ==> context_id(arrivals[e].ctx) == id
}

/// Waves never mix: whatever a collector holds after any run of deliveries
/// was delivered under the identifier of the wave it is collecting, for the
/// slot it stands in, and no value of another wave has been stored since.
pub proof fn lemma_wave_isolation(arrivals: Seq<Tagged>, j: int)
    requires
        run(Phase::Idle, arrivals) is Collecting,
        0 <= j < run(Phase::Idle, arrivals)->slots.len(),
        run(Phase::Idle, arrivals)->slots[j].is_some(),
    ensures
        exists|d: int|
            is_source(
                arrivals,
                run(Phase::Idle, arrivals)->id,
                j,
                run(Phase::Idle, arrivals)->slots[j].unwrap(),
                d,
            ),
    decreases arrivals.len(),
{
    let len = arrivals.len() as int;
    let after = run(Phase::Idle, arrivals);
    let id = after->id;
    let held = after->slots[j].unwrap();
    if len > 0 {
        let earlier = arrivals.drop_last();
        let before = run(Phase::Idle, earlier);
        let last = arrivals.last();
        assert(arrivals.take(len - 1) =~= earlier);
        let taken = step(before, last.ctx, last.value);
        assert(step_at(Phase::Idle, arrivals, len - 1) == taken);
        assert forall|e: int| 0 <= e < len - 1 implies is_stored(arrivals, e) == is_stored(earlier, e) by {
            assert(arrivals.take(e) =~= earlier.take(e));
        }
        let stays = match taken {
            Step::Bypass | Step::Reject => true,
            Step::Hold { slots, .. } | Step::Emit { slots, .. } => {
                &&& before is Collecting
                &&& before->id == id
                &&& j < before->slots.len()
                &&& before->slots[j] == Some(held)
            },
        };
        if stays {
            lemma_wave_isolation(earlier, j);
            let d = choose|d: int| is_source(earlier, id, j, held, d);
            assert(is_source(arrivals, id, j, held, d));
        } else {
            assert(is_source(arrivals, id, j, held, len - 1));
        }
    }
}

/// A wave that has left is not forgotten: a further value for one of its
/// slots replaces what the slot held and makes the wave leave again.
pub proof fn lemma_late_arrival_leaves_again(
    id: usize,
    slots: Seq<Option<AgentValue>>,
    ctx: AgentContext,
    value: AgentValue,
)
    requires
        all_filled(slots),
        context_id(ctx) == id,
        integer_var(ctx, INDEX_VAR@).is_some(),
        integer_var(ctx, COUNT_VAR@).is_some(),
        0 <= integer_var(ctx, INDEX_VAR@).unwrap() < integer_var(ctx, COUNT_VAR@).unwrap(),
        integer_var(ctx, INDEX_VAR@).unwrap() < slots.len(),
    ensures
        step(Phase::Collecting { id, slots }, ctx, value) == (Step::Emit {
            id,
            slots: slots.update(integer_var(ctx, INDEX_VAR@).unwrap() as int, Some(value)),
        }),
{
}

} // verus!
