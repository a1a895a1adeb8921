//! A counter driven by two pins: one counts up, one resets.

use crate::text::same_text;
use crate::value::{integer_of, integer_value};
use agent_stream_kit::AgentValue;
use vstd::prelude::*;

verus! {

/// The pin that counts up.
pub const PIN_IN: &'static str = "in";

/// The pin that resets the count.
pub const PIN_RESET: &'static str = "reset";

/// The pin on which the count leaves.
pub const PIN_COUNT: &'static str = "count";

/// The count after a delivery on `pin`: zero after a reset, one more after
/// an input, and unchanged after anything else.
pub open spec fn next_count(count: int, pin: Seq<char>) -> int {
    if pin == PIN_RESET@ {
        0
    } else if pin == PIN_IN@ {
        count + 1
    } else {
        count
    }
}

/// The state of a counting agent.
pub struct Counter {
    count: i64,
}

impl Counter {
    /// The current count.
    pub closed spec fn view(&self) -> int {
        self.count as int
    }

    /// A counter at zero.
    pub fn new() -> (r: Self)
        ensures
            r@ == 0,
    {
        Counter { count: 0 }
    }

    /// The current count.
    pub fn count(&self) -> (r: i64)
        ensures
            r == self@,
    {
        self.count
    }

    /// Starts over at zero and gives the value to display.
    pub fn start(&mut self) -> (shown: AgentValue)
        ensures
            final(self)@ == 0,
            shown == integer_value(0),
            integer_of(shown) == Some(0i64),
    {
        self.count = 0;
        AgentValue::integer(0)
    }

    /// Takes one delivery on `pin` and gives the count to send on and to
    /// display.
    pub fn process(&mut self, pin: &str) -> (out: AgentValue)
        requires
            next_count(old(self)@, pin@) <= i64::MAX,
        ensures
            final(self)@ == next_count(old(self)@, pin@),
            out == integer_value(final(self)@ as i64),
            integer_of(out) == Some(final(self)@ as i64),
    {
        if same_text(pin, PIN_RESET) {
            self.count = 0;
        } else if same_text(pin, PIN_IN) {
            self.count += 1;
        }
        AgentValue::integer(self.count)
    }
}

} // verus!
