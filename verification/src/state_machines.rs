//! A two-state switch that moves only on the matching event.

use vstd::prelude::*;

verus! {

#[derive(Debug, Clone, Copy, PartialEq, Eq, Structural)]
pub enum State {
    On,
    Off,
}

#[derive(Debug, Clone, Copy, PartialEq, Eq, Structural)]
pub enum Event {
    SwitchOn,
    SwitchOff,
}

/// The state that `event` leads to from `state`: `SwitchOn` turns an `On`
/// switch `Off`, `SwitchOff` turns an `Off` switch `On`, and any other event
/// leaves the state as it is.
pub open spec fn next_state(state: State, event: Event) -> State {
    match (state, event) {
        (State::On, Event::SwitchOn) => State::Off,
        (State::Off, Event::SwitchOff) => State::On,
        _ => state,
    }
}

impl State {
    /// The state after `event`.
    pub fn transition(self, event: Event) -> (next: State)
        ensures
            next == next_state(self, event),
    {
        match (self, event) {
            (State::On, Event::SwitchOn) => State::Off,
            (State::Off, Event::SwitchOff) => State::On,
            _ => self,
        }
    }
}

/// Every event moves the switch at most once: applying the same event twice
/// in a row lands where applying it once did.
pub proof fn lemma_repeated_event_is_idempotent(state: State, event: Event)
    ensures
        next_state(next_state(state, event), event) == next_state(state, event),
{
}

} // verus!
