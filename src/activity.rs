//! The item activity state machine: `Idle`, `Reload` and `Fire` each return
//! to `Idle` once their dwell time has passed.
use vstd::prelude::*;
use crate::dwell::{drained, sat_add, DWELL_NANOS};
use crate::inventory::{Item, ItemState};

verus! {

/// One tick of `delta` nanoseconds of an equipped item's activity.
pub open spec fn activity_tick(item: Item, delta: u64) -> Item {
    let d = sat_add(item.state_dur, delta);
    Item {
        state: if d > DWELL_NANOS {
            ItemState::Idle
        } else {
            item.state
        },
        state_dur: drained(d),
        ..item
    }
}

impl Item {
    /// Advances the activity state machine by one tick of `delta` nanoseconds.
    pub fn advance_state(&mut self, delta: u64)
        ensures
            *final(self) == activity_tick(*old(self), delta),
    {
        let mut state = self.state;
        let mut dur = self.state_dur.saturating_add(delta);
        let ghost start = dur;
        let ghost first = state;
        while dur > DWELL_NANOS
            invariant
                dur <= start,
                dur == start || start > DWELL_NANOS,
                drained(dur) == drained(start),
                state == if dur == start {
                    first
                } else {
                    ItemState::Idle
                },
            decreases dur,
        {
            state = match state {
                ItemState::Idle | ItemState::Reload | ItemState::Fire => ItemState::Idle,
            };
            dur = dur - DWELL_NANOS;
        }
        self.state = state;
        self.state_dur = dur;
    }
}

} // verus!
