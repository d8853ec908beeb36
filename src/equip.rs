//! The equip state machine: one step per tick of an inventory's
//! `Unequipped → Equipping → Equipped → Unequipping → Unequipped` cycle.
use vstd::prelude::*;
use crate::dwell::{drained, sat_add, DWELL_NANOS};
use crate::inventory::{replacement, EquipState, Inventory, InventoryView, Item, ItemStore, SLOT_COUNT};

verus! {

/// The state that `s` completes into once its dwell time has passed; the rest
/// states `Equipped` and `Unequipped` have no completion.
pub open spec fn completed(s: EquipState) -> EquipState {
    match s {
        EquipState::Equipping => EquipState::Equipped,
        EquipState::Unequipping => EquipState::Unequipped,
        other => other,
    }
}

/// Whether a requested slot, if any, is one of the inventory's slots.
pub open spec fn wanted_in_range(wanted: Option<u8>) -> bool {
    wanted matches Some(w) ==> w < SLOT_COUNT
}

/// Whether `wanted` names a slot that holds an item reference.
pub open spec fn wanted_is_valid(inv: InventoryView, wanted: Option<u8>) -> bool {
    match wanted {
        Some(w) => w < SLOT_COUNT && inv.slots[w as int] is Some,
        None => false,
    }
}

/// Whether a request for `wanted` interrupts `inv`: it names another
/// populated slot and `inv` is not unequipping already.
pub open spec fn interrupts(inv: InventoryView, wanted: Option<u8>) -> bool {
    wanted_is_valid(inv, wanted) && wanted != inv.equipped_slot && inv.equip_state != EquipState::Unequipping
}

/// First step of a tick: an interrupting request forces `Unequipping`.
pub open spec fn after_request(inv: InventoryView, wanted: Option<u8>) -> InventoryView {
    if interrupts(inv, wanted) {
        InventoryView { equip_state: EquipState::Unequipping, equip_state_dur: 0, ..inv }
    } else {
        inv
    }
}

/// Second step: the tick's time is added, and every dwell period that the
/// elapsed time strictly exceeds is consumed, completing the state once.
pub open spec fn after_time(inv: InventoryView, delta: u64) -> InventoryView {
    let d = sat_add(inv.equip_state_dur, delta);
    InventoryView {
        equip_state: if d > DWELL_NANOS {
            completed(inv.equip_state)
        } else {
            inv.equip_state
        },
        equip_state_dur: drained(d),
        ..inv
    }
}

/// Last step: an inventory that has come to rest in `Unequipped` starts
/// equipping the requested slot, else the replacement slot; with neither it
/// stays unequipped with nothing equipped.
pub open spec fn after_reselect(inv: InventoryView, store: Seq<Option<Item>>, wanted: Option<u8>) -> InventoryView {
    if inv.equip_state != EquipState::Unequipped {
        inv
    } else if wanted_is_valid(inv, wanted) {
        InventoryView {
            prev_equipped_slot: inv.equipped_slot,
            equipped_slot: wanted,
            equip_state: EquipState::Equipping,
            equip_state_dur: 0,
            ..inv
        }
    } else {
        match replacement(inv, store) {
            Some(s) => InventoryView {
                equipped_slot: Some(s),
                equip_state: EquipState::Equipping,
                equip_state_dur: 0,
                ..inv
            },
            None => InventoryView {
                equipped_slot: None,
                equip_state: EquipState::Unequipped,
                equip_state_dur: 0,
                ..inv
            },
        }
    }
}

/// One tick of the equip state machine. An inventory with nothing equipped
/// does not advance past the first step.
pub open spec fn equip_tick(inv: InventoryView, store: Seq<Option<Item>>, wanted: Option<u8>, delta: u64) -> InventoryView {
    let requested = after_request(inv, wanted);
    if requested.equipped_slot is None {
        requested
    } else {
        after_reselect(after_time(requested, delta), store, wanted)
    }
}

impl Inventory {
    /// Advances the equip state machine by one tick of `delta` nanoseconds,
    /// with `wanted` the slot that the controller asks for.
    pub fn update_equip_state(&mut self, store: &ItemStore, wanted: Option<u8>, delta: u64)
        requires
            wanted_in_range(wanted),
        ensures
            final(self)@ == equip_tick(old(self)@, store.items@, wanted, delta),
    {
        let has_valid_wanted = match wanted {
            Some(w) => self.item_ents.0[w as usize].is_some(),
            None => false,
        };
        let is_other_slot = match (wanted, self.equipped_slot) {
            (Some(w), Some(e)) => w != e,
            (None, None) => false,
            _ => true,
        };
        let is_alr_unequipping = self.equip_state == EquipState::Unequipping;
        if has_valid_wanted && is_other_slot && !is_alr_unequipping {
            self.equip_state = EquipState::Unequipping;
            self.equip_state_dur = 0;
        }
        if self.equipped_slot.is_none() {
            return;
        }

        let mut state = self.equip_state;
        let mut dur = self.equip_state_dur.saturating_add(delta);
        let ghost start = dur;
        let ghost first = state;
        while dur > DWELL_NANOS
            invariant
                dur <= start,
                dur == start || start > DWELL_NANOS,
                drained(dur) == drained(start),
                state == if dur == start {
                    first
                } else {
                    completed(first)
                },
            decreases dur,
        {
            state = match state {
                EquipState::Equipping => EquipState::Equipped,
                EquipState::Unequipping => EquipState::Unequipped,
                other => other,
            };
            dur = dur - DWELL_NANOS;
        }
        self.equip_state = state;
        self.equip_state_dur = dur;

        if self.equip_state != EquipState::Unequipped {
            return;
        }
        if has_valid_wanted {
            self.prev_equipped_slot = self.equipped_slot;
            self.equipped_slot = wanted;
            self.equip_state = EquipState::Equipping;
        } else {
            match self.find_replacement(store) {
                Some(s) => {
                    self.equipped_slot = Some(s);
                    self.equip_state = EquipState::Equipping;
                },
                None => {
                    self.equipped_slot = None;
                },
            }
        }
        self.equip_state_dur = 0;
    }
}

} // verus!
