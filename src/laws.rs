//! Properties that hold across operations and of every well-formed world.
use vstd::prelude::*;
use crate::dwell::DWELL_NANOS;
use crate::equip::{equip_tick, wanted_is_valid};
use crate::inventory::{
    lemma_first_match_from, replacement, resolve, slot_matches, EntityId, EquipState, InventoryView, Item, ItemId,
    SlotFilter, SLOT_COUNT,
};
use crate::wellformed::{inventory_wf, owned, well_formed};
use crate::world::{is_holder, is_pickup, pickup_pair, resolve_result, Intersection, WorldView};

verus! {

/// In a well-formed world, an inventory's equipped slot, when there is one,
/// is one of its slots and holds a live item.
pub proof fn lemma_equipped_slot_occupied(w: WorldView, e: EntityId)
    requires
        well_formed(w),
        is_holder(w, e),
    ensures
        ({
            let inv = w.inventories[e as int]->Some_0;
            inv.equipped_slot matches Some(s) ==> (s < SLOT_COUNT && resolve(w.items, inv.slots[s as int]) is Some)
        }),
{
    let inv = w.inventories[e as int]->Some_0;
    assert(inventory_wf(inv, e, w.items));
    if let Some(s) = inv.equipped_slot {
        assert(crate::wellformed::refers_back(w.items, inv.slots[s as int], e, s as int));
    }
}

/// In a well-formed world, every live item sits in the slot that it names,
/// of the inventory that it names, and no other slot of any inventory refers
/// to it.
pub proof fn lemma_items_point_back(w: WorldView, id: ItemId)
    requires
        well_formed(w),
        id < w.items.len(),
        w.items[id as int] is Some,
    ensures
        ({
            let item = w.items[id as int]->Some_0;
            &&& is_holder(w, item.inv_ent)
            &&& item.inv_slot < SLOT_COUNT
            &&& w.inventories[item.inv_ent as int]->Some_0.slots[item.inv_slot as int] == Some(id)
            &&& forall|e: EntityId, s: int|
                is_holder(w, e) && 0 <= s < SLOT_COUNT && #[trigger] w.inventories[e as int]->Some_0.slots[s] == Some(id)
                    ==> e == item.inv_ent && s == item.inv_slot
        }),
{
    assert(owned(w, id as int));
    let item = w.items[id as int]->Some_0;
    assert forall|e: EntityId, s: int|
        is_holder(w, e) && 0 <= s < SLOT_COUNT && #[trigger] w.inventories[e as int]->Some_0.slots[s] == Some(id)
            implies e == item.inv_ent && s == item.inv_slot by {
        let inv = w.inventories[e as int]->Some_0;
        assert(inventory_wf(inv, e, w.items));
        assert(crate::wellformed::refers_back(w.items, inv.slots[s], e, s));
    }
}

/// Resolving the same intersection a second time changes nothing: the first
/// resolution destroyed the pickup.
pub proof fn lemma_resolve_idempotent(w: WorldView, ev: Intersection)
    requires
        well_formed(w),
    ensures
        resolve_result(resolve_result(w, ev), ev) == resolve_result(w, ev),
        pickup_pair(w, ev) matches Some((p, h)) ==> !is_pickup(resolve_result(w, ev), p),
{
    let w2 = resolve_result(w, ev);
    if let Some((p, h)) = pickup_pair(w, ev) {
        assert(w.inventories[h as int] is Some);
        if w.pickups[h as int] is Some {
            assert(w.inventories[h as int] is None);
        }
        assert(!is_pickup(w2, p));
        assert(!is_pickup(w2, h));
        assert(pickup_pair(w2, ev) is None);
    }
}

/// A request for another populated slot while equipping forces the
/// inventory into `Unequipping` at once. The slot changes within the tick
/// only if the tick is long enough for the whole unequip dwell to pass.
pub proof fn lemma_request_interrupts_equipping(
    inv: InventoryView,
    store: Seq<Option<Item>>,
    wanted: Option<u8>,
    delta: u64,
)
    requires
        inv.equip_state == EquipState::Equipping,
        inv.equipped_slot is Some,
        wanted_is_valid(inv, wanted),
        wanted != inv.equipped_slot,
    ensures
        ({
            let next = equip_tick(inv, store, wanted, delta);
            &&& delta <= DWELL_NANOS ==> {
                &&& next.equip_state == EquipState::Unequipping
                &&& next.equipped_slot == inv.equipped_slot
                &&& next.equip_state_dur == delta
            }
            &&& next.equipped_slot != inv.equipped_slot ==> {
                &&& delta > DWELL_NANOS
                &&& next.equipped_slot == wanted
                &&& next.prev_equipped_slot == inv.equipped_slot
            }
        }),
{
}

/// With no previously equipped slot, the replacement is the lowest slot that
/// holds a live item: vacant slots before it are passed over.
pub proof fn lemma_replacement_is_lowest_occupied(inv: InventoryView, store: Seq<Option<Item>>)
    requires
        inv.slots.len() == SLOT_COUNT,
        inv.prev_equipped_slot is None,
    ensures
        replacement(inv, store) matches Some(s) ==> (s < SLOT_COUNT && resolve(store, inv.slots[s as int]) is Some
            && forall|j: int| 0 <= j < s ==> resolve(store, #[trigger] inv.slots[j]) is None),
        replacement(inv, store) is None ==> forall|j: int|
            0 <= j < SLOT_COUNT ==> resolve(store, #[trigger] inv.slots[j]) is None,
{
    lemma_first_match_from(inv, store, SlotFilter::Occupied, 0);
    let bound: int = match replacement(inv, store) {
        Some(s) => s as int,
        None => SLOT_COUNT as int,
    };
    assert forall|j: int| 0 <= j < bound implies resolve(store, #[trigger] inv.slots[j]) is None by {
        assert(!slot_matches(inv, store, SlotFilter::Occupied, j));
    }
}

} // verus!
