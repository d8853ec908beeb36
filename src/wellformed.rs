//! The invariant of a world: every inventory's equipped and previously
//! equipped slots are occupied, and every item record and the slot that
//! holds it refer to each other.
use vstd::prelude::*;
use crate::equip::{after_request, after_time, equip_tick, wanted_in_range};
use crate::inventory::{
    empty_inventory, first_match, lemma_first_match_from, set_item_result, SlotFilter, EntityId, EquipState, InventoryView, Item, ItemId, ItemName, ItemPickup,
    SLOT_COUNT,
};
use crate::world::{equip_one, is_holder, item_step, pickup_pair, resolve_result, Intersection, WorldView};

verus! {

/// Whether slot reference `r`, held in slot `s` of entity `ent`'s inventory,
/// names a live record that names that slot back.
pub open spec fn refers_back(items: Seq<Option<Item>>, r: Option<ItemId>, ent: EntityId, s: int) -> bool {
    match r {
        Some(id) => {
            &&& id < items.len()
            &&& items[id as int] is Some
            &&& items[id as int]->Some_0.inv_ent == ent
            &&& items[id as int]->Some_0.inv_slot == s
        },
        None => true,
    }
}

/// The invariant of the inventory of entity `ent`.
pub open spec fn inventory_wf(inv: InventoryView, ent: EntityId, items: Seq<Option<Item>>) -> bool {
    &&& inv.slots.len() == SLOT_COUNT
    &&& inv.equipped_slot is Some ==> {
        &&& inv.equipped_slot->Some_0 < SLOT_COUNT
        &&& inv.slots[inv.equipped_slot->Some_0 as int] is Some
    }
    &&& inv.prev_equipped_slot is Some ==> {
        &&& inv.prev_equipped_slot->Some_0 < SLOT_COUNT
        &&& inv.slots[inv.prev_equipped_slot->Some_0 as int] is Some
    }
    &&& inv.equipped_slot is None ==> {
        &&& inv.equip_state == EquipState::Unequipped
        &&& forall|s: int| 0 <= s < SLOT_COUNT ==> (#[trigger] inv.slots[s]) is None
    }
    &&& forall|s: int| 0 <= s < SLOT_COUNT ==> refers_back(items, #[trigger] inv.slots[s], ent, s)
}

/// Whether the live record `id` sits in the slot of the inventory that it names.
pub open spec fn owned(w: WorldView, id: int) -> bool {
    let item = w.items[id]->Some_0;
    &&& is_holder(w, item.inv_ent)
    &&& item.inv_slot < SLOT_COUNT
    &&& w.inventories[item.inv_ent as int]->Some_0.slots[item.inv_slot as int] == Some(id as ItemId)
}

/// The invariant of a world.
pub open spec fn well_formed(w: WorldView) -> bool {
    &&& w.pickups.len() == w.inventories.len()
    &&& w.items.len() <= usize::MAX
    &&& w.inventories.len() <= usize::MAX
    &&& forall|e: int| 0 <= e < w.pickups.len() && (#[trigger] w.pickups[e]) is Some ==> w.inventories[e] is None
    &&& forall|e: int|
        0 <= e < w.inventories.len() && (#[trigger] w.inventories[e]) is Some ==> inventory_wf(
            w.inventories[e]->Some_0,
            e as EntityId,
            w.items,
        )
    &&& forall|id: int| 0 <= id < w.items.len() && (#[trigger] w.items[id]) is Some ==> owned(w, id)
}

/// Putting an item into a slot of a holder keeps a world well formed,
/// whatever becomes of the pickups.
pub proof fn lemma_set_item_keeps_wf(
    w: WorldView,
    pickups: Seq<Option<ItemPickup>>,
    h: EntityId,
    name: ItemName,
    slot: u8,
)
    requires
        well_formed(w),
        is_holder(w, h),
        slot < SLOT_COUNT,
        w.items.len() < usize::MAX,
        pickups.len() == w.pickups.len(),
        forall|e: int| 0 <= e < pickups.len() && (#[trigger] pickups[e]) is Some ==> w.pickups[e] is Some,
    ensures
        ({
            let r = set_item_result(w.inventories[h as int]->Some_0, w.items, h, name, slot);
            well_formed(WorldView { items: r.1, pickups, inventories: w.inventories.update(h as int, Some(r.0)) })
        }),
{
    let inv = w.inventories[h as int]->Some_0;
    let r = set_item_result(inv, w.items, h, name, slot);
    let w2 = WorldView { items: r.1, pickups, inventories: w.inventories.update(h as int, Some(r.0)) };
    let n = w.items.len();
    let old_ref = inv.slots[slot as int];
    assert forall|e: int| 0 <= e < w2.pickups.len() && (#[trigger] w2.pickups[e]) is Some implies w2.inventories[e] is None by {
        assert(w.pickups[e] is Some);
    }
    assert(inventory_wf(inv, h, w.items));
    assert(refers_back(w.items, old_ref, h, slot as int));
    assert forall|e: int| 0 <= e < w2.inventories.len() && (#[trigger] w2.inventories[e]) is Some implies inventory_wf(
        w2.inventories[e]->Some_0,
        e as EntityId,
        w2.items,
    ) by {
        let ie = w.inventories[e]->Some_0;
        assert(inventory_wf(ie, e as EntityId, w.items));
        let ie2 = w2.inventories[e]->Some_0;
        assert forall|s: int| 0 <= s < SLOT_COUNT implies refers_back(w2.items, #[trigger] ie2.slots[s], e as EntityId, s) by {
            if e == h && s == slot {
                assert(w2.items[n as int] == Some(crate::inventory::new_item(name, h, slot)));
            } else {
                assert(ie2.slots[s] == ie.slots[s]);
                assert(refers_back(w.items, ie.slots[s], e as EntityId, s));
                if ie.slots[s] is Some {
                    let id = ie.slots[s]->Some_0;
                    assert(old_ref != Some(id));
                    assert(w2.items[id as int] == w.items[id as int]);
                }
            }
        }
    }
    assert forall|id: int| 0 <= id < w2.items.len() && (#[trigger] w2.items[id]) is Some implies owned(w2, id) by {
        if id < n {
            assert(w.items[id] is Some);
            assert(owned(w, id));
            assert(old_ref != Some(id as ItemId));
        }
    }
}

/// An equip tick keeps an inventory's invariant: its slots stay as they are,
/// and every slot that it equips is occupied.
pub proof fn lemma_equip_tick_keeps_wf(
    inv: InventoryView,
    ent: EntityId,
    items: Seq<Option<Item>>,
    wanted: Option<u8>,
    delta: u64,
)
    requires
        inventory_wf(inv, ent, items),
        wanted_in_range(wanted),
    ensures
        equip_tick(inv, items, wanted, delta).slots == inv.slots,
        inventory_wf(equip_tick(inv, items, wanted, delta), ent, items),
{
    let t = after_time(after_request(inv, wanted), delta);
    if let Some(e) = t.equipped_slot {
        assert(refers_back(items, inv.slots[e as int], ent, e as int));
        assert(crate::inventory::slot_matches(t, items, SlotFilter::Occupied, e as int));
        lemma_first_match_from(t, items, SlotFilter::Occupied, 0);
    }
}

/// One holder's equip tick keeps a world well formed.
pub proof fn lemma_equip_one_keeps_wf(w: WorldView, e: EntityId, wanted: Option<u8>, delta: u64)
    requires
        well_formed(w),
        wanted_in_range(wanted),
    ensures
        well_formed(equip_one(w, e, wanted, delta)),
{
    if is_holder(w, e) {
        let inv = w.inventories[e as int]->Some_0;
        assert(inventory_wf(inv, e, w.items));
        lemma_equip_tick_keeps_wf(inv, e, w.items, wanted, delta);
        let w2 = equip_one(w, e, wanted, delta);
        assert forall|id: int| 0 <= id < w2.items.len() && (#[trigger] w2.items[id]) is Some implies owned(w2, id) by {
            assert(owned(w, id));
        }
    }
}

/// An activity tick of the items keeps a world well formed: no record
/// changes its holder or its slot.
pub proof fn lemma_item_steps_keep_wf(w: WorldView, w2: WorldView, delta: u64)
    requires
        well_formed(w),
        w2.pickups == w.pickups,
        w2.inventories == w.inventories,
        w2.items.len() == w.items.len(),
        forall|i: int| 0 <= i < w.items.len() ==> #[trigger] w2.items[i] == item_step(w, w.items[i], delta),
    ensures
        well_formed(w2),
{
    assert forall|e: int| 0 <= e < w2.inventories.len() && (#[trigger] w2.inventories[e]) is Some implies inventory_wf(
        w2.inventories[e]->Some_0,
        e as EntityId,
        w2.items,
    ) by {
        let inv = w.inventories[e]->Some_0;
        assert(inventory_wf(inv, e as EntityId, w.items));
        assert forall|s: int| 0 <= s < SLOT_COUNT implies refers_back(w2.items, #[trigger] inv.slots[s], e as EntityId, s) by {
            assert(refers_back(w.items, inv.slots[s], e as EntityId, s));
            if inv.slots[s] is Some {
                let id = inv.slots[s]->Some_0;
                assert(w2.items[id as int] == item_step(w, w.items[id as int], delta));
            }
        }
    }
    assert forall|id: int| 0 <= id < w2.items.len() && (#[trigger] w2.items[id]) is Some implies owned(w2, id) by {
        assert(w2.items[id] == item_step(w, w.items[id], delta));
        assert(owned(w, id));
    }
}

/// Resolving an intersection keeps a world well formed.
pub proof fn lemma_resolve_keeps_wf(w: WorldView, ev: Intersection)
    requires
        well_formed(w),
        w.items.len() < usize::MAX,
    ensures
        well_formed(resolve_result(w, ev)),
        resolve_result(w, ev).items.len() <= w.items.len() + 1,
{
    if let Some((p, h)) = pickup_pair(w, ev) {
        let inv = w.inventories[h as int]->Some_0;
        let name = w.pickups[p as int]->Some_0.item_name;
        let pickups = w.pickups.update(p as int, None);
        match first_match(inv, w.items, SlotFilter::Vacant) {
            Some(s) => {
                lemma_first_match_from(inv, w.items, SlotFilter::Vacant, 0);
                lemma_set_item_keeps_wf(w, pickups, h, name, s);
            },
            None => {
                let w2 = resolve_result(w, ev);
                assert(w2.inventories =~= w.inventories);
                assert forall|e: int| 0 <= e < w2.pickups.len() && (#[trigger] w2.pickups[e]) is Some implies w2.inventories[e] is None by {
                    assert(w.pickups[e] is Some);
                }
                assert forall|id: int| 0 <= id < w2.items.len() && (#[trigger] w2.items[id]) is Some implies owned(w2, id) by {
                    assert(owned(w, id));
                }
            },
        }
    }
}

/// Adding an entity, a pickup or a holder of an empty inventory, keeps a
/// world well formed.
pub proof fn lemma_spawn_keeps_wf(w: WorldView, pickup: Option<ItemPickup>, holds_inventory: bool)
    requires
        well_formed(w),
        w.inventories.len() < usize::MAX,
        holds_inventory ==> pickup is None,
    ensures
        well_formed(
            WorldView {
                items: w.items,
                pickups: w.pickups.push(pickup),
                inventories: w.inventories.push(
                    if holds_inventory {
                        Some(empty_inventory())
                    } else {
                        None
                    },
                ),
            },
        ),
{
    let w2 = WorldView {
        items: w.items,
        pickups: w.pickups.push(pickup),
        inventories: w.inventories.push(
            if holds_inventory {
                Some(empty_inventory())
            } else {
                None
            },
        ),
    };
    assert forall|e: int| 0 <= e < w2.inventories.len() && (#[trigger] w2.inventories[e]) is Some implies inventory_wf(
        w2.inventories[e]->Some_0,
        e as EntityId,
        w2.items,
    ) by {
        if e < w.inventories.len() {
            assert(w2.inventories[e] == w.inventories[e]);
        }
    }
    assert forall|e: int| 0 <= e < w2.pickups.len() && (#[trigger] w2.pickups[e]) is Some implies w2.inventories[e] is None by {
        if e < w.pickups.len() {
            assert(w.pickups[e] is Some);
        }
    }
    assert forall|id: int| 0 <= id < w2.items.len() && (#[trigger] w2.items[id]) is Some implies owned(w2, id) by {
        assert(owned(w, id));
    }
}

} // verus!
