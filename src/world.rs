//! The world that the inventories live in: item records, pickups and
//! inventory holders, the pickup resolver, and the per-tick systems.
use vstd::prelude::*;
use crate::activity::activity_tick;
use crate::equip::{equip_tick, wanted_in_range};
use crate::wellformed::{
    lemma_equip_one_keeps_wf, lemma_item_steps_keep_wf, lemma_resolve_keeps_wf, lemma_spawn_keeps_wf,
    well_formed,
};
use crate::inventory::{
    empty_inventory,     insert_item_result, EntityId, Inventory, InventoryView, Item, ItemName, ItemPickup, ItemStore,
    SLOT_COUNT,
};

verus! {

/// Two entities whose colliders touched during a tick.
#[derive(Clone, Copy, Debug, PartialEq, Eq, Structural)]
pub struct Intersection {
    pub ent1: EntityId,
    pub ent2: EntityId,
}

/// Entities and their records. An entity id indexes both `pickups` and
/// `inventories`; an entity holds at most one of the two in a well-formed
/// world. Item records live in `store`, referenced from inventory slots.
pub struct World {
    pub store: ItemStore,
    pub pickups: Vec<Option<ItemPickup>>,
    pub inventories: Vec<Option<Inventory>>,
}

/// The mathematical model of a world.
pub struct WorldView {
    pub items: Seq<Option<Item>>,
    pub pickups: Seq<Option<ItemPickup>>,
    pub inventories: Seq<Option<InventoryView>>,
}

/// The model of an optional inventory.
pub open spec fn inventory_view(o: Option<Inventory>) -> Option<InventoryView> {
    match o {
        Some(inv) => Some(inv@),
        None => None,
    }
}

impl View for World {
    type V = WorldView;

    open spec fn view(&self) -> WorldView {
        WorldView {
            items: self.store.items@,
            pickups: self.pickups@,
            inventories: self.inventories@.map_values(|o: Option<Inventory>| inventory_view(o)),
        }
    }
}

/// Whether entity `e` is a pickup.
pub open spec fn is_pickup(w: WorldView, e: EntityId) -> bool {
    e < w.pickups.len() && w.pickups[e as int] is Some
}

/// Whether entity `e` holds an inventory.
pub open spec fn is_holder(w: WorldView, e: EntityId) -> bool {
    e < w.inventories.len() && w.inventories[e as int] is Some
}

/// The (pickup, holder) pair that an intersection names, in either order.
pub open spec fn pickup_pair(w: WorldView, ev: Intersection) -> Option<(EntityId, EntityId)> {
    if is_pickup(w, ev.ent1) && is_holder(w, ev.ent2) {
        Some((ev.ent1, ev.ent2))
    } else if is_pickup(w, ev.ent2) && is_holder(w, ev.ent1) {
        Some((ev.ent2, ev.ent1))
    } else {
        None
    }
}

/// The world after one intersection is resolved: a (pickup, holder) pair
/// puts the pickup's item into the holder's inventory and destroys the
/// pickup; any other intersection changes nothing.
pub open spec fn resolve_result(w: WorldView, ev: Intersection) -> WorldView {
    match pickup_pair(w, ev) {
        Some((p, h)) => {
            let r = insert_item_result(
                w.inventories[h as int]->Some_0,
                w.items,
                h,
                w.pickups[p as int]->Some_0.item_name,
            );
            WorldView {
                items: r.1,
                pickups: w.pickups.update(p as int, None),
                inventories: w.inventories.update(h as int, Some(r.0)),
            }
        },
        None => w,
    }
}

/// The world after a tick's intersections are resolved in order.
pub open spec fn resolve_all(w: WorldView, events: Seq<Intersection>) -> WorldView
    decreases events.len(),
{
    if events.len() == 0 {
        w
    } else {
        resolve_result(resolve_all(w, events.drop_last()), events.last())
    }
}

/// One holder's equip tick: entity `e` asks for slot `wanted`.
pub open spec fn equip_one(w: WorldView, e: EntityId, wanted: Option<u8>, delta: u64) -> WorldView {
    if is_holder(w, e) {
        WorldView {
            inventories: w.inventories.update(
                e as int,
                Some(equip_tick(w.inventories[e as int]->Some_0, w.items, wanted, delta)),
            ),
            ..w
        }
    } else {
        w
    }
}

/// The world after the equip ticks of `inputs`, in order.
pub open spec fn equip_all(w: WorldView, inputs: Seq<(EntityId, Option<u8>)>, delta: u64) -> WorldView
    decreases inputs.len(),
{
    if inputs.len() == 0 {
        w
    } else {
        let prev = equip_all(w, inputs.drop_last(), delta);
        equip_one(prev, inputs.last().0, inputs.last().1, delta)
    }
}

/// Whether `item` is the one in its holder's equipped slot.
pub open spec fn is_equipped(w: WorldView, item: Item) -> bool {
    is_holder(w, item.inv_ent) && w.inventories[item.inv_ent as int]->Some_0.equipped_slot == Some(
        item.inv_slot,
    )
}

/// A record after one activity tick: only an equipped item advances.
pub open spec fn item_step(w: WorldView, o: Option<Item>, delta: u64) -> Option<Item> {
    match o {
        Some(item) => if is_equipped(w, item) {
            Some(activity_tick(item, delta))
        } else {
            Some(item)
        },
        None => None,
    }
}

impl World {
    /// A world without entities.
    pub fn new() -> (r: World)
        ensures
            r@.items.len() == 0,
            r@.pickups.len() == 0,
            r@.inventories.len() == 0,
            well_formed(r@),
    {
        World { store: ItemStore::new(), pickups: Vec::new(), inventories: Vec::new() }
    }

    /// Resolves one intersection between two entities.
    pub fn resolve_intersection(&mut self, ev: Intersection)
        requires
            old(self)@.items.len() < usize::MAX,
        ensures
            final(self)@ == resolve_result(old(self)@, ev),
            final(self)@.items.len() <= old(self)@.items.len() + 1,
            well_formed(old(self)@) ==> well_formed(final(self)@),
    {
        proof {
            if well_formed(self@) {
                lemma_resolve_keeps_wf(self@, ev);
            }
        }
        let n = self.pickups.len();
        let m = self.inventories.len();
        let pickup1 = ev.ent1 < n && self.pickups[ev.ent1].is_some();
        let pickup2 = ev.ent2 < n && self.pickups[ev.ent2].is_some();
        let holder1 = ev.ent1 < m && self.inventories[ev.ent1].is_some();
        let holder2 = ev.ent2 < m && self.inventories[ev.ent2].is_some();
        let (pickup_ent, player_ent) = if pickup1 && holder2 {
            (ev.ent1, ev.ent2)
        } else if pickup2 && holder1 {
            (ev.ent2, ev.ent1)
        } else {
            return;
        };
        let mut pickup: Option<ItemPickup> = None;
        self.pickups.set_and_swap(pickup_ent, &mut pickup);
        let mut inv = self.inventories[player_ent].unwrap();
        let item_name = pickup.unwrap().item_name;
        inv.insert_item(player_ent, &mut self.store, &item_name);
        self.inventories.set(player_ent, Some(inv));
        proof {
            let expected = resolve_result(old(self)@, ev);
            assert(self@.pickups =~= expected.pickups);
            assert(self@.inventories =~= expected.inventories);
        }
    }

    /// Adds an entity that holds an empty inventory, and returns its id.
    pub fn spawn_inventory(&mut self) -> (e: EntityId)
        requires
            old(self)@.pickups.len() == old(self)@.inventories.len(),
            old(self)@.inventories.len() < usize::MAX,
        ensures
            e == old(self)@.inventories.len(),
            final(self)@.items == old(self)@.items,
            final(self)@.pickups == old(self)@.pickups.push(None),
            final(self)@.inventories == old(self)@.inventories.push(Some(empty_inventory())),
            well_formed(old(self)@) ==> well_formed(final(self)@),
    {
        let e = self.inventories.len();
        let inv = Inventory::default();
        self.pickups.push(None);
        self.inventories.push(Some(inv));
        proof {
            assert(self@.inventories =~= old(self)@.inventories.push(Some(empty_inventory())));
            if well_formed(old(self)@) {
                lemma_spawn_keeps_wf(old(self)@, None, true);
            }
        }
        e
    }

    /// Adds a pickup entity for an item called `item_name`, and returns its id.
    pub fn spawn_pickup(&mut self, item_name: ItemName) -> (e: EntityId)
        requires
            old(self)@.pickups.len() == old(self)@.inventories.len(),
            old(self)@.inventories.len() < usize::MAX,
        ensures
            e == old(self)@.pickups.len(),
            final(self)@.items == old(self)@.items,
            final(self)@.pickups == old(self)@.pickups.push(Some(ItemPickup { item_name })),
            final(self)@.inventories == old(self)@.inventories.push(None),
            well_formed(old(self)@) ==> well_formed(final(self)@),
    {
        let e = self.pickups.len();
        self.pickups.push(Some(ItemPickup { item_name }));
        self.inventories.push(None);
        proof {
            assert(self@.inventories =~= old(self)@.inventories.push(None));
            if well_formed(old(self)@) {
                lemma_spawn_keeps_wf(old(self)@, Some(ItemPickup { item_name }), false);
            }
        }
        e
    }
}

/// Resolves a tick's intersections, in order: each (pickup, holder) pair
/// moves the pickup's item into the holder's inventory and destroys the
/// pickup.
pub fn item_pickup_sys(world: &mut World, events: &Vec<Intersection>)
    requires
        old(world)@.items.len() + events@.len() < usize::MAX,
    ensures
        final(world)@ == resolve_all(old(world)@, events@),
        well_formed(old(world)@) ==> well_formed(final(world)@),
{
    let mut i: usize = 0;
    while i < events.len()
        invariant
            i <= events@.len(),
            world@ == resolve_all(old(world)@, events@.take(i as int)),
            world@.items.len() <= old(world)@.items.len() + i,
            old(world)@.items.len() + events@.len() < usize::MAX,
            well_formed(old(world)@) ==> well_formed(world@),
        decreases events@.len() - i,
    {
        let ghost before = events@.take(i as int);
        world.resolve_intersection(events[i]);
        proof {
            assert(events@.take(i as int + 1).drop_last() =~= before);
        }
        i = i + 1;
    }
    proof {
        assert(events@.take(i as int) =~= events@);
    }
}

/// Runs one equip tick of `delta` nanoseconds for each (holder, wanted
/// slot) pair of `inputs`, in order; entries naming no holder are skipped.
pub fn modify_equip_state_sys(world: &mut World, inputs: &Vec<(EntityId, Option<u8>)>, delta: u64)
    requires
        forall|i: int| 0 <= i < inputs@.len() ==> wanted_in_range(#[trigger] inputs@[i].1),
    ensures
        final(world)@ == equip_all(old(world)@, inputs@, delta),
        well_formed(old(world)@) ==> well_formed(final(world)@),
{
    let mut i: usize = 0;
    while i < inputs.len()
        invariant
            i <= inputs@.len(),
            world@ == equip_all(old(world)@, inputs@.take(i as int), delta),
            well_formed(old(world)@) ==> well_formed(world@),
            forall|k: int| 0 <= k < inputs@.len() ==> wanted_in_range(#[trigger] inputs@[k].1),
        decreases inputs@.len() - i,
    {
        let ghost before = world@;
        let (e, wanted) = inputs[i];
        assert(wanted_in_range(inputs@[i as int].1));
        if e < world.inventories.len() {
            if let Some(mut inv) = world.inventories[e] {
                inv.update_equip_state(&world.store, wanted, delta);
                world.inventories.set(e, Some(inv));
            }
        }
        proof {
            assert(inputs@.take(i as int + 1).drop_last() =~= inputs@.take(i as int));
            assert(world@.inventories =~= equip_one(before, e, wanted, delta).inventories);
            if well_formed(before) {
                lemma_equip_one_keeps_wf(before, e, wanted, delta);
            }
        }
        i = i + 1;
    }
    proof {
        assert(inputs@.take(i as int) =~= inputs@);
    }
}

/// Runs one activity tick of `delta` nanoseconds for every item that is
/// in its holder's equipped slot; every other item is left as it is.
pub fn modify_item_sys(world: &mut World, delta: u64)
    ensures
        final(world)@.pickups == old(world)@.pickups,
        final(world)@.inventories == old(world)@.inventories,
        final(world)@.items.len() == old(world)@.items.len(),
        forall|i: int| 0 <= i < old(world)@.items.len() ==>
            #[trigger] final(world)@.items[i] == item_step(old(world)@, old(world)@.items[i], delta),
        well_formed(old(world)@) ==> well_formed(final(world)@),
{
    let mut i: usize = 0;
    while i < world.store.items.len()
        invariant
            i <= world.store.items@.len(),
            world.store.items@.len() == old(world).store.items@.len(),
            world@.pickups == old(world)@.pickups,
            world@.inventories == old(world)@.inventories,
            forall|k: int| 0 <= k < i ==> #[trigger] world@.items[k] == item_step(old(world)@, old(world)@.items[k], delta),
            forall|k: int| i <= k < world@.items.len() ==> #[trigger] world@.items[k] == old(world)@.items[k],
        decreases old(world).store.items@.len() - i,
    {
        let ghost before = world@;
        let equipped = match &world.store.items[i] {
            Some(item) => {
                let e = item.inv_ent;
                proof {
                    if e < world.inventories.len() {
                        assert(world@.inventories[e as int] == inventory_view(world.inventories@[e as int]));
                    }
                }
                e < world.inventories.len() && match world.inventories[e] {
                    Some(inv) => match inv.equipped_slot {
                        Some(s) => s == item.inv_slot,
                        None => false,
                    },
                    None => false,
                }
            },
            None => false,
        };
        if equipped {
            let mut taken: Option<Item> = None;
            world.store.items.set_and_swap(i, &mut taken);
            let mut item = taken.unwrap();
            item.advance_state(delta);
            world.store.items.set(i, Some(item));
        }
        proof {
            assert(world@.items =~= before.items.update(i as int, item_step(old(world)@, old(world)@.items[i as int], delta)));
        }
        i = i + 1;
    }
    proof {
        if well_formed(old(world)@) {
            lemma_item_steps_keep_wf(old(world)@, world@, delta);
        }
    }
}

} // verus!
