//! Item and inventory records, the item store, and the slot allocator.
use vstd::prelude::*;

verus! {

/// Number of slots in every inventory.
pub const SLOT_COUNT: usize = 10;

/// Identifies an entity of the world: an inventory holder or a pickup.
pub type EntityId = usize;

/// Identifies an item record in an `ItemStore`.
pub type ItemId = usize;

/// Identifies the kind of an item.
pub type ItemName = String;

/// Phase of the currently selected slot.
#[derive(Clone, Copy, Debug, PartialEq, Eq, Structural)]
pub enum EquipState {
    Unequipped,
    Equipping,
    Equipped,
    Unequipping,
}

/// Behavioural phase of an item, advanced only while it is equipped.
#[derive(Clone, Copy, Debug, PartialEq, Eq, Structural)]
pub enum ItemState {
    Idle,
    Reload,
    Fire,
}

/// An item held in an inventory slot.
#[derive(Debug)]
pub struct Item {
    pub name: ItemName,
    pub amount: u16,
    pub state: ItemState,
    /// Time spent in `state`, in nanoseconds.
    pub state_dur: u64,
    /// The entity whose inventory holds this item.
    pub inv_ent: EntityId,
    /// The slot of that inventory that holds this item.
    pub inv_slot: u8,
}

/// A world object that turns into an inventory item on contact.
#[derive(Debug)]
pub struct ItemPickup {
    pub item_name: ItemName,
}

/// Ammunition counters of a gun.
#[derive(Clone, Copy, Debug, PartialEq, Eq, Structural)]
pub struct Gun {
    pub ammo: u16,
    pub ammo_in_reserve: u16,
}

/// The slot array of an inventory: one optional item reference per slot.
#[derive(Clone, Copy, Debug)]
pub struct Items(pub [Option<ItemId>; 10]);

/// The equipment of one entity.
#[derive(Clone, Copy, Debug)]
pub struct Inventory {
    pub equipped_slot: Option<u8>,
    pub prev_equipped_slot: Option<u8>,
    pub equip_state: EquipState,
    /// Time spent in `equip_state`, in nanoseconds.
    pub equip_state_dur: u64,
    pub item_ents: Items,
}

/// The mathematical model of an inventory: its slots as a sequence.
pub struct InventoryView {
    pub equipped_slot: Option<u8>,
    pub prev_equipped_slot: Option<u8>,
    pub equip_state: EquipState,
    pub equip_state_dur: u64,
    pub slots: Seq<Option<ItemId>>,
}

impl View for Inventory {
    type V = InventoryView;

    open spec fn view(&self) -> InventoryView {
        InventoryView {
            equipped_slot: self.equipped_slot,
            prev_equipped_slot: self.prev_equipped_slot,
            equip_state: self.equip_state,
            equip_state_dur: self.equip_state_dur,
            slots: self.item_ents.0@,
        }
    }
}

/// The store of item records, addressed by `ItemId`. Ids are handed out in
/// order and never reused; a destroyed record leaves `None` behind.
pub struct ItemStore {
    pub items: Vec<Option<Item>>,
}

/// The record that a slot reference resolves to; a vacant slot, an unknown id
/// and a destroyed record all resolve to nothing.
pub open spec fn resolve(store: Seq<Option<Item>>, r: Option<ItemId>) -> Option<Item> {
    match r {
        Some(id) => if id < store.len() {
            store[id as int]
        } else {
            None
        },
        None => None,
    }
}

/// The store after the record that `r` references, if any, is destroyed.
pub open spec fn destroyed(store: Seq<Option<Item>>, r: Option<ItemId>) -> Seq<Option<Item>> {
    match r {
        Some(id) => if id < store.len() {
            store.update(id as int, None)
        } else {
            store
        },
        None => store,
    }
}

/// Which slots a scan looks for.
#[derive(Clone, Copy, Debug, PartialEq, Eq, Structural)]
pub enum SlotFilter {
    /// A slot whose reference resolves to a live item.
    Occupied,
    /// A slot whose reference resolves to nothing.
    Vacant,
}

/// Whether slot `s` of `inv` passes `filter`.
pub open spec fn slot_matches(
    inv: InventoryView,
    store: Seq<Option<Item>>,
    filter: SlotFilter,
    s: int,
) -> bool {
    match filter {
        SlotFilter::Occupied => resolve(store, inv.slots[s]) is Some,
        SlotFilter::Vacant => resolve(store, inv.slots[s]) is None,
    }
}

/// The lowest slot from `s` on that passes `filter`.
pub open spec fn first_match_from(
    inv: InventoryView,
    store: Seq<Option<Item>>,
    filter: SlotFilter,
    s: nat,
) -> Option<u8>
    decreases SLOT_COUNT - s,
{
    if s >= SLOT_COUNT {
        None
    } else if slot_matches(inv, store, filter, s as int) {
        Some(s as u8)
    } else {
        first_match_from(inv, store, filter, s + 1)
    }
}

/// The lowest slot that passes `filter`, scanning left to right.
pub open spec fn first_match(inv: InventoryView, store: Seq<Option<Item>>, filter: SlotFilter) -> Option<u8> {
    first_match_from(inv, store, filter, 0)
}

/// The slot to equip when nothing was asked for: the previously equipped slot
/// if there is one, else the first occupied slot.
pub open spec fn replacement(inv: InventoryView, store: Seq<Option<Item>>) -> Option<u8> {
    if inv.prev_equipped_slot is Some {
        inv.prev_equipped_slot
    } else {
        first_match(inv, store, SlotFilter::Occupied)
    }
}

/// The record that putting `name` into `slot` of `inv_ent`'s inventory creates.
pub open spec fn new_item(name: ItemName, inv_ent: EntityId, slot: u8) -> Item {
    Item { name, amount: 1, state: ItemState::Idle, state_dur: 0, inv_ent, inv_slot: slot }
}

/// Inventory and store after `name` is put into `slot`: the record that the
/// slot referenced is destroyed, a new record is created under the next id
/// and referenced from the slot, and an inventory with nothing equipped
/// starts equipping that slot.
pub open spec fn set_item_result(
    inv: InventoryView,
    store: Seq<Option<Item>>,
    inv_ent: EntityId,
    name: ItemName,
    slot: u8,
) -> (InventoryView, Seq<Option<Item>>) {
    let equipped = if inv.equipped_slot is None {
        InventoryView {
            equipped_slot: Some(slot),
            equip_state: EquipState::Equipping,
            equip_state_dur: 0,
            ..inv
        }
    } else {
        inv
    };
    (
        InventoryView { slots: inv.slots.update(slot as int, Some(store.len() as ItemId)), ..equipped },
        destroyed(store, inv.slots[slot as int]).push(Some(new_item(name, inv_ent, slot))),
    )
}

/// Inventory and store after `name` is put into the first vacant slot; with
/// no vacant slot, nothing changes and the item is lost.
pub open spec fn insert_item_result(
    inv: InventoryView,
    store: Seq<Option<Item>>,
    inv_ent: EntityId,
    name: ItemName,
) -> (InventoryView, Seq<Option<Item>>) {
    match first_match(inv, store, SlotFilter::Vacant) {
        Some(s) => set_item_result(inv, store, inv_ent, name, s),
        None => (inv, store),
    }
}

/// The scan finds a slot exactly when one passes, and finds the lowest.
pub proof fn lemma_first_match_from(
    inv: InventoryView,
    store: Seq<Option<Item>>,
    filter: SlotFilter,
    s: nat,
)
    requires
        inv.slots.len() == SLOT_COUNT,
    ensures
        match first_match_from(inv, store, filter, s) {
            Some(f) => s <= f < SLOT_COUNT && slot_matches(inv, store, filter, f as int)
                && forall|j: int| s <= j < f ==> !slot_matches(inv, store, filter, j),
            None => forall|j: int| s <= j < SLOT_COUNT ==> !slot_matches(inv, store, filter, j),
        },
    decreases SLOT_COUNT - s,
{
    if s < SLOT_COUNT {
        lemma_first_match_from(inv, store, filter, s + 1);
    }
}

impl ItemStore {
    /// An empty store.
    pub fn new() -> (r: ItemStore)
        ensures
            r.items@ == Seq::<Option<Item>>::empty(),
    {
        ItemStore { items: Vec::new() }
    }

    /// Whether `id` names a live record.
    pub fn contains(&self, id: ItemId) -> (r: bool)
        ensures
            r == (resolve(self.items@, Some(id)) is Some),
    {
        id < self.items.len() && self.items[id].is_some()
    }

    /// Adds `item` under a fresh id, which is returned.
    pub fn create(&mut self, item: Item) -> (id: ItemId)
        ensures
            id == old(self).items@.len(),
            final(self).items@ == old(self).items@.push(Some(item)),
    {
        let id = self.items.len();
        self.items.push(Some(item));
        id
    }

    /// Destroys the record named `id`, if there is one.
    pub fn destroy(&mut self, id: ItemId)
        ensures
            final(self).items@ == destroyed(old(self).items@, Some(id)),
    {
        if id < self.items.len() {
            self.items.set(id, None);
        }
    }
}

/// An inventory with every slot vacant and nothing equipped.
pub open spec fn empty_inventory() -> InventoryView {
    InventoryView {
        equipped_slot: None,
        prev_equipped_slot: None,
        equip_state: EquipState::Unequipped,
        equip_state_dur: 0,
        slots: Seq::new(SLOT_COUNT as nat, |s: int| None),
    }
}

impl Default for Inventory {
    fn default() -> (r: Inventory)
        ensures
            r@ == empty_inventory(),
    {
        let r = Inventory {
            equipped_slot: None,
            prev_equipped_slot: None,
            equip_state: EquipState::Unequipped,
            equip_state_dur: 0,
            item_ents: Items([None; 10]),
        };
        assert(r@.slots =~= empty_inventory().slots);
        r
    }
}

impl Inventory {
    /// The lowest slot, scanning left to right, that passes `filter`.
    pub fn find_slot(&self, store: &ItemStore, filter: SlotFilter) -> (r: Option<u8>)
        ensures
            r == first_match(self@, store.items@, filter),
            match r {
                Some(s) => s < SLOT_COUNT && slot_matches(self@, store.items@, filter, s as int)
                    && forall|j: int| 0 <= j < s ==> !slot_matches(self@, store.items@, filter, j),
                None => forall|j: int| 0 <= j < SLOT_COUNT ==> !slot_matches(self@, store.items@, filter, j),
            },
    {
        proof {
            lemma_first_match_from(self@, store.items@, filter, 0);
            assert(first_match(self@, store.items@, filter) == first_match_from(self@, store.items@, filter, 0));
        }
        let mut slot: usize = 0;
        while slot < SLOT_COUNT
            invariant
                slot <= SLOT_COUNT,
                first_match_from(self@, store.items@, filter, slot as nat) == first_match(self@, store.items@, filter),
            decreases SLOT_COUNT - slot,
        {
            let present = match self.item_ents.0[slot] {
                Some(id) => store.contains(id),
                None => false,
            };
            let hit = match filter {
                SlotFilter::Occupied => present,
                SlotFilter::Vacant => !present,
            };
            if hit {
                proof {
                    lemma_first_match_from(self@, store.items@, filter, 0);
                }
                return Some(slot as u8);
            }
            slot = slot + 1;
        }
        None
    }

    /// The slot to equip when no slot was asked for: the previously equipped
    /// slot, else the first occupied one.
    pub fn find_replacement(&self, store: &ItemStore) -> (r: Option<u8>)
        ensures
            r == replacement(self@, store.items@),
    {
        if self.prev_equipped_slot.is_none() {
            self.find_slot(store, SlotFilter::Occupied)
        } else {
            self.prev_equipped_slot
        }
    }
    /// Puts a new record for `item_name` into the first vacant slot, if any;
    /// with every slot occupied the item is dropped.
    pub fn insert_item(&mut self, inv_ent: EntityId, store: &mut ItemStore, item_name: &ItemName)
        requires
            old(store).items@.len() < usize::MAX,
        ensures
            (final(self)@, final(store).items@) == insert_item_result(old(self)@, old(store).items@, inv_ent, *item_name),
    {
        let open_slot = self.find_slot(store, SlotFilter::Vacant);
        if let Some(open_slot) = open_slot {
            self.set_item(inv_ent, store, item_name, open_slot);
        }
    }

    /// Puts a new record for `item_name` into `slot`, destroying the record
    /// that the slot held. An inventory with nothing equipped starts
    /// equipping the new item.
    pub fn set_item(&mut self, inv_ent: EntityId, store: &mut ItemStore, item_name: &ItemName, slot: u8)
        requires
            slot < SLOT_COUNT,
            old(store).items@.len() < usize::MAX,
        ensures
            (final(self)@, final(store).items@) == set_item_result(old(self)@, old(store).items@, inv_ent, *item_name, slot),
    {
        let existing_item_ent = self.item_ents.0[slot as usize];
        if let Some(existing_item_ent) = existing_item_ent {
            store.destroy(existing_item_ent);
        }
        let item_ent = store.create(Item {
            name: item_name.clone(),
            amount: 1,
            state: ItemState::Idle,
            state_dur: 0,
            inv_ent,
            inv_slot: slot,
        });
        if self.equipped_slot.is_none() {
            self.equipped_slot = Some(slot);
            self.equip_state_dur = 0;
            self.equip_state = EquipState::Equipping;
        }
        self.item_ents.0[slot as usize] = Some(item_ent);
        proof {
            let expected = set_item_result(old(self)@, old(store).items@, inv_ent, *item_name, slot);
            assert(self@.slots =~= expected.0.slots);
            assert(store.items@ =~= expected.1);
        }
    }
}

} // verus!
