use qgame::dwell::DWELL_NANOS;
use qgame::inventory::{EquipState, Inventory, Item, ItemState, ItemStore, SlotFilter};

const MS: u64 = 1_000_000;

fn name(s: &str) -> String {
    String::from(s)
}

#[test]
fn default_inventory_is_empty_and_unequipped() {
    let inv = Inventory::default();
    assert_eq!(inv.equipped_slot, None);
    assert_eq!(inv.prev_equipped_slot, None);
    assert_eq!(inv.equip_state, EquipState::Unequipped);
    assert_eq!(inv.equip_state_dur, 0);
    assert!(inv.item_ents.0.iter().all(|s| s.is_none()));
}

#[test]
fn first_item_is_auto_equipped() {
    let mut store = ItemStore::new();
    let mut inv = Inventory::default();
    inv.insert_item(7, &mut store, &name("rifle"));
    assert_eq!(inv.item_ents.0[0], Some(0));
    assert_eq!(inv.equipped_slot, Some(0));
    assert_eq!(inv.equip_state, EquipState::Equipping);
    assert_eq!(inv.equip_state_dur, 0);
    let item = store.items[0].as_ref().unwrap();
    assert_eq!(item.name, "rifle");
    assert_eq!(item.amount, 1);
    assert_eq!(item.state, ItemState::Idle);
    assert_eq!(item.inv_ent, 7);
    assert_eq!(item.inv_slot, 0);
}

#[test]
fn second_item_goes_to_next_vacant_slot_and_keeps_equipped() {
    let mut store = ItemStore::new();
    let mut inv = Inventory::default();
    inv.insert_item(0, &mut store, &name("rifle"));
    inv.equip_state = EquipState::Equipped;
    inv.insert_item(0, &mut store, &name("pistol"));
    assert_eq!(inv.item_ents.0[1], Some(1));
    assert_eq!(inv.equipped_slot, Some(0));
    assert_eq!(inv.equip_state, EquipState::Equipped);
}

#[test]
fn set_item_replaces_and_destroys_previous_record() {
    let mut store = ItemStore::new();
    let mut inv = Inventory::default();
    inv.set_item(0, &mut store, &name("rifle"), 3);
    assert_eq!(inv.item_ents.0[3], Some(0));
    inv.set_item(0, &mut store, &name("shotgun"), 3);
    assert_eq!(inv.item_ents.0[3], Some(1));
    assert!(store.items[0].is_none());
    assert!(!store.contains(0));
    assert_eq!(store.items[1].as_ref().unwrap().name, "shotgun");
    assert_eq!(store.items.len(), 2);
}

#[test]
fn full_inventory_drops_the_item() {
    let mut store = ItemStore::new();
    let mut inv = Inventory::default();
    for i in 0..10 {
        inv.insert_item(0, &mut store, &format!("item{}", i));
    }
    let before = inv.item_ents.0;
    inv.insert_item(0, &mut store, &name("extra"));
    assert_eq!(inv.item_ents.0, before);
    assert_eq!(store.items.len(), 10);
    assert_eq!(inv.find_slot(&store, SlotFilter::Vacant), None);
}

#[test]
fn stale_reference_counts_as_vacant() {
    let mut store = ItemStore::new();
    let mut inv = Inventory::default();
    inv.set_item(0, &mut store, &name("rifle"), 0);
    store.destroy(0);
    assert_eq!(inv.find_slot(&store, SlotFilter::Vacant), Some(0));
    assert_eq!(inv.find_slot(&store, SlotFilter::Occupied), None);
}

#[test]
fn find_slot_scans_left_to_right() {
    let mut store = ItemStore::new();
    let mut inv = Inventory::default();
    inv.set_item(0, &mut store, &name("a"), 4);
    inv.set_item(0, &mut store, &name("b"), 2);
    assert_eq!(inv.find_slot(&store, SlotFilter::Occupied), Some(2));
    assert_eq!(inv.find_slot(&store, SlotFilter::Vacant), Some(0));
}

#[test]
fn replacement_prefers_previous_slot() {
    let mut store = ItemStore::new();
    let mut inv = Inventory::default();
    inv.set_item(0, &mut store, &name("a"), 0);
    inv.set_item(0, &mut store, &name("b"), 5);
    inv.prev_equipped_slot = Some(5);
    assert_eq!(inv.find_replacement(&store), Some(5));
    inv.prev_equipped_slot = None;
    assert_eq!(inv.find_replacement(&store), Some(0));
}

#[test]
fn replacement_skips_vacant_and_stale_slots() {
    let mut store = ItemStore::new();
    let mut inv = Inventory::default();
    inv.set_item(0, &mut store, &name("a"), 0);
    inv.set_item(0, &mut store, &name("b"), 2);
    store.destroy(0);
    assert_eq!(inv.find_replacement(&store), Some(2));
}

fn holder_with(slots: &[usize], store: &mut ItemStore) -> Inventory {
    let mut inv = Inventory::default();
    for &s in slots {
        inv.set_item(0, store, &format!("item{}", s), s as u8);
    }
    inv
}

#[test]
fn dwell_catch_up_consumes_two_periods() {
    let mut store = ItemStore::new();
    let mut inv = holder_with(&[0], &mut store);
    assert_eq!(inv.equip_state, EquipState::Equipping);
    assert_eq!(inv.equip_state_dur, 0);
    inv.update_equip_state(&store, None, 5000 * MS);
    assert_eq!(inv.equip_state, EquipState::Equipped);
    assert_eq!(inv.equip_state_dur, 1000 * MS);
    assert_eq!(inv.equipped_slot, Some(0));
}

#[test]
fn equipping_holds_until_dwell_is_exceeded() {
    let mut store = ItemStore::new();
    let mut inv = holder_with(&[0], &mut store);
    inv.update_equip_state(&store, None, DWELL_NANOS);
    assert_eq!(inv.equip_state, EquipState::Equipping);
    assert_eq!(inv.equip_state_dur, DWELL_NANOS);
    inv.update_equip_state(&store, None, 1);
    assert_eq!(inv.equip_state, EquipState::Equipped);
    assert_eq!(inv.equip_state_dur, 1);
}

#[test]
fn elapsed_time_saturates() {
    let mut store = ItemStore::new();
    let mut inv = holder_with(&[0], &mut store);
    inv.equip_state = EquipState::Equipped;
    inv.equip_state_dur = u64::MAX - 5;
    inv.update_equip_state(&store, None, 100);
    assert_eq!(inv.equip_state, EquipState::Equipped);
    assert!(inv.equip_state_dur <= DWELL_NANOS);
    assert!(inv.equip_state_dur > 0);
}

#[test]
fn request_interrupts_equipping() {
    let mut store = ItemStore::new();
    let mut inv = holder_with(&[1, 2], &mut store);
    assert_eq!(inv.equipped_slot, Some(1));
    inv.update_equip_state(&store, None, 500 * MS);
    assert_eq!(inv.equip_state, EquipState::Equipping);
    inv.update_equip_state(&store, Some(2), 16 * MS);
    assert_eq!(inv.equip_state, EquipState::Unequipping);
    assert_eq!(inv.equip_state_dur, 16 * MS);
    assert_eq!(inv.equipped_slot, Some(1));
    inv.update_equip_state(&store, Some(2), 2000 * MS);
    assert_eq!(inv.equip_state, EquipState::Equipping);
    assert_eq!(inv.equip_state_dur, 0);
    assert_eq!(inv.equipped_slot, Some(2));
    assert_eq!(inv.prev_equipped_slot, Some(1));
}

#[test]
fn request_for_vacant_slot_is_ignored() {
    let mut store = ItemStore::new();
    let mut inv = holder_with(&[1], &mut store);
    inv.update_equip_state(&store, Some(4), 10 * MS);
    assert_eq!(inv.equip_state, EquipState::Equipping);
    assert_eq!(inv.equip_state_dur, 10 * MS);
}

#[test]
fn unequipping_without_request_takes_lowest_occupied_slot() {
    let mut store = ItemStore::new();
    let mut inv = holder_with(&[0, 2], &mut store);
    inv.equip_state = EquipState::Unequipping;
    inv.equip_state_dur = 0;
    inv.update_equip_state(&store, None, 2500 * MS);
    assert_eq!(inv.equip_state, EquipState::Equipping);
    assert_eq!(inv.equipped_slot, Some(0));
    assert_eq!(inv.equip_state_dur, 0);
}

#[test]
fn unequipping_without_request_returns_to_previous_slot() {
    let mut store = ItemStore::new();
    let mut inv = holder_with(&[0, 2], &mut store);
    inv.equipped_slot = Some(0);
    inv.prev_equipped_slot = Some(2);
    inv.equip_state = EquipState::Unequipping;
    inv.update_equip_state(&store, None, 2500 * MS);
    assert_eq!(inv.equipped_slot, Some(2));
    assert_eq!(inv.equip_state, EquipState::Equipping);
}

#[test]
fn nothing_equipped_does_not_advance() {
    let store = ItemStore::new();
    let mut inv = Inventory::default();
    inv.update_equip_state(&store, None, 5000 * MS);
    assert_eq!(inv.equip_state, EquipState::Unequipped);
    assert_eq!(inv.equip_state_dur, 0);
}

#[test]
fn activity_returns_to_idle() {
    let mut item = Item {
        name: name("rifle"),
        amount: 1,
        state: ItemState::Fire,
        state_dur: 0,
        inv_ent: 0,
        inv_slot: 0,
    };
    item.advance_state(1500 * MS);
    assert_eq!(item.state, ItemState::Fire);
    assert_eq!(item.state_dur, 1500 * MS);
    item.advance_state(4600 * MS);
    assert_eq!(item.state, ItemState::Idle);
    assert_eq!(item.state_dur, 100 * MS);
    item.state = ItemState::Reload;
    item.state_dur = 0;
    item.advance_state(2001 * MS);
    assert_eq!(item.state, ItemState::Idle);
    assert_eq!(item.state_dur, MS);
}
