use qgame::inventory::{EquipState, ItemState};
use qgame::world::{item_pickup_sys, modify_equip_state_sys, modify_item_sys, Intersection, World};

const MS: u64 = 1_000_000;

fn touch(a: usize, b: usize) -> Intersection {
    Intersection { ent1: a, ent2: b }
}

fn inventory(w: &World, e: usize) -> qgame::inventory::Inventory {
    w.inventories[e].unwrap()
}

#[test]
fn pickup_into_empty_inventory() {
    let mut w = World::new();
    let player = w.spawn_inventory();
    let pickup = w.spawn_pickup(String::from("rifle"));
    item_pickup_sys(&mut w, &vec![touch(pickup, player)]);
    let inv = inventory(&w, player);
    let id = inv.item_ents.0[0].unwrap();
    assert_eq!(w.store.items[id].as_ref().unwrap().name, "rifle");
    assert_eq!(inv.equipped_slot, Some(0));
    assert_eq!(inv.equip_state, EquipState::Equipping);
    assert_eq!(inv.equip_state_dur, 0);
    assert!(w.pickups[pickup].is_none());
}

#[test]
fn pickup_order_in_event_does_not_matter() {
    let mut w = World::new();
    let player = w.spawn_inventory();
    let pickup = w.spawn_pickup(String::from("rifle"));
    w.resolve_intersection(touch(player, pickup));
    assert!(inventory(&w, player).item_ents.0[0].is_some());
    assert!(w.pickups[pickup].is_none());
}

#[test]
fn pickup_into_full_inventory_is_lost() {
    let mut w = World::new();
    let player = w.spawn_inventory();
    for i in 0..10 {
        let p = w.spawn_pickup(format!("item{}", i));
        w.resolve_intersection(touch(p, player));
    }
    let before = inventory(&w, player).item_ents.0;
    assert!(before.iter().all(|s| s.is_some()));
    let extra = w.spawn_pickup(String::from("extra"));
    item_pickup_sys(&mut w, &vec![touch(extra, player)]);
    assert!(w.pickups[extra].is_none());
    assert_eq!(inventory(&w, player).item_ents.0, before);
    assert_eq!(w.store.items.len(), 10);
}

#[test]
fn resolving_twice_inserts_once() {
    let mut w = World::new();
    let player = w.spawn_inventory();
    let pickup = w.spawn_pickup(String::from("rifle"));
    let ev = touch(pickup, player);
    item_pickup_sys(&mut w, &vec![ev, ev]);
    let inv = inventory(&w, player);
    assert!(inv.item_ents.0[0].is_some());
    assert!(inv.item_ents.0[1].is_none());
    assert_eq!(w.store.items.len(), 1);
}

#[test]
fn two_pickups_or_two_holders_do_nothing() {
    let mut w = World::new();
    let a = w.spawn_inventory();
    let b = w.spawn_inventory();
    let p = w.spawn_pickup(String::from("rifle"));
    let q = w.spawn_pickup(String::from("pistol"));
    item_pickup_sys(&mut w, &vec![touch(a, b), touch(p, q), touch(p, 99)]);
    assert!(w.pickups[p].is_some());
    assert!(w.pickups[q].is_some());
    assert!(inventory(&w, a).item_ents.0.iter().all(|s| s.is_none()));
    assert!(inventory(&w, b).item_ents.0.iter().all(|s| s.is_none()));
    assert_eq!(w.store.items.len(), 0);
}

#[test]
fn two_pickups_for_the_last_slot_first_wins() {
    let mut w = World::new();
    let player = w.spawn_inventory();
    for i in 0..9 {
        let p = w.spawn_pickup(format!("item{}", i));
        w.resolve_intersection(touch(p, player));
    }
    let first = w.spawn_pickup(String::from("first"));
    let second = w.spawn_pickup(String::from("second"));
    item_pickup_sys(&mut w, &vec![touch(first, player), touch(player, second)]);
    let id = inventory(&w, player).item_ents.0[9].unwrap();
    assert_eq!(w.store.items[id].as_ref().unwrap().name, "first");
    assert!(w.pickups[first].is_none());
    assert!(w.pickups[second].is_none());
}

#[test]
fn equip_system_updates_named_holders() {
    let mut w = World::new();
    let player = w.spawn_inventory();
    let other = w.spawn_inventory();
    let p = w.spawn_pickup(String::from("rifle"));
    w.resolve_intersection(touch(p, player));
    modify_equip_state_sys(&mut w, &vec![(player, None), (42, Some(3))], 2500 * MS);
    let inv = inventory(&w, player);
    assert_eq!(inv.equip_state, EquipState::Equipped);
    assert_eq!(inv.equip_state_dur, 500 * MS);
    assert_eq!(inventory(&w, other).equip_state, EquipState::Unequipped);
}

#[test]
fn only_equipped_items_advance() {
    let mut w = World::new();
    let player = w.spawn_inventory();
    for name in ["rifle", "pistol"] {
        let p = w.spawn_pickup(String::from(name));
        w.resolve_intersection(touch(p, player));
    }
    let inv = inventory(&w, player);
    let equipped = inv.item_ents.0[0].unwrap();
    let stowed = inv.item_ents.0[1].unwrap();
    w.store.items[equipped].as_mut().unwrap().state = ItemState::Fire;
    w.store.items[stowed].as_mut().unwrap().state = ItemState::Reload;
    modify_item_sys(&mut w, 2500 * MS);
    let e = w.store.items[equipped].as_ref().unwrap();
    assert_eq!(e.state, ItemState::Idle);
    assert_eq!(e.state_dur, 500 * MS);
    let s = w.store.items[stowed].as_ref().unwrap();
    assert_eq!(s.state, ItemState::Reload);
    assert_eq!(s.state_dur, 0);
}

#[test]
fn a_tick_in_order_equips_a_fresh_pickup() {
    let mut w = World::new();
    let player = w.spawn_inventory();
    let p = w.spawn_pickup(String::from("rifle"));
    item_pickup_sys(&mut w, &vec![touch(player, p)]);
    modify_equip_state_sys(&mut w, &vec![(player, None)], 16 * MS);
    modify_item_sys(&mut w, 16 * MS);
    let inv = inventory(&w, player);
    assert_eq!(inv.equip_state, EquipState::Equipping);
    assert_eq!(inv.equip_state_dur, 16 * MS);
    let id = inv.item_ents.0[0].unwrap();
    assert_eq!(w.store.items[id].as_ref().unwrap().state_dur, 16 * MS);
}
