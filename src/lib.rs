//! Per-entity equipment inventories: a fixed array of item slots, a timed
//! equip/unequip state machine, a per-item activity state machine, and the
//! resolution of world pickups into inventory slots.

pub mod dwell;
pub mod inventory;
pub mod equip;
pub mod activity;
pub mod world;
pub mod wellformed;
pub mod laws;
