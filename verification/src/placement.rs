//! Placeable structures: kinds, build costs, health, and the placed entities.

use vstd::prelude::*;
use crate::inventory::{ResourceKind, ResourceStack};

verus! {

#[derive(Debug, Clone, Copy, PartialEq, Eq, Structural, Hash)]
pub enum PlaceableKind {
    BurnerDrill,
    StoneFurnace,
    WoodenChest,
    AssemblerMk1,
}

#[derive(Debug, Clone, PartialEq, Eq)]
pub struct PlaceableEntity {
    pub id: u64,
    pub owner_id: String,
    pub kind: PlaceableKind,
    pub tile_x: i32,
    pub tile_y: i32,
    pub max_health: u16,
    pub health: u16,
}

/// What a structure costs to build.
pub open spec fn build_cost(kind: PlaceableKind) -> Seq<ResourceStack> {
    match kind {
        PlaceableKind::BurnerDrill => seq![
            ResourceStack { resource: ResourceKind::IronPlate, amount: 3 },
            ResourceStack { resource: ResourceKind::Gear, amount: 2 },
        ],
        PlaceableKind::StoneFurnace => seq![ResourceStack { resource: ResourceKind::Stone, amount: 6 }],
        PlaceableKind::WoodenChest => seq![ResourceStack { resource: ResourceKind::Stone, amount: 2 }],
        PlaceableKind::AssemblerMk1 => seq![
            ResourceStack { resource: ResourceKind::IronPlate, amount: 9 },
            ResourceStack { resource: ResourceKind::Gear, amount: 5 },
        ],
    }
}

/// The health a freshly placed structure starts with.
pub open spec fn max_health_of(kind: PlaceableKind) -> u16 {
    match kind {
        PlaceableKind::WoodenChest => 120,
        PlaceableKind::StoneFurnace => 180,
        PlaceableKind::BurnerDrill => 220,
        PlaceableKind::AssemblerMk1 => 320,
    }
}

/// The resources a structure of `kind` costs.
pub fn placeable_build_cost(kind: PlaceableKind) -> (cost: Vec<ResourceStack>)
    ensures
        cost@ == build_cost(kind),
{
    let cost = match kind {
        PlaceableKind::BurnerDrill => vec![
            ResourceStack::new(ResourceKind::IronPlate, 3),
            ResourceStack::new(ResourceKind::Gear, 2),
        ],
        PlaceableKind::StoneFurnace => vec![ResourceStack::new(ResourceKind::Stone, 6)],
        PlaceableKind::WoodenChest => vec![ResourceStack::new(ResourceKind::Stone, 2)],
        PlaceableKind::AssemblerMk1 => vec![
            ResourceStack::new(ResourceKind::IronPlate, 9),
            ResourceStack::new(ResourceKind::Gear, 5),
        ],
    };
    assert(cost@ =~= build_cost(kind));
    cost
}

/// The health a structure of `kind` is placed with.
pub fn placeable_max_health(kind: PlaceableKind) -> (health: u16)
    ensures
        health == max_health_of(kind),
{
    match kind {
        PlaceableKind::WoodenChest => 120,
        PlaceableKind::StoneFurnace => 180,
        PlaceableKind::BurnerDrill => 220,
        PlaceableKind::AssemblerMk1 => 320,
    }
}

} // verus!

use std::collections::BTreeMap;

verus! {

pub open spec fn tile_taken(placeables: Map<u64, PlaceableEntity>, x: i32, y: i32) -> bool {
    exists|id: u64| placeables.contains_key(id) && placeables[id].tile_x == x && placeables[id].tile_y == y
}

pub fn tile_occupied(placeables: &BTreeMap<u64, PlaceableEntity>, x: i32, y: i32) -> (taken: bool)
    ensures
        taken == tile_taken(placeables@, x, y),
{
    broadcast use vstd::std_specs::btree::group_btree_axioms;
    broadcast use vstd::laws_cmp::group_laws_cmp;
    let values = placeables.values();
    let ghost items = vstd::std_specs::iter::IteratorSpec::remaining(&values);
    let ghost ks = choose|ks: Seq<u64>| ks.to_set() == placeables@.dom() && items == ks.map(|i: int, k: u64| &placeables@[k]);
    let ghost mut n: int = 0;
    let mut found = false;
    for p in iter: values
        invariant
            iter.seq() == items,
            n == iter.index(),
            found == exists|j: int| 0 <= j < n && (#[trigger] items[j]).tile_x == x && items[j].tile_y == y,
    {
        if p.tile_x == x && p.tile_y == y {
            found = true;
        }
        proof { n = n + 1; }
    }
    proof {
        assert(n == items.len());
        if found {
            let j = choose|j: int| 0 <= j < n && (#[trigger] items[j]).tile_x == x && items[j].tile_y == y;
            assert(ks.to_set().contains(ks[j]));
        }
        if tile_taken(placeables@, x, y) {
            let id = choose|id: u64| placeables@.contains_key(id) && placeables@[id].tile_x == x && placeables@[id].tile_y == y;
            assert(ks.to_set().contains(id));
            let j = choose|j: int| 0 <= j < ks.len() && ks[j] == id;
            assert(items[j].tile_x == x);
        }
    }
    found
}

/// Puts `entity` under its identifier, replacing what was there.
pub fn insert_placeable(placeables: &mut BTreeMap<u64, PlaceableEntity>, entity: PlaceableEntity)
    ensures
        final(placeables)@ == old(placeables)@.insert(entity.id, entity),
{
    broadcast use vstd::laws_cmp::group_laws_cmp;
    let id = entity.id;
    placeables.insert(id, entity);
}

} // verus!
