use ralph_island::combat::{CombatStats, DamageResolution};
use ralph_island::crafting::{recipe_definition, CraftQueueState, QueuedCraft, RecipeKind};
use ralph_island::inventory::{InventoryOpError, InventoryState, ResourceKind, ResourceStack};
use ralph_island::placement::{placeable_build_cost, placeable_max_health, PlaceableKind};

#[test]
fn new_inventory_is_empty() {
    let inv = InventoryState::new(4);
    assert_eq!(inv.max_slots, 4);
    assert!(inv.stacks.is_empty());
    let default_inv = InventoryState::default();
    assert_eq!(default_inv.max_slots, 24);
    assert_eq!(default_inv.count(ResourceKind::Coal), 0);
}

#[test]
fn add_merges_into_existing_stack() {
    let mut inv = InventoryState::new(2);
    assert_eq!(inv.add_resource(ResourceKind::Coal, 3), Ok(()));
    assert_eq!(inv.add_resource(ResourceKind::Coal, 4), Ok(()));
    assert_eq!(inv.stacks, vec![ResourceStack::new(ResourceKind::Coal, 7)]);
    assert_eq!(inv.count(ResourceKind::Coal), 7);
}

#[test]
fn add_saturates_at_u32_max() {
    let mut inv = InventoryState::new(1);
    inv.add_resource(ResourceKind::Gear, u32::MAX - 1).unwrap();
    inv.add_resource(ResourceKind::Gear, 5).unwrap();
    assert_eq!(inv.count(ResourceKind::Gear), u32::MAX);
}

#[test]
fn add_zero_is_invalid_amount() {
    let mut inv = InventoryState::new(2);
    assert_eq!(inv.add_resource(ResourceKind::Coal, 0), Err(InventoryOpError::InvalidAmount));
    assert!(inv.stacks.is_empty());
}

#[test]
fn add_without_free_slot_is_refused() {
    let mut inv = InventoryState::new(1);
    inv.add_resource(ResourceKind::Coal, 1).unwrap();
    assert_eq!(inv.add_resource(ResourceKind::Stone, 1), Err(InventoryOpError::NoFreeSlot));
    assert_eq!(inv.stacks, vec![ResourceStack::new(ResourceKind::Coal, 1)]);
    // Merging into an existing stack needs no free slot.
    assert_eq!(inv.add_resource(ResourceKind::Coal, 1), Ok(()));
}

#[test]
fn remove_takes_amount_and_drops_empty_stacks() {
    let mut inv = InventoryState::new(3);
    inv.add_resource(ResourceKind::Coal, 5).unwrap();
    inv.add_resource(ResourceKind::Stone, 2).unwrap();
    assert_eq!(inv.remove_resource(ResourceKind::Coal, 2), Ok(()));
    assert_eq!(inv.count(ResourceKind::Coal), 3);
    assert_eq!(inv.remove_resource(ResourceKind::Coal, 3), Ok(()));
    assert_eq!(inv.stacks, vec![ResourceStack::new(ResourceKind::Stone, 2)]);
}

#[test]
fn remove_more_than_available_reports_shortfall() {
    let mut inv = InventoryState::new(3);
    inv.add_resource(ResourceKind::IronOre, 2).unwrap();
    assert_eq!(
        inv.remove_resource(ResourceKind::IronOre, 5),
        Err(InventoryOpError::InsufficientResource {
            resource: ResourceKind::IronOre,
            required: 5,
            available: 2,
        })
    );
    assert_eq!(inv.count(ResourceKind::IronOre), 2);
    assert_eq!(inv.remove_resource(ResourceKind::IronOre, 0), Err(InventoryOpError::InvalidAmount));
}

#[test]
fn remove_spans_split_stacks_in_order() {
    let mut inv = InventoryState {
        max_slots: 4,
        stacks: vec![
            ResourceStack::new(ResourceKind::Coal, 2),
            ResourceStack::new(ResourceKind::Stone, 1),
            ResourceStack::new(ResourceKind::Coal, 3),
        ],
    };
    assert_eq!(inv.count(ResourceKind::Coal), 5);
    inv.remove_resource(ResourceKind::Coal, 4).unwrap();
    assert_eq!(
        inv.stacks,
        vec![ResourceStack::new(ResourceKind::Stone, 1), ResourceStack::new(ResourceKind::Coal, 1)]
    );
}

#[test]
fn can_afford_checks_every_requirement() {
    let mut inv = InventoryState::new(4);
    inv.add_resource(ResourceKind::IronPlate, 3).unwrap();
    inv.add_resource(ResourceKind::Gear, 2).unwrap();
    assert!(inv.can_afford(&placeable_build_cost(PlaceableKind::BurnerDrill)));
    assert!(!inv.can_afford(&placeable_build_cost(PlaceableKind::AssemblerMk1)));
    assert!(inv.can_afford(&[]));
}

#[test]
fn consume_requirements_reports_first_missing() {
    let mut inv = InventoryState::new(4);
    inv.add_resource(ResourceKind::IronPlate, 9).unwrap();
    inv.add_resource(ResourceKind::Gear, 1).unwrap();
    let before = inv.clone();
    assert_eq!(
        inv.consume_requirements(&placeable_build_cost(PlaceableKind::AssemblerMk1)),
        Err(InventoryOpError::InsufficientResource {
            resource: ResourceKind::Gear,
            required: 5,
            available: 1,
        })
    );
    assert_eq!(inv, before);
}

#[test]
fn consume_requirements_takes_each_requirement() {
    let mut inv = InventoryState::new(4);
    inv.add_resource(ResourceKind::IronPlate, 10).unwrap();
    inv.add_resource(ResourceKind::Gear, 5).unwrap();
    inv.add_resource(ResourceKind::Coal, 1).unwrap();
    assert_eq!(inv.consume_requirements(&placeable_build_cost(PlaceableKind::AssemblerMk1)), Ok(()));
    assert_eq!(inv.count(ResourceKind::IronPlate), 1);
    assert_eq!(inv.count(ResourceKind::Gear), 0);
    assert_eq!(inv.count(ResourceKind::Coal), 1);
}

#[test]
fn consume_requirements_with_zero_amount_is_invalid() {
    let mut inv = InventoryState::new(4);
    inv.add_resource(ResourceKind::Coal, 1).unwrap();
    assert_eq!(
        inv.consume_requirements(&[ResourceStack::new(ResourceKind::Coal, 0)]),
        Err(InventoryOpError::InvalidAmount)
    );
}

#[test]
fn remove_undoes_add_on_totals() {
    let mut inv = InventoryState::new(4);
    inv.add_resource(ResourceKind::Stone, 6).unwrap();
    inv.add_resource(ResourceKind::Coal, 2).unwrap();
    inv.add_resource(ResourceKind::Stone, 9).unwrap();
    inv.remove_resource(ResourceKind::Stone, 9).unwrap();
    assert_eq!(inv.count(ResourceKind::Stone), 6);
    assert_eq!(inv.count(ResourceKind::Coal), 2);
}

#[test]
fn combat_new_is_at_full_health() {
    let stats = CombatStats::new(120, 14, 3);
    assert_eq!(stats, CombatStats { max_health: 120, health: 120, attack_power: 14, armor: 3 });
}

#[test]
fn damage_is_mitigated_by_armor_and_capped_by_health() {
    let mut stats = CombatStats::new(10, 1, 3);
    assert_eq!(
        stats.apply_damage(5),
        DamageResolution { applied: 2, remaining_health: 8, defeated: false }
    );
    assert_eq!(
        stats.apply_damage(2),
        DamageResolution { applied: 0, remaining_health: 8, defeated: false }
    );
    assert_eq!(
        stats.apply_damage(100),
        DamageResolution { applied: 8, remaining_health: 0, defeated: true }
    );
    assert_eq!(stats.health, 0);
    assert_eq!(stats.max_health, 10);
}

#[test]
fn recipes_match_their_table() {
    let iron = recipe_definition(RecipeKind::SmeltIronPlate);
    assert_eq!(iron.craft_ticks, 2);
    assert_eq!(iron.inputs, vec![ResourceStack::new(ResourceKind::IronOre, 1)]);
    assert_eq!(iron.outputs, vec![ResourceStack::new(ResourceKind::IronPlate, 1)]);
    let copper = recipe_definition(RecipeKind::SmeltCopperPlate);
    assert_eq!(copper.inputs, vec![ResourceStack::new(ResourceKind::CopperOre, 1)]);
    assert_eq!(copper.outputs, vec![ResourceStack::new(ResourceKind::CopperPlate, 1)]);
    let gear = recipe_definition(RecipeKind::CraftGear);
    assert_eq!(gear.craft_ticks, 3);
    assert_eq!(gear.inputs, vec![ResourceStack::new(ResourceKind::IronPlate, 2)]);
    assert_eq!(gear.outputs, vec![ResourceStack::new(ResourceKind::Gear, 1)]);
}

#[test]
fn placeables_cost_and_health() {
    assert_eq!(
        placeable_build_cost(PlaceableKind::BurnerDrill),
        vec![ResourceStack::new(ResourceKind::IronPlate, 3), ResourceStack::new(ResourceKind::Gear, 2)]
    );
    assert_eq!(
        placeable_build_cost(PlaceableKind::StoneFurnace),
        vec![ResourceStack::new(ResourceKind::Stone, 6)]
    );
    assert_eq!(
        placeable_build_cost(PlaceableKind::WoodenChest),
        vec![ResourceStack::new(ResourceKind::Stone, 2)]
    );
    assert_eq!(placeable_max_health(PlaceableKind::WoodenChest), 120);
    assert_eq!(placeable_max_health(PlaceableKind::StoneFurnace), 180);
    assert_eq!(placeable_max_health(PlaceableKind::BurnerDrill), 220);
    assert_eq!(placeable_max_health(PlaceableKind::AssemblerMk1), 320);
}

#[test]
fn craft_queue_takes_units_in_order() {
    let mut queue = CraftQueueState::default();
    assert_eq!(queue.peek_recipe(), None);
    assert_eq!(queue.consume_one_pending(), None);
    queue.pending = vec![
        QueuedCraft { recipe: RecipeKind::CraftGear, count: 0 },
        QueuedCraft { recipe: RecipeKind::SmeltIronPlate, count: 2 },
        QueuedCraft { recipe: RecipeKind::SmeltCopperPlate, count: 1 },
    ];
    assert_eq!(queue.peek_recipe(), Some(RecipeKind::CraftGear));
    assert_eq!(queue.consume_one_pending(), Some(RecipeKind::SmeltIronPlate));
    assert_eq!(queue.pending.len(), 2);
    assert_eq!(queue.pending[0].count, 1);
    assert_eq!(queue.consume_one_pending(), Some(RecipeKind::SmeltIronPlate));
    assert_eq!(queue.consume_one_pending(), Some(RecipeKind::SmeltCopperPlate));
    assert_eq!(queue.consume_one_pending(), None);
    assert!(queue.pending.is_empty());
}

#[test]
fn remove_restores_stacks_after_add() {
    let start = InventoryState {
        max_slots: 4,
        stacks: vec![
            ResourceStack::new(ResourceKind::IronOre, 2),
            ResourceStack::new(ResourceKind::Coal, 1),
            ResourceStack::new(ResourceKind::IronOre, 3),
        ],
    };
    let mut inv = start.clone();
    inv.add_resource(ResourceKind::IronOre, 7).unwrap();
    inv.remove_resource(ResourceKind::IronOre, 7).unwrap();
    assert_eq!(inv, start);
    inv.add_resource(ResourceKind::Gear, 4).unwrap();
    inv.remove_resource(ResourceKind::Gear, 4).unwrap();
    assert_eq!(inv, start);
}
