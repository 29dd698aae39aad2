use ralph_island::combat::CombatStats;
use ralph_island::crafting::RecipeKind;
use ralph_island::inventory::ResourceKind;
use ralph_island::placement::PlaceableKind;
use ralph_island::simulation::{
    simulate_step, GameplayState, SimulationCommand, SimulationEvent, SimulationRejectReason,
    SimulationStepInput, GAMEPLAY_SCHEMA_VERSION,
};

fn step(tick: u64, commands: Vec<SimulationCommand>) -> SimulationStepInput {
    SimulationStepInput { schema_version: GAMEPLAY_SCHEMA_VERSION, tick, commands }
}

fn grant(actor: &str, resource: ResourceKind, amount: u32) -> SimulationCommand {
    SimulationCommand::GrantResource { actor_id: actor.to_string(), resource, amount }
}

fn place(actor: &str, kind: PlaceableKind, tile_x: i32, tile_y: i32) -> SimulationCommand {
    SimulationCommand::PlaceEntity { actor_id: actor.to_string(), kind, tile_x, tile_y }
}

#[test]
fn refused_tick_leaves_state_unchanged() {
    let mut state = GameplayState::default();
    simulate_step(&mut state, step(3, vec![grant("a", ResourceKind::Coal, 1)]));
    let before = state.clone();
    let output = simulate_step(&mut state, step(3, vec![grant("a", ResourceKind::Coal, 1)]));
    assert_eq!(state, before);
    assert_eq!(output.tick, 3);
    assert_eq!(
        output.events,
        vec![SimulationEvent::Rejected {
            command_index: None,
            reason: SimulationRejectReason::TickNotAdvancing { last_tick: 3, received_tick: 3 },
        }]
    );
}

#[test]
fn state_of_other_schema_is_refused() {
    let mut state = GameplayState::default();
    state.schema_version = 7;
    let before = state.clone();
    let output = simulate_step(&mut state, step(1, vec![]));
    assert_eq!(state, before);
    assert_eq!(output.schema_version, GAMEPLAY_SCHEMA_VERSION);
    assert_eq!(
        output.events,
        vec![SimulationEvent::Rejected {
            command_index: None,
            reason: SimulationRejectReason::SchemaVersionMismatch { expected: 1, received: 7 },
        }]
    );
}

#[test]
fn accepted_step_takes_input_tick() {
    let mut state = GameplayState::default();
    let output = simulate_step(&mut state, step(42, vec![]));
    assert_eq!(state.tick, 42);
    assert_eq!(output.tick, 42);
    assert!(output.events.is_empty());
}

#[test]
fn each_command_is_answered_once() {
    let mut state = GameplayState::default();
    let output = simulate_step(
        &mut state,
        step(
            1,
            vec![
                grant("a", ResourceKind::Coal, 0),
                SimulationCommand::DealDamage { target_id: "ghost".to_string(), amount: 5 },
                SimulationCommand::QueueCraft {
                    actor_id: "a".to_string(),
                    recipe: RecipeKind::CraftGear,
                    count: 0,
                },
                grant("a", ResourceKind::Coal, 2),
            ],
        ),
    );
    assert_eq!(
        output.events,
        vec![
            SimulationEvent::Rejected {
                command_index: Some(0),
                reason: SimulationRejectReason::InvalidAmount,
            },
            SimulationEvent::Rejected {
                command_index: Some(1),
                reason: SimulationRejectReason::UnknownCombatant { target_id: "ghost".to_string() },
            },
            SimulationEvent::Rejected {
                command_index: Some(2),
                reason: SimulationRejectReason::InvalidAmount,
            },
            SimulationEvent::ResourceGranted {
                actor_id: "a".to_string(),
                resource: ResourceKind::Coal,
                amount: 2,
            },
        ]
    );
}

#[test]
fn occupied_tile_is_refused() {
    let mut state = GameplayState::default();
    let output = simulate_step(
        &mut state,
        step(
            1,
            vec![
                grant("a", ResourceKind::Stone, 4),
                place("a", PlaceableKind::WoodenChest, 2, 3),
                place("a", PlaceableKind::WoodenChest, 2, 3),
                place("a", PlaceableKind::WoodenChest, 2, 4),
            ],
        ),
    );
    assert_eq!(
        output.events[2],
        SimulationEvent::Rejected {
            command_index: Some(2),
            reason: SimulationRejectReason::OccupiedTile { tile_x: 2, tile_y: 3 },
        }
    );
    assert_eq!(
        output.events[3],
        SimulationEvent::PlaceablePlaced {
            placeable_id: 2,
            owner_id: "a".to_string(),
            kind: PlaceableKind::WoodenChest,
            tile_x: 2,
            tile_y: 4,
        }
    );
    assert_eq!(state.placeables.len(), 2);
    assert_eq!(state.next_placeable_id, 3);
    for (id, entity) in state.placeables.iter() {
        assert_eq!(*id, entity.id);
        assert_eq!(entity.health, 120);
    }
}

#[test]
fn placement_without_resources_reports_shortfall() {
    let mut state = GameplayState::default();
    let output = simulate_step(&mut state, step(1, vec![place("b", PlaceableKind::StoneFurnace, 0, 0)]));
    assert_eq!(
        output.events,
        vec![SimulationEvent::Rejected {
            command_index: Some(0),
            reason: SimulationRejectReason::InsufficientResource {
                actor_id: "b".to_string(),
                resource: ResourceKind::Stone,
                required: 6,
                available: 0,
            },
        }]
    );
    assert!(state.placeables.is_empty());
    // The actor's inventory now exists, empty.
    assert_eq!(state.inventories.get("b").unwrap().count(ResourceKind::Stone), 0);
}

#[test]
fn every_resource_kind_fits_a_new_inventory() {
    let mut state = GameplayState::default();
    let mut commands = Vec::new();
    let kinds = [
        ResourceKind::IronOre,
        ResourceKind::CopperOre,
        ResourceKind::Coal,
        ResourceKind::Stone,
        ResourceKind::IronPlate,
        ResourceKind::CopperPlate,
        ResourceKind::Gear,
    ];
    for kind in kinds {
        commands.push(grant("c", kind, 1));
    }
    let output = simulate_step(&mut state, step(1, commands));
    assert_eq!(output.events.len(), 7);
    assert!(output
        .events
        .iter()
        .all(|event| matches!(event, SimulationEvent::ResourceGranted { .. })));
}

#[test]
fn crafting_runs_over_ticks() {
    let mut state = GameplayState::default();
    let first = simulate_step(
        &mut state,
        step(
            1,
            vec![
                grant("a", ResourceKind::IronOre, 1),
                SimulationCommand::QueueCraft {
                    actor_id: "a".to_string(),
                    recipe: RecipeKind::SmeltIronPlate,
                    count: 1,
                },
            ],
        ),
    );
    assert_eq!(
        first.events[2],
        SimulationEvent::CraftStarted {
            actor_id: "a".to_string(),
            recipe: RecipeKind::SmeltIronPlate,
            remaining_ticks: 2,
        }
    );
    assert_eq!(first.events.len(), 3);
    let second = simulate_step(&mut state, step(2, vec![]));
    assert_eq!(
        second.events,
        vec![SimulationEvent::CraftCompleted {
            actor_id: "a".to_string(),
            recipe: RecipeKind::SmeltIronPlate,
        }]
    );
    let inventory = state.inventories.get("a").unwrap();
    assert_eq!(inventory.count(ResourceKind::IronOre), 0);
    assert_eq!(inventory.count(ResourceKind::IronPlate), 1);
}

#[test]
fn craft_waits_for_inputs() {
    let mut state = GameplayState::default();
    let output = simulate_step(
        &mut state,
        step(
            1,
            vec![SimulationCommand::QueueCraft {
                actor_id: "a".to_string(),
                recipe: RecipeKind::CraftGear,
                count: 1,
            }],
        ),
    );
    assert_eq!(output.events.len(), 1);
    let queue = state.craft_queues.get("a").unwrap();
    assert_eq!(queue.pending.len(), 1);
    assert!(queue.active.is_none());
}

#[test]
fn registering_again_replaces_stats() {
    let mut state = GameplayState::default();
    simulate_step(
        &mut state,
        step(
            1,
            vec![
                SimulationCommand::RegisterCombatant {
                    actor_id: "e".to_string(),
                    stats: CombatStats::new(50, 1, 0),
                },
                SimulationCommand::DealDamage { target_id: "e".to_string(), amount: 10 },
                SimulationCommand::RegisterCombatant {
                    actor_id: "e".to_string(),
                    stats: CombatStats::new(80, 1, 0),
                },
            ],
        ),
    );
    assert_eq!(state.combatants.get("e"), Some(&CombatStats::new(80, 1, 0)));
}
