use ralph_island::combat::CombatStats;
use ralph_island::crafting::RecipeKind;
use ralph_island::inventory::ResourceKind;
use ralph_island::placement::PlaceableKind;
use ralph_island::simulation::{
    simulate_step, GameplayState, SimulationCommand, SimulationEvent, SimulationRejectReason,
    SimulationStepInput, GAMEPLAY_SCHEMA_VERSION,
};

fn craft_and_place_input(tick: u64) -> SimulationStepInput {
    SimulationStepInput {
        schema_version: GAMEPLAY_SCHEMA_VERSION,
        tick,
        commands: vec![
            SimulationCommand::GrantResource {
                actor_id: "player-a".to_string(),
                resource: ResourceKind::IronOre,
                amount: 4,
            },
            SimulationCommand::GrantResource {
                actor_id: "player-a".to_string(),
                resource: ResourceKind::Stone,
                amount: 8,
            },
            SimulationCommand::QueueCraft {
                actor_id: "player-a".to_string(),
                recipe: RecipeKind::SmeltIronPlate,
                count: 2,
            },
            SimulationCommand::QueueCraft {
                actor_id: "player-a".to_string(),
                recipe: RecipeKind::CraftGear,
                count: 1,
            },
        ],
    }
}

#[test]
fn deterministic_step_outputs_match() {
    let mut left = GameplayState::default();
    let mut right = GameplayState::default();

    let mut left_output = simulate_step(&mut left, craft_and_place_input(1));
    let mut right_output = simulate_step(&mut right, craft_and_place_input(1));

    assert_eq!(left_output, right_output);

    // Tick until queued crafting resolves.
    for tick in 2..=8 {
        left_output = simulate_step(
            &mut left,
            SimulationStepInput {
                tick,
                ..SimulationStepInput::default()
            },
        );
        right_output = simulate_step(
            &mut right,
            SimulationStepInput {
                tick,
                ..SimulationStepInput::default()
            },
        );
        assert_eq!(left_output, right_output);
    }

    assert_eq!(left, right);
}

#[test]
fn crafting_and_placement_flow_consumes_inventory() {
    let mut state = GameplayState::default();

    simulate_step(
        &mut state,
        SimulationStepInput {
            schema_version: GAMEPLAY_SCHEMA_VERSION,
            tick: 1,
            commands: vec![
                SimulationCommand::GrantResource {
                    actor_id: "builder".to_string(),
                    resource: ResourceKind::IronPlate,
                    amount: 3,
                },
                SimulationCommand::GrantResource {
                    actor_id: "builder".to_string(),
                    resource: ResourceKind::Gear,
                    amount: 2,
                },
                SimulationCommand::PlaceEntity {
                    actor_id: "builder".to_string(),
                    kind: PlaceableKind::BurnerDrill,
                    tile_x: 10,
                    tile_y: -4,
                },
            ],
        },
    );

    let inventory = state.inventories.get("builder").expect("inventory exists");
    assert_eq!(inventory.count(ResourceKind::IronPlate), 0);
    assert_eq!(inventory.count(ResourceKind::Gear), 0);
    assert_eq!(state.placeables.len(), 1);
}

#[test]
fn schema_version_is_explicit_and_rejected_when_mismatched() {
    let mut state = GameplayState::default();

    let mismatch = simulate_step(
        &mut state,
        SimulationStepInput {
            schema_version: GAMEPLAY_SCHEMA_VERSION + 1,
            tick: 1,
            commands: vec![],
        },
    );

    assert!(matches!(
        mismatch.events.first(),
        Some(SimulationEvent::Rejected {
            reason: SimulationRejectReason::SchemaVersionMismatch { .. },
            ..
        })
    ));

    assert_eq!(SimulationStepInput::default().schema_version, GAMEPLAY_SCHEMA_VERSION);
}

#[test]
fn damage_application_is_server_authoritative() {
    let mut state = GameplayState::default();

    simulate_step(
        &mut state,
        SimulationStepInput {
            schema_version: GAMEPLAY_SCHEMA_VERSION,
            tick: 1,
            commands: vec![SimulationCommand::RegisterCombatant {
                actor_id: "enemy-1".to_string(),
                stats: CombatStats::new(120, 14, 3),
            }],
        },
    );

    let output = simulate_step(
        &mut state,
        SimulationStepInput {
            schema_version: GAMEPLAY_SCHEMA_VERSION,
            tick: 2,
            commands: vec![SimulationCommand::DealDamage {
                target_id: "enemy-1".to_string(),
                amount: 20,
            }],
        },
    );

    assert!(matches!(
        output.events.last(),
        Some(SimulationEvent::DamageApplied {
            target_id,
            applied,
            remaining_health,
            defeated,
        }) if target_id == "enemy-1" && *applied == 17 && *remaining_health == 103 && !*defeated
    ));
}
