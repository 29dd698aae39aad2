use ralph_island::server::{
    catch_up_plan, command_sequence, decide_build_place, decide_projectile_fire, BuildPlaceDecision,
    ProjectileFireDecision, SequenceAction,
};
use ralph_island::movement::InputState;
use ralph_island::protocol::{
    apply_input_batch, character_profile_update, character_select, combat_attack_outcome,
    crafting_cancel_outcome, crafting_queue_outcome, envelope_is_valid, interval_elapsed,
    inventory_move_outcome, inventory_split_outcome, mining_cancel_outcome, mining_start_outcome,
    resume_token_reusable, route_command, CharacterProfileUpdate, CommandRejection, CommandRoute,
    InputBatchOutcome, InputCommand, ProtocolFeature,
};

const STILL: InputState = InputState { up: false, down: false, left: false, right: false };

fn input(seq: u32, up: bool) -> InputCommand {
    InputCommand { seq, up, down: false, left: false, right: false }
}

#[test]
fn routes_known_actions() {
    assert_eq!(route_command(ProtocolFeature::Core, "ping"), Ok(CommandRoute::Ping));
    assert_eq!(route_command(ProtocolFeature::Movement, "input_batch"), Ok(CommandRoute::InputBatch));
    assert_eq!(route_command(ProtocolFeature::Build, "place"), Ok(CommandRoute::BuildPlace));
    assert_eq!(route_command(ProtocolFeature::Build, "preview"), Ok(CommandRoute::BuildPreview));
    assert_eq!(route_command(ProtocolFeature::Build, "remove"), Ok(CommandRoute::BuildRemove));
    assert_eq!(route_command(ProtocolFeature::Projectile, "fire"), Ok(CommandRoute::ProjectileFire));
    assert_eq!(route_command(ProtocolFeature::Inventory, "move"), Ok(CommandRoute::InventoryMove));
    assert_eq!(route_command(ProtocolFeature::Inventory, "split"), Ok(CommandRoute::InventorySplit));
    assert_eq!(route_command(ProtocolFeature::Mining, "start"), Ok(CommandRoute::MiningStart));
    assert_eq!(route_command(ProtocolFeature::Mining, "cancel"), Ok(CommandRoute::MiningCancel));
    assert_eq!(route_command(ProtocolFeature::Crafting, "queue"), Ok(CommandRoute::CraftingQueue));
    assert_eq!(route_command(ProtocolFeature::Crafting, "cancel"), Ok(CommandRoute::CraftingCancel));
    assert_eq!(route_command(ProtocolFeature::Combat, "attack"), Ok(CommandRoute::CombatAttack));
    assert_eq!(
        route_command(ProtocolFeature::Character, "set_profile"),
        Ok(CommandRoute::CharacterSetProfile)
    );
    assert_eq!(
        route_command(ProtocolFeature::Character, "set_active"),
        Ok(CommandRoute::CharacterSetActive)
    );
}

#[test]
fn refuses_unknown_actions_per_feature() {
    assert_eq!(route_command(ProtocolFeature::Core, "pong"), Err(CommandRejection::InvalidCoreAction));
    assert_eq!(route_command(ProtocolFeature::Movement, "move"), Err(CommandRejection::InvalidMovementAction));
    assert_eq!(route_command(ProtocolFeature::Build, "fire"), Err(CommandRejection::InvalidBuildAction));
    assert_eq!(route_command(ProtocolFeature::Projectile, "place"), Err(CommandRejection::InvalidProjectileAction));
    assert_eq!(route_command(ProtocolFeature::Inventory, "drop"), Err(CommandRejection::InvalidInventoryAction));
    assert_eq!(route_command(ProtocolFeature::Mining, "stop"), Err(CommandRejection::InvalidMiningAction));
    assert_eq!(route_command(ProtocolFeature::Crafting, "start"), Err(CommandRejection::InvalidCraftingAction));
    assert_eq!(route_command(ProtocolFeature::Combat, "defend"), Err(CommandRejection::InvalidCombatAction));
    assert_eq!(route_command(ProtocolFeature::Character, "delete"), Err(CommandRejection::InvalidCharacterAction));
}

#[test]
fn envelope_checks() {
    assert!(envelope_is_valid(2, 1, "ping", true));
    assert!(!envelope_is_valid(1, 1, "ping", true));
    assert!(!envelope_is_valid(2, 0, "ping", true));
    assert!(!envelope_is_valid(2, 1, "", true));
    assert!(!envelope_is_valid(2, 1, "bad action", true));
    assert!(!envelope_is_valid(2, 1, &"a".repeat(33), true));
    assert!(envelope_is_valid(2, 1, &"a".repeat(32), true));
    assert!(!envelope_is_valid(2, 1, "ping", false));
}

#[test]
fn input_batch_takes_newer_inputs_only() {
    let batch = vec![input(3, true), input(2, false), input(5, false), input(4, true)];
    assert_eq!(
        apply_input_batch(1, STILL, &batch),
        Ok(InputBatchOutcome { last_input_seq: 5, input: STILL, accepted: true })
    );
    assert_eq!(
        apply_input_batch(9, STILL, &batch),
        Ok(InputBatchOutcome { last_input_seq: 9, input: STILL, accepted: false })
    );
    let up = InputState { up: true, ..STILL };
    assert_eq!(
        apply_input_batch(0, STILL, &[input(1, true)]),
        Ok(InputBatchOutcome { last_input_seq: 1, input: up, accepted: true })
    );
    assert_eq!(
        apply_input_batch(0, up, &[]),
        Ok(InputBatchOutcome { last_input_seq: 0, input: up, accepted: false })
    );
}

#[test]
fn replayed_input_batch_is_ignored() {
    let batch = vec![input(7, true), input(8, false)];
    let first = apply_input_batch(2, STILL, &batch).unwrap();
    let again = apply_input_batch(first.last_input_seq, first.input, &batch).unwrap();
    assert_eq!(again, InputBatchOutcome { accepted: false, ..first });
}

#[test]
fn oversized_input_batch_is_refused() {
    let batch: Vec<InputCommand> = (1..=129).map(|seq| input(seq, false)).collect();
    assert_eq!(apply_input_batch(0, STILL, &batch), Err(CommandRejection::InputBatchTooLarge));
    assert!(apply_input_batch(0, STILL, &batch[..128]).is_ok());
}

#[test]
fn inventory_commands() {
    assert_eq!(inventory_move_outcome(0, 1, None), CommandRejection::InventoryNotImplemented);
    assert_eq!(inventory_move_outcome(1, 1, None), CommandRejection::InvalidInventoryMove);
    assert_eq!(inventory_move_outcome(0, 24, None), CommandRejection::InvalidInventoryMove);
    assert_eq!(inventory_move_outcome(24, 0, Some(3)), CommandRejection::InvalidInventoryMove);
    assert_eq!(inventory_move_outcome(0, 23, Some(0)), CommandRejection::InvalidInventoryMove);
    assert_eq!(inventory_split_outcome(23, 1), CommandRejection::InventoryNotImplemented);
    assert_eq!(inventory_split_outcome(24, 1), CommandRejection::InvalidInventorySplit);
    assert_eq!(inventory_split_outcome(0, 0), CommandRejection::InvalidInventorySplit);
}

#[test]
fn mining_crafting_and_combat_commands() {
    assert_eq!(mining_start_outcome("node:1"), CommandRejection::MiningNotImplemented);
    assert_eq!(mining_start_outcome("bad node"), CommandRejection::InvalidMiningNodeId);
    assert_eq!(mining_cancel_outcome(None), CommandRejection::MiningNotImplemented);
    assert_eq!(mining_cancel_outcome(Some("")), CommandRejection::InvalidMiningNodeId);
    assert_eq!(crafting_queue_outcome("gear", 1), CommandRejection::CraftingNotImplemented);
    assert_eq!(crafting_queue_outcome("gear", 0), CommandRejection::InvalidCraftingQueue);
    assert_eq!(crafting_queue_outcome("ge ar", 2), CommandRejection::InvalidCraftingQueue);
    assert_eq!(crafting_cancel_outcome(None, None), CommandRejection::InvalidCraftingCancel);
    assert_eq!(crafting_cancel_outcome(None, Some(false)), CommandRejection::InvalidCraftingCancel);
    assert_eq!(crafting_cancel_outcome(None, Some(true)), CommandRejection::CraftingNotImplemented);
    assert_eq!(crafting_cancel_outcome(Some("x y"), None), CommandRejection::InvalidCraftingRecipeId);
    assert_eq!(crafting_cancel_outcome(Some("gear"), None), CommandRejection::CraftingNotImplemented);
    assert_eq!(combat_attack_outcome("enemy-1", None), CommandRejection::CombatNotImplemented);
    assert_eq!(combat_attack_outcome("", None), CommandRejection::InvalidCombatTargetId);
    assert_eq!(combat_attack_outcome("enemy-1", Some("a b")), CommandRejection::InvalidCombatAttackId);
    assert_eq!(combat_attack_outcome("enemy-1", Some("slash")), CommandRejection::CombatNotImplemented);
}

#[test]
fn character_profiles() {
    assert_eq!(
        character_profile_update(None, " Ada ", None, None),
        Ok(CharacterProfileUpdate {
            character_id: "default".to_string(),
            name: "Ada".to_string(),
            sprite_id: "engineer-default".to_string(),
            set_active: true,
        })
    );
    assert_eq!(
        character_profile_update(Some(" hero "), "Bo", Some(" knight "), Some(false)),
        Ok(CharacterProfileUpdate {
            character_id: "hero".to_string(),
            name: "Bo".to_string(),
            sprite_id: "knight".to_string(),
            set_active: false,
        })
    );
    assert_eq!(character_profile_update(None, "  ", None, None), Err(CommandRejection::InvalidCharacterName));
    assert_eq!(
        character_profile_update(Some("bad id"), "Bo", None, None),
        Err(CommandRejection::InvalidCharacterId)
    );
    assert_eq!(
        character_profile_update(None, "Bo", Some("bad sprite"), None),
        Err(CommandRejection::InvalidCharacterSprite)
    );
    assert_eq!(character_select(" hero "), Ok("hero".to_string()));
    assert_eq!(character_select("no way"), Err(CommandRejection::InvalidCharacterId));
}

#[test]
fn rate_limits_and_resume_tokens() {
    assert!(interval_elapsed(1120, 1000, 120));
    assert!(!interval_elapsed(1119, 1000, 120));
    assert!(interval_elapsed(i64::MAX, i64::MIN, 40));
    assert!(!interval_elapsed(i64::MIN, i64::MAX, 40));
    assert!(resume_token_reusable("p1", "p1", 2000, 1000));
    assert!(!resume_token_reusable("p1", "p1", 1000, 1000));
    assert!(!resume_token_reusable("p2", "p1", 2000, 1000));
}

#[test]
fn batch_takes_largest_number_and_its_first_input() {
    let up = InputState { up: true, ..STILL };
    let batch = vec![input(4, false), input(9, true), input(9, false), input(2, false)];
    assert_eq!(
        apply_input_batch(3, STILL, &batch),
        Ok(InputBatchOutcome { last_input_seq: 9, input: up, accepted: true })
    );
    assert_eq!(
        apply_input_batch(9, up, &batch),
        Ok(InputBatchOutcome { last_input_seq: 9, input: up, accepted: false })
    );
}

#[test]
fn command_sequence_numbers() {
    assert_eq!(command_sequence(5, 5), (5, SequenceAction::AckDuplicate));
    assert_eq!(command_sequence(5, 2), (5, SequenceAction::AckDuplicate));
    assert_eq!(command_sequence(5, 6), (6, SequenceAction::Apply));
}

#[test]
fn build_placement_decisions_in_order() {
    assert_eq!(
        decide_build_place(1000, 1100, "wall", true, true, 0, false),
        (1000, BuildPlaceDecision::RateLimited)
    );
    assert_eq!(
        decide_build_place(1000, 1120, "wall", true, false, 0, false),
        (1120, BuildPlaceDecision::InvalidKind)
    );
    assert_eq!(
        decide_build_place(1000, 1120, "miner", false, true, 0, false),
        (1120, BuildPlaceDecision::CellBlocked)
    );
    assert_eq!(
        decide_build_place(1000, 1120, "miner", false, false, 1023, false),
        (1120, BuildPlaceDecision::Place { evict_oldest: false })
    );
    assert_eq!(
        decide_build_place(1000, 1120, "miner", false, false, 1024, false),
        (1120, BuildPlaceDecision::Place { evict_oldest: true })
    );
    assert_eq!(
        decide_build_place(1000, 1120, "miner", false, false, 1024, true),
        (1120, BuildPlaceDecision::Place { evict_oldest: false })
    );
}

#[test]
fn projectile_and_catch_up_decisions() {
    assert_eq!(decide_projectile_fire(100, 120, 0, false), (100, ProjectileFireDecision::RateLimited));
    assert_eq!(
        decide_projectile_fire(100, 133, 4096, false),
        (133, ProjectileFireDecision::Fire { evict_oldest: true })
    );
    assert_eq!(catch_up_plan(0), (0, false));
    assert_eq!(catch_up_plan(3), (3, false));
    assert_eq!(catch_up_plan(8), (8, false));
    assert_eq!(catch_up_plan(20), (8, true));
}
