//! The room server's decisions about client commands: which handler a
//! feature and action reach, whether an envelope is acceptable, how a batch of
//! movement inputs updates a player, and what each command's payload is
//! answered with.

use vstd::prelude::*;
use vstd::string::*;
use crate::keys::{compare_keys, KeyOrder};
use crate::movement::InputState;
use crate::room::{
    character_id_spec, character_name_spec, identifier_spec, is_valid_protocol_identifier,
    sanitize_character_id, sanitize_character_name,
};
use crate::text::{byte_len, trim, trim_str};

verus! {

/// The protocol version of client and server envelopes.
pub const PROTOCOL_VERSION: u32 = 2;
/// Most movement inputs one batch may carry.
pub const MAX_INPUT_BATCH: usize = 128;
/// Longest accepted action name, in bytes.
pub const MAX_ACTION_LEN: usize = 32;
/// Number of inventory slots a command may address.
pub const INVENTORY_SLOTS: u16 = 24;

#[derive(Debug, Clone, Copy, PartialEq, Eq, Structural)]
pub enum ProtocolFeature {
    Core,
    Movement,
    Build,
    Projectile,
    Inventory,
    Mining,
    Crafting,
    Combat,
    Character,
}

/// The handler a command reaches.
#[derive(Debug, Clone, Copy, PartialEq, Eq, Structural)]
pub enum CommandRoute {
    Ping,
    InputBatch,
    BuildPlace,
    BuildPreview,
    BuildRemove,
    ProjectileFire,
    InventoryMove,
    InventorySplit,
    MiningStart,
    MiningCancel,
    CraftingQueue,
    CraftingCancel,
    CombatAttack,
    CharacterSetProfile,
    CharacterSetActive,
}

/// Why a command was refused.
#[derive(Debug, Clone, Copy, PartialEq, Eq, Structural)]
pub enum CommandRejection {
    InvalidCoreAction,
    InvalidMovementAction,
    InvalidBuildAction,
    InvalidProjectileAction,
    InvalidInventoryAction,
    InvalidMiningAction,
    InvalidCraftingAction,
    InvalidCombatAction,
    InvalidCharacterAction,
    InputBatchTooLarge,
    InvalidInventoryMove,
    InvalidInventorySplit,
    InventoryNotImplemented,
    InvalidMiningNodeId,
    MiningNotImplemented,
    InvalidCraftingQueue,
    InvalidCraftingCancel,
    InvalidCraftingRecipeId,
    CraftingNotImplemented,
    InvalidCombatTargetId,
    InvalidCombatAttackId,
    CombatNotImplemented,
    InvalidCharacterName,
    InvalidCharacterId,
    InvalidCharacterSprite,
}

/// The handler of a feature's action, or the refusal of an unknown action.
pub open spec fn route_spec(feature: ProtocolFeature, action: Seq<char>) -> Result<
    CommandRoute,
    CommandRejection,
> {
    match feature {
        ProtocolFeature::Core => if action == "ping"@ {
            Ok(CommandRoute::Ping)
        } else {
            Err(CommandRejection::InvalidCoreAction)
        },
        ProtocolFeature::Movement => if action == "input_batch"@ {
            Ok(CommandRoute::InputBatch)
        } else {
            Err(CommandRejection::InvalidMovementAction)
        },
        ProtocolFeature::Build => if action == "place"@ {
            Ok(CommandRoute::BuildPlace)
        } else if action == "preview"@ {
            Ok(CommandRoute::BuildPreview)
        } else if action == "remove"@ {
            Ok(CommandRoute::BuildRemove)
        } else {
            Err(CommandRejection::InvalidBuildAction)
        },
        ProtocolFeature::Projectile => if action == "fire"@ {
            Ok(CommandRoute::ProjectileFire)
        } else {
            Err(CommandRejection::InvalidProjectileAction)
        },
        ProtocolFeature::Inventory => if action == "move"@ {
            Ok(CommandRoute::InventoryMove)
        } else if action == "split"@ {
            Ok(CommandRoute::InventorySplit)
        } else {
            Err(CommandRejection::InvalidInventoryAction)
        },
        ProtocolFeature::Mining => if action == "start"@ {
            Ok(CommandRoute::MiningStart)
        } else if action == "cancel"@ {
            Ok(CommandRoute::MiningCancel)
        } else {
            Err(CommandRejection::InvalidMiningAction)
        },
        ProtocolFeature::Crafting => if action == "queue"@ {
            Ok(CommandRoute::CraftingQueue)
        } else if action == "cancel"@ {
            Ok(CommandRoute::CraftingCancel)
        } else {
            Err(CommandRejection::InvalidCraftingAction)
        },
        ProtocolFeature::Combat => if action == "attack"@ {
            Ok(CommandRoute::CombatAttack)
        } else {
            Err(CommandRejection::InvalidCombatAction)
        },
        ProtocolFeature::Character => if action == "set_profile"@ {
            Ok(CommandRoute::CharacterSetProfile)
        } else if action == "set_active"@ {
            Ok(CommandRoute::CharacterSetActive)
        } else {
            Err(CommandRejection::InvalidCharacterAction)
        },
    }
}

fn is(action: &str, name: &str) -> (same: bool)
    ensures
        same == (action@ == name@),
{
    match compare_keys(action, name) {
        KeyOrder::Equal => true,
        _ => false,
    }
}

/// The handler a feature's action reaches (see [`route_spec`]).
pub fn route_command(feature: ProtocolFeature, action: &str) -> (route: Result<
    CommandRoute,
    CommandRejection,
>)
    ensures
        route == route_spec(feature, action@),
{
    match feature {
        ProtocolFeature::Core => if is(action, "ping") {
            Ok(CommandRoute::Ping)
        } else {
            Err(CommandRejection::InvalidCoreAction)
        },
        ProtocolFeature::Movement => if is(action, "input_batch") {
            Ok(CommandRoute::InputBatch)
        } else {
            Err(CommandRejection::InvalidMovementAction)
        },
        ProtocolFeature::Build => if is(action, "place") {
            Ok(CommandRoute::BuildPlace)
        } else if is(action, "preview") {
            Ok(CommandRoute::BuildPreview)
        } else if is(action, "remove") {
            Ok(CommandRoute::BuildRemove)
        } else {
            Err(CommandRejection::InvalidBuildAction)
        },
        ProtocolFeature::Projectile => if is(action, "fire") {
            Ok(CommandRoute::ProjectileFire)
        } else {
            Err(CommandRejection::InvalidProjectileAction)
        },
        ProtocolFeature::Inventory => if is(action, "move") {
            Ok(CommandRoute::InventoryMove)
        } else if is(action, "split") {
            Ok(CommandRoute::InventorySplit)
        } else {
            Err(CommandRejection::InvalidInventoryAction)
        },
        ProtocolFeature::Mining => if is(action, "start") {
            Ok(CommandRoute::MiningStart)
        } else if is(action, "cancel") {
            Ok(CommandRoute::MiningCancel)
        } else {
            Err(CommandRejection::InvalidMiningAction)
        },
        ProtocolFeature::Crafting => if is(action, "queue") {
            Ok(CommandRoute::CraftingQueue)
        } else if is(action, "cancel") {
            Ok(CommandRoute::CraftingCancel)
        } else {
            Err(CommandRejection::InvalidCraftingAction)
        },
        ProtocolFeature::Combat => if is(action, "attack") {
            Ok(CommandRoute::CombatAttack)
        } else {
            Err(CommandRejection::InvalidCombatAction)
        },
        ProtocolFeature::Character => if is(action, "set_profile") {
            Ok(CommandRoute::CharacterSetProfile)
        } else if is(action, "set_active") {
            Ok(CommandRoute::CharacterSetActive)
        } else {
            Err(CommandRejection::InvalidCharacterAction)
        },
    }
}

/// An envelope is accepted when it is of the current protocol version, has a
/// positive sequence number, names an action of 1 to 32 bytes that is a
/// protocol identifier, and carries a finite client time.
pub open spec fn envelope_valid_spec(
    version: u32,
    seq: u32,
    action: Seq<char>,
    client_time_is_finite: bool,
) -> bool {
    &&& version == PROTOCOL_VERSION
    &&& seq >= 1
    &&& action.len() > 0
    &&& byte_len(action) <= MAX_ACTION_LEN
    &&& identifier_spec(action)
    &&& client_time_is_finite
}

/// Whether an envelope's header is acceptable (see [`envelope_valid_spec`]).
pub fn envelope_is_valid(version: u32, seq: u32, action: &str, client_time_is_finite: bool) -> (ok:
    bool)
    ensures
        ok == envelope_valid_spec(version, seq, action@, client_time_is_finite),
{
    version == PROTOCOL_VERSION && seq >= 1 && !action.is_empty() && action.as_bytes().len()
        <= MAX_ACTION_LEN && is_valid_protocol_identifier(action) && client_time_is_finite
}

/// One movement input of a batch.
#[derive(Debug, Clone, Copy, PartialEq, Eq, Structural)]
pub struct InputCommand {
    pub seq: u32,
    pub up: bool,
    pub down: bool,
    pub left: bool,
    pub right: bool,
}

/// A player's input after a batch.
#[derive(Debug, Clone, Copy, PartialEq, Eq, Structural)]
pub struct InputBatchOutcome {
    pub last_input_seq: u32,
    pub input: InputState,
    pub accepted: bool,
}

/// The directions an input command holds.
pub open spec fn command_input(command: InputCommand) -> InputState {
    InputState { up: command.up, down: command.down, left: command.left, right: command.right }
}

/// Applies the inputs in order: an input is taken only when its sequence
/// number is above the last one taken; the last taken input is the state.
pub open spec fn batch_spec(last_input_seq: u32, current: InputState, inputs: Seq<InputCommand>) -> InputBatchOutcome
    decreases inputs.len(),
{
    if inputs.len() == 0 {
        InputBatchOutcome { last_input_seq, input: current, accepted: false }
    } else {
        let before = batch_spec(last_input_seq, current, inputs.drop_last());
        let command = inputs.last();
        if command.seq > before.last_input_seq {
            InputBatchOutcome {
                last_input_seq: command.seq,
                input: command_input(command),
                accepted: true,
            }
        } else {
            before
        }
    }
}

/// Applies a batch of movement inputs to a player (see [`batch_spec`]); a
/// batch of more than 128 inputs is refused.
pub fn apply_input_batch(last_input_seq: u32, current: InputState, inputs: &[InputCommand]) -> (outcome:
    Result<InputBatchOutcome, CommandRejection>)
    ensures
        inputs@.len() > MAX_INPUT_BATCH ==> outcome == Err::<InputBatchOutcome, CommandRejection>(
            CommandRejection::InputBatchTooLarge,
        ),
        inputs@.len() <= MAX_INPUT_BATCH ==> outcome == Ok::<InputBatchOutcome, CommandRejection>(
            batch_spec(last_input_seq, current, inputs@),
        ),
{
    if inputs.len() > MAX_INPUT_BATCH {
        return Err(CommandRejection::InputBatchTooLarge);
    }
    let mut outcome = InputBatchOutcome { last_input_seq, input: current, accepted: false };
    let mut i: usize = 0;
    proof {
        assert(inputs@.take(0) =~= Seq::<InputCommand>::empty());
    }
    while i < inputs.len()
        invariant
            i <= inputs@.len(),
            outcome == batch_spec(last_input_seq, current, inputs@.take(i as int)),
        decreases inputs@.len() - i,
    {
        let command = inputs[i];
        proof {
            assert(inputs@.take(i + 1).drop_last() =~= inputs@.take(i as int));
            assert(inputs@.take(i + 1).last() == command);
        }
        if command.seq > outcome.last_input_seq {
            outcome = InputBatchOutcome {
                last_input_seq: command.seq,
                input: InputState {
                    up: command.up,
                    down: command.down,
                    left: command.left,
                    right: command.right,
                },
                accepted: true,
            };
        }
        i += 1;
    }
    proof {
        assert(inputs@.take(i as int) =~= inputs@);
    }
    Ok(outcome)
}

/// The answer to an inventory `move`.
pub open spec fn inventory_move_spec(from_slot: u16, to_slot: u16, amount: Option<u32>) -> CommandRejection {
    if from_slot == to_slot || from_slot >= INVENTORY_SLOTS || to_slot >= INVENTORY_SLOTS
        || amount == Some(0u32) {
        CommandRejection::InvalidInventoryMove
    } else {
        CommandRejection::InventoryNotImplemented
    }
}

/// Answers an inventory `move` (see [`inventory_move_spec`]).
pub fn inventory_move_outcome(from_slot: u16, to_slot: u16, amount: Option<u32>) -> (answer:
    CommandRejection)
    ensures
        answer == inventory_move_spec(from_slot, to_slot, amount),
{
    let zero_amount = match amount {
        Some(a) => a == 0,
        None => false,
    };
    if from_slot == to_slot || from_slot >= INVENTORY_SLOTS || to_slot >= INVENTORY_SLOTS || zero_amount {
        CommandRejection::InvalidInventoryMove
    } else {
        CommandRejection::InventoryNotImplemented
    }
}

/// Answers an inventory `split`: an out-of-range slot or a zero amount is
/// invalid; otherwise the command is not implemented.
pub fn inventory_split_outcome(slot: u16, amount: u32) -> (answer: CommandRejection)
    ensures
        answer == (if slot >= INVENTORY_SLOTS || amount == 0 {
            CommandRejection::InvalidInventorySplit
        } else {
            CommandRejection::InventoryNotImplemented
        }),
{
    if slot >= INVENTORY_SLOTS || amount == 0 {
        CommandRejection::InvalidInventorySplit
    } else {
        CommandRejection::InventoryNotImplemented
    }
}

/// Answers a mining `start`: the node must be named by a protocol identifier;
/// mining is not implemented.
pub fn mining_start_outcome(node_id: &str) -> (answer: CommandRejection)
    ensures
        answer == (if !identifier_spec(node_id@) {
            CommandRejection::InvalidMiningNodeId
        } else {
            CommandRejection::MiningNotImplemented
        }),
{
    if !is_valid_protocol_identifier(node_id) {
        CommandRejection::InvalidMiningNodeId
    } else {
        CommandRejection::MiningNotImplemented
    }
}

/// Answers a mining `cancel`: a node, when given, must be named by a protocol
/// identifier; mining is not implemented.
pub fn mining_cancel_outcome(node_id: Option<&str>) -> (answer: CommandRejection)
    ensures
        answer == (match node_id {
            Some(node) => if !identifier_spec(node@) {
                CommandRejection::InvalidMiningNodeId
            } else {
                CommandRejection::MiningNotImplemented
            },
            None => CommandRejection::MiningNotImplemented,
        }),
{
    match node_id {
        Some(node) => if !is_valid_protocol_identifier(node) {
            CommandRejection::InvalidMiningNodeId
        } else {
            CommandRejection::MiningNotImplemented
        },
        None => CommandRejection::MiningNotImplemented,
    }
}

/// Answers a crafting `queue`: a zero count or a recipe that is not a protocol
/// identifier is invalid; otherwise the command is not implemented.
pub fn crafting_queue_outcome(recipe: &str, count: u16) -> (answer: CommandRejection)
    ensures
        answer == (if count == 0 || !identifier_spec(recipe@) {
            CommandRejection::InvalidCraftingQueue
        } else {
            CommandRejection::CraftingNotImplemented
        }),
{
    if count == 0 || !is_valid_protocol_identifier(recipe) {
        CommandRejection::InvalidCraftingQueue
    } else {
        CommandRejection::CraftingNotImplemented
    }
}

/// The answer to a crafting `cancel`.
pub open spec fn crafting_cancel_spec(recipe: Option<Seq<char>>, clear: Option<bool>) -> CommandRejection {
    let clear_requested = match clear {
        Some(c) => c,
        None => false,
    };
    if !clear_requested && recipe is None {
        CommandRejection::InvalidCraftingCancel
    } else {
        match recipe {
            Some(r) => if !identifier_spec(r) {
                CommandRejection::InvalidCraftingRecipeId
            } else {
                CommandRejection::CraftingNotImplemented
            },
            None => CommandRejection::CraftingNotImplemented,
        }
    }
}

/// Answers a crafting `cancel` (see [`crafting_cancel_spec`]).
pub fn crafting_cancel_outcome(recipe: Option<&str>, clear: Option<bool>) -> (answer:
    CommandRejection)
    ensures
        answer == crafting_cancel_spec(crate::auth::opt_str_view(recipe), clear),
{
    let clear_requested = match clear {
        Some(c) => c,
        None => false,
    };
    if !clear_requested && recipe.is_none() {
        return CommandRejection::InvalidCraftingCancel;
    }
    match recipe {
        Some(r) => if !is_valid_protocol_identifier(r) {
            CommandRejection::InvalidCraftingRecipeId
        } else {
            CommandRejection::CraftingNotImplemented
        },
        None => CommandRejection::CraftingNotImplemented,
    }
}

/// Answers a combat `attack`: the target, and the attack when given, must be
/// protocol identifiers; combat is not implemented.
pub fn combat_attack_outcome(target_id: &str, attack_id: Option<&str>) -> (answer:
    CommandRejection)
    ensures
        answer == (if !identifier_spec(target_id@) {
            CommandRejection::InvalidCombatTargetId
        } else {
            match attack_id {
                Some(a) => if !identifier_spec(a@) {
                    CommandRejection::InvalidCombatAttackId
                } else {
                    CommandRejection::CombatNotImplemented
                },
                None => CommandRejection::CombatNotImplemented,
            }
        }),
{
    if !is_valid_protocol_identifier(target_id) {
        return CommandRejection::InvalidCombatTargetId;
    }
    match attack_id {
        Some(a) => if !is_valid_protocol_identifier(a) {
            CommandRejection::InvalidCombatAttackId
        } else {
            CommandRejection::CombatNotImplemented
        },
        None => CommandRejection::CombatNotImplemented,
    }
}

/// A character profile to store for a player.
#[derive(Debug, Clone, PartialEq, Eq)]
pub struct CharacterProfileUpdate {
    pub character_id: String,
    pub name: String,
    pub sprite_id: String,
    pub set_active: bool,
}

/// The character a profile command names by default.
pub open spec fn default_character_id() -> Seq<char> {
    "default"@
}

/// The sprite a profile command uses by default.
pub open spec fn default_sprite_id() -> Seq<char> {
    "engineer-default"@
}

/// The profile a `set_profile` command stores: the name must be a valid
/// character name, the character id (by default `default`) a valid character
/// id, and the sprite (trimmed, by default `engineer-default`) a protocol
/// identifier; the profile becomes active unless the command says otherwise.
pub open spec fn profile_spec(
    character_id: Option<Seq<char>>,
    name: Seq<char>,
    sprite_id: Option<Seq<char>>,
    set_active: Option<bool>,
) -> Result<(Seq<char>, Seq<char>, Seq<char>, bool), CommandRejection> {
    match character_name_spec(name) {
        None => Err(CommandRejection::InvalidCharacterName),
        Some(clean_name) => {
            let id = match character_id {
                Some(raw) => character_id_spec(raw),
                None => Some(default_character_id()),
            };
            match id {
                None => Err(CommandRejection::InvalidCharacterId),
                Some(id) => {
                    let sprite = match sprite_id {
                        Some(s) => trim(s),
                        None => default_sprite_id(),
                    };
                    if !identifier_spec(sprite) {
                        Err(CommandRejection::InvalidCharacterSprite)
                    } else {
                        Ok(
                            (
                                id,
                                clean_name,
                                sprite,
                                match set_active {
                                    Some(b) => b,
                                    None => true,
                                },
                            ),
                        )
                    }
                },
            }
        },
    }
}

/// Checks a `set_profile` command (see [`profile_spec`]).
pub fn character_profile_update(
    character_id: Option<&str>,
    name: &str,
    sprite_id: Option<&str>,
    set_active: Option<bool>,
) -> (update: Result<CharacterProfileUpdate, CommandRejection>)
    ensures
        update is Ok <==> profile_spec(
            crate::auth::opt_str_view(character_id),
            name@,
            crate::auth::opt_str_view(sprite_id),
            set_active,
        ) is Ok,
        update matches Ok(u) ==> profile_spec(
            crate::auth::opt_str_view(character_id),
            name@,
            crate::auth::opt_str_view(sprite_id),
            set_active,
        )->Ok_0 == (u.character_id@, u.name@, u.sprite_id@, u.set_active),
        update matches Err(e) ==> profile_spec(
            crate::auth::opt_str_view(character_id),
            name@,
            crate::auth::opt_str_view(sprite_id),
            set_active,
        ) == Err::<(Seq<char>, Seq<char>, Seq<char>, bool), CommandRejection>(e),
{
    let clean_name = match sanitize_character_name(name) {
        Some(n) => n,
        None => {
            return Err(CommandRejection::InvalidCharacterName);
        },
    };
    let id = match character_id {
        Some(raw) => match sanitize_character_id(raw) {
            Some(id) => id,
            None => {
                return Err(CommandRejection::InvalidCharacterId);
            },
        },
        None => String::from_str("default"),
    };
    let sprite = match sprite_id {
        Some(s) => String::from_str(trim_str(s)),
        None => String::from_str("engineer-default"),
    };
    if !is_valid_protocol_identifier(sprite.as_str()) {
        return Err(CommandRejection::InvalidCharacterSprite);
    }
    let set_active = match set_active {
        Some(b) => b,
        None => true,
    };
    Ok(CharacterProfileUpdate { character_id: id, name: clean_name, sprite_id: sprite, set_active })
}

/// Checks a `set_active` command: the character id must be valid.
pub fn character_select(character_id: &str) -> (selected: Result<String, CommandRejection>)
    ensures
        selected is Ok <==> character_id_spec(character_id@) is Some,
        selected matches Ok(id) ==> id@ == character_id_spec(character_id@)->0,
        selected matches Err(e) ==> e == CommandRejection::InvalidCharacterId,
{
    match sanitize_character_id(character_id) {
        Some(id) => Ok(id),
        None => Err(CommandRejection::InvalidCharacterId),
    }
}

/// Whether an action limited to one per `min_interval_ms` may run at `now_ms`
/// when it last ran at `last_at_ms`.
pub fn interval_elapsed(now_ms: i64, last_at_ms: i64, min_interval_ms: i64) -> (elapsed: bool)
    ensures
        elapsed == (now_ms - last_at_ms >= min_interval_ms),
{
    (now_ms as i128) - (last_at_ms as i128) >= (min_interval_ms as i128)
}

/// Whether a stored resume token may be handed back to a reconnecting player:
/// it must belong to that player and not have expired.
pub fn resume_token_reusable(token_player_id: &str, player_id: &str, expires_at_ms: i64, now_ms: i64) -> (reusable: bool)
    ensures
        reusable == (token_player_id@ == player_id@ && expires_at_ms > now_ms),
{
    let same = match compare_keys(token_player_id, player_id) {
        KeyOrder::Equal => true,
        _ => false,
    };
    same && expires_at_ms > now_ms
}

} // verus!
