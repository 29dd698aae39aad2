//! The authoritative, fixed-step gameplay simulation.
//!
//! [`simulate_step`] applies one step of client commands to a
//! [`GameplayState`], then advances every craft queue, and reports what
//! happened as a list of events. Its contract is [`step_spec`], written over
//! the model of the state ([`GameplayView`]) and of the events ([`EventView`]).

use vstd::prelude::*;
use std::collections::BTreeMap;
use crate::actor_table::{
    ActorTable, Entries, ensure_entry, entry_index, entry_keys, entries_sorted, lookup, store,
    lemma_ensure_entry, lemma_store, lemma_lower_bound, lemma_sorted_lower_bound,
};
use crate::combat::{CombatStats, damaged, applied_damage};
use crate::crafting::{
    ActiveCraft, CraftQueueState, CraftQueueView, QueuedCraft, RecipeKind, consume_one_spec,
    empty_queue, recipe_definition, recipe_inputs, recipe_outputs, recipe_ticks,
};
use crate::inventory::{
    InventoryOpError, InventoryState, InventoryView, ResourceKind, ResourceStack, add_spec,
    affordable, consume_spec, empty_inventory, remove_all, remove_spec, stacks_unique, take_amount,
    drop_empty, first_index_of, total_of, requirements_countable, lemma_unique_total_fits,
    lemma_first_index_of, lemma_total_take_amount, lemma_drop_empty_unique,
    DEFAULT_INVENTORY_MAX_SLOTS,
};
use crate::placement::{
    PlaceableEntity, PlaceableKind, build_cost, max_health_of, placeable_build_cost,
    placeable_max_health, tile_occupied, tile_taken, insert_placeable,
};

verus! {

/// The schema version this simulation reads and writes.
pub const GAMEPLAY_SCHEMA_VERSION: u32 = 1;

fn schema_version_default() -> (version: u32)
    ensures
        version == GAMEPLAY_SCHEMA_VERSION,
{
    GAMEPLAY_SCHEMA_VERSION
}

/// The whole gameplay state of a room.
#[derive(Debug, Clone, PartialEq, Eq)]
pub struct GameplayState {
    pub schema_version: u32,
    pub tick: u64,
    pub inventories: ActorTable<InventoryState>,
    pub craft_queues: ActorTable<CraftQueueState>,
    pub combatants: ActorTable<CombatStats>,
    pub placeables: BTreeMap<u64, PlaceableEntity>,
    pub next_placeable_id: u64,
}

/// The mathematical content of a [`GameplayState`].
pub struct GameplayView {
    pub schema_version: u32,
    pub tick: u64,
    pub inventories: Entries<InventoryView>,
    pub craft_queues: Entries<CraftQueueView>,
    pub combatants: Entries<CombatStats>,
    pub placeables: Map<u64, PlaceableEntity>,
    pub next_placeable_id: u64,
}

impl View for GameplayState {
    type V = GameplayView;

    open spec fn view(&self) -> GameplayView {
        GameplayView {
            schema_version: self.schema_version,
            tick: self.tick,
            inventories: self.inventories@,
            craft_queues: self.craft_queues@,
            combatants: self.combatants@,
            placeables: self.placeables@,
            next_placeable_id: self.next_placeable_id,
        }
    }
}

/// Every inventory in the table holds each resource in at most one stack.
pub open spec fn inventories_unique(t: Entries<InventoryView>) -> bool {
    forall|k: Seq<char>|
        #[trigger] lookup(t, k) is Some ==> stacks_unique(lookup(t, k)->0.stacks)
}

impl GameplayState {
    /// The tables are well formed: one entry per actor, in identifier order.
    pub open spec fn wf(&self) -> bool {
        &&& self.inventories.wf()
        &&& self.craft_queues.wf()
        &&& self.combatants.wf()
    }
}

impl Default for GameplayState {
    fn default() -> (state: Self)
        ensures
            state.wf(),
            state@ == initial_gameplay(),
    {
        let state = Self {
            schema_version: GAMEPLAY_SCHEMA_VERSION,
            tick: 0,
            inventories: ActorTable::new(),
            craft_queues: ActorTable::new(),
            combatants: ActorTable::new(),
            placeables: BTreeMap::new(),
            next_placeable_id: 1,
        };
        assert(state@ == initial_gameplay());
        state
    }
}

/// The state of a fresh room.
pub open spec fn initial_gameplay() -> GameplayView {
    GameplayView {
        schema_version: GAMEPLAY_SCHEMA_VERSION,
        tick: 0,
        inventories: Seq::empty(),
        craft_queues: Seq::empty(),
        combatants: Seq::empty(),
        placeables: Map::empty(),
        next_placeable_id: 1,
    }
}

#[derive(Debug, Clone, PartialEq, Eq)]
#[allow(inconsistent_fields)]
pub enum SimulationCommand {
    GrantResource { actor_id: String, resource: ResourceKind, amount: u32 },
    QueueCraft { actor_id: String, recipe: RecipeKind, count: u16 },
    RegisterCombatant { actor_id: String, stats: CombatStats },
    DealDamage { target_id: String, amount: u16 },
    PlaceEntity { actor_id: String, kind: PlaceableKind, tile_x: i32, tile_y: i32 },
}

#[derive(Debug, Clone, PartialEq, Eq)]
pub struct SimulationStepInput {
    pub schema_version: u32,
    pub tick: u64,
    pub commands: Vec<SimulationCommand>,
}

impl Default for SimulationStepInput {
    fn default() -> (input: Self)
        ensures
            input.schema_version == GAMEPLAY_SCHEMA_VERSION,
            input.tick == 1,
            input.commands@.len() == 0,
    {
        Self { schema_version: GAMEPLAY_SCHEMA_VERSION, tick: 1, commands: Vec::new() }
    }
}

#[derive(Debug, Clone, PartialEq, Eq)]
pub struct SimulationStepOutput {
    pub schema_version: u32,
    pub tick: u64,
    pub events: Vec<SimulationEvent>,
}

#[derive(Debug, Clone, PartialEq, Eq)]
pub enum SimulationEvent {
    ResourceGranted { actor_id: String, resource: ResourceKind, amount: u32 },
    CraftQueued { actor_id: String, recipe: RecipeKind, count: u16 },
    CraftStarted { actor_id: String, recipe: RecipeKind, remaining_ticks: u16 },
    CraftCompleted { actor_id: String, recipe: RecipeKind },
    PlaceablePlaced {
        placeable_id: u64,
        owner_id: String,
        kind: PlaceableKind,
        tile_x: i32,
        tile_y: i32,
    },
    CombatantRegistered { actor_id: String },
    DamageApplied { target_id: String, applied: u16, remaining_health: u16, defeated: bool },
    Rejected { command_index: Option<usize>, reason: SimulationRejectReason },
}

#[derive(Debug, Clone, PartialEq, Eq)]
pub enum SimulationRejectReason {
    SchemaVersionMismatch { expected: u32, received: u32 },
    TickNotAdvancing { last_tick: u64, received_tick: u64 },
    InvalidAmount,
    InventoryNoFreeSlot { actor_id: String },
    InsufficientResource {
        actor_id: String,
        resource: ResourceKind,
        required: u32,
        available: u32,
    },
    OccupiedTile { tile_x: i32, tile_y: i32 },
    UnknownCombatant { target_id: String },
}

/// A rejection reason with identifiers as character sequences.
pub enum RejectView {
    SchemaVersionMismatch { expected: u32, received: u32 },
    TickNotAdvancing { last_tick: u64, received_tick: u64 },
    InvalidAmount,
    InventoryNoFreeSlot { actor_id: Seq<char> },
    InsufficientResource {
        actor_id: Seq<char>,
        resource: ResourceKind,
        required: u32,
        available: u32,
    },
    OccupiedTile { tile_x: i32, tile_y: i32 },
    UnknownCombatant { target_id: Seq<char> },
}

/// An event with identifiers as character sequences.
pub enum EventView {
    ResourceGranted { actor_id: Seq<char>, resource: ResourceKind, amount: u32 },
    CraftQueued { actor_id: Seq<char>, recipe: RecipeKind, count: u16 },
    CraftStarted { actor_id: Seq<char>, recipe: RecipeKind, remaining_ticks: u16 },
    CraftCompleted { actor_id: Seq<char>, recipe: RecipeKind },
    PlaceablePlaced {
        placeable_id: u64,
        owner_id: Seq<char>,
        kind: PlaceableKind,
        tile_x: i32,
        tile_y: i32,
    },
    CombatantRegistered { actor_id: Seq<char> },
    DamageApplied { target_id: Seq<char>, applied: u16, remaining_health: u16, defeated: bool },
    Rejected { command_index: Option<usize>, reason: RejectView },
}

impl View for SimulationRejectReason {
    type V = RejectView;

    open spec fn view(&self) -> RejectView {
        match *self {
            SimulationRejectReason::SchemaVersionMismatch { expected, received } => {
                RejectView::SchemaVersionMismatch { expected, received }
            },
            SimulationRejectReason::TickNotAdvancing { last_tick, received_tick } => {
                RejectView::TickNotAdvancing { last_tick, received_tick }
            },
            SimulationRejectReason::InvalidAmount => RejectView::InvalidAmount,
            SimulationRejectReason::InventoryNoFreeSlot { actor_id } => {
                RejectView::InventoryNoFreeSlot { actor_id: actor_id@ }
            },
            SimulationRejectReason::InsufficientResource {
                actor_id,
                resource,
                required,
                available,
            } => RejectView::InsufficientResource {
                actor_id: actor_id@,
                resource,
                required,
                available,
            },
            SimulationRejectReason::OccupiedTile { tile_x, tile_y } => RejectView::OccupiedTile {
                tile_x,
                tile_y,
            },
            SimulationRejectReason::UnknownCombatant { target_id } => {
                RejectView::UnknownCombatant { target_id: target_id@ }
            },
        }
    }
}

impl View for SimulationEvent {
    type V = EventView;

    open spec fn view(&self) -> EventView {
        match *self {
            SimulationEvent::ResourceGranted { actor_id, resource, amount } => {
                EventView::ResourceGranted { actor_id: actor_id@, resource, amount }
            },
            SimulationEvent::CraftQueued { actor_id, recipe, count } => EventView::CraftQueued {
                actor_id: actor_id@,
                recipe,
                count,
            },
            SimulationEvent::CraftStarted { actor_id, recipe, remaining_ticks } => {
                EventView::CraftStarted { actor_id: actor_id@, recipe, remaining_ticks }
            },
            SimulationEvent::CraftCompleted { actor_id, recipe } => EventView::CraftCompleted {
                actor_id: actor_id@,
                recipe,
            },
            SimulationEvent::PlaceablePlaced { placeable_id, owner_id, kind, tile_x, tile_y } => {
                EventView::PlaceablePlaced {
                    placeable_id,
                    owner_id: owner_id@,
                    kind,
                    tile_x,
                    tile_y,
                }
            },
            SimulationEvent::CombatantRegistered { actor_id } => EventView::CombatantRegistered {
                actor_id: actor_id@,
            },
            SimulationEvent::DamageApplied { target_id, applied, remaining_health, defeated } => {
                EventView::DamageApplied {
                    target_id: target_id@,
                    applied,
                    remaining_health,
                    defeated,
                }
            },
            SimulationEvent::Rejected { command_index, reason } => EventView::Rejected {
                command_index,
                reason: reason@,
            },
        }
    }
}

/// The models of a list of events.
pub open spec fn events_view(events: Seq<SimulationEvent>) -> Seq<EventView> {
    events.map_values(|e: SimulationEvent| e@)
}

/// The rejection reason an inventory error is reported as.
pub open spec fn reject_for(error: InventoryOpError, actor: Seq<char>) -> RejectView {
    match error {
        InventoryOpError::InvalidAmount => RejectView::InvalidAmount,
        InventoryOpError::NoFreeSlot => RejectView::InventoryNoFreeSlot { actor_id: actor },
        InventoryOpError::InsufficientResource { resource, required, available } => {
            RejectView::InsufficientResource { actor_id: actor, resource, required, available }
        },
    }
}

/// A command's rejection event.
pub open spec fn rejected_at(index: int, reason: RejectView) -> EventView {
    EventView::Rejected { command_index: Some(index as usize), reason }
}

/// The inventory table with an (empty, default) inventory for `actor`.
pub open spec fn with_inventory(t: Entries<InventoryView>, actor: Seq<char>) -> Entries<
    InventoryView,
> {
    ensure_entry(t, actor, empty_inventory(DEFAULT_INVENTORY_MAX_SLOTS))
}

/// `GrantResource`: add to the actor's inventory (created if missing).
pub open spec fn grant_spec(
    g: GameplayView,
    index: int,
    actor: Seq<char>,
    resource: ResourceKind,
    amount: u32,
) -> (GameplayView, Seq<EventView>) {
    let t = with_inventory(g.inventories, actor);
    let (inv, res) = add_spec(lookup(t, actor)->0, resource, amount);
    let event = match res {
        Ok(_) => EventView::ResourceGranted { actor_id: actor, resource, amount },
        Err(InventoryOpError::NoFreeSlot) => rejected_at(
            index,
            RejectView::InventoryNoFreeSlot { actor_id: actor },
        ),
        Err(_) => rejected_at(index, RejectView::InvalidAmount),
    };
    (GameplayView { inventories: store(t, actor, inv), ..g }, seq![event])
}

/// `QueueCraft`: append to the actor's craft queue (created if missing);
/// a zero count is refused.
pub open spec fn queue_spec(
    g: GameplayView,
    index: int,
    actor: Seq<char>,
    recipe: RecipeKind,
    count: u16,
) -> (GameplayView, Seq<EventView>) {
    if count == 0 {
        (g, seq![rejected_at(index, RejectView::InvalidAmount)])
    } else {
        let t = ensure_entry(g.craft_queues, actor, empty_queue());
        let q = lookup(t, actor)->0;
        let q2 = CraftQueueView {
            pending: q.pending.push(QueuedCraft { recipe, count }),
            active: q.active,
        };
        (
            GameplayView { craft_queues: store(t, actor, q2), ..g },
            seq![EventView::CraftQueued { actor_id: actor, recipe, count }],
        )
    }
}

/// `RegisterCombatant`: set the actor's combat statistics.
pub open spec fn register_spec(g: GameplayView, actor: Seq<char>, stats: CombatStats) -> (
    GameplayView,
    Seq<EventView>,
) {
    (
        GameplayView { combatants: store(g.combatants, actor, stats), ..g },
        seq![EventView::CombatantRegistered { actor_id: actor }],
    )
}

/// `DealDamage`: damage a registered combatant; zero damage and unknown
/// targets are refused.
pub open spec fn damage_spec(g: GameplayView, index: int, target: Seq<char>, amount: u16) -> (
    GameplayView,
    Seq<EventView>,
) {
    if amount == 0 {
        (g, seq![rejected_at(index, RejectView::InvalidAmount)])
    } else {
        match lookup(g.combatants, target) {
            None => (g, seq![rejected_at(index, RejectView::UnknownCombatant { target_id: target })]),
            Some(stats) => {
                let after = damaged(stats, amount);
                (
                    GameplayView { combatants: store(g.combatants, target, after), ..g },
                    seq![
                        EventView::DamageApplied {
                            target_id: target,
                            applied: applied_damage(stats, amount),
                            remaining_health: after.health,
                            defeated: after.health == 0,
                        },
                    ],
                )
            },
        }
    }
}

/// `PlaceEntity`: refused on an occupied tile; otherwise the build cost is
/// consumed from the actor's inventory (created if missing) and, when that
/// succeeds, the structure is placed under the next identifier.
pub open spec fn place_spec(
    g: GameplayView,
    index: int,
    actor: String,
    kind: PlaceableKind,
    tile_x: i32,
    tile_y: i32,
) -> (GameplayView, Seq<EventView>) {
    if tile_taken(g.placeables, tile_x, tile_y) {
        (g, seq![rejected_at(index, RejectView::OccupiedTile { tile_x, tile_y })])
    } else {
        let t = with_inventory(g.inventories, actor@);
        let (inv, res) = consume_spec(lookup(t, actor@)->0, build_cost(kind));
        let g1 = GameplayView { inventories: store(t, actor@, inv), ..g };
        match res {
            Err(e) => (g1, seq![rejected_at(index, reject_for(e, actor@))]),
            Ok(_) => {
                let id = g.next_placeable_id;
                let entity = PlaceableEntity {
                    id,
                    owner_id: actor,
                    kind,
                    tile_x,
                    tile_y,
                    max_health: max_health_of(kind),
                    health: max_health_of(kind),
                };
                (
                    GameplayView {
                        placeables: g.placeables.insert(id, entity),
                        next_placeable_id: id.saturating_add(1),
                        ..g1
                    },
                    seq![
                        EventView::PlaceablePlaced {
                            placeable_id: id,
                            owner_id: actor@,
                            kind,
                            tile_x,
                            tile_y,
                        },
                    ],
                )
            },
        }
    }
}

/// One command, the `index`-th of its step.
pub open spec fn apply_command(g: GameplayView, index: int, command: SimulationCommand) -> (
    GameplayView,
    Seq<EventView>,
) {
    match command {
        SimulationCommand::GrantResource { actor_id, resource, amount } => grant_spec(
            g,
            index,
            actor_id@,
            resource,
            amount,
        ),
        SimulationCommand::QueueCraft { actor_id, recipe, count } => queue_spec(
            g,
            index,
            actor_id@,
            recipe,
            count,
        ),
        SimulationCommand::RegisterCombatant { actor_id, stats } => register_spec(
            g,
            actor_id@,
            stats,
        ),
        SimulationCommand::DealDamage { target_id, amount } => damage_spec(
            g,
            index,
            target_id@,
            amount,
        ),
        SimulationCommand::PlaceEntity { actor_id, kind, tile_x, tile_y } => place_spec(
            g,
            index,
            actor_id,
            kind,
            tile_x,
            tile_y,
        ),
    }
}

/// The commands, applied in order; the events of each follow those of the
/// commands before it.
pub open spec fn apply_commands(g: GameplayView, commands: Seq<SimulationCommand>) -> (
    GameplayView,
    Seq<EventView>,
)
    decreases commands.len(),
{
    if commands.len() == 0 {
        (g, Seq::empty())
    } else {
        let (g1, e1) = apply_commands(g, commands.drop_last());
        let (g2, e2) = apply_command(g1, commands.len() - 1, commands.last());
        (g2, e1 + e2)
    }
}

/// Adds each output in turn; stops at the first addition that fails and
/// reports its error.
pub open spec fn add_all(inv: InventoryView, outputs: Seq<ResourceStack>) -> (
    InventoryView,
    Option<InventoryOpError>,
)
    decreases outputs.len(),
{
    if outputs.len() == 0 {
        (inv, None)
    } else {
        let (next, res) = add_spec(inv, outputs[0].resource, outputs[0].amount);
        match res {
            Err(e) => (next, Some(e)),
            Ok(_) => add_all(next, outputs.drop_first()),
        }
    }
}

/// Starting the next pending craft of `actor`, when nothing is active: the
/// first pending recipe's inputs are consumed from the actor's inventory,
/// one unit is taken from the queue, and the craft becomes active for the
/// recipe's duration (at least one tick).
pub open spec fn start_spec(g: GameplayView, actor: Seq<char>) -> (GameplayView, Seq<EventView>) {
    match lookup(g.craft_queues, actor) {
        None => (g, Seq::empty()),
        Some(q) => {
            if q.active is Some || q.pending.len() == 0 {
                (g, Seq::empty())
            } else {
                let recipe = q.pending[0].recipe;
                let t = with_inventory(g.inventories, actor);
                let inv = lookup(t, actor)->0;
                if !affordable(inv.stacks, recipe_inputs(recipe)) {
                    (GameplayView { inventories: t, ..g }, Seq::empty())
                } else {
                    let (inv2, res) = consume_spec(inv, recipe_inputs(recipe));
                    let g1 = GameplayView { inventories: store(t, actor, inv2), ..g };
                    if res is Err {
                        (g1, Seq::empty())
                    } else {
                        let (pending, consumed) = consume_one_spec(q.pending);
                        match consumed {
                            None => (
                                GameplayView {
                                    craft_queues: store(
                                        g.craft_queues,
                                        actor,
                                        CraftQueueView { pending, active: None },
                                    ),
                                    ..g1
                                },
                                Seq::empty(),
                            ),
                            Some(r) => {
                                let ticks: u16 = if recipe_ticks(recipe) > 1 {
                                    recipe_ticks(recipe)
                                } else {
                                    1
                                };
                                (
                                    GameplayView {
                                        craft_queues: store(
                                            g.craft_queues,
                                            actor,
                                            CraftQueueView {
                                                pending,
                                                active: Some(
                                                    ActiveCraft { recipe: r, remaining_ticks: ticks },
                                                ),
                                            },
                                        ),
                                        ..g1
                                    },
                                    seq![
                                        EventView::CraftStarted {
                                            actor_id: actor,
                                            recipe: r,
                                            remaining_ticks: ticks,
                                        },
                                    ],
                                )
                            },
                        }
                    }
                }
            }
        },
    }
}

/// Advancing the active craft of `actor` by one tick; when it finishes, its
/// outputs go to the actor's inventory (created if missing).
pub open spec fn complete_spec(g: GameplayView, actor: Seq<char>) -> (
    GameplayView,
    Seq<EventView>,
) {
    match lookup(g.craft_queues, actor) {
        None => (g, Seq::empty()),
        Some(q) => match q.active {
            None => (g, Seq::empty()),
            Some(a) => {
                let left: u16 = if a.remaining_ticks > 0 {
                    (a.remaining_ticks - 1) as u16
                } else {
                    0
                };
                if left != 0 {
                    (
                        GameplayView {
                            craft_queues: store(
                                g.craft_queues,
                                actor,
                                CraftQueueView {
                                    pending: q.pending,
                                    active: Some(ActiveCraft { recipe: a.recipe, remaining_ticks: left }),
                                },
                            ),
                            ..g
                        },
                        Seq::empty(),
                    )
                } else {
                    let queues = store(
                        g.craft_queues,
                        actor,
                        CraftQueueView { pending: q.pending, active: None },
                    );
                    let t = with_inventory(g.inventories, actor);
                    let (inv, err) = add_all(lookup(t, actor)->0, recipe_outputs(a.recipe));
                    let g2 = GameplayView {
                        craft_queues: queues,
                        inventories: store(t, actor, inv),
                        ..g
                    };
                    match err {
                        Some(e) => (
                            g2,
                            seq![EventView::Rejected { command_index: None, reason: reject_for(e, actor) }],
                        ),
                        None => (g2, seq![EventView::CraftCompleted { actor_id: actor, recipe: a.recipe }]),
                    }
                }
            },
        },
    }
}

/// The crafting pass over the given actors, in order: each first starts a
/// pending craft, then advances its active one.
pub open spec fn resolve_actors(g: GameplayView, actors: Seq<Seq<char>>) -> (
    GameplayView,
    Seq<EventView>,
)
    decreases actors.len(),
{
    if actors.len() == 0 {
        (g, Seq::empty())
    } else {
        let (g1, e1) = resolve_actors(g, actors.drop_last());
        let (g2, e2) = start_spec(g1, actors.last());
        let (g3, e3) = complete_spec(g2, actors.last());
        (g3, e1 + e2 + e3)
    }
}

/// One simulation step. A state or input of another schema version, or an
/// input whose tick does not advance past the state's, is rejected with the
/// state unchanged. Otherwise the state takes the input's tick, the commands
/// are applied in order, and then every actor with a craft queue, in
/// identifier order, goes through the crafting pass.
pub open spec fn step_spec(g: GameplayView, input: SimulationStepInput) -> (
    GameplayView,
    Seq<EventView>,
) {
    if g.schema_version != GAMEPLAY_SCHEMA_VERSION {
        (
            g,
            seq![
                EventView::Rejected {
                    command_index: None,
                    reason: RejectView::SchemaVersionMismatch {
                        expected: GAMEPLAY_SCHEMA_VERSION,
                        received: g.schema_version,
                    },
                },
            ],
        )
    } else if input.schema_version != GAMEPLAY_SCHEMA_VERSION {
        (
            g,
            seq![
                EventView::Rejected {
                    command_index: None,
                    reason: RejectView::SchemaVersionMismatch {
                        expected: GAMEPLAY_SCHEMA_VERSION,
                        received: input.schema_version,
                    },
                },
            ],
        )
    } else if input.tick <= g.tick {
        (
            g,
            seq![
                EventView::Rejected {
                    command_index: None,
                    reason: RejectView::TickNotAdvancing {
                        last_tick: g.tick,
                        received_tick: input.tick,
                    },
                },
            ],
        )
    } else {
        let (g1, e1) = apply_commands(GameplayView { tick: input.tick, ..g }, input.commands@);
        let (g2, e2) = resolve_actors(g1, entry_keys(g1.craft_queues));
        (g2, e1 + e2)
    }
}

// ---------------------------------------------------------------------------
// Lemmas used by the step.
// ---------------------------------------------------------------------------

proof fn lemma_events_push(events: Seq<SimulationEvent>, e: SimulationEvent)
    ensures
        events_view(events.push(e)) == events_view(events) + seq![e@],
{
    assert(events_view(events.push(e)) =~= events_view(events) + seq![e@]);
}

/// Adding keeps each resource in at most one stack.
pub proof fn lemma_add_unique(inv: InventoryView, resource: ResourceKind, amount: u32)
    requires
        stacks_unique(inv.stacks),
    ensures
        stacks_unique(add_spec(inv, resource, amount).0.stacks),
{
    lemma_first_index_of(inv.stacks, resource);
    let out = add_spec(inv, resource, amount).0.stacks;
    if amount != 0 {
        let i = first_index_of(inv.stacks, resource);
        if i >= 0 {
            assert forall|a: int, b: int| 0 <= a < b < out.len() implies out[a].resource
                != out[b].resource by {
                assert(out[a].resource == inv.stacks[a].resource);
                assert(out[b].resource == inv.stacks[b].resource);
            }
        } else if inv.stacks.len() < inv.max_slots {
            assert forall|a: int, b: int| 0 <= a < b < out.len() implies out[a].resource
                != out[b].resource by {
                if b == inv.stacks.len() {
                    assert(out[a] == inv.stacks[a]);
                } else {
                    assert(out[a] == inv.stacks[a]);
                    assert(out[b] == inv.stacks[b]);
                }
            }
        }
    }
}

/// Removing keeps each resource in at most one stack.
pub proof fn lemma_remove_unique(inv: InventoryView, resource: ResourceKind, amount: u32)
    requires
        stacks_unique(inv.stacks),
    ensures
        stacks_unique(remove_spec(inv, resource, amount).0.stacks),
        forall|r: ResourceKind|
            total_of(#[trigger] remove_spec(inv, resource, amount).0.stacks, r) <= total_of(
                inv.stacks,
                r,
            ),
{
    let t = take_amount(inv.stacks, resource, amount as nat);
    assert forall|r: ResourceKind| total_of(t, r) <= total_of(inv.stacks, r) by {
        lemma_total_take_amount(inv.stacks, resource, amount as nat, r);
    }
    assert forall|r: ResourceKind|
        total_of(#[trigger] remove_spec(inv, resource, amount).0.stacks, r) <= total_of(
            inv.stacks,
            r,
        ) by {
        lemma_total_take_amount(inv.stacks, resource, amount as nat, r);
        crate::inventory::lemma_total_drop_empty(t, r);
    }
    lemma_total_take_amount(inv.stacks, resource, amount as nat, resource);
    assert(stacks_unique(t)) by {
        assert forall|a: int, b: int| 0 <= a < b < t.len() implies t[a].resource
            != t[b].resource by {
            assert(t[a].resource == inv.stacks[a].resource);
            assert(t[b].resource == inv.stacks[b].resource);
        }
    }
    lemma_drop_empty_unique(t);
}

/// Removing a list of requirements keeps each resource in at most one stack.
pub proof fn lemma_remove_all_unique(inv: InventoryView, requirements: Seq<ResourceStack>)
    requires
        stacks_unique(inv.stacks),
    ensures
        stacks_unique(remove_all(inv, requirements).0.stacks),
    decreases requirements.len(),
{
    if requirements.len() > 0 {
        lemma_remove_unique(inv, requirements[0].resource, requirements[0].amount);
        let next = remove_spec(inv, requirements[0].resource, requirements[0].amount).0;
        lemma_remove_all_unique(next, requirements.drop_first());
    }
}

/// Consuming keeps each resource in at most one stack.
pub proof fn lemma_consume_unique(inv: InventoryView, requirements: Seq<ResourceStack>)
    requires
        stacks_unique(inv.stacks),
    ensures
        stacks_unique(consume_spec(inv, requirements).0.stacks),
{
    lemma_remove_all_unique(inv, requirements);
}

/// Adding a list of outputs keeps each resource in at most one stack.
pub proof fn lemma_add_all_unique(inv: InventoryView, outputs: Seq<ResourceStack>)
    requires
        stacks_unique(inv.stacks),
    ensures
        stacks_unique(add_all(inv, outputs).0.stacks),
    decreases outputs.len(),
{
    if outputs.len() > 0 {
        lemma_add_unique(inv, outputs[0].resource, outputs[0].amount);
        let next = add_spec(inv, outputs[0].resource, outputs[0].amount).0;
        lemma_add_all_unique(next, outputs.drop_first());
    }
}

/// Storing an inventory with one stack per resource keeps the table so.
pub proof fn lemma_store_unique(t: Entries<InventoryView>, k: Seq<char>, v: InventoryView)
    requires
        entries_sorted(t),
        inventories_unique(t),
        stacks_unique(v.stacks),
    ensures
        inventories_unique(store(t, k, v)),
        entries_sorted(store(t, k, v)),
{
    lemma_store(t, k, v);
    assert forall|k2: Seq<char>| #[trigger] lookup(store(t, k, v), k2) is Some implies stacks_unique(
        lookup(store(t, k, v), k2)->0.stacks,
    ) by {
        if k2 != k {
            assert(lookup(t, k2) is Some);
        }
    }
}

/// Adding an empty inventory for an actor keeps the table well formed.
pub proof fn lemma_with_inventory(t: Entries<InventoryView>, k: Seq<char>)
    requires
        entries_sorted(t),
        inventories_unique(t),
    ensures
        inventories_unique(with_inventory(t, k)),
        entries_sorted(with_inventory(t, k)),
        entry_index(with_inventory(t, k), k) >= 0,
        stacks_unique(lookup(with_inventory(t, k), k)->0.stacks),
        lookup(with_inventory(t, k), k) is Some,
{
    let d = empty_inventory(DEFAULT_INVENTORY_MAX_SLOTS);
    lemma_ensure_entry(t, k, d);
    lemma_lower_bound(t, k);
    assert(stacks_unique(d.stacks));
    assert(lookup(t, k) is Some ==> stacks_unique(lookup(t, k)->0.stacks));
    assert forall|k2: Seq<char>| #[trigger] lookup(with_inventory(t, k), k2) is Some implies stacks_unique(
        lookup(with_inventory(t, k), k2)->0.stacks,
    ) by {
        if k2 != k {
            assert(lookup(t, k2) is Some);
        }
    }
}

// ---------------------------------------------------------------------------
// The commands.
// ---------------------------------------------------------------------------

fn grant_resource(
    state: &mut GameplayState,
    index: usize,
    actor_id: &String,
    resource: ResourceKind,
    amount: u32,
    events: &mut Vec<SimulationEvent>,
)
    requires
        old(state).wf(),
    ensures
        final(state).wf(),
        final(state)@ == grant_spec(old(state)@, index as int, actor_id@, resource, amount).0,
        events_view(final(events)@) == events_view(old(events)@) + grant_spec(
            old(state)@,
            index as int,
            actor_id@,
            resource,
            amount,
        ).1,
{
    let ghost g = state@;
    proof {
        state.inventories.lemma_sorted();
    }
    let i = state.inventories.ensure_entry(actor_id, InventoryState::default());
    let ghost t = state.inventories@;
    let mut inventory = state.inventories.swap_value_at(i, InventoryState::new(0));
    let result = inventory.add_resource(resource, amount);
    state.inventories.set_value_at(i, inventory);
    proof {
        assert(state.inventories@ =~= store(t, actor_id@, inventory@));
    }
    let event = match result {
        Ok(()) => SimulationEvent::ResourceGranted { actor_id: actor_id.clone(), resource, amount },
        Err(InventoryOpError::NoFreeSlot) => SimulationEvent::Rejected {
            command_index: Some(index),
            reason: SimulationRejectReason::InventoryNoFreeSlot { actor_id: actor_id.clone() },
        },
        Err(_) => SimulationEvent::Rejected {
            command_index: Some(index),
            reason: SimulationRejectReason::InvalidAmount,
        },
    };
    let ghost before = events@;
    events.push(event);
    proof {
        lemma_events_push(before, event);
    }
}

fn queue_craft(
    state: &mut GameplayState,
    index: usize,
    actor_id: &String,
    recipe: RecipeKind,
    count: u16,
    events: &mut Vec<SimulationEvent>,
)
    requires
        old(state).wf(),
    ensures
        final(state).wf(),
        final(state)@ == queue_spec(old(state)@, index as int, actor_id@, recipe, count).0,
        events_view(final(events)@) == events_view(old(events)@) + queue_spec(
            old(state)@,
            index as int,
            actor_id@,
            recipe,
            count,
        ).1,
{
    let ghost before = events@;
    if count == 0 {
        let event = SimulationEvent::Rejected {
            command_index: Some(index),
            reason: SimulationRejectReason::InvalidAmount,
        };
        events.push(event);
        proof {
            lemma_events_push(before, event);
        }
        return;
    }
    let ghost g = state@;
    proof {
        state.craft_queues.lemma_sorted();
        lemma_ensure_entry(g.craft_queues, actor_id@, empty_queue());
        lemma_lower_bound(g.craft_queues, actor_id@);
    }
    let i = state.craft_queues.ensure_entry(actor_id, CraftQueueState::default());
    let ghost t = state.craft_queues@;
    let mut queue = state.craft_queues.swap_value_at(i, CraftQueueState::default());
    queue.pending.push(QueuedCraft { recipe, count });
    state.craft_queues.set_value_at(i, queue);
    proof {
        assert(state.craft_queues@ =~= store(t, actor_id@, queue@));
    }
    let event = SimulationEvent::CraftQueued { actor_id: actor_id.clone(), recipe, count };
    events.push(event);
    proof {
        lemma_events_push(before, event);
    }
}

fn register_combatant(
    state: &mut GameplayState,
    actor_id: &String,
    stats: CombatStats,
    events: &mut Vec<SimulationEvent>,
)
    requires
        old(state).wf(),
    ensures
        final(state).wf(),
        final(state)@ == register_spec(old(state)@, actor_id@, stats).0,
        events_view(final(events)@) == events_view(old(events)@) + register_spec(
            old(state)@,
            actor_id@,
            stats,
        ).1,
{
    let ghost g = state@;
    proof {
        state.combatants.lemma_sorted();
        lemma_lower_bound(g.combatants, actor_id@);
    }
    match state.combatants.index_of(actor_id.as_str()) {
        Some(i) => {
            state.combatants.set_value_at(i, stats);
            proof {
                assert(state.combatants@ =~= store(g.combatants, actor_id@, stats));
            }
        },
        None => {
            state.combatants.ensure_entry(actor_id, stats);
        },
    }
    let ghost before = events@;
    let event = SimulationEvent::CombatantRegistered { actor_id: actor_id.clone() };
    events.push(event);
    proof {
        lemma_events_push(before, event);
    }
}

fn deal_damage(
    state: &mut GameplayState,
    index: usize,
    target_id: &String,
    amount: u16,
    events: &mut Vec<SimulationEvent>,
)
    requires
        old(state).wf(),
    ensures
        final(state).wf(),
        final(state)@ == damage_spec(old(state)@, index as int, target_id@, amount).0,
        events_view(final(events)@) == events_view(old(events)@) + damage_spec(
            old(state)@,
            index as int,
            target_id@,
            amount,
        ).1,
{
    let ghost before = events@;
    let ghost g = state@;
    if amount == 0 {
        let event = SimulationEvent::Rejected {
            command_index: Some(index),
            reason: SimulationRejectReason::InvalidAmount,
        };
        events.push(event);
        proof {
            lemma_events_push(before, event);
        }
        return;
    }
    match state.combatants.index_of(target_id.as_str()) {
        None => {
            let event = SimulationEvent::Rejected {
                command_index: Some(index),
                reason: SimulationRejectReason::UnknownCombatant { target_id: target_id.clone() },
            };
            events.push(event);
            proof {
                lemma_events_push(before, event);
            }
        },
        Some(i) => {
            let mut stats = *state.combatants.value_at(i);
            let outcome = stats.apply_damage(amount);
            state.combatants.set_value_at(i, stats);
            proof {
                assert(state.combatants@ =~= store(g.combatants, target_id@, stats));
            }
            let event = SimulationEvent::DamageApplied {
                target_id: target_id.clone(),
                applied: outcome.applied,
                remaining_health: outcome.remaining_health,
                defeated: outcome.defeated,
            };
            events.push(event);
            proof {
                lemma_events_push(before, event);
            }
        },
    }
}

fn place_entity(
    state: &mut GameplayState,
    index: usize,
    actor_id: &String,
    kind: PlaceableKind,
    tile_x: i32,
    tile_y: i32,
    events: &mut Vec<SimulationEvent>,
)
    requires
        old(state).wf(),
    ensures
        final(state).wf(),
        final(state)@ == place_spec(old(state)@, index as int, *actor_id, kind, tile_x, tile_y).0,
        events_view(final(events)@) == events_view(old(events)@) + place_spec(
            old(state)@,
            index as int,
            *actor_id,
            kind,
            tile_x,
            tile_y,
        ).1,
{
    let ghost before = events@;
    let ghost g = state@;
    if tile_occupied(&state.placeables, tile_x, tile_y) {
        let event = SimulationEvent::Rejected {
            command_index: Some(index),
            reason: SimulationRejectReason::OccupiedTile { tile_x, tile_y },
        };
        events.push(event);
        proof {
            lemma_events_push(before, event);
        }
        return;
    }
    let build_cost = placeable_build_cost(kind);
    proof {
        state.inventories.lemma_sorted();
    }
    let i = state.inventories.ensure_entry(actor_id, InventoryState::default());
    let ghost t = state.inventories@;
    let mut inventory = state.inventories.swap_value_at(i, InventoryState::new(0));
    let result = inventory.consume_requirements(build_cost.as_slice());
    state.inventories.set_value_at(i, inventory);
    proof {
        assert(state.inventories@ =~= store(t, actor_id@, inventory@));
    }
    match result {
        Err(error) => {
            let event = SimulationEvent::Rejected {
                command_index: Some(index),
                reason: inventory_error_to_reject_reason(error, actor_id.clone()),
            };
            events.push(event);
            proof {
                lemma_events_push(before, event);
            }
        },
        Ok(()) => {
            let placeable_id = state.next_placeable_id;
            state.next_placeable_id = state.next_placeable_id.saturating_add(1);
            let max_health = placeable_max_health(kind);
            insert_placeable(
                &mut state.placeables,
                PlaceableEntity {
                    id: placeable_id,
                    owner_id: actor_id.clone(),
                    kind,
                    tile_x,
                    tile_y,
                    max_health,
                    health: max_health,
                },
            );
            let event = SimulationEvent::PlaceablePlaced {
                placeable_id,
                owner_id: actor_id.clone(),
                kind,
                tile_x,
                tile_y,
            };
            events.push(event);
            proof {
                lemma_events_push(before, event);
            }
        },
    }
}

fn inventory_error_to_reject_reason(error: InventoryOpError, actor_id: String) -> (reason:
    SimulationRejectReason)
    ensures
        reason@ == reject_for(error, actor_id@),
{
    match error {
        InventoryOpError::InvalidAmount => SimulationRejectReason::InvalidAmount,
        InventoryOpError::NoFreeSlot => SimulationRejectReason::InventoryNoFreeSlot { actor_id },
        InventoryOpError::InsufficientResource { resource, required, available } => {
            SimulationRejectReason::InsufficientResource { actor_id, resource, required, available }
        },
    }
}

// ---------------------------------------------------------------------------
// The crafting pass.
// ---------------------------------------------------------------------------

fn start_pending_craft(
    state: &mut GameplayState,
    actor_id: &String,
    events: &mut Vec<SimulationEvent>,
)
    requires
        old(state).wf(),
    ensures
        final(state).wf(),
        final(state)@ == start_spec(old(state)@, actor_id@).0,
        events_view(final(events)@) == events_view(old(events)@) + start_spec(
            old(state)@,
            actor_id@,
        ).1,
{
    let ghost g = state@;
    let ghost before = events@;
    proof {
        assert(events_view(before) + Seq::<EventView>::empty() =~= events_view(before));
    }
    let qi = match state.craft_queues.index_of(actor_id.as_str()) {
        Some(qi) => qi,
        None => {
            return;
        },
    };
    let next_recipe = {
        let queue = state.craft_queues.value_at(qi);
        if queue.active.is_some() {
            return;
        }
        queue.peek_recipe()
    };
    let recipe = match next_recipe {
        Some(recipe) => recipe,
        None => {
            return;
        },
    };
    let definition = recipe_definition(recipe);
    proof {
        state.inventories.lemma_sorted();
    }
    let i = state.inventories.ensure_entry(actor_id, InventoryState::default());
    let ghost t = state.inventories@;
    let mut inventory = state.inventories.swap_value_at(i, InventoryState::new(0));
    let can_start = inventory.can_afford(definition.inputs.as_slice());
    if !can_start {
        state.inventories.set_value_at(i, inventory);
        proof {
            assert(state.inventories@ =~= t);
        }
        return;
    }
    let consumed = inventory.consume_requirements(definition.inputs.as_slice());
    state.inventories.set_value_at(i, inventory);
    proof {
        assert(state.inventories@ =~= store(t, actor_id@, inventory@));
    }
    if consumed.is_err() {
        return;
    }
    let ghost q = g.craft_queues;
    let mut queue = state.craft_queues.swap_value_at(qi, CraftQueueState::default());
    let consumed_recipe = queue.consume_one_pending();
    match consumed_recipe {
        None => {
            state.craft_queues.set_value_at(qi, queue);
            proof {
                assert(state.craft_queues@ =~= store(q, actor_id@, queue@));
            }
        },
        Some(started) => {
            let remaining_ticks = if definition.craft_ticks > 1 {
                definition.craft_ticks
            } else {
                1
            };
            queue.active = Some(ActiveCraft { recipe: started, remaining_ticks });
            state.craft_queues.set_value_at(qi, queue);
            proof {
                assert(state.craft_queues@ =~= store(q, actor_id@, queue@));
            }
            let event = SimulationEvent::CraftStarted {
                actor_id: actor_id.clone(),
                recipe: started,
                remaining_ticks,
            };
            events.push(event);
            proof {
                lemma_events_push(before, event);
            }
        },
    }
}

fn advance_active_craft(
    state: &mut GameplayState,
    actor_id: &String,
    events: &mut Vec<SimulationEvent>,
)
    requires
        old(state).wf(),
    ensures
        final(state).wf(),
        final(state)@ == complete_spec(old(state)@, actor_id@).0,
        events_view(final(events)@) == events_view(old(events)@) + complete_spec(
            old(state)@,
            actor_id@,
        ).1,
{
    let ghost g = state@;
    let ghost before = events@;
    proof {
        assert(events_view(before) + Seq::<EventView>::empty() =~= events_view(before));
    }
    let qi = match state.craft_queues.index_of(actor_id.as_str()) {
        Some(qi) => qi,
        None => {
            return;
        },
    };
    let active = match state.craft_queues.value_at(qi).active {
        Some(active) => active,
        None => {
            return;
        },
    };
    let left = if active.remaining_ticks > 0 {
        active.remaining_ticks - 1
    } else {
        0
    };
    let mut queue = state.craft_queues.swap_value_at(qi, CraftQueueState::default());
    if left != 0 {
        queue.active = Some(ActiveCraft { recipe: active.recipe, remaining_ticks: left });
        state.craft_queues.set_value_at(qi, queue);
        proof {
            assert(state.craft_queues@ =~= store(g.craft_queues, actor_id@, queue@));
        }
        return;
    }
    queue.active = None;
    state.craft_queues.set_value_at(qi, queue);
    proof {
        assert(state.craft_queues@ =~= store(g.craft_queues, actor_id@, queue@));
    }
    let definition = recipe_definition(active.recipe);
    proof {
        state.inventories.lemma_sorted();
    }
    let i = state.inventories.ensure_entry(actor_id, InventoryState::default());
    let ghost t = state.inventories@;
    let mut inventory = state.inventories.swap_value_at(i, InventoryState::new(0));
    let ghost start = inventory@;
    let mut output_error: Option<InventoryOpError> = None;
    let mut j: usize = 0;
    proof {
        assert(definition.outputs@.skip(0) =~= definition.outputs@);
    }
    while j < definition.outputs.len() && output_error.is_none()
        invariant
            j <= definition.outputs@.len(),
            add_all(start, definition.outputs@) == (if output_error is None {
                add_all(inventory@, definition.outputs@.skip(j as int))
            } else {
                (inventory@, output_error)
            }),
        decreases definition.outputs@.len() - j,
    {
        let output = definition.outputs[j];
        proof {
            assert(definition.outputs@.skip(j as int).len() > 0);
            assert(definition.outputs@.skip(j as int)[0] == output);
            assert(definition.outputs@.skip(j as int).drop_first() =~= definition.outputs@.skip(j + 1));
        }
        match inventory.add_resource(output.resource, output.amount) {
            Ok(()) => {},
            Err(error) => {
                output_error = Some(error);
            },
        }
        j += 1;
    }
    proof {
        if output_error is None {
            assert(definition.outputs@.skip(j as int) =~= Seq::<ResourceStack>::empty());
        }
    }
    state.inventories.set_value_at(i, inventory);
    proof {
        assert(state.inventories@ =~= store(t, actor_id@, inventory@));
    }
    let event = match output_error {
        Some(error) => SimulationEvent::Rejected {
            command_index: None,
            reason: inventory_error_to_reject_reason(error, actor_id.clone()),
        },
        None => SimulationEvent::CraftCompleted { actor_id: actor_id.clone(), recipe: active.recipe },
    };
    events.push(event);
    proof {
        lemma_events_push(before, event);
    }
}

fn resolve_crafting(state: &mut GameplayState, events: &mut Vec<SimulationEvent>)
    requires
        old(state).wf(),
    ensures
        final(state).wf(),
        final(state)@ == resolve_actors(old(state)@, entry_keys(old(state).craft_queues@)).0,
        events_view(final(events)@) == events_view(old(events)@) + resolve_actors(
            old(state)@,
            entry_keys(old(state).craft_queues@),
        ).1,
{
    let actor_ids = state.craft_queues.keys();
    let ghost keys = entry_keys(state.craft_queues@);
    let ghost g0 = state@;
    let ghost e0 = events_view(events@);
    let mut n: usize = 0;
    proof {
        assert(keys.take(0) =~= Seq::<Seq<char>>::empty());
        assert(e0 + Seq::<EventView>::empty() =~= e0);
    }
    while n < actor_ids.len()
        invariant
            state.wf(),
            n <= actor_ids@.len(),
            actor_ids@.len() == keys.len(),
            forall|j: int| 0 <= j < keys.len() ==> #[trigger] actor_ids@[j]@ == keys[j],
            state@ == resolve_actors(g0, keys.take(n as int)).0,
            events_view(events@) == e0 + resolve_actors(g0, keys.take(n as int)).1,
        decreases actor_ids@.len() - n,
    {
        let ghost e_before = events_view(events@);
        proof {
            assert(keys.take(n + 1).drop_last() =~= keys.take(n as int));
            assert(keys.take(n + 1).last() == keys[n as int]);
            assert(actor_ids@[n as int]@ == keys[n as int]);
        }
        let ghost g1 = state@;
        start_pending_craft(state, &actor_ids[n], events);
        let ghost e_mid = events_view(events@);
        advance_active_craft(state, &actor_ids[n], events);
        proof {
            let (ga, ea) = resolve_actors(g0, keys.take(n as int));
            let (gb, eb) = start_spec(ga, keys[n as int]);
            let (gc, ec) = complete_spec(gb, keys[n as int]);
            assert(events_view(events@) =~= e0 + (ea + eb + ec));
        }
        n += 1;
    }
    proof {
        assert(keys.take(n as int) =~= keys);
    }
}

/// Runs one simulation step (see [`step_spec`]).
pub fn simulate_step(state: &mut GameplayState, input: SimulationStepInput) -> (output:
    SimulationStepOutput)
    requires
        old(state).wf(),
    ensures
        final(state).wf(),
        final(state)@ == step_spec(old(state)@, input).0,
        events_view(output.events@) == step_spec(old(state)@, input).1,
        output.schema_version == GAMEPLAY_SCHEMA_VERSION,
        output.tick == final(state).tick,
{
    let mut events: Vec<SimulationEvent> = Vec::new();
    let ghost g = state@;
    if state.schema_version != GAMEPLAY_SCHEMA_VERSION {
        let event = SimulationEvent::Rejected {
            command_index: None,
            reason: SimulationRejectReason::SchemaVersionMismatch {
                expected: GAMEPLAY_SCHEMA_VERSION,
                received: state.schema_version,
            },
        };
        events.push(event);
        proof {
            lemma_events_push(Seq::empty(), event);
            assert(events@ =~= seq![event]);
        }
        return SimulationStepOutput {
            schema_version: schema_version_default(),
            tick: state.tick,
            events,
        };
    }
    if input.schema_version != GAMEPLAY_SCHEMA_VERSION {
        let event = SimulationEvent::Rejected {
            command_index: None,
            reason: SimulationRejectReason::SchemaVersionMismatch {
                expected: GAMEPLAY_SCHEMA_VERSION,
                received: input.schema_version,
            },
        };
        events.push(event);
        proof {
            assert(events@ =~= seq![event]);
            assert(events_view(events@) =~= seq![event@]);
        }
        return SimulationStepOutput {
            schema_version: schema_version_default(),
            tick: state.tick,
            events,
        };
    }
    if input.tick <= state.tick {
        let event = SimulationEvent::Rejected {
            command_index: None,
            reason: SimulationRejectReason::TickNotAdvancing {
                last_tick: state.tick,
                received_tick: input.tick,
            },
        };
        events.push(event);
        proof {
            assert(events@ =~= seq![event]);
            assert(events_view(events@) =~= seq![event@]);
        }
        return SimulationStepOutput {
            schema_version: schema_version_default(),
            tick: state.tick,
            events,
        };
    }
    state.tick = input.tick;
    let ghost g1 = state@;
    let ghost commands = input.commands@;
    let mut index: usize = 0;
    proof {
        assert(commands.take(0) =~= Seq::<SimulationCommand>::empty());
        assert(events_view(events@) =~= Seq::<EventView>::empty());
    }
    while index < input.commands.len()
        invariant
            state.wf(),
            index <= commands.len(),
            commands == input.commands@,
            state@ == apply_commands(g1, commands.take(index as int)).0,
            events_view(events@) == apply_commands(g1, commands.take(index as int)).1,
        decreases commands.len() - index,
    {
        proof {
            assert(commands.take(index + 1).drop_last() =~= commands.take(index as int));
            assert(commands.take(index + 1).last() == commands[index as int]);
        }
        match &input.commands[index] {
            SimulationCommand::GrantResource { actor_id, resource, amount } => {
                grant_resource(state, index, actor_id, *resource, *amount, &mut events);
            },
            SimulationCommand::QueueCraft { actor_id, recipe, count } => {
                queue_craft(state, index, actor_id, *recipe, *count, &mut events);
            },
            SimulationCommand::RegisterCombatant { actor_id, stats } => {
                register_combatant(state, actor_id, *stats, &mut events);
            },
            SimulationCommand::DealDamage { target_id, amount } => {
                deal_damage(state, index, target_id, *amount, &mut events);
            },
            SimulationCommand::PlaceEntity { actor_id, kind, tile_x, tile_y } => {
                place_entity(state, index, actor_id, *kind, *tile_x, *tile_y, &mut events);
            },
        }
        index += 1;
    }
    proof {
        assert(commands.take(index as int) =~= commands);
    }
    let ghost e1 = events_view(events@);
    resolve_crafting(state, &mut events);
    SimulationStepOutput { schema_version: schema_version_default(), tick: state.tick, events }
}

} // verus!
