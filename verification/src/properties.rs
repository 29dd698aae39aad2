//! Properties that hold of the library as a whole: what inventory operations
//! do to the totals they keep, what a simulation step may and may not change,
//! how input batches are deduplicated, and which sanitizers are idempotent.

use vstd::prelude::*;
use crate::combat::{CombatStats, applied_damage, damaged};
use crate::crafting::{
    ActiveCraft, CraftQueueView, QueuedCraft, RecipeKind, consume_one_spec, recipe_inputs, recipe_outputs,
    recipe_ticks,
};
use crate::inventory::{
    InventoryView, ResourceKind, ResourceStack, add_spec, affordable, consume_spec, drop_empty, remove_all,
    first_index_of, remove_spec, stack_share, stacks_unique, take_amount, total_of, lemma_first_index_of, lemma_total_append,
    lemma_total_drop_empty, lemma_total_take_amount, lemma_unique_total_fits,
};
use crate::movement::InputState;
use crate::placement::{PlaceableEntity, PlaceableKind, build_cost, max_health_of, tile_taken};
use crate::protocol::{
    InputBatchOutcome, InputCommand, ProtocolFeature, batch_spec, command_input, envelope_valid_spec,
    route_spec,
};
use crate::room::{
    all_room_chars, character_id_spec, character_name_spec, is_room_char, player_id_spec,
    room_code_spec, upper,
};
use crate::text::{ascii_upper, byte_len, is_whitespace_spec, leading_whitespace, trailing_whitespace, trim};
use vstd::utf8::{is_ascii_chars, is_ascii_chars_encode_utf8};
use crate::actor_table::{entries_sorted, entry_keys, lookup, lemma_ensure_entry, lemma_store};
use crate::simulation::{
    EventView, GameplayView, SimulationCommand, SimulationStepInput, GAMEPLAY_SCHEMA_VERSION,
    add_all, apply_command, apply_commands, complete_spec, inventories_unique, resolve_actors,
    start_spec, step_spec, with_inventory, lemma_add_all_unique, lemma_add_unique,
    lemma_consume_unique, lemma_store_unique, lemma_with_inventory,
};

verus! {

// ---------------------------------------------------------------------------
// Inventories
// ---------------------------------------------------------------------------

/// The total of a resource after one stack is replaced.
proof fn lemma_total_update(s: Seq<ResourceStack>, i: int, x: ResourceStack, r: ResourceKind)
    requires
        0 <= i < s.len(),
    ensures
        total_of(s.update(i, x), r) + stack_share(s[i], r) == total_of(s, r) + stack_share(x, r),
    decreases s.len(),
{
    if i > 0 {
        lemma_total_update(s.drop_first(), i - 1, x, r);
        assert(s.update(i, x).drop_first() =~= s.drop_first().update(i - 1, x));
    } else {
        assert(s.update(i, x).drop_first() =~= s.drop_first());
    }
}

/// The total of a resource after one stack is appended.
proof fn lemma_total_push(s: Seq<ResourceStack>, x: ResourceStack, r: ResourceKind)
    ensures
        total_of(s.push(x), r) == total_of(s, r) + stack_share(x, r),
{
    lemma_total_append(s, seq![x], r);
    assert(s.push(x) =~= s + seq![x]);
    assert(seq![x].drop_first() =~= Seq::<ResourceStack>::empty());
    assert(total_of(Seq::<ResourceStack>::empty(), r) == 0);
    assert(total_of(seq![x], r) == stack_share(x, r));
}

/// Adding to an inventory that keeps one stack per resource raises that
/// resource's total by the amount, saturating at `u32::MAX`, and leaves every
/// other total as it was; a refused addition leaves the inventory unchanged.
pub proof fn add_changes_only_its_total(
    inv: InventoryView,
    resource: ResourceKind,
    amount: u32,
    other: ResourceKind,
)
    requires
        stacks_unique(inv.stacks),
    ensures
        add_spec(inv, resource, amount).1 is Err ==> add_spec(inv, resource, amount).0 == inv,
        add_spec(inv, resource, amount).1 is Ok ==> total_of(
            add_spec(inv, resource, amount).0.stacks,
            resource,
        ) == (if total_of(inv.stacks, resource) + amount > u32::MAX {
            u32::MAX as int
        } else {
            total_of(inv.stacks, resource) + amount
        }),
        other != resource ==> total_of(add_spec(inv, resource, amount).0.stacks, other) == total_of(
            inv.stacks,
            other,
        ),
{
    lemma_first_index_of(inv.stacks, resource);
    lemma_unique_total_fits(inv.stacks, resource);
    if amount > 0 {
        let i = first_index_of(inv.stacks, resource);
        if i >= 0 {
            let merged = ResourceStack {
                resource,
                amount: inv.stacks[i].amount.saturating_add(amount),
            };
            lemma_total_update(inv.stacks, i, merged, resource);
            lemma_total_update(inv.stacks, i, merged, other);
        } else if inv.stacks.len() < inv.max_slots {
            let fresh = ResourceStack { resource, amount };
            lemma_total_push(inv.stacks, fresh, resource);
            lemma_total_push(inv.stacks, fresh, other);
        }
    }
}

/// Removing succeeds exactly when the amount is positive and the inventory
/// holds that much; it then lowers that resource's total by exactly the amount
/// and leaves every other total as it was. A refused removal leaves the
/// inventory unchanged.
pub proof fn remove_takes_exactly_the_amount(
    inv: InventoryView,
    resource: ResourceKind,
    amount: u32,
    other: ResourceKind,
)
    ensures
        remove_spec(inv, resource, amount).1 is Ok <==> amount > 0 && total_of(inv.stacks, resource)
            >= amount,
        remove_spec(inv, resource, amount).1 is Err ==> remove_spec(inv, resource, amount).0 == inv,
        remove_spec(inv, resource, amount).1 is Ok ==> total_of(
            remove_spec(inv, resource, amount).0.stacks,
            resource,
        ) == total_of(inv.stacks, resource) - amount,
        other != resource ==> total_of(remove_spec(inv, resource, amount).0.stacks, other)
            == total_of(inv.stacks, other),
{
    let taken = take_amount(inv.stacks, resource, amount as nat);
    lemma_total_take_amount(inv.stacks, resource, amount as nat, other);
    lemma_total_take_amount(inv.stacks, resource, amount as nat, resource);
    lemma_total_drop_empty(taken, resource);
    lemma_total_drop_empty(taken, other);
}

/// Removing what was just added gives every resource its former total back.
pub proof fn remove_undoes_add(
    inv: InventoryView,
    resource: ResourceKind,
    amount: u32,
    any: ResourceKind,
)
    requires
        stacks_unique(inv.stacks),
        add_spec(inv, resource, amount).1 is Ok,
        total_of(inv.stacks, resource) + amount <= u32::MAX,
    ensures
        remove_spec(add_spec(inv, resource, amount).0, resource, amount).1 is Ok,
        total_of(remove_spec(add_spec(inv, resource, amount).0, resource, amount).0.stacks, any)
            == total_of(inv.stacks, any),
{
    let added = add_spec(inv, resource, amount).0;
    add_changes_only_its_total(inv, resource, amount, any);
    add_changes_only_its_total(inv, resource, amount, resource);
    remove_takes_exactly_the_amount(added, resource, amount, any);
    remove_takes_exactly_the_amount(added, resource, amount, resource);
}

proof fn lemma_take_nothing(s: Seq<ResourceStack>, r: ResourceKind)
    ensures
        take_amount(s, r, 0) == s,
    decreases s.len(),
{
    if s.len() > 0 {
        lemma_take_nothing(s.drop_first(), r);
        assert(seq![s[0]] + s.drop_first() =~= s);
    }
}

/// Taking no more than the first stack of `r` holds comes out of that stack.
proof fn lemma_take_from_first(s: Seq<ResourceStack>, r: ResourceKind, i: int, rem: nat)
    requires
        0 <= i < s.len(),
        s[i].resource == r,
        forall|j: int| 0 <= j < i ==> #[trigger] s[j].resource != r,
        0 < rem <= s[i].amount,
    ensures
        take_amount(s, r, rem) == s.update(i, ResourceStack { resource: r, amount: (s[i].amount - rem) as u32 }),
    decreases s.len(),
{
    let rest = s.drop_first();
    let x = ResourceStack { resource: r, amount: (s[i].amount - rem) as u32 };
    if i == 0 {
        lemma_take_nothing(rest, r);
        assert(seq![x] + rest =~= s.update(0, x));
    } else {
        assert forall|j: int| 0 <= j < i - 1 implies #[trigger] rest[j].resource != r by {
            assert(rest[j] == s[j + 1]);
        }
        lemma_take_from_first(rest, r, i - 1, rem);
        assert(seq![s[0]] + rest.update(i - 1, x) =~= s.update(i, x));
    }
}

proof fn lemma_drop_empty_push(s: Seq<ResourceStack>, x: ResourceStack)
    ensures
        drop_empty(s.push(x)) == drop_empty(s) + (if x.amount > 0 {
            seq![x]
        } else {
            Seq::<ResourceStack>::empty()
        }),
    decreases s.len(),
{
    if s.len() == 0 {
        assert(s.push(x).drop_first() =~= Seq::<ResourceStack>::empty());
        assert(drop_empty(Seq::<ResourceStack>::empty()) =~= Seq::<ResourceStack>::empty());
        assert(seq![x] + Seq::<ResourceStack>::empty() =~= seq![x]);
        assert(Seq::<ResourceStack>::empty() + seq![x] =~= seq![x]);
        assert(Seq::<ResourceStack>::empty() + Seq::<ResourceStack>::empty() =~= Seq::<ResourceStack>::empty());
    } else {
        assert(s.push(x).drop_first() =~= s.drop_first().push(x));
        lemma_drop_empty_push(s.drop_first(), x);
        let tail = if x.amount > 0 { seq![x] } else { Seq::<ResourceStack>::empty() };
        assert(seq![s[0]] + (drop_empty(s.drop_first()) + tail) =~= (seq![s[0]] + drop_empty(s.drop_first())) + tail);
    }
}

proof fn lemma_drop_empty_positive(s: Seq<ResourceStack>)
    requires
        forall|i: int| 0 <= i < s.len() ==> #[trigger] s[i].amount > 0,
    ensures
        drop_empty(s) == s,
    decreases s.len(),
{
    if s.len() > 0 {
        assert forall|i: int| 0 <= i < s.drop_first().len() implies #[trigger] s.drop_first()[i].amount > 0 by {
            assert(s.drop_first()[i] == s[i + 1]);
        }
        lemma_drop_empty_positive(s.drop_first());
        assert(seq![s[0]] + s.drop_first() =~= s);
    }
}

/// Removing what was just added gives back exactly the inventory before,
/// stacks and their order included, when no stack was empty and the total
/// stayed within `u32`.
pub proof fn remove_restores_after_add(inv: InventoryView, resource: ResourceKind, amount: u32)
    requires
        forall|i: int| 0 <= i < inv.stacks.len() ==> #[trigger] inv.stacks[i].amount > 0,
        total_of(inv.stacks, resource) + amount <= u32::MAX,
        add_spec(inv, resource, amount).1 is Ok,
    ensures
        remove_spec(add_spec(inv, resource, amount).0, resource, amount) == (inv, Ok::<(), crate::inventory::InventoryOpError>(())),
{
    let s = inv.stacks;
    let added = add_spec(inv, resource, amount).0;
    lemma_first_index_of(s, resource);
    lemma_add_shape(inv, resource, amount);
    let i = first_index_of(s, resource);
    if i >= 0 {
        let zero = ResourceStack { resource, amount: 0 };
        lemma_total_update(s, i, zero, resource);
        let grown = added.stacks;
        assert(grown[i].amount == s[i].amount + amount);
        lemma_total_update(s, i, grown[i], resource);
        assert forall|j: int| 0 <= j < i implies #[trigger] grown[j].resource != resource by {
            assert(grown[j] == s[j]);
        }
        lemma_take_from_first(grown, resource, i, amount as nat);
        assert(grown.update(i, ResourceStack { resource, amount: (grown[i].amount - amount) as u32 }) =~= s);
        lemma_drop_empty_positive(s);
    } else {
        let x = ResourceStack { resource, amount };
        let grown = s.push(x);
        assert forall|j: int| 0 <= j < s.len() implies #[trigger] grown[j].resource != resource by {
            assert(grown[j] == s[j]);
        }
        lemma_total_push(s, x, resource);
        lemma_take_from_first(grown, resource, s.len() as int, amount as nat);
        let z = ResourceStack { resource, amount: 0 };
        assert(grown.update(s.len() as int, z) =~= s.push(z));
        lemma_drop_empty_push(s, z);
        lemma_drop_empty_positive(s);
        assert(s + Seq::<ResourceStack>::empty() =~= s);
    }
}

/// What a successful add does to the stacks: a merge into the first stack of
/// the resource, or a new stack at the end.
proof fn lemma_add_shape(inv: InventoryView, resource: ResourceKind, amount: u32)
    ensures
        add_spec(inv, resource, amount).1 is Ok && first_index_of(inv.stacks, resource) >= 0 ==> add_spec(
            inv,
            resource,
            amount,
        ).0.stacks == inv.stacks.update(
            first_index_of(inv.stacks, resource),
            ResourceStack {
                resource,
                amount: inv.stacks[first_index_of(inv.stacks, resource)].amount.saturating_add(amount),
            },
        ),
        add_spec(inv, resource, amount).1 is Ok && first_index_of(inv.stacks, resource) < 0 ==> add_spec(
            inv,
            resource,
            amount,
        ).0.stacks == inv.stacks.push(ResourceStack { resource, amount }),
        add_spec(inv, resource, amount).1 is Ok ==> amount > 0 && add_spec(inv, resource, amount).0.max_slots == inv.max_slots,
{
}

/// No two requirements name the same resource, and none asks for nothing.
pub open spec fn requirements_proper(requirements: Seq<ResourceStack>) -> bool {
    &&& stacks_unique(requirements)
    &&& forall|i: int| 0 <= i < requirements.len() ==> #[trigger] requirements[i].amount > 0
}

proof fn lemma_remove_all_totals(
    inv: InventoryView,
    requirements: Seq<ResourceStack>,
    r: ResourceKind,
)
    requires
        requirements_proper(requirements),
        affordable(inv.stacks, requirements),
    ensures
        remove_all(inv, requirements).1 is Ok,
        total_of(remove_all(inv, requirements).0.stacks, r) == total_of(inv.stacks, r) - total_of(
            requirements,
            r,
        ),
    decreases requirements.len(),
{
    if requirements.len() > 0 {
        let first = requirements[0];
        let rest = requirements.drop_first();
        let next = remove_spec(inv, first.resource, first.amount).0;
        assert(total_of(inv.stacks, first.resource) >= first.amount);
        remove_takes_exactly_the_amount(inv, first.resource, first.amount, r);
        assert(requirements_proper(rest)) by {
            assert forall|i: int, j: int| 0 <= i < j < rest.len() implies rest[i].resource
                != rest[j].resource by {
                assert(rest[i] == requirements[i + 1]);
                assert(rest[j] == requirements[j + 1]);
            }
            assert forall|i: int| 0 <= i < rest.len() implies #[trigger] rest[i].amount > 0 by {
                assert(rest[i] == requirements[i + 1]);
            }
        }
        assert(affordable(next.stacks, rest)) by {
            assert forall|j: int| 0 <= j < rest.len() implies total_of(
                next.stacks,
                #[trigger] rest[j].resource,
            ) >= rest[j].amount by {
                assert(rest[j] == requirements[j + 1]);
                assert(requirements[0].resource != requirements[j + 1].resource);
                remove_takes_exactly_the_amount(inv, first.resource, first.amount, rest[j].resource);
            }
        }
        lemma_remove_all_totals(next, rest, r);
        if r == first.resource {
            lemma_first_index_of(rest, r);
            lemma_unique_total_fits(rest, r);
            assert forall|j: int| 0 <= j < rest.len() implies rest[j].resource != r by {
                assert(rest[j] == requirements[j + 1]);
            }
        }
    }
}

/// Consuming requirements that name distinct resources, each a positive
/// amount, from an inventory that covers them all succeeds and lowers every
/// resource's total by exactly what the requirements ask of it; a refused
/// consumption leaves the inventory unchanged.
pub proof fn consume_takes_exactly_the_requirements(
    inv: InventoryView,
    requirements: Seq<ResourceStack>,
    r: ResourceKind,
)
    ensures
        !affordable(inv.stacks, requirements) ==> consume_spec(inv, requirements).1 is Err
            && consume_spec(inv, requirements).0 == inv,
        requirements_proper(requirements) && affordable(inv.stacks, requirements) ==> {
            &&& consume_spec(inv, requirements).1 is Ok
            &&& total_of(consume_spec(inv, requirements).0.stacks, r) == total_of(inv.stacks, r)
                - total_of(requirements, r)
        },
{
    if requirements_proper(requirements) && affordable(inv.stacks, requirements) {
        lemma_remove_all_totals(inv, requirements, r);
    }
}

// ---------------------------------------------------------------------------
// Combat and crafting
// ---------------------------------------------------------------------------

/// Damage never heals: health falls by exactly the damage applied, which is
/// the incoming damage less armor, capped by the health left; the other
/// statistics stay as they were, and health stays within its maximum.
pub proof fn damage_never_heals(stats: CombatStats, incoming: u16)
    ensures
        damaged(stats, incoming).health + applied_damage(stats, incoming) == stats.health,
        applied_damage(stats, incoming) <= incoming,
        incoming >= stats.armor + stats.health ==> damaged(stats, incoming).health == 0,
        damaged(stats, incoming).max_health == stats.max_health,
        damaged(stats, incoming).attack_power == stats.attack_power,
        damaged(stats, incoming).armor == stats.armor,
        stats.health <= stats.max_health ==> damaged(stats, incoming).health <= stats.max_health,
{
}

/// The number of craft units waiting in a pending list.
pub open spec fn units_pending(pending: Seq<QueuedCraft>) -> nat
    decreases pending.len(),
{
    if pending.len() == 0 {
        0
    } else {
        pending[0].count as nat + units_pending(pending.drop_first())
    }
}

/// Taking a unit from a craft queue succeeds exactly when a unit is waiting,
/// and then leaves exactly one unit fewer.
pub proof fn consuming_a_unit_takes_one(pending: Seq<QueuedCraft>)
    ensures
        consume_one_spec(pending).1 is Some <==> units_pending(pending) > 0,
        consume_one_spec(pending).1 is Some ==> units_pending(consume_one_spec(pending).0) + 1
            == units_pending(pending),
        consume_one_spec(pending).1 is None ==> consume_one_spec(pending).0.len() == 0,
    decreases pending.len(),
{
    if pending.len() > 0 {
        if pending[0].count == 0 {
            consuming_a_unit_takes_one(pending.drop_first());
        } else if pending[0].count > 1 {
            let rest = pending.update(0, QueuedCraft { recipe: pending[0].recipe, count: (pending[0].count - 1) as u16 });
            assert(rest.drop_first() =~= pending.drop_first());
        }
    }
}

// ---------------------------------------------------------------------------
// Simulation steps
// ---------------------------------------------------------------------------

/// Every placed structure is stored under its own identifier, and no two
/// structures stand on the same tile.
pub open spec fn placeables_consistent(placeables: Map<u64, PlaceableEntity>) -> bool {
    &&& forall|id: u64| #[trigger] placeables.contains_key(id) ==> placeables[id].id == id
    &&& forall|a: u64, b: u64|
        #![trigger placeables.contains_key(a), placeables.contains_key(b)]
        placeables.contains_key(a) && placeables.contains_key(b) && a != b ==> (placeables[a].tile_x
            != placeables[b].tile_x || placeables[a].tile_y != placeables[b].tile_y)
}

proof fn lemma_command_keeps(g: GameplayView, index: int, command: SimulationCommand)
    ensures
        apply_command(g, index, command).0.tick == g.tick,
        apply_command(g, index, command).0.schema_version == g.schema_version,
        apply_command(g, index, command).1.len() == 1,
        placeables_consistent(g.placeables) ==> placeables_consistent(
            apply_command(g, index, command).0.placeables,
        ),
{
    match command {
        SimulationCommand::PlaceEntity { actor_id, kind, tile_x, tile_y } => {
            let after = apply_command(g, index, command).0;
            if placeables_consistent(g.placeables) && after.placeables != g.placeables {
                let old_p = g.placeables;
                let id = g.next_placeable_id;
                let p = after.placeables;
                assert(!tile_taken(old_p, tile_x, tile_y));
                assert(p == old_p.insert(id, p[id]));
                assert(p[id].id == id && p[id].tile_x == tile_x && p[id].tile_y == tile_y);
                assert forall|a: u64, b: u64|
                    p.contains_key(a) && p.contains_key(b) && a != b implies (p[a].tile_x
                    != p[b].tile_x || p[a].tile_y != p[b].tile_y) by {
                    if a == id {
                        assert(old_p.contains_key(b));
                        if p[b].tile_x == tile_x && p[b].tile_y == tile_y {
                            assert(old_p[b].tile_x == tile_x && old_p[b].tile_y == tile_y);
                            assert(tile_taken(old_p, tile_x, tile_y));
                        }
                    } else if b == id {
                        assert(old_p.contains_key(a));
                        if p[a].tile_x == tile_x && p[a].tile_y == tile_y {
                            assert(old_p[a].tile_x == tile_x && old_p[a].tile_y == tile_y);
                            assert(tile_taken(old_p, tile_x, tile_y));
                        }
                    } else {
                        assert(old_p.contains_key(a) && old_p.contains_key(b));
                    }
                }
            }
        },
        _ => {},
    }
}

proof fn lemma_commands_keep(g: GameplayView, commands: Seq<SimulationCommand>)
    ensures
        apply_commands(g, commands).0.tick == g.tick,
        apply_commands(g, commands).0.schema_version == g.schema_version,
        apply_commands(g, commands).1.len() == commands.len(),
        placeables_consistent(g.placeables) ==> placeables_consistent(
            apply_commands(g, commands).0.placeables,
        ),
    decreases commands.len(),
{
    if commands.len() > 0 {
        lemma_commands_keep(g, commands.drop_last());
        let g1 = apply_commands(g, commands.drop_last()).0;
        lemma_command_keeps(g1, commands.len() - 1, commands.last());
    }
}

proof fn lemma_crafting_keeps(g: GameplayView, actors: Seq<Seq<char>>)
    ensures
        resolve_actors(g, actors).0.tick == g.tick,
        resolve_actors(g, actors).0.schema_version == g.schema_version,
        resolve_actors(g, actors).0.placeables == g.placeables,
        resolve_actors(g, actors).0.next_placeable_id == g.next_placeable_id,
    decreases actors.len(),
{
    if actors.len() > 0 {
        lemma_crafting_keeps(g, actors.drop_last());
        let g1 = resolve_actors(g, actors.drop_last()).0;
        let g2 = start_spec(g1, actors.last()).0;
        assert(g2.tick == g1.tick && g2.schema_version == g1.schema_version);
        assert(g2.placeables == g1.placeables && g2.next_placeable_id == g1.next_placeable_id);
        let g3 = complete_spec(g2, actors.last()).0;
        assert(g3.tick == g2.tick && g3.schema_version == g2.schema_version);
        assert(g3.placeables == g2.placeables && g3.next_placeable_id == g2.next_placeable_id);
    }
}

proof fn lemma_command_keeps_unique(g: GameplayView, index: int, command: SimulationCommand)
    requires
        entries_sorted(g.inventories),
        inventories_unique(g.inventories),
    ensures
        entries_sorted(apply_command(g, index, command).0.inventories),
        inventories_unique(apply_command(g, index, command).0.inventories),
{
    match command {
        SimulationCommand::GrantResource { actor_id, resource, amount } => {
            let k = actor_id@;
            lemma_with_inventory(g.inventories, k);
            let t = with_inventory(g.inventories, k);
            lemma_add_unique(lookup(t, k)->0, resource, amount);
            lemma_store_unique(t, k, add_spec(lookup(t, k)->0, resource, amount).0);
        },
        SimulationCommand::PlaceEntity { actor_id, kind, tile_x, tile_y } => {
            if !tile_taken(g.placeables, tile_x, tile_y) {
                let k = actor_id@;
                lemma_with_inventory(g.inventories, k);
                let t = with_inventory(g.inventories, k);
                let cost = crate::placement::build_cost(kind);
                lemma_consume_unique(lookup(t, k)->0, cost);
                lemma_store_unique(t, k, consume_spec(lookup(t, k)->0, cost).0);
            }
        },
        _ => {},
    }
}

proof fn lemma_commands_keep_unique(g: GameplayView, commands: Seq<SimulationCommand>)
    requires
        entries_sorted(g.inventories),
        inventories_unique(g.inventories),
    ensures
        entries_sorted(apply_commands(g, commands).0.inventories),
        inventories_unique(apply_commands(g, commands).0.inventories),
    decreases commands.len(),
{
    if commands.len() > 0 {
        lemma_commands_keep_unique(g, commands.drop_last());
        let g1 = apply_commands(g, commands.drop_last()).0;
        lemma_command_keeps_unique(g1, commands.len() - 1, commands.last());
    }
}

proof fn lemma_crafting_keeps_unique(g: GameplayView, actors: Seq<Seq<char>>)
    requires
        entries_sorted(g.inventories),
        inventories_unique(g.inventories),
    ensures
        entries_sorted(resolve_actors(g, actors).0.inventories),
        inventories_unique(resolve_actors(g, actors).0.inventories),
    decreases actors.len(),
{
    if actors.len() > 0 {
        lemma_crafting_keeps_unique(g, actors.drop_last());
        let g1 = resolve_actors(g, actors.drop_last()).0;
        let k = actors.last();
        lemma_with_inventory(g1.inventories, k);
        let t1 = with_inventory(g1.inventories, k);
        if let Some(q) = lookup(g1.craft_queues, k) {
            if q.active is None && q.pending.len() > 0 {
                let inputs = crate::crafting::recipe_inputs(q.pending[0].recipe);
                lemma_consume_unique(lookup(t1, k)->0, inputs);
                lemma_store_unique(t1, k, consume_spec(lookup(t1, k)->0, inputs).0);
            }
        }
        let g2 = start_spec(g1, k).0;
        assert(entries_sorted(g2.inventories) && inventories_unique(g2.inventories));
        lemma_with_inventory(g2.inventories, k);
        let t2 = with_inventory(g2.inventories, k);
        if let Some(q) = lookup(g2.craft_queues, k) {
            if let Some(a) = q.active {
                let outputs = crate::crafting::recipe_outputs(a.recipe);
                lemma_add_all_unique(lookup(t2, k)->0, outputs);
                lemma_store_unique(t2, k, add_all(lookup(t2, k)->0, outputs).0);
            }
        }
    }
}

/// A step never splits a resource over two stacks: if every inventory held
/// each resource in at most one stack before, so does every inventory after.
pub proof fn step_keeps_stacks_unique(g: GameplayView, input: SimulationStepInput)
    requires
        entries_sorted(g.inventories),
        inventories_unique(g.inventories),
    ensures
        inventories_unique(step_spec(g, input).0.inventories),
{
    if g.schema_version == GAMEPLAY_SCHEMA_VERSION && input.schema_version
        == GAMEPLAY_SCHEMA_VERSION && input.tick > g.tick {
        let g0 = GameplayView { tick: input.tick, ..g };
        lemma_commands_keep_unique(g0, input.commands@);
        let g1 = apply_commands(g0, input.commands@).0;
        lemma_crafting_keeps_unique(g1, entry_keys(g1.craft_queues));
    }
}

/// A fresh room has no structures, so it trivially keeps them consistent;
/// with [`step_keeps_tiles_distinct`], so does every room that only ever
/// went through steps.
pub proof fn fresh_room_is_consistent()
    ensures
        placeables_consistent(crate::simulation::initial_gameplay().placeables),
{
}

/// An event reports a placed structure.
pub open spec fn is_placed(event: EventView) -> bool {
    event is PlaceablePlaced
}

/// The number of placements that a list of events reports.
pub open spec fn placed_count(events: Seq<EventView>) -> nat
    decreases events.len(),
{
    if events.len() == 0 {
        0
    } else {
        placed_count(events.drop_last()) + (if is_placed(events.last()) {
            1nat
        } else {
            0nat
        })
    }
}

/// The placement that `event` reports was asked for by `command` and stands
/// in `placeables` under `id`, as placed: the command's owner, kind and tile,
/// at the full health of its kind.
pub open spec fn placement_recorded(
    event: EventView,
    command: SimulationCommand,
    id: u64,
    placeables: Map<u64, PlaceableEntity>,
) -> bool {
    match event {
        EventView::PlaceablePlaced { placeable_id, owner_id, kind, tile_x, tile_y } => match command {
            SimulationCommand::PlaceEntity { actor_id, kind: asked_kind, tile_x: x, tile_y: y } => {
                &&& placeable_id == id
                &&& actor_id@ == owner_id
                &&& asked_kind == kind
                &&& x == tile_x
                &&& y == tile_y
                &&& placeables.contains_key(id)
                &&& placeables[id] == PlaceableEntity {
                    id,
                    owner_id: actor_id,
                    kind,
                    tile_x,
                    tile_y,
                    max_health: max_health_of(kind),
                    health: max_health_of(kind),
                }
            },
            _ => false,
        },
        _ => false,
    }
}

proof fn lemma_placed_count_append(a: Seq<EventView>, b: Seq<EventView>)
    ensures
        placed_count(a + b) == placed_count(a) + placed_count(b),
    decreases b.len(),
{
    if b.len() == 0 {
        assert(a + b =~= a);
    } else {
        assert((a + b).drop_last() =~= a + b.drop_last());
        lemma_placed_count_append(a, b.drop_last());
    }
}

proof fn lemma_placed_count_bound(events: Seq<EventView>)
    ensures
        placed_count(events) <= events.len(),
    decreases events.len(),
{
    if events.len() > 0 {
        lemma_placed_count_bound(events.drop_last());
    }
}

proof fn lemma_placed_count_zero(events: Seq<EventView>)
    requires
        placed_count(events) == 0,
    ensures
        forall|i: int| 0 <= i < events.len() ==> !is_placed(#[trigger] events[i]),
    decreases events.len(),
{
    if events.len() > 0 {
        lemma_placed_count_zero(events.drop_last());
        assert forall|i: int| 0 <= i < events.len() implies !is_placed(#[trigger] events[i]) by {
            if i < events.len() - 1 {
                assert(events[i] == events.drop_last()[i]);
            }
        }
    }
}

/// What one command does to the structures: a placement inserts a fresh
/// entry under the counter, which then advances; anything else leaves the
/// structures and the counter alone.
proof fn lemma_command_placement(h: GameplayView, index: int, command: SimulationCommand)
    ensures
        apply_command(h, index, command).1.len() == 1,
        !is_placed(apply_command(h, index, command).1[0]) ==> {
            &&& apply_command(h, index, command).0.placeables == h.placeables
            &&& apply_command(h, index, command).0.next_placeable_id == h.next_placeable_id
        },
        is_placed(apply_command(h, index, command).1[0]) ==> {
            &&& placement_recorded(
                apply_command(h, index, command).1[0],
                command,
                h.next_placeable_id,
                apply_command(h, index, command).0.placeables,
            )
            &&& apply_command(h, index, command).0.placeables == h.placeables.insert(
                h.next_placeable_id,
                apply_command(h, index, command).0.placeables[h.next_placeable_id],
            )
            &&& apply_command(h, index, command).0.next_placeable_id == h.next_placeable_id.saturating_add(1)
        },
{
}

proof fn lemma_recorded_insert(
    event: EventView,
    command: SimulationCommand,
    id: u64,
    p: Map<u64, PlaceableEntity>,
    k: u64,
    v: PlaceableEntity,
)
    requires
        placement_recorded(event, command, id, p),
        !p.contains_key(k),
    ensures
        placement_recorded(event, command, id, p.insert(k, v)),
{
}

/// Every structure's identifier is below the counter.
pub open spec fn ids_below_counter(placeables: Map<u64, PlaceableEntity>, next_id: u64) -> bool {
    forall|k: u64| #[trigger] placeables.contains_key(k) ==> k < next_id
}

#[verifier::rlimit(40)]
proof fn lemma_commands_placement(g: GameplayView, commands: Seq<SimulationCommand>)
    requires
        placeables_consistent(g.placeables),
        g.placeables.dom().finite(),
        ids_below_counter(g.placeables, g.next_placeable_id),
        g.next_placeable_id + commands.len() < u64::MAX,
    ensures
        ({
            let (g2, events) = apply_commands(g, commands);
            &&& events.len() == commands.len()
            &&& placeables_consistent(g2.placeables)
            &&& g2.placeables.dom().finite()
            &&& ids_below_counter(g2.placeables, g2.next_placeable_id)
            &&& g2.next_placeable_id == g.next_placeable_id + placed_count(events)
            &&& g2.placeables.dom().len() == g.placeables.dom().len() + placed_count(events)
            &&& forall|k: u64| #[trigger] g.placeables.contains_key(k) ==> g2.placeables.contains_key(k)
                && g2.placeables[k] == g.placeables[k]
            &&& forall|i: int|
                0 <= i < events.len() && is_placed(#[trigger] events[i]) ==> placement_recorded(
                    events[i],
                    commands[i],
                    (g.next_placeable_id + placed_count(events.take(i))) as u64,
                    g2.placeables,
                )
        }),
    decreases commands.len(),
{
    if commands.len() > 0 {
        let n = commands.len() - 1;
        let prefix = commands.drop_last();
        lemma_commands_placement(g, prefix);
        lemma_commands_keep(g, prefix);
        let (g1, e1) = apply_commands(g, prefix);
        let command = commands.last();
        lemma_command_placement(g1, n, command);
        lemma_command_keeps(g1, n, command);
        let (g2, ev) = apply_command(g1, n, command);
        let events = e1 + ev;
        assert(apply_commands(g, commands) == (g2, events));
        lemma_placed_count_append(e1, ev);
        assert(ev.drop_last() =~= Seq::<EventView>::empty());
        assert(placed_count(Seq::<EventView>::empty()) == 0);
        assert(ev.last() == ev[0]);
        assert(placed_count(ev) == (if is_placed(ev[0]) { 1nat } else { 0nat }));
        assert forall|i: int| 0 <= i < n implies #[trigger] commands[i] == prefix[i] by {}
        assert forall|i: int| 0 <= i <= n implies #[trigger] events.take(i) == e1.take(i) by {
            assert(events.take(i) =~= e1.take(i));
        }
        assert(e1.take(n) =~= e1);
        lemma_placed_count_bound(e1);
        if is_placed(ev[0]) {
            let id1 = g1.next_placeable_id;
            assert(!g1.placeables.contains_key(id1));
            assert(g2.next_placeable_id == id1 + 1);
            assert forall|k: u64| #[trigger] g2.placeables.contains_key(k) implies k < g2.next_placeable_id by {
                if k != id1 {
                    assert(g1.placeables.contains_key(k));
                }
            }
            assert forall|i: int|
                0 <= i < events.len() && is_placed(#[trigger] events[i]) implies placement_recorded(
                events[i],
                commands[i],
                (g.next_placeable_id + placed_count(events.take(i))) as u64,
                g2.placeables,
            ) by {
                if i < n {
                    assert(events[i] == e1[i]);
                    lemma_recorded_insert(
                        e1[i],
                        prefix[i],
                        (g.next_placeable_id + placed_count(e1.take(i))) as u64,
                        g1.placeables,
                        id1,
                        g2.placeables[id1],
                    );
                } else {
                    assert(events[i] == ev[0]);
                }
            }
            assert(g2.placeables.dom() =~= g1.placeables.dom().insert(id1));
        } else {
            assert forall|i: int|
                0 <= i < events.len() && is_placed(#[trigger] events[i]) implies placement_recorded(
                events[i],
                commands[i],
                (g.next_placeable_id + placed_count(events.take(i))) as u64,
                g2.placeables,
            ) by {
                if i < n {
                    assert(events[i] == e1[i]);
                } else {
                    assert(events[i] == ev[0]);
                }
            }
        }
    }
}

proof fn lemma_crafting_places_nothing(g: GameplayView, actors: Seq<Seq<char>>)
    ensures
        placed_count(resolve_actors(g, actors).1) == 0,
    decreases actors.len(),
{
    if actors.len() > 0 {
        lemma_crafting_places_nothing(g, actors.drop_last());
        let (g1, e1) = resolve_actors(g, actors.drop_last());
        let (g2, e2) = start_spec(g1, actors.last());
        let e3 = complete_spec(g2, actors.last()).1;
        assert(e2.len() <= 1 && (e2.len() == 1 ==> !is_placed(e2[0])));
        assert(e3.len() <= 1 && (e3.len() == 1 ==> !is_placed(e3[0])));
        assert(e2.len() == 1 ==> e2.drop_last() =~= Seq::<EventView>::empty() && e2.last() == e2[0]);
        assert(e3.len() == 1 ==> e3.drop_last() =~= Seq::<EventView>::empty() && e3.last() == e3[0]);
        assert(placed_count(Seq::<EventView>::empty()) == 0);
        lemma_placed_count_append(e1, e2);
        lemma_placed_count_append(e1 + e2, e3);
    }
}

/// An accepted step places structures in command order under consecutive
/// identifiers: it keeps every identifier below the counter, advances the
/// counter by exactly the number of placements it reports, adds exactly that
/// many structures and leaves every earlier one as it was; and each
/// placement it reports was asked for by the command at that position, got
/// the counter's value at that moment, and stands with the command's owner,
/// kind and tile at the full health of its kind. (The counter must not reach
/// `u64::MAX` within the step, where it would stop advancing.)
pub proof fn step_places_structures_in_order(g: GameplayView, input: SimulationStepInput)
    requires
        g.schema_version == GAMEPLAY_SCHEMA_VERSION,
        input.schema_version == GAMEPLAY_SCHEMA_VERSION,
        input.tick > g.tick,
        placeables_consistent(g.placeables),
        g.placeables.dom().finite(),
        ids_below_counter(g.placeables, g.next_placeable_id),
        g.next_placeable_id + input.commands@.len() < u64::MAX,
    ensures
        ({
            let (g2, events) = step_spec(g, input);
            &&& placeables_consistent(g2.placeables)
            &&& ids_below_counter(g2.placeables, g2.next_placeable_id)
            &&& g2.next_placeable_id == g.next_placeable_id + placed_count(events)
            &&& g2.placeables.dom().len() == g.placeables.dom().len() + placed_count(events)
            &&& forall|k: u64| #[trigger] g.placeables.contains_key(k) ==> g2.placeables.contains_key(k)
                && g2.placeables[k] == g.placeables[k]
            &&& forall|i: int|
                0 <= i < events.len() && is_placed(#[trigger] events[i]) ==> {
                    &&& i < input.commands@.len()
                    &&& placement_recorded(
                        events[i],
                        input.commands@[i],
                        (g.next_placeable_id + placed_count(events.take(i))) as u64,
                        g2.placeables,
                    )
                }
        }),
{
    let g0 = GameplayView { tick: input.tick, ..g };
    lemma_commands_placement(g0, input.commands@);
    let (g1, e1) = apply_commands(g0, input.commands@);
    let actors = entry_keys(g1.craft_queues);
    lemma_crafting_keeps(g1, actors);
    lemma_crafting_places_nothing(g1, actors);
    let (g2, e2) = resolve_actors(g1, actors);
    let events = e1 + e2;
    assert(step_spec(g, input) == (g2, events));
    lemma_placed_count_append(e1, e2);
    lemma_placed_count_zero(e2);
    assert forall|i: int| 0 <= i < events.len() && is_placed(#[trigger] events[i]) implies {
        &&& i < input.commands@.len()
        &&& placement_recorded(
            events[i],
            input.commands@[i],
            (g.next_placeable_id + placed_count(events.take(i))) as u64,
            g2.placeables,
        )
    } by {
        if i >= e1.len() {
            assert(events[i] == e2[i - e1.len()]);
        } else {
            assert(events[i] == e1[i]);
            assert(events.take(i) =~= e1.take(i));
        }
    }
}

/// A refused step (a state or input of another schema version, or an input
/// whose tick does not advance past the state's) leaves the state exactly as
/// it was and reports a single rejection that names no command.
pub proof fn refused_step_changes_nothing(g: GameplayView, input: SimulationStepInput)
    requires
        g.schema_version != GAMEPLAY_SCHEMA_VERSION || input.schema_version
            != GAMEPLAY_SCHEMA_VERSION || input.tick <= g.tick,
    ensures
        step_spec(g, input).0 == g,
        step_spec(g, input).1.len() == 1,
        step_spec(g, input).1[0] matches EventView::Rejected { command_index, .. }
            && command_index is None,
{
}

/// A step keeps the schema version and never moves the clock back; an
/// accepted step sets the clock to the input's tick, and answers each of its
/// commands with exactly one event before the crafting pass reports.
pub proof fn step_advances_clock(g: GameplayView, input: SimulationStepInput)
    ensures
        step_spec(g, input).0.schema_version == g.schema_version,
        step_spec(g, input).0.tick >= g.tick,
        g.schema_version == GAMEPLAY_SCHEMA_VERSION && input.schema_version
            == GAMEPLAY_SCHEMA_VERSION && input.tick > g.tick ==> {
            &&& step_spec(g, input).0.tick == input.tick
            &&& step_spec(g, input).1.len() >= input.commands@.len()
            &&& step_spec(g, input).1.take(input.commands@.len() as int) == apply_commands(
                GameplayView { tick: input.tick, ..g },
                input.commands@,
            ).1
        },
{
    if g.schema_version == GAMEPLAY_SCHEMA_VERSION && input.schema_version
        == GAMEPLAY_SCHEMA_VERSION && input.tick > g.tick {
        let g0 = GameplayView { tick: input.tick, ..g };
        lemma_commands_keep(g0, input.commands@);
        let (g1, e1) = apply_commands(g0, input.commands@);
        lemma_crafting_keeps(g1, crate::actor_table::entry_keys(g1.craft_queues));
        let e2 = resolve_actors(g1, crate::actor_table::entry_keys(g1.craft_queues)).1;
        assert((e1 + e2).take(e1.len() as int) =~= e1);
    }
}

/// A step keeps every structure under its own identifier and never puts two
/// structures on one tile.
pub proof fn step_keeps_tiles_distinct(g: GameplayView, input: SimulationStepInput)
    requires
        placeables_consistent(g.placeables),
    ensures
        placeables_consistent(step_spec(g, input).0.placeables),
{
    if g.schema_version == GAMEPLAY_SCHEMA_VERSION && input.schema_version
        == GAMEPLAY_SCHEMA_VERSION && input.tick > g.tick {
        let g0 = GameplayView { tick: input.tick, ..g };
        lemma_commands_keep(g0, input.commands@);
        let g1 = apply_commands(g0, input.commands@).0;
        lemma_crafting_keeps(g1, crate::actor_table::entry_keys(g1.craft_queues));
    }
}

/// The step is a function of the model of the state and of the input: two
/// states with the same model, given the same input, end with the same model
/// and report the same events.
pub proof fn step_is_deterministic(g1: GameplayView, g2: GameplayView, input: SimulationStepInput)
    requires
        g1 == g2,
    ensures
        step_spec(g1, input) == step_spec(g2, input),
{
}

// ---------------------------------------------------------------------------
// Input batches
// ---------------------------------------------------------------------------

/// After a batch, the last taken sequence number is at least the one before
/// and at least that of every input of the batch.
pub proof fn batch_sequence_never_goes_back(
    last_input_seq: u32,
    current: InputState,
    inputs: Seq<InputCommand>,
)
    ensures
        batch_spec(last_input_seq, current, inputs).last_input_seq >= last_input_seq,
        forall|i: int|
            0 <= i < inputs.len() ==> #[trigger] inputs[i].seq <= batch_spec(
                last_input_seq,
                current,
                inputs,
            ).last_input_seq,
    decreases inputs.len(),
{
    if inputs.len() > 0 {
        let earlier = inputs.drop_last();
        batch_sequence_never_goes_back(last_input_seq, current, earlier);
        assert forall|i: int| 0 <= i < inputs.len() - 1 implies #[trigger] inputs[i].seq
            <= batch_spec(last_input_seq, current, earlier).last_input_seq by {
            assert(inputs[i] == earlier[i]);
        }
    }
}

/// The largest sequence number of a batch (0 for an empty one).
pub open spec fn max_seq(inputs: Seq<InputCommand>) -> u32
    decreases inputs.len(),
{
    if inputs.len() == 0 {
        0
    } else if inputs.last().seq > max_seq(inputs.drop_last()) {
        inputs.last().seq
    } else {
        max_seq(inputs.drop_last())
    }
}

proof fn lemma_max_seq(inputs: Seq<InputCommand>)
    ensures
        forall|i: int| 0 <= i < inputs.len() ==> #[trigger] inputs[i].seq <= max_seq(inputs),
        inputs.len() > 0 ==> exists|i: int| 0 <= i < inputs.len() && #[trigger] inputs[i].seq == max_seq(inputs),
    decreases inputs.len(),
{
    if inputs.len() > 0 {
        let prefix = inputs.drop_last();
        lemma_max_seq(prefix);
        assert forall|i: int| 0 <= i < inputs.len() - 1 implies #[trigger] inputs[i].seq <= max_seq(inputs) by {
            assert(inputs[i] == prefix[i]);
        }
        if inputs.last().seq <= max_seq(prefix) && prefix.len() > 0 {
            let w = choose|w: int| 0 <= w < prefix.len() && #[trigger] prefix[w].seq == max_seq(prefix);
            assert(inputs[w] == prefix[w]);
        }
    }
}

/// A batch ends with the larger of the previous sequence number and the
/// batch's largest; it is accepted exactly when some input is newer than the
/// previous number, and then the player's input is that of the first input
/// carrying the largest number; otherwise the input stays as it was.
pub proof fn batch_takes_the_newest(
    last_input_seq: u32,
    current: InputState,
    inputs: Seq<InputCommand>,
)
    ensures
        ({
            let out = batch_spec(last_input_seq, current, inputs);
            &&& out.last_input_seq == (if max_seq(inputs) > last_input_seq {
                max_seq(inputs)
            } else {
                last_input_seq
            })
            &&& out.accepted <==> exists|i: int| 0 <= i < inputs.len() && #[trigger] inputs[i].seq > last_input_seq
            &&& out.accepted ==> exists|i: int|
                0 <= i < inputs.len() && #[trigger] inputs[i].seq == out.last_input_seq
                    && command_input(inputs[i]) == out.input && forall|j: int|
                    0 <= j < i ==> #[trigger] inputs[j].seq < out.last_input_seq
            &&& !out.accepted ==> out.input == current
        }),
    decreases inputs.len(),
{
    if inputs.len() > 0 {
        let prefix = inputs.drop_last();
        let n = inputs.len() - 1;
        batch_takes_the_newest(last_input_seq, current, prefix);
        lemma_max_seq(prefix);
        let before = batch_spec(last_input_seq, current, prefix);
        let out = batch_spec(last_input_seq, current, inputs);
        assert(inputs.last() == inputs[n]);
        assert forall|j: int| 0 <= j < n implies #[trigger] inputs[j] == prefix[j] by {}
        if inputs[n].seq > before.last_input_seq {
            assert forall|j: int| 0 <= j < n implies #[trigger] inputs[j].seq < out.last_input_seq by {
                assert(inputs[j] == prefix[j]);
                assert(prefix[j].seq <= max_seq(prefix));
            }
        } else {
            if before.accepted {
                let w = choose|w: int|
                    0 <= w < prefix.len() && #[trigger] prefix[w].seq == before.last_input_seq
                        && command_input(prefix[w]) == before.input && forall|j: int|
                        0 <= j < w ==> #[trigger] prefix[j].seq < before.last_input_seq;
                assert(inputs[w] == prefix[w]);
                assert forall|j: int| 0 <= j < w implies #[trigger] inputs[j].seq < out.last_input_seq by {
                    assert(inputs[j] == prefix[j]);
                }
            }
            if exists|i: int| 0 <= i < inputs.len() && #[trigger] inputs[i].seq > last_input_seq {
                let i = choose|i: int| 0 <= i < inputs.len() && #[trigger] inputs[i].seq > last_input_seq;
                if i < n {
                    assert(prefix[i].seq > last_input_seq);
                } else {
                    assert(max_seq(prefix) > last_input_seq);
                    if prefix.len() > 0 {
                        let w = choose|w: int| 0 <= w < prefix.len() && #[trigger] prefix[w].seq == max_seq(prefix);
                        assert(prefix[w].seq > last_input_seq);
                    }
                }
            }
        }
        if before.accepted {
            let w = choose|w: int| 0 <= w < prefix.len() && #[trigger] prefix[w].seq > last_input_seq;
            assert(inputs[w] == prefix[w]);
        }
    }
}

proof fn lemma_stale_batch(last_input_seq: u32, current: InputState, inputs: Seq<InputCommand>)
    requires
        forall|i: int| 0 <= i < inputs.len() ==> #[trigger] inputs[i].seq <= last_input_seq,
    ensures
        batch_spec(last_input_seq, current, inputs) == (InputBatchOutcome {
            last_input_seq,
            input: current,
            accepted: false,
        }),
    decreases inputs.len(),
{
    if inputs.len() > 0 {
        let earlier = inputs.drop_last();
        assert forall|i: int| 0 <= i < earlier.len() implies #[trigger] earlier[i].seq
            <= last_input_seq by {
            assert(earlier[i] == inputs[i]);
        }
        lemma_stale_batch(last_input_seq, current, earlier);
        assert(inputs.last() == inputs[inputs.len() - 1]);
    }
}

/// Delivering the same batch again changes nothing: no input of it is taken a
/// second time, and the player's sequence number and input stay as the first
/// delivery left them.
pub proof fn batch_replay_is_ignored(
    last_input_seq: u32,
    current: InputState,
    inputs: Seq<InputCommand>,
)
    ensures
        ({
            let first = batch_spec(last_input_seq, current, inputs);
            batch_spec(first.last_input_seq, first.input, inputs) == InputBatchOutcome {
                accepted: false,
                ..first
            }
        }),
{
    let first = batch_spec(last_input_seq, current, inputs);
    batch_sequence_never_goes_back(last_input_seq, current, inputs);
    lemma_stale_batch(first.last_input_seq, first.input, inputs);
}

// ---------------------------------------------------------------------------
// Sanitizers
// ---------------------------------------------------------------------------

proof fn lemma_leading(s: Seq<char>)
    ensures
        leading_whitespace(s) <= s.len(),
        leading_whitespace(s) < s.len() ==> !is_whitespace_spec(s[leading_whitespace(s) as int]),
    decreases s.len(),
{
    if s.len() > 0 && is_whitespace_spec(s[0]) {
        let rest = s.drop_first();
        lemma_leading(rest);
        if leading_whitespace(rest) < rest.len() {
            assert(rest[leading_whitespace(rest) as int] == s[leading_whitespace(s) as int]);
        }
    }
}

proof fn lemma_trailing(s: Seq<char>)
    ensures
        trailing_whitespace(s) <= s.len(),
        trailing_whitespace(s) < s.len() ==> !is_whitespace_spec(
            s[s.len() - 1 - trailing_whitespace(s)],
        ),
    decreases s.len(),
{
    if s.len() > 0 && is_whitespace_spec(s.last()) {
        let rest = s.drop_last();
        lemma_trailing(rest);
        if trailing_whitespace(rest) < rest.len() {
            assert(rest[rest.len() - 1 - trailing_whitespace(rest)] == s[s.len() - 1
                - trailing_whitespace(s)]);
        }
    }
}

/// A text that neither starts nor ends with whitespace is its own trim.
proof fn lemma_trim_of_trimmed(s: Seq<char>)
    requires
        s.len() > 0 ==> !is_whitespace_spec(s[0]) && !is_whitespace_spec(s.last()),
    ensures
        trim(s) == s,
{
    if s.len() > 0 {
        assert(leading_whitespace(s) == 0);
        assert(trailing_whitespace(s) == 0);
        assert(s.subrange(0, s.len() as int) =~= s);
    } else {
        assert(trim(s) =~= s);
    }
}

/// Trimming twice is trimming once.
pub proof fn trim_is_idempotent(s: Seq<char>)
    ensures
        trim(trim(s)) == trim(s),
{
    lemma_leading(s);
    lemma_trailing(s);
    let t = trim(s);
    if t.len() > 0 {
        let start = leading_whitespace(s) as int;
        let end = s.len() - trailing_whitespace(s);
        assert(t[0] == s[start]);
        assert(t.last() == s[end - 1]);
    }
    lemma_trim_of_trimmed(t);
}

proof fn lemma_room_chars_trimmed(s: Seq<char>)
    requires
        all_room_chars(s),
    ensures
        trim(s) == s,
{
    if s.len() > 0 {
        assert(is_room_char(s[0]));
        assert(is_room_char(s[s.len() - 1]));
    }
    lemma_trim_of_trimmed(s);
}

/// A sanitized room code is accepted unchanged.
pub proof fn room_code_is_idempotent(input: Seq<char>)
    ensures
        room_code_spec(input) matches Some(code) ==> room_code_spec(code) == Some(code),
{
    if let Some(code) = room_code_spec(input) {
        lemma_room_chars_trimmed(code);
        assert(upper(code) =~= code) by {
            assert forall|i: int| 0 <= i < code.len() implies #[trigger] upper(code)[i]
                == code[i] by {
                let c = trim(input)[i];
                assert(code[i] == ascii_upper(c));
                if 'a' <= c <= 'z' {
                    assert(!('a' <= ascii_upper(c) <= 'z'));
                }
            }
        }
    }
}

/// A sanitized player identifier is accepted unchanged.
pub proof fn player_id_is_idempotent(input: Seq<char>)
    ensures
        player_id_spec(input) matches Some(id) ==> player_id_spec(id) == Some(id),
{
    if let Some(id) = player_id_spec(input) {
        lemma_room_chars_trimmed(id);
    }
}

/// A sanitized character identifier is accepted unchanged.
pub proof fn character_id_is_idempotent(input: Seq<char>)
    ensures
        character_id_spec(input) matches Some(id) ==> character_id_spec(id) == Some(id),
{
    trim_is_idempotent(input);
}

/// A sanitized character name is accepted unchanged.
pub proof fn character_name_is_idempotent(input: Seq<char>)
    ensures
        character_name_spec(input) matches Some(name) ==> character_name_spec(name) == Some(name),
{
    trim_is_idempotent(input);
}

// ---------------------------------------------------------------------------
// What single commands and checks are for
// ---------------------------------------------------------------------------

/// How much of `resource` an actor holds in a table of inventories (nothing
/// when it has no inventory).
pub open spec fn held(t: crate::actor_table::Entries<InventoryView>, actor: Seq<char>, resource: ResourceKind) -> nat {
    match lookup(t, actor) {
        Some(inv) => total_of(inv.stacks, resource),
        None => 0,
    }
}

proof fn lemma_build_cost_proper(kind: PlaceableKind)
    ensures
        requirements_proper(build_cost(kind)),
{
}

/// A refused placement (occupied tile, or a cost the actor cannot cover)
/// charges nothing: every total of the actor's inventory stays as it was. A
/// placement that goes through charges exactly the build cost. Other actors'
/// inventories are untouched either way.
pub proof fn refused_placement_charges_nothing(
    g: GameplayView,
    index: int,
    actor: String,
    kind: PlaceableKind,
    tile_x: i32,
    tile_y: i32,
    resource: ResourceKind,
)
    requires
        entries_sorted(g.inventories),
    ensures
        ({
            let command = SimulationCommand::PlaceEntity { actor_id: actor, kind, tile_x, tile_y };
            let (g2, events) = apply_command(g, index, command);
            &&& events[0] is Rejected ==> held(g2.inventories, actor@, resource) == held(
                g.inventories,
                actor@,
                resource,
            )
            &&& events[0] is PlaceablePlaced ==> held(g2.inventories, actor@, resource) + total_of(
                build_cost(kind),
                resource,
            ) == held(g.inventories, actor@, resource)
            &&& events[0] is Rejected || events[0] is PlaceablePlaced
            &&& forall|other: Seq<char>|
                other != actor@ ==> #[trigger] lookup(g2.inventories, other) == lookup(g.inventories, other)
        }),
{
    let k = actor@;
    if !tile_taken(g.placeables, tile_x, tile_y) {
        let d = crate::inventory::empty_inventory(crate::inventory::DEFAULT_INVENTORY_MAX_SLOTS);
        lemma_ensure_entry(g.inventories, k, d);
        let t = with_inventory(g.inventories, k);
        let inv = lookup(t, k)->0;
        assert(total_of(d.stacks, resource) == 0);
        lemma_store(t, k, consume_spec(inv, build_cost(kind)).0);
        lemma_build_cost_proper(kind);
        consume_takes_exactly_the_requirements(inv, build_cost(kind), resource);
    }
}

/// Damage that lands is kept: after a hit on a registered combatant the
/// stored health is the remaining health the event reports, lowered from
/// the health before by exactly the damage applied, which is the incoming
/// damage less armor, capped by the health left. A positive hit on a
/// registered combatant always lands; nobody else's statistics change.
pub proof fn damage_is_stored(g: GameplayView, index: int, target: String, amount: u16)
    requires
        entries_sorted(g.combatants),
    ensures
        ({
            let (g2, events) = apply_command(
                g,
                index,
                SimulationCommand::DealDamage { target_id: target, amount },
            );
            &&& amount > 0 && lookup(g.combatants, target@) is Some ==> events[0] is DamageApplied
            &&& events[0] matches EventView::DamageApplied { applied, remaining_health, defeated, .. } ==> {
                &&& lookup(g.combatants, target@) is Some
                &&& lookup(g2.combatants, target@) is Some
                &&& lookup(g2.combatants, target@)->0.health == remaining_health
                &&& applied + remaining_health == lookup(g.combatants, target@)->0.health
                &&& applied == (if amount <= lookup(g.combatants, target@)->0.armor {
                    0
                } else if amount - lookup(g.combatants, target@)->0.armor < lookup(
                    g.combatants,
                    target@,
                )->0.health {
                    amount - lookup(g.combatants, target@)->0.armor
                } else {
                    lookup(g.combatants, target@)->0.health as int
                })
                &&& defeated == (remaining_health == 0)
                &&& lookup(g2.combatants, target@)->0.max_health == lookup(g.combatants, target@)->0.max_health
                &&& lookup(g2.combatants, target@)->0.armor == lookup(g.combatants, target@)->0.armor
            }
            &&& !(events[0] is DamageApplied) ==> g2.combatants == g.combatants
            &&& forall|other: Seq<char>|
                other != target@ ==> #[trigger] lookup(g2.combatants, other) == lookup(g.combatants, other)
        }),
{
    if amount > 0 && lookup(g.combatants, target@) is Some {
        let stats = lookup(g.combatants, target@)->0;
        lemma_store(g.combatants, target@, damaged(stats, amount));
    }
}

/// What waits in an actor's craft queue (nothing when it has none).
pub open spec fn pending_of(t: crate::actor_table::Entries<CraftQueueView>, actor: Seq<char>) -> Seq<QueuedCraft> {
    match lookup(t, actor) {
        Some(q) => q.pending,
        None => Seq::empty(),
    }
}

proof fn lemma_units_pending_push(pending: Seq<QueuedCraft>, x: QueuedCraft)
    ensures
        units_pending(pending.push(x)) == units_pending(pending) + x.count,
    decreases pending.len(),
{
    if pending.len() > 0 {
        assert(pending.push(x)[0] == pending[0]);
        assert(pending.push(x).drop_first() =~= pending.drop_first().push(x));
        lemma_units_pending_push(pending.drop_first(), x);
    } else {
        assert(pending.push(x)[0] == x);
        assert(pending.push(x).drop_first() =~= Seq::<QueuedCraft>::empty());
        assert(units_pending(Seq::<QueuedCraft>::empty()) == 0);
    }
}

/// Queueing a positive count appends exactly the command's recipe and count
/// to the actor's pending crafts, so the units waiting grow by that count,
/// and leaves the active craft and other actors' queues alone; a zero count
/// is refused and changes no queue.
pub proof fn queued_crafts_wait_in_order(
    g: GameplayView,
    index: int,
    actor: String,
    recipe: RecipeKind,
    count: u16,
)
    requires
        entries_sorted(g.craft_queues),
    ensures
        ({
            let (g2, events) = apply_command(
                g,
                index,
                SimulationCommand::QueueCraft { actor_id: actor, recipe, count },
            );
            &&& count == 0 ==> g2.craft_queues == g.craft_queues && events[0] is Rejected
            &&& count > 0 ==> {
                &&& lookup(g2.craft_queues, actor@) is Some
                &&& pending_of(g2.craft_queues, actor@) == pending_of(g.craft_queues, actor@).push(
                    QueuedCraft { recipe, count },
                )
                &&& units_pending(pending_of(g2.craft_queues, actor@)) == units_pending(
                    pending_of(g.craft_queues, actor@),
                ) + count
                &&& lookup(g.craft_queues, actor@) is Some ==> lookup(g2.craft_queues, actor@)->0.active
                    == lookup(g.craft_queues, actor@)->0.active
                &&& lookup(g.craft_queues, actor@) is None ==> lookup(g2.craft_queues, actor@)->0.active is None
                &&& events[0] matches EventView::CraftQueued { actor_id, recipe: r, count: c }
                    && actor_id == actor@ && r == recipe && c == count
            }
            &&& forall|other: Seq<char>|
                other != actor@ ==> #[trigger] lookup(g2.craft_queues, other) == lookup(g.craft_queues, other)
        }),
{
    if count > 0 {
        let k = actor@;
        let e = crate::crafting::empty_queue();
        lemma_ensure_entry(g.craft_queues, k, e);
        let t = crate::actor_table::ensure_entry(g.craft_queues, k, e);
        let q = lookup(t, k)->0;
        let q2 = CraftQueueView { pending: q.pending.push(QueuedCraft { recipe, count }), active: q.active };
        lemma_store(t, k, q2);
        lemma_units_pending_push(q.pending, QueuedCraft { recipe, count });
    }
}

/// The characters a player identifier may hold: ASCII letters of either
/// case, digits, `_` and `-`.
pub open spec fn player_id_char(c: char) -> bool {
    ('0' <= c && c <= '9') || ('A' <= c && c <= 'Z') || ('a' <= c && c <= 'z') || c == '_' || c == '-'
}

proof fn lemma_ascii_len(s: Seq<char>)
    requires
        is_ascii_chars(s),
    ensures
        byte_len(s) == s.len(),
{
    is_ascii_chars_encode_utf8(s);
}

/// Any 3 to 120 letters (of either case), digits, `_` and `-` form a player
/// identifier that is accepted unchanged, and so is the same identifier
/// with a space on each side, which is trimmed off.
pub proof fn player_ids_are_accepted(s: Seq<char>)
    requires
        3 <= s.len() <= 120,
        forall|i: int| 0 <= i < s.len() ==> player_id_char(#[trigger] s[i]),
    ensures
        player_id_spec(s) == Some(s),
        player_id_spec(seq![' '] + s + seq![' ']) == Some(s),
{
    assert forall|i: int| 0 <= i < s.len() implies is_room_char(#[trigger] s[i]) by {
        assert(player_id_char(s[i]));
    }
    assert(all_room_chars(s));
    lemma_room_chars_trimmed(s);
    assert forall|i: int| 0 <= i < s.len() implies '\0' <= #[trigger] s[i] && s[i] <= '\u{7f}' by {
        assert(player_id_char(s[i]));
    }
    lemma_ascii_len(s);
    let padded = seq![' '] + s + seq![' '];
    assert(padded.drop_first() =~= s + seq![' ']);
    assert(leading_whitespace(s + seq![' ']) == 0) by {
        assert((s + seq![' '])[0] == s[0]);
        assert(player_id_char(s[0]));
    }
    assert(leading_whitespace(padded) == 1);
    assert(padded.drop_last() =~= seq![' '] + s);
    assert(trailing_whitespace(seq![' '] + s) == 0) by {
        assert((seq![' '] + s).last() == s[s.len() - 1]);
        assert(player_id_char(s[s.len() - 1]));
    }
    assert(trailing_whitespace(padded) == 1);
    assert(padded.subrange(1, padded.len() - 1) =~= s);
}

/// An action name of 1 to 32 lower-case letters and `_` is a protocol
/// identifier that fits an envelope.
proof fn lemma_action_name(s: Seq<char>)
    requires
        1 <= s.len() <= 32,
        forall|i: int| 0 <= i < s.len() ==> ('a' <= #[trigger] s[i] && s[i] <= 'z') || s[i] == '_',
    ensures
        crate::room::identifier_spec(s),
        byte_len(s) <= 32,
{
    assert forall|i: int| 0 <= i < s.len() implies is_room_char(#[trigger] s[i]) by {}
    lemma_room_chars_trimmed(s);
    assert forall|i: int| 0 <= i < s.len() implies '\0' <= #[trigger] s[i] && s[i] <= '\u{7f}' by {}
    lemma_ascii_len(s);
    assert forall|i: int| 0 <= i < s.len() implies crate::room::is_identifier_char(#[trigger] s[i]) by {}
}

/// Every action that some feature routes to a handler fits an envelope: an
/// envelope of the current version, with a positive sequence number and a
/// finite client time, that names it is valid.
pub proof fn routed_actions_fit_envelopes(feature: ProtocolFeature, action: Seq<char>, seq: u32)
    requires
        route_spec(feature, action) is Ok,
        seq >= 1,
    ensures
        envelope_valid_spec(crate::protocol::PROTOCOL_VERSION, seq, action, true),
{
    reveal_strlit("ping");
    reveal_strlit("input_batch");
    reveal_strlit("place");
    reveal_strlit("preview");
    reveal_strlit("remove");
    reveal_strlit("fire");
    reveal_strlit("move");
    reveal_strlit("split");
    reveal_strlit("start");
    reveal_strlit("cancel");
    reveal_strlit("queue");
    reveal_strlit("attack");
    reveal_strlit("set_profile");
    reveal_strlit("set_active");
    lemma_action_name(action);
}

/// Adding to any inventory, whether or not it splits resources over
/// stacks: success exactly when the amount is positive and the resource
/// already has a stack or a slot is free; the resource's total then rises by
/// the amount (when that stays within `u32`), and no other total moves.
pub proof fn add_raises_its_total(inv: InventoryView, resource: ResourceKind, amount: u32, other: ResourceKind)
    ensures
        add_spec(inv, resource, amount).1 is Ok <==> amount > 0 && (first_index_of(inv.stacks, resource) >= 0
            || inv.stacks.len() < inv.max_slots),
        add_spec(inv, resource, amount).1 is Err ==> add_spec(inv, resource, amount).0 == inv,
        add_spec(inv, resource, amount).1 is Ok && total_of(inv.stacks, resource) + amount <= u32::MAX
            ==> total_of(add_spec(inv, resource, amount).0.stacks, resource) == total_of(inv.stacks, resource)
            + amount,
        other != resource ==> total_of(add_spec(inv, resource, amount).0.stacks, other) == total_of(
            inv.stacks,
            other,
        ),
        add_spec(inv, resource, amount).0.max_slots == inv.max_slots,
{
    let s = inv.stacks;
    lemma_first_index_of(s, resource);
    if amount > 0 {
        let i = first_index_of(s, resource);
        if i >= 0 {
            let zero = ResourceStack { resource, amount: 0 };
            lemma_total_update(s, i, zero, resource);
            let merged = ResourceStack { resource, amount: s[i].amount.saturating_add(amount) };
            lemma_total_update(s, i, merged, resource);
            lemma_total_update(s, i, merged, other);
        } else if s.len() < inv.max_slots {
            let fresh = ResourceStack { resource, amount };
            lemma_total_push(s, fresh, resource);
            lemma_total_push(s, fresh, other);
        }
    }
}

/// A grant goes to the actor's inventory (made on first use): when it is
/// reported granted, the actor holds that much more of the resource (as long
/// as the total stays within `u32`) and the same of everything else; when it
/// is refused, the actor's holdings are unchanged. A zero amount is always
/// refused, and no other actor's inventory changes.
pub proof fn grants_are_kept(
    g: GameplayView,
    index: int,
    actor: String,
    resource: ResourceKind,
    amount: u32,
    other: ResourceKind,
)
    requires
        entries_sorted(g.inventories),
    ensures
        ({
            let (g2, events) = apply_command(
                g,
                index,
                SimulationCommand::GrantResource { actor_id: actor, resource, amount },
            );
            &&& events[0] is ResourceGranted || events[0] is Rejected
            &&& amount == 0 ==> events[0] is Rejected
            &&& events[0] is Rejected ==> held(g2.inventories, actor@, resource) == held(g.inventories, actor@, resource)
            &&& events[0] is ResourceGranted && held(g.inventories, actor@, resource) + amount <= u32::MAX
                ==> held(g2.inventories, actor@, resource) == held(g.inventories, actor@, resource) + amount
            &&& other != resource ==> held(g2.inventories, actor@, other) == held(g.inventories, actor@, other)
            &&& events[0] matches EventView::ResourceGranted { actor_id, resource: r, amount: a }
                ==> actor_id == actor@ && r == resource && a == amount
            &&& forall|someone: Seq<char>|
                someone != actor@ ==> #[trigger] lookup(g2.inventories, someone) == lookup(g.inventories, someone)
        }),
{
    let k = actor@;
    let d = crate::inventory::empty_inventory(crate::inventory::DEFAULT_INVENTORY_MAX_SLOTS);
    lemma_ensure_entry(g.inventories, k, d);
    let t = with_inventory(g.inventories, k);
    let inv = lookup(t, k)->0;
    assert(total_of(d.stacks, resource) == 0 && total_of(d.stacks, other) == 0);
    lemma_store(t, k, add_spec(inv, resource, amount).0);
    add_raises_its_total(inv, resource, amount, other);
}

/// Registering sets the actor's statistics to exactly those given, and no
/// one else's.
pub proof fn registration_sets_stats(g: GameplayView, index: int, actor: String, stats: CombatStats)
    requires
        entries_sorted(g.combatants),
    ensures
        ({
            let (g2, events) = apply_command(
                g,
                index,
                SimulationCommand::RegisterCombatant { actor_id: actor, stats },
            );
            &&& lookup(g2.combatants, actor@) == Some(stats)
            &&& forall|someone: Seq<char>|
                someone != actor@ ==> #[trigger] lookup(g2.combatants, someone) == lookup(g.combatants, someone)
            &&& events[0] == EventView::CombatantRegistered { actor_id: actor@ }
        }),
{
    lemma_store(g.combatants, actor@, stats);
}

/// Starting a craft: when a craft starts for an actor, nothing was active,
/// the inputs of the first pending recipe are taken from the actor's
/// inventory (exactly those, nothing else), one unit leaves the pending
/// list, and the started craft becomes active for its recipe's ticks (at
/// least one). When something is already active, nothing is pending, or the
/// inputs cannot be covered, no craft starts and the actor's holdings stay.
pub proof fn starting_a_craft_takes_its_inputs(g: GameplayView, actor: Seq<char>, r: ResourceKind)
    requires
        entries_sorted(g.inventories),
        entries_sorted(g.craft_queues),
    ensures
        ({
            let (g2, events) = start_spec(g, actor);
            &&& events.len() <= 1
            &&& events.len() == 1 ==> {
                &&& lookup(g.craft_queues, actor) is Some
                &&& lookup(g.craft_queues, actor)->0.active is None
                &&& lookup(g.craft_queues, actor)->0.pending.len() > 0
                &&& held(g2.inventories, actor, r) + total_of(
                    recipe_inputs(lookup(g.craft_queues, actor)->0.pending[0].recipe),
                    r,
                ) == held(g.inventories, actor, r)
                &&& units_pending(pending_of(g2.craft_queues, actor)) + 1 == units_pending(
                    pending_of(g.craft_queues, actor),
                )
                &&& events[0] matches EventView::CraftStarted { actor_id, recipe, remaining_ticks } && {
                    &&& actor_id == actor
                    &&& remaining_ticks >= 1
                    &&& remaining_ticks >= recipe_ticks(lookup(g.craft_queues, actor)->0.pending[0].recipe)
                    &&& lookup(g2.craft_queues, actor)->0.active == Some(ActiveCraft { recipe, remaining_ticks })
                }
            }
            &&& (lookup(g.craft_queues, actor) is None || lookup(g.craft_queues, actor)->0.active is Some
                || lookup(g.craft_queues, actor)->0.pending.len() == 0 || !affordable(
                match lookup(g.inventories, actor) {
                    Some(inv) => inv.stacks,
                    None => Seq::empty(),
                },
                recipe_inputs(lookup(g.craft_queues, actor)->0.pending[0].recipe),
            )) ==> events.len() == 0 && held(g2.inventories, actor, r) == held(g.inventories, actor, r)
                && g2.craft_queues == g.craft_queues
        }),
{
    let d = crate::inventory::empty_inventory(crate::inventory::DEFAULT_INVENTORY_MAX_SLOTS);
    lemma_ensure_entry(g.inventories, actor, d);
    assert(total_of(d.stacks, r) == 0);
    if let Some(q) = lookup(g.craft_queues, actor) {
        if q.active is None && q.pending.len() > 0 {
            let recipe = q.pending[0].recipe;
            let t = with_inventory(g.inventories, actor);
            let inv = lookup(t, actor)->0;
            if affordable(inv.stacks, recipe_inputs(recipe)) {
                assert(requirements_proper(recipe_inputs(recipe)));
                consume_takes_exactly_the_requirements(inv, recipe_inputs(recipe), r);
                lemma_store(t, actor, consume_spec(inv, recipe_inputs(recipe)).0);
                consuming_a_unit_takes_one(q.pending);
                let (pending, consumed) = consume_one_spec(q.pending);
                if let Some(started) = consumed {
                    let ticks: u16 = if recipe_ticks(recipe) > 1 { recipe_ticks(recipe) } else { 1 };
                    lemma_store(
                        g.craft_queues,
                        actor,
                        CraftQueueView { pending, active: Some(ActiveCraft { recipe: started, remaining_ticks: ticks }) },
                    );
                }
            }
        }
    }
}

/// Finishing a craft: when a craft is reported complete for an actor, it
/// was that actor's active craft with at most one tick left, nothing is
/// active any more, and the recipe's outputs are in the actor's inventory
/// (as long as the totals stay within `u32`). An active craft with more
/// ticks left only counts one tick down.
pub proof fn finishing_a_craft_delivers_its_outputs(g: GameplayView, actor: Seq<char>, r: ResourceKind)
    requires
        entries_sorted(g.inventories),
        entries_sorted(g.craft_queues),
    ensures
        ({
            let (g2, events) = complete_spec(g, actor);
            &&& events.len() <= 1
            &&& events.len() == 1 && events[0] is CraftCompleted ==> {
                &&& lookup(g.craft_queues, actor) is Some
                &&& lookup(g.craft_queues, actor)->0.active is Some
                &&& lookup(g.craft_queues, actor)->0.active->0.remaining_ticks <= 1
                &&& events[0] == EventView::CraftCompleted {
                    actor_id: actor,
                    recipe: lookup(g.craft_queues, actor)->0.active->0.recipe,
                }
                &&& lookup(g2.craft_queues, actor)->0.active is None
                &&& lookup(g2.craft_queues, actor)->0.pending == lookup(g.craft_queues, actor)->0.pending
                &&& held(g.inventories, actor, r) + total_of(
                    recipe_outputs(lookup(g.craft_queues, actor)->0.active->0.recipe),
                    r,
                ) <= u32::MAX ==> held(g2.inventories, actor, r) == held(g.inventories, actor, r) + total_of(
                    recipe_outputs(lookup(g.craft_queues, actor)->0.active->0.recipe),
                    r,
                )
            }
            &&& lookup(g.craft_queues, actor) is Some && lookup(g.craft_queues, actor)->0.active is Some
                && lookup(g.craft_queues, actor)->0.active->0.remaining_ticks > 1 ==> {
                &&& events.len() == 0
                &&& lookup(g2.craft_queues, actor)->0.active == Some(ActiveCraft {
                    recipe: lookup(g.craft_queues, actor)->0.active->0.recipe,
                    remaining_ticks: (lookup(g.craft_queues, actor)->0.active->0.remaining_ticks - 1) as u16,
                })
                &&& g2.inventories == g.inventories
            }
        }),
{
    if let Some(q) = lookup(g.craft_queues, actor) {
        if let Some(a) = q.active {
            if a.remaining_ticks > 1 {
                lemma_store(
                    g.craft_queues,
                    actor,
                    CraftQueueView {
                        pending: q.pending,
                        active: Some(ActiveCraft { recipe: a.recipe, remaining_ticks: (a.remaining_ticks - 1) as u16 }),
                    },
                );
            } else {
                lemma_store(g.craft_queues, actor, CraftQueueView { pending: q.pending, active: None });
                let d = crate::inventory::empty_inventory(crate::inventory::DEFAULT_INVENTORY_MAX_SLOTS);
                lemma_ensure_entry(g.inventories, actor, d);
                assert(total_of(d.stacks, r) == 0);
                let t = with_inventory(g.inventories, actor);
                let inv = lookup(t, actor)->0;
                let outputs = recipe_outputs(a.recipe);
                let o = outputs[0];
                assert(outputs.drop_first() =~= Seq::<ResourceStack>::empty());
                let next = add_spec(inv, o.resource, o.amount).0;
                assert(add_all(next, outputs.drop_first()) == (next, None::<crate::inventory::InventoryOpError>));
                assert(add_all(inv, outputs) == (
                    add_spec(inv, o.resource, o.amount).0,
                    match add_spec(inv, o.resource, o.amount).1 {
                        Err(e) => Some(e),
                        Ok(_) => None,
                    },
                ));
                add_raises_its_total(inv, o.resource, o.amount, r);
                lemma_store(t, actor, add_all(inv, outputs).0);
                assert(outputs == seq![o]);
                assert(seq![o].drop_first() =~= Seq::<ResourceStack>::empty());
                assert(total_of(Seq::<ResourceStack>::empty(), r) == 0);
            }
        }
    }
}

/// Any 1 to 24 letters (of either case), digits, `_` and `-` form a room
/// code; the code is the same text with each lower-case letter replaced by
/// its upper-case one.
pub proof fn room_codes_are_upper_cased(s: Seq<char>)
    requires
        1 <= s.len() <= 24,
        forall|i: int| 0 <= i < s.len() ==> player_id_char(#[trigger] s[i]),
    ensures
        room_code_spec(s) is Some,
        room_code_spec(s)->0.len() == s.len(),
        forall|i: int|
            0 <= i < s.len() ==> ('a' <= #[trigger] s[i] && s[i] <= 'z' ==> 'A' <= room_code_spec(s)->0[i]
                && room_code_spec(s)->0[i] <= 'Z' && room_code_spec(s)->0[i] as u32 + 32 == s[i] as u32),
        forall|i: int|
            0 <= i < s.len() ==> (!('a' <= #[trigger] s[i] && s[i] <= 'z') ==> room_code_spec(s)->0[i] == s[i]),
{
    assert forall|i: int| 0 <= i < s.len() implies is_room_char(#[trigger] s[i]) by {
        assert(player_id_char(s[i]));
    }
    lemma_room_chars_trimmed(s);
    let u = upper(s);
    assert forall|i: int| 0 <= i < u.len() implies is_room_char(#[trigger] u[i]) && '\0' <= u[i] && u[i] <= '\u{7f}' by {
        assert(player_id_char(s[i]));
        assert(u[i] == ascii_upper(s[i]));
    }
    lemma_ascii_len(u);
}

/// Any 1 to 64 letters (of either case), digits, `_`, `-` and `:` form a
/// protocol identifier, which is also a character identifier kept as it is.
pub proof fn identifiers_are_accepted(s: Seq<char>)
    requires
        1 <= s.len() <= 64,
        forall|i: int| 0 <= i < s.len() ==> player_id_char(#[trigger] s[i]) || s[i] == ':',
    ensures
        crate::room::identifier_spec(s),
        character_id_spec(s) == Some(s),
{
    assert forall|i: int| 0 <= i < s.len() implies is_room_char(#[trigger] s[i]) || s[i] == ':' by {}
    assert forall|i: int| 0 <= i < s.len() implies crate::room::is_identifier_char(#[trigger] s[i]) by {}
    if s.len() > 0 {
        assert(!is_whitespace_spec(s[0]));
        assert(!is_whitespace_spec(s[s.len() - 1]));
    }
    lemma_trim_of_trimmed(s);
    assert forall|i: int| 0 <= i < s.len() implies '\0' <= #[trigger] s[i] && s[i] <= '\u{7f}' by {}
    lemma_ascii_len(s);
}

/// Any 1 to 32 printable ASCII characters that neither start nor end with a
/// space form a character name kept as it is.
pub proof fn printable_names_are_accepted(s: Seq<char>)
    requires
        1 <= s.len() <= 32,
        forall|i: int| 0 <= i < s.len() ==> ' ' <= #[trigger] s[i] && s[i] <= '~',
        s[0] != ' ',
        s[s.len() - 1] != ' ',
    ensures
        character_name_spec(s) == Some(s),
{
    assert(!is_whitespace_spec(s[0]));
    assert(!is_whitespace_spec(s[s.len() - 1]));
    lemma_trim_of_trimmed(s);
    assert forall|i: int| 0 <= i < s.len() implies '\0' <= #[trigger] s[i] && s[i] <= '\u{7f}' by {}
    lemma_ascii_len(s);
    assert forall|i: int| 0 <= i < s.len() implies !crate::text::is_control_spec(#[trigger] s[i]) by {}
}

proof fn lemma_without_controls_plain(s: Seq<char>)
    requires
        forall|i: int| 0 <= i < s.len() ==> !crate::text::is_control_spec(#[trigger] s[i]),
    ensures
        crate::room::without_controls(s) == s,
    decreases s.len(),
{
    if s.len() > 0 {
        let rest = s.drop_last();
        assert forall|i: int| 0 <= i < rest.len() implies !crate::text::is_control_spec(#[trigger] rest[i]) by {
            assert(rest[i] == s[i]);
        }
        lemma_without_controls_plain(rest);
        assert(!crate::text::is_control_spec(s[s.len() - 1]));
        assert(rest.push(s.last()) =~= s);
    }
}

/// A player whose identifier is made of letters, digits, `_` and `-` is
/// named by default after that identifier, cut to its first 32 characters;
/// one whose identifier is blank is named `Player`.
pub proof fn default_names_follow_the_identifier(s: Seq<char>)
    requires
        forall|i: int| 0 <= i < s.len() ==> player_id_char(#[trigger] s[i]),
    ensures
        crate::room::default_name_spec(s) == (if s.len() == 0 {
            "Player"@
        } else if s.len() <= 32 {
            s
        } else {
            s.take(32)
        }),
{
    assert forall|i: int| 0 <= i < s.len() implies is_room_char(#[trigger] s[i]) by {
        assert(player_id_char(s[i]));
    }
    lemma_room_chars_trimmed(s);
    assert forall|i: int| 0 <= i < s.len() implies !crate::text::is_control_spec(#[trigger] s[i]) by {
        assert(player_id_char(s[i]));
    }
    lemma_without_controls_plain(s);
}

} // verus!
