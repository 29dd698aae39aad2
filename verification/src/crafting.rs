//! Recipes and per-actor craft queues.

use vstd::prelude::*;
use crate::inventory::{ResourceKind, ResourceStack};

verus! {

#[derive(Debug, Clone, Copy, PartialEq, Eq, Structural, Hash)]
pub enum RecipeKind {
    SmeltIronPlate,
    SmeltCopperPlate,
    CraftGear,
}

#[derive(Debug, Clone, Copy, PartialEq, Eq, Structural)]
pub struct QueuedCraft {
    pub recipe: RecipeKind,
    pub count: u16,
}

#[derive(Debug, Clone, Copy, PartialEq, Eq, Structural)]
pub struct ActiveCraft {
    pub recipe: RecipeKind,
    pub remaining_ticks: u16,
}

#[derive(Debug, Clone, PartialEq, Eq)]
pub struct CraftQueueState {
    pub pending: Vec<QueuedCraft>,
    pub active: Option<ActiveCraft>,
}

/// The mathematical content of a craft queue.
pub struct CraftQueueView {
    pub pending: Seq<QueuedCraft>,
    pub active: Option<ActiveCraft>,
}

impl View for CraftQueueState {
    type V = CraftQueueView;

    open spec fn view(&self) -> CraftQueueView {
        CraftQueueView { pending: self.pending@, active: self.active }
    }
}

/// A queue with nothing pending and nothing active.
pub open spec fn empty_queue() -> CraftQueueView {
    CraftQueueView { pending: Seq::empty(), active: None }
}

/// Takes one unit from the front of the pending list: entries with a zero
/// count are dropped first; an entry whose count reaches zero is removed.
pub open spec fn consume_one_spec(pending: Seq<QueuedCraft>) -> (Seq<QueuedCraft>, Option<
    RecipeKind,
>)
    decreases pending.len(),
{
    if pending.len() == 0 {
        (pending, None)
    } else if pending[0].count == 0 {
        consume_one_spec(pending.drop_first())
    } else {
        let left = (pending[0].count - 1) as u16;
        if left == 0 {
            (pending.drop_first(), Some(pending[0].recipe))
        } else {
            (
                pending.update(0, QueuedCraft { recipe: pending[0].recipe, count: left }),
                Some(pending[0].recipe),
            )
        }
    }
}

impl Default for CraftQueueState {
    fn default() -> (queue: Self)
        ensures
            queue@ == empty_queue(),
    {
        CraftQueueState { pending: Vec::new(), active: None }
    }
}

impl CraftQueueState {
    /// The recipe of the first pending entry.
    pub fn peek_recipe(&self) -> (recipe: Option<RecipeKind>)
        ensures
            recipe == (if self.pending@.len() > 0 {
                Some(self.pending@[0].recipe)
            } else {
                None
            }),
    {
        if self.pending.len() > 0 {
            Some(self.pending[0].recipe)
        } else {
            None
        }
    }

    /// Takes one unit of the first pending recipe (see [`consume_one_spec`]).
    pub fn consume_one_pending(&mut self) -> (recipe: Option<RecipeKind>)
        ensures
            (final(self).pending@, recipe) == consume_one_spec(old(self).pending@),
            final(self).active == old(self).active,
        decreases old(self).pending@.len(),
    {
        if self.pending.len() == 0 {
            return None;
        }
        let first = self.pending[0];
        if first.count == 0 {
            self.pending.remove(0);
            proof {
                assert(self.pending@ =~= old(self).pending@.drop_first());
            }
            return self.consume_one_pending();
        }
        let left = first.count - 1;
        let recipe = first.recipe;
        if left == 0 {
            self.pending.remove(0);
            proof {
                assert(self.pending@ =~= old(self).pending@.drop_first());
            }
        } else {
            self.pending.set(0, QueuedCraft { recipe, count: left });
        }
        Some(recipe)
    }
}

#[derive(Debug, Clone, PartialEq, Eq)]
pub struct RecipeDefinition {
    pub craft_ticks: u16,
    pub inputs: Vec<ResourceStack>,
    pub outputs: Vec<ResourceStack>,
}

/// Ticks a recipe takes.
pub open spec fn recipe_ticks(recipe: RecipeKind) -> u16 {
    match recipe {
        RecipeKind::SmeltIronPlate => 2,
        RecipeKind::SmeltCopperPlate => 2,
        RecipeKind::CraftGear => 3,
    }
}

/// What a recipe consumes.
pub open spec fn recipe_inputs(recipe: RecipeKind) -> Seq<ResourceStack> {
    match recipe {
        RecipeKind::SmeltIronPlate => seq![ResourceStack { resource: ResourceKind::IronOre, amount: 1 }],
        RecipeKind::SmeltCopperPlate => seq![ResourceStack { resource: ResourceKind::CopperOre, amount: 1 }],
        RecipeKind::CraftGear => seq![ResourceStack { resource: ResourceKind::IronPlate, amount: 2 }],
    }
}

/// What a recipe produces.
pub open spec fn recipe_outputs(recipe: RecipeKind) -> Seq<ResourceStack> {
    match recipe {
        RecipeKind::SmeltIronPlate => seq![ResourceStack { resource: ResourceKind::IronPlate, amount: 1 }],
        RecipeKind::SmeltCopperPlate => seq![ResourceStack { resource: ResourceKind::CopperPlate, amount: 1 }],
        RecipeKind::CraftGear => seq![ResourceStack { resource: ResourceKind::Gear, amount: 1 }],
    }
}

/// The definition of a recipe: its duration, inputs and outputs.
pub fn recipe_definition(recipe: RecipeKind) -> (definition: RecipeDefinition)
    ensures
        definition.craft_ticks == recipe_ticks(recipe),
        definition.inputs@ == recipe_inputs(recipe),
        definition.outputs@ == recipe_outputs(recipe),
{
    let definition = match recipe {
        RecipeKind::SmeltIronPlate => RecipeDefinition {
            craft_ticks: 2,
            inputs: vec![ResourceStack::new(ResourceKind::IronOre, 1)],
            outputs: vec![ResourceStack::new(ResourceKind::IronPlate, 1)],
        },
        RecipeKind::SmeltCopperPlate => RecipeDefinition {
            craft_ticks: 2,
            inputs: vec![ResourceStack::new(ResourceKind::CopperOre, 1)],
            outputs: vec![ResourceStack::new(ResourceKind::CopperPlate, 1)],
        },
        RecipeKind::CraftGear => RecipeDefinition {
            craft_ticks: 3,
            inputs: vec![ResourceStack::new(ResourceKind::IronPlate, 2)],
            outputs: vec![ResourceStack::new(ResourceKind::Gear, 1)],
        },
    };
    assert(definition.inputs@ =~= recipe_inputs(recipe));
    assert(definition.outputs@ =~= recipe_outputs(recipe));
    definition
}

} // verus!
