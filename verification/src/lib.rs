//! Room simulation rules for a co-op building game: inventories, crafting,
//! combat, placement, the fixed-step simulation, and the room server's
//! validation of identifiers and client commands.

use vstd::prelude::*;

pub mod inventory;
pub mod keys;
pub mod actor_table;
pub mod auth;
pub mod combat;
pub mod crafting;
pub mod placement;
pub mod room;
pub mod simulation;
pub mod text;
pub mod movement;
pub mod protocol;
pub mod client;
pub mod properties;
pub mod snapshot;
pub mod server;

verus! {

} // verus!
