//! The room server's step-by-step decisions, from plain state and event to
//! next state and action: the order in which a build request is checked, how
//! a command's sequence number is judged, and how many simulation steps a
//! wake-up runs.

use vstd::prelude::*;
use crate::protocol::interval_elapsed;
use crate::room::{is_valid_structure_kind, structure_kind_spec};
use crate::snapshot::{MAX_PROJECTILES, MAX_STRUCTURES};

verus! {

/// Least time between two placements by one player, in milliseconds.
pub const PLACE_COMMAND_MIN_INTERVAL_MS: i64 = 120;
/// Least time between two shots by one player, in milliseconds.
pub const PROJECTILE_FIRE_MIN_INTERVAL_MS: i64 = 33;
/// Most simulation steps one wake-up runs.
pub const MAX_CATCHUP_STEPS: u64 = 8;

/// What becomes of a command, given its sequence number.
#[derive(Debug, Clone, Copy, PartialEq, Eq, Structural)]
pub enum SequenceAction {
    /// Already seen on this connection: acknowledged as a duplicate, not applied.
    AckDuplicate,
    /// New: applied, and its number becomes the connection's last.
    Apply,
}

/// Judges a command's sequence number against the last one the connection
/// applied; gives the connection's new last number and what to do.
pub fn command_sequence(last_seq: u32, seq: u32) -> (decision: (u32, SequenceAction))
    ensures
        decision == (if seq <= last_seq {
            (last_seq, SequenceAction::AckDuplicate)
        } else {
            (seq, SequenceAction::Apply)
        }),
{
    if seq <= last_seq {
        (last_seq, SequenceAction::AckDuplicate)
    } else {
        (seq, SequenceAction::Apply)
    }
}

/// What becomes of a build placement request.
#[derive(Debug, Clone, Copy, PartialEq, Eq, Structural)]
pub enum BuildPlaceDecision {
    /// Too soon after the player's last placement: ignored.
    RateLimited,
    /// Not a kind players may build: refused.
    InvalidKind,
    /// A structure stands on the cell or a player overlaps it: refused.
    CellBlocked,
    /// Placed; when `evict_oldest`, the room then holds more than its limit
    /// and the oldest structure goes.
    Place { evict_oldest: bool },
}

/// The decision on a build placement, in the order the server checks:
/// rate limit, then kind, then the cell; with the player's new time of last
/// placement. `replaces_existing` says whether the structure's identifier is
/// already in the room (the placement then replaces it).
pub fn decide_build_place(
    last_place_at: i64,
    now: i64,
    kind: &str,
    cell_taken: bool,
    player_blocks: bool,
    structure_count: usize,
    replaces_existing: bool,
) -> (decision: (i64, BuildPlaceDecision))
    ensures
        decision == (if now - last_place_at < PLACE_COMMAND_MIN_INTERVAL_MS {
            (last_place_at, BuildPlaceDecision::RateLimited)
        } else if !structure_kind_spec(kind@) {
            (now, BuildPlaceDecision::InvalidKind)
        } else if cell_taken || player_blocks {
            (now, BuildPlaceDecision::CellBlocked)
        } else {
            (
                now,
                BuildPlaceDecision::Place {
                    evict_oldest: structure_count + (if replaces_existing {
                        0int
                    } else {
                        1int
                    }) > MAX_STRUCTURES,
                },
            )
        }),
{
    if !interval_elapsed(now, last_place_at, PLACE_COMMAND_MIN_INTERVAL_MS) {
        return (last_place_at, BuildPlaceDecision::RateLimited);
    }
    if !is_valid_structure_kind(kind) {
        return (now, BuildPlaceDecision::InvalidKind);
    }
    if cell_taken || player_blocks {
        return (now, BuildPlaceDecision::CellBlocked);
    }
    let evict_oldest = if replaces_existing {
        structure_count > MAX_STRUCTURES
    } else {
        structure_count >= MAX_STRUCTURES
    };
    (now, BuildPlaceDecision::Place { evict_oldest })
}

/// What becomes of a request to fire a projectile.
#[derive(Debug, Clone, Copy, PartialEq, Eq, Structural)]
pub enum ProjectileFireDecision {
    /// Too soon after the player's last shot: ignored.
    RateLimited,
    /// Fired; when `evict_oldest`, the room then holds more than its limit
    /// and the least recently updated projectile goes.
    Fire { evict_oldest: bool },
}

/// The decision on a shot, with the player's new time of last shot.
pub fn decide_projectile_fire(
    last_fire_at: i64,
    now: i64,
    projectile_count: usize,
    replaces_existing: bool,
) -> (decision: (i64, ProjectileFireDecision))
    ensures
        decision == (if now - last_fire_at < PROJECTILE_FIRE_MIN_INTERVAL_MS {
            (last_fire_at, ProjectileFireDecision::RateLimited)
        } else {
            (
                now,
                ProjectileFireDecision::Fire {
                    evict_oldest: projectile_count + (if replaces_existing {
                        0int
                    } else {
                        1int
                    }) > MAX_PROJECTILES,
                },
            )
        }),
{
    if !interval_elapsed(now, last_fire_at, PROJECTILE_FIRE_MIN_INTERVAL_MS) {
        return (last_fire_at, ProjectileFireDecision::RateLimited);
    }
    let evict_oldest = if replaces_existing {
        projectile_count > MAX_PROJECTILES
    } else {
        projectile_count >= MAX_PROJECTILES
    };
    (now, ProjectileFireDecision::Fire { evict_oldest })
}

/// How a wake-up catches the simulation up, given the number of whole steps
/// that are due: it runs at most 8 of them, and drops the rest of the
/// backlog when more were due.
pub fn catch_up_plan(steps_due: u64) -> (plan: (u64, bool))
    ensures
        plan.0 == (if steps_due < MAX_CATCHUP_STEPS {
            steps_due
        } else {
            MAX_CATCHUP_STEPS
        }),
        plan.1 == (steps_due > MAX_CATCHUP_STEPS),
{
    if steps_due < MAX_CATCHUP_STEPS {
        (steps_due, false)
    } else {
        (MAX_CATCHUP_STEPS, steps_due > MAX_CATCHUP_STEPS)
    }
}

} // verus!
