//! Combat statistics and the resolution of damage.

use vstd::prelude::*;

verus! {

#[derive(Debug, Clone, Copy, PartialEq, Eq, Structural)]
pub struct CombatStats {
    pub max_health: u16,
    pub health: u16,
    pub attack_power: u16,
    pub armor: u16,
}

impl View for CombatStats {
    type V = CombatStats;

    open spec fn view(&self) -> CombatStats {
        *self
    }
}

#[derive(Debug, Clone, Copy, PartialEq, Eq, Structural)]
pub struct DamageResolution {
    pub applied: u16,
    pub remaining_health: u16,
    pub defeated: bool,
}

/// The damage that gets through: the incoming damage less armor, at least
/// zero, and never more than the health left.
pub open spec fn applied_damage(stats: CombatStats, incoming: u16) -> u16 {
    let mitigated = incoming.saturating_sub(stats.armor);
    if mitigated < stats.health {
        mitigated
    } else {
        stats.health
    }
}

/// The statistics after taking `incoming` damage.
pub open spec fn damaged(stats: CombatStats, incoming: u16) -> CombatStats {
    CombatStats { health: (stats.health - applied_damage(stats, incoming)) as u16, ..stats }
}

impl CombatStats {
    /// A combatant at full health.
    pub fn new(max_health: u16, attack_power: u16, armor: u16) -> (stats: Self)
        ensures
            stats == (CombatStats { max_health, health: max_health, attack_power, armor }),
    {
        Self { max_health, health: max_health, attack_power, armor }
    }

    /// Applies `incoming` damage: armor absorbs up to its value, health never
    /// drops below zero, and the combatant is defeated when no health is left.
    pub fn apply_damage(&mut self, incoming: u16) -> (outcome: DamageResolution)
        ensures
            *final(self) == damaged(*old(self), incoming),
            outcome == (DamageResolution {
                applied: applied_damage(*old(self), incoming),
                remaining_health: final(self).health,
                defeated: final(self).health == 0,
            }),
    {
        let mitigated = incoming.saturating_sub(self.armor);
        let applied = if mitigated < self.health {
            mitigated
        } else {
            self.health
        };
        self.health = self.health.saturating_sub(applied);
        DamageResolution {
            applied,
            remaining_health: self.health,
            defeated: self.health == 0,
        }
    }
}

} // verus!
