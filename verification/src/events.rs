//! Game events emitted while rules are applied.
use vstd::prelude::*;

use crate::card::{ObjectId, ZoneType};
use crate::game::Target;

verus! {

/// Something that happened in the game.
#[derive(Debug, Clone, Copy, PartialEq, Eq, Structural)]
pub enum GameEvent {
    /// An object moved from one zone to another.
    ZoneChange { object: ObjectId, from: ZoneType, to: ZoneType },
    /// A player drew a card.
    CardDrawn { player: usize, object: ObjectId },
    /// A source dealt damage to a player or an object.
    DamageDealt { source: ObjectId, target: Target, amount: u32, is_combat: bool },
    /// A player's life total changed.
    LifeChanged { player: usize, old_life: i32, new_life: i32 },
    /// A triggered ability was put on the stack.
    AbilityTriggered { source: ObjectId, ability_index: usize },
}

} // verus!
