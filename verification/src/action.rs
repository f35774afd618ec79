//! The decisions a player makes.
use vstd::prelude::*;

use crate::card::ObjectId;
use crate::game::Target;

verus! {

/// A player's decision.
#[derive(Debug, Clone, PartialEq, Eq)]
pub enum Action {
    /// Pass priority.
    PassPriority,
    /// Keep the opening hand.
    MulliganKeep,
    /// Take a mulligan.
    MulliganMulligan,
    /// Put a card from the hand on the bottom of the library after a mulligan.
    MulliganBottomCard { object_id: ObjectId },
    /// Put simultaneous triggers on the stack in this order.
    OrderTriggers { ordering: Vec<usize> },
    /// Apply replacement effects in this order.
    ChooseReplacementOrder { ordering: Vec<usize> },
    /// Play a land from the hand.
    PlayLand { object_id: ObjectId },
    /// Cast a spell from the hand.
    CastSpell { object_id: ObjectId, targets: Vec<Target> },
    /// Cast a commander from the command zone.
    CastCommander { object_id: ObjectId, targets: Vec<Target> },
    /// Declare these creatures as attackers.
    DeclareAttackers { attackers: Vec<ObjectId> },
    /// Declare blocks, as (blocker, attacker) pairs.
    DeclareBlockers { blocks: Vec<(ObjectId, ObjectId)> },
    /// Discard a card (cleanup).
    Discard { object_id: ObjectId },
}

} // verus!
