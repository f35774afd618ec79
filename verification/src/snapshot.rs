//! Saving and restoring the mutable part of a game state, for undo and for
//! search that explores a line of play and then returns.
use vstd::prelude::*;

use std::collections::{HashMap, VecDeque};

use crate::card::{CardInstance, ObjectId};
use crate::game::{
    CombatState, GameFormat, GameState, PendingTrigger, PendingTutor, Phase, PlayerIndex, PlayerState,
    StackEntry,
};
use crate::replacement::ReplacementEffect;

verus! {

/// Whether two stacks hold the same entries.
pub open spec fn stacks_match(a: Seq<StackEntry>, b: Seq<StackEntry>) -> bool {
    &&& a.len() == b.len()
    &&& forall|i: int|
        0 <= i < a.len() ==> (#[trigger] a[i]).id == b[i].id && a[i].source == b[i].source
            && a[i].controller == b[i].controller && a[i].targets@ == b[i].targets@
}

/// Whether two lists of pending triggers hold the same triggers.
pub open spec fn triggers_match(a: Seq<PendingTrigger>, b: Seq<PendingTrigger>) -> bool {
    &&& a.len() == b.len()
    &&& forall|i: int|
        0 <= i < a.len() ==> (#[trigger] a[i]).source_id == b[i].source_id && a[i].ability_index
            == b[i].ability_index && a[i].controller == b[i].controller && a[i].targets@
            == b[i].targets@
}

/// Whether two lists of players hold the same player states.
pub open spec fn players_match(a: Seq<PlayerState>, b: Seq<PlayerState>) -> bool {
    &&& a.len() == b.len()
    &&& forall|i: int| 0 <= i < a.len() ==> (#[trigger] a[i]).same_as(b[i])
}

/// Whether two lists of replacement effects hold the same effects.
pub open spec fn effects_match(a: Seq<ReplacementEffect>, b: Seq<ReplacementEffect>) -> bool {
    &&& a.len() == b.len()
    &&& forall|i: int| 0 <= i < a.len() ==> (#[trigger] a[i]).same_as(b[i])
}

/// Whether two optional pending tutors are the same.
pub open spec fn tutors_match(a: Option<PendingTutor>, b: Option<PendingTutor>) -> bool {
    match (a, b) {
        (Some(x), Some(y)) => x.same_as(y),
        (None, None) => true,
        _ => false,
    }
}

/// Whether two game states agree on everything a snapshot records: all
/// but the card database and the pending events.
pub open spec fn states_match(a: GameState, b: GameState) -> bool {
    &&& a.format == b.format
    &&& a.objects@ == b.objects@
    &&& a.battlefield@ == b.battlefield@
    &&& stacks_match(a.stack@, b.stack@)
    &&& players_match(a.players@, b.players@)
    &&& a.active_player == b.active_player
    &&& a.phase == b.phase
    &&& a.priority_player == b.priority_player
    &&& a.turn_number == b.turn_number
    &&& a.consecutive_passes == b.consecutive_passes
    &&& a.combat.same_as(b.combat)
    &&& a.next_object_id == b.next_object_id
    &&& a.next_stack_id == b.next_stack_id
    &&& triggers_match(a.pending_triggers@, b.pending_triggers@)
    &&& a.next_timestamp == b.next_timestamp
    &&& effects_match(a.replacement_effects@, b.replacement_effects@)
    &&& tutors_match(a.pending_tutor, b.pending_tutor)
    &&& a.extra_turns@ == b.extra_turns@
    &&& a.spells_cast_this_turn == b.spells_cast_this_turn
    &&& a.skip_phases@ == b.skip_phases@
    &&& a.game_over == b.game_over
    &&& a.winner == b.winner
}

/// A saved copy of the mutable part of a game state. The card database is
/// shared and is not saved.
pub struct GameStateSnapshot {
    format: GameFormat,
    objects: HashMap<ObjectId, CardInstance>,
    battlefield: Vec<ObjectId>,
    stack: Vec<StackEntry>,
    players: Vec<PlayerState>,
    active_player: PlayerIndex,
    phase: Phase,
    priority_player: PlayerIndex,
    turn_number: u32,
    consecutive_passes: u32,
    combat: CombatState,
    next_object_id: ObjectId,
    next_stack_id: u64,
    pending_triggers: Vec<PendingTrigger>,
    next_timestamp: u32,
    replacement_effects: Vec<ReplacementEffect>,
    pending_tutor: Option<PendingTutor>,
    extra_turns: VecDeque<PlayerIndex>,
    spells_cast_this_turn: u32,
    skip_phases: Vec<Phase>,
    game_over: bool,
    winner: Option<PlayerIndex>,
}

impl GameStateSnapshot {
    /// The game state this snapshot restores, on top of `base` (whose card
    /// database is kept and whose pending events are dropped).
    pub closed spec fn applied_to(self, base: GameState) -> GameState {
        GameState {
            card_db: base.card_db,
            format: self.format,
            objects: self.objects,
            battlefield: self.battlefield,
            stack: self.stack,
            players: self.players,
            active_player: self.active_player,
            phase: self.phase,
            priority_player: self.priority_player,
            turn_number: self.turn_number,
            consecutive_passes: self.consecutive_passes,
            combat: self.combat,
            next_object_id: self.next_object_id,
            next_stack_id: self.next_stack_id,
            pending_triggers: self.pending_triggers,
            next_timestamp: self.next_timestamp,
            replacement_effects: self.replacement_effects,
            pending_tutor: self.pending_tutor,
            extra_turns: self.extra_turns,
            spells_cast_this_turn: self.spells_cast_this_turn,
            skip_phases: self.skip_phases,
            game_over: self.game_over,
            winner: self.winner,
            pending_events: base.pending_events,
        }
    }

    /// Whether this snapshot records the state `s`.
    pub closed spec fn records(self, s: GameState) -> bool {
        states_match(self.applied_to(s), s)
    }
}

impl GameState {
    /// Save the mutable part of the state.
    pub fn snapshot(&self) -> (r: GameStateSnapshot)
        ensures
            r.records(*self),
    {
        let stack = self.stack.clone();
        let players = self.players.clone();
        let pending_triggers = self.pending_triggers.clone();
        let replacement_effects = self.replacement_effects.clone();
        let pending_tutor = match &self.pending_tutor {
            Some(t) => Some(t.clone()),
            None => None,
        };
        let extra_turns = self.extra_turns.clone();
        let battlefield = self.battlefield.clone();
        let skip_phases = self.skip_phases.clone();
        let r = GameStateSnapshot {
            format: self.format,
            objects: self.objects.clone(),
            battlefield,
            stack,
            players,
            active_player: self.active_player,
            phase: self.phase,
            priority_player: self.priority_player,
            turn_number: self.turn_number,
            consecutive_passes: self.consecutive_passes,
            combat: self.combat.clone(),
            next_object_id: self.next_object_id,
            next_stack_id: self.next_stack_id,
            pending_triggers,
            next_timestamp: self.next_timestamp,
            replacement_effects,
            pending_tutor,
            extra_turns,
            spells_cast_this_turn: self.spells_cast_this_turn,
            skip_phases,
            game_over: self.game_over,
            winner: self.winner,
        };
        proof {
            assert(r.battlefield@ =~= self.battlefield@);
            assert(r.skip_phases@ =~= self.skip_phases@);
            assert(r.extra_turns@ =~= self.extra_turns@);
            assert forall|i: int| 0 <= i < r.stack@.len() implies (#[trigger] r.stack@[i]).id == self.stack@[i].id
                && r.stack@[i].source == self.stack@[i].source && r.stack@[i].controller
                == self.stack@[i].controller && r.stack@[i].targets@ == self.stack@[i].targets@ by {
                assert(cloned::<StackEntry>(self.stack@[i], r.stack@[i]));
            }
            assert forall|i: int| 0 <= i < r.players@.len() implies (#[trigger] r.players@[i]).same_as(self.players@[i]) by {
                assert(cloned::<PlayerState>(self.players@[i], r.players@[i]));
            }
            assert forall|i: int| 0 <= i < r.pending_triggers@.len() implies (#[trigger] r.pending_triggers@[i]).source_id
                == self.pending_triggers@[i].source_id && r.pending_triggers@[i].ability_index
                == self.pending_triggers@[i].ability_index && r.pending_triggers@[i].controller
                == self.pending_triggers@[i].controller && r.pending_triggers@[i].targets@
                == self.pending_triggers@[i].targets@ by {
                assert(cloned::<PendingTrigger>(self.pending_triggers@[i], r.pending_triggers@[i]));
            }
            assert forall|i: int| 0 <= i < r.replacement_effects@.len() implies (#[trigger] r.replacement_effects@[i]).same_as(self.replacement_effects@[i]) by {
                assert(cloned::<ReplacementEffect>(self.replacement_effects@[i], r.replacement_effects@[i]));
            }
        }
        r
    }

    /// Put back a saved state, keeping the card database and dropping any
    /// pending events.
    pub fn restore(&mut self, snap: GameStateSnapshot)
        ensures
            *final(self) == (GameState { pending_events: final(self).pending_events, ..snap.applied_to(*old(self)) }),
            final(self).pending_events@.len() == 0,
    {
        self.format = snap.format;
        self.objects = snap.objects;
        self.battlefield = snap.battlefield;
        self.stack = snap.stack;
        self.players = snap.players;
        self.active_player = snap.active_player;
        self.phase = snap.phase;
        self.priority_player = snap.priority_player;
        self.turn_number = snap.turn_number;
        self.consecutive_passes = snap.consecutive_passes;
        self.combat = snap.combat;
        self.next_object_id = snap.next_object_id;
        self.next_stack_id = snap.next_stack_id;
        self.pending_triggers = snap.pending_triggers;
        self.next_timestamp = snap.next_timestamp;
        self.replacement_effects = snap.replacement_effects;
        self.pending_tutor = snap.pending_tutor;
        self.extra_turns = snap.extra_turns;
        self.spells_cast_this_turn = snap.spells_cast_this_turn;
        self.skip_phases = snap.skip_phases;
        self.game_over = snap.game_over;
        self.winner = snap.winner;
        self.pending_events.clear();
    }
}

/// Restoring a snapshot gives back the state it was taken from: whatever
/// happened in between, the restored state agrees with the saved one on
/// every recorded field, keeps its card database and has no pending events.
pub proof fn lemma_restore_snapshot(saved: GameState, snap: GameStateSnapshot, before: GameState, after: GameState)
    requires
        snap.records(saved),
        after == (GameState { pending_events: after.pending_events, ..snap.applied_to(before) }),
    ensures
        states_match(after, saved),
        after.card_db == before.card_db,
{
}

} // verus!
