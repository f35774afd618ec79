//! The game state: players, zones, the stack, combat and the observation
//! API (`PlayerView`).
use vstd::prelude::*;

use std::collections::{HashMap, VecDeque};
use std::sync::Arc;
use vstd::std_specs::iter::IteratorSpec;

use crate::card::{CardDatabase, CardId, CardInstance, ObjectId, Subtype, ZoneType};
use crate::events::GameEvent;
use crate::mana::{ManaPool, empty_pool};
use crate::replacement::ReplacementEffect;

verus! {

broadcast use vstd::std_specs::hash::group_hash_axioms;

/// Index into the players array.
pub type PlayerIndex = usize;

/// Which format rules the game uses.
#[derive(Debug, Clone, Copy, PartialEq, Eq, Hash, Structural)]
pub enum GameFormat {
    /// 60-card constructed, 20 life.
    Standard,
    /// 1v1 Commander: 40 life, command zone, commander tax and damage.
    Commander,
}

/// The phase or step within a turn.
#[derive(Debug, Clone, Copy, PartialEq, Eq, Hash, Structural)]
pub enum Phase {
    Mulligan,
    Untap,
    Upkeep,
    Draw,
    PreCombatMain,
    BeginningOfCombat,
    DeclareAttackers,
    DeclareBlockers,
    FirstStrikeDamage,
    CombatDamage,
    EndOfCombat,
    PostCombatMain,
    EndStep,
    Cleanup,
}

/// The phases of a turn, in order.
pub open spec fn turn_order_spec() -> Seq<Phase> {
    seq![
        Phase::Untap,
        Phase::Upkeep,
        Phase::Draw,
        Phase::PreCombatMain,
        Phase::BeginningOfCombat,
        Phase::DeclareAttackers,
        Phase::DeclareBlockers,
        Phase::FirstStrikeDamage,
        Phase::CombatDamage,
        Phase::EndOfCombat,
        Phase::PostCombatMain,
        Phase::EndStep,
        Phase::Cleanup,
    ]
}

impl Phase {
    /// All phases of a turn, in order.
    pub fn turn_order() -> (r: Vec<Phase>)
        ensures
            r@ == turn_order_spec(),
    {
        let mut v: Vec<Phase> = Vec::new();
        v.push(Phase::Untap);
        v.push(Phase::Upkeep);
        v.push(Phase::Draw);
        v.push(Phase::PreCombatMain);
        v.push(Phase::BeginningOfCombat);
        v.push(Phase::DeclareAttackers);
        v.push(Phase::DeclareBlockers);
        v.push(Phase::FirstStrikeDamage);
        v.push(Phase::CombatDamage);
        v.push(Phase::EndOfCombat);
        v.push(Phase::PostCombatMain);
        v.push(Phase::EndStep);
        v.push(Phase::Cleanup);
        assert(v@ =~= turn_order_spec());
        v
    }

    /// Whether sorcery-speed spells can normally be cast here.
    pub fn is_main_phase(&self) -> (r: bool)
        ensures
            r == (*self == Phase::PreCombatMain || *self == Phase::PostCombatMain),
    {
        match self {
            Phase::PreCombatMain | Phase::PostCombatMain => true,
            _ => false,
        }
    }

    /// Whether this is a combat step where damage is dealt.
    pub fn is_damage_step(&self) -> (r: bool)
        ensures
            r == (*self == Phase::FirstStrikeDamage || *self == Phase::CombatDamage),
    {
        match self {
            Phase::FirstStrikeDamage | Phase::CombatDamage => true,
            _ => false,
        }
    }
}

/// What put an entry on the stack.
#[derive(Debug, Clone, Copy, PartialEq, Eq, Structural)]
pub enum StackSource {
    /// A card being cast.
    Spell(ObjectId),
    /// An activated ability of a permanent.
    ActivatedAbility { source_id: ObjectId, ability_index: usize },
    /// A triggered ability.
    TriggeredAbility { source_id: ObjectId, ability_index: usize },
}

/// The object a stack source refers to.
pub open spec fn source_object(s: StackSource) -> ObjectId {
    match s {
        StackSource::Spell(id) => id,
        StackSource::ActivatedAbility { source_id, .. } => source_id,
        StackSource::TriggeredAbility { source_id, .. } => source_id,
    }
}

/// A resolved target.
#[derive(Debug, Clone, Copy, PartialEq, Eq, Hash, Structural)]
pub enum Target {
    Player(PlayerIndex),
    Object(ObjectId),
}

/// A spell or ability waiting on the stack.
#[derive(Debug)]
pub struct StackEntry {
    pub id: u64,
    pub source: StackSource,
    pub controller: PlayerIndex,
    pub targets: Vec<Target>,
}

impl Clone for StackEntry {
    fn clone(&self) -> (r: Self)
        ensures
            r.id == self.id,
            r.source == self.source,
            r.controller == self.controller,
            r.targets@ == self.targets@,
    {
        StackEntry {
            id: self.id,
            source: self.source,
            controller: self.controller,
            targets: self.targets.clone(),
        }
    }
}

/// A trigger that has been queued but not yet put on the stack.
#[derive(Debug)]
pub struct PendingTrigger {
    pub source_id: ObjectId,
    pub ability_index: usize,
    pub controller: PlayerIndex,
    pub targets: Vec<Target>,
}

impl Clone for PendingTrigger {
    fn clone(&self) -> (r: Self)
        ensures
            r.source_id == self.source_id,
            r.ability_index == self.ability_index,
            r.controller == self.controller,
            r.targets@ == self.targets@,
    {
        PendingTrigger {
            source_id: self.source_id,
            ability_index: self.ability_index,
            controller: self.controller,
            targets: self.targets.clone(),
        }
    }
}

/// A pending tutor choice: a library search has resolved and the player
/// must choose which card to find.
#[derive(Debug)]
pub struct PendingTutor {
    /// The player searching their library.
    pub controller: PlayerIndex,
    /// Where the found card goes.
    pub destination: ZoneType,
    /// When non-empty, only cards with one of these subtypes qualify.
    pub subtype_filter: Vec<Subtype>,
}

/// The names of a list of subtypes.
pub open spec fn subtype_names(v: Seq<Subtype>) -> Seq<Seq<char>> {
    v.map_values(|s: Subtype| s.0@)
}

impl PendingTutor {
    /// Whether two pending tutors hold the same values.
    pub open spec fn same_as(self, o: PendingTutor) -> bool {
        &&& self.controller == o.controller
        &&& self.destination == o.destination
        &&& subtype_names(self.subtype_filter@) == subtype_names(o.subtype_filter@)
    }
}

impl Clone for PendingTutor {
    fn clone(&self) -> (r: Self)
        ensures
            r.same_as(*self),
    {
        let filter = self.subtype_filter.clone();
        assert(subtype_names(filter@) =~= subtype_names(self.subtype_filter@)) by {
            assert forall|i: int| 0 <= i < filter@.len() implies filter@[i].0@ == self.subtype_filter@[i].0@ by {
                assert(cloned::<Subtype>(self.subtype_filter@[i], filter@[i]));
            }
        }
        PendingTutor {
            controller: self.controller,
            destination: self.destination,
            subtype_filter: filter,
        }
    }
}

/// Per-player state.
#[derive(Debug)]
pub struct PlayerState {
    pub life: i32,
    pub mana_pool: ManaPool,
    pub land_plays_remaining: u32,
    pub has_drawn_for_turn: bool,
    pub has_lost: bool,
    pub has_won: bool,
    pub library: Vec<ObjectId>,
    pub hand: Vec<ObjectId>,
    pub graveyard: Vec<ObjectId>,
    pub exile: Vec<ObjectId>,
    /// The command zone (Commander format only).
    pub command_zone: Vec<ObjectId>,
    /// The card id of this player's commander.
    pub commander_card_id: Option<CardId>,
    /// The object id of this player's commander instance.
    pub commander_object_id: Option<ObjectId>,
    /// How many times the commander has been cast from the command zone.
    pub commander_tax: u32,
    /// A partner commander's card id (CR 702.124).
    pub partner_commander_card_id: Option<CardId>,
    /// A partner commander's object id.
    pub partner_commander_object_id: Option<ObjectId>,
    /// Tax for the partner commander.
    pub partner_commander_tax: u32,
    /// Commander damage received from each player's commander.
    pub commander_damage_received: Vec<i32>,
    /// Poison counters (10 or more loses the game).
    pub poison_counters: u32,
    /// How many times this player has mulliganed.
    pub mulligan_count: u32,
    /// Whether this player has decided to keep.
    pub mulligan_decided: bool,
    /// Cards that tutor effects may search for.
    pub tutor_targets: Vec<CardId>,
}

/// A player at the start of a game with the given life total.
pub open spec fn fresh_player(p: PlayerState, life: i32) -> bool {
    &&& p.life == life
    &&& p.mana_pool == empty_pool()
    &&& p.land_plays_remaining == 1
    &&& !p.has_drawn_for_turn
    &&& !p.has_lost
    &&& !p.has_won
    &&& p.library@.len() == 0
    &&& p.hand@.len() == 0
    &&& p.graveyard@.len() == 0
    &&& p.exile@.len() == 0
    &&& p.command_zone@.len() == 0
    &&& p.commander_card_id is None
    &&& p.commander_object_id is None
    &&& p.commander_tax == 0
    &&& p.partner_commander_card_id is None
    &&& p.partner_commander_object_id is None
    &&& p.partner_commander_tax == 0
    &&& p.commander_damage_received@.len() == 0
    &&& p.poison_counters == 0
    &&& p.mulligan_count == 0
    &&& !p.mulligan_decided
    &&& p.tutor_targets@.len() == 0
}

impl PlayerState {
    /// Whether two player states hold the same values.
    pub open spec fn same_as(self, o: PlayerState) -> bool {
        &&& self.life == o.life
        &&& self.mana_pool == o.mana_pool
        &&& self.land_plays_remaining == o.land_plays_remaining
        &&& self.has_drawn_for_turn == o.has_drawn_for_turn
        &&& self.has_lost == o.has_lost
        &&& self.has_won == o.has_won
        &&& self.library@ == o.library@
        &&& self.hand@ == o.hand@
        &&& self.graveyard@ == o.graveyard@
        &&& self.exile@ == o.exile@
        &&& self.command_zone@ == o.command_zone@
        &&& self.commander_card_id == o.commander_card_id
        &&& self.commander_object_id == o.commander_object_id
        &&& self.commander_tax == o.commander_tax
        &&& self.partner_commander_card_id == o.partner_commander_card_id
        &&& self.partner_commander_object_id == o.partner_commander_object_id
        &&& self.partner_commander_tax == o.partner_commander_tax
        &&& self.commander_damage_received@ == o.commander_damage_received@
        &&& self.poison_counters == o.poison_counters
        &&& self.mulligan_count == o.mulligan_count
        &&& self.mulligan_decided == o.mulligan_decided
        &&& self.tutor_targets@ == o.tutor_targets@
    }

    /// A player with 20 life, one land play and empty zones.
    pub fn new() -> (r: PlayerState)
        ensures
            fresh_player(r, 20),
    {
        PlayerState {
            life: 20,
            mana_pool: ManaPool::empty(),
            land_plays_remaining: 1,
            has_drawn_for_turn: false,
            has_lost: false,
            has_won: false,
            library: Vec::new(),
            hand: Vec::new(),
            graveyard: Vec::new(),
            exile: Vec::new(),
            command_zone: Vec::new(),
            commander_card_id: None,
            commander_object_id: None,
            commander_tax: 0,
            partner_commander_card_id: None,
            partner_commander_object_id: None,
            partner_commander_tax: 0,
            commander_damage_received: Vec::new(),
            poison_counters: 0,
            mulligan_count: 0,
            mulligan_decided: false,
            tutor_targets: Vec::new(),
        }
    }

    /// A fresh player with the given starting life.
    pub fn new_commander(starting_life: i32) -> (r: PlayerState)
        ensures
            fresh_player(r, starting_life),
    {
        let mut state = Self::new();
        state.life = starting_life;
        state
    }
}

impl Clone for PlayerState {
    fn clone(&self) -> (r: Self)
        ensures
            r.same_as(*self),
    {
        PlayerState {
            life: self.life,
            mana_pool: self.mana_pool,
            land_plays_remaining: self.land_plays_remaining,
            has_drawn_for_turn: self.has_drawn_for_turn,
            has_lost: self.has_lost,
            has_won: self.has_won,
            library: self.library.clone(),
            hand: self.hand.clone(),
            graveyard: self.graveyard.clone(),
            exile: self.exile.clone(),
            command_zone: self.command_zone.clone(),
            commander_card_id: self.commander_card_id,
            commander_object_id: self.commander_object_id,
            commander_tax: self.commander_tax,
            partner_commander_card_id: self.partner_commander_card_id,
            partner_commander_object_id: self.partner_commander_object_id,
            partner_commander_tax: self.partner_commander_tax,
            commander_damage_received: self.commander_damage_received.clone(),
            poison_counters: self.poison_counters,
            mulligan_count: self.mulligan_count,
            mulligan_decided: self.mulligan_decided,
            tutor_targets: self.tutor_targets.clone(),
        }
    }
}

/// Combat state tracked during the combat phase.
#[derive(Debug)]
pub struct CombatState {
    /// Creatures declared as attackers.
    pub attackers: Vec<ObjectId>,
    /// Blocker -> the attacker it blocks.
    pub blockers: HashMap<ObjectId, ObjectId>,
    /// Attacker -> its blockers.
    pub attacker_blockers: HashMap<ObjectId, Vec<ObjectId>>,
    /// Attacker -> damage assigned to each blocker.
    pub damage_assignment: HashMap<ObjectId, Vec<(ObjectId, u32)>>,
}

impl CombatState {
    /// Whether two combat states hold the same values.
    pub open spec fn same_as(self, o: CombatState) -> bool {
        &&& self.attackers@ == o.attackers@
        &&& self.blockers@ == o.blockers@
        &&& self.attacker_blockers@ == o.attacker_blockers@
        &&& self.damage_assignment@ == o.damage_assignment@
    }

    /// Whether no combat is recorded.
    pub open spec fn is_clear(&self) -> bool {
        &&& self.attackers@.len() == 0
        &&& self.blockers@ == Map::<ObjectId, ObjectId>::empty()
        &&& self.attacker_blockers@ == Map::<ObjectId, Vec<ObjectId>>::empty()
        &&& self.damage_assignment@ == Map::<ObjectId, Vec<(ObjectId, u32)>>::empty()
    }

    /// An empty combat state.
    pub fn new() -> (r: CombatState)
        ensures
            r.is_clear(),
    {
        CombatState {
            attackers: Vec::new(),
            blockers: HashMap::new(),
            attacker_blockers: HashMap::new(),
            damage_assignment: HashMap::new(),
        }
    }

    /// Forget all attackers, blockers and damage assignments.
    pub fn clear(&mut self)
        ensures
            final(self).is_clear(),
    {
        self.attackers.clear();
        self.blockers.clear();
        self.attacker_blockers.clear();
        self.damage_assignment.clear();
    }
}

impl Clone for CombatState {
    fn clone(&self) -> (r: Self)
        ensures
            r.same_as(*self),
    {
        CombatState {
            attackers: self.attackers.clone(),
            blockers: self.blockers.clone(),
            attacker_blockers: self.attacker_blockers.clone(),
            damage_assignment: self.damage_assignment.clone(),
        }
    }
}

/// The complete game state.
#[derive(Debug)]
pub struct GameState {
    /// Card definitions, shared and immutable.
    pub card_db: Option<Arc<CardDatabase>>,
    /// The game format.
    pub format: GameFormat,
    /// All card instances in the game, by object id.
    pub objects: HashMap<ObjectId, CardInstance>,
    /// The battlefield (both players' permanents).
    pub battlefield: Vec<ObjectId>,
    /// The stack.
    pub stack: Vec<StackEntry>,
    /// Player states.
    pub players: Vec<PlayerState>,
    /// Whose turn it is.
    pub active_player: PlayerIndex,
    /// Current phase or step.
    pub phase: Phase,
    /// Which player has priority.
    pub priority_player: PlayerIndex,
    /// Turn number (starts at 1).
    pub turn_number: u32,
    /// How many players have passed priority in succession.
    pub consecutive_passes: u32,
    /// Combat state.
    pub combat: CombatState,
    /// Next object id to assign.
    pub next_object_id: ObjectId,
    /// Next stack entry id.
    pub next_stack_id: u64,
    /// Triggers waiting to be put on the stack.
    pub pending_triggers: Vec<PendingTrigger>,
    /// Next timestamp for continuous effect ordering (CR 613.7).
    pub next_timestamp: u32,
    /// Active replacement effects (CR 614).
    pub replacement_effects: Vec<ReplacementEffect>,
    /// A pending tutor choice.
    pub pending_tutor: Option<PendingTutor>,
    /// Players who take extra turns, in order.
    pub extra_turns: VecDeque<PlayerIndex>,
    /// Spells cast this turn (storm count).
    pub spells_cast_this_turn: u32,
    /// Phases to skip this turn.
    pub skip_phases: Vec<Phase>,
    /// Whether the game is over.
    pub game_over: bool,
    /// The winner, if the game is over (`None` is a draw).
    pub winner: Option<PlayerIndex>,
    /// Events emitted since they were last drained.
    pub pending_events: Vec<GameEvent>,
}

/// A game state at the start of a game: no objects, empty shared zones,
/// turn 1 in the untap step, player 0 active, all counters at their start.
pub open spec fn fresh_game(s: GameState, format: GameFormat, n: int) -> bool {
    &&& s.card_db is None
    &&& s.format == format
    &&& s.objects@ == Map::<ObjectId, CardInstance>::empty()
    &&& s.battlefield@.len() == 0
    &&& s.stack@.len() == 0
    &&& s.players@.len() == n
    &&& s.active_player == 0
    &&& s.phase == Phase::Untap
    &&& s.priority_player == 0
    &&& s.turn_number == 1
    &&& s.consecutive_passes == 0
    &&& s.combat.is_clear()
    &&& s.next_object_id == 1
    &&& s.next_stack_id == 1
    &&& s.pending_triggers@.len() == 0
    &&& s.next_timestamp == 1
    &&& s.replacement_effects@.len() == 0
    &&& s.pending_tutor is None
    &&& s.extra_turns@.len() == 0
    &&& s.spells_cast_this_turn == 0
    &&& s.skip_phases@.len() == 0
    &&& !s.game_over
    &&& s.winner is None
    &&& s.pending_events@.len() == 0
}

impl GameState {
    /// The card database (meaningful when one is set).
    pub open spec fn db(&self) -> CardDatabase {
        *self.card_db->0
    }

    /// The definition of the card an object is an instance of.
    pub open spec fn def_of(&self, id: ObjectId) -> Option<crate::card::CardDef> {
        self.db().lookup(self.objects@[id].card_def_id)
    }

    /// Every object on the battlefield is a known object.
    pub open spec fn battlefield_known(&self) -> bool {
        forall|i: int|
            0 <= i < self.battlefield@.len() ==> self.objects@.contains_key(
                #[trigger] self.battlefield@[i],
            )
    }

    /// Every object's owner and controller is a player of the game.
    pub open spec fn owners_valid(&self) -> bool {
        forall|id: ObjectId|
            #[trigger] self.objects@.contains_key(id) ==> self.objects@[id].owner
                < self.players@.len() && self.objects@[id].controller < self.players@.len()
    }

    /// A new two-or-more-player game in Standard format.
    pub fn new(num_players: usize) -> (r: GameState)
        ensures
            fresh_game(r, GameFormat::Standard, num_players as int),
            forall|i: int| 0 <= i < num_players ==> fresh_player(#[trigger] r.players@[i], 20),
    {
        let mut players: Vec<PlayerState> = Vec::new();
        let mut i: usize = 0;
        while i < num_players
            invariant
                i <= num_players,
                players@.len() == i,
                forall|k: int| 0 <= k < i ==> fresh_player(#[trigger] players@[k], 20),
            decreases num_players - i,
        {
            players.push(PlayerState::new());
            i = i + 1;
        }
        GameState {
            card_db: None,
            format: GameFormat::Standard,
            objects: HashMap::new(),
            battlefield: Vec::new(),
            stack: Vec::new(),
            players,
            active_player: 0,
            phase: Phase::Untap,
            priority_player: 0,
            turn_number: 1,
            consecutive_passes: 0,
            combat: CombatState::new(),
            next_object_id: 1,
            next_stack_id: 1,
            pending_triggers: Vec::new(),
            next_timestamp: 1,
            replacement_effects: Vec::new(),
            pending_tutor: None,
            extra_turns: VecDeque::new(),
            spells_cast_this_turn: 0,
            skip_phases: Vec::new(),
            game_over: false,
            winner: None,
            pending_events: Vec::new(),
        }
    }

    /// A new game in Commander format: 40 life, and commander damage
    /// tracked from each player.
    pub fn new_commander(num_players: usize) -> (r: GameState)
        ensures
            fresh_game(r, GameFormat::Commander, num_players as int),
            forall|i: int|
                0 <= i < num_players ==> {
                    let p = #[trigger] r.players@[i];
                    &&& p.life == 40
                    &&& p.commander_damage_received@ == Seq::new(num_players as nat, |j: int| 0i32)
                    &&& p.library@.len() == 0 && p.hand@.len() == 0 && p.graveyard@.len() == 0
                    &&& p.exile@.len() == 0 && p.command_zone@.len() == 0
                    &&& !p.has_lost && p.commander_tax == 0 && p.mulligan_count == 0
                },
    {
        let mut players: Vec<PlayerState> = Vec::new();
        let mut i: usize = 0;
        while i < num_players
            invariant
                i <= num_players,
                players@.len() == i,
                forall|k: int|
                    0 <= k < i ==> {
                        let p = #[trigger] players@[k];
                        &&& p.life == 40
                        &&& p.commander_damage_received@ == Seq::new(
                            num_players as nat,
                            |j: int| 0i32,
                        )
                        &&& p.library@.len() == 0 && p.hand@.len() == 0 && p.graveyard@.len()
                            == 0
                        &&& p.exile@.len() == 0 && p.command_zone@.len() == 0
                        &&& !p.has_lost && p.commander_tax == 0 && p.mulligan_count == 0
                    },
            decreases num_players - i,
        {
            let mut p = PlayerState::new_commander(40);
            let mut dmg: Vec<i32> = Vec::new();
            let mut j: usize = 0;
            while j < num_players
                invariant
                    j <= num_players,
                    dmg@ =~= Seq::new(j as nat, |k: int| 0i32),
                decreases num_players - j,
            {
                dmg.push(0);
                j = j + 1;
            }
            p.commander_damage_received = dmg;
            players.push(p);
            i = i + 1;
        }
        GameState {
            card_db: None,
            format: GameFormat::Commander,
            objects: HashMap::new(),
            battlefield: Vec::new(),
            stack: Vec::new(),
            players,
            active_player: 0,
            phase: Phase::Untap,
            priority_player: 0,
            turn_number: 1,
            consecutive_passes: 0,
            combat: CombatState::new(),
            next_object_id: 1,
            next_stack_id: 1,
            pending_triggers: Vec::new(),
            next_timestamp: 1,
            replacement_effects: Vec::new(),
            pending_tutor: None,
            extra_turns: VecDeque::new(),
            spells_cast_this_turn: 0,
            skip_phases: Vec::new(),
            game_over: false,
            winner: None,
            pending_events: Vec::new(),
        }
    }

    /// Whether this game uses Commander rules.
    pub fn is_commander_format(&self) -> (r: bool)
        ensures
            r == (self.format == GameFormat::Commander),
    {
        self.format == GameFormat::Commander
    }

    /// The card database; a game without one has none to give.
    pub fn card_db(&self) -> (r: &CardDatabase)
        requires
            self.card_db is Some,
        ensures
            *r == self.db(),
    {
        let db: &Arc<CardDatabase> = self.card_db.as_ref().unwrap();
        &**db
    }

    /// Allocate a new unique object id.
    pub fn new_object_id(&mut self) -> (r: ObjectId)
        requires
            old(self).next_object_id < u64::MAX,
        ensures
            r == old(self).next_object_id,
            *final(self) == (GameState { next_object_id: (old(self).next_object_id + 1) as u64, ..*old(self) }),
    {
        let id = self.next_object_id;
        self.next_object_id = self.next_object_id + 1;
        id
    }

    /// Allocate a new stack entry id.
    pub fn new_stack_id(&mut self) -> (r: u64)
        requires
            old(self).next_stack_id < u64::MAX,
        ensures
            r == old(self).next_stack_id,
            *final(self) == (GameState { next_stack_id: (old(self).next_stack_id + 1) as u64, ..*old(self) }),
    {
        let id = self.next_stack_id;
        self.next_stack_id = self.next_stack_id + 1;
        id
    }

    /// Allocate a new timestamp for continuous effect ordering.
    pub fn new_timestamp(&mut self) -> (r: u32)
        requires
            old(self).next_timestamp < u32::MAX,
        ensures
            r == old(self).next_timestamp,
            *final(self) == (GameState { next_timestamp: (old(self).next_timestamp + 1) as u32, ..*old(self) }),
    {
        let ts = self.next_timestamp;
        self.next_timestamp = self.next_timestamp + 1;
        ts
    }

    /// Emit a game event to the event accumulator.
    pub fn emit_event(&mut self, event: GameEvent)
        ensures
            final(self).pending_events@ == old(self).pending_events@.push(event),
            *final(self) == (GameState { pending_events: final(self).pending_events, ..*old(self) }),
    {
        self.pending_events.push(event);
    }

    /// Take all pending events, leaving none.
    pub fn drain_events(&mut self) -> (r: Vec<GameEvent>)
        ensures
            r@ == old(self).pending_events@,
            final(self).pending_events@.len() == 0,
            *final(self) == (GameState { pending_events: final(self).pending_events, ..*old(self) }),
    {
        let mut out: Vec<GameEvent> = Vec::new();
        std::mem::swap(&mut out, &mut self.pending_events);
        out
    }

    /// Whether a player has lost: life at or below zero, or marked lost.
    pub fn check_player_lost(&self, player: PlayerIndex) -> (r: bool)
        requires
            player < self.players@.len(),
        ensures
            r == (self.players@[player as int].life <= 0 || self.players@[player as int].has_lost),
    {
        self.players[player].life <= 0 || self.players[player].has_lost
    }
}

/// The players after `player` among the first `k`, who have not lost, in
/// seat order.
pub open spec fn opponents_upto(ps: Seq<PlayerState>, player: int, k: int) -> Seq<PlayerIndex>
    decreases k,
{
    if k <= 0 {
        Seq::empty()
    } else {
        let r = opponents_upto(ps, player, k - 1);
        if k - 1 != player && !ps[k - 1].has_lost {
            r.push((k - 1) as usize)
        } else {
            r
        }
    }
}

/// Whether `q` is one of the first `k` players, other than `player`, who
/// has not lost.
pub open spec fn valid_opponent(ps: Seq<PlayerState>, player: int, k: int, q: usize) -> bool {
    &&& 0 <= q < k
    &&& q != player
    &&& !ps[q as int].has_lost
}

/// Every opponent listed is one of the first `k` players, other than
/// `player`, who has not lost.
pub proof fn lemma_opponents_upto_valid(ps: Seq<PlayerState>, player: int, k: int)
    requires
        0 <= k <= ps.len(),
        k <= usize::MAX,
    ensures
        forall|j: int|
            0 <= j < opponents_upto(ps, player, k).len() ==> valid_opponent(
                ps,
                player,
                k,
                #[trigger] opponents_upto(ps, player, k)[j],
            ),
    decreases k,
{
    if k > 0 {
        lemma_opponents_upto_valid(ps, player, k - 1);
        let r = opponents_upto(ps, player, k - 1);
        if k - 1 != player && !ps[k - 1].has_lost {
            assert forall|j: int| 0 <= j < r.push((k - 1) as usize).len() implies valid_opponent(
                ps,
                player,
                k,
                #[trigger] r.push((k - 1) as usize)[j],
            ) by {
                if j < r.len() {
                    assert(r.push((k - 1) as usize)[j] == r[j]);
                }
            }
        }
    }
}

/// The first player at seat offset `offset` or later (up to a full round)
/// after `player` who has not lost, or `player` if there is none.
pub open spec fn next_alive_from(ps: Seq<PlayerState>, player: int, offset: int) -> int
    decreases ps.len() + 1 - offset,
{
    if offset < 1 || offset > ps.len() {
        player
    } else {
        let nx = (player + offset) % (ps.len() as int);
        if !ps[nx].has_lost {
            nx
        } else {
            next_alive_from(ps, player, offset + 1)
        }
    }
}

/// The first player at `offset` or more seats after `player` (below a
/// full round), wrapping around, who has not lost; 0 if there is none.
pub open spec fn clockwise_opponent(ps: Seq<PlayerState>, player: int, offset: int) -> int
    decreases ps.len() - offset,
{
    if offset < 1 || offset >= ps.len() {
        0
    } else {
        let nx = (player + offset) % (ps.len() as int);
        if !ps[nx].has_lost {
            nx
        } else {
            clockwise_opponent(ps, player, offset + 1)
        }
    }
}

/// What emitting an event makes of a state: the event is added after the
/// pending ones, and nothing else changes.
pub open spec fn emitted(s0: GameState, e: GameEvent, s1: GameState) -> bool {
    &&& s1.pending_events@ == s0.pending_events@.push(e)
    &&& s1 == (GameState { pending_events: s1.pending_events, ..s0 })
}

/// Events come out in the order they were emitted: after emitting `es` one
/// by one from `states[0]` (`states[i + 1]` being `states[i]` after
/// emitting `es[i]`), draining the events gives the events pending at the
/// start followed by `es`, leaves none pending, and changes nothing else.
pub proof fn lemma_events_in_order(
    states: Seq<GameState>,
    es: Seq<GameEvent>,
    drained: Seq<GameEvent>,
    after: GameState,
)
    requires
        states.len() == es.len() + 1,
        forall|i: int| 0 <= i < es.len() ==> emitted(states[i], #[trigger] es[i], states[i + 1]),
        drained == states.last().pending_events@,
        after.pending_events@.len() == 0,
        after == (GameState { pending_events: after.pending_events, ..states.last() }),
    ensures
        drained == states[0].pending_events@ + es,
        after.pending_events@.len() == 0,
        after == (GameState { pending_events: after.pending_events, ..states[0] }),
{
    lemma_emits_append(states, es);
}

proof fn lemma_emits_append(states: Seq<GameState>, es: Seq<GameEvent>)
    requires
        states.len() == es.len() + 1,
        forall|i: int| 0 <= i < es.len() ==> emitted(states[i], #[trigger] es[i], states[i + 1]),
    ensures
        states.last().pending_events@ == states[0].pending_events@ + es,
        states.last() == (GameState { pending_events: states.last().pending_events, ..states[0] }),
    decreases es.len(),
{
    if es.len() > 0 {
        let ps = states.drop_last();
        let pe = es.drop_last();
        assert forall|i: int| 0 <= i < pe.len() implies emitted(ps[i], #[trigger] pe[i], ps[i + 1]) by {
            assert(emitted(states[i], es[i], states[i + 1]));
        }
        lemma_emits_append(ps, pe);
        assert(emitted(states[es.len() - 1], es[es.len() - 1], states[es.len() as int]));
        assert(states.last().pending_events@ =~= states[0].pending_events@ + es);
    }
}

/// The clockwise opponent is a seat of the table.
pub proof fn lemma_clockwise_opponent_range(ps: Seq<PlayerState>, player: int, offset: int)
    requires
        ps.len() > 0,
        0 <= player,
    ensures
        0 <= clockwise_opponent(ps, player, offset) < ps.len(),
    decreases ps.len() - offset,
{
    if !(offset < 1 || offset >= ps.len()) {
        if offset >= 1 {
            vstd::arithmetic::div_mod::lemma_mod_bound(player + offset, ps.len() as int);
        }
        lemma_clockwise_opponent_range(ps, player, offset + 1);
    }
}

/// How many of the first `k` players have not lost.
pub open spec fn alive_count(ps: Seq<PlayerState>, k: int) -> int
    decreases k,
{
    if k <= 0 {
        0
    } else {
        alive_count(ps, k - 1) + if ps[k - 1].has_lost { 0int } else { 1int }
    }
}

/// Which permanents a battlefield query keeps.
#[derive(Debug, Clone, Copy, PartialEq, Eq, Structural)]
pub enum PermanentFilter {
    /// Every permanent.
    Any,
    /// Permanents whose card is a creature.
    Creature,
    /// Permanents whose card is a land.
    Land,
    /// Untapped permanents whose card has a mana ability.
    UntappedManaSource,
}

impl GameState {
    /// Whether the object's card is a creature, by its definition.
    pub open spec fn def_is_creature(&self, id: ObjectId) -> bool {
        match self.def_of(id) {
            Some(d) => d.is_creature_spec(),
            None => false,
        }
    }

    /// Whether the object's card is a land, by its definition.
    pub open spec fn def_is_land(&self, id: ObjectId) -> bool {
        match self.def_of(id) {
            Some(d) => d.is_land_spec(),
            None => false,
        }
    }

    /// Whether the object's card has a mana ability.
    pub open spec fn def_has_mana_ability(&self, id: ObjectId) -> bool {
        match self.def_of(id) {
            Some(d) => d.mana_abilities@.len() > 0,
            None => false,
        }
    }

    /// Whether a permanent controlled by `player` passes the filter.
    pub open spec fn passes(&self, player: PlayerIndex, f: PermanentFilter, id: ObjectId) -> bool {
        &&& self.objects@[id].controller == player
        &&& match f {
            PermanentFilter::Any => true,
            PermanentFilter::Creature => self.def_is_creature(id),
            PermanentFilter::Land => self.def_is_land(id),
            PermanentFilter::UntappedManaSource => !self.objects@[id].tapped
                && self.def_has_mana_ability(id),
        }
    }

    /// The permanents, in battlefield order, that `player` controls and that
    /// pass the filter.
    pub open spec fn filtered_battlefield(&self, player: PlayerIndex, f: PermanentFilter) -> Seq<
        ObjectId,
    > {
        self.battlefield@.filter(|id: ObjectId| self.passes(player, f, id))
    }

    /// The opponents of `player` who have not lost, in seat order.
    pub open spec fn opponents_spec(&self, player: PlayerIndex) -> Seq<PlayerIndex> {
        opponents_upto(self.players@, player as int, self.players@.len() as int)
    }

    /// Keep the battlefield permanents that `player` controls and that pass
    /// the filter.
    fn battlefield_filtered(&self, player: PlayerIndex, f: PermanentFilter) -> (r: Vec<ObjectId>)
        requires
            self.battlefield_known(),
            f != PermanentFilter::Any ==> self.card_db is Some,
        ensures
            r@ == self.filtered_battlefield(player, f),
    {
        let ghost pred = |id: ObjectId| self.passes(player, f, id);
        let mut out: Vec<ObjectId> = Vec::new();
        let mut i: usize = 0;
        assert(self.battlefield@.take(0) =~= Seq::<ObjectId>::empty());
        while i < self.battlefield.len()
            invariant
                i <= self.battlefield@.len(),
                self.battlefield_known(),
                f != PermanentFilter::Any ==> self.card_db is Some,
                pred == (|id: ObjectId| self.passes(player, f, id)),
                out@ == self.battlefield@.take(i as int).filter(pred),
            decreases self.battlefield.len() - i,
        {
            let id = self.battlefield[i];
            assert(self.objects@.contains_key(self.battlefield@[i as int]));
            let inst = self.objects.get(&id).unwrap();
            let keep = if inst.controller != player {
                false
            } else {
                match f {
                    PermanentFilter::Any => true,
                    PermanentFilter::Creature => {
                        match self.card_db().get(inst.card_def_id) {
                            Some(d) => d.is_creature(),
                            None => false,
                        }
                    },
                    PermanentFilter::Land => {
                        match self.card_db().get(inst.card_def_id) {
                            Some(d) => d.is_land(),
                            None => false,
                        }
                    },
                    PermanentFilter::UntappedManaSource => {
                        if inst.tapped {
                            false
                        } else {
                            match self.card_db().get(inst.card_def_id) {
                                Some(d) => d.mana_abilities.len() > 0,
                                None => false,
                            }
                        }
                    },
                }
            };
            proof {
                assert(self.battlefield@.take(i + 1) =~= self.battlefield@.take(i as int).push(id));
                self.battlefield@.take(i as int).lemma_filter_push(id, pred);
            }
            if keep {
                out.push(id);
            }
            i = i + 1;
        }
        assert(self.battlefield@.take(self.battlefield@.len() as int) =~= self.battlefield@);
        out
    }

    /// The permanents `player` controls, in battlefield order.
    pub fn permanents_controlled_by(&self, player: PlayerIndex) -> (r: Vec<ObjectId>)
        requires
            self.battlefield_known(),
        ensures
            r@ == self.filtered_battlefield(player, PermanentFilter::Any),
    {
        self.battlefield_filtered(player, PermanentFilter::Any)
    }

    /// The creatures `player` controls, by their card definitions.
    pub fn creatures_controlled_by(&self, player: PlayerIndex) -> (r: Vec<ObjectId>)
        requires
            self.battlefield_known(),
            self.card_db is Some,
        ensures
            r@ == self.filtered_battlefield(player, PermanentFilter::Creature),
    {
        self.battlefield_filtered(player, PermanentFilter::Creature)
    }

    /// The lands `player` controls.
    pub fn lands_controlled_by(&self, player: PlayerIndex) -> (r: Vec<ObjectId>)
        requires
            self.battlefield_known(),
            self.card_db is Some,
        ensures
            r@ == self.filtered_battlefield(player, PermanentFilter::Land),
    {
        self.battlefield_filtered(player, PermanentFilter::Land)
    }

    /// The untapped lands `player` controls.
    pub fn untapped_lands(&self, player: PlayerIndex) -> (r: Vec<ObjectId>)
        requires
            self.battlefield_known(),
            self.card_db is Some,
        ensures
            r@ == self.filtered_battlefield(player, PermanentFilter::Land).filter(
                |id: ObjectId| !self.objects@[id].tapped,
            ),
    {
        let lands = self.lands_controlled_by(player);
        let ghost pred = |id: ObjectId| !self.objects@[id].tapped;
        let mut out: Vec<ObjectId> = Vec::new();
        let mut i: usize = 0;
        assert(lands@.take(0) =~= Seq::<ObjectId>::empty());
        proof {
            assert forall|k: int| 0 <= k < lands@.len() implies self.objects@.contains_key(
                #[trigger] lands@[k],
            ) by {
                let p = |id: ObjectId| self.passes(player, PermanentFilter::Land, id);
                assert(self.battlefield@.filter(p).contains(lands@[k]));
                self.battlefield@.lemma_filter_contains_rev(p, lands@[k]);
                assert(self.battlefield@.contains(lands@[k]));
            }
        }
        while i < lands.len()
            invariant
                i <= lands@.len(),
                pred == (|id: ObjectId| !self.objects@[id].tapped),
                forall|k: int| 0 <= k < lands@.len() ==> self.objects@.contains_key(#[trigger] lands@[k]),
                out@ == lands@.take(i as int).filter(pred),
            decreases lands.len() - i,
        {
            let id = lands[i];
            assert(self.objects@.contains_key(lands@[i as int]));
            let tapped = self.objects.get(&id).unwrap().tapped;
            proof {
                assert(lands@.take(i + 1) =~= lands@.take(i as int).push(id));
                lands@.take(i as int).lemma_filter_push(id, pred);
            }
            if !tapped {
                out.push(id);
            }
            i = i + 1;
        }
        assert(lands@.take(lands@.len() as int) =~= lands@);
        out
    }

    /// The untapped permanents `player` controls whose cards have a mana
    /// ability (lands, mana rocks, mana creatures).
    pub fn untapped_mana_sources(&self, player: PlayerIndex) -> (r: Vec<ObjectId>)
        requires
            self.battlefield_known(),
            self.card_db is Some,
        ensures
            r@ == self.filtered_battlefield(player, PermanentFilter::UntappedManaSource),
    {
        self.battlefield_filtered(player, PermanentFilter::UntappedManaSource)
    }

    /// All opponents of `player` who have not lost, in seat order.
    pub fn opponents(&self, player: PlayerIndex) -> (r: Vec<PlayerIndex>)
        ensures
            r@ == self.opponents_spec(player),
    {
        let mut out: Vec<PlayerIndex> = Vec::new();
        let mut i: usize = 0;
        while i < self.players.len()
            invariant
                i <= self.players@.len(),
                out@ == opponents_upto(self.players@, player as int, i as int),
            decreases self.players.len() - i,
        {
            if i != player && !self.players[i].has_lost {
                out.push(i);
            }
            i = i + 1;
        }
        out
    }

    /// The opponent of a player: the first player after them in clockwise
    /// (seat) order, wrapping around, who has not lost; 0 if every other
    /// player has lost. For a player index past the last seat, the first
    /// player in seat order who has not lost.
    pub fn opponent(&self, player: PlayerIndex) -> (r: PlayerIndex)
        ensures
            r == (if player < self.players@.len() {
                clockwise_opponent(self.players@, player as int, 1)
            } else if self.opponents_spec(player).len() > 0 {
                self.opponents_spec(player)[0] as int
            } else {
                0
            }),
    {
        let n = self.players.len();
        if player >= n {
            let ops = self.opponents(player);
            return if ops.len() > 0 {
                ops[0]
            } else {
                0
            };
        }
        let mut offset: usize = 1;
        while offset < n
            invariant
                1 <= offset <= n,
                player < n,
                n == self.players@.len(),
                clockwise_opponent(self.players@, player as int, 1) == clockwise_opponent(
                    self.players@,
                    player as int,
                    offset as int,
                ),
            decreases n - offset,
        {
            let next: usize = if offset < n - player {
                player + offset
            } else {
                offset - (n - player)
            };
            assert(next as int == (player + offset) % (n as int)) by {
                if offset < n - player {
                    vstd::arithmetic::div_mod::lemma_small_mod((player + offset) as nat, n as nat);
                } else {
                    vstd::arithmetic::div_mod::lemma_small_mod((player + offset - n) as nat, n as nat);
                    vstd::arithmetic::div_mod::lemma_mod_add_multiples_vanish((player + offset - n) as int, n as int);
                }
            }
            if !self.players[next].has_lost {
                return next;
            }
            offset = offset + 1;
        }
        0
    }

    /// The next player in seat order who has not lost, wrapping around;
    /// `player` itself if no other player remains.
    pub fn next_player(&self, player: PlayerIndex) -> (r: PlayerIndex)
        requires
            player + self.players@.len() < usize::MAX,
        ensures
            r == next_alive_from(self.players@, player as int, 1),
    {
        let n = self.players.len();
        let mut offset: usize = 1;
        while offset <= n
            invariant
                1 <= offset <= n + 1,
                n == self.players@.len(),
                player + n < usize::MAX,
                next_alive_from(self.players@, player as int, 1) == next_alive_from(
                    self.players@,
                    player as int,
                    offset as int,
                ),
            decreases n + 1 - offset,
        {
            let next = (player + offset) % n;
            if !self.players[next].has_lost {
                return next;
            }
            offset = offset + 1;
        }
        player
    }

    /// How many players have not lost.
    pub fn active_player_count(&self) -> (r: usize)
        ensures
            r == alive_count(self.players@, self.players@.len() as int),
    {
        let mut count: usize = 0;
        let mut i: usize = 0;
        while i < self.players.len()
            invariant
                i <= self.players@.len(),
                count == alive_count(self.players@, i as int),
                count <= i,
            decreases self.players.len() - i,
        {
            if !self.players[i].has_lost {
                count = count + 1;
            }
            i = i + 1;
        }
        count
    }

    /// The engine's turn number as a game turn (a full round of all
    /// players): with two players, engine turns 1 and 2 are game turn 1.
    pub fn game_turn(&self) -> (r: u32)
        requires
            0 < self.players@.len() <= u32::MAX,
            self.turn_number + self.players@.len() - 1 <= u32::MAX,
        ensures
            r == (self.turn_number + self.players@.len() - 1) / (self.players@.len() as int),
    {
        let n = self.players.len() as u32;
        (self.turn_number + (n - 1)) / n
    }

    /// Whether the object is in any player's command zone.
    pub fn is_in_command_zone(&self, obj_id: ObjectId) -> (r: bool)
        ensures
            r == exists|p: int|
                0 <= p < self.players@.len() && (#[trigger] self.players@[p]).command_zone@.contains(
                    obj_id,
                ),
    {
        let mut p: usize = 0;
        while p < self.players.len()
            invariant
                p <= self.players@.len(),
                forall|q: int| 0 <= q < p ==> !(#[trigger] self.players@[q]).command_zone@.contains(obj_id),
            decreases self.players.len() - p,
        {
            if crate::game::contains_id(&self.players[p].command_zone, obj_id) {
                return true;
            }
            p = p + 1;
        }
        false
    }
}

/// Whether a list of object ids holds a given id.
pub fn contains_id(v: &Vec<ObjectId>, id: ObjectId) -> (r: bool)
    ensures
        r == v@.contains(id),
{
    let mut i: usize = 0;
    while i < v.len()
        invariant
            i <= v@.len(),
            forall|k: int| 0 <= k < i ==> v@[k] != id,
        decreases v.len() - i,
    {
        if v[i] == id {
            return true;
        }
        i = i + 1;
    }
    false
}

/// The cards of one player zone (library, hand, graveyard, exile or command
/// zone); empty for the shared zones.
pub open spec fn player_zone(p: PlayerState, z: ZoneType) -> Seq<ObjectId> {
    match z {
        ZoneType::Library => p.library@,
        ZoneType::Hand => p.hand@,
        ZoneType::Graveyard => p.graveyard@,
        ZoneType::Exile => p.exile@,
        ZoneType::Command => p.command_zone@,
        _ => Seq::empty(),
    }
}

/// Whether a zone belongs to a player (rather than being shared).
pub open spec fn is_player_zone(z: ZoneType) -> bool {
    z != ZoneType::Battlefield && z != ZoneType::Stack
}

/// Whether two player states agree on everything but their zones.
pub open spec fn same_but_zones(a: PlayerState, b: PlayerState) -> bool {
    &&& a.life == b.life
    &&& a.mana_pool == b.mana_pool
    &&& a.land_plays_remaining == b.land_plays_remaining
    &&& a.has_drawn_for_turn == b.has_drawn_for_turn
    &&& a.has_lost == b.has_lost
    &&& a.has_won == b.has_won
    &&& a.commander_card_id == b.commander_card_id
    &&& a.commander_object_id == b.commander_object_id
    &&& a.commander_tax == b.commander_tax
    &&& a.partner_commander_card_id == b.partner_commander_card_id
    &&& a.partner_commander_object_id == b.partner_commander_object_id
    &&& a.partner_commander_tax == b.partner_commander_tax
    &&& a.commander_damage_received@ == b.commander_damage_received@
    &&& a.poison_counters == b.poison_counters
    &&& a.mulligan_count == b.mulligan_count
    &&& a.mulligan_decided == b.mulligan_decided
    &&& a.tutor_targets@ == b.tutor_targets@
}

impl GameState {
    /// Create a card instance and put it into a zone of its owner (or onto
    /// the battlefield). A card created on the stack is put in no zone.
    pub fn create_card_in_zone(&mut self, card_id: CardId, owner: PlayerIndex, zone: ZoneType) -> (r: ObjectId)
        requires
            owner < old(self).players@.len(),
            old(self).next_object_id < u64::MAX,
        ensures
            r == old(self).next_object_id,
            *final(self) == (GameState {
                next_object_id: final(self).next_object_id,
                objects: final(self).objects,
                battlefield: final(self).battlefield,
                players: final(self).players,
                ..*old(self)
            }),
            final(self).next_object_id == old(self).next_object_id + 1,
            final(self).objects@ == old(self).objects@.insert(r, crate::card::fresh_instance(r, card_id, owner)),
            final(self).battlefield@ == (if zone == ZoneType::Battlefield {
                old(self).battlefield@.push(r)
            } else {
                old(self).battlefield@
            }),
            final(self).players@.len() == old(self).players@.len(),
            forall|p: int|
                0 <= p < final(self).players@.len() ==> same_but_zones(
                    #[trigger] final(self).players@[p],
                    old(self).players@[p],
                ),
            forall|p: int, z: ZoneType|
                0 <= p < final(self).players@.len() ==> #[trigger] player_zone(
                    final(self).players@[p],
                    z,
                ) == (if p == owner && z == zone && is_player_zone(z) {
                    player_zone(old(self).players@[p], z).push(r)
                } else {
                    player_zone(old(self).players@[p], z)
                }),
    {
        let obj_id = self.new_object_id();
        let instance = CardInstance::new(obj_id, card_id, owner);
        self.objects.insert(obj_id, instance);
        match zone {
            ZoneType::Library => self.players[owner].library.push(obj_id),
            ZoneType::Hand => self.players[owner].hand.push(obj_id),
            ZoneType::Battlefield => self.battlefield.push(obj_id),
            ZoneType::Graveyard => self.players[owner].graveyard.push(obj_id),
            ZoneType::Exile => self.players[owner].exile.push(obj_id),
            ZoneType::Stack => {},
            ZoneType::Command => self.players[owner].command_zone.push(obj_id),
        }
        obj_id
    }
}

/// Everything a player can observe: the boundary of an information set.
/// Public zones (battlefield, stack, graveyards, exile, command zones),
/// the opponent's hand and library sizes, and the player's own hand.
pub struct PlayerView<'a> {
    pub phase: Phase,
    pub active_player: PlayerIndex,
    pub turn_number: u32,
    pub battlefield: &'a [ObjectId],
    pub stack: &'a [StackEntry],
    pub combat: &'a CombatState,
    pub pending_triggers: &'a [PendingTrigger],
    pub priority_player: PlayerIndex,
    pub my_life: i32,
    pub opp_life: i32,
    pub my_graveyard: &'a [ObjectId],
    pub opp_graveyard: &'a [ObjectId],
    pub my_exile: &'a [ObjectId],
    pub opp_exile: &'a [ObjectId],
    /// Number of cards in the opponent's hand (contents hidden).
    pub opp_hand_size: usize,
    /// Number of cards in the opponent's library (contents hidden).
    pub opp_library_size: usize,
    /// The viewing player's own hand.
    pub my_hand: &'a [ObjectId],
    pub my_mana_pool: &'a ManaPool,
    pub my_land_plays_remaining: u32,
    pub my_command_zone: &'a [ObjectId],
    pub opp_command_zone: &'a [ObjectId],
    pub my_commander_tax: u32,
    pub format: GameFormat,
    pub my_mulligan_count: u32,
    pub pending_tutor: Option<&'a PendingTutor>,
    /// The card instances in zones the viewing player can see.
    pub objects: HashMap<ObjectId, CardInstance>,
    pub card_db: &'a CardDatabase,
}

impl GameState {
    /// Whether an object is in a zone that `player` can see: the
    /// battlefield, the stack, any graveyard, exile or command zone, the
    /// player's own hand, a pending trigger's source, or combat.
    pub open spec fn is_visible_to(&self, player: PlayerIndex, id: ObjectId) -> bool {
        ||| self.battlefield@.contains(id)
        ||| (exists|i: int| 0 <= i < self.stack@.len() && source_object((#[trigger] self.stack@[i]).source) == id)
        ||| (exists|p: int| 0 <= p < self.players@.len() && (#[trigger] self.players@[p]).graveyard@.contains(id))
        ||| (exists|p: int| 0 <= p < self.players@.len() && (#[trigger] self.players@[p]).exile@.contains(id))
        ||| self.players@[player as int].hand@.contains(id)
        ||| (exists|i: int| 0 <= i < self.pending_triggers@.len() && (#[trigger] self.pending_triggers@[i]).source_id == id)
        ||| (exists|p: int| 0 <= p < self.players@.len() && (#[trigger] self.players@[p]).command_zone@.contains(id))
        ||| self.combat.attackers@.contains(id)
        ||| self.combat.blockers@.contains_key(id)
        ||| (exists|b: ObjectId| #[trigger] self.combat.blockers@.contains_key(b) && self.combat.blockers@[b] == id)
    }

    /// The objects `player` can see.
    pub open spec fn visible_ids(&self, player: PlayerIndex) -> Set<ObjectId> {
        Set::new(|id: ObjectId| self.is_visible_to(player, id))
    }

    /// Add one object to a visible-objects map, if it exists.
    fn add_visible(&self, visible: &mut HashMap<ObjectId, CardInstance>, id: ObjectId, Ghost(seen): Ghost<Set<ObjectId>>)
        requires
            old(visible)@ == self.objects@.restrict(seen),
        ensures
            final(visible)@ == self.objects@.restrict(seen.insert(id)),
    {
        match self.objects.get(&id) {
            Some(inst) => {
                visible.insert(id, *inst);
                assert(final(visible)@ =~= self.objects@.restrict(seen.insert(id)));
            },
            None => {
                assert(old(visible)@ =~= self.objects@.restrict(seen.insert(id)));
            },
        }
    }

    /// Add every object of a list to a visible-objects map.
    fn add_visible_all(&self, visible: &mut HashMap<ObjectId, CardInstance>, ids: &Vec<ObjectId>, Ghost(seen): Ghost<Set<ObjectId>>)
        requires
            old(visible)@ == self.objects@.restrict(seen),
        ensures
            final(visible)@ == self.objects@.restrict(seen + ids@.to_set()),
    {
        let mut i: usize = 0;
        let ghost mut cur = seen;
        while i < ids.len()
            invariant
                i <= ids@.len(),
                visible@ == self.objects@.restrict(cur),
                cur == seen + ids@.take(i as int).to_set(),
            decreases ids.len() - i,
        {
            self.add_visible(visible, ids[i], Ghost(cur));
            proof {
                assert(ids@.take(i + 1) =~= ids@.take(i as int).push(ids@[i as int]));
                ids@.take(i as int).lemma_push_to_set_commute(ids@[i as int]);
                assert(seen + ids@.take(i + 1).to_set() =~= cur.insert(ids@[i as int]));
                cur = cur.insert(ids@[i as int]);
            }
            i = i + 1;
        }
        assert(ids@.take(ids@.len() as int) =~= ids@);
    }
}

impl GameState {
    /// Build what `player` can observe. The objects map holds copies of the
    /// instances in the zones the player can see; the opponent's hand and
    /// both libraries are left out.
    pub fn visible_state(&self, player: PlayerIndex) -> (r: PlayerView<'_>)
        requires
            player < self.players@.len(),
            self.card_db is Some,
        ensures
            ({
                let opp = clockwise_opponent(self.players@, player as int, 1);
                let me = self.players@[player as int];
                let them = self.players@[opp];
                &&& r.phase == self.phase
                &&& r.active_player == self.active_player
                &&& r.turn_number == self.turn_number
                &&& r.battlefield@ == self.battlefield@
                &&& r.stack@ == self.stack@
                &&& *r.combat == self.combat
                &&& r.pending_triggers@ == self.pending_triggers@
                &&& r.priority_player == self.priority_player
                &&& r.my_life == me.life
                &&& r.opp_life == them.life
                &&& r.my_graveyard@ == me.graveyard@
                &&& r.opp_graveyard@ == them.graveyard@
                &&& r.my_exile@ == me.exile@
                &&& r.opp_exile@ == them.exile@
                &&& r.opp_hand_size == them.hand@.len()
                &&& r.opp_library_size == them.library@.len()
                &&& r.my_hand@ == me.hand@
                &&& *r.my_mana_pool == me.mana_pool
                &&& r.my_land_plays_remaining == me.land_plays_remaining
                &&& r.my_command_zone@ == me.command_zone@
                &&& r.opp_command_zone@ == them.command_zone@
                &&& r.my_commander_tax == me.commander_tax
                &&& r.format == self.format
                &&& r.my_mulligan_count == me.mulligan_count
                &&& (match self.pending_tutor {
                    Some(t) => r.pending_tutor == Some(&t),
                    None => r.pending_tutor is None,
                })
                &&& r.objects@ == self.objects@.restrict(self.visible_ids(player))
                &&& *r.card_db == self.db()
            }),
    {
        let opp = self.opponent(player);
        let np = self.players.len();
        proof {
            lemma_clockwise_opponent_range(self.players@, player as int, 1);
        }
        let mut visible: HashMap<ObjectId, CardInstance> = HashMap::new();
        let ghost mut cur: Set<ObjectId> = Set::empty();
        assert(visible@ =~= self.objects@.restrict(cur));

        // Battlefield.
        self.add_visible_all(&mut visible, &self.battlefield, Ghost(cur));
        proof {
            cur = cur + self.battlefield@.to_set();
        }
        // Stack sources.
        let mut i: usize = 0;
        while i < self.stack.len()
            invariant
                i <= self.stack@.len(),
                visible@ == self.objects@.restrict(cur),
                cur.subset_of(self.visible_ids(player)),
                forall|id: ObjectId| self.battlefield@.contains(id) ==> cur.contains(id),
                forall|k: int| 0 <= k < i ==> cur.contains(source_object(#[trigger] self.stack@[k].source)),
            decreases self.stack.len() - i,
        {
            let source_id = match self.stack[i].source {
                StackSource::Spell(id) => id,
                StackSource::ActivatedAbility { source_id, .. } => source_id,
                StackSource::TriggeredAbility { source_id, .. } => source_id,
            };
            assert(source_object(self.stack@[i as int].source) == source_id);
            self.add_visible(&mut visible, source_id, Ghost(cur));
            proof {
                cur = cur.insert(source_id);
            }
            i = i + 1;
        }
        // Graveyards, exile zones.
        let mut p: usize = 0;
        while p < self.players.len()
            invariant
                p <= self.players@.len(),
                player < self.players@.len(),
                visible@ == self.objects@.restrict(cur),
                cur.subset_of(self.visible_ids(player)),
                forall|id: ObjectId| self.battlefield@.contains(id) ==> cur.contains(id),
                forall|k: int| 0 <= k < self.stack@.len() ==> cur.contains(source_object(#[trigger] self.stack@[k].source)),
                forall|q: int, id: ObjectId|
                    0 <= q < p && #[trigger] self.players@[q].graveyard@.contains(id) ==> cur.contains(id),
                forall|q: int, id: ObjectId|
                    0 <= q < p && #[trigger] self.players@[q].exile@.contains(id) ==> cur.contains(id),
            decreases self.players.len() - p,
        {
            proof {
                assert forall|id: ObjectId| self.players@[p as int].graveyard@.to_set().contains(id) implies self.is_visible_to(player, id) by {
                    assert(self.players@[p as int].graveyard@.contains(id));
                }
            }
            self.add_visible_all(&mut visible, &self.players[p].graveyard, Ghost(cur));
            proof {
                cur = cur + self.players@[p as int].graveyard@.to_set();
                assert forall|id: ObjectId| self.players@[p as int].exile@.to_set().contains(id) implies self.is_visible_to(player, id) by {
                    assert(self.players@[p as int].exile@.contains(id));
                }
            }
            self.add_visible_all(&mut visible, &self.players[p].exile, Ghost(cur));
            proof {
                cur = cur + self.players@[p as int].exile@.to_set();
            }
            p = p + 1;
        }
        // The viewer's own hand.
        self.add_visible_all(&mut visible, &self.players[player].hand, Ghost(cur));
        proof {
            cur = cur + self.players@[player as int].hand@.to_set();
        }
        // Pending trigger sources.
        let mut t: usize = 0;
        while t < self.pending_triggers.len()
            invariant
                t <= self.pending_triggers@.len(),
                player < self.players@.len(),
                visible@ == self.objects@.restrict(cur),
                cur.subset_of(self.visible_ids(player)),
                forall|id: ObjectId| self.battlefield@.contains(id) ==> cur.contains(id),
                forall|k: int| 0 <= k < self.stack@.len() ==> cur.contains(source_object(#[trigger] self.stack@[k].source)),
                forall|q: int, id: ObjectId|
                    0 <= q < self.players@.len() && #[trigger] self.players@[q].graveyard@.contains(id) ==> cur.contains(id),
                forall|q: int, id: ObjectId|
                    0 <= q < self.players@.len() && #[trigger] self.players@[q].exile@.contains(id) ==> cur.contains(id),
                forall|id: ObjectId| self.players@[player as int].hand@.contains(id) ==> cur.contains(id),
                forall|k: int| 0 <= k < t ==> cur.contains((#[trigger] self.pending_triggers@[k]).source_id),
            decreases self.pending_triggers.len() - t,
        {
            let sid = self.pending_triggers[t].source_id;
            assert(self.pending_triggers@[t as int].source_id == sid);
            self.add_visible(&mut visible, sid, Ghost(cur));
            proof {
                cur = cur.insert(sid);
            }
            t = t + 1;
        }
        // Command zones.
        let mut c: usize = 0;
        while c < self.players.len()
            invariant
                c <= self.players@.len(),
                player < self.players@.len(),
                visible@ == self.objects@.restrict(cur),
                cur.subset_of(self.visible_ids(player)),
                forall|id: ObjectId| self.battlefield@.contains(id) ==> cur.contains(id),
                forall|k: int| 0 <= k < self.stack@.len() ==> cur.contains(source_object(#[trigger] self.stack@[k].source)),
                forall|q: int, id: ObjectId|
                    0 <= q < self.players@.len() && #[trigger] self.players@[q].graveyard@.contains(id) ==> cur.contains(id),
                forall|q: int, id: ObjectId|
                    0 <= q < self.players@.len() && #[trigger] self.players@[q].exile@.contains(id) ==> cur.contains(id),
                forall|id: ObjectId| self.players@[player as int].hand@.contains(id) ==> cur.contains(id),
                forall|k: int| 0 <= k < self.pending_triggers@.len() ==> cur.contains((#[trigger] self.pending_triggers@[k]).source_id),
                forall|q: int, id: ObjectId|
                    0 <= q < c && #[trigger] self.players@[q].command_zone@.contains(id) ==> cur.contains(id),
            decreases self.players.len() - c,
        {
            proof {
                assert forall|id: ObjectId| self.players@[c as int].command_zone@.to_set().contains(id) implies self.is_visible_to(player, id) by {
                    assert(self.players@[c as int].command_zone@.contains(id));
                }
            }
            self.add_visible_all(&mut visible, &self.players[c].command_zone, Ghost(cur));
            proof {
                cur = cur + self.players@[c as int].command_zone@.to_set();
            }
            c = c + 1;
        }
        // Combat: attackers.
        self.add_visible_all(&mut visible, &self.combat.attackers, Ghost(cur));
        proof {
            cur = cur + self.combat.attackers@.to_set();
        }
        // Combat: blockers and the attackers they block.
        let ghost rem = vstd::std_specs::hash::spec_hash_map_iter(&self.combat.blockers).remaining();
        let ghost mut k: int = 0;
        for (blocker, attacker) in it: self.combat.blockers.iter()
            invariant
                k == it.index(),
                it.seq() == rem,
                rem == vstd::std_specs::hash::spec_hash_map_iter(&self.combat.blockers).remaining(),
                forall|j: int| 0 <= j < k ==> cur.contains(*(#[trigger] rem[j]).0) && cur.contains(*rem[j].1),
                player < self.players@.len(),
                visible@ == self.objects@.restrict(cur),
                cur.subset_of(self.visible_ids(player)),
                forall|id: ObjectId| self.battlefield@.contains(id) ==> cur.contains(id),
                forall|k: int| 0 <= k < self.stack@.len() ==> cur.contains(source_object(#[trigger] self.stack@[k].source)),
                forall|q: int, id: ObjectId|
                    0 <= q < self.players@.len() && #[trigger] self.players@[q].graveyard@.contains(id) ==> cur.contains(id),
                forall|q: int, id: ObjectId|
                    0 <= q < self.players@.len() && #[trigger] self.players@[q].exile@.contains(id) ==> cur.contains(id),
                forall|id: ObjectId| self.players@[player as int].hand@.contains(id) ==> cur.contains(id),
                forall|k: int| 0 <= k < self.pending_triggers@.len() ==> cur.contains((#[trigger] self.pending_triggers@[k]).source_id),
                forall|q: int, id: ObjectId|
                    0 <= q < self.players@.len() && #[trigger] self.players@[q].command_zone@.contains(id) ==> cur.contains(id),
                forall|id: ObjectId| self.combat.attackers@.contains(id) ==> cur.contains(id),
        {
            proof {
                assert(self.combat.blockers@.contains_key(*blocker));
            }
            self.add_visible(&mut visible, *blocker, Ghost(cur));
            proof {
                cur = cur.insert(*blocker);
            }
            self.add_visible(&mut visible, *attacker, Ghost(cur));
            proof {
                cur = cur.insert(*attacker);
                k = k + 1;
            }
        }
        proof {
            assert forall|id: ObjectId| self.visible_ids(player).contains(id) implies cur.contains(id) by {
                if self.combat.blockers@.contains_key(id) {
                    assert(rem.contains((&id, &self.combat.blockers@[id])));
                }
                if exists|b: ObjectId| #[trigger] self.combat.blockers@.contains_key(b) && self.combat.blockers@[b] == id {
                    let b = choose|b: ObjectId| #[trigger] self.combat.blockers@.contains_key(b) && self.combat.blockers@[b] == id;
                    assert(rem.contains((&b, &self.combat.blockers@[b])));
                }
            }
            assert(cur =~= self.visible_ids(player));
        }

        PlayerView {
            phase: self.phase,
            active_player: self.active_player,
            turn_number: self.turn_number,
            battlefield: self.battlefield.as_slice(),
            stack: self.stack.as_slice(),
            combat: &self.combat,
            pending_triggers: self.pending_triggers.as_slice(),
            priority_player: self.priority_player,
            my_life: self.players[player].life,
            opp_life: self.players[opp].life,
            my_graveyard: self.players[player].graveyard.as_slice(),
            opp_graveyard: self.players[opp].graveyard.as_slice(),
            my_exile: self.players[player].exile.as_slice(),
            opp_exile: self.players[opp].exile.as_slice(),
            opp_hand_size: self.players[opp].hand.len(),
            opp_library_size: self.players[opp].library.len(),
            my_hand: self.players[player].hand.as_slice(),
            my_mana_pool: &self.players[player].mana_pool,
            my_land_plays_remaining: self.players[player].land_plays_remaining,
            my_command_zone: self.players[player].command_zone.as_slice(),
            opp_command_zone: self.players[opp].command_zone.as_slice(),
            my_commander_tax: self.players[player].commander_tax,
            format: self.format,
            my_mulligan_count: self.players[player].mulligan_count,
            pending_tutor: self.pending_tutor.as_ref(),
            objects: visible,
            card_db: self.card_db(),
        }
    }
}

} // verus!
