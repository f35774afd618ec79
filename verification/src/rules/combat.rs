//! Combat damage (CR 510).
//!
//! What each object brings to combat (its power and toughness and the
//! keywords that bear on damage) is what the layer system computes for it;
//! it is handed in as a map from object to `CombatTraits`. An object missing
//! from the map has power and toughness 0 and no keywords.
use std::collections::HashMap;
use vstd::prelude::*;

use crate::card::{CardInstance, ObjectId};
use crate::events::GameEvent;
use crate::game::{next_alive_from, GameState, PlayerIndex, PlayerState, Target};

verus! {

/// The combat-relevant characteristics of an object.
#[derive(Debug, Clone, Copy, PartialEq, Eq, Structural)]
pub struct CombatTraits {
    pub power: i32,
    pub toughness: i32,
    pub first_strike: bool,
    pub double_strike: bool,
    pub lifelink: bool,
    pub wither: bool,
    pub infect: bool,
    pub trample: bool,
    pub deathtouch: bool,
    pub toxic: bool,
    pub flanking: bool,
}

/// The characteristics of an object the layer system knows nothing of.
pub open spec fn no_traits() -> CombatTraits {
    CombatTraits {
        power: 0,
        toughness: 0,
        first_strike: false,
        double_strike: false,
        lifelink: false,
        wither: false,
        infect: false,
        trample: false,
        deathtouch: false,
        toxic: false,
        flanking: false,
    }
}

/// The characteristics of an object, from the map.
pub open spec fn traits_of(tm: Map<ObjectId, CombatTraits>, id: ObjectId) -> CombatTraits {
    if tm.contains_key(id) {
        tm[id]
    } else {
        no_traits()
    }
}

/// One application of combat damage.
#[derive(Debug, Clone, Copy, PartialEq, Eq, Structural)]
pub struct DamageEvent {
    /// The creature dealing the damage.
    pub source_id: ObjectId,
    pub target_object: Option<ObjectId>,
    pub target_player: Option<PlayerIndex>,
    pub amount: u32,
    /// The player who gains that much life (lifelink).
    pub lifelink_for: Option<PlayerIndex>,
    /// Damage to a creature is dealt as -1/-1 counters (wither, infect).
    pub wither: bool,
    /// Damage to a player is dealt as poison counters (infect).
    pub infect: bool,
    /// The source has toxic: combat damage to a player also gives a poison counter.
    pub toxic: bool,
    /// The owner of the source, when the source is a commander.
    pub commander_owner: Option<PlayerIndex>,
}

/// Whether a creature deals damage in this step: in the first-strike step
/// those with first strike or double strike, in the regular step those
/// without first strike and those with double strike.
pub open spec fn deals_in_step(t: CombatTraits, first_strike_only: bool) -> bool {
    if first_strike_only {
        t.first_strike || t.double_strike
    } else {
        !t.first_strike || t.double_strike
    }
}

/// A power as an amount of damage: negative power deals none.
pub open spec fn power_amount(p: i32) -> u32 {
    if p < 0 {
        0
    } else {
        p as u32
    }
}

/// The owner of a source when it is a commander.
pub open spec fn commander_owner_spec(s: GameState, src: ObjectId) -> Option<PlayerIndex> {
    if s.is_commander_spec(src) {
        Some(s.objects@[src].owner)
    } else {
        None
    }
}

/// The player who gains life from a source's damage.
pub open spec fn lifelink_spec(s: GameState, t: CombatTraits, src: ObjectId) -> Option<PlayerIndex> {
    if t.lifelink {
        Some(s.objects@[src].controller)
    } else {
        None
    }
}

/// Damage from a source to an object or a player.
pub open spec fn hit(
    s: GameState,
    tm: Map<ObjectId, CombatTraits>,
    src: ObjectId,
    target_object: Option<ObjectId>,
    target_player: Option<PlayerIndex>,
    amount: u32,
    wither: bool,
    infect: bool,
) -> DamageEvent {
    DamageEvent {
        source_id: src,
        target_object,
        target_player,
        amount,
        lifelink_for: lifelink_spec(s, traits_of(tm, src), src),
        wither,
        infect,
        toxic: traits_of(tm, src).toxic,
        commander_owner: commander_owner_spec(s, src),
    }
}

/// What is left of a blocker's toughness after the damage marked on it.
pub open spec fn room(s: GameState, tm: Map<ObjectId, CombatTraits>, b: ObjectId) -> int {
    let r = traits_of(tm, b).toughness - (s.objects@[b].damage_marked as i32);
    if r < 0 {
        0
    } else {
        r
    }
}

/// The damage an attacker assigns to its blockers in blocking order, each
/// getting lethal damage (1 with deathtouch) while damage remains; and the
/// damage left over.
pub open spec fn assign_to_blockers(
    s: GameState,
    tm: Map<ObjectId, CombatTraits>,
    a: ObjectId,
    bl: Seq<ObjectId>,
    remaining: u32,
) -> (Seq<DamageEvent>, u32)
    decreases bl.len(),
{
    if bl.len() == 0 || remaining == 0 {
        (seq![], remaining)
    } else if !s.objects@.contains_key(bl[0]) {
        assign_to_blockers(s, tm, a, bl.drop_first(), remaining)
    } else {
        let at = traits_of(tm, a);
        let dmg: u32 = if at.deathtouch {
            1
        } else if room(s, tm, bl[0]) < remaining {
            room(s, tm, bl[0]) as u32
        } else {
            remaining
        };
        let ev = hit(s, tm, a, Some(bl[0]), None, dmg, at.wither || at.infect, false);
        let rest = assign_to_blockers(s, tm, a, bl.drop_first(), (remaining - dmg) as u32);
        (seq![ev] + rest.0, rest.1)
    }
}

/// The damage blockers that deal damage in this step deal to the attacker.
pub open spec fn strike_back(
    s: GameState,
    tm: Map<ObjectId, CombatTraits>,
    a: ObjectId,
    bl: Seq<ObjectId>,
    first_strike_only: bool,
) -> Seq<DamageEvent>
    decreases bl.len(),
{
    if bl.len() == 0 {
        seq![]
    } else {
        let b = bl[0];
        let bt = traits_of(tm, b);
        let rest = strike_back(s, tm, a, bl.drop_first(), first_strike_only);
        if s.objects@.contains_key(b) && deals_in_step(bt, first_strike_only) {
            seq![hit(s, tm, b, Some(a), None, power_amount(bt.power), bt.wither || bt.infect, false)]
                + rest
        } else {
            rest
        }
    }
}

/// The creatures blocking an attacker, in blocking order.
pub open spec fn blockers_of(s: GameState, a: ObjectId) -> Seq<ObjectId> {
    if s.combat.attacker_blockers@.contains_key(a) {
        s.combat.attacker_blockers@[a]@
    } else {
        seq![]
    }
}

/// The damage around one attacker: unblocked, its power to the defending
/// player; blocked, its power assigned to its blockers, the rest to the
/// defending player with trample, and the blockers' damage to it.
pub open spec fn attacker_events(
    s: GameState,
    tm: Map<ObjectId, CombatTraits>,
    a: ObjectId,
    first_strike_only: bool,
    defending: PlayerIndex,
) -> Seq<DamageEvent> {
    let at = traits_of(tm, a);
    let power = power_amount(at.power);
    if !s.objects@.contains_key(a) || !deals_in_step(at, first_strike_only) || power == 0 {
        seq![]
    } else {
        let bl = blockers_of(s, a);
        if bl.len() == 0 {
            seq![hit(s, tm, a, None, Some(defending), power, false, at.infect)]
        } else {
            let assigned = assign_to_blockers(s, tm, a, bl, power);
            let trample = if at.trample && assigned.1 > 0 {
                seq![hit(s, tm, a, None, Some(defending), assigned.1, false, at.infect)]
            } else {
                seq![]
            };
            assigned.0 + trample + strike_back(s, tm, a, bl, first_strike_only)
        }
    }
}

/// The damage of the attackers in `attackers`, in order.
pub open spec fn attackers_events(
    s: GameState,
    tm: Map<ObjectId, CombatTraits>,
    attackers: Seq<ObjectId>,
    first_strike_only: bool,
    defending: PlayerIndex,
) -> Seq<DamageEvent>
    decreases attackers.len(),
{
    if attackers.len() == 0 {
        seq![]
    } else {
        attacker_events(s, tm, attackers[0], first_strike_only, defending) + attackers_events(
            s,
            tm,
            attackers.drop_first(),
            first_strike_only,
            defending,
        )
    }
}

/// The player the attackers attack: the next player after the active one
/// who has not lost.
pub open spec fn defending_player(s: GameState) -> PlayerIndex {
    next_alive_from(s.players@, s.active_player as int, 1) as PlayerIndex
}

/// All the combat damage of a damage step, in the order it is applied.
pub open spec fn combat_events(
    s: GameState,
    tm: Map<ObjectId, CombatTraits>,
    first_strike_only: bool,
) -> Seq<DamageEvent> {
    attackers_events(s, tm, s.combat.attackers@, first_strike_only, defending_player(s))
}

/// The parts of a game that combat damage changes: the objects, each
/// player's life, poison counters and commander damage received, and the
/// pending events.
pub type DamageModel = (
    Map<ObjectId, CardInstance>,
    Seq<i32>,
    Seq<u32>,
    Seq<Seq<i32>>,
    Seq<GameEvent>,
);

pub open spec fn lives(ps: Seq<PlayerState>) -> Seq<i32> {
    ps.map_values(|p: PlayerState| p.life)
}

pub open spec fn poisons(ps: Seq<PlayerState>) -> Seq<u32> {
    ps.map_values(|p: PlayerState| p.poison_counters)
}

pub open spec fn commander_damages(ps: Seq<PlayerState>) -> Seq<Seq<i32>> {
    ps.map_values(|p: PlayerState| p.commander_damage_received@)
}

pub open spec fn damage_model(s: GameState) -> DamageModel {
    (
        s.objects@,
        lives(s.players@),
        poisons(s.players@),
        commander_damages(s.players@),
        s.pending_events@,
    )
}

/// `b` is `a` but for what combat damage changes.
pub open spec fn rest_same(a: GameState, b: GameState) -> bool {
    &&& b == (GameState {
        objects: b.objects,
        players: b.players,
        pending_events: b.pending_events,
        ..a
    })
    &&& b.players@.len() == a.players@.len()
    &&& forall|i: int|
        0 <= i < a.players@.len() ==> #[trigger] b.players@[i] == (PlayerState {
            life: b.players@[i].life,
            poison_counters: b.players@[i].poison_counters,
            commander_damage_received: b.players@[i].commander_damage_received,
            ..a.players@[i]
        })
    &&& forall|id: ObjectId|
        #[trigger] a.objects@.contains_key(id) ==> b.objects@.contains_key(id) && b.objects@[id]
            == (CardInstance {
            damage_marked: b.objects@[id].damage_marked,
            minus_counters: b.objects@[id].minus_counters,
            ..a.objects@[id]
        })
}

/// Damage to an object: marked, or as -1/-1 counters; and its event.
pub open spec fn hit_object(m: DamageModel, e: DamageEvent) -> DamageModel {
    match e.target_object {
        None => m,
        Some(o) => {
            let objs = if !m.0.contains_key(o) {
                m.0
            } else if e.wither {
                m.0.insert(
                    o,
                    CardInstance { minus_counters: (m.0[o].minus_counters + e.amount) as i32, ..m.0[o] },
                )
            } else {
                m.0.insert(
                    o,
                    CardInstance { damage_marked: (m.0[o].damage_marked + e.amount) as u32, ..m.0[o] },
                )
            };
            (
                objs,
                m.1,
                m.2,
                m.3,
                m.4.push(
                    GameEvent::DamageDealt {
                        source: e.source_id,
                        target: Target::Object(o),
                        amount: e.amount,
                        is_combat: true,
                    },
                ),
            )
        },
    }
}

/// Life loss from damage to a player, with commander damage recorded.
pub open spec fn lose_life(m: DamageModel, p: int, e: DamageEvent) -> DamageModel {
    let before = m.1[p];
    let after = (before - e.amount) as i32;
    let cmds = match e.commander_owner {
        Some(o) => if o < m.3[p].len() {
            m.3.update(p, m.3[p].update(o as int, (m.3[p][o as int] + e.amount) as i32))
        } else {
            m.3
        },
        None => m.3,
    };
    (
        m.0,
        m.1.update(p, after),
        m.2,
        cmds,
        m.4.push(GameEvent::LifeChanged { player: p as usize, old_life: before, new_life: after }),
    )
}

/// Poison counters added to a player.
pub open spec fn add_poison(m: DamageModel, p: int, n: u32) -> DamageModel {
    (m.0, m.1, m.2.update(p, (m.2[p] + n) as u32), m.3, m.4)
}

/// The player's part before toxic: poison counters with infect, else life loss.
pub open spec fn hit_player_first(m: DamageModel, p: int, e: DamageEvent) -> DamageModel {
    if e.infect {
        add_poison(m, p, e.amount)
    } else {
        lose_life(m, p, e)
    }
}

/// The player's part with toxic.
pub open spec fn hit_player_toxic(m: DamageModel, p: int, e: DamageEvent) -> DamageModel {
    let m1 = hit_player_first(m, p, e);
    if !e.infect && e.toxic {
        add_poison(m1, p, 1)
    } else {
        m1
    }
}

/// Damage to a player: poison counters with infect, else life loss (and
/// commander damage); a poison counter more with toxic; and its event.
pub open spec fn hit_player(m: DamageModel, e: DamageEvent) -> DamageModel {
    match e.target_player {
        None => m,
        Some(p) => if p >= m.1.len() {
            m
        } else {
            let m2 = hit_player_toxic(m, p as int, e);
            (
                m2.0,
                m2.1,
                m2.2,
                m2.3,
                m2.4.push(
                    GameEvent::DamageDealt {
                        source: e.source_id,
                        target: Target::Player(p),
                        amount: e.amount,
                        is_combat: true,
                    },
                ),
            )
        },
    }
}

/// Life gained from lifelink.
pub open spec fn heal(m: DamageModel, e: DamageEvent) -> DamageModel {
    match e.lifelink_for {
        None => m,
        Some(p) => if p >= m.1.len() {
            m
        } else {
            let before = m.1[p as int];
            let after = (before + e.amount) as i32;
            (
                m.0,
                m.1.update(p as int, after),
                m.2,
                m.3,
                m.4.push(GameEvent::LifeChanged { player: p, old_life: before, new_life: after }),
            )
        },
    }
}

/// One application of combat damage.
pub open spec fn apply_event(m: DamageModel, e: DamageEvent) -> DamageModel {
    heal(hit_player(hit_object(m, e), e), e)
}

/// Applications of combat damage, in order.
pub open spec fn apply_all(m: DamageModel, es: Seq<DamageEvent>) -> DamageModel
    decreases es.len(),
{
    if es.len() == 0 {
        m
    } else {
        apply_all(apply_event(m, es[0]), es.drop_first())
    }
}

/// Damage to an object keeps its counters within their machine types.
pub open spec fn object_fits(m: DamageModel, e: DamageEvent) -> bool {
    match e.target_object {
        Some(o) => m.0.contains_key(o) ==> if e.wither {
            m.0[o].minus_counters + e.amount <= i32::MAX
        } else {
            m.0[o].damage_marked + e.amount <= u32::MAX
        },
        None => true,
    }
}

/// Damage to a player keeps life, poison and commander damage within
/// their machine types.
pub open spec fn player_fits(m: DamageModel, e: DamageEvent) -> bool {
    match e.target_player {
        Some(p) => p < m.1.len() ==> if e.infect {
            m.2[p as int] + e.amount <= u32::MAX
        } else {
            &&& m.1[p as int] - e.amount >= i32::MIN
            &&& match e.commander_owner {
                Some(o) => o < m.3[p as int].len() ==> m.3[p as int][o as int] + e.amount
                    <= i32::MAX,
                None => true,
            }
            &&& e.toxic ==> m.2[p as int] + 1 <= u32::MAX
        },
        None => true,
    }
}

/// Lifelink keeps life within its machine type.
pub open spec fn heal_fits(m: DamageModel, e: DamageEvent) -> bool {
    match e.lifelink_for {
        Some(p) => p < m.1.len() ==> m.1[p as int] + e.amount <= i32::MAX,
        None => true,
    }
}

/// The counters and totals one application touches stay within their
/// machine types.
pub open spec fn fits(m: DamageModel, e: DamageEvent) -> bool {
    &&& e.amount <= i32::MAX
    &&& object_fits(m, e)
    &&& player_fits(hit_object(m, e), e)
    &&& heal_fits(hit_player(hit_object(m, e), e), e)
}

/// Every application in turn stays within the machine types.
pub open spec fn fits_all(m: DamageModel, es: Seq<DamageEvent>) -> bool
    decreases es.len(),
{
    es.len() == 0 || (fits(m, es[0]) && fits_all(apply_event(m, es[0]), es.drop_first()))
}

proof fn lemma_rest_same_trans(a: GameState, b: GameState, c: GameState)
    requires
        rest_same(a, b),
        rest_same(b, c),
    ensures
        rest_same(a, c),
{
    assert forall|i: int| 0 <= i < a.players@.len() implies #[trigger] c.players@[i] == (PlayerState {
        life: c.players@[i].life,
        poison_counters: c.players@[i].poison_counters,
        commander_damage_received: c.players@[i].commander_damage_received,
        ..a.players@[i]
    }) by {
        assert(b.players@[i] == (PlayerState {
            life: b.players@[i].life,
            poison_counters: b.players@[i].poison_counters,
            commander_damage_received: b.players@[i].commander_damage_received,
            ..a.players@[i]
        }));
        assert(c.players@[i] == (PlayerState {
            life: c.players@[i].life,
            poison_counters: c.players@[i].poison_counters,
            commander_damage_received: c.players@[i].commander_damage_received,
            ..b.players@[i]
        }));
    }
    assert forall|id: ObjectId| #[trigger] a.objects@.contains_key(id) implies c.objects@.contains_key(id)
        && c.objects@[id] == (CardInstance {
        damage_marked: c.objects@[id].damage_marked,
        minus_counters: c.objects@[id].minus_counters,
        ..a.objects@[id]
    }) by {
        assert(b.objects@.contains_key(id));
    }
}

/// Apply damage to the targeted object.
fn hit_object_exec(state: &mut GameState, e: &DamageEvent)
    requires
        e.amount <= i32::MAX,
        object_fits(damage_model(*old(state)), *e),
    ensures
        damage_model(*final(state)) == hit_object(damage_model(*old(state)), *e),
        rest_same(*old(state), *final(state)),
{
    if let Some(o) = e.target_object {
        let found: Option<CardInstance> = match state.objects.get(&o) {
            Some(i) => Some(*i),
            None => None,
        };
        if let Some(inst0) = found {
            let mut inst = inst0;
            if e.wither {
                inst.minus_counters = inst.minus_counters + e.amount as i32;
            } else {
                inst.damage_marked = inst.damage_marked + e.amount;
            }
            state.objects.insert(o, inst);
        }
        state.pending_events.push(
            GameEvent::DamageDealt {
                source: e.source_id,
                target: Target::Object(o),
                amount: e.amount,
                is_combat: true,
            },
        );
        proof {
            let m = hit_object(damage_model(*old(state)), *e);
            assert(state.objects@ =~= m.0);
            assert(lives(state.players@) =~= m.1);
            assert(poisons(state.players@) =~= m.2);
            assert(commander_damages(state.players@) =~= m.3);
            assert(state.pending_events@ =~= m.4);
        }
    }
}

/// Apply damage to the targeted player.
#[verifier::rlimit(30)]
fn hit_player_exec(state: &mut GameState, e: &DamageEvent)
    requires
        e.amount <= i32::MAX,
        player_fits(damage_model(*old(state)), *e),
    ensures
        damage_model(*final(state)) == hit_player(damage_model(*old(state)), *e),
        rest_same(*old(state), *final(state)),
{
    let ghost m0 = damage_model(*old(state));
    if let Some(p) = e.target_player {
        if p < state.players.len() {
            if e.infect {
                state.players[p].poison_counters = state.players[p].poison_counters + e.amount;
            } else {
                let before = state.players[p].life;
                let after = before - e.amount as i32;
                state.players[p].life = after;
                if let Some(o) = e.commander_owner {
                    if o < state.players[p].commander_damage_received.len() {
                        let v = state.players[p].commander_damage_received[o] + e.amount as i32;
                        state.players[p].commander_damage_received.set(o, v);
                    }
                }
                state.pending_events.push(
                    GameEvent::LifeChanged { player: p, old_life: before, new_life: after },
                );
            }
            proof {
                let m1 = hit_player_first(m0, p as int, *e);
                assert(state.objects@ =~= m1.0);
                assert(lives(state.players@) =~= m1.1);
                assert(poisons(state.players@) =~= m1.2);
                assert(commander_damages(state.players@) =~= m1.3);
                assert(state.pending_events@ =~= m1.4);
            }
            if !e.infect && e.toxic {
                state.players[p].poison_counters = state.players[p].poison_counters + 1;
            }
            state.pending_events.push(
                GameEvent::DamageDealt {
                    source: e.source_id,
                    target: Target::Player(p),
                    amount: e.amount,
                    is_combat: true,
                },
            );
            proof {
                let m = hit_player(m0, *e);
                assert(state.objects@ =~= m.0);
                assert(lives(state.players@) =~= m.1);
                assert(poisons(state.players@) =~= m.2);
                assert(commander_damages(state.players@) =~= m.3);
                assert(state.pending_events@ =~= m.4);
            }
        }
    }
}

/// Apply lifelink.
fn heal_exec(state: &mut GameState, e: &DamageEvent)
    requires
        e.amount <= i32::MAX,
        heal_fits(damage_model(*old(state)), *e),
    ensures
        damage_model(*final(state)) == heal(damage_model(*old(state)), *e),
        rest_same(*old(state), *final(state)),
{
    if let Some(p) = e.lifelink_for {
        if p < state.players.len() {
            let before = state.players[p].life;
            let after = before + e.amount as i32;
            state.players[p].life = after;
            state.pending_events.push(
                GameEvent::LifeChanged { player: p, old_life: before, new_life: after },
            );
            proof {
                let m = heal(damage_model(*old(state)), *e);
                assert(state.objects@ =~= m.0);
                assert(lives(state.players@) =~= m.1);
                assert(poisons(state.players@) =~= m.2);
                assert(commander_damages(state.players@) =~= m.3);
                assert(state.pending_events@ =~= m.4);
            }
        }
    }
}

/// Apply one event of combat damage.
fn apply_damage_event(state: &mut GameState, e: &DamageEvent)
    requires
        fits(damage_model(*old(state)), *e),
    ensures
        damage_model(*final(state)) == apply_event(damage_model(*old(state)), *e),
        rest_same(*old(state), *final(state)),
{
    let ghost s0 = *state;
    hit_object_exec(state, e);
    let ghost s1 = *state;
    hit_player_exec(state, e);
    let ghost s2 = *state;
    heal_exec(state, e);
    proof {
        lemma_rest_same_trans(s0, s1, s2);
        lemma_rest_same_trans(s0, s2, *state);
    }
}

/// The characteristics of an object, from the map.
pub(crate) fn traits_for(tm: &HashMap<ObjectId, CombatTraits>, id: ObjectId) -> (r: CombatTraits)
    ensures
        r == traits_of(tm@, id),
{
    match tm.get(&id) {
        Some(t) => *t,
        None => CombatTraits {
            power: 0,
            toughness: 0,
            first_strike: false,
            double_strike: false,
            lifelink: false,
            wither: false,
            infect: false,
            trample: false,
            deathtouch: false,
            toxic: false,
            flanking: false,
        },
    }
}

/// Whether a creature deals damage in this step.
fn deals_in_step_exec(t: &CombatTraits, first_strike_only: bool) -> (r: bool)
    ensures
        r == deals_in_step(*t, first_strike_only),
{
    if first_strike_only {
        t.first_strike || t.double_strike
    } else {
        !t.first_strike || t.double_strike
    }
}

/// A power as an amount of damage.
fn power_amount_exec(p: i32) -> (r: u32)
    ensures
        r == power_amount(p),
        r <= i32::MAX,
{
    if p < 0 {
        0
    } else {
        p as u32
    }
}

/// Damage from a source to an object or a player.
fn make_hit(
    state: &GameState,
    tm: &HashMap<ObjectId, CombatTraits>,
    src: ObjectId,
    target_object: Option<ObjectId>,
    target_player: Option<PlayerIndex>,
    amount: u32,
    wither: bool,
    infect: bool,
) -> (r: DamageEvent)
    requires
        state.owners_valid(),
        state.objects@.contains_key(src),
    ensures
        r == hit(*state, tm@, src, target_object, target_player, amount, wither, infect),
{
    let t = traits_for(tm, src);
    let inst = *state.objects.get(&src).unwrap();
    let lifelink_for = if t.lifelink {
        Some(inst.controller)
    } else {
        None
    };
    let commander_owner = if state.is_commander(src) {
        Some(inst.owner)
    } else {
        None
    };
    DamageEvent {
        source_id: src,
        target_object,
        target_player,
        amount,
        lifelink_for,
        wither,
        infect,
        toxic: t.toxic,
        commander_owner,
    }
}

/// Push the damage an attacker assigns to its blockers; return what is left.
fn push_assigned(
    state: &GameState,
    tm: &HashMap<ObjectId, CombatTraits>,
    a: ObjectId,
    bl: &Vec<ObjectId>,
    power: u32,
    out: &mut Vec<DamageEvent>,
) -> (left: u32)
    requires
        state.owners_valid(),
        state.objects@.contains_key(a),
    ensures
        final(out)@ == old(out)@ + assign_to_blockers(*state, tm@, a, bl@, power).0,
        left == assign_to_blockers(*state, tm@, a, bl@, power).1,
{
    let at = traits_for(tm, a);
    let mut remaining = power;
    let mut i: usize = 0;
    assert(bl@.skip(0) =~= bl@);
    while i < bl.len() && remaining > 0
        invariant
            i <= bl@.len(),
            state.owners_valid(),
            state.objects@.contains_key(a),
            at == traits_of(tm@, a),
            out@ + assign_to_blockers(*state, tm@, a, bl@.skip(i as int), remaining).0 == old(
                out,
            )@ + assign_to_blockers(*state, tm@, a, bl@, power).0,
            assign_to_blockers(*state, tm@, a, bl@.skip(i as int), remaining).1
                == assign_to_blockers(*state, tm@, a, bl@, power).1,
        decreases bl.len() - i,
    {
        let b = bl[i];
        let ghost rest = bl@.skip(i as int);
        assert(rest[0] == b);
        assert(rest.drop_first() =~= bl@.skip(i + 1));
        let found: Option<CardInstance> = match state.objects.get(&b) {
            Some(x) => Some(*x),
            None => None,
        };
        if let Some(binst) = found {
            let bt = traits_for(tm, b);
            let r: i64 = bt.toughness as i64 - (binst.damage_marked as i32) as i64;
            let room_left: i64 = if r < 0 {
                0
            } else {
                r
            };
            assert(room_left == room(*state, tm@, b));
            let dmg: u32 = if at.deathtouch {
                1
            } else if room_left < remaining as i64 {
                room_left as u32
            } else {
                remaining
            };
            let ev = make_hit(state, tm, a, Some(b), None, dmg, at.wither || at.infect, false);
            let ghost before = out@;
            out.push(ev);
            remaining = remaining - dmg;
            proof {
                let tail = assign_to_blockers(*state, tm@, a, bl@.skip(i + 1), remaining);
                assert(out@ + tail.0 =~= before + (seq![ev] + tail.0));
            }
        }
        i = i + 1;
    }
    proof {
        if i == bl.len() {
            assert(bl@.skip(i as int).len() == 0);
        }
        assert(out@ + seq![] =~= out@);
    }
    remaining
}

/// Push the damage of the blockers that strike the attacker back in this step.
fn push_strike_back(
    state: &GameState,
    tm: &HashMap<ObjectId, CombatTraits>,
    a: ObjectId,
    bl: &Vec<ObjectId>,
    first_strike_only: bool,
    out: &mut Vec<DamageEvent>,
)
    requires
        state.owners_valid(),
    ensures
        final(out)@ == old(out)@ + strike_back(*state, tm@, a, bl@, first_strike_only),
{
    let mut i: usize = 0;
    assert(bl@.skip(0) =~= bl@);
    while i < bl.len()
        invariant
            i <= bl@.len(),
            state.owners_valid(),
            out@ + strike_back(*state, tm@, a, bl@.skip(i as int), first_strike_only) == old(
                out,
            )@ + strike_back(*state, tm@, a, bl@, first_strike_only),
        decreases bl.len() - i,
    {
        let b = bl[i];
        let ghost rest = bl@.skip(i as int);
        assert(rest[0] == b);
        assert(rest.drop_first() =~= bl@.skip(i + 1));
        if state.objects.contains_key(&b) {
            let bt = traits_for(tm, b);
            if deals_in_step_exec(&bt, first_strike_only) {
                let amount = power_amount_exec(bt.power);
                let ev = make_hit(state, tm, b, Some(a), None, amount, bt.wither || bt.infect, false);
                let ghost before = out@;
                out.push(ev);
                proof {
                    let tail = strike_back(*state, tm@, a, bl@.skip(i + 1), first_strike_only);
                    assert(out@ + tail =~= before + (seq![ev] + tail));
                }
            }
        }
        i = i + 1;
    }
    assert(out@ + seq![] =~= out@);
}

/// Push the damage around one attacker.
fn push_attacker_events(
    state: &GameState,
    tm: &HashMap<ObjectId, CombatTraits>,
    a: ObjectId,
    first_strike_only: bool,
    defending: PlayerIndex,
    out: &mut Vec<DamageEvent>,
)
    requires
        state.owners_valid(),
    ensures
        final(out)@ == old(out)@ + attacker_events(*state, tm@, a, first_strike_only, defending),
{
    if !state.objects.contains_key(&a) {
        assert(old(out)@ + seq![] =~= old(out)@);
        return;
    }
    let at = traits_for(tm, a);
    let power = power_amount_exec(at.power);
    if !deals_in_step_exec(&at, first_strike_only) || power == 0 {
        assert(old(out)@ + seq![] =~= old(out)@);
        return;
    }
    let empty: Vec<ObjectId> = Vec::new();
    let bl: &Vec<ObjectId> = match state.combat.attacker_blockers.get(&a) {
        Some(v) => v,
        None => &empty,
    };
    assert(bl@ == blockers_of(*state, a));
    if bl.len() == 0 {
        let ev = make_hit(state, tm, a, None, Some(defending), power, false, at.infect);
        out.push(ev);
        return;
    }
    let ghost start = out@;
    let left = push_assigned(state, tm, a, bl, power, out);
    let ghost after_assigned = out@;
    if at.trample && left > 0 {
        let ev = make_hit(state, tm, a, None, Some(defending), left, false, at.infect);
        out.push(ev);
    }
    let ghost after_trample = out@;
    push_strike_back(state, tm, a, bl, first_strike_only, out);
    proof {
        let assigned = assign_to_blockers(*state, tm@, a, bl@, power);
        let trample = if at.trample && assigned.1 > 0 {
            seq![hit(*state, tm@, a, None, Some(defending), assigned.1, false, at.infect)]
        } else {
            seq![]
        };
        assert(after_trample =~= start + assigned.0 + trample);
        assert(out@ =~= start + (assigned.0 + trample + strike_back(
            *state,
            tm@,
            a,
            bl@,
            first_strike_only,
        )));
    }
}

/// The next player after `player` in seat order who has not lost is a
/// seat of the table.
proof fn lemma_next_alive_range(ps: Seq<PlayerState>, player: int, offset: int)
    requires
        0 <= player < ps.len(),
    ensures
        0 <= next_alive_from(ps, player, offset) < ps.len(),
    decreases ps.len() + 1 - offset,
{
    if !(offset < 1 || offset > ps.len()) {
        vstd::arithmetic::div_mod::lemma_mod_bound(player + offset, ps.len() as int);
        lemma_next_alive_range(ps, player, offset + 1);
    }
}

/// Whether combat damage in this step keeps every counter and total it
/// touches within its machine type.
pub open spec fn combat_fits(
    s: GameState,
    tm: Map<ObjectId, CombatTraits>,
    first_strike_only: bool,
) -> bool {
    fits_all(damage_model(s), combat_events(s, tm, first_strike_only))
}

/// Deal the combat damage of one damage step (CR 510): first the damage
/// of every attacker and of its blockers is worked out from the state
/// before any of it is dealt, then it is dealt in that order. An
/// unblocked attacker deals its power to the defending player (the next
/// player after the active one who has not lost); a blocked one assigns
/// lethal damage to each blocker in blocking order (one with deathtouch)
/// while damage remains, and with trample the rest to the defending
/// player; each blocker that deals damage in this step deals its power to
/// the attacker. Damage to a creature is marked, or dealt as -1/-1
/// counters with wither or infect; damage to a player is life loss
/// (recorded as commander damage when the source is a commander), or
/// poison counters with infect, and toxic adds a poison counter; lifelink
/// gains its controller that much life. Each application emits its events.
/// `traits` gives each object's power, toughness and keywords.
fn deal_combat_damage(
    state: &mut GameState,
    traits: &HashMap<ObjectId, CombatTraits>,
    first_strike_only: bool,
)
    requires
        old(state).active_player < old(state).players@.len(),
        old(state).players@.len() < usize::MAX / 2,
        old(state).owners_valid(),
        combat_fits(*old(state), traits@, first_strike_only),
    ensures
        damage_model(*final(state)) == apply_all(
            damage_model(*old(state)),
            combat_events(*old(state), traits@, first_strike_only),
        ),
        rest_same(*old(state), *final(state)),
{
    let defending = state.next_player(state.active_player);
    proof {
        lemma_next_alive_range(state.players@, state.active_player as int, 1);
    }
    let ghost evs = combat_events(*state, traits@, first_strike_only);
    let mut events: Vec<DamageEvent> = Vec::new();
    let mut i: usize = 0;
    let ghost attackers = state.combat.attackers@;
    assert(attackers.skip(0) =~= attackers);
    while i < state.combat.attackers.len()
        invariant
            *state == *old(state),
            attackers == state.combat.attackers@,
            i <= attackers.len(),
            state.owners_valid(),
            defending == defending_player(*state),
            evs == combat_events(*state, traits@, first_strike_only),
            events@ + attackers_events(
                *state,
                traits@,
                attackers.skip(i as int),
                first_strike_only,
                defending,
            ) == evs,
        decreases attackers.len() - i,
    {
        let a = state.combat.attackers[i];
        let ghost rest = attackers.skip(i as int);
        assert(rest[0] == a);
        assert(rest.drop_first() =~= attackers.skip(i + 1));
        let ghost before = events@;
        push_attacker_events(&*state, traits, a, first_strike_only, defending, &mut events);
        proof {
            let tail = attackers_events(
                *state,
                traits@,
                attackers.skip(i + 1),
                first_strike_only,
                defending,
            );
            let here = attacker_events(*state, traits@, a, first_strike_only, defending);
            assert(events@ + tail =~= before + (here + tail));
        }
        i = i + 1;
    }
    proof {
        assert(attackers.skip(i as int).len() == 0);
        assert(events@ + seq![] =~= events@);
        assert(events@ == evs);
        assert(events@.skip(0) =~= events@);
    }
    let ghost m0 = damage_model(*old(state));
    let mut j: usize = 0;
    while j < events.len()
        invariant
            j <= events@.len(),
            events@ == evs,
            apply_all(m0, evs) == apply_all(damage_model(*state), evs.skip(j as int)),
            fits_all(damage_model(*state), evs.skip(j as int)),
            rest_same(*old(state), *state),
        decreases events.len() - j,
    {
        let ghost rest = evs.skip(j as int);
        assert(rest[0] == events@[j as int]);
        assert(rest.drop_first() =~= evs.skip(j + 1));
        let ghost before = *state;
        apply_damage_event(state, &events[j]);
        proof {
            lemma_rest_same_trans(*old(state), before, *state);
        }
        j = j + 1;
    }
    assert(evs.skip(j as int).len() == 0);
}

/// Whether a creature has first strike or double strike.
pub open spec fn strikes_first(t: CombatTraits) -> bool {
    t.first_strike || t.double_strike
}

fn any_key_strikes_first(m: &HashMap<ObjectId, ObjectId>, tm: &HashMap<ObjectId, CombatTraits>) -> (r: bool)
    ensures
        r == exists|b: ObjectId| m@.contains_key(b) && strikes_first(traits_of(tm@, b)),
{
    broadcast use vstd::std_specs::hash::axiom_spec_keys_iter;
    let ghost ks = vstd::std_specs::iter::IteratorSpec::remaining(&vstd::std_specs::hash::spec_keys_iter(m));
    let mut found = false;
    for b in it: m.keys()
        invariant
            it.seq() == ks,
            found == exists|j: int| 0 <= j < it.index() && strikes_first(traits_of(tm@, *ks[j])),
        ensures
            found == exists|j: int| 0 <= j < ks.len() && strikes_first(traits_of(tm@, *ks[j])),
    {
        let t = traits_for(tm, *b);
        if t.first_strike || t.double_strike {
            found = true;
        }
    }
    proof {
        let ku = ks.unref();
        assert(ku.to_set() == m@.dom());
        assert(ku.len() == ks.len());
        if found {
            let j = choose|j: int| 0 <= j < ks.len() && strikes_first(traits_of(tm@, *ks[j]));
            assert(ku[j] == *ks[j]);
            assert(ku.to_set().contains(ku[j]));
        } else {
            assert forall|b: ObjectId| m@.contains_key(b) implies !strikes_first(traits_of(tm@, b)) by {
                assert(ku.to_set().contains(b));
                let j = choose|j: int| 0 <= j < ku.len() && ku[j] == b;
                assert(*ks[j] == ku[j]);
            }
        }
    }
    found
}

/// Whether some attacker or some blocker has first strike or double strike.
pub open spec fn has_first_strike_creatures(s: GameState, tm: Map<ObjectId, CombatTraits>) -> bool {
    ||| exists|i: int|
        0 <= i < s.combat.attackers@.len() && strikes_first(
            traits_of(tm, #[trigger] s.combat.attackers@[i]),
        )
    ||| exists|b: ObjectId| s.combat.blockers@.contains_key(b) && strikes_first(traits_of(tm, b))
}

/// The -1/-1 that flanking gives each of `bl` without flanking, with the
/// controller of the flanking attacker.
pub open spec fn flank_from(tm: Map<ObjectId, CombatTraits>, bl: Seq<ObjectId>, c: PlayerIndex) -> Seq<(ObjectId, PlayerIndex)>
    decreases bl.len(),
{
    if bl.len() == 0 {
        seq![]
    } else {
        (if !traits_of(tm, bl[0]).flanking {
            seq![(bl[0], c)]
        } else {
            seq![]
        }) + flank_from(tm, bl.drop_first(), c)
    }
}

/// The flanking -1/-1s of the attackers in `attackers` (CR 702.25).
pub open spec fn flanking_debuffs(s: GameState, tm: Map<ObjectId, CombatTraits>, attackers: Seq<ObjectId>) -> Seq<(ObjectId, PlayerIndex)>
    decreases attackers.len(),
{
    if attackers.len() == 0 {
        seq![]
    } else {
        let a = attackers[0];
        (if traits_of(tm, a).flanking && s.objects@.contains_key(a) {
            flank_from(tm, blockers_of(s, a), s.objects@[a].controller)
        } else {
            seq![]
        }) + flanking_debuffs(s, tm, attackers.drop_first())
    }
}

/// The flanking -1/-1s given in this damage step: in the first damage
/// step of a combat (the first-strike step, or the only one when no
/// creature in combat strikes first).
pub open spec fn step_debuffs(s: GameState, tm: Map<ObjectId, CombatTraits>, first_strike_only: bool) -> Seq<(ObjectId, PlayerIndex)> {
    if first_strike_only || !has_first_strike_creatures(s, tm) {
        flanking_debuffs(s, tm, s.combat.attackers@)
    } else {
        seq![]
    }
}

/// The characteristics after each -1/-1 in `d` (objects the map does not
/// describe stay undescribed).
pub open spec fn weakened(tm: Map<ObjectId, CombatTraits>, d: Seq<(ObjectId, PlayerIndex)>) -> Map<ObjectId, CombatTraits>
    decreases d.len(),
{
    if d.len() == 0 {
        tm
    } else {
        let b = d.last().0;
        let m = weakened(tm, d.drop_last());
        if m.contains_key(b) {
            m.insert(b, CombatTraits { power: (m[b].power - 1) as i32, toughness: (m[b].toughness - 1) as i32, ..m[b] })
        } else {
            m
        }
    }
}

/// Each -1/-1 keeps power and toughness within an `i32`.
pub open spec fn weaken_fits(tm: Map<ObjectId, CombatTraits>, d: Seq<(ObjectId, PlayerIndex)>) -> bool
    decreases d.len(),
{
    d.len() == 0 || {
        let b = d.last().0;
        let m = weakened(tm, d.drop_last());
        &&& weaken_fits(tm, d.drop_last())
        &&& m.contains_key(b) ==> m[b].power > i32::MIN && m[b].toughness > i32::MIN
    }
}

/// The characteristics that deal this step's damage.
pub open spec fn step_traits(s: GameState, tm: Map<ObjectId, CombatTraits>, first_strike_only: bool) -> Map<ObjectId, CombatTraits> {
    weakened(tm, step_debuffs(s, tm, first_strike_only))
}

fn has_first_strike_exec(state: &GameState, tm: &HashMap<ObjectId, CombatTraits>) -> (r: bool)
    ensures
        r == has_first_strike_creatures(*state, tm@),
{
    let mut i: usize = 0;
    while i < state.combat.attackers.len()
        invariant
            i <= state.combat.attackers@.len(),
            forall|k: int| 0 <= k < i ==> !strikes_first(traits_of(tm@, #[trigger] state.combat.attackers@[k])),
        decreases state.combat.attackers.len() - i,
    {
        let t = traits_for(tm, state.combat.attackers[i]);
        if t.first_strike || t.double_strike {
            return true;
        }
        i = i + 1;
    }
    any_key_strikes_first(&state.combat.blockers, tm)
}

fn push_flank_from(tm: &HashMap<ObjectId, CombatTraits>, bl: &Vec<ObjectId>, c: PlayerIndex, out: &mut Vec<(ObjectId, PlayerIndex)>)
    ensures
        final(out)@ == old(out)@ + flank_from(tm@, bl@, c),
{
    let mut i: usize = 0;
    assert(bl@.skip(0) =~= bl@);
    while i < bl.len()
        invariant
            i <= bl@.len(),
            out@ + flank_from(tm@, bl@.skip(i as int), c) == old(out)@ + flank_from(tm@, bl@, c),
        decreases bl.len() - i,
    {
        let b = bl[i];
        let ghost rest = bl@.skip(i as int);
        assert(rest[0] == b);
        assert(rest.drop_first() =~= bl@.skip(i + 1));
        let ghost before = out@;
        let t = traits_for(tm, b);
        if !t.flanking {
            out.push((b, c));
        }
        proof {
            let tail = flank_from(tm@, bl@.skip(i + 1), c);
            let here = if !traits_of(tm@, b).flanking {
                seq![(b, c)]
            } else {
                seq![]
            };
            assert(out@ + tail =~= before + (here + tail));
        }
        i = i + 1;
    }
    assert(out@ + seq![] =~= out@);
}

fn collect_flanking(state: &GameState, tm: &HashMap<ObjectId, CombatTraits>) -> (r: Vec<(ObjectId, PlayerIndex)>)
    ensures
        r@ == flanking_debuffs(*state, tm@, state.combat.attackers@),
{
    let mut out: Vec<(ObjectId, PlayerIndex)> = Vec::new();
    let ghost attackers = state.combat.attackers@;
    assert(attackers.skip(0) =~= attackers);
    assert(out@ + flanking_debuffs(*state, tm@, attackers) =~= flanking_debuffs(*state, tm@, attackers));
    let mut i: usize = 0;
    while i < state.combat.attackers.len()
        invariant
            attackers == state.combat.attackers@,
            i <= attackers.len(),
            out@ + flanking_debuffs(*state, tm@, attackers.skip(i as int)) == flanking_debuffs(
                *state,
                tm@,
                attackers,
            ),
        decreases attackers.len() - i,
    {
        let a = state.combat.attackers[i];
        let ghost rest = attackers.skip(i as int);
        assert(rest[0] == a);
        assert(rest.drop_first() =~= attackers.skip(i + 1));
        let ghost before = out@;
        let t = traits_for(tm, a);
        let found: Option<CardInstance> = match state.objects.get(&a) {
            Some(x) => Some(*x),
            None => None,
        };
        if t.flanking {
            if let Some(inst) = found {
                let empty: Vec<ObjectId> = Vec::new();
                let bl: &Vec<ObjectId> = match state.combat.attacker_blockers.get(&a) {
                    Some(v) => v,
                    None => &empty,
                };
                assert(bl@ == blockers_of(*state, a));
                push_flank_from(tm, bl, inst.controller, &mut out);
            }
        }
        proof {
            let tail = flanking_debuffs(*state, tm@, attackers.skip(i + 1));
            let here = if traits_of(tm@, a).flanking && state.objects@.contains_key(a) {
                flank_from(tm@, blockers_of(*state, a), state.objects@[a].controller)
            } else {
                seq![]
            };
            assert(out@ =~= before + here);
            assert(out@ + tail =~= before + (here + tail));
        }
        i = i + 1;
    }
    assert(attackers.skip(i as int) =~= seq![]);
    assert(out@ + seq![] =~= out@);
    out
}

fn weaken(tm: &HashMap<ObjectId, CombatTraits>, d: &Vec<(ObjectId, PlayerIndex)>) -> (r: HashMap<ObjectId, CombatTraits>)
    requires
        weaken_fits(tm@, d@),
    ensures
        r@ == weakened(tm@, d@),
{
    let mut m = tm.clone();
    let mut i: usize = 0;
    assert(d@.take(0) =~= seq![]);
    while i < d.len()
        invariant
            i <= d@.len(),
            weaken_fits(tm@, d@),
            m@ == weakened(tm@, d@.take(i as int)),
        decreases d.len() - i,
    {
        proof {
            lemma_weaken_fits_prefix(tm@, d@, i + 1);
        }
        let ghost pre = d@.take(i + 1);
        assert(pre.drop_last() =~= d@.take(i as int));
        assert(pre.last() == d@[i as int]);
        let b = d[i].0;
        let found: Option<CombatTraits> = match m.get(&b) {
            Some(t) => Some(*t),
            None => None,
        };
        if let Some(t) = found {
            let mut t2 = t;
            t2.power = t.power - 1;
            t2.toughness = t.toughness - 1;
            m.insert(b, t2);
        }
        i = i + 1;
    }
    assert(d@.take(i as int) =~= d@);
    m
}

proof fn lemma_weaken_fits_prefix(tm: Map<ObjectId, CombatTraits>, d: Seq<(ObjectId, PlayerIndex)>, k: int)
    requires
        weaken_fits(tm, d),
        0 <= k <= d.len(),
    ensures
        weaken_fits(tm, d.take(k)),
    decreases d.len() - k,
{
    if k < d.len() {
        assert(d.take(k + 1).drop_last() =~= d.take(k));
        lemma_weaken_fits_prefix(tm, d, k + 1);
    } else {
        assert(d.take(k) =~= d);
    }
}

/// Resolve the combat damage of one damage step (CR 510). In the first
/// damage step of a combat, each blocker without flanking of an attacker
/// with flanking first gets -1/-1 until end of turn (CR 702.25); those
/// -1/-1s are returned, with the flanking attacker's controller, for the
/// layer system to record, and they count in this step's damage. Then the
/// damage is dealt as `deal_combat_damage` describes, with `traits`
/// giving each object's power, toughness and keywords before flanking.
pub fn resolve_combat_damage(
    state: &mut GameState,
    traits: &HashMap<ObjectId, CombatTraits>,
    first_strike_only: bool,
) -> (debuffs: Vec<(ObjectId, PlayerIndex)>)
    requires
        old(state).active_player < old(state).players@.len(),
        old(state).players@.len() < usize::MAX / 2,
        old(state).owners_valid(),
        weaken_fits(traits@, step_debuffs(*old(state), traits@, first_strike_only)),
        combat_fits(*old(state), step_traits(*old(state), traits@, first_strike_only), first_strike_only),
    ensures
        debuffs@ == step_debuffs(*old(state), traits@, first_strike_only),
        damage_model(*final(state)) == apply_all(
            damage_model(*old(state)),
            combat_events(*old(state), step_traits(*old(state), traits@, first_strike_only), first_strike_only),
        ),
        rest_same(*old(state), *final(state)),
{
    let debuffs = if first_strike_only || !has_first_strike_exec(state, traits) {
        collect_flanking(state, traits)
    } else {
        Vec::new()
    };
    let effective = weaken(traits, &debuffs);
    deal_combat_damage(state, &effective, first_strike_only);
    debuffs
}

proof fn lemma_assigned_hit_creatures(
    s: GameState,
    tm: Map<ObjectId, CombatTraits>,
    a: ObjectId,
    bl: Seq<ObjectId>,
    remaining: u32,
)
    ensures
        forall|k: int|
            0 <= k < assign_to_blockers(s, tm, a, bl, remaining).0.len() ==> (#[trigger] assign_to_blockers(
                s,
                tm,
                a,
                bl,
                remaining,
            ).0[k]).target_player is None,
    decreases bl.len(),
{
    if bl.len() > 0 && remaining > 0 {
        if !s.objects@.contains_key(bl[0]) {
            lemma_assigned_hit_creatures(s, tm, a, bl.drop_first(), remaining);
        } else {
            let at = traits_of(tm, a);
            let dmg: u32 = if at.deathtouch {
                1
            } else if room(s, tm, bl[0]) < remaining {
                room(s, tm, bl[0]) as u32
            } else {
                remaining
            };
            lemma_assigned_hit_creatures(s, tm, a, bl.drop_first(), (remaining - dmg) as u32);
        }
    }
}

proof fn lemma_strike_back_hits_attacker(
    s: GameState,
    tm: Map<ObjectId, CombatTraits>,
    a: ObjectId,
    bl: Seq<ObjectId>,
    first_strike_only: bool,
)
    ensures
        forall|k: int|
            0 <= k < strike_back(s, tm, a, bl, first_strike_only).len() ==> (#[trigger] strike_back(
                s,
                tm,
                a,
                bl,
                first_strike_only,
            )[k]).target_player is None,
    decreases bl.len(),
{
    if bl.len() > 0 {
        lemma_strike_back_hits_attacker(s, tm, a, bl.drop_first(), first_strike_only);
    }
}

/// A blocked attacker without trample deals no damage to a player, nor do
/// its blockers: all the damage around it is dealt to creatures.
pub proof fn lemma_blocked_without_trample_spares_players(
    s: GameState,
    tm: Map<ObjectId, CombatTraits>,
    a: ObjectId,
    first_strike_only: bool,
    defending: PlayerIndex,
)
    requires
        blockers_of(s, a).len() > 0,
        !traits_of(tm, a).trample,
    ensures
        forall|k: int|
            0 <= k < attacker_events(s, tm, a, first_strike_only, defending).len() ==> (
            #[trigger] attacker_events(s, tm, a, first_strike_only, defending)[k]).target_player is None,
{
    let at = traits_of(tm, a);
    let power = power_amount(at.power);
    if s.objects@.contains_key(a) && deals_in_step(at, first_strike_only) && power != 0 {
        let bl = blockers_of(s, a);
        lemma_assigned_hit_creatures(s, tm, a, bl, power);
        lemma_strike_back_hits_attacker(s, tm, a, bl, first_strike_only);
        let assigned = assign_to_blockers(s, tm, a, bl, power);
        let back = strike_back(s, tm, a, bl, first_strike_only);
        let all = attacker_events(s, tm, a, first_strike_only, defending);
        assert(all =~= assigned.0 + back);
        assert forall|k: int| 0 <= k < all.len() implies (#[trigger] all[k]).target_player is None by {
            if k < assigned.0.len() {
                assert(all[k] == assigned.0[k]);
            } else {
                assert(all[k] == back[k - assigned.0.len()]);
            }
        }
    }
}

/// Whether a damage event carries what its source gives it: its
/// controller gains the life when the source has lifelink (nobody
/// otherwise), toxic when the source has toxic, and the source's owner as
/// commander owner when the source is a commander.
pub open spec fn carries_source(s: GameState, tm: Map<ObjectId, CombatTraits>, e: DamageEvent) -> bool {
    &&& e.lifelink_for == (if traits_of(tm, e.source_id).lifelink {
        Some(s.objects@[e.source_id].controller)
    } else {
        None
    })
    &&& e.toxic == traits_of(tm, e.source_id).toxic
    &&& e.commander_owner == (if s.is_commander_spec(e.source_id) {
        Some(s.objects@[e.source_id].owner)
    } else {
        None
    })
}

proof fn lemma_assigned_lifelink(
    s: GameState,
    tm: Map<ObjectId, CombatTraits>,
    a: ObjectId,
    bl: Seq<ObjectId>,
    remaining: u32,
)
    ensures
        forall|k: int|
            0 <= k < assign_to_blockers(s, tm, a, bl, remaining).0.len() ==> carries_source(
                s,
                tm,
                #[trigger] assign_to_blockers(s, tm, a, bl, remaining).0[k],
            ),
    decreases bl.len(),
{
    if bl.len() > 0 && remaining > 0 {
        if !s.objects@.contains_key(bl[0]) {
            lemma_assigned_lifelink(s, tm, a, bl.drop_first(), remaining);
            assert(assign_to_blockers(s, tm, a, bl, remaining) == assign_to_blockers(
                s,
                tm,
                a,
                bl.drop_first(),
                remaining,
            ));
        } else {
            let at = traits_of(tm, a);
            let dmg: u32 = if at.deathtouch {
                1
            } else if room(s, tm, bl[0]) < remaining {
                room(s, tm, bl[0]) as u32
            } else {
                remaining
            };
            lemma_assigned_lifelink(s, tm, a, bl.drop_first(), (remaining - dmg) as u32);
            let ev = hit(s, tm, a, Some(bl[0]), None, dmg, at.wither || at.infect, false);
            let rest = assign_to_blockers(s, tm, a, bl.drop_first(), (remaining - dmg) as u32);
            let all = assign_to_blockers(s, tm, a, bl, remaining).0;
            assert(all =~= seq![ev] + rest.0);
            assert forall|k: int| 0 <= k < all.len() implies carries_source(s, tm, #[trigger] all[k]) by {
                if k > 0 {
                    assert(all[k] == rest.0[k - 1]);
                }
            }
        }
    }
}

proof fn lemma_strike_back_lifelink(
    s: GameState,
    tm: Map<ObjectId, CombatTraits>,
    a: ObjectId,
    bl: Seq<ObjectId>,
    first_strike_only: bool,
)
    ensures
        forall|k: int|
            0 <= k < strike_back(s, tm, a, bl, first_strike_only).len() ==> carries_source(
                s,
                tm,
                #[trigger] strike_back(s, tm, a, bl, first_strike_only)[k],
            ),
    decreases bl.len(),
{
    if bl.len() > 0 {
        lemma_strike_back_lifelink(s, tm, a, bl.drop_first(), first_strike_only);
        let rest = strike_back(s, tm, a, bl.drop_first(), first_strike_only);
        let all = strike_back(s, tm, a, bl, first_strike_only);
        assert forall|k: int| 0 <= k < all.len() implies carries_source(s, tm, #[trigger] all[k]) by {
            if all.len() > rest.len() && k > 0 {
                assert(all[k] == rest[k - 1]);
            }
        }
    }
}

proof fn lemma_attacker_lifelink(
    s: GameState,
    tm: Map<ObjectId, CombatTraits>,
    a: ObjectId,
    first_strike_only: bool,
    defending: PlayerIndex,
)
    ensures
        forall|k: int|
            0 <= k < attacker_events(s, tm, a, first_strike_only, defending).len() ==> carries_source(
                s,
                tm,
                #[trigger] attacker_events(s, tm, a, first_strike_only, defending)[k],
            ),
{
    let at = traits_of(tm, a);
    let power = power_amount(at.power);
    let bl = blockers_of(s, a);
    if s.objects@.contains_key(a) && deals_in_step(at, first_strike_only) && power != 0 && bl.len() > 0 {
        lemma_assigned_lifelink(s, tm, a, bl, power);
        lemma_strike_back_lifelink(s, tm, a, bl, first_strike_only);
        let assigned = assign_to_blockers(s, tm, a, bl, power);
        let trample = if at.trample && assigned.1 > 0 {
            seq![hit(s, tm, a, None, Some(defending), assigned.1, false, at.infect)]
        } else {
            seq![]
        };
        let back = strike_back(s, tm, a, bl, first_strike_only);
        let all = attacker_events(s, tm, a, first_strike_only, defending);
        assert(all =~= assigned.0 + trample + back);
        assert forall|k: int| 0 <= k < all.len() implies carries_source(s, tm, #[trigger] all[k]) by {
            if k < assigned.0.len() {
                assert(all[k] == assigned.0[k]);
            } else if k < assigned.0.len() + trample.len() {
                assert(all[k] == trample[k - assigned.0.len()]);
            } else {
                assert(all[k] == back[k - assigned.0.len() - trample.len()]);
            }
        }
    }
}

proof fn lemma_attackers_lifelink(
    s: GameState,
    tm: Map<ObjectId, CombatTraits>,
    attackers: Seq<ObjectId>,
    first_strike_only: bool,
    defending: PlayerIndex,
)
    ensures
        forall|k: int|
            0 <= k < attackers_events(s, tm, attackers, first_strike_only, defending).len() ==> carries_source(
                s,
                tm,
                #[trigger] attackers_events(s, tm, attackers, first_strike_only, defending)[k],
            ),
    decreases attackers.len(),
{
    if attackers.len() > 0 {
        lemma_attacker_lifelink(s, tm, attackers[0], first_strike_only, defending);
        lemma_attackers_lifelink(s, tm, attackers.drop_first(), first_strike_only, defending);
        let first = attacker_events(s, tm, attackers[0], first_strike_only, defending);
        let rest = attackers_events(s, tm, attackers.drop_first(), first_strike_only, defending);
        let all = attackers_events(s, tm, attackers, first_strike_only, defending);
        assert forall|k: int| 0 <= k < all.len() implies carries_source(s, tm, #[trigger] all[k]) by {
            if k < first.len() {
                assert(all[k] == first[k]);
            } else {
                assert(all[k] == rest[k - first.len()]);
            }
        }
    }
}

/// Every combat damage event of a damage step, whether dealt by an
/// attacker (to a blocker or to the defending player) or by a blocker (to
/// the attacker it blocks), carries the lifelink of the creature dealing
/// it: with lifelink, that creature's controller gains the life; without,
/// nobody does.
pub proof fn lemma_combat_lifelink(s: GameState, tm: Map<ObjectId, CombatTraits>, first_strike_only: bool)
    ensures
        forall|k: int|
            0 <= k < combat_events(s, tm, first_strike_only).len() ==> (#[trigger] combat_events(
                s,
                tm,
                first_strike_only,
            )[k]).lifelink_for == (if traits_of(tm, combat_events(s, tm, first_strike_only)[k].source_id).lifelink {
                Some(s.objects@[combat_events(s, tm, first_strike_only)[k].source_id].controller)
            } else {
                None
            }),
{
    lemma_attackers_lifelink(s, tm, s.combat.attackers@, first_strike_only, defending_player(s));
}

/// Every combat damage event of a damage step has toxic exactly when the
/// creature dealing it has toxic, and counts as commander damage, to that
/// creature's owner, exactly when the creature is a commander.
pub proof fn lemma_combat_toxic_and_commander(s: GameState, tm: Map<ObjectId, CombatTraits>, first_strike_only: bool)
    ensures
        forall|k: int|
            0 <= k < combat_events(s, tm, first_strike_only).len() ==> {
                let e = #[trigger] combat_events(s, tm, first_strike_only)[k];
                &&& e.toxic == traits_of(tm, e.source_id).toxic
                &&& e.commander_owner == (if s.is_commander_spec(e.source_id) {
                    Some(s.objects@[e.source_id].owner)
                } else {
                    None
                })
            },
{
    lemma_attackers_lifelink(s, tm, s.combat.attackers@, first_strike_only, defending_player(s));
}

/// Lifelink on damage dealt to a creature: the player named gains life
/// equal to the damage.
pub proof fn lemma_lifelink_gains_damage(m: DamageModel, e: DamageEvent, p: PlayerIndex)
    requires
        e.target_player is None,
        e.lifelink_for == Some(p),
        p < m.1.len(),
        fits(m, e),
    ensures
        apply_event(m, e).1[p as int] == m.1[p as int] + e.amount,
{
}

/// The total damage of a list of events.
pub open spec fn damage_total(es: Seq<DamageEvent>) -> int
    decreases es.len(),
{
    if es.len() == 0 {
        0
    } else {
        es[0].amount + damage_total(es.drop_first())
    }
}

/// An attacker's damage is all accounted for when assigned to its
/// blockers: what the blockers are dealt plus what is left over is the
/// damage it had to assign. With deathtouch each blocker is dealt exactly
/// 1; without, a blocker is dealt no more than lethal damage (what is left
/// of its toughness). Every event is dealt by the attacker to one of its
/// blockers.
pub proof fn lemma_assignment_accounts_for_damage(
    s: GameState,
    tm: Map<ObjectId, CombatTraits>,
    a: ObjectId,
    bl: Seq<ObjectId>,
    remaining: u32,
)
    ensures
        damage_total(assign_to_blockers(s, tm, a, bl, remaining).0) + assign_to_blockers(s, tm, a, bl, remaining).1
            == remaining,
        forall|k: int|
            0 <= k < assign_to_blockers(s, tm, a, bl, remaining).0.len() ==> {
                let e = #[trigger] assign_to_blockers(s, tm, a, bl, remaining).0[k];
                &&& e.source_id == a
                &&& e.target_object is Some
                &&& bl.contains(e.target_object->0)
                &&& traits_of(tm, a).deathtouch ==> e.amount == 1
                &&& !traits_of(tm, a).deathtouch ==> e.amount <= room(s, tm, e.target_object->0)
            },
    decreases bl.len(),
{
    if bl.len() > 0 && remaining > 0 {
        let t = bl.drop_first();
        if !s.objects@.contains_key(bl[0]) {
            lemma_assignment_accounts_for_damage(s, tm, a, t, remaining);
            assert(assign_to_blockers(s, tm, a, bl, remaining) == assign_to_blockers(s, tm, a, t, remaining));
            let all = assign_to_blockers(s, tm, a, bl, remaining).0;
            assert forall|k: int| 0 <= k < all.len() implies bl.contains((#[trigger] all[k]).target_object->0) by {
                let m = choose|m: int| 0 <= m < t.len() && t[m] == all[k].target_object->0;
                assert(bl[m + 1] == t[m]);
            }
        } else {
            let at = traits_of(tm, a);
            let dmg: u32 = if at.deathtouch {
                1
            } else if room(s, tm, bl[0]) < remaining {
                room(s, tm, bl[0]) as u32
            } else {
                remaining
            };
            lemma_assignment_accounts_for_damage(s, tm, a, t, (remaining - dmg) as u32);
            let ev = hit(s, tm, a, Some(bl[0]), None, dmg, at.wither || at.infect, false);
            let rest = assign_to_blockers(s, tm, a, t, (remaining - dmg) as u32);
            let all = assign_to_blockers(s, tm, a, bl, remaining).0;
            assert(all =~= seq![ev] + rest.0);
            assert(all.drop_first() =~= rest.0);
            assert forall|k: int| 0 <= k < all.len() implies bl.contains((#[trigger] all[k]).target_object->0) by {
                if k == 0 {
                    assert(bl[0] == all[0].target_object->0);
                } else {
                    assert(all[k] == rest.0[k - 1]);
                    let m = choose|m: int| 0 <= m < t.len() && t[m] == rest.0[k - 1].target_object->0;
                    assert(bl[m + 1] == t[m]);
                }
            }
            assert forall|k: int| 0 < k < all.len() implies (#[trigger] all[k]) == rest.0[k - 1] by {}
        }
    }
}

/// An unblocked attacker that deals damage in the step deals exactly its
/// power, as one event, to the defending player.
pub proof fn lemma_unblocked_attacker_hits_player(
    s: GameState,
    tm: Map<ObjectId, CombatTraits>,
    a: ObjectId,
    first_strike_only: bool,
    defending: PlayerIndex,
)
    requires
        s.objects@.contains_key(a),
        deals_in_step(traits_of(tm, a), first_strike_only),
        traits_of(tm, a).power > 0,
        blockers_of(s, a).len() == 0,
    ensures
        attacker_events(s, tm, a, first_strike_only, defending).len() == 1,
        attacker_events(s, tm, a, first_strike_only, defending)[0].source_id == a,
        attacker_events(s, tm, a, first_strike_only, defending)[0].target_player == Some(defending),
        attacker_events(s, tm, a, first_strike_only, defending)[0].target_object is None,
        attacker_events(s, tm, a, first_strike_only, defending)[0].amount == traits_of(tm, a).power,
{
}

/// Combat damage to a player: with infect it gives that many poison
/// counters and costs no life; without, it costs that much life, counts as
/// commander damage from the source's owner when the source is a
/// commander, and with toxic gives one poison counter.
pub proof fn lemma_damage_to_player(m: DamageModel, e: DamageEvent, p: PlayerIndex)
    requires
        e.target_object is None,
        e.target_player == Some(p),
        p < m.1.len(),
        p < m.2.len(),
        p < m.3.len(),
        e.lifelink_for != Some(p),
        fits(m, e),
    ensures
        e.infect ==> apply_event(m, e).1[p as int] == m.1[p as int] && apply_event(m, e).2[p as int] == m.2[p as int]
            + e.amount,
        !e.infect ==> apply_event(m, e).1[p as int] == m.1[p as int] - e.amount && apply_event(m, e).2[p as int]
            == m.2[p as int] + (if e.toxic {
            1int
        } else {
            0int
        }),
        !e.infect && e.commander_owner is Some && e.commander_owner->0 < m.3[p as int].len() ==> apply_event(
            m,
            e,
        ).3[p as int][e.commander_owner->0 as int] == m.3[p as int][e.commander_owner->0 as int] + e.amount,
{
    assert(hit_object(m, e) == m);
    let h = hit_player(m, e);
    assert(apply_event(m, e).3 == h.3);
    if !e.infect && e.commander_owner is Some && e.commander_owner->0 < m.3[p as int].len() {
        let o = e.commander_owner->0;
        let l = lose_life(m, p as int, e);
        assert(l.3 == m.3.update(p as int, m.3[p as int].update(o as int, (m.3[p as int][o as int] + e.amount) as i32)));
        assert(hit_player_first(m, p as int, e) == l);
        assert(hit_player_toxic(m, p as int, e).3 == l.3);
        assert(h.3 == l.3);
    }
}

/// Combat damage to a creature: with wither or infect it is dealt as that
/// many -1/-1 counters and marks no damage; otherwise it is marked.
pub proof fn lemma_damage_to_creature(m: DamageModel, e: DamageEvent, o: ObjectId)
    requires
        e.target_player is None,
        e.target_object == Some(o),
        m.0.contains_key(o),
        fits(m, e),
    ensures
        apply_event(m, e).0.contains_key(o),
        e.wither ==> apply_event(m, e).0[o].minus_counters == m.0[o].minus_counters + e.amount
            && apply_event(m, e).0[o].damage_marked == m.0[o].damage_marked,
        !e.wither ==> apply_event(m, e).0[o].damage_marked == m.0[o].damage_marked + e.amount
            && apply_event(m, e).0[o].minus_counters == m.0[o].minus_counters,
{
}

/// Every creature deals combat damage in at least one damage step; it
/// deals damage in both exactly when it has double strike.
pub proof fn lemma_damage_steps(t: CombatTraits)
    ensures
        deals_in_step(t, true) || deals_in_step(t, false),
        deals_in_step(t, true) && deals_in_step(t, false) <==> t.double_strike,
        t.first_strike && !t.double_strike ==> !deals_in_step(t, false),
        !t.first_strike && !t.double_strike ==> !deals_in_step(t, true),
{
}

} // verus!
