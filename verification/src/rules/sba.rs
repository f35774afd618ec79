//! State-based actions (CR 704) that depend only on the game state and the
//! printed card data: players losing, counter cancellation, the legend and
//! planeswalker uniqueness rules, and the end of the game.
use vstd::prelude::*;

use crate::card::{CardDef, CardInstance, CardType, ObjectId, Supertype};
use crate::game::{GameFormat, GameState, PlayerState};
use crate::rules::mana::def_at;

verus! {

broadcast use vstd::std_specs::hash::group_hash_axioms;

/// Whether a player has taken 21 or more combat damage from one commander.
pub open spec fn commander_damage_lethal(p: PlayerState) -> bool {
    exists|i: int| 0 <= i < p.commander_damage_received@.len() && p.commander_damage_received@[i] >= 21
}

/// Whether a player loses to a state-based action: life 0 or less (CR
/// 704.5a), ten or more poison counters (CR 704.5c), or, in Commander, 21
/// or more damage from one commander (CR 903.10a).
pub open spec fn loses_now(p: PlayerState, commander: bool) -> bool {
    p.life <= 0 || p.poison_counters >= 10 || (commander && commander_damage_lethal(p))
}

/// Whether some listed damage is 21 or more.
fn has_lethal_commander_damage(v: &Vec<i32>) -> (r: bool)
    ensures
        r == exists|i: int| 0 <= i < v@.len() && v@[i] >= 21,
{
    let mut i: usize = 0;
    while i < v.len()
        invariant
            i <= v@.len(),
            forall|k: int| 0 <= k < i ==> v@[k] < 21,
        decreases v.len() - i,
    {
        if v[i] >= 21 {
            return true;
        }
        i = i + 1;
    }
    false
}

/// Mark the players who lose to a state-based action as having lost.
/// Returns whether anyone newly lost.
pub fn check_player_losses(state: &mut GameState) -> (r: bool)
    ensures
        *final(state) == (GameState { players: final(state).players, ..*old(state) }),
        final(state).players@.len() == old(state).players@.len(),
        forall|i: int|
            0 <= i < old(state).players@.len() ==> #[trigger] final(state).players@[i] == (PlayerState {
                has_lost: old(state).players@[i].has_lost || loses_now(
                    old(state).players@[i],
                    old(state).format == GameFormat::Commander,
                ),
                ..old(state).players@[i]
            }),
        r == exists|i: int|
            0 <= i < old(state).players@.len() && !(#[trigger] old(state).players@[i]).has_lost && loses_now(
                old(state).players@[i],
                old(state).format == GameFormat::Commander,
            ),
        forall|i: int, j: int|
            #![trigger final(state).players@[i], old(state).players@[i].commander_damage_received@[j]]
            0 <= i < old(state).players@.len() && old(state).format == GameFormat::Commander && 0 <= j
                < old(state).players@[i].commander_damage_received@.len()
                && old(state).players@[i].commander_damage_received@[j] >= 21 ==> final(state).players@[i].has_lost,
{
    let commander = state.is_commander_format();
    let mut any = false;
    let mut i: usize = 0;
    while i < state.players.len()
        invariant
            i <= state.players@.len(),
            commander == (old(state).format == GameFormat::Commander),
            *state == (GameState { players: state.players, ..*old(state) }),
            state.players@.len() == old(state).players@.len(),
            forall|k: int|
                0 <= k < i ==> #[trigger] state.players@[k] == (PlayerState {
                    has_lost: old(state).players@[k].has_lost || loses_now(old(state).players@[k], commander),
                    ..old(state).players@[k]
                }),
            forall|k: int| i <= k < state.players@.len() ==> #[trigger] state.players@[k] == old(state).players@[k],
            any == exists|k: int|
                0 <= k < i && !(#[trigger] old(state).players@[k]).has_lost && loses_now(old(state).players@[k], commander),
        decreases state.players.len() - i,
    {
        let lethal = commander && has_lethal_commander_damage(&state.players[i].commander_damage_received);
        let p = &state.players[i];
        let loses = p.life <= 0 || p.poison_counters >= 10 || lethal;
        if loses && !p.has_lost {
            any = true;
        }
        if loses {
            state.players[i].has_lost = true;
        }
        proof {
            assert(loses == loses_now(old(state).players@[i as int], commander));
        }
        i = i + 1;
    }
    proof {
        assert forall|i: int, j: int|
            #![trigger state.players@[i], old(state).players@[i].commander_damage_received@[j]]
            0 <= i < old(state).players@.len() && old(state).format == GameFormat::Commander && 0 <= j
                < old(state).players@[i].commander_damage_received@.len()
                && old(state).players@[i].commander_damage_received@[j] >= 21 implies state.players@[i].has_lost by {
            lemma_player_loss(old(state).players@[i], state.players@[i], commander);
        }
    }
    any
}

/// A player loses to state-based actions exactly when their life is 0 or
/// less, they have ten or more poison counters, or, in a Commander game,
/// they have taken 21 or more combat damage from any one commander,
/// whatever their life total; a player who had lost stays lost.
pub proof fn lemma_player_loss(before: PlayerState, after: PlayerState, commander: bool)
    requires
        after == (PlayerState { has_lost: before.has_lost || loses_now(before, commander), ..before }),
    ensures
        before.life <= 0 ==> after.has_lost,
        before.poison_counters >= 10 ==> after.has_lost,
        forall|j: int|
            commander && 0 <= j < before.commander_damage_received@.len()
                && #[trigger] before.commander_damage_received@[j] >= 21 ==> after.has_lost,
        after.has_lost ==> before.has_lost || before.life <= 0 || before.poison_counters >= 10 || (commander
            && exists|j: int|
            0 <= j < before.commander_damage_received@.len() && #[trigger] before.commander_damage_received@[j]
                >= 21),
        after.life == before.life,
        after.commander_damage_received == before.commander_damage_received,
{
}

/// An instance with its +1/+1 and -1/-1 counters cancelled against each
/// other (CR 704.5d).
pub open spec fn cancelled(inst: CardInstance) -> CardInstance {
    if inst.plus_counters > 0 && inst.minus_counters > 0 {
        let c = if inst.plus_counters <= inst.minus_counters {
            inst.plus_counters
        } else {
            inst.minus_counters
        };
        CardInstance {
            plus_counters: (inst.plus_counters - c) as i32,
            minus_counters: (inst.minus_counters - c) as i32,
            ..inst
        }
    } else {
        inst
    }
}

/// Cancel +1/+1 against -1/-1 counters on each permanent (CR 704.5d).
/// Returns whether any permanent had both.
pub fn cancel_counters(state: &mut GameState) -> (r: bool)
    ensures
        *final(state) == (GameState { objects: final(state).objects, ..*old(state) }),
        final(state).objects@.dom() == old(state).objects@.dom(),
        forall|k: ObjectId|
            #[trigger] final(state).objects@.contains_key(k) ==> final(state).objects@[k] == (if old(
                state,
            ).battlefield@.contains(k) {
                cancelled(old(state).objects@[k])
            } else {
                old(state).objects@[k]
            }),
        r == exists|k: ObjectId|
            old(state).battlefield@.contains(k) && #[trigger] old(state).objects@.contains_key(k)
                && old(state).objects@[k].plus_counters > 0 && old(state).objects@[k].minus_counters > 0,
{
    let mut any = false;
    let mut i: usize = 0;
    while i < state.battlefield.len()
        invariant
            i <= state.battlefield@.len(),
            *state == (GameState { objects: state.objects, ..*old(state) }),
            state.objects@.dom() == old(state).objects@.dom(),
            forall|k: ObjectId|
                #[trigger] state.objects@.contains_key(k) ==> state.objects@[k] == (if state.battlefield@.take(
                    i as int,
                ).contains(k) {
                    cancelled(old(state).objects@[k])
                } else {
                    old(state).objects@[k]
                }),
            any == exists|k: ObjectId|
                state.battlefield@.take(i as int).contains(k) && #[trigger] old(state).objects@.contains_key(k)
                    && old(state).objects@[k].plus_counters > 0 && old(state).objects@[k].minus_counters > 0,
        decreases state.battlefield.len() - i,
    {
        let id = state.battlefield[i];
        let ghost prefix = state.battlefield@.take(i as int);
        assert(state.battlefield@.take(i + 1) =~= prefix.push(id));
        match state.objects.get(&id) {
            Some(inst) => {
                let mut c = *inst;
                proof {
                    if prefix.contains(id) {
                        assert(c == cancelled(old(state).objects@[id]));
                        assert(!(c.plus_counters > 0 && c.minus_counters > 0));
                    } else {
                        assert(c == old(state).objects@[id]);
                    }
                }
                if c.plus_counters > 0 && c.minus_counters > 0 {
                    let cancel = if c.plus_counters <= c.minus_counters {
                        c.plus_counters
                    } else {
                        c.minus_counters
                    };
                    c.plus_counters = c.plus_counters - cancel;
                    c.minus_counters = c.minus_counters - cancel;
                    state.objects.insert(id, c);
                    any = true;
                }
            },
            None => {},
        }
        i = i + 1;
        proof {
            let t = state.battlefield@.take(i as int);
            assert(t =~= prefix.push(id));
            assert(t[prefix.len() as int] == id);
            assert(t.contains(id));
            assert forall|k: ObjectId| prefix.contains(k) implies #[trigger] t.contains(k) by {
                let j = choose|j: int| 0 <= j < prefix.len() && prefix[j] == k;
                assert(t[j] == k);
            }
            assert forall|k: ObjectId| #[trigger] t.contains(k) implies prefix.contains(k) || k == id by {
                let j = choose|j: int| 0 <= j < t.len() && t[j] == k;
                if j < prefix.len() {
                    assert(prefix[j] == k);
                }
            }
            assert forall|k: ObjectId| #[trigger] state.objects@.contains_key(k) implies state.objects@[k] == (if state.battlefield@.take(i as int).contains(k) {
                cancelled(old(state).objects@[k])
            } else {
                old(state).objects@[k]
            }) by {
                if k == id {
                    assert(state.battlefield@.take(i as int).contains(k));
                } else {
                    assert(state.battlefield@.take(i as int).contains(k) == prefix.contains(k));
                }
            }
        }
    }
    assert(state.battlefield@.take(state.battlefield@.len() as int) =~= state.battlefield@);
    any
}

/// The uniqueness rules: the legend rule (CR 704.5j) and the planeswalker
/// uniqueness rule.
#[derive(Debug, Clone, Copy, PartialEq, Eq, Structural)]
pub enum UniquenessRule {
    Legendary,
    Planeswalker,
}

/// Whether a uniqueness rule covers a card.
pub open spec fn rule_covers(rule: UniquenessRule, d: CardDef) -> bool {
    match rule {
        UniquenessRule::Legendary => d.is_legendary_spec(),
        UniquenessRule::Planeswalker => d.card_types@.contains(CardType::Planeswalker),
    }
}

/// Whether a permanent is covered by a uniqueness rule.
pub open spec fn covered(state: GameState, rule: UniquenessRule, id: ObjectId) -> bool {
    match def_at(state, id) {
        Some(d) => rule_covers(rule, d),
        None => false,
    }
}

/// Whether a covered permanent is superseded: its controller controls a
/// newer (higher id) covered permanent with the same name.
pub open spec fn superseded(state: GameState, rule: UniquenessRule, id: ObjectId) -> bool {
    &&& covered(state, rule, id)
    &&& exists|j: int|
        0 <= j < state.battlefield@.len() && covered(state, rule, #[trigger] state.battlefield@[j])
            && state.objects@[state.battlefield@[j]].controller == state.objects@[id].controller
            && def_at(state, state.battlefield@[j])->0.name@ == def_at(state, id)->0.name@
            && state.battlefield@[j] > id
}

/// The entries of a list of ids that satisfy a predicate, in order.
pub open spec fn keep_ids(s: Seq<ObjectId>, p: spec_fn(ObjectId) -> bool) -> Seq<ObjectId>
    decreases s.len(),
{
    if s.len() == 0 {
        s
    } else {
        let rest = keep_ids(s.drop_last(), p);
        if p(s.last()) {
            rest.push(s.last())
        } else {
            rest
        }
    }
}

/// Whether a uniqueness rule covers a permanent, by its card.
fn covered_exec(state: &GameState, rule: UniquenessRule, id: ObjectId) -> (r: Option<&CardDef>)
    requires
        state.card_db is Some,
    ensures
        match r {
            Some(d) => covered(*state, rule, id) && def_at(*state, id) == Some(*d),
            None => !covered(*state, rule, id),
        },
{
    let db = state.card_db();
    match state.objects.get(&id) {
        Some(inst) => match db.get(inst.card_def_id) {
            Some(d) => {
                let ok = match rule {
                    UniquenessRule::Legendary => d.is_legendary(),
                    UniquenessRule::Planeswalker => crate::card::has_card_type(&d.card_types, CardType::Planeswalker),
                };
                if ok {
                    Some(d)
                } else {
                    None
                }
            },
            None => None,
        },
        None => None,
    }
}

/// The permanents a uniqueness rule puts into the graveyard: for each
/// controller and name with several covered permanents, all but the newest
/// (highest id). They are listed in battlefield order.
pub fn find_duplicates_to_remove(state: &GameState, rule: UniquenessRule) -> (r: Vec<ObjectId>)
    requires
        state.battlefield_known(),
        state.card_db is Some,
    ensures
        r@ == keep_ids(state.battlefield@, |id: ObjectId| superseded(*state, rule, id)),
{
    let mut out: Vec<ObjectId> = Vec::new();
    let mut i: usize = 0;
    while i < state.battlefield.len()
        invariant
            i <= state.battlefield@.len(),
            state.battlefield_known(),
            state.card_db is Some,
            out@ == keep_ids(state.battlefield@.take(i as int), |id: ObjectId| superseded(*state, rule, id)),
        decreases state.battlefield.len() - i,
    {
        let id = state.battlefield[i];
        assert(state.battlefield@.take(i + 1).drop_last() =~= state.battlefield@.take(i as int));
        assert(state.battlefield@.take(i + 1).last() == id);
        match covered_exec(state, rule, id) {
            Some(d) => {
                let controller = state.objects.get(&id).unwrap().controller;
                let mut found = false;
                let mut j: usize = 0;
                while j < state.battlefield.len()
                    invariant
                        j <= state.battlefield@.len(),
                        state.card_db is Some,
                        state.battlefield_known(),
                        covered(*state, rule, id),
                        def_at(*state, id) == Some(*d),
                        controller == state.objects@[id].controller,
                        found == exists|m: int|
                            0 <= m < j && covered(*state, rule, #[trigger] state.battlefield@[m])
                                && state.objects@[state.battlefield@[m]].controller == controller
                                && def_at(*state, state.battlefield@[m])->0.name@ == d.name@
                                && state.battlefield@[m] > id,
                    decreases state.battlefield.len() - j,
                {
                    let other = state.battlefield[j];
                    match covered_exec(state, rule, other) {
                        Some(od) => {
                            let oc = state.objects.get(&other).unwrap().controller;
                            if oc == controller && crate::text::str_eq(od.name.as_str(), d.name.as_str()) && other > id {
                                found = true;
                            }
                        },
                        None => {},
                    }
                    j = j + 1;
                }
                if found {
                    out.push(id);
                }
            },
            None => {},
        }
        i = i + 1;
    }
    assert(state.battlefield@.take(state.battlefield@.len() as int) =~= state.battlefield@);
    out
}

/// How many players have lost.
pub open spec fn losers(ps: Seq<PlayerState>) -> nat
    decreases ps.len(),
{
    if ps.len() == 0 {
        0
    } else {
        losers(ps.drop_last()) + if ps.last().has_lost {
            1nat
        } else {
            0nat
        }
    }
}

/// The first player who has not lost.
pub open spec fn first_standing(ps: Seq<PlayerState>, i: int) -> Option<usize>
    decreases ps.len() - i,
{
    if i < 0 || i >= ps.len() {
        None
    } else if !ps[i].has_lost {
        Some(i as usize)
    } else {
        first_standing(ps, i + 1)
    }
}

/// End the game when all players but at most one have lost: the winner is
/// the first player still standing (none if all have lost).
pub fn check_game_end(state: &mut GameState)
    requires
        old(state).players@.len() > 0,
    ensures
        if losers(old(state).players@) >= old(state).players@.len() - 1 {
            *final(state) == (GameState {
                game_over: true,
                winner: first_standing(old(state).players@, 0),
                ..*old(state)
            })
        } else {
            *final(state) == *old(state)
        },
{
    let mut lost: usize = 0;
    let mut i: usize = 0;
    while i < state.players.len()
        invariant
            i <= state.players@.len(),
            lost <= i,
            lost == losers(state.players@.take(i as int)),
        decreases state.players.len() - i,
    {
        assert(state.players@.take(i + 1).drop_last() =~= state.players@.take(i as int));
        if state.players[i].has_lost {
            lost = lost + 1;
        }
        i = i + 1;
    }
    assert(state.players@.take(state.players@.len() as int) =~= state.players@);
    if lost >= state.players.len() - 1 {
        let winner = first_standing_exec(&state.players);
        state.game_over = true;
        state.winner = winner;
    }
}

/// The first player who has not lost.
fn first_standing_exec(ps: &Vec<PlayerState>) -> (r: Option<usize>)
    ensures
        r == first_standing(ps@, 0),
{
    let mut k: usize = 0;
    while k < ps.len()
        invariant
            k <= ps@.len(),
            first_standing(ps@, 0) == first_standing(ps@, k as int),
        decreases ps.len() - k,
    {
        if !ps[k].has_lost {
            return Some(k);
        }
        k = k + 1;
    }
    None
}

/// Cancelling counters leaves no permanent with both kinds and keeps the
/// difference between them: +1/+1 minus -1/-1 is what it was.
pub proof fn lemma_cancelled_counters(inst: CardInstance)
    requires
        inst.plus_counters >= 0,
        inst.minus_counters >= 0,
    ensures
        !(cancelled(inst).plus_counters > 0 && cancelled(inst).minus_counters > 0),
        cancelled(inst).plus_counters >= 0,
        cancelled(inst).minus_counters >= 0,
        cancelled(inst).plus_counters - cancelled(inst).minus_counters == inst.plus_counters - inst.minus_counters,
        cancelled(inst) == (CardInstance {
            plus_counters: cancelled(inst).plus_counters,
            minus_counters: cancelled(inst).minus_counters,
            ..inst
        }),
{
}

/// An id kept by `keep_ids` satisfies the predicate.
proof fn lemma_keep_ids_satisfy(s: Seq<ObjectId>, p: spec_fn(ObjectId) -> bool, x: ObjectId)
    requires
        keep_ids(s, p).contains(x),
    ensures
        p(x),
    decreases s.len(),
{
    let rest = keep_ids(s.drop_last(), p);
    if p(s.last()) && x == s.last() {
    } else if p(s.last()) {
        let k = choose|k: int| 0 <= k < keep_ids(s, p).len() && keep_ids(s, p)[k] == x;
        assert(keep_ids(s, p) == rest.push(s.last()));
        assert(rest[k] == x);
        lemma_keep_ids_satisfy(s.drop_last(), p, x);
    } else {
        lemma_keep_ids_satisfy(s.drop_last(), p, x);
    }
}

/// The uniqueness rules keep the newest: a covered permanent with the
/// highest id among the covered permanents on the battlefield with its
/// controller and name is never put into the graveyard.
pub proof fn lemma_newest_is_kept(state: GameState, rule: UniquenessRule, id: ObjectId)
    requires
        forall|j: int|
            0 <= j < state.battlefield@.len() && covered(state, rule, #[trigger] state.battlefield@[j])
                && state.objects@[state.battlefield@[j]].controller == state.objects@[id].controller
                && def_at(state, state.battlefield@[j])->0.name@ == def_at(state, id)->0.name@ ==> state.battlefield@[j]
                <= id,
    ensures
        !keep_ids(state.battlefield@, |x: ObjectId| superseded(state, rule, x)).contains(id),
{
    if keep_ids(state.battlefield@, |x: ObjectId| superseded(state, rule, x)).contains(id) {
        lemma_keep_ids_satisfy(state.battlefield@, |x: ObjectId| superseded(state, rule, x), id);
    }
}

/// The winner named at the end of a game has not lost, and every player
/// before them has; no winner is named only when every player has lost.
pub proof fn lemma_winner_is_standing(ps: Seq<PlayerState>, i: int)
    requires
        0 <= i,
        ps.len() <= usize::MAX,
    ensures
        match first_standing(ps, i) {
            Some(w) => i <= w < ps.len() && !ps[w as int].has_lost && forall|k: int| i <= k < w ==> (#[trigger] ps[k]).has_lost,
            None => forall|k: int| i <= k < ps.len() ==> (#[trigger] ps[k]).has_lost,
        },
    decreases ps.len() - i,
{
    if i < ps.len() && ps[i].has_lost {
        lemma_winner_is_standing(ps, i + 1);
    }
}

} // verus!
