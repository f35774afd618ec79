//! The greedy heuristic player: keeps reasonable hands, plays a land,
//! casts the most expensive spell it can, attacks with as many creatures as
//! it can, blocks when the trade is favourable.
use std::collections::HashMap;
use vstd::prelude::*;

use crate::action::Action;
use crate::card::{CardDatabase, CardDef, ObjectId};
use crate::game::{GameState, Phase};
use crate::rules::combat::{traits_for, traits_of, CombatTraits};

verus! {

/// Every card of the database has a cost whose mana value fits in a `u32`.
pub open spec fn db_costs_fit(db: CardDatabase) -> bool {
    forall|i: int| 0 <= i < db.cards@.len() ==> (#[trigger] db.cards@[i]).cost_fits()
}

proof fn lemma_lookup_fits(cards: Seq<CardDef>, id: crate::card::CardId)
    requires
        forall|i: int| 0 <= i < cards.len() ==> (#[trigger] cards[i]).cost_fits(),
    ensures
        crate::card::lookup_in(cards, id) matches Some(d) ==> d.cost_fits(),
    decreases cards.len(),
{
    if cards.len() > 0 {
        assert(cards[0].cost_fits());
        let rest = cards.drop_first();
        assert forall|i: int| 0 <= i < rest.len() implies (#[trigger] rest[i]).cost_fits() by {
            assert(rest[i] == cards[i + 1]);
        }
        lemma_lookup_fits(rest, id);
    }
}

/// The number of cards in `hand` that are lands.
pub open spec fn land_count(s: GameState, hand: Seq<ObjectId>) -> int
    decreases hand.len(),
{
    if hand.len() == 0 {
        0
    } else {
        land_count(s, hand.drop_last()) + if s.def_of(hand.last()) matches Some(d) && d.is_land_spec() {
            1int
        } else {
            0int
        }
    }
}

/// Keep a hand of two to five lands, or any hand after two mulligans.
pub open spec fn keeps_hand(s: GameState) -> bool {
    let ps = s.players@[s.priority_player as int];
    let lands = land_count(s, ps.hand@);
    (2 <= lands <= 5) || ps.mulligan_count >= 2
}

/// How much a card is worth putting on the bottom: lands 0, other cards
/// their mana value, unknown cards 5.
pub open spec fn bottom_score(s: GameState, id: ObjectId) -> i32 {
    match s.def_of(id) {
        Some(d) => if d.is_land_spec() {
            0
        } else {
            d.cmc_spec() as i32
        },
        None => 5,
    }
}

/// The first bottom-card choice with the highest score above `score`, from
/// index `i` on (`best` so far).
pub open spec fn worst_bottom(s: GameState, a: Seq<Action>, i: int, best: Option<int>, score: i32) -> Option<int>
    decreases a.len() - i,
{
    if i < 0 || i >= a.len() {
        best
    } else {
        match a[i] {
            Action::MulliganBottomCard { object_id } => if bottom_score(s, object_id) > score {
                worst_bottom(s, a, i + 1, Some(i), bottom_score(s, object_id))
            } else {
                worst_bottom(s, a, i + 1, best, score)
            },
            _ => worst_bottom(s, a, i + 1, best, score),
        }
    }
}

/// The mana value of the card a cast action casts, when the card is known.
pub open spec fn spell_cmc(s: GameState, x: Action) -> Option<int> {
    match x {
        Action::CastSpell { object_id, .. } => match s.def_of(object_id) {
            Some(d) => Some(d.cmc_spec()),
            None => None,
        },
        Action::CastCommander { object_id, .. } => match s.def_of(object_id) {
            Some(d) => Some(d.cmc_spec()),
            None => None,
        },
        _ => None,
    }
}

/// The last cast action with the highest mana value, from index `i` on.
pub open spec fn best_spell(s: GameState, a: Seq<Action>, i: int, best: Option<int>, best_cmc: int) -> Option<int>
    decreases a.len() - i,
{
    if i < 0 || i >= a.len() {
        best
    } else {
        match spell_cmc(s, a[i]) {
            Some(c) => if c >= best_cmc {
                best_spell(s, a, i + 1, Some(i), c)
            } else {
                best_spell(s, a, i + 1, best, best_cmc)
            },
            None => best_spell(s, a, i + 1, best, best_cmc),
        }
    }
}

/// The first attack declaration with the most attackers, from index `i` on.
pub open spec fn best_attack(a: Seq<Action>, i: int, best: Option<int>, most: int) -> Option<int>
    decreases a.len() - i,
{
    if i < 0 || i >= a.len() {
        best
    } else {
        match a[i] {
            Action::DeclareAttackers { attackers } => if attackers@.len() > most {
                best_attack(a, i + 1, Some(i), attackers@.len() as int)
            } else {
                best_attack(a, i + 1, best, most)
            },
            _ => best_attack(a, i + 1, best, most),
        }
    }
}

/// The value of one block, with the attacker's and the blocker's cards
/// known: the attacker's power (damage kept off the player), plus twice
/// the attacker's mana value when only the attacker dies, the difference
/// of mana values when both die, less the blocker's mana value when only
/// the blocker dies.
pub open spec fn block_value(ap: i32, at: i32, bp: i32, bt: i32, acmc: i32, bcmc: i32) -> int {
    let blocker_dies = ap >= bt;
    let attacker_dies = bp >= at;
    ap + if attacker_dies && !blocker_dies {
        acmc * 2
    } else if attacker_dies && blocker_dies {
        acmc - bcmc
    } else if !attacker_dies && blocker_dies {
        -bcmc
    } else {
        0
    }
}

/// The value of a block, when both cards are known.
pub open spec fn pair_value(s: GameState, tm: Map<ObjectId, CombatTraits>, blk: (ObjectId, ObjectId)) -> Option<int> {
    match (s.def_of(blk.0), s.def_of(blk.1)) {
        (Some(bd), Some(ad)) => Some(
            block_value(
                traits_of(tm, blk.1).power,
                traits_of(tm, blk.1).toughness,
                traits_of(tm, blk.0).power,
                traits_of(tm, blk.0).toughness,
                ad.cmc_spec() as i32,
                bd.cmc_spec() as i32,
            ),
        ),
        _ => None,
    }
}

/// The total value of a set of blocks.
pub open spec fn blocks_score(s: GameState, tm: Map<ObjectId, CombatTraits>, blocks: Seq<(ObjectId, ObjectId)>) -> int
    decreases blocks.len(),
{
    if blocks.len() == 0 {
        0
    } else {
        blocks_score(s, tm, blocks.drop_last()) + match pair_value(s, tm, blocks.last()) {
            Some(v) => v,
            None => 0,
        }
    }
}

/// Every running sum while scoring blocks, and each term, fits in an `i32`,
/// and the blocking and attacking creatures are known objects.
pub open spec fn blocks_fit(s: GameState, tm: Map<ObjectId, CombatTraits>, blocks: Seq<(ObjectId, ObjectId)>) -> bool
    decreases blocks.len(),
{
    blocks.len() == 0 || {
        let b = blocks.last();
        &&& blocks_fit(s, tm, blocks.drop_last())
        &&& s.objects@.contains_key(b.0)
        &&& s.objects@.contains_key(b.1)
        &&& (pair_value(s, tm, b) is Some ==> {
            let ap = traits_of(tm, b.1).power;
            let acmc = s.def_of(b.1)->0.cmc_spec() as i32;
            let bcmc = s.def_of(b.0)->0.cmc_spec() as i32;
            &&& i32::MIN <= blocks_score(s, tm, blocks.drop_last()) + ap <= i32::MAX
            &&& i32::MIN <= acmc * 2 <= i32::MAX
            &&& i32::MIN <= acmc - bcmc <= i32::MAX
            &&& i32::MIN <= blocks_score(s, tm, blocks) <= i32::MAX
        })
    }
}

/// The first block declaration with the best score, from index `i` on: the
/// first one seen is taken whatever its score, a later one only when it
/// scores higher.
pub open spec fn best_block(
    s: GameState,
    tm: Map<ObjectId, CombatTraits>,
    a: Seq<Action>,
    i: int,
    best: Option<int>,
    score: int,
) -> (Option<int>, int)
    decreases a.len() - i,
{
    if i < 0 || i >= a.len() {
        (best, score)
    } else {
        match a[i] {
            Action::DeclareBlockers { blocks } => {
                let sc = blocks_score(s, tm, blocks@);
                if sc > score || best is None {
                    best_block(s, tm, a, i + 1, Some(i), sc)
                } else {
                    best_block(s, tm, a, i + 1, best, score)
                }
            },
            _ => best_block(s, tm, a, i + 1, best, score),
        }
    }
}

pub open spec fn is_ordering(x: Action) -> bool {
    x is OrderTriggers || x is ChooseReplacementOrder
}

pub open spec fn is_play_land(x: Action) -> bool {
    x is PlayLand
}

pub open spec fn is_discard(x: Action) -> bool {
    x is Discard
}

pub open spec fn is_real_block(x: Action) -> bool {
    x matches Action::DeclareBlockers { blocks } && blocks@.len() > 0
}

/// The first action from index `i` on that satisfies `p`.
pub open spec fn first_index(a: Seq<Action>, p: spec_fn(Action) -> bool, i: int) -> Option<int>
    decreases a.len() - i,
{
    if i < 0 || i >= a.len() {
        None
    } else if p(a[i]) {
        Some(i)
    } else {
        first_index(a, p, i + 1)
    }
}

pub open spec fn ordering_pred() -> spec_fn(Action) -> bool {
    |x: Action| is_ordering(x)
}

pub open spec fn play_land_pred() -> spec_fn(Action) -> bool {
    |x: Action| is_play_land(x)
}

pub open spec fn real_block_pred() -> spec_fn(Action) -> bool {
    |x: Action| is_real_block(x)
}

pub open spec fn discard_pred() -> spec_fn(Action) -> bool {
    |x: Action| is_discard(x)
}

/// The greedy player's choice among the legal actions `a`.
pub open spec fn greedy_choice(s: GameState, tm: Map<ObjectId, CombatTraits>, a: Seq<Action>) -> Action {
    if s.phase == Phase::Mulligan {
        if !s.players@[s.priority_player as int].mulligan_decided {
            if keeps_hand(s) {
                Action::MulliganKeep
            } else {
                Action::MulliganMulligan
            }
        } else {
            match worst_bottom(s, a, 0, None, -1i32) {
                Some(i) => a[i],
                None => a[0],
            }
        }
    } else if let Some(i) = first_index(a, ordering_pred(), 0) {
        a[i]
    } else if let Some(i) = first_index(a, play_land_pred(), 0) {
        a[i]
    } else if let Some(i) = best_spell(s, a, 0, None, 0) {
        a[i]
    } else if let Some(i) = best_attack(a, 0, None, 0) {
        a[i]
    } else if first_index(a, real_block_pred(), 0) is Some && best_block(
        s,
        tm,
        a,
        0,
        None,
        0,
    ).1 > 0 {
        a[best_block(s, tm, a, 0, None, 0).0->0]
    } else if let Some(i) = first_index(a, discard_pred(), 0) {
        a[i]
    } else {
        Action::PassPriority
    }
}

/// The definition of an object's card.
fn def_for(state: &GameState, id: ObjectId) -> (r: Option<&CardDef>)
    requires
        state.card_db is Some,
        state.objects@.contains_key(id),
    ensures
        match r {
            Some(d) => state.def_of(id) == Some(*d),
            None => state.def_of(id) is None,
        },
{
    let inst = state.objects.get(&id).unwrap();
    state.card_db().get(inst.card_def_id)
}

/// The mana value of an object's card, which fits in a `u32`.
proof fn lemma_def_fits(state: GameState, id: ObjectId)
    requires
        db_costs_fit(state.db()),
    ensures
        state.def_of(id) matches Some(d) ==> d.cost_fits(),
{
    lemma_lookup_fits(state.db().cards@, state.objects@[id].card_def_id);
}

fn count_lands(state: &GameState, hand: &Vec<ObjectId>) -> (r: usize)
    requires
        state.card_db is Some,
        forall|k: int| 0 <= k < hand@.len() ==> state.objects@.contains_key(#[trigger] hand@[k]),
    ensures
        r == land_count(*state, hand@),
{
    let mut n: usize = 0;
    let mut i: usize = 0;
    while i < hand.len()
        invariant
            i <= hand@.len(),
            n <= i,
            state.card_db is Some,
            forall|k: int| 0 <= k < hand@.len() ==> state.objects@.contains_key(#[trigger] hand@[k]),
            n == land_count(*state, hand@.take(i as int)),
        decreases hand.len() - i,
    {
        assert(hand@.take(i + 1).drop_last() =~= hand@.take(i as int));
        assert(hand@.take(i + 1).last() == hand@[i as int]);
        let land = match def_for(state, hand[i]) {
            Some(d) => d.is_land(),
            None => false,
        };
        if land {
            n = n + 1;
        }
        i = i + 1;
    }
    assert(hand@.take(i as int) =~= hand@);
    n
}

/// The action kinds searched for first.
pub open spec fn pred_of(which: u8) -> spec_fn(Action) -> bool {
    if which == 0 {
        ordering_pred()
    } else if which == 1 {
        play_land_pred()
    } else if which == 2 {
        real_block_pred()
    } else {
        discard_pred()
    }
}

fn first_of(a: &Vec<Action>, which: u8) -> (r: Option<usize>)
    requires
        which <= 3,
    ensures
        match r {
            Some(i) => i < a@.len() && first_index(a@, pred_of(which), 0) == Some(i as int) && pred_of(
                which,
            )(a@[i as int]),
            None => first_index(a@, pred_of(which), 0) is None,
        },
{
    let ghost p = pred_of(which);
    let mut i: usize = 0;
    while i < a.len()
        invariant
            i <= a@.len(),
            which <= 3,
            p == pred_of(which),
            first_index(a@, p, 0) == first_index(a@, p, i as int),
        decreases a.len() - i,
    {
        let hit = match &a[i] {
            Action::OrderTriggers { .. } => which == 0,
            Action::ChooseReplacementOrder { .. } => which == 0,
            Action::PlayLand { .. } => which == 1,
            Action::DeclareBlockers { blocks } => which == 2 && blocks.len() > 0,
            Action::Discard { .. } => which == 3,
            _ => false,
        };
        assert(hit == p(a@[i as int]));
        if hit {
            return Some(i);
        }
        i = i + 1;
    }
    None
}

/// What the greedy player may read: the cards of the objects its actions
/// name are known, and scoring each block declaration fits in an `i32`.
pub open spec fn actions_known(s: GameState, tm: Map<ObjectId, CombatTraits>, a: Seq<Action>) -> bool {
    forall|i: int|
        0 <= i < a.len() ==> match #[trigger] a[i] {
            Action::MulliganBottomCard { object_id } => s.objects@.contains_key(object_id),
            Action::CastSpell { object_id, .. } => s.objects@.contains_key(object_id),
            Action::CastCommander { object_id, .. } => s.objects@.contains_key(object_id),
            Action::DeclareBlockers { blocks } => blocks_fit(s, tm, blocks@),
            _ => true,
        }
}

fn bottom_score_exec(state: &GameState, id: ObjectId) -> (r: i32)
    requires
        state.card_db is Some,
        db_costs_fit(state.db()),
        state.objects@.contains_key(id),
    ensures
        r == bottom_score(*state, id),
{
    proof {
        lemma_def_fits(*state, id);
    }
    match def_for(state, id) {
        Some(d) => if d.is_land() {
            0
        } else {
            d.cmc() as i32
        },
        None => 5,
    }
}

fn find_worst_bottom(state: &GameState, a: &Vec<Action>) -> (r: Option<usize>)
    requires
        state.card_db is Some,
        db_costs_fit(state.db()),
        forall|i: int|
            0 <= i < a@.len() ==> (#[trigger] a@[i] matches Action::MulliganBottomCard { object_id }
                ==> state.objects@.contains_key(object_id)),
    ensures
        match r {
            Some(i) => i < a@.len() && worst_bottom(*state, a@, 0, None, -1i32) == Some(i as int),
            None => worst_bottom(*state, a@, 0, None, -1i32) is None,
        },
{
    let mut best: Option<usize> = None;
    let mut score: i32 = -1;
    let mut i: usize = 0;
    while i < a.len()
        invariant
            i <= a@.len(),
            state.card_db is Some,
            db_costs_fit(state.db()),
            forall|k: int|
                0 <= k < a@.len() ==> (#[trigger] a@[k] matches Action::MulliganBottomCard { object_id }
                    ==> state.objects@.contains_key(object_id)),
            best matches Some(b) ==> b < i,
            worst_bottom(*state, a@, 0, None, -1i32) == worst_bottom(
                *state,
                a@,
                i as int,
                match best {
                    Some(b) => Some(b as int),
                    None => None,
                },
                score,
            ),
        decreases a.len() - i,
    {
        if let Action::MulliganBottomCard { object_id } = &a[i] {
            assert(a@[i as int] matches Action::MulliganBottomCard { object_id });
            let sc = bottom_score_exec(state, *object_id);
            if sc > score {
                score = sc;
                best = Some(i);
            }
        }
        i = i + 1;
    }
    best
}

fn find_best_spell(state: &GameState, a: &Vec<Action>) -> (r: Option<usize>)
    requires
        state.card_db is Some,
        db_costs_fit(state.db()),
        actions_known_casts(*state, a@),
    ensures
        match r {
            Some(i) => i < a@.len() && best_spell(*state, a@, 0, None, 0) == Some(i as int),
            None => best_spell(*state, a@, 0, None, 0) is None,
        },
{
    let mut best: Option<usize> = None;
    let mut best_cmc: u32 = 0;
    let mut i: usize = 0;
    while i < a.len()
        invariant
            i <= a@.len(),
            state.card_db is Some,
            db_costs_fit(state.db()),
            actions_known_casts(*state, a@),
            best matches Some(b) ==> b < i,
            best_spell(*state, a@, 0, None, 0) == best_spell(
                *state,
                a@,
                i as int,
                match best {
                    Some(b) => Some(b as int),
                    None => None,
                },
                best_cmc as int,
            ),
        decreases a.len() - i,
    {
        let obj: Option<ObjectId> = match &a[i] {
            Action::CastSpell { object_id, .. } => Some(*object_id),
            Action::CastCommander { object_id, .. } => Some(*object_id),
            _ => None,
        };
        if let Some(id) = obj {
            assert(state.objects@.contains_key(id));
            proof {
                lemma_def_fits(*state, id);
            }
            if let Some(d) = def_for(state, id) {
                let c = d.cmc();
                if c >= best_cmc {
                    best_cmc = c;
                    best = Some(i);
                }
            }
        }
        i = i + 1;
    }
    best
}

/// The objects cast actions name are known.
pub open spec fn actions_known_casts(s: GameState, a: Seq<Action>) -> bool {
    forall|i: int|
        0 <= i < a.len() ==> match #[trigger] a[i] {
            Action::CastSpell { object_id, .. } => s.objects@.contains_key(object_id),
            Action::CastCommander { object_id, .. } => s.objects@.contains_key(object_id),
            _ => true,
        }
}

fn find_best_attack(a: &Vec<Action>) -> (r: Option<usize>)
    ensures
        match r {
            Some(i) => i < a@.len() && best_attack(a@, 0, None, 0) == Some(i as int),
            None => best_attack(a@, 0, None, 0) is None,
        },
{
    let mut best: Option<usize> = None;
    let mut most: usize = 0;
    let mut i: usize = 0;
    while i < a.len()
        invariant
            i <= a@.len(),
            best matches Some(b) ==> b < i,
            best_attack(a@, 0, None, 0) == best_attack(
                a@,
                i as int,
                match best {
                    Some(b) => Some(b as int),
                    None => None,
                },
                most as int,
            ),
        decreases a.len() - i,
    {
        if let Action::DeclareAttackers { attackers } = &a[i] {
            if attackers.len() > most {
                most = attackers.len();
                best = Some(i);
            }
        }
        i = i + 1;
    }
    best
}

proof fn lemma_blocks_fit_prefix(
    s: GameState,
    tm: Map<ObjectId, CombatTraits>,
    blocks: Seq<(ObjectId, ObjectId)>,
    k: int,
)
    requires
        blocks_fit(s, tm, blocks),
        0 <= k <= blocks.len(),
    ensures
        blocks_fit(s, tm, blocks.take(k)),
    decreases blocks.len() - k,
{
    if k < blocks.len() {
        assert(blocks.take(k + 1).drop_last() =~= blocks.take(k));
        lemma_blocks_fit_prefix(s, tm, blocks, k + 1);
    } else {
        assert(blocks.take(k) =~= blocks);
    }
}

/// The total value of a set of blocks.
#[verifier::rlimit(30)]
fn score_blocks(state: &GameState, tm: &HashMap<ObjectId, CombatTraits>, blocks: &Vec<(ObjectId, ObjectId)>) -> (r: i32)
    requires
        state.card_db is Some,
        db_costs_fit(state.db()),
        blocks_fit(*state, tm@, blocks@),
    ensures
        r == blocks_score(*state, tm@, blocks@),
{
    let mut score: i32 = 0;
    let mut i: usize = 0;
    while i < blocks.len()
        invariant
            i <= blocks@.len(),
            state.card_db is Some,
            db_costs_fit(state.db()),
            blocks_fit(*state, tm@, blocks@),
            score == blocks_score(*state, tm@, blocks@.take(i as int)),
        decreases blocks.len() - i,
    {
        let ghost pre = blocks@.take(i + 1);
        assert(pre.drop_last() =~= blocks@.take(i as int));
        assert(pre.last() == blocks@[i as int]);
        proof {
            lemma_blocks_fit_prefix(*state, tm@, blocks@, i + 1);
        }
        let (bid, aid) = blocks[i];
        proof {
            lemma_def_fits(*state, bid);
            lemma_def_fits(*state, aid);
        }
        let bdef = def_for(state, bid);
        let adef = def_for(state, aid);
        if let Some(bd) = bdef {
            if let Some(ad) = adef {
                let at = traits_for(tm, aid);
                let bt = traits_for(tm, bid);
                let blocker_dies = at.power >= bt.toughness;
                let attacker_dies = bt.power >= at.toughness;
                let acmc = ad.cmc() as i32;
                let bcmc = bd.cmc() as i32;
                score = score + at.power;
                if attacker_dies && !blocker_dies {
                    score = score + acmc * 2;
                } else if attacker_dies && blocker_dies {
                    score = score + (acmc - bcmc);
                } else if !attacker_dies && blocker_dies {
                    score = score - bcmc;
                }
            }
        }
        i = i + 1;
    }
    assert(blocks@.take(i as int) =~= blocks@);
    score
}

fn find_best_block(state: &GameState, tm: &HashMap<ObjectId, CombatTraits>, a: &Vec<Action>) -> (r: (Option<usize>, i32))
    requires
        state.card_db is Some,
        db_costs_fit(state.db()),
        actions_known(*state, tm@, a@),
    ensures
        best_block(*state, tm@, a@, 0, None, 0) == (
            match r.0 {
                Some(i) => Some(i as int),
                None => None,
            },
            r.1 as int,
        ),
        r.0 matches Some(i) ==> i < a@.len(),
        r.0 is None ==> forall|k: int| 0 <= k < a@.len() ==> !(#[trigger] a@[k] is DeclareBlockers),
{
    let mut best: Option<usize> = None;
    let mut score: i32 = 0;
    let mut i: usize = 0;
    while i < a.len()
        invariant
            i <= a@.len(),
            state.card_db is Some,
            db_costs_fit(state.db()),
            actions_known(*state, tm@, a@),
            best matches Some(b) ==> b < i,
            best is None ==> forall|k: int| 0 <= k < i ==> !(#[trigger] a@[k] is DeclareBlockers),
            best_block(*state, tm@, a@, 0, None, 0) == best_block(
                *state,
                tm@,
                a@,
                i as int,
                match best {
                    Some(b) => Some(b as int),
                    None => None,
                },
                score as int,
            ),
        decreases a.len() - i,
    {
        if let Action::DeclareBlockers { blocks } = &a[i] {
            assert(a@[i as int] matches Action::DeclareBlockers { blocks });
            let sc = score_blocks(state, tm, blocks);
            if sc > score || best.is_none() {
                score = sc;
                best = Some(i);
            }
        }
        i = i + 1;
    }
    (best, score)
}

/// The greedy heuristic player.
pub struct GreedyStrategy;

impl GreedyStrategy {
    /// The greedy player's choice among the legal actions `actions` (heuristics,
    /// no search): in the mulligan, keep a hand of two to five
    /// lands (or after two mulligans), and put the card with the highest mana
    /// value on the bottom (lands last); otherwise take the first trigger or
    /// replacement ordering, else play the first land, else cast the last
    /// spell with the highest mana value, else declare the attack with the
    /// most attackers, else declare the best-scoring blocks when they score
    /// above zero, else discard, else pass. `traits` gives each creature's
    /// power and toughness.
    pub fn choose_action(
        &self,
        state: &GameState,
        traits: &HashMap<ObjectId, CombatTraits>,
        actions: Vec<Action>,
    ) -> (r: Action)
        requires
            state.card_db is Some,
            db_costs_fit(state.db()),
            actions_known(*state, traits@, actions@),
            state.phase == Phase::Mulligan ==> state.priority_player < state.players@.len(),
            state.phase == Phase::Mulligan && !state.players@[state.priority_player as int].mulligan_decided
                ==> forall|k: int|
                0 <= k < state.players@[state.priority_player as int].hand@.len()
                    ==> state.objects@.contains_key(
                    #[trigger] state.players@[state.priority_player as int].hand@[k],
                ),
            state.phase == Phase::Mulligan && state.players@[state.priority_player as int].mulligan_decided
                && worst_bottom(*state, actions@, 0, None, -1i32) is None ==> actions@.len() > 0,
        ensures
            r == greedy_choice(*state, traits@, actions@),
    {
        let mut actions = actions;
        assert forall|i: int|
            0 <= i < actions@.len() implies (#[trigger] actions@[i] matches Action::MulliganBottomCard {
            object_id } ==> state.objects@.contains_key(object_id)) by {
            assert(actions_known(*state, traits@, actions@));
        }
        assert(actions_known_casts(*state, actions@)) by {
            assert forall|i: int| 0 <= i < actions@.len() implies match #[trigger] actions@[i] {
                Action::CastSpell { object_id, .. } => state.objects@.contains_key(object_id),
                Action::CastCommander { object_id, .. } => state.objects@.contains_key(object_id),
                _ => true,
            } by {
                assert(actions_known(*state, traits@, actions@));
            }
        }
        if state.phase == Phase::Mulligan {
            let p = state.priority_player;
            if !state.players[p].mulligan_decided {
                let lands = count_lands(state, &state.players[p].hand);
                if (2 <= lands && lands <= 5) || state.players[p].mulligan_count >= 2 {
                    return Action::MulliganKeep;
                }
                return Action::MulliganMulligan;
            }
            return match find_worst_bottom(state, &actions) {
                Some(i) => actions.remove(i),
                None => actions.remove(0),
            };
        }
        if let Some(i) = first_of(&actions, 0) {
            return actions.remove(i);
        }
        if let Some(i) = first_of(&actions, 1) {
            return actions.remove(i);
        }
        if let Some(i) = find_best_spell(state, &actions) {
            return actions.remove(i);
        }
        if let Some(i) = find_best_attack(&actions) {
            return actions.remove(i);
        }
        if let Some(j) = first_of(&actions, 2) {
            assert(actions@[j as int] is DeclareBlockers);
            let (best, score) = find_best_block(state, traits, &actions);
            if score > 0 {
                if let Some(i) = best {
                    return actions.remove(i);
                }
            }
        }
        if let Some(i) = first_of(&actions, 3) {
            return actions.remove(i);
        }
        Action::PassPriority
    }

    /// The player's name.
    pub fn name(&self) -> (r: &'static str)
        ensures
            r@ == "Greedy"@,
    {
        "Greedy"
    }
}

} // verus!
