//! Drawing cards, with the draw replacements of static abilities: the top
//! two cards instead (Renfield), revealing until a land (Abundance), and
//! two cards into an empty hand (Phial).
use vstd::prelude::*;

use crate::card::{CardType, ObjectId, StaticAbility, ZoneType};
use crate::events::GameEvent;
use crate::game::{GameState, PlayerIndex, PlayerState};
use crate::rules::mana::def_at;
use crate::rules::triggers::{fire_card_draw_triggers, fired};
use vstd::multiset::Multiset;
use vstd::seq_lib::lemma_multiset_commutative;

verus! {

broadcast use vstd::std_specs::hash::group_hash_axioms;

/// Whether `player` controls a permanent with a given static ability.
pub open spec fn controls_ability(state: GameState, player: PlayerIndex, a: StaticAbility) -> bool {
    exists|i: int|
        0 <= i < state.battlefield@.len() && {
            let id = #[trigger] state.battlefield@[i];
            &&& state.objects@.contains_key(id)
            &&& state.objects@[id].controller == player
            &&& match def_at(state, id) {
                Some(d) => d.static_abilities@.contains(a),
                None => false,
            }
        }
}

/// Whether a known object's card is a land.
pub open spec fn land_at(state: GameState, id: ObjectId) -> bool {
    match def_at(state, id) {
        Some(d) => d.card_types@.contains(CardType::Land),
        None => false,
    }
}

/// A player's library, hand and events, and whether they have lost.
pub type DrawState = (Seq<ObjectId>, Seq<ObjectId>, Seq<GameEvent>, bool);

/// The event of a card going from library to hand.
pub open spec fn to_hand(c: ObjectId) -> GameEvent {
    GameEvent::ZoneChange { object: c, from: ZoneType::Library, to: ZoneType::Hand }
}

/// The events of drawing cards: each drawn and moved to hand.
pub open spec fn drawn_events(player: PlayerIndex, cs: Seq<ObjectId>) -> Seq<GameEvent>
    decreases cs.len(),
{
    if cs.len() == 0 {
        Seq::empty()
    } else {
        drawn_events(player, cs.drop_last()) + seq![
            GameEvent::CardDrawn { player, object: cs.last() },
            to_hand(cs.last()),
        ]
    }
}

/// The position of the first land in a library.
pub open spec fn first_land(state: GameState, lib: Seq<ObjectId>, i: int) -> Option<int>
    decreases lib.len() - i,
{
    if i < 0 || i >= lib.len() {
        None
    } else if land_at(state, lib[i]) {
        Some(i)
    } else {
        first_land(state, lib, i + 1)
    }
}

/// One draw from a non-empty library, under the replacements in force:
/// Renfield puts the top two cards into hand; otherwise Abundance reveals
/// until a land, which goes to hand while the cards above it go to the
/// bottom; otherwise one card is drawn (two if Phial applies and the hand
/// is empty).
pub open spec fn draw_once(
    state: GameState,
    player: PlayerIndex,
    st: DrawState,
    renfield: bool,
    abundance: bool,
    phial: bool,
) -> DrawState {
    let (lib, hand, ev, lost) = st;
    if renfield {
        let k: int = if lib.len() < 2 { lib.len() as int } else { 2 };
        (lib.skip(k), hand + lib.take(k), ev + lib.take(k).map_values(|c: ObjectId| to_hand(c)), lost)
    } else if abundance {
        match first_land(state, lib, 0) {
            Some(idx) => (lib.skip(idx + 1) + lib.take(idx), hand.push(lib[idx]), ev.push(to_hand(lib[idx])), lost),
            None => st,
        }
    } else {
        let draws: int = if phial && hand.len() == 0 { 2 } else { 1 };
        let k: int = if lib.len() < draws { lib.len() as int } else { draws };
        (lib.skip(k), hand + lib.take(k), ev + drawn_events(player, lib.take(k)), lost)
    }
}

/// `n` draws: drawing from an empty library loses the game and stops.
pub open spec fn draw_n(
    state: GameState,
    player: PlayerIndex,
    st: DrawState,
    n: nat,
    renfield: bool,
    abundance: bool,
    phial: bool,
) -> DrawState
    decreases n,
{
    if n == 0 {
        st
    } else if st.0.len() == 0 {
        (st.0, st.1, st.2, true)
    } else {
        draw_n(state, player, draw_once(state, player, st, renfield, abundance, phial), (n - 1) as nat, renfield, abundance, phial)
    }
}

/// Whether a list of static abilities holds one.
fn lists_ability(abilities: &Vec<StaticAbility>, ability: StaticAbility) -> (r: bool)
    ensures
        r == abilities@.contains(ability),
{
    let mut j: usize = 0;
    while j < abilities.len()
        invariant
            j <= abilities@.len(),
            forall|m: int| 0 <= m < j ==> abilities@[m] != ability,
        decreases abilities.len() - j,
    {
        if abilities[j] == ability {
            assert(abilities@[j as int] == ability);
            return true;
        }
        j = j + 1;
    }
    false
}

/// Whether `player` controls a permanent with a static ability.
pub fn has_static_ability_on_battlefield(state: &GameState, player: PlayerIndex, ability: StaticAbility) -> (r: bool)
    requires
        state.card_db is Some,
    ensures
        r == controls_ability(*state, player, ability),
{
    let db = state.card_db();
    let mut i: usize = 0;
    while i < state.battlefield.len()
        invariant
            i <= state.battlefield@.len(),
            state.card_db is Some,
            *db == state.db(),
            forall|k: int|
                0 <= k < i ==> !({
                    let id = #[trigger] state.battlefield@[k];
                    &&& state.objects@.contains_key(id)
                    &&& state.objects@[id].controller == player
                    &&& match def_at(*state, id) {
                        Some(d) => d.static_abilities@.contains(ability),
                        None => false,
                    }
                }),
        decreases state.battlefield.len() - i,
    {
        let id = state.battlefield[i];
        let mut found = false;
        match state.objects.get(&id) {
            Some(inst) => {
                if inst.controller == player {
                    match db.get(inst.card_def_id) {
                        Some(d) => {
                            found = lists_ability(&d.static_abilities, ability);
                        },
                        None => {},
                    }
                }
            },
            None => {},
        }
        if found {
            assert(state.battlefield@[i as int] == id);
            return true;
        }
        i = i + 1;
    }
    false
}

/// Whether a card is a land.
fn is_land_obj(state: &GameState, id: ObjectId) -> (r: bool)
    requires
        state.card_db is Some,
    ensures
        r == land_at(*state, id),
{
    let db = state.card_db();
    match state.objects.get(&id) {
        Some(inst) => match db.get(inst.card_def_id) {
            Some(d) => crate::card::has_card_type(&d.card_types, CardType::Land),
            None => false,
        },
        None => false,
    }
}

/// Move up to `k_max` cards from the top of a library to a hand, with
/// their events (drawn-card events too when `drawn` names the player).
fn move_top(
    lib: &mut Vec<ObjectId>,
    hand: &mut Vec<ObjectId>,
    events: &mut Vec<GameEvent>,
    k_max: usize,
    drawn: Option<PlayerIndex>,
)
    ensures
        ({
            let k: int = if old(lib)@.len() < k_max { old(lib)@.len() as int } else { k_max as int };
            &&& final(lib)@ == old(lib)@.skip(k)
            &&& final(hand)@ == old(hand)@ + old(lib)@.take(k)
            &&& final(events)@ == old(events)@ + match drawn {
                Some(p) => drawn_events(p, old(lib)@.take(k)),
                None => old(lib)@.take(k).map_values(|c: ObjectId| to_hand(c)),
            }
        }),
{
    let ghost lib0 = lib@;
    let mut t: usize = 0;
    while t < k_max && lib.len() > 0
        invariant
            t <= k_max,
            t <= lib0.len(),
            lib@ == lib0.skip(t as int),
            hand@ == old(hand)@ + lib0.take(t as int),
            events@ == old(events)@ + match drawn {
                Some(p) => drawn_events(p, lib0.take(t as int)),
                None => lib0.take(t as int).map_values(|c: ObjectId| to_hand(c)),
            },
        decreases k_max - t,
    {
        let c = lib.remove(0);
        assert(c == lib0[t as int]);
        hand.push(c);
        match drawn {
            Some(p) => {
                events.push(GameEvent::CardDrawn { player: p, object: c });
            },
            None => {},
        }
        events.push(GameEvent::ZoneChange { object: c, from: ZoneType::Library, to: ZoneType::Hand });
        proof {
            assert(lib0.take(t + 1).drop_last() =~= lib0.take(t as int));
            assert(lib0.take(t + 1).last() == c);
            assert(lib@ =~= lib0.skip(t + 1));
            assert(hand@ =~= old(hand)@ + lib0.take(t + 1));
            assert(lib0.take(t + 1).map_values(|c: ObjectId| to_hand(c)) =~= lib0.take(t as int).map_values(|c: ObjectId| to_hand(c)).push(to_hand(c)));
        }
        t = t + 1;
        assert(events@ =~= old(events)@ + match drawn {
            Some(p) => drawn_events(p, lib0.take(t as int)),
            None => lib0.take(t as int).map_values(|c: ObjectId| to_hand(c)),
        });
    }
    proof {
        if t < k_max {
            assert(lib0.len() == t);
        }
    }
}

/// Reveal until a land: it goes to hand, the cards above it to the bottom.
fn reveal_until_land(state: &GameState, lib: &mut Vec<ObjectId>, hand: &mut Vec<ObjectId>, events: &mut Vec<GameEvent>)
    requires
        state.card_db is Some,
    ensures
        match first_land(*state, old(lib)@, 0) {
            Some(idx) => final(lib)@ == old(lib)@.skip(idx + 1) + old(lib)@.take(idx) && final(hand)@ == old(
                hand,
            )@.push(old(lib)@[idx]) && final(events)@ == old(events)@.push(to_hand(old(lib)@[idx])),
            None => final(lib)@ == old(lib)@ && final(hand)@ == old(hand)@ && final(events)@ == old(events)@,
        },
{
    let mut idx: usize = 0;
    while idx < lib.len() && !is_land_obj(state, lib[idx])
        invariant
            idx <= lib@.len(),
            lib@ == old(lib)@,
            state.card_db is Some,
            first_land(*state, lib@, 0) == first_land(*state, lib@, idx as int),
        decreases lib.len() - idx,
    {
        idx = idx + 1;
    }
    if idx >= lib.len() {
        return;
    }
    let ghost lib0 = lib@;
    let mut revealed: Vec<ObjectId> = Vec::new();
    let mut t: usize = 0;
    while t < idx
        invariant
            t <= idx < lib0.len(),
            lib@ == lib0.skip(t as int),
            revealed@ == lib0.take(t as int),
        decreases idx - t,
    {
        let c = lib.remove(0);
        revealed.push(c);
        assert(lib@ =~= lib0.skip(t + 1));
        assert(revealed@ =~= lib0.take(t + 1));
        t = t + 1;
    }
    let card = lib.remove(0);
    assert(card == lib0[idx as int]);
    hand.push(card);
    let ghost rest = lib@;
    assert(rest =~= lib0.skip(idx + 1));
    let mut u: usize = 0;
    while u < revealed.len()
        invariant
            u <= revealed@.len(),
            lib@ == rest + revealed@.take(u as int),
        decreases revealed.len() - u,
    {
        lib.push(revealed[u]);
        assert(lib@ =~= rest + revealed@.take(u + 1));
        u = u + 1;
    }
    assert(revealed@.take(revealed@.len() as int) =~= revealed@);
    events.push(GameEvent::ZoneChange { object: card, from: ZoneType::Library, to: ZoneType::Hand });
}

/// What drawing `count` cards for `player` makes of a state: the
/// player's library, hand and loss, and the pending events, as `draw_n`
/// gives them under the draw replacements the player controls; nothing
/// else changes.
pub open spec fn drew(s0: GameState, player: PlayerIndex, count: usize, s1: GameState) -> bool {
    let p0 = s0.players@[player as int];
    let st = draw_n(
        s0,
        player,
        (p0.library@, p0.hand@, s0.pending_events@, p0.has_lost),
        count as nat,
        controls_ability(s0, player, StaticAbility::RenfieldDrawReplacement),
        controls_ability(s0, player, StaticAbility::AbundanceReplacement),
        controls_ability(s0, player, StaticAbility::PhialDrawDoubler),
    );
    &&& s1 == (GameState {
        players: s1.players,
        pending_events: s1.pending_events,
        ..s0
    })
    &&& s1.players@ == s0.players@.update(
        player as int,
        PlayerState {
            library: s1.players@[player as int].library,
            hand: s1.players@[player as int].hand,
            has_lost: st.3,
            ..p0
        },
    )
    &&& s1.players@[player as int].library@ == st.0
    &&& s1.players@[player as int].hand@ == st.1
    &&& s1.pending_events@ == st.2
}

/// Draw `count` cards for `player`, one draw at a time, with the draw
/// replacements of the static abilities they control: Renfield puts the
/// top two cards into hand; otherwise Abundance reveals until a land and
/// puts the rest on the bottom; otherwise Phial draws two into an empty
/// hand. Drawing from an empty library loses the game.
fn draw_plain(state: &mut GameState, player: PlayerIndex, count: usize)
    requires
        player < old(state).players@.len(),
        old(state).card_db is Some,
    ensures
        drew(*old(state), player, count, *final(state)),
{
    let renfield = has_static_ability_on_battlefield(state, player, StaticAbility::RenfieldDrawReplacement);
    let abundance = has_static_ability_on_battlefield(state, player, StaticAbility::AbundanceReplacement);
    let phial = has_static_ability_on_battlefield(state, player, StaticAbility::PhialDrawDoubler);
    let ghost s0 = *state;
    let ghost target = draw_n(
        s0,
        player,
        (s0.players@[player as int].library@, s0.players@[player as int].hand@, s0.pending_events@, s0.players@[player as int].has_lost),
        count as nat,
        renfield,
        abundance,
        phial,
    );
    let mut lib: Vec<ObjectId> = Vec::new();
    let mut hand: Vec<ObjectId> = Vec::new();
    let mut events: Vec<GameEvent> = Vec::new();
    std::mem::swap(&mut lib, &mut state.players[player].library);
    std::mem::swap(&mut hand, &mut state.players[player].hand);
    std::mem::swap(&mut events, &mut state.pending_events);
    let mut lost = state.players[player].has_lost;
    let ghost mid = *state;
    let mut k: usize = 0;
    while k < count
        invariant
            k <= count,
            player < state.players@.len(),
            state.objects == s0.objects,
            state.card_db == s0.card_db,
            state.card_db is Some,
            *state == mid,
            target == draw_n(s0, player, (lib@, hand@, events@, lost), (count - k) as nat, renfield, abundance, phial),
        decreases count - k,
    {
        if lib.len() == 0 {
            lost = true;
            k = count;
            continue;
        }
        let ghost before: DrawState = (lib@, hand@, events@, lost);
        if renfield {
            move_top(&mut lib, &mut hand, &mut events, 2, None);
        } else if abundance {
            proof {
                assert forall|j: int| #![trigger first_land(*state, before.0, j)] true implies first_land(*state, before.0, j) == first_land(s0, before.0, j) by {
                    lemma_first_land_same(*state, s0, before.0, j);
                }
            }
            reveal_until_land(state, &mut lib, &mut hand, &mut events);
        } else {
            let draws: usize = if phial && hand.len() == 0 { 2 } else { 1 };
            move_top(&mut lib, &mut hand, &mut events, draws, Some(player));
        }
        assert((lib@, hand@, events@, lost) == draw_once(s0, player, before, renfield, abundance, phial));
        k = k + 1;
    }
    std::mem::swap(&mut lib, &mut state.players[player].library);
    std::mem::swap(&mut hand, &mut state.players[player].hand);
    std::mem::swap(&mut events, &mut state.pending_events);
    state.players[player].has_lost = lost;
    proof {
        let p0 = s0.players@[player as int];
        assert(state.players@ =~= s0.players@.update(
            player as int,
            PlayerState {
                library: state.players@[player as int].library,
                hand: state.players@[player as int].hand,
                has_lost: lost,
                ..p0
            },
        ));
        assert(*state == (GameState { players: state.players, pending_events: state.pending_events, ..s0 }));
    }
}

/// The cards of a library and a hand together, counted with multiplicity.
pub open spec fn cards_held(st: DrawState) -> Multiset<ObjectId> {
    (st.0 + st.1).to_multiset()
}

proof fn lemma_first_land_in_range(state: GameState, lib: Seq<ObjectId>, i: int)
    requires
        0 <= i,
    ensures
        first_land(state, lib, i) matches Some(j) ==> i <= j < lib.len(),
    decreases lib.len() - i,
{
    if i < lib.len() && !land_at(state, lib[i]) {
        lemma_first_land_in_range(state, lib, i + 1);
    }
}

/// Moving the top `k` cards of a library to the end of a hand keeps the
/// cards held.
proof fn lemma_move_top_keeps_cards(lib: Seq<ObjectId>, hand: Seq<ObjectId>, k: int)
    requires
        0 <= k <= lib.len(),
    ensures
        (lib.skip(k) + (hand + lib.take(k))).to_multiset() == (lib + hand).to_multiset(),
{
    assert(lib =~= lib.take(k) + lib.skip(k));
    lemma_multiset_commutative(lib.skip(k), hand + lib.take(k));
    lemma_multiset_commutative(hand, lib.take(k));
    lemma_multiset_commutative(lib.take(k), lib.skip(k));
    lemma_multiset_commutative(lib, hand);
    assert((lib.skip(k) + (hand + lib.take(k))).to_multiset() =~= (lib + hand).to_multiset());
}

proof fn lemma_draw_once_keeps_cards(
    state: GameState,
    player: PlayerIndex,
    st: DrawState,
    renfield: bool,
    abundance: bool,
    phial: bool,
)
    ensures
        cards_held(draw_once(state, player, st, renfield, abundance, phial)) == cards_held(st),
{
    let (lib, hand, ev, lost) = st;
    if renfield {
        let k: int = if lib.len() < 2 { lib.len() as int } else { 2 };
        lemma_move_top_keeps_cards(lib, hand, k);
    } else if abundance {
        lemma_first_land_in_range(state, lib, 0);
        match first_land(state, lib, 0) {
            Some(idx) => {
                let above = lib.take(idx);
                let below = lib.skip(idx + 1);
                assert(lib =~= above + seq![lib[idx]] + below);
                assert(hand.push(lib[idx]) =~= hand + seq![lib[idx]]);
                lemma_multiset_commutative(below + above, hand + seq![lib[idx]]);
                lemma_multiset_commutative(below, above);
                lemma_multiset_commutative(hand, seq![lib[idx]]);
                lemma_multiset_commutative(above + seq![lib[idx]], below);
                lemma_multiset_commutative(above, seq![lib[idx]]);
                lemma_multiset_commutative(lib, hand);
                assert(cards_held(draw_once(state, player, st, renfield, abundance, phial)) =~= cards_held(st));
            },
            None => {},
        }
    } else {
        let draws: int = if phial && hand.len() == 0 { 2 } else { 1 };
        let k: int = if lib.len() < draws { lib.len() as int } else { draws };
        lemma_move_top_keeps_cards(lib, hand, k);
    }
}

/// Drawing neither creates nor loses a card: after any number of draws,
/// under any of the draw replacements, the library and the hand together
/// hold the same cards as before, each as many times.
pub proof fn lemma_draw_keeps_cards(
    state: GameState,
    player: PlayerIndex,
    st: DrawState,
    n: nat,
    renfield: bool,
    abundance: bool,
    phial: bool,
)
    ensures
        cards_held(draw_n(state, player, st, n, renfield, abundance, phial)) == cards_held(st),
    decreases n,
{
    if n > 0 && st.0.len() > 0 {
        lemma_draw_once_keeps_cards(state, player, st, renfield, abundance, phial);
        lemma_draw_keeps_cards(state, player, draw_once(state, player, st, renfield, abundance, phial), (n - 1) as nat, renfield, abundance, phial);
    }
}

proof fn lemma_first_land_same(a: GameState, b: GameState, lib: Seq<ObjectId>, i: int)
    requires
        a.objects == b.objects,
        a.card_db == b.card_db,
    ensures
        first_land(a, lib, i) == first_land(b, lib, i),
    decreases lib.len() - i,
{
    if !(i < 0 || i >= lib.len()) {
        lemma_first_land_same(a, b, lib, i + 1);
    }
}

/// Drawing `n` cards one at a time, each draw followed by the "whenever an
/// opponent draws a card" triggers: from an empty library, the draw loses
/// the game and drawing stops.
pub open spec fn draws_fired(s0: GameState, player: PlayerIndex, n: nat, s1: GameState) -> bool
    decreases n,
{
    if n == 0 {
        s1 == s0
    } else if s0.players@[player as int].library@.len() == 0 {
        drew(s0, player, 1, s1)
    } else {
        exists|m: GameState, b: GameState|
            drew(s0, player, 1, m) && fired(m, player, b) && draws_fired(b, player, (n - 1) as nat, s1)
    }
}

/// Draw `count` cards for `player`, one draw at a time, with the draw
/// replacements of the static abilities they control (Renfield puts the
/// top two cards into hand; otherwise Abundance reveals until a land and
/// puts the rest on the bottom; otherwise Phial draws two into an empty
/// hand); after each draw the "whenever an opponent draws a card" triggers
/// of other players' permanents are queued and put on the stack. Drawing
/// from an empty library loses the game and stops.
pub fn draw_cards(state: &mut GameState, player: PlayerIndex, count: usize)
    requires
        player < old(state).players@.len(),
        old(state).card_db is Some,
        old(state).battlefield_known(),
        old(state).active_player + old(state).players@.len() < usize::MAX,
        old(state).next_stack_id + count * old(state).players@.len() < u64::MAX,
    ensures
        draws_fired(*old(state), player, count as nat, *final(state)),
        final(state).battlefield == old(state).battlefield,
        final(state).objects == old(state).objects,
        final(state).card_db == old(state).card_db,
        final(state).active_player == old(state).active_player,
        final(state).players@.len() == old(state).players@.len(),
        final(state).next_stack_id <= old(state).next_stack_id + count * old(state).players@.len(),
    decreases count,
{
    if count == 0 {
        return;
    }
    if state.players[player].library.len() == 0 {
        draw_plain(state, player, 1);
        return;
    }
    let ghost s0 = *state;
    draw_plain(state, player, 1);
    let ghost m = *state;
    proof {
        assert(m.battlefield == s0.battlefield && m.objects == s0.objects);
        assert(count * s0.players@.len() >= s0.players@.len()) by (nonlinear_arith)
            requires count >= 1;
    }
    fire_card_draw_triggers(state, player);
    let ghost b = *state;
    proof {
        assert((count - 1) * s0.players@.len() == count * s0.players@.len() - s0.players@.len()) by (nonlinear_arith);
        assert(b.battlefield_known());
    }
    draw_cards(state, player, count - 1);
    proof {
        assert(state.next_stack_id <= s0.next_stack_id + count * s0.players@.len());
        assert(drew(s0, player, 1, m) && fired(m, player, b) && draws_fired(b, player, (count - 1) as nat, *state));
    }
}


/// Drawing with triggers keeps the drawing player's cards: their library
/// and hand together hold the same cards, each as many times; no other
/// player changes.
pub proof fn lemma_draws_fired_keeps_cards(s0: GameState, player: PlayerIndex, n: nat, s1: GameState)
    requires
        player < s0.players@.len(),
        draws_fired(s0, player, n, s1),
    ensures
        s1.players@.len() == s0.players@.len(),
        (s1.players@[player as int].library@ + s1.players@[player as int].hand@).to_multiset() == (
        s0.players@[player as int].library@ + s0.players@[player as int].hand@).to_multiset(),
        forall|q: int| 0 <= q < s0.players@.len() && q != player ==> #[trigger] s1.players@[q] == s0.players@[q],
    decreases n,
{
    if n > 0 {
        let p0 = s0.players@[player as int];
        let st = (p0.library@, p0.hand@, s0.pending_events@, p0.has_lost);
        lemma_draw_keeps_cards(
            s0,
            player,
            st,
            1,
            controls_ability(s0, player, StaticAbility::RenfieldDrawReplacement),
            controls_ability(s0, player, StaticAbility::AbundanceReplacement),
            controls_ability(s0, player, StaticAbility::PhialDrawDoubler),
        );
        if s0.players@[player as int].library@.len() != 0 {
            let (m, b) = choose|m: GameState, b: GameState|
                drew(s0, player, 1, m) && fired(m, player, b) && draws_fired(b, player, (n - 1) as nat, s1);
            lemma_draw_keeps_cards(
                s0,
                player,
                st,
                1,
                controls_ability(s0, player, StaticAbility::RenfieldDrawReplacement),
                controls_ability(s0, player, StaticAbility::AbundanceReplacement),
                controls_ability(s0, player, StaticAbility::PhialDrawDoubler),
            );
            assert(b.players == m.players);
            lemma_draws_fired_keeps_cards(b, player, (n - 1) as nat, s1);
            assert forall|q: int| 0 <= q < s0.players@.len() && q != player implies #[trigger] s1.players@[q]
                == s0.players@[q] by {
                assert(b.players@[q] == m.players@[q]);
            }
        }
    }
}

} // verus!
