//! Setting up a Commander game: creating each player's cards, putting the
//! commanders into the command zone, shuffling the libraries and drawing
//! opening hands.
use vstd::prelude::*;

use rand::rngs::ThreadRng;
use rand::seq::SliceRandom;

use crate::card::{fresh_instance, CardId, CardInstance, ObjectId, ZoneType};
use crate::game::{
    is_player_zone, player_zone, same_but_zones, GameState, Phase, PlayerIndex, PlayerState,
};
use crate::rules::draw::{draws_fired, lemma_draws_fired_keeps_cards};
use vstd::seq_lib::lemma_multiset_commutative;
use crate::rules::draw_cards;

verus! {

#[verifier::external_type_specification]
#[verifier::external_body]
pub struct ExThreadRng(ThreadRng);

/// `rand::thread_rng`: the thread-local random generator. Nothing is
/// stated of it: it is only handed to the shuffle.
#[verifier::external_body]
fn new_thread_rng() -> ThreadRng {
    rand::thread_rng()
}

/// `SliceRandom::shuffle` of `rand` on a list of object ids. The shuffle
/// only swaps elements, so the list afterwards holds the same ids, each as
/// many times; which order comes out depends on the generator and is not
/// stated.
#[verifier::external_body]
fn shuffle_objects(v: &mut Vec<ObjectId>, rng: &mut ThreadRng)
    ensures
        final(v)@.to_multiset() == old(v)@.to_multiset(),
{
    v.as_mut_slice().shuffle(rng);
}

/// Where the cards of a deck go when a Commander game is set up, with
/// object ids handed out in deck order from `next`: the first copy of the
/// commander, and then the first other copy of the partner (if any), to
/// the command zone; every other card to the library. The library, the
/// command zone's new objects, and the objects of the commander and the
/// partner.
pub open spec fn place_deck(deck: Seq<CardId>, commander: CardId, partner: Option<CardId>, next: int) -> (
    Seq<ObjectId>,
    Seq<ObjectId>,
    Option<ObjectId>,
    Option<ObjectId>,
)
    decreases deck.len(),
{
    if deck.len() == 0 {
        (Seq::empty(), Seq::empty(), None, None)
    } else {
        let (lib, cz, c, p) = place_deck(deck.drop_last(), commander, partner, next);
        let id = (next + deck.len() - 1) as ObjectId;
        let card = deck.last();
        if card == commander && c is None {
            (lib, cz.push(id), Some(id), p)
        } else if partner == Some(card) && p is None {
            (lib, cz.push(id), c, Some(id))
        } else {
            (lib.push(id), cz, c, p)
        }
    }
}

/// The objects after creating a card instance, owned by `owner`, for each
/// card of a deck, with ids in deck order from `next`.
pub open spec fn fresh_objects(
    objects: Map<ObjectId, CardInstance>,
    deck: Seq<CardId>,
    owner: PlayerIndex,
    next: int,
) -> Map<ObjectId, CardInstance>
    decreases deck.len(),
{
    if deck.len() == 0 {
        objects
    } else {
        let id = (next + deck.len() - 1) as ObjectId;
        fresh_objects(objects, deck.drop_last(), owner, next).insert(id, fresh_instance(id, deck.last(), owner))
    }
}

/// Whether two player states agree on everything but their zones and
/// commander objects.
pub open spec fn same_but_placement(a: PlayerState, b: PlayerState) -> bool {
    &&& a.life == b.life
    &&& a.mana_pool == b.mana_pool
    &&& a.land_plays_remaining == b.land_plays_remaining
    &&& a.has_drawn_for_turn == b.has_drawn_for_turn
    &&& a.has_lost == b.has_lost
    &&& a.has_won == b.has_won
    &&& a.commander_card_id == b.commander_card_id
    &&& a.commander_tax == b.commander_tax
    &&& a.partner_commander_card_id == b.partner_commander_card_id
    &&& a.partner_commander_tax == b.partner_commander_tax
    &&& a.commander_damage_received@ == b.commander_damage_received@
    &&& a.poison_counters == b.poison_counters
    &&& a.mulligan_count == b.mulligan_count
    &&& a.mulligan_decided == b.mulligan_decided
    &&& a.tutor_targets@ == b.tutor_targets@
}

/// A player state after placing a deck: the library and command zone
/// grown by the placed objects, the commander objects recorded.
pub open spec fn player_placed(
    a: PlayerState,
    b: PlayerState,
    lib: Seq<ObjectId>,
    cz: Seq<ObjectId>,
    c: Option<ObjectId>,
    p: Option<ObjectId>,
) -> bool {
    &&& same_but_placement(b, a)
    &&& b.commander_object_id == (if c is Some {
        c
    } else {
        a.commander_object_id
    })
    &&& b.partner_commander_object_id == (if p is Some {
        p
    } else {
        a.partner_commander_object_id
    })
    &&& b.library@ == a.library@ + lib
    &&& b.command_zone@ == a.command_zone@ + cz
    &&& b.hand@ == a.hand@
    &&& b.graveyard@ == a.graveyard@
    &&& b.exile@ == a.exile@
}

/// Whether a player's state is untouched.
pub open spec fn player_untouched(a: PlayerState, b: PlayerState) -> bool {
    &&& same_but_zones(b, a)
    &&& forall|z: ZoneType| #[trigger] player_zone(b, z) == player_zone(a, z)
}

/// A state after placing a player's deck: fresh objects, the player's
/// zones and commander objects as `place_deck` says, nothing else changed.
pub open spec fn deck_placed(
    s0: GameState,
    player: PlayerIndex,
    deck: Seq<CardId>,
    commander: CardId,
    partner: Option<CardId>,
    s1: GameState,
) -> bool {
    let n = s0.next_object_id as int;
    let (lib, cz, c, p) = place_deck(deck, commander, partner, n);
    &&& s1 == (GameState {
        next_object_id: s1.next_object_id,
        objects: s1.objects,
        battlefield: s1.battlefield,
        players: s1.players,
        ..s0
    })
    &&& s1.battlefield@ == s0.battlefield@
    &&& s1.next_object_id == n + deck.len()
    &&& s1.objects@ == fresh_objects(s0.objects@, deck, player, n)
    &&& s1.players@.len() == s0.players@.len()
    &&& player_placed(s0.players@[player as int], s1.players@[player as int], lib, cz, c, p)
    &&& forall|q: int|
        0 <= q < s1.players@.len() && q != player ==> player_untouched(
            s0.players@[q],
            #[trigger] s1.players@[q],
        )
}

/// Create a player's cards for a Commander game: the commander (and the
/// partner) into the command zone, the rest into the library. The library
/// objects are also returned, in deck order.
fn place_commander_deck(
    state: &mut GameState,
    player: PlayerIndex,
    deck: &[CardId],
    commander: CardId,
    partner: Option<CardId>,
) -> (lib: Vec<ObjectId>)
    requires
        player < old(state).players@.len(),
        old(state).next_object_id + deck@.len() < u64::MAX,
    ensures
        deck_placed(*old(state), player, deck@, commander, partner, *final(state)),
        lib@ == place_deck(deck@, commander, partner, old(state).next_object_id as int).0,
{
    let ghost s0 = *state;
    let ghost n = s0.next_object_id as int;
    let mut lib: Vec<ObjectId> = Vec::new();
    let mut found_commander = false;
    let mut found_partner = false;
    let mut i: usize = 0;
    while i < deck.len()
        invariant
            i <= deck@.len(),
            player < s0.players@.len(),
            s0.next_object_id + deck@.len() < u64::MAX,
            n == s0.next_object_id,
            ({
                let (l, cz, c, p) = place_deck(deck@.take(i as int), commander, partner, n);
                &&& lib@ == l
                &&& found_commander == c is Some
                &&& found_partner == p is Some
                &&& *state == (GameState {
                    next_object_id: state.next_object_id,
                    objects: state.objects,
                    battlefield: state.battlefield,
                    players: state.players,
                    ..s0
                })
                &&& state.battlefield@ == s0.battlefield@
                &&& state.next_object_id == n + i
                &&& state.objects@ == fresh_objects(s0.objects@, deck@.take(i as int), player, n)
                &&& state.players@.len() == s0.players@.len()
                &&& player_placed(s0.players@[player as int], state.players@[player as int], l, cz, c, p)
                &&& forall|q: int|
                    0 <= q < state.players@.len() && q != player ==> player_untouched(
                        s0.players@[q],
                        #[trigger] state.players@[q],
                    )
            }),
        decreases deck.len() - i,
    {
        let card_id = deck[i];
        let ghost before = *state;
        let ghost prev = place_deck(deck@.take(i as int), commander, partner, n);
        assert(deck@.take(i + 1).drop_last() =~= deck@.take(i as int));
        assert(deck@.take(i + 1).last() == card_id);
        assert(place_deck(deck@.take(i + 1), commander, partner, n) == {
            let id = (n + i) as ObjectId;
            if card_id == commander && prev.2 is None {
                (prev.0, prev.1.push(id), Some(id), prev.3)
            } else if partner == Some(card_id) && prev.3 is None {
                (prev.0, prev.1.push(id), prev.2, Some(id))
            } else {
                (prev.0.push(id), prev.1, prev.2, prev.3)
            }
        });
        if card_id == commander && !found_commander {
            let obj_id = state.next_object_id;
            state.players[player].commander_object_id = Some(obj_id);
            state.create_card_in_zone(card_id, player, ZoneType::Command);
            found_commander = true;
        } else if partner == Some(card_id) && !found_partner {
            let obj_id = state.next_object_id;
            state.players[player].partner_commander_object_id = Some(obj_id);
            state.create_card_in_zone(card_id, player, ZoneType::Command);
            found_partner = true;
        } else {
            let obj_id = state.create_card_in_zone(card_id, player, ZoneType::Library);
            lib.push(obj_id);
        }
        proof {
            let (l, cz, c, p) = place_deck(deck@.take(i + 1), commander, partner, n);
            assert(player_zone(state.players@[player as int], ZoneType::Library) == state.players@[player as int].library@);
            assert(player_zone(state.players@[player as int], ZoneType::Command) == state.players@[player as int].command_zone@);
            assert(player_zone(state.players@[player as int], ZoneType::Hand) == state.players@[player as int].hand@);
            assert(player_zone(state.players@[player as int], ZoneType::Graveyard) == state.players@[player as int].graveyard@);
            assert(player_zone(state.players@[player as int], ZoneType::Exile) == state.players@[player as int].exile@);
            assert(player_zone(before.players@[player as int], ZoneType::Library) == before.players@[player as int].library@);
            assert(player_zone(before.players@[player as int], ZoneType::Command) == before.players@[player as int].command_zone@);
            assert(player_zone(before.players@[player as int], ZoneType::Hand) == before.players@[player as int].hand@);
            assert(player_zone(before.players@[player as int], ZoneType::Graveyard) == before.players@[player as int].graveyard@);
            assert(player_zone(before.players@[player as int], ZoneType::Exile) == before.players@[player as int].exile@);
            assert(state.players@[player as int].library@ =~= s0.players@[player as int].library@ + l);
            assert(state.players@[player as int].command_zone@ =~= s0.players@[player as int].command_zone@ + cz);
            assert forall|q: int|
                0 <= q < state.players@.len() && q != player implies player_untouched(
                    s0.players@[q],
                    #[trigger] state.players@[q],
                ) by {
                assert(player_untouched(s0.players@[q], before.players@[q]));
                assert forall|z: ZoneType| #[trigger] player_zone(state.players@[q], z) == player_zone(s0.players@[q], z) by {
                    assert(player_zone(state.players@[q], z) == player_zone(before.players@[q], z));
                }
            }
        }
        i = i + 1;
    }
    assert(deck@.take(deck@.len() as int) =~= deck@);
    lib
}

/// A player state after their deck is set up for a Commander game: the
/// commander (and partner) card ids recorded, the commander objects of the
/// placement, the library holding the placed library objects in some
/// order, the command zone grown by the placed commanders.
pub open spec fn player_ready(
    a: PlayerState,
    b: PlayerState,
    commander: CardId,
    partner: Option<CardId>,
    lib: Seq<ObjectId>,
    cz: Seq<ObjectId>,
    c: Option<ObjectId>,
    p: Option<ObjectId>,
) -> bool {
    &&& b.commander_card_id == Some(commander)
    &&& b.partner_commander_card_id == (if partner is Some {
        partner
    } else {
        a.partner_commander_card_id
    })
    &&& same_but_placement(
        b,
        PlayerState { commander_card_id: b.commander_card_id, partner_commander_card_id: b.partner_commander_card_id, ..a },
    )
    &&& b.commander_object_id == (if c is Some {
        c
    } else {
        a.commander_object_id
    })
    &&& b.partner_commander_object_id == (if p is Some {
        p
    } else {
        a.partner_commander_object_id
    })
    &&& b.library@.to_multiset() == lib.to_multiset()
    &&& b.command_zone@ == a.command_zone@ + cz
    &&& b.hand@ == a.hand@
    &&& b.graveyard@ == a.graveyard@
    &&& b.exile@ == a.exile@
}

/// A state with both players' decks set up for a Commander game, object
/// ids handed out to player 0's deck and then to player 1's.
pub open spec fn decks_ready(
    s0: GameState,
    deck0: Seq<CardId>,
    deck1: Seq<CardId>,
    commander0: CardId,
    partner0: Option<CardId>,
    commander1: CardId,
    partner1: Option<CardId>,
    m0: GameState,
) -> bool {
    let n = s0.next_object_id as int;
    let (l0, z0, o0, q0) = place_deck(deck0, commander0, partner0, n);
    let (l1, z1, o1, q1) = place_deck(deck1, commander1, partner1, n + deck0.len());
    &&& m0 == (GameState {
        next_object_id: m0.next_object_id,
        objects: m0.objects,
        battlefield: m0.battlefield,
        players: m0.players,
        ..s0
    })
    &&& m0.battlefield@ == s0.battlefield@
    &&& m0.next_object_id == n + deck0.len() + deck1.len()
    &&& m0.objects@ == fresh_objects(fresh_objects(s0.objects@, deck0, 0, n), deck1, 1, n + deck0.len())
    &&& m0.players@.len() == s0.players@.len()
    &&& player_ready(s0.players@[0], m0.players@[0], commander0, partner0, l0, z0, o0, q0)
    &&& player_ready(s0.players@[1], m0.players@[1], commander1, partner1, l1, z1, o1, q1)
    &&& forall|q: int| 2 <= q < m0.players@.len() ==> player_untouched(s0.players@[q], #[trigger] m0.players@[q])
}

/// The opening of a Commander game: the decks set up (state `m0`), seven
/// cards drawn for player 0 (state `m1`) and then for player 1 (state
/// `m2`), each draw followed by its triggers, and the game put in the
/// mulligan phase of turn 1 with player 0 active and holding priority.
pub open spec fn commander_opening(
    s0: GameState,
    deck0: Seq<CardId>,
    deck1: Seq<CardId>,
    commander0: CardId,
    partner0: Option<CardId>,
    commander1: CardId,
    partner1: Option<CardId>,
    m0: GameState,
    m1: GameState,
    m2: GameState,
    s1: GameState,
) -> bool {
    &&& decks_ready(s0, deck0, deck1, commander0, partner0, commander1, partner1, m0)
    &&& draws_fired(m0, 0, 7, m1)
    &&& draws_fired(m1, 1, 7, m2)
    &&& s1 == (GameState {
        active_player: 0,
        priority_player: 0,
        phase: Phase::Mulligan,
        turn_number: 1,
        ..m2
    })
}

/// A state after setting up one player's deck for a Commander game.
pub open spec fn player_deck_ready(
    s0: GameState,
    player: PlayerIndex,
    deck: Seq<CardId>,
    commander: CardId,
    partner: Option<CardId>,
    s1: GameState,
) -> bool {
    let n = s0.next_object_id as int;
    let (l, cz, c, p) = place_deck(deck, commander, partner, n);
    &&& s1 == (GameState {
        next_object_id: s1.next_object_id,
        objects: s1.objects,
        battlefield: s1.battlefield,
        players: s1.players,
        ..s0
    })
    &&& s1.battlefield@ == s0.battlefield@
    &&& s1.next_object_id == n + deck.len()
    &&& s1.objects@ == fresh_objects(s0.objects@, deck, player, n)
    &&& s1.players@.len() == s0.players@.len()
    &&& player_ready(s0.players@[player as int], s1.players@[player as int], commander, partner, l, cz, c, p)
    &&& forall|q: int|
        0 <= q < s1.players@.len() && q != player ==> player_untouched(
            s0.players@[q],
            #[trigger] s1.players@[q],
        )
}

/// Set up one player's deck for a Commander game: record the commander
/// (and partner) card ids, create the cards, and shuffle the library.
fn prepare_player(
    state: &mut GameState,
    player: PlayerIndex,
    deck: &[CardId],
    commander: CardId,
    partner: Option<CardId>,
    rng: &mut ThreadRng,
)
    requires
        player < old(state).players@.len(),
        old(state).next_object_id + deck@.len() < u64::MAX,
    ensures
        player_deck_ready(*old(state), player, deck@, commander, partner, *final(state)),
{
    let ghost s0 = *state;
    state.players[player].commander_card_id = Some(commander);
    match partner {
        Some(p) => {
            state.players[player].partner_commander_card_id = Some(p);
        },
        None => {},
    }
    let ghost sa = *state;
    let mut lib = place_commander_deck(state, player, deck, commander, partner);
    let ghost sb = *state;
    shuffle_objects(&mut lib, rng);
    state.players[player].library = lib;
    proof {
        assert forall|q: int|
            0 <= q < state.players@.len() && q != player implies player_untouched(
                s0.players@[q],
                #[trigger] state.players@[q],
            ) by {
            assert(player_untouched(sa.players@[q], sb.players@[q]));
            assert(sa.players@[q] == s0.players@[q]);
            assert forall|z: ZoneType| #[trigger] player_zone(state.players@[q], z) == player_zone(s0.players@[q], z) by {
                assert(player_zone(sb.players@[q], z) == player_zone(sa.players@[q], z));
            }
        }
    }
}

/// Setting up player 0's deck and then player 1's gives a state with both
/// decks ready.
proof fn lemma_decks_ready(
    s0: GameState,
    sb: GameState,
    m0: GameState,
    deck0: Seq<CardId>,
    deck1: Seq<CardId>,
    commander0: CardId,
    partner0: Option<CardId>,
    commander1: CardId,
    partner1: Option<CardId>,
)
    requires
        s0.players@.len() >= 2,
        player_deck_ready(s0, 0, deck0, commander0, partner0, sb),
        player_deck_ready(sb, 1, deck1, commander1, partner1, m0),
    ensures
        decks_ready(s0, deck0, deck1, commander0, partner0, commander1, partner1, m0),
{
    assert(player_untouched(sb.players@[0], m0.players@[0]));
    assert(player_zone(m0.players@[0], ZoneType::Command) == player_zone(sb.players@[0], ZoneType::Command));
    assert(player_zone(m0.players@[0], ZoneType::Hand) == player_zone(sb.players@[0], ZoneType::Hand));
    assert(player_zone(m0.players@[0], ZoneType::Graveyard) == player_zone(sb.players@[0], ZoneType::Graveyard));
    assert(player_zone(m0.players@[0], ZoneType::Exile) == player_zone(sb.players@[0], ZoneType::Exile));
    assert(player_zone(m0.players@[0], ZoneType::Library) == player_zone(sb.players@[0], ZoneType::Library));
    assert(player_untouched(s0.players@[1], sb.players@[1]));
    assert(player_zone(sb.players@[1], ZoneType::Command) == player_zone(s0.players@[1], ZoneType::Command));
    assert(player_zone(sb.players@[1], ZoneType::Hand) == player_zone(s0.players@[1], ZoneType::Hand));
    assert(player_zone(sb.players@[1], ZoneType::Graveyard) == player_zone(s0.players@[1], ZoneType::Graveyard));
    assert(player_zone(sb.players@[1], ZoneType::Exile) == player_zone(s0.players@[1], ZoneType::Exile));
    assert forall|q: int| 2 <= q < m0.players@.len() implies player_untouched(s0.players@[q], #[trigger] m0.players@[q]) by {
        assert(player_untouched(s0.players@[q], sb.players@[q]));
        assert(player_untouched(sb.players@[q], m0.players@[q]));
        assert forall|z: ZoneType| #[trigger] player_zone(m0.players@[q], z) == player_zone(s0.players@[q], z) by {
            assert(player_zone(m0.players@[q], z) == player_zone(sb.players@[q], z));
            assert(player_zone(sb.players@[q], z) == player_zone(s0.players@[q], z));
        }
    }
}

/// Set up a Commander game with optional partner commanders. Each deck
/// holds all its cards, the commanders included: the first copy of each
/// commander (and partner) starts in its owner's command zone, the other
/// cards are shuffled into the library; each player draws seven, and the
/// game starts in the mulligan phase.
pub fn setup_commander_game_with_partners(
    state: &mut GameState,
    deck0: &[CardId],
    deck1: &[CardId],
    commander0: CardId,
    partner0: Option<CardId>,
    commander1: CardId,
    partner1: Option<CardId>,
)
    requires
        old(state).players@.len() >= 2,
        old(state).card_db is Some,
        old(state).next_object_id + deck0@.len() + deck1@.len() < u64::MAX,
        old(state).battlefield_known(),
        old(state).active_player + old(state).players@.len() < usize::MAX,
        old(state).next_stack_id + 14 * old(state).players@.len() < u64::MAX,
    ensures
        exists|m0: GameState, m1: GameState, m2: GameState|
            #[trigger] commander_opening(
                *old(state),
                deck0@,
                deck1@,
                commander0,
                partner0,
                commander1,
                partner1,
                m0,
                m1,
                m2,
                *final(state),
            ),
{
    let ghost s0 = *state;
    let mut rng = new_thread_rng();
    prepare_player(state, 0, deck0, commander0, partner0, &mut rng);
    let ghost sb = *state;
    prepare_player(state, 1, deck1, commander1, partner1, &mut rng);
    let ghost m0 = *state;
    proof {
        lemma_decks_ready(s0, sb, m0, deck0@, deck1@, commander0, partner0, commander1, partner1);
    }
    proof {
        lemma_fresh_keeps(s0.objects@, deck0@, 0, s0.next_object_id as int);
        lemma_fresh_keeps(
            fresh_objects(s0.objects@, deck0@, 0, s0.next_object_id as int),
            deck1@,
            1,
            s0.next_object_id + deck0@.len(),
        );
        assert(state.battlefield_known());
    }
    draw_cards(state, 0, 7);
    let ghost m1 = *state;
    draw_cards(state, 1, 7);
    let ghost m2 = *state;
    state.active_player = 0;
    state.priority_player = 0;
    state.phase = Phase::Mulligan;
    state.turn_number = 1;
    proof {
        assert(commander_opening(s0, deck0@, deck1@, commander0, partner0, commander1, partner1, m0, m1, m2, *state));
    }
}

/// Set up a Commander game: as with partners, with neither player having
/// one.
pub fn setup_commander_game(
    state: &mut GameState,
    deck0: &[CardId],
    deck1: &[CardId],
    commander0: CardId,
    commander1: CardId,
)
    requires
        old(state).players@.len() >= 2,
        old(state).card_db is Some,
        old(state).next_object_id + deck0@.len() + deck1@.len() < u64::MAX,
        old(state).battlefield_known(),
        old(state).active_player + old(state).players@.len() < usize::MAX,
        old(state).next_stack_id + 14 * old(state).players@.len() < u64::MAX,
    ensures
        exists|m0: GameState, m1: GameState, m2: GameState|
            #[trigger] commander_opening(
                *old(state),
                deck0@,
                deck1@,
                commander0,
                None,
                commander1,
                None,
                m0,
                m1,
                m2,
                *final(state),
            ),
{
    setup_commander_game_with_partners(state, deck0, deck1, commander0, None, commander1, None);
}

/// Setting up a Commander game loses no card: afterwards each player's
/// library and hand together hold the library cards of their deck (all
/// but the commanders) and the cards that were in hand before, each as
/// many times.
pub proof fn lemma_opening_keeps_cards(
    s0: GameState,
    deck0: Seq<CardId>,
    deck1: Seq<CardId>,
    commander0: CardId,
    partner0: Option<CardId>,
    commander1: CardId,
    partner1: Option<CardId>,
    m0: GameState,
    m1: GameState,
    m2: GameState,
    s1: GameState,
)
    requires
        s0.players@.len() >= 2,
        commander_opening(s0, deck0, deck1, commander0, partner0, commander1, partner1, m0, m1, m2, s1),
    ensures
        (s1.players@[0].library@ + s1.players@[0].hand@).to_multiset() == place_deck(
            deck0,
            commander0,
            partner0,
            s0.next_object_id as int,
        ).0.to_multiset().add(s0.players@[0].hand@.to_multiset()),
        (s1.players@[1].library@ + s1.players@[1].hand@).to_multiset() == place_deck(
            deck1,
            commander1,
            partner1,
            s0.next_object_id + deck0.len(),
        ).0.to_multiset().add(s0.players@[1].hand@.to_multiset()),
{
    lemma_draws_fired_keeps_cards(m0, 0, 7, m1);
    lemma_draws_fired_keeps_cards(m1, 1, 7, m2);
    assert(m2.players == s1.players);
    assert(s1.players@[0] == m1.players@[0]);
    assert(m1.players@[1] == m0.players@[1]);
    lemma_multiset_commutative(m0.players@[0].library@, m0.players@[0].hand@);
    lemma_multiset_commutative(m0.players@[1].library@, m0.players@[1].hand@);
}


/// Placing fresh cards keeps every object already there.
proof fn lemma_fresh_keeps(objects: Map<ObjectId, CardInstance>, deck: Seq<CardId>, owner: PlayerIndex, next: int)
    ensures
        forall|k: ObjectId| objects.contains_key(k) ==> #[trigger] fresh_objects(objects, deck, owner, next).contains_key(k),
    decreases deck.len(),
{
    if deck.len() > 0 {
        lemma_fresh_keeps(objects, deck.drop_last(), owner, next);
        assert forall|k: ObjectId| objects.contains_key(k) implies #[trigger] fresh_objects(objects, deck, owner, next).contains_key(k) by {
            assert(fresh_objects(objects, deck.drop_last(), owner, next).contains_key(k));
        }
    }
}

} // verus!
