use std::sync::Arc;

use mtg_gto::card::sample;
use mtg_gto::game::{GameState, Phase};
use mtg_gto::setup::opening::{setup_commander_game, setup_commander_game_with_partners};

fn new_state() -> GameState {
    let mut state = GameState::new(2);
    state.card_db = Some(Arc::new(sample::build_sample_db()));
    state
}

fn card_of(state: &GameState, id: u64) -> u64 {
    state.objects[&id].card_def_id
}

#[test]
fn commander_setup_places_commanders_and_draws_seven() {
    let mut state = new_state();
    let mut deck0 = vec![sample::ids::GREY_OGRE];
    deck0.extend(std::iter::repeat(sample::ids::MOUNTAIN).take(10));
    let mut deck1 = vec![sample::ids::FOREST; 5];
    deck1.push(sample::ids::LLANOWAR_ELVES);
    deck1.extend(std::iter::repeat(sample::ids::FOREST).take(5));
    let start = state.next_object_id;
    setup_commander_game(&mut state, &deck0, &deck1, sample::ids::GREY_OGRE, sample::ids::LLANOWAR_ELVES);

    assert_eq!(state.next_object_id, start + 22);
    assert_eq!(state.objects.len(), 22);
    assert_eq!(state.phase, Phase::Mulligan);
    assert_eq!(state.turn_number, 1);
    assert_eq!(state.active_player, 0);
    assert_eq!(state.priority_player, 0);

    let p0 = &state.players[0];
    assert_eq!(p0.commander_card_id, Some(sample::ids::GREY_OGRE));
    assert_eq!(p0.command_zone, vec![start]);
    assert_eq!(p0.commander_object_id, Some(start));
    assert_eq!(p0.hand.len(), 7);
    assert_eq!(p0.library.len(), 3);
    let p1 = &state.players[1];
    assert_eq!(p1.command_zone, vec![start + 11 + 5]);
    assert_eq!(p1.commander_object_id, Some(start + 16));
    assert_eq!(card_of(&state, start + 16), sample::ids::LLANOWAR_ELVES);
    assert_eq!(p1.hand.len(), 7);
    assert_eq!(p1.library.len(), 3);

    // Every non-commander card is in its owner's library or hand, once.
    let mut held0: Vec<u64> = p0.library.iter().chain(p0.hand.iter()).copied().collect();
    held0.sort();
    assert_eq!(held0, (start + 1..start + 11).collect::<Vec<u64>>());
    for id in held0 {
        assert_eq!(card_of(&state, id), sample::ids::MOUNTAIN);
        assert_eq!(state.objects[&id].owner, 0);
    }
}

#[test]
fn partners_start_in_the_command_zone_too() {
    let mut state = new_state();
    let mut deck0 = vec![sample::ids::MOUNTAIN; 8];
    deck0.push(sample::ids::GREY_OGRE);
    deck0.push(sample::ids::LIGHTNING_BOLT);
    deck0.push(sample::ids::LIGHTNING_BOLT);
    let deck1 = vec![sample::ids::LLANOWAR_ELVES, sample::ids::FOREST, sample::ids::FOREST];
    let start = state.next_object_id;
    setup_commander_game_with_partners(
        &mut state,
        &deck0,
        &deck1,
        sample::ids::GREY_OGRE,
        Some(sample::ids::LIGHTNING_BOLT),
        sample::ids::LLANOWAR_ELVES,
        None,
    );
    let p0 = &state.players[0];
    assert_eq!(p0.partner_commander_card_id, Some(sample::ids::LIGHTNING_BOLT));
    assert_eq!(p0.command_zone, vec![start + 8, start + 9]);
    assert_eq!(p0.commander_object_id, Some(start + 8));
    assert_eq!(p0.partner_commander_object_id, Some(start + 9));
    // The second Bolt is an ordinary card.
    let mut held: Vec<u64> = p0.library.iter().chain(p0.hand.iter()).copied().collect();
    held.sort();
    let mut expected: Vec<u64> = (start..start + 8).collect();
    expected.push(start + 10);
    assert_eq!(held, expected);
    assert_eq!(p0.hand.len(), 7);
    // Player 1 has only two library cards: drawing seven loses.
    let p1 = &state.players[1];
    assert_eq!(p1.hand.len(), 2);
    assert!(p1.library.is_empty());
    assert!(p1.has_lost);
    assert_eq!(p1.partner_commander_card_id, None);
    assert_eq!(p1.partner_commander_object_id, None);
}
