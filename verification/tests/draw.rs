use std::sync::Arc;

use mtg_gto::card::sample;
use mtg_gto::card::{BasicEffect, CardDatabase, CardDef, Effect, StaticAbility, TriggerCondition, TriggeredAbility, ZoneType};
use mtg_gto::events::GameEvent;
use mtg_gto::game::{GameState, StackSource};
use mtg_gto::rules::draw::has_static_ability_on_battlefield;
use mtg_gto::rules::draw_cards;
use mtg_gto::rules::mana::{mana_from_nonland_bonus_count, mana_from_swamp_bonus_count};

const ENGINE: u64 = 90;

fn state_with(ability: Option<StaticAbility>) -> GameState {
    let mut db: CardDatabase = sample::build_sample_db();
    if let Some(a) = ability {
        let mut d: CardDef = db.get(sample::ids::GREY_OGRE).unwrap().clone();
        d.id = ENGINE;
        d.name = "Engine".to_string();
        d.static_abilities = vec![a];
        db.insert(d);
    }
    let mut state = GameState::new(2);
    state.card_db = Some(Arc::new(db));
    if ability.is_some() {
        state.create_card_in_zone(ENGINE, 0, ZoneType::Battlefield);
    }
    state
}

fn library(state: &mut GameState, cards: &[u64]) -> Vec<u64> {
    cards.iter().map(|&c| state.create_card_in_zone(c, 0, ZoneType::Library)).collect()
}

#[test]
fn plain_draw_takes_from_the_top() {
    let mut state = state_with(None);
    let lib = library(&mut state, &[sample::ids::MOUNTAIN, sample::ids::GREY_OGRE, sample::ids::FOREST]);
    draw_cards(&mut state, 0, 2);
    assert_eq!(state.players[0].hand, vec![lib[0], lib[1]]);
    assert_eq!(state.players[0].library, vec![lib[2]]);
    assert!(!state.players[0].has_lost);
    assert_eq!(
        state.pending_events,
        vec![
            GameEvent::CardDrawn { player: 0, object: lib[0] },
            GameEvent::ZoneChange { object: lib[0], from: ZoneType::Library, to: ZoneType::Hand },
            GameEvent::CardDrawn { player: 0, object: lib[1] },
            GameEvent::ZoneChange { object: lib[1], from: ZoneType::Library, to: ZoneType::Hand },
        ]
    );
}

#[test]
fn drawing_from_an_empty_library_loses() {
    let mut state = state_with(None);
    let lib = library(&mut state, &[sample::ids::MOUNTAIN]);
    draw_cards(&mut state, 0, 3);
    assert_eq!(state.players[0].hand, vec![lib[0]]);
    assert!(state.players[0].library.is_empty());
    assert!(state.players[0].has_lost);
    assert!(!state.players[1].has_lost);
}

#[test]
fn drawing_zero_cards_changes_nothing() {
    let mut state = state_with(None);
    library(&mut state, &[]);
    draw_cards(&mut state, 0, 0);
    assert!(!state.players[0].has_lost);
    assert!(state.pending_events.is_empty());
}

#[test]
fn phial_draws_two_into_an_empty_hand() {
    let mut state = state_with(Some(StaticAbility::PhialDrawDoubler));
    let lib = library(&mut state, &[sample::ids::MOUNTAIN, sample::ids::FOREST, sample::ids::ISLAND, sample::ids::SWAMP]);
    draw_cards(&mut state, 0, 2);
    // First draw doubles (hand empty), second does not.
    assert_eq!(state.players[0].hand, vec![lib[0], lib[1], lib[2]]);
    assert_eq!(state.players[0].library, vec![lib[3]]);
}

#[test]
fn renfield_takes_two_without_draw_events() {
    let mut state = state_with(Some(StaticAbility::RenfieldDrawReplacement));
    let lib = library(&mut state, &[sample::ids::MOUNTAIN, sample::ids::FOREST, sample::ids::ISLAND]);
    draw_cards(&mut state, 0, 1);
    assert_eq!(state.players[0].hand, vec![lib[0], lib[1]]);
    assert_eq!(state.players[0].library, vec![lib[2]]);
    assert_eq!(
        state.pending_events,
        vec![
            GameEvent::ZoneChange { object: lib[0], from: ZoneType::Library, to: ZoneType::Hand },
            GameEvent::ZoneChange { object: lib[1], from: ZoneType::Library, to: ZoneType::Hand },
        ]
    );
}

#[test]
fn abundance_reveals_until_a_land() {
    let mut state = state_with(Some(StaticAbility::AbundanceReplacement));
    let lib = library(
        &mut state,
        &[sample::ids::LIGHTNING_BOLT, sample::ids::GREY_OGRE, sample::ids::MOUNTAIN, sample::ids::LLANOWAR_ELVES],
    );
    draw_cards(&mut state, 0, 1);
    assert_eq!(state.players[0].hand, vec![lib[2]]);
    assert_eq!(state.players[0].library, vec![lib[3], lib[0], lib[1]]);
    assert_eq!(
        state.pending_events,
        vec![GameEvent::ZoneChange { object: lib[2], from: ZoneType::Library, to: ZoneType::Hand }]
    );
}

#[test]
fn abundance_without_lands_finds_nothing() {
    let mut state = state_with(Some(StaticAbility::AbundanceReplacement));
    let lib = library(&mut state, &[sample::ids::LIGHTNING_BOLT, sample::ids::GREY_OGRE]);
    draw_cards(&mut state, 0, 2);
    assert!(state.players[0].hand.is_empty());
    assert_eq!(state.players[0].library, lib);
    assert!(!state.players[0].has_lost);
}

#[test]
fn static_abilities_count_only_for_their_controller() {
    let state = state_with(Some(StaticAbility::PhialDrawDoubler));
    assert!(has_static_ability_on_battlefield(&state, 0, StaticAbility::PhialDrawDoubler));
    assert!(!has_static_ability_on_battlefield(&state, 1, StaticAbility::PhialDrawDoubler));
    assert!(!has_static_ability_on_battlefield(&state, 0, StaticAbility::RenfieldDrawReplacement));
}

#[test]
fn drawing_keeps_the_cards_of_library_and_hand() {
    let mut state = state_with(Some(StaticAbility::AbundanceReplacement));
    library(&mut state, &[sample::ids::LIGHTNING_BOLT, sample::ids::MOUNTAIN, sample::ids::GREY_OGRE, sample::ids::FOREST]);
    let mut before: Vec<u64> = state.players[0].library.iter().chain(state.players[0].hand.iter()).copied().collect();
    draw_cards(&mut state, 0, 3);
    let mut after: Vec<u64> = state.players[0].library.iter().chain(state.players[0].hand.iter()).copied().collect();
    before.sort();
    after.sort();
    assert_eq!(before, after);
    assert_eq!(state.players[0].hand.len(), 2);
}

#[test]
fn bonus_abilities_are_counted_per_copy_and_controller() {
    let mut db: CardDatabase = sample::build_sample_db();
    let mut d: CardDef = db.get(sample::ids::GREY_OGRE).unwrap().clone();
    d.id = 91;
    d.static_abilities = vec![StaticAbility::ManaFromSwampBonus, StaticAbility::ManaFromSwampBonus];
    db.insert(d);
    let mut k: CardDef = db.get(sample::ids::GREY_OGRE).unwrap().clone();
    k.id = 92;
    k.static_abilities = vec![StaticAbility::ManaFromNonlandBonus];
    db.insert(k);
    let mut state = GameState::new(2);
    state.card_db = Some(Arc::new(db));
    state.create_card_in_zone(91, 0, ZoneType::Battlefield);
    state.create_card_in_zone(91, 1, ZoneType::Battlefield);
    state.create_card_in_zone(92, 0, ZoneType::Battlefield);
    state.create_card_in_zone(92, 0, ZoneType::Hand);
    assert_eq!(mana_from_swamp_bonus_count(&state, 0), 2);
    assert_eq!(mana_from_swamp_bonus_count(&state, 1), 2);
    assert_eq!(mana_from_nonland_bonus_count(&state, 0), 1);
    assert_eq!(mana_from_nonland_bonus_count(&state, 1), 0);
}

#[test]
fn drawing_fires_opponent_draw_triggers() {
    let mut db: CardDatabase = sample::build_sample_db();
    let mut sphinx: CardDef = db.get(sample::ids::GREY_OGRE).unwrap().clone();
    sphinx.id = 99;
    sphinx.name = "Consecrated Sphinx".to_string();
    sphinx.triggered_abilities = vec![TriggeredAbility {
        trigger: TriggerCondition::OpponentDrawsCard,
        effect: Effect::Single(BasicEffect::DrawCards { count: 2 }),
        description: "Whenever an opponent draws a card, you may draw two cards.".to_string(),
    }];
    db.cards.push(sphinx);
    let mut state = GameState::new(2);
    state.card_db = Some(Arc::new(db));
    let watcher = state.create_card_in_zone(99, 1, ZoneType::Battlefield);
    for _ in 0..3 {
        state.create_card_in_zone(sample::ids::MOUNTAIN, 0, ZoneType::Library);
    }
    draw_cards(&mut state, 0, 2);
    assert_eq!(state.players[0].hand.len(), 2);
    // One trigger per draw, each put on the stack for its controller.
    assert_eq!(state.stack.len(), 2);
    assert_eq!(state.stack[0].source, StackSource::TriggeredAbility { source_id: watcher, ability_index: 0 });
    assert_eq!(state.stack[1].controller, 1);
    assert!(state.pending_triggers.is_empty());
    // The drawing player's own permanents do not trigger.
    let mut own = GameState::new(2);
    own.card_db = state.card_db.clone();
    own.create_card_in_zone(99, 0, ZoneType::Battlefield);
    own.create_card_in_zone(sample::ids::MOUNTAIN, 0, ZoneType::Library);
    draw_cards(&mut own, 0, 1);
    assert!(own.stack.is_empty());
}
