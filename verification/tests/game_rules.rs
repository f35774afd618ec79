use std::sync::Arc;

use mtg_gto::card::sample;
use mtg_gto::card::{CardDatabase, CardDef, CardType, KeywordAbility, Supertype, ZoneType};
use mtg_gto::events::GameEvent;
use mtg_gto::game::{GameFormat, GameState};
use mtg_gto::mana::{ManaCost, ManaPool};
use mtg_gto::rules::mana::{
    apply_cost_reduction, auto_tap_lands, constraint_score, mana_amount, spell_cost_reduction,
    total_cost_increase, total_cost_reduction,
};
use mtg_gto::rules::sba::{
    cancel_counters, check_game_end, check_player_losses, find_duplicates_to_remove, UniquenessRule,
};
use mtg_gto::card::{CostIncrease, CostIncreaseTarget, CostReduction, CostReductionTarget, ManaAbility};
use mtg_gto::mana::Color;

fn state_with_db(db: CardDatabase) -> GameState {
    let mut state = GameState::new(2);
    state.card_db = Some(Arc::new(db));
    state
}

fn sample_state() -> GameState {
    state_with_db(sample::build_sample_db())
}

fn blank(id: u64, name: &str) -> CardDef {
    let db = sample::build_sample_db();
    let mut d = db.get(sample::ids::GREY_OGRE).unwrap().clone();
    d.id = id;
    d.name = name.to_string();
    d.card_types = vec![];
    d.supertypes = vec![];
    d.subtypes = vec![];
    d.keywords = vec![];
    d.mana_cost = None;
    d.power = None;
    d.toughness = None;
    d.mana_abilities = vec![];
    d
}

#[test]
fn move_object_hand_to_graveyard_emits_event() {
    let mut state = sample_state();
    let id = state.create_card_in_zone(sample::ids::LIGHTNING_BOLT, 0, ZoneType::Hand);
    state.move_object(id, ZoneType::Hand, ZoneType::Graveyard);
    assert!(state.players[0].hand.is_empty());
    assert_eq!(state.players[0].graveyard, vec![id]);
    assert_eq!(state.objects[&id].zone_change_count, 1);
    let events = state.drain_events();
    assert_eq!(
        events,
        vec![GameEvent::ZoneChange { object: id, from: ZoneType::Hand, to: ZoneType::Graveyard }]
    );
}

#[test]
fn move_object_onto_battlefield_resets_state() {
    let mut state = sample_state();
    let id = state.create_card_in_zone(sample::ids::GREY_OGRE, 0, ZoneType::Hand);
    state.objects.get_mut(&id).unwrap().damage_marked = 3;
    state.move_object(id, ZoneType::Hand, ZoneType::Battlefield);
    assert_eq!(state.battlefield, vec![id]);
    let inst = state.objects[&id];
    assert!(inst.summoning_sick);
    assert!(!inst.tapped);
    assert_eq!(inst.damage_marked, 0);
}

#[test]
fn token_leaving_battlefield_ceases_to_exist() {
    let mut state = sample_state();
    let id = state.create_card_in_zone(sample::ids::GREY_OGRE, 0, ZoneType::Battlefield);
    state.objects.get_mut(&id).unwrap().is_token = true;
    state.move_object(id, ZoneType::Battlefield, ZoneType::Graveyard);
    assert!(state.battlefield.is_empty());
    assert!(state.players[0].graveyard.is_empty());
    assert!(!state.objects.contains_key(&id));
}

#[test]
fn leaving_battlefield_returns_linked_exiles() {
    let mut state = sample_state();
    let sculler = state.create_card_in_zone(sample::ids::GREY_OGRE, 0, ZoneType::Battlefield);
    let taken = state.create_card_in_zone(sample::ids::LIGHTNING_BOLT, 1, ZoneType::Exile);
    state.objects.get_mut(&taken).unwrap().exiled_by = Some(sculler);
    state.move_object(sculler, ZoneType::Battlefield, ZoneType::Graveyard);
    assert!(state.players[1].exile.is_empty());
    assert_eq!(state.players[1].graveyard, vec![taken]);
    assert_eq!(state.objects[&taken].exiled_by, None);
    assert_eq!(state.players[0].graveyard, vec![sculler]);
}

#[test]
fn commander_goes_to_command_zone() {
    let mut state = GameState::new_commander(2);
    state.card_db = Some(Arc::new(sample::build_sample_db()));
    let id = state.create_card_in_zone(sample::ids::GREY_OGRE, 0, ZoneType::Battlefield);
    state.players[0].commander_object_id = Some(id);
    assert!(state.is_commander(id));
    state.move_object(id, ZoneType::Battlefield, ZoneType::Graveyard);
    assert_eq!(state.players[0].command_zone, vec![id]);
    assert!(state.players[0].graveyard.is_empty());
    assert_eq!(state.format, GameFormat::Commander);
}

#[test]
fn snapshot_restore_round_trip() {
    let mut state = sample_state();
    let id = state.create_card_in_zone(sample::ids::MOUNTAIN, 0, ZoneType::Battlefield);
    let snap = state.snapshot();
    state.players[0].life = 3;
    state.move_object(id, ZoneType::Battlefield, ZoneType::Graveyard);
    state.turn_number = 9;
    state.restore(snap);
    assert_eq!(state.players[0].life, 20);
    assert_eq!(state.battlefield, vec![id]);
    assert!(state.players[0].graveyard.is_empty());
    assert_eq!(state.turn_number, 1);
    assert!(state.drain_events().is_empty());
}

#[test]
fn auto_tap_pays_red_and_generic() {
    let mut state = sample_state();
    let m = state.create_card_in_zone(sample::ids::MOUNTAIN, 0, ZoneType::Battlefield);
    let f = state.create_card_in_zone(sample::ids::FOREST, 0, ZoneType::Battlefield);
    let cost = ManaCost::new(1, 0, 0, 0, 1, 0);
    auto_tap_lands(&mut state, 0, &cost);
    assert_eq!(state.players[0].mana_pool.red, 1);
    assert_eq!(state.players[0].mana_pool.green, 1);
    assert!(state.objects[&m].tapped);
    assert!(state.objects[&f].tapped);
    assert!(state.players[0].mana_pool.can_pay(&cost));
}

#[test]
fn auto_tap_leaves_unneeded_sources() {
    let mut state = sample_state();
    let m = state.create_card_in_zone(sample::ids::MOUNTAIN, 0, ZoneType::Battlefield);
    let f = state.create_card_in_zone(sample::ids::FOREST, 0, ZoneType::Battlefield);
    let cost = ManaCost::new(0, 0, 0, 0, 0, 1);
    auto_tap_lands(&mut state, 0, &cost);
    assert_eq!(state.players[0].mana_pool.green, 1);
    assert_eq!(state.players[0].mana_pool.red, 0);
    assert!(!state.objects[&m].tapped);
    assert!(state.objects[&f].tapped);
}

#[test]
fn constraint_scores_and_amounts() {
    assert_eq!(constraint_score(&vec![ManaAbility::TapForColor(Color::Red)]), 1);
    assert_eq!(constraint_score(&vec![ManaAbility::TapForChoice(vec![Color::Red, Color::Green])]), 2);
    assert_eq!(constraint_score(&vec![ManaAbility::TapForAny]), 100);
    assert_eq!(constraint_score(&vec![ManaAbility::TapForColorless]), 50);
    assert_eq!(mana_amount(&vec![ManaAbility::TapForColorlessAmount(3)]), 3);
    assert_eq!(mana_amount(&vec![ManaAbility::TapForAny]), 1);
    assert_eq!(mana_amount(&vec![]), 0);
}

#[test]
fn cost_reductions_and_taxes() {
    let mut db = sample::build_sample_db();
    let mut medallion = blank(100, "Medallion");
    medallion.card_types = vec![CardType::Artifact];
    medallion.cost_reduction = Some(CostReduction { applies_to: CostReductionTarget::AllSpells, generic_reduction: 1 });
    db.insert(medallion);
    let mut thalia = blank(101, "Tax Creature");
    thalia.cost_increase = Some(CostIncrease {
        applies_to: CostIncreaseTarget::NoncreatureSpells,
        generic_increase: 1,
        affects_controller: false,
    });
    db.insert(thalia);
    let mut affinity = blank(102, "Affinity Spell");
    affinity.keywords = vec![KeywordAbility::AffinityForArtifacts, KeywordAbility::Delve];
    db.insert(affinity);
    let mut state = state_with_db(db);
    state.create_card_in_zone(100, 0, ZoneType::Battlefield);
    state.create_card_in_zone(101, 1, ZoneType::Battlefield);
    state.create_card_in_zone(sample::ids::MOUNTAIN, 0, ZoneType::Graveyard);
    assert_eq!(total_cost_reduction(&state, 0, true), 1);
    assert_eq!(total_cost_reduction(&state, 1, true), 0);
    assert_eq!(total_cost_increase(&state, 0, false), 1);
    assert_eq!(total_cost_increase(&state, 0, true), 0);
    assert_eq!(total_cost_increase(&state, 1, false), 0);
    assert_eq!(spell_cost_reduction(&state, 0, 102), 2);
    assert_eq!(spell_cost_reduction(&state, 0, 999), 0);
    let reduced = apply_cost_reduction(&ManaCost::new(2, 0, 0, 0, 1, 0), 5);
    assert_eq!(reduced.generic, 0);
    assert_eq!(reduced.red, 1);
}

#[test]
fn player_losses_and_game_end() {
    let mut state = sample_state();
    state.players[1].life = 0;
    assert!(check_player_losses(&mut state));
    assert!(state.players[1].has_lost);
    assert!(!state.players[0].has_lost);
    assert!(!check_player_losses(&mut state));
    check_game_end(&mut state);
    assert!(state.game_over);
    assert_eq!(state.winner, Some(0));
}

#[test]
fn poison_kills_and_counters_cancel() {
    let mut state = sample_state();
    state.players[0].poison_counters = 10;
    check_player_losses(&mut state);
    assert!(state.players[0].has_lost);
    let id = state.create_card_in_zone(sample::ids::GREY_OGRE, 0, ZoneType::Battlefield);
    state.objects.get_mut(&id).unwrap().plus_counters = 3;
    state.objects.get_mut(&id).unwrap().minus_counters = 1;
    assert!(cancel_counters(&mut state));
    assert_eq!(state.objects[&id].plus_counters, 2);
    assert_eq!(state.objects[&id].minus_counters, 0);
    assert!(!cancel_counters(&mut state));
}

#[test]
fn legend_rule_keeps_newest() {
    let mut db = sample::build_sample_db();
    let mut legend = blank(200, "Legend");
    legend.supertypes = vec![Supertype::Legendary];
    legend.card_types = vec![CardType::Creature];
    db.insert(legend);
    let mut state = state_with_db(db);
    let a = state.create_card_in_zone(200, 0, ZoneType::Battlefield);
    let b = state.create_card_in_zone(200, 0, ZoneType::Battlefield);
    let c = state.create_card_in_zone(200, 1, ZoneType::Battlefield);
    assert_eq!(find_duplicates_to_remove(&state, UniquenessRule::Legendary), vec![a]);
    assert!(find_duplicates_to_remove(&state, UniquenessRule::Planeswalker).is_empty());
    let _ = (b, c);
}

#[test]
fn pool_untouched_by_failed_plan() {
    let mut state = sample_state();
    let cost = ManaCost::new(0, 1, 0, 0, 0, 0);
    auto_tap_lands(&mut state, 0, &cost);
    assert_eq!(state.players[0].mana_pool, ManaPool::empty());
}
