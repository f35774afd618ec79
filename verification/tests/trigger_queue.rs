use std::sync::Arc;

use mtg_gto::card::sample;
use mtg_gto::card::{BasicEffect, CardDatabase, CardDef, Effect, TriggerCondition, TriggeredAbility, ZoneType};
use mtg_gto::events::GameEvent;
use mtg_gto::game::{GameState, StackSource};
use mtg_gto::rules::triggers::{check_your_creature_dies_triggers, fire_card_draw_triggers, fire_triggers};

fn with_trigger(db: &mut CardDatabase, id: u64, trigger: TriggerCondition) {
    let mut def: CardDef = db.get(sample::ids::GREY_OGRE).unwrap().clone();
    def.id = id;
    def.triggered_abilities = vec![TriggeredAbility {
        trigger,
        effect: Effect::Single(BasicEffect::GainLife { amount: 1 }),
        description: "test".to_string(),
    }];
    db.cards.push(def);
}

fn state_with(db: CardDatabase) -> GameState {
    let mut state = GameState::new(2);
    state.card_db = Some(Arc::new(db));
    state
}

#[test]
fn upkeep_triggers_go_on_the_stack_in_apnap_order() {
    let mut db = sample::build_sample_db();
    with_trigger(&mut db, 50, TriggerCondition::BeginningOfUpkeep);
    let mut state = state_with(db);
    state.active_player = 1;
    let mine = state.create_card_in_zone(50, 0, ZoneType::Battlefield);
    let theirs = state.create_card_in_zone(50, 1, ZoneType::Battlefield);
    assert!(fire_triggers(&mut state, TriggerCondition::BeginningOfUpkeep, None));
    assert_eq!(state.stack.len(), 2);
    // The active player's trigger is put on the stack first.
    assert_eq!(state.stack[0].source, StackSource::TriggeredAbility { source_id: theirs, ability_index: 0 });
    assert_eq!(state.stack[1].source, StackSource::TriggeredAbility { source_id: mine, ability_index: 0 });
    assert!(state.pending_triggers.is_empty());
    let events = state.drain_events();
    assert_eq!(events.last(), Some(&GameEvent::AbilityTriggered { source: mine, ability_index: 0 }));
}

#[test]
fn a_hinted_object_alone_is_checked() {
    let mut db = sample::build_sample_db();
    with_trigger(&mut db, 50, TriggerCondition::Dies);
    let mut state = state_with(db);
    let a = state.create_card_in_zone(50, 0, ZoneType::Graveyard);
    state.create_card_in_zone(50, 0, ZoneType::Battlefield);
    assert!(fire_triggers(&mut state, TriggerCondition::Dies, Some(a)));
    assert_eq!(state.stack.len(), 1);
    assert_eq!(state.stack[0].source, StackSource::TriggeredAbility { source_id: a, ability_index: 0 });
}

#[test]
fn several_triggers_of_one_player_wait_for_an_order() {
    let mut db = sample::build_sample_db();
    with_trigger(&mut db, 50, TriggerCondition::OpponentDrawsCard);
    let mut state = state_with(db);
    state.create_card_in_zone(50, 1, ZoneType::Battlefield);
    state.create_card_in_zone(50, 1, ZoneType::Battlefield);
    fire_card_draw_triggers(&mut state, 0);
    assert!(state.stack.is_empty());
    assert_eq!(state.pending_triggers.len(), 2);
    assert_eq!(state.priority_player, 1);
}

#[test]
fn your_creature_dies_triggers_follow_the_dying_controllers() {
    let mut db = sample::build_sample_db();
    with_trigger(&mut db, 50, TriggerCondition::ACreatureYouControlDies);
    let mut state = state_with(db);
    let w = state.create_card_in_zone(50, 0, ZoneType::Battlefield);
    check_your_creature_dies_triggers(&mut state, vec![1]);
    assert!(state.pending_triggers.is_empty());
    check_your_creature_dies_triggers(&mut state, vec![0]);
    assert_eq!(state.pending_triggers.len(), 1);
    assert_eq!(state.pending_triggers[0].source_id, w);
    assert_eq!(state.pending_triggers[0].controller, 0);
}
