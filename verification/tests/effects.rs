use mtg_gto::card::ZoneType;
use mtg_gto::events::GameEvent;
use mtg_gto::game::{GameState, Target};
use mtg_gto::replacement::{ReplacementAction, ReplacementEffect, ReplacementEventKind};

fn effect(kind: ReplacementEventKind, action: ReplacementAction, is_self: bool) -> ReplacementEffect {
    ReplacementEffect {
        source_id: 1,
        controller: 0,
        applies_to: kind,
        action,
        is_self_replacement: is_self,
        description: "test effect".to_string(),
    }
}

#[test]
fn opponent_is_the_next_player_clockwise() {
    let mut state = GameState::new(4);
    assert_eq!(state.opponent(2), 3);
    assert_eq!(state.opponent(3), 0);
    assert_eq!(state.opponent(0), 1);
    state.players[3].has_lost = true;
    assert_eq!(state.opponent(2), 0);
    state.players[0].has_lost = true;
    state.players[1].has_lost = true;
    assert_eq!(state.opponent(2), 0);
    let two = GameState::new(2);
    assert_eq!(two.opponent(0), 1);
    assert_eq!(two.opponent(1), 0);
}

#[test]
fn a_single_other_prevention_prevents_damage() {
    let mut state = GameState::new(2);
    state.replacement_effects =
        vec![effect(ReplacementEventKind::DamageDealt, ReplacementAction::Prevent, false)];
    assert_eq!(state.deal_damage_with_replacement(5, &Target::Player(1)), 0);
}

#[test]
fn damage_replacements_apply_self_first_then_others() {
    let mut state = GameState::new(2);
    state.replacement_effects = vec![
        effect(ReplacementEventKind::DamageDealt, ReplacementAction::ModifyAmount { delta: 2 }, false),
        effect(ReplacementEventKind::DamageDealt, ReplacementAction::Prevent, true),
        effect(ReplacementEventKind::WouldDie, ReplacementAction::Prevent, false),
    ];
    // Self prevention first (0), then the other effect adds 2.
    assert_eq!(state.deal_damage_with_replacement(5, &Target::Player(0)), 2);
    state.replacement_effects = vec![
        effect(ReplacementEventKind::DamageDealt, ReplacementAction::ModifyAmount { delta: -7 }, false),
    ];
    assert_eq!(state.deal_damage_with_replacement(5, &Target::Player(0)), 0);
}

#[test]
fn a_single_other_exile_effect_redirects_death() {
    let mut state = GameState::new(2);
    state.replacement_effects = vec![effect(
        ReplacementEventKind::WouldDie,
        ReplacementAction::RedirectToZone(ZoneType::Exile),
        false,
    )];
    assert_eq!(state.death_replacement_zone(7), ZoneType::Exile);
    state.replacement_effects.push(effect(ReplacementEventKind::WouldDie, ReplacementAction::Prevent, true));
    assert_eq!(state.death_replacement_zone(7), ZoneType::Battlefield);
    state.replacement_effects.clear();
    assert_eq!(state.death_replacement_zone(7), ZoneType::Graveyard);
}

#[test]
fn drained_events_keep_emission_order() {
    let mut state = GameState::new(2);
    state.emit_event(GameEvent::ZoneChange { object: 1, from: ZoneType::Hand, to: ZoneType::Graveyard });
    let first = state.drain_events();
    assert_eq!(first.len(), 1);
    state.emit_event(GameEvent::ZoneChange { object: 2, from: ZoneType::Library, to: ZoneType::Hand });
    state.emit_event(GameEvent::ZoneChange { object: 3, from: ZoneType::Hand, to: ZoneType::Exile });
    let drained = state.drain_events();
    assert_eq!(
        drained,
        vec![
            GameEvent::ZoneChange { object: 2, from: ZoneType::Library, to: ZoneType::Hand },
            GameEvent::ZoneChange { object: 3, from: ZoneType::Hand, to: ZoneType::Exile },
        ]
    );
    assert!(state.drain_events().is_empty());
}
