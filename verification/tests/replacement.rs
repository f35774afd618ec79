use mtg_gto::card::ZoneType;
use mtg_gto::replacement::{
    apply_replacement_effects, find_applicable_replacements, ReplacementAction, ReplacementEffect,
    ReplacementEventKind,
};

fn sample_effects() -> Vec<ReplacementEffect> {
    vec![
        ReplacementEffect {
            source_id: 1,
            controller: 0,
            applies_to: ReplacementEventKind::WouldDie,
            action: ReplacementAction::RedirectToZone(ZoneType::Exile),
            is_self_replacement: false,
            description: "Exile instead of dying".into(),
        },
        ReplacementEffect {
            source_id: 2,
            controller: 0,
            applies_to: ReplacementEventKind::EntersBattlefield,
            action: ReplacementAction::EntersModified { enters_tapped: true, extra_counters: 0 },
            is_self_replacement: true,
            description: "Enters tapped".into(),
        },
        ReplacementEffect {
            source_id: 3,
            controller: 0,
            applies_to: ReplacementEventKind::WouldDie,
            action: ReplacementAction::Prevent,
            is_self_replacement: false,
            description: "Prevent death".into(),
        },
    ]
}

#[test]
fn test_find_applicable_replacements_empty() {
    let effects: Vec<ReplacementEffect> = vec![];
    let (self_r, player_r) =
        find_applicable_replacements(&effects, &ReplacementEventKind::WouldDie, 0);
    assert!(self_r.is_empty());
    assert!(player_r.is_empty());
}

#[test]
fn test_find_applicable_replacements_mixed() {
    let effects = sample_effects();

    let (self_r, player_r) =
        find_applicable_replacements(&effects, &ReplacementEventKind::WouldDie, 0);
    assert!(self_r.is_empty());
    assert_eq!(player_r, vec![0, 2]);

    let (self_r, player_r) =
        find_applicable_replacements(&effects, &ReplacementEventKind::EntersBattlefield, 0);
    assert_eq!(self_r, vec![1]);
    assert!(player_r.is_empty());

    let (self_r, player_r) =
        find_applicable_replacements(&effects, &ReplacementEventKind::DamageDealt, 0);
    assert!(self_r.is_empty());
    assert!(player_r.is_empty());
}

#[test]
fn apply_runs_self_replacements_and_single_choice() {
    let effects = sample_effects();
    let (applied, pending) =
        apply_replacement_effects(&effects, &ReplacementEventKind::EntersBattlefield, 0);
    assert_eq!(applied.len(), 1);
    assert_eq!(applied[0].source_id, 2);
    assert!(pending.is_none());
}

#[test]
fn apply_asks_affected_player_when_several_choices() {
    let effects = sample_effects();
    let (applied, pending) = apply_replacement_effects(&effects, &ReplacementEventKind::WouldDie, 1);
    assert!(applied.is_empty());
    let choice = pending.unwrap();
    assert_eq!(choice.chooser, 1);
    assert_eq!(choice.event_kind, ReplacementEventKind::WouldDie);
    assert_eq!(choice.applicable_effects, vec![(1, 0), (3, 2)]);
}

#[test]
fn apply_with_one_choice_applies_it() {
    let mut effects = sample_effects();
    effects.remove(2);
    let (applied, pending) = apply_replacement_effects(&effects, &ReplacementEventKind::WouldDie, 0);
    assert_eq!(applied.len(), 1);
    assert_eq!(applied[0].description, "Exile instead of dying");
    assert!(pending.is_none());
}
