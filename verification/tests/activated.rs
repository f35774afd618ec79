use mtg_gto::card::{ActivatedAbility, BasicEffect, Effect, SacrificeCost, TargetSpec};
use mtg_gto::mana::ManaCost;
use mtg_gto::scryfall::activated::{activated_line, parse_activated_abilities};

#[test]
fn a_tap_ability_with_mana_is_read() {
    let line = "{2}, {T}: Target player loses 2 life.";
    assert_eq!(
        parse_activated_abilities(line),
        vec![ActivatedAbility {
            cost: ManaCost::new(2, 0, 0, 0, 0, 0),
            requires_tap: true,
            sacrifice_cost: None,
            effect: Effect::Single(BasicEffect::LoseLife { amount: 2, target: TargetSpec::Opponent }),
            description: line.to_string(),
        }]
    );
}

#[test]
fn a_sacrifice_ability_keeps_its_written_effect() {
    let line = "{B}, Sacrifice a creature: Scry 1.";
    assert_eq!(
        activated_line(line, "{b}, sacrifice a creature: scry 1."),
        Some(ActivatedAbility {
            cost: ManaCost::new(0, 0, 0, 1, 0, 0),
            requires_tap: false,
            sacrifice_cost: Some(SacrificeCost::AnyCreature),
            effect: Effect::Unimplemented("Scry 1.".to_string()),
            description: line.to_string(),
        })
    );
}

#[test]
fn lines_that_are_not_activated_abilities_give_nothing() {
    assert!(parse_activated_abilities("Flying\nWhen this enters, draw a card.\nEquip {2}").is_empty());
    assert!(parse_activated_abilities("Equip: {1}").is_empty());
    assert!(parse_activated_abilities("Kicker—Pay 2 life: nothing").is_empty());
    let tap = parse_activated_abilities("{T}: Add {G}.");
    assert_eq!(tap.len(), 1);
    assert_eq!(tap[0].cost, ManaCost::new(0, 0, 0, 0, 0, 0));
    assert!(tap[0].requires_tap);
    assert_eq!(tap[0].effect, Effect::Single(BasicEffect::AddMana { color: None, amount: 1 }));
}
