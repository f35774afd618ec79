use mtg_gto::card::{BasicEffect, CardType, Effect, TargetSpec, ZoneType};
use mtg_gto::mana::ManaCost;
use mtg_gto::scryfall::equip::parse_equip_cost;
use mtg_gto::scryfall::spell::parse_spell_effect;
use mtg_gto::scryfall::{scryfall_to_card_def, ScryfallCard};

fn single(b: BasicEffect) -> Option<Effect> {
    Some(Effect::Single(b))
}

fn card(name: &str, cost: &str, type_line: &str, text: &str) -> ScryfallCard {
    ScryfallCard {
        name: name.to_string(),
        mana_cost: Some(cost.to_string()),
        type_line: Some(type_line.to_string()),
        oracle_text: Some(text.to_string()),
        power: None,
        toughness: None,
        keywords: vec![],
        loyalty: None,
        colors: vec![],
        color_identity: vec![],
        layout: None,
        card_faces: None,
        legalities: None,
    }
}

#[test]
fn lightning_bolt_converts_with_its_damage() {
    let def = scryfall_to_card_def(
        &card("Lightning Bolt", "{R}", "Instant", "Lightning Bolt deals 3 damage to any target."),
        10_000,
    );
    assert_eq!(def.id, 10_000);
    assert_eq!(def.name, "Lightning Bolt");
    assert_eq!(def.mana_cost, Some(ManaCost::new(0, 0, 0, 0, 1, 0)));
    assert_eq!(def.card_types, vec![CardType::Instant]);
    assert_eq!(
        def.spell_effect,
        single(BasicEffect::DealDamage { amount: 3, target: TargetSpec::CreatureOrPlayer })
    );
    assert!(def.mana_abilities.is_empty());
    assert!(!def.enters_tapped);
}

#[test]
fn only_instants_and_sorceries_get_a_spell_effect() {
    let bears = scryfall_to_card_def(&card("Bears", "{1}{G}", "Creature \u{2014} Bear", "Draw a card."), 1);
    assert_eq!(bears.spell_effect, None);
    let divination = scryfall_to_card_def(&card("Divination", "{2}{U}", "Sorcery", "Draw two cards."), 2);
    assert_eq!(divination.spell_effect, single(BasicEffect::DrawCards { count: 2 }));
}

#[test]
fn spell_patterns_in_order() {
    assert_eq!(parse_spell_effect("Counter target spell."), single(BasicEffect::Counter { target: TargetSpec::AnySpell }));
    assert_eq!(parse_spell_effect("Destroy all creatures. They can't be regenerated."), single(BasicEffect::DestroyAll));
    assert_eq!(
        parse_spell_effect("Destroy target creature."),
        single(BasicEffect::DestroyTarget { target: TargetSpec::AnyCreature })
    );
    assert_eq!(
        parse_spell_effect("Exile target creature."),
        single(BasicEffect::ExileTarget { target: TargetSpec::AnyCreature })
    );
    assert_eq!(
        parse_spell_effect("Shock deals 2 damage to target creature."),
        single(BasicEffect::DealDamage { amount: 2, target: TargetSpec::AnyCreature })
    );
    assert_eq!(
        parse_spell_effect("Pyroclasm deals 2 damage to each creature."),
        single(BasicEffect::DealDamage { amount: 2, target: TargetSpec::EachCreature })
    );
    assert_eq!(parse_spell_effect("You gain 4 life."), single(BasicEffect::GainLife { amount: 4 }));
    assert_eq!(
        parse_spell_effect("Return target creature to its owner's hand."),
        single(BasicEffect::BounceTo { zone: ZoneType::Hand, target: TargetSpec::AnyCreature })
    );
    assert_eq!(
        parse_spell_effect("Target creature gets +3/+3 until end of turn."),
        single(BasicEffect::Buff { power: 3, toughness: 3, until_eot: true })
    );
    assert_eq!(
        parse_spell_effect("Target creature gets -2/-2."),
        single(BasicEffect::Debuff { power: -2, toughness: -2, until_eot: false })
    );
    assert_eq!(
        parse_spell_effect("Add {R}{R}{R}."),
        single(BasicEffect::AddMana { color: None, amount: 3 })
    );
    assert_eq!(
        parse_spell_effect("Target player discards two cards."),
        single(BasicEffect::DiscardCards { count: 2, target: TargetSpec::Opponent })
    );
    assert_eq!(
        parse_spell_effect("Fireball deals X damage divided as you choose."),
        Some(Effect::Unimplemented("Fireball deals X damage divided as you choose.".to_string()))
    );
    assert_eq!(parse_spell_effect(""), None);
}

#[test]
fn equipment_converts_with_its_equip_cost() {
    let def = scryfall_to_card_def(
        &card(
            "Bonesplitter",
            "{1}",
            "Artifact — Equipment",
            "Equipped creature gets +2/+0.\nEquip {1}",
        ),
        10_001,
    );
    assert_eq!(def.equip_cost, Some(ManaCost::new(1, 0, 0, 0, 0, 0)));
    let bolt = scryfall_to_card_def(
        &card("Lightning Bolt", "{R}", "Instant", "Lightning Bolt deals 3 damage to any target."),
        10_000,
    );
    assert_eq!(bolt.equip_cost, None);
}

#[test]
fn equip_costs_are_read_after_the_keyword() {
    assert_eq!(parse_equip_cost("Equip {2}{B}"), Some(ManaCost::new(2, 0, 0, 1, 0, 0)));
    assert_eq!(parse_equip_cost("equip {3}"), Some(ManaCost::new(3, 0, 0, 0, 0, 0)));
    // No written cost after the keyword.
    assert_eq!(parse_equip_cost("Equip—Pay 3 life."), None);
    assert_eq!(parse_equip_cost("Equip 3"), None);
    assert_eq!(parse_equip_cost("Flying"), None);
}
