use mtg_gto::card::{BasicEffect, Effect, PredefinedToken, TargetSpec, TriggerCondition, TriggeredAbility};
use mtg_gto::scryfall::triggers::{line_triggers, parse_etb_effect, parse_inline_effect, parse_triggered_abilities};
use mtg_gto::scryfall::{scryfall_to_card_def, ScryfallCard};

fn ability(trigger: TriggerCondition, effect: BasicEffect, line: &str) -> TriggeredAbility {
    TriggeredAbility { trigger, effect: Effect::Single(effect), description: line.to_string() }
}

#[test]
fn an_etb_draw_is_read() {
    let text = "When Elvish Visionary enters the battlefield, draw a card.";
    assert_eq!(
        parse_triggered_abilities(text),
        vec![ability(TriggerCondition::EntersBattlefield, BasicEffect::DrawCards { count: 1 }, text)]
    );
}

#[test]
fn each_line_gives_its_trigger() {
    let text = "Flying\nWhenever an opponent draws a card, you may draw two cards.\nAt the beginning of your upkeep, you lose 1 life.";
    assert_eq!(
        parse_triggered_abilities(text),
        vec![
            ability(
                TriggerCondition::OpponentDrawsCard,
                BasicEffect::DrawCards { count: 2 },
                "Whenever an opponent draws a card, you may draw two cards."
            ),
            ability(
                TriggerCondition::BeginningOfUpkeep,
                BasicEffect::LoseLife { amount: 1, target: TargetSpec::Opponent },
                "At the beginning of your upkeep, you lose 1 life."
            ),
        ]
    );
}

#[test]
fn a_dies_trigger_makes_a_treasure() {
    let text = "When this creature dies, create a Treasure token.";
    assert_eq!(
        parse_triggered_abilities(text),
        vec![ability(
            TriggerCondition::Dies,
            BasicEffect::CreatePredefinedToken { token_type: PredefinedToken::Treasure, count: 1 },
            text
        )]
    );
}

#[test]
fn attack_and_combat_damage_triggers() {
    assert_eq!(
        line_triggers("Whenever this attacks alone, it gets +2/+0 until end of turn.", "whenever this attacks alone, it gets +2/+0 until end of turn."),
        vec![ability(
            TriggerCondition::AttacksAlone,
            BasicEffect::Buff { power: 2, toughness: 0, until_eot: true },
            "Whenever this attacks alone, it gets +2/+0 until end of turn."
        )]
    );
    let line = "Whenever this deals combat damage to a player, draw a card.";
    assert_eq!(
        line_triggers(line, "whenever this deals combat damage to a player, draw a card."),
        vec![ability(TriggerCondition::DealsCombatDamageToPlayer, BasicEffect::DrawCards { count: 1 }, line)]
    );
}

#[test]
fn a_trigger_with_nothing_after_keeps_its_line() {
    let line = "Whenever a creature dies";
    assert_eq!(
        parse_triggered_abilities(line),
        vec![TriggeredAbility {
            trigger: TriggerCondition::ACreatureDies,
            effect: Effect::Unimplemented(line.to_string()),
            description: line.to_string(),
        }]
    );
}

#[test]
fn the_whole_text_is_read_when_no_line_triggers() {
    let text = "Flash\nThis enters the battlefield tapped.";
    assert_eq!(
        parse_triggered_abilities(text),
        vec![TriggeredAbility {
            trigger: TriggerCondition::EntersBattlefield,
            effect: Effect::Unimplemented("tapped.".to_string()),
            description: text.to_string(),
        }]
    );
    assert!(parse_triggered_abilities("Flying").is_empty());
}

#[test]
fn inline_and_etb_effects() {
    assert_eq!(
        parse_inline_effect("it deals 2 damage to each opponent."),
        Effect::Single(BasicEffect::DealDamage { amount: 2, target: TargetSpec::Opponent })
    );
    assert_eq!(parse_inline_effect("scry 2."), Effect::Unimplemented("scry 2.".to_string()));
    assert_eq!(
        parse_etb_effect("when it enters, it deals 3 damage to target player."),
        Some(Effect::Single(BasicEffect::DealDamage { amount: 3, target: TargetSpec::AnyPlayer }))
    );
    assert_eq!(parse_etb_effect("flying"), None);
}

#[test]
fn a_converted_creature_carries_its_triggers() {
    let card = ScryfallCard {
        name: "Elvish Visionary".to_string(),
        mana_cost: Some("{1}{G}".to_string()),
        type_line: Some("Creature — Elf Shaman".to_string()),
        oracle_text: Some("When Elvish Visionary enters the battlefield, draw a card.".to_string()),
        power: Some("1".to_string()),
        toughness: Some("1".to_string()),
        keywords: vec![],
        loyalty: None,
        colors: vec![],
        color_identity: vec![],
        layout: None,
        card_faces: None,
        legalities: None,
    };
    let def = scryfall_to_card_def(&card, 20_000);
    assert_eq!(def.triggered_abilities.len(), 1);
    assert_eq!(def.triggered_abilities[0].trigger, TriggerCondition::EntersBattlefield);
}
