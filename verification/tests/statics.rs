use mtg_gto::card::{AffectedObjects, KeywordAbility, StaticAbility};
use mtg_gto::scryfall::statics::{parse_static_abilities, static_line};

#[test]
fn an_anthem_is_read() {
    assert_eq!(
        parse_static_abilities("Creatures you control get +1/+1."),
        vec![StaticAbility::Anthem { power: 1, toughness: 1, affected: AffectedObjects::CreaturesControlledBy(0) }]
    );
}

#[test]
fn equipment_grants_a_buff_and_a_keyword() {
    assert_eq!(
        parse_static_abilities("Equipped creature gets +2/+2 and has flying.\nEquip {3}"),
        vec![
            StaticAbility::Anthem { power: 2, toughness: 2, affected: AffectedObjects::AttachedTo },
            StaticAbility::GrantKeyword { keyword: KeywordAbility::Flying, affected: AffectedObjects::AttachedTo },
        ]
    );
}

#[test]
fn other_creatures_and_skipped_lines() {
    assert_eq!(
        static_line("other creatures you control have vigilance."),
        vec![StaticAbility::GrantKeyword {
            keyword: KeywordAbility::Vigilance,
            affected: AffectedObjects::OtherCreaturesControlledBy(0)
        }]
    );
    // Triggers, activated abilities and unrecognised buffs give nothing.
    assert!(static_line("when this enters, creatures you control get +1/+1.").is_empty());
    assert!(static_line("{t}: target creature gets +1/+1.").is_empty());
    assert!(static_line("target creature gets +3/+3 and has trample.").is_empty());
    assert!(parse_static_abilities("Flying").is_empty());
}
