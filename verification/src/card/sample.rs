//! A small hand-written card database for examples and tests.
use vstd::prelude::*;

use crate::card::{
    BasicEffect, CardDatabase, TargetSpec, CardDef, CardId, CardType, Effect, KeywordAbility, ManaAbility,
    Subtype, Supertype,
};
use crate::mana::{Color, ManaCost};

pub mod ids;

verus! {

/// A card definition with every optional part left empty.
fn blank_def(id: CardId, name: &str) -> (r: CardDef)
    ensures
        r.id == id,
        r.name@ == name@,
        r.card_types@.len() == 0,
        r.supertypes@.len() == 0,
        r.keywords@.len() == 0,
        r.mana_cost is None,
{
    CardDef {
        id,
        name: String::from_str(name),
        mana_cost: None,
        card_types: Vec::new(),
        supertypes: Vec::new(),
        subtypes: Vec::new(),
        keywords: Vec::new(),
        power: None,
        toughness: None,
        mana_abilities: Vec::new(),
        spell_effect: None,
        starting_loyalty: None,
        enters_tapped: false,
        oracle_text: String::new(),
        cost_reduction: None,
        cost_increase: None,
        static_abilities: Vec::new(),
        equip_cost: None,
        triggered_abilities: Vec::new(),
        activated_abilities: Vec::new(),
    }
}

/// A basic land that taps for one mana of its color.
fn basic_land(id: CardId, name: &str, color: Color) -> (r: CardDef)
    ensures
        r.id == id,
        r.name@ == name@,
        r.is_land_spec(),
        !r.is_creature_spec(),
        r.is_basic_land_spec(),
        r.mana_cost is None,
{
    let mut d = blank_def(id, name);
    d.card_types.push(CardType::Land);
    d.supertypes.push(Supertype::Basic);
    d.subtypes.push(Subtype(String::from_str(name)));
    d.mana_abilities.push(ManaAbility::TapForColor(color));
    assert(d.card_types@ =~= seq![CardType::Land]);
    assert(d.supertypes@ =~= seq![Supertype::Basic]);
    assert(d.card_types@[0] == CardType::Land);
    assert(d.supertypes@[0] == Supertype::Basic);
    d
}

/// The names of the sample cards, in database order.
pub open spec fn sample_names() -> Seq<Seq<char>> {
    seq![
        "Mountain"@,
        "Forest"@,
        "Island"@,
        "Plains"@,
        "Swamp"@,
        "Lightning Bolt"@,
        "Grey Ogre"@,
        "Llanowar Elves"@,
    ]
}

/// The sample database: the five basic lands, Lightning Bolt, Grey Ogre and
/// Llanowar Elves.
pub fn build_sample_db() -> (r: CardDatabase)
    ensures
        r.cards@.len() == 8,
        forall|i: int| 0 <= i < 8 ==> (#[trigger] r.cards@[i]).cost_fits(),
        r.cards@.map_values(|d: CardDef| d.name@) == sample_names(),
{
    let mut cards: Vec<CardDef> = Vec::new();
    cards.push(basic_land(ids::MOUNTAIN, "Mountain", Color::Red));
    cards.push(basic_land(ids::FOREST, "Forest", Color::Green));
    cards.push(basic_land(ids::ISLAND, "Island", Color::Blue));
    cards.push(basic_land(ids::PLAINS, "Plains", Color::White));
    cards.push(basic_land(ids::SWAMP, "Swamp", Color::Black));

    let mut bolt = blank_def(ids::LIGHTNING_BOLT, "Lightning Bolt");
    bolt.mana_cost = Some(ManaCost::new(0, 0, 0, 0, 1, 0));
    bolt.card_types.push(CardType::Instant);
    bolt.spell_effect = Some(Effect::Single(BasicEffect::DealDamage { amount: 3, target: TargetSpec::CreatureOrPlayer }));
    bolt.oracle_text = String::from_str("Lightning Bolt deals 3 damage to any target.");
    cards.push(bolt);

    let mut ogre = blank_def(ids::GREY_OGRE, "Grey Ogre");
    ogre.mana_cost = Some(ManaCost::new(2, 0, 0, 0, 1, 0));
    ogre.card_types.push(CardType::Creature);
    ogre.subtypes.push(Subtype(String::from_str("Ogre")));
    ogre.power = Some(2);
    ogre.toughness = Some(2);
    cards.push(ogre);

    let mut elves = blank_def(ids::LLANOWAR_ELVES, "Llanowar Elves");
    elves.mana_cost = Some(ManaCost::new(0, 0, 0, 0, 0, 1));
    elves.card_types.push(CardType::Creature);
    elves.subtypes.push(Subtype(String::from_str("Elf")));
    elves.subtypes.push(Subtype(String::from_str("Druid")));
    elves.power = Some(1);
    elves.toughness = Some(1);
    elves.mana_abilities.push(ManaAbility::TapForColor(Color::Green));
    elves.oracle_text = String::from_str("{T}: Add {G}.");
    cards.push(elves);
    assert(cards@.map_values(|d: CardDef| d.name@) =~= sample_names());
    CardDatabase { cards }
}

} // verus!
