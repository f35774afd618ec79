//! Card definitions, card instances and the card database.
use vstd::prelude::*;

use crate::mana::{Color, ManaCost, cost_colors};

pub mod sample;

verus! {

/// Identifies one card object in a game.
pub type ObjectId = u64;

/// Identifies a card definition in the card database.
pub type CardId = u64;

/// The zones a card can be in.
#[derive(Debug, Clone, Copy, PartialEq, Eq, Hash, Structural)]
pub enum ZoneType {
    Library,
    Hand,
    Battlefield,
    Graveyard,
    Exile,
    Stack,
    Command,
}

/// Card types.
#[derive(Debug, Clone, Copy, PartialEq, Eq, Hash, Structural)]
pub enum CardType {
    Creature,
    Instant,
    Sorcery,
    Enchantment,
    Artifact,
    Planeswalker,
    Land,
}

/// Supertypes.
#[derive(Debug, Clone, Copy, PartialEq, Eq, Hash, Structural)]
pub enum Supertype {
    Legendary,
    Basic,
    Snow,
}

/// A subtype such as "Goblin" or "Mountain".
#[derive(Debug, PartialEq, Eq, Hash)]
pub struct Subtype(pub String);

impl Clone for Subtype {
    fn clone(&self) -> (r: Self)
        ensures
            r.0@ == self.0@,
    {
        Subtype(self.0.clone())
    }
}

/// Keyword abilities.
#[derive(Debug, Clone, Copy, PartialEq, Eq, Hash, Structural)]
pub enum KeywordAbility {
    Flying,
    FirstStrike,
    DoubleStrike,
    Deathtouch,
    Haste,
    Hexproof,
    Indestructible,
    Lifelink,
    Menace,
    Reach,
    Trample,
    Vigilance,
    Defender,
    Flash,
    Fear,
    Intimidate,
    Shroud,
    Protection,
    Shadow,
    Horsemanship,
    Skulk,
    Wither,
    Infect,
    Toxic,
    Undying,
    Persist,
    Prowess,
    Changeling,
    Flanking,
    Ward,
    AffinityForArtifacts,
    Convoke,
    Delve,
    Partner,
}

/// What a mana ability produces when its source is tapped.
#[derive(Debug, Clone, PartialEq, Eq, Hash)]
pub enum ManaAbility {
    /// One mana of a fixed color.
    TapForColor(Color),
    /// One mana of one of the listed colors.
    TapForChoice(Vec<Color>),
    /// One mana of any color.
    TapForAny,
    /// One colorless mana.
    TapForColorless,
    /// Several colorless mana.
    TapForColorlessAmount(u32),
}

/// The objects a static ability affects.
#[derive(Debug, Clone, Copy, PartialEq, Eq, Hash, Structural)]
pub enum AffectedObjects {
    /// The creatures a player controls.
    CreaturesControlledBy(usize),
    /// The other creatures a player controls.
    OtherCreaturesControlledBy(usize),
    /// The object the source is attached to.
    AttachedTo,
}

/// Static abilities that the rules consult by kind.
#[derive(Debug, Clone, Copy, PartialEq, Eq, Hash, Structural)]
pub enum StaticAbility {
    /// The affected creatures get +power/+toughness.
    Anthem { power: i32, toughness: i32, affected: AffectedObjects },
    /// The affected creatures have a keyword.
    GrantKeyword { keyword: KeywordAbility, affected: AffectedObjects },
    /// Nonland mana sources its controller taps add one more mana.
    ManaFromNonlandBonus,
    /// Swamps its controller taps add one more black mana.
    ManaFromSwampBonus,
    /// Draws are replaced by revealing until a land (Abundance).
    AbundanceReplacement,
    /// Drawing into an empty hand draws two instead.
    PhialDrawDoubler,
    /// Draws are replaced by taking the top two cards.
    RenfieldDrawReplacement,
    /// Grants flying while in the graveyard (Wonder).
    WonderInGraveyard,
}

/// Which spells a cost reduction applies to.
#[derive(Debug, Clone, Copy, PartialEq, Eq, Hash, Structural)]
pub enum CostReductionTarget {
    AllSpells,
    CreatureSpells,
}

/// A static generic cost reduction for its controller's spells.
#[derive(Debug, Clone, Copy, PartialEq, Eq, Hash, Structural)]
pub struct CostReduction {
    pub applies_to: CostReductionTarget,
    pub generic_reduction: u32,
}

/// Which spells a tax applies to.
#[derive(Debug, Clone, Copy, PartialEq, Eq, Hash, Structural)]
pub enum CostIncreaseTarget {
    AllSpells,
    NoncreatureSpells,
    CreatureSpells,
}

/// A static generic cost increase (tax).
#[derive(Debug, Clone, Copy, PartialEq, Eq, Hash, Structural)]
pub struct CostIncrease {
    pub applies_to: CostIncreaseTarget,
    pub generic_increase: u32,
    /// When true the tax applies to the permanent's controller's spells,
    /// otherwise to the opponents' spells.
    pub affects_controller: bool,
}

/// What an effect may target.
#[derive(Debug, Clone, Copy, PartialEq, Eq, Hash, Structural)]
pub enum TargetSpec {
    AnySpell,
    AnyCreature,
    AnyNonlandPermanent,
    AnyPermanent,
    CreatureOrPlayer,
    AnyPlayer,
    EachCreature,
    Opponent,
    Controller,
}

/// A token kind the engine knows how to make.
#[derive(Debug, Clone, Copy, PartialEq, Eq, Hash, Structural)]
pub enum PredefinedToken {
    Treasure,
    Food,
    Clue,
}

/// One simple thing a spell does when it resolves.
#[derive(Debug, Clone, Copy, PartialEq, Eq, Hash, Structural)]
pub enum BasicEffect {
    Counter { target: TargetSpec },
    DestroyAll,
    DestroyTarget { target: TargetSpec },
    ExileTarget { target: TargetSpec },
    DealDamage { amount: u32, target: TargetSpec },
    DrawCards { count: u32 },
    GainLife { amount: u32 },
    BounceTo { zone: ZoneType, target: TargetSpec },
    Buff { power: i32, toughness: i32, until_eot: bool },
    Debuff { power: i32, toughness: i32, until_eot: bool },
    AddMana { color: Option<Color>, amount: u32 },
    DiscardCards { count: u32, target: TargetSpec },
    LoseLife { amount: u32, target: TargetSpec },
    CreatePredefinedToken { token_type: PredefinedToken, count: u32 },
}

/// What a spell does when it resolves: one simple effect, several in
/// order, or text the engine does not read.
#[derive(Debug, Clone, PartialEq, Eq, Hash)]
pub enum Effect {
    Single(BasicEffect),
    Multiple(Vec<BasicEffect>),
    Unimplemented(String),
}

/// An effect as a mathematical value.
pub enum EffectModel {
    Single(BasicEffect),
    Multiple(Seq<BasicEffect>),
    Unimplemented(Seq<char>),
}

impl View for Effect {
    type V = EffectModel;

    open spec fn view(&self) -> EffectModel {
        match self {
            Effect::Single(b) => EffectModel::Single(*b),
            Effect::Multiple(v) => EffectModel::Multiple(v@),
            Effect::Unimplemented(s) => EffectModel::Unimplemented(s@),
        }
    }
}

/// What makes a triggered ability trigger.
#[derive(Debug, Clone, Copy, PartialEq, Eq, Hash, Structural)]
pub enum TriggerCondition {
    /// This permanent enters the battlefield.
    EntersBattlefield,
    /// A creature (or another creature) enters the battlefield.
    ACreatureEnters,
    /// A creature (or another creature) dies.
    ACreatureDies,
    /// A creature its controller controls dies.
    ACreatureYouControlDies,
    /// This creature dies.
    Dies,
    /// This creature attacks alone.
    AttacksAlone,
    /// This creature attacks.
    Attacks,
    /// The beginning of an upkeep.
    BeginningOfUpkeep,
    /// The beginning of combat.
    BeginningOfCombat,
    /// The beginning of an end step.
    EndOfTurn,
    /// This creature deals combat damage to a player.
    DealsCombatDamageToPlayer,
    /// This creature deals combat damage.
    DealsCombatDamage,
    /// This permanent deals damage.
    DealsDamage,
    /// Its controller casts a creature spell.
    YouCastCreatureSpell,
    /// Its controller casts a spell.
    YouCastSpell,
    /// An opponent casts a noncreature spell.
    OpponentCastsNoncreatureSpell,
    /// An opponent casts a spell.
    OpponentCastsSpell,
    /// An opponent draws a card.
    OpponentDrawsCard,
}

/// A triggered ability: its trigger, its effect, and the text it was read from.
#[derive(Debug, Clone, PartialEq, Eq, Hash)]
pub struct TriggeredAbility {
    pub trigger: TriggerCondition,
    pub effect: Effect,
    pub description: String,
}

/// A triggered ability as a mathematical value.
pub type TriggerModel = (TriggerCondition, EffectModel, Seq<char>);

impl View for TriggeredAbility {
    type V = TriggerModel;

    open spec fn view(&self) -> TriggerModel {
        (self.trigger, self.effect@, self.description@)
    }
}

/// A sacrifice an activated ability's cost asks for.
#[derive(Debug, Clone, Copy, PartialEq, Eq, Hash, Structural)]
pub enum SacrificeCost {
    /// Sacrifice a creature.
    AnyCreature,
}

/// An activated ability: its mana cost, whether it taps its source, the
/// sacrifice it asks for, its effect, and the text it was read from.
#[derive(Debug, Clone, PartialEq, Eq, Hash)]
pub struct ActivatedAbility {
    pub cost: ManaCost,
    pub requires_tap: bool,
    pub sacrifice_cost: Option<SacrificeCost>,
    pub effect: Effect,
    pub description: String,
}

/// An activated ability as a mathematical value.
pub type ActivatedModel = (ManaCost, bool, Option<SacrificeCost>, EffectModel, Seq<char>);

impl View for ActivatedAbility {
    type V = ActivatedModel;

    open spec fn view(&self) -> ActivatedModel {
        (self.cost, self.requires_tap, self.sacrifice_cost, self.effect@, self.description@)
    }
}

/// Whether a simple effect removes a permanent (damage or destruction).
pub open spec fn basic_is_removal(e: BasicEffect) -> bool {
    match e {
        BasicEffect::DealDamage { .. } => true,
        BasicEffect::DestroyTarget { .. } => true,
        _ => false,
    }
}

/// Whether an effect removes a permanent, looking inside combined effects.
pub open spec fn effect_is_removal(e: Effect) -> bool {
    match e {
        Effect::Single(b) => basic_is_removal(b),
        Effect::Multiple(v) => exists|i: int| 0 <= i < v@.len() && basic_is_removal(#[trigger] v@[i]),
        Effect::Unimplemented(_) => false,
    }
}

/// Whether an effect is removal (damage or destroy).
#[verifier::loop_isolation(false)]
pub fn is_removal_effect(effect: &Effect) -> (r: bool)
    ensures
        r == effect_is_removal(*effect),
{
    match effect {
        Effect::Single(b) => {
            match b {
                BasicEffect::DealDamage { .. } => true,
                BasicEffect::DestroyTarget { .. } => true,
                _ => false,
            }
        },
        Effect::Multiple(effects) => {
            let mut i: usize = 0;
            while i < effects.len()
                invariant
                    i <= effects@.len(),
                    forall|k: int| 0 <= k < i ==> !basic_is_removal(#[trigger] effects@[k]),
                decreases effects.len() - i,
            {
                match effects[i] {
                    BasicEffect::DealDamage { .. } => {
                        assert(basic_is_removal(effects@[i as int]));
                        return true;
                    },
                    BasicEffect::DestroyTarget { .. } => {
                        assert(basic_is_removal(effects@[i as int]));
                        return true;
                    },
                    _ => {},
                }
                i = i + 1;
            }
            false
        },
        Effect::Unimplemented(_) => false,
    }
}

/// A card definition: the printed characteristics of a card.
#[derive(Debug, Clone)]
pub struct CardDef {
    pub id: CardId,
    pub name: String,
    pub mana_cost: Option<ManaCost>,
    pub card_types: Vec<CardType>,
    pub supertypes: Vec<Supertype>,
    pub subtypes: Vec<Subtype>,
    pub keywords: Vec<KeywordAbility>,
    pub power: Option<i32>,
    pub toughness: Option<i32>,
    pub mana_abilities: Vec<ManaAbility>,
    pub spell_effect: Option<Effect>,
    pub starting_loyalty: Option<u32>,
    pub enters_tapped: bool,
    pub oracle_text: String,
    pub cost_reduction: Option<CostReduction>,
    pub cost_increase: Option<CostIncrease>,
    pub static_abilities: Vec<StaticAbility>,
    /// The cost of the equip ability, for equipment.
    pub equip_cost: Option<ManaCost>,
    /// The triggered abilities read from the oracle text.
    pub triggered_abilities: Vec<TriggeredAbility>,
    /// The activated abilities read from the oracle text.
    pub activated_abilities: Vec<ActivatedAbility>,
}

/// Whether a list of card types holds a given type.
pub fn has_card_type(v: &Vec<CardType>, t: CardType) -> (r: bool)
    ensures
        r == v@.contains(t),
{
    let mut i: usize = 0;
    while i < v.len()
        invariant
            i <= v@.len(),
            forall|k: int| 0 <= k < i ==> v@[k] != t,
        decreases v.len() - i,
    {
        if v[i] == t {
            return true;
        }
        i = i + 1;
    }
    false
}

/// Whether a list of supertypes holds a given supertype.
pub fn has_supertype(v: &Vec<Supertype>, t: Supertype) -> (r: bool)
    ensures
        r == v@.contains(t),
{
    let mut i: usize = 0;
    while i < v.len()
        invariant
            i <= v@.len(),
            forall|k: int| 0 <= k < i ==> v@[k] != t,
        decreases v.len() - i,
    {
        if v[i] == t {
            return true;
        }
        i = i + 1;
    }
    false
}

/// Whether a list of keywords holds a given keyword.
pub fn has_keyword_in(v: &Vec<KeywordAbility>, t: KeywordAbility) -> (r: bool)
    ensures
        r == v@.contains(t),
{
    let mut i: usize = 0;
    while i < v.len()
        invariant
            i <= v@.len(),
            forall|k: int| 0 <= k < i ==> v@[k] != t,
        decreases v.len() - i,
    {
        if v[i] == t {
            return true;
        }
        i = i + 1;
    }
    false
}

impl CardDef {
    pub open spec fn is_creature_spec(&self) -> bool {
        self.card_types@.contains(CardType::Creature)
    }

    pub open spec fn is_land_spec(&self) -> bool {
        self.card_types@.contains(CardType::Land)
    }

    pub open spec fn is_artifact_spec(&self) -> bool {
        self.card_types@.contains(CardType::Artifact)
    }

    pub open spec fn is_legendary_spec(&self) -> bool {
        self.supertypes@.contains(Supertype::Legendary)
    }

    pub open spec fn is_basic_land_spec(&self) -> bool {
        self.is_land_spec() && self.supertypes@.contains(Supertype::Basic)
    }

    pub open spec fn has_keyword_spec(&self, k: KeywordAbility) -> bool {
        self.keywords@.contains(k)
    }

    /// The mana value: that of the mana cost, or zero without one.
    pub open spec fn cmc_spec(&self) -> int {
        match self.mana_cost {
            Some(c) => c.cmc_spec(),
            None => 0,
        }
    }

    /// The color identity: the colors of the mana cost.
    pub open spec fn color_identity_spec(&self) -> Seq<Color> {
        match self.mana_cost {
            Some(c) => cost_colors(c),
            None => Seq::empty(),
        }
    }

    /// Whether the cost fits in a `u32`.
    pub open spec fn cost_fits(&self) -> bool {
        self.cmc_spec() <= u32::MAX
    }

    pub fn is_creature(&self) -> (r: bool)
        ensures
            r == self.is_creature_spec(),
    {
        has_card_type(&self.card_types, CardType::Creature)
    }

    pub fn is_land(&self) -> (r: bool)
        ensures
            r == self.is_land_spec(),
    {
        has_card_type(&self.card_types, CardType::Land)
    }

    pub fn is_artifact(&self) -> (r: bool)
        ensures
            r == self.is_artifact_spec(),
    {
        has_card_type(&self.card_types, CardType::Artifact)
    }

    pub fn is_legendary(&self) -> (r: bool)
        ensures
            r == self.is_legendary_spec(),
    {
        has_supertype(&self.supertypes, Supertype::Legendary)
    }

    pub fn is_basic_land(&self) -> (r: bool)
        ensures
            r == self.is_basic_land_spec(),
    {
        self.is_land() && has_supertype(&self.supertypes, Supertype::Basic)
    }

    pub fn has_keyword(&self, k: KeywordAbility) -> (r: bool)
        ensures
            r == self.has_keyword_spec(k),
    {
        has_keyword_in(&self.keywords, k)
    }

    /// Mana value of the card.
    pub fn cmc(&self) -> (r: u32)
        requires
            self.cost_fits(),
        ensures
            r == self.cmc_spec(),
    {
        match &self.mana_cost {
            Some(c) => c.cmc(),
            None => 0,
        }
    }

    /// The color identity of the card.
    pub fn color_identity(&self) -> (r: Vec<Color>)
        ensures
            r@ == self.color_identity_spec(),
    {
        match &self.mana_cost {
            Some(c) => c.colors(),
            None => Vec::new(),
        }
    }
}

/// One card object in a game, with its game-specific state.
#[derive(Debug, Clone, Copy, PartialEq, Eq, Structural)]
pub struct CardInstance {
    pub id: ObjectId,
    pub card_def_id: CardId,
    pub owner: usize,
    pub controller: usize,
    pub tapped: bool,
    pub summoning_sick: bool,
    pub damage_marked: u32,
    pub plus_counters: i32,
    pub minus_counters: i32,
    pub loyalty_counters: u32,
    pub temp_power_mod: i32,
    pub temp_toughness_mod: i32,
    pub zone_change_count: u32,
    pub exiled_by: Option<ObjectId>,
    pub attached_to: Option<ObjectId>,
    pub is_token: bool,
}

/// A fresh instance of a card, owned and controlled by `owner`.
pub open spec fn fresh_instance(id: ObjectId, card_def_id: CardId, owner: usize) -> CardInstance {
    CardInstance {
        id,
        card_def_id,
        owner,
        controller: owner,
        tapped: false,
        summoning_sick: false,
        damage_marked: 0,
        plus_counters: 0,
        minus_counters: 0,
        loyalty_counters: 0,
        temp_power_mod: 0,
        temp_toughness_mod: 0,
        zone_change_count: 0,
        exiled_by: None,
        attached_to: None,
        is_token: false,
    }
}

impl CardInstance {
    pub fn new(id: ObjectId, card_def_id: CardId, owner: usize) -> (r: CardInstance)
        ensures
            r == fresh_instance(id, card_def_id, owner),
    {
        CardInstance {
            id,
            card_def_id,
            owner,
            controller: owner,
            tapped: false,
            summoning_sick: false,
            damage_marked: 0,
            plus_counters: 0,
            minus_counters: 0,
            loyalty_counters: 0,
            temp_power_mod: 0,
            temp_toughness_mod: 0,
            zone_change_count: 0,
            exiled_by: None,
            attached_to: None,
            is_token: false,
        }
    }
}

/// The first definition with a given id, searching from the front.
pub open spec fn lookup_in(cards: Seq<CardDef>, id: CardId) -> Option<CardDef>
    decreases cards.len(),
{
    if cards.len() == 0 {
        None
    } else if cards[0].id == id {
        Some(cards[0])
    } else {
        lookup_in(cards.drop_first(), id)
    }
}

/// The first id whose definition has a given name, searching from the front.
pub open spec fn find_name_in(cards: Seq<CardDef>, name: Seq<char>) -> Option<CardId>
    decreases cards.len(),
{
    if cards.len() == 0 {
        None
    } else if cards[0].name@ == name {
        Some(cards[0].id)
    } else {
        find_name_in(cards.drop_first(), name)
    }
}

/// The first definition with a given name, searching from the front.
pub open spec fn first_named(cards: Seq<CardDef>, name: Seq<char>) -> Option<CardDef>
    decreases cards.len(),
{
    if cards.len() == 0 {
        None
    } else if cards[0].name@ == name {
        Some(cards[0])
    } else {
        first_named(cards.drop_first(), name)
    }
}

/// A definition of a given name is found exactly when one of the names is
/// that name, and it has that name.
pub proof fn lemma_first_named(cards: Seq<CardDef>, name: Seq<char>)
    ensures
        (first_named(cards, name) is Some) == cards.map_values(|d: CardDef| d.name@).contains(name),
        first_named(cards, name) matches Some(d) ==> d.name@ == name,
    decreases cards.len(),
{
    let names = cards.map_values(|d: CardDef| d.name@);
    if cards.len() > 0 {
        lemma_first_named(cards.drop_first(), name);
        let rest = cards.drop_first().map_values(|d: CardDef| d.name@);
        assert(rest =~= names.drop_first());
        if names.contains(name) && names[0] != name {
            let k = choose|k: int| 0 <= k < names.len() && names[k] == name;
            assert(rest[k - 1] == name);
        }
        if rest.contains(name) {
            let k = choose|k: int| 0 <= k < rest.len() && rest[k] == name;
            assert(names[k + 1] == name);
        }
        if names[0] == name {
            assert(names.contains(name));
        }
    }
}

/// The card definitions of a game, shared and immutable during play.
#[derive(Debug, Clone)]
pub struct CardDatabase {
    pub cards: Vec<CardDef>,
}

impl CardDatabase {
    /// The definition stored under an id.
    pub open spec fn lookup(&self, id: CardId) -> Option<CardDef> {
        lookup_in(self.cards@, id)
    }

    pub fn new() -> (r: CardDatabase)
        ensures
            r.cards@.len() == 0,
    {
        CardDatabase { cards: Vec::new() }
    }

    /// Look up a definition by id.
    pub fn get(&self, id: CardId) -> (r: Option<&CardDef>)
        ensures
            match r {
                Some(d) => self.lookup(id) == Some(*d),
                None => self.lookup(id) is None,
            },
    {
        let mut i: usize = 0;
        assert(self.cards@.skip(0) =~= self.cards@);
        while i < self.cards.len()
            invariant
                i <= self.cards@.len(),
                lookup_in(self.cards@, id) == lookup_in(self.cards@.skip(i as int), id),
            decreases self.cards.len() - i,
        {
            assert(self.cards@.skip(i as int).drop_first() =~= self.cards@.skip(i + 1));
            if self.cards[i].id == id {
                return Some(&self.cards[i]);
            }
            i = i + 1;
        }
        None
    }

    /// Add a definition, replacing the one stored under the same id.
    pub fn insert(&mut self, def: CardDef)
        ensures
            final(self).lookup(def.id) == Some(def),
            forall|k: CardId| k != def.id ==> final(self).lookup(k) == old(self).lookup(k),
    {
        let ghost id = def.id;
        let mut i: usize = 0;
        while i < self.cards.len()
            invariant
                i <= self.cards@.len(),
                self.cards@ == old(self).cards@,
                id == def.id,
                forall|k: int| 0 <= k < i ==> self.cards@[k].id != id,
            decreases self.cards.len() - i,
        {
            if self.cards[i].id == def.id {
                proof {
                    lemma_lookup_replace(self.cards@, i as int, def);
                }
                self.cards.set(i, def);
                return;
            }
            i = i + 1;
        }
        proof {
            lemma_lookup_push(self.cards@, def);
        }
        self.cards.push(def);
    }

    /// The id of the first definition with the given name.
    pub fn find_by_name(&self, name: &str) -> (r: Option<CardId>)
        ensures
            r == find_name_in(self.cards@, name@),
    {
        let mut i: usize = 0;
        assert(self.cards@.skip(0) =~= self.cards@);
        while i < self.cards.len()
            invariant
                i <= self.cards@.len(),
                find_name_in(self.cards@, name@) == find_name_in(self.cards@.skip(i as int), name@),
            decreases self.cards.len() - i,
        {
            assert(self.cards@.skip(i as int).drop_first() =~= self.cards@.skip(i + 1));
            if crate::text::str_eq(self.cards[i].name.as_str(), name) {
                return Some(self.cards[i].id);
            }
            i = i + 1;
        }
        None
    }

    /// The first definition with the given name, taken out of the database.
    pub fn into_named(self, name: &str) -> (r: Option<CardDef>)
        ensures
            r == first_named(self.cards@, name@),
    {
        let ghost all = self.cards@;
        let mut cards = self.cards;
        let mut i: usize = 0;
        assert(all.skip(0) =~= all);
        while i < cards.len()
            invariant
                i <= cards@.len(),
                cards@ == all,
                all == self.cards@,
                first_named(all, name@) == first_named(all.skip(i as int), name@),
            decreases cards.len() - i,
        {
            assert(all.skip(i as int).drop_first() =~= all.skip(i + 1));
            assert(all.skip(i as int)[0] == all[i as int]);
            if crate::text::str_eq(cards[i].name.as_str(), name) {
                let d = cards.remove(i);
                assert(d == all[i as int]);
                return Some(d);
            }
            i = i + 1;
        }
        None
    }
}

proof fn lemma_lookup_replace(cards: Seq<CardDef>, i: int, def: CardDef)
    requires
        0 <= i < cards.len(),
        cards[i].id == def.id,
        forall|k: int| 0 <= k < i ==> cards[k].id != def.id,
    ensures
        lookup_in(cards.update(i, def), def.id) == Some(def),
        forall|k: CardId| k != def.id ==> lookup_in(cards.update(i, def), k) == lookup_in(cards, k),
    decreases cards.len(),
{
    if i == 0 {
        assert(cards.update(i, def).drop_first() =~= cards.drop_first());
    } else {
        assert(cards.update(i, def).drop_first() =~= cards.drop_first().update(i - 1, def));
        lemma_lookup_replace(cards.drop_first(), i - 1, def);
    }
    assert forall|k: CardId| k != def.id implies lookup_in(cards.update(i, def), k) == lookup_in(
        cards,
        k,
    ) by {
        lemma_lookup_replace_other(cards, i, def, k);
    }
}

proof fn lemma_lookup_replace_other(cards: Seq<CardDef>, i: int, def: CardDef, k: CardId)
    requires
        0 <= i < cards.len(),
        cards[i].id == def.id,
        k != def.id,
    ensures
        lookup_in(cards.update(i, def), k) == lookup_in(cards, k),
    decreases cards.len(),
{
    if i == 0 {
        assert(cards.update(i, def).drop_first() =~= cards.drop_first());
    } else {
        assert(cards.update(i, def).drop_first() =~= cards.drop_first().update(i - 1, def));
        lemma_lookup_replace_other(cards.drop_first(), i - 1, def, k);
    }
}

proof fn lemma_lookup_push(cards: Seq<CardDef>, def: CardDef)
    requires
        forall|k: int| 0 <= k < cards.len() ==> cards[k].id != def.id,
    ensures
        lookup_in(cards.push(def), def.id) == Some(def),
        forall|k: CardId| k != def.id ==> lookup_in(cards.push(def), k) == lookup_in(cards, k),
    decreases cards.len(),
{
    if cards.len() == 0 {
        assert(cards.push(def).drop_first() =~= Seq::<CardDef>::empty());
    } else {
        assert(cards.push(def).drop_first() =~= cards.drop_first().push(def));
        lemma_lookup_push(cards.drop_first(), def);
    }
    assert forall|k: CardId| k != def.id implies lookup_in(cards.push(def), k) == lookup_in(
        cards,
        k,
    ) by {
        lemma_lookup_push_other(cards, def, k);
    }
}

proof fn lemma_lookup_push_other(cards: Seq<CardDef>, def: CardDef, k: CardId)
    requires
        k != def.id,
    ensures
        lookup_in(cards.push(def), k) == lookup_in(cards, k),
    decreases cards.len(),
{
    if cards.len() == 0 {
        assert(cards.push(def)[0] == def);
        assert(cards.push(def).drop_first() =~= Seq::<CardDef>::empty());
        assert(lookup_in(Seq::<CardDef>::empty(), k) is None);
    } else {
        assert(cards.push(def)[0] == cards[0]);
        assert(cards.push(def).drop_first() =~= cards.drop_first().push(def));
        lemma_lookup_push_other(cards.drop_first(), def, k);
    }
}

} // verus!
