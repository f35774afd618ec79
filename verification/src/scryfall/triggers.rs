//! Reading triggered abilities from oracle text: each line that starts a
//! trigger ("When ~ enters", "Whenever ~ dies", "At the beginning of your
//! upkeep", ...) gives one ability, whose effect is read from the words
//! after the trigger.
use vstd::prelude::*;

use crate::card::{
    BasicEffect, Effect, EffectModel, PredefinedToken, TargetSpec, TriggerCondition, TriggerModel,
    TriggeredAbility, ZoneType,
};
use crate::scryfall::count_mana_symbols;
use crate::scryfall::mana_symbol_total;
use crate::scryfall::spell::{
    buff_exec, buff_in, damage_amount, damage_amount_exec, has_str, number_before, number_before_exec,
    starts_chars,
};
use crate::text::{
    chars_from, chars_of, find_chars, find_from, has, lines, lowercase, split_lines, starts_with,
    string_from_chars, to_lowercase,
};

verus! {

/// A count read before a noun, 1 when none is written.
pub open spec fn count_or_one(text: Seq<char>, noun: Seq<char>) -> u32 {
    match number_before(text, noun) {
        Some(n) => n,
        None => 1,
    }
}

/// The target of a damage effect in an ability's text.
pub open spec fn inline_damage_target(text: Seq<char>) -> TargetSpec {
    if has(text, "any target"@) || has(text, "target creature or player"@) {
        TargetSpec::CreatureOrPlayer
    } else if has(text, "target creature"@) {
        TargetSpec::AnyCreature
    } else if has(text, "each opponent"@) || has(text, "target opponent"@) {
        TargetSpec::Opponent
    } else {
        TargetSpec::AnyPlayer
    }
}

/// The token an ability's text creates, by the first kind named.
pub open spec fn token_in(text: Seq<char>) -> Option<BasicEffect> {
    if has(text, "treasure"@) {
        Some(BasicEffect::CreatePredefinedToken { token_type: PredefinedToken::Treasure, count: count_or_one(text, "treasure"@) })
    } else if has(text, "food"@) {
        Some(BasicEffect::CreatePredefinedToken { token_type: PredefinedToken::Food, count: count_or_one(text, "food"@) })
    } else if has(text, "clue"@) {
        Some(BasicEffect::CreatePredefinedToken { token_type: PredefinedToken::Clue, count: count_or_one(text, "clue"@) })
    } else {
        None
    }
}

/// The simple effect a lowercased ability text describes, by the first
/// pattern that matches: drawing cards; gaining life; an opponent losing
/// life; dealing damage; destroying a target creature or nonland
/// permanent; exiling a target creature; returning something to its
/// owner's hand; creating a Treasure, Food or Clue; adding mana; a
/// power/toughness change; discarding; countering a spell.
pub open spec fn inline_spec(text: Seq<char>) -> Option<BasicEffect> {
    if has(text, "draw"@) && has(text, "card"@) {
        Some(BasicEffect::DrawCards { count: count_or_one(text, "card"@) })
    } else if has(text, "gain"@) && has(text, "life"@) {
        Some(BasicEffect::GainLife { amount: count_or_one(text, "life"@) })
    } else if has(text, "lose"@) && has(text, "life"@) {
        Some(BasicEffect::LoseLife { amount: count_or_one(text, "life"@), target: TargetSpec::Opponent })
    } else if damage_amount(text, "deal"@) is Some {
        Some(BasicEffect::DealDamage { amount: damage_amount(text, "deal"@)->0 as u32, target: inline_damage_target(text) })
    } else if has(text, "destroy target creature"@) {
        Some(BasicEffect::DestroyTarget { target: TargetSpec::AnyCreature })
    } else if has(text, "destroy target nonland permanent"@) {
        Some(BasicEffect::DestroyTarget { target: TargetSpec::AnyNonlandPermanent })
    } else if has(text, "exile target creature"@) {
        Some(BasicEffect::ExileTarget { target: TargetSpec::AnyCreature })
    } else if has(text, "return"@) && has(text, "to"@) && has(text, "hand"@) {
        Some(
            BasicEffect::BounceTo {
                zone: ZoneType::Hand,
                target: if has(text, "target creature"@) {
                    TargetSpec::AnyCreature
                } else if has(text, "target nonland"@) {
                    TargetSpec::AnyNonlandPermanent
                } else {
                    TargetSpec::AnyPermanent
                },
            },
        )
    } else if has(text, "create"@) && has(text, "token"@) && token_in(text) is Some {
        token_in(text)
    } else if has(text, "add "@) && (has(text, "{"@) || has(text, "mana"@)) && mana_symbol_total(text) > 0 {
        Some(
            BasicEffect::AddMana {
                color: None,
                amount: (if mana_symbol_total(text) < 10 {
                    mana_symbol_total(text)
                } else {
                    10
                }) as u32,
            },
        )
    } else if buff_in(text) is Some {
        let (p, t) = buff_in(text)->0;
        let until = has(text, "until end of turn"@);
        if p >= 0 && t >= 0 {
            Some(BasicEffect::Buff { power: p, toughness: t, until_eot: until })
        } else {
            Some(BasicEffect::Debuff { power: p, toughness: t, until_eot: until })
        }
    } else if has(text, "discard"@) && has(text, "card"@) {
        Some(
            BasicEffect::DiscardCards {
                count: count_or_one(text, "card"@),
                target: if has(text, "target player"@) || has(text, "target opponent"@) {
                    TargetSpec::Opponent
                } else {
                    TargetSpec::Controller
                },
            },
        )
    } else if has(text, "counter target spell"@) {
        Some(BasicEffect::Counter { target: TargetSpec::AnySpell })
    } else {
        None
    }
}

/// The effect of an ability's text: the simple effect it describes, or
/// the text itself when it describes none.
pub open spec fn inline_model(text: Seq<char>) -> EffectModel {
    match inline_spec(text) {
        Some(b) => EffectModel::Single(b),
        None => EffectModel::Unimplemented(text),
    }
}

/// A text without its leading commas and spaces (and full stops when
/// `dots`).
pub open spec fn lead_trimmed(s: Seq<char>, dots: bool) -> Seq<char>
    decreases s.len(),
{
    if s.len() > 0 && (s[0] == ',' || s[0] == ' ' || (dots && s[0] == '.')) {
        lead_trimmed(s.drop_first(), dots)
    } else {
        s
    }
}

/// The effect read from the words after the first occurrence of `word`,
/// when there are any.
pub open spec fn effect_after(text: Seq<char>, word: Seq<char>) -> Option<EffectModel> {
    match find_from(text, word, 0) {
        None => None,
        Some(i) => {
            let a = lead_trimmed(text.skip(i + word.len()), true);
            if a.len() == 0 {
                None
            } else {
                Some(inline_model(a))
            }
        },
    }
}

/// The effect of an enters-the-battlefield trigger in a lowercased text:
/// read after "enters the battlefield" (or "enters, "), by the first of
/// drawing cards, gaining life, destroying a target creature and dealing
/// damage to a player; otherwise the remaining text.
pub open spec fn etb_spec(text: Seq<char>) -> Option<EffectModel> {
    let start = match find_from(text, "enters the battlefield"@, 0) {
        Some(i) => Some(i + 22),
        None => match find_from(text, "enters, "@, 0) {
            Some(i) => Some(i + 8),
            None => None,
        },
    };
    match start {
        None => None,
        Some(st) => {
            let a = lead_trimmed(text.skip(st), false);
            Some(
                if has(a, "draw"@) {
                    EffectModel::Single(BasicEffect::DrawCards { count: count_or_one(a, "card"@) })
                } else if has(a, "gain"@) && has(a, "life"@) {
                    EffectModel::Single(BasicEffect::GainLife { amount: count_or_one(a, "life"@) })
                } else if has(a, "destroy target creature"@) {
                    EffectModel::Single(BasicEffect::DestroyTarget { target: TargetSpec::AnyCreature })
                } else if damage_amount(a, "deal"@) is Some {
                    EffectModel::Single(
                        BasicEffect::DealDamage { amount: damage_amount(a, "deal"@)->0 as u32, target: TargetSpec::AnyPlayer },
                    )
                } else {
                    EffectModel::Unimplemented(a)
                },
            )
        },
    }
}

/// An effect read after a word, or the line itself when there is none.
pub open spec fn or_line(e: Option<EffectModel>, line: Seq<char>) -> EffectModel {
    match e {
        Some(x) => x,
        None => EffectModel::Unimplemented(line),
    }
}

/// Whether a lowercased line starts with "when " or "whenever ".
pub open spec fn when_line(lower: Seq<char>) -> bool {
    starts_with(lower, "when "@) || starts_with(lower, "whenever "@)
}

/// The trigger a line states besides an enters-the-battlefield one, by the
/// first kind that matches (`line` is the line, `lower` its lowercased
/// form).
pub open spec fn other_trigger(line: Seq<char>, lower: Seq<char>) -> Option<TriggerModel> {
    if has(lower, "whenever a creature enters"@) || has(lower, "whenever another creature enters"@) {
        Some((TriggerCondition::ACreatureEnters, or_line(effect_after(lower, "enters"@), line), line))
    } else if has(lower, "dies"@) && when_line(lower) {
        let e = or_line(effect_after(lower, "dies"@), line);
        if has(lower, "whenever a creature dies"@) || has(lower, "whenever another creature dies"@) {
            Some((TriggerCondition::ACreatureDies, e, line))
        } else if has(lower, "creature you control dies"@) {
            Some((TriggerCondition::ACreatureYouControlDies, e, line))
        } else {
            Some((TriggerCondition::Dies, e, line))
        }
    } else if has(lower, "attacks"@) && (starts_with(lower, "when"@) || starts_with(lower, "whenever"@)) {
        Some(
            (
                if has(lower, "attacks alone"@) {
                    TriggerCondition::AttacksAlone
                } else {
                    TriggerCondition::Attacks
                },
                or_line(effect_after(lower, "attacks"@), line),
                line,
            ),
        )
    } else if has(lower, "beginning of your upkeep"@) || has(lower, "beginning of each upkeep"@) {
        Some((TriggerCondition::BeginningOfUpkeep, or_line(effect_after(lower, "upkeep"@), line), line))
    } else if has(lower, "beginning of combat"@) {
        Some((TriggerCondition::BeginningOfCombat, or_line(effect_after(lower, "combat"@), line), line))
    } else if (has(lower, "end step"@) || has(lower, "end of turn"@)) && starts_with(lower, "at "@) {
        Some(
            (
                TriggerCondition::EndOfTurn,
                match effect_after(lower, "step"@) {
                    Some(e) => e,
                    None => or_line(effect_after(lower, "turn"@), line),
                },
                line,
            ),
        )
    } else if has(lower, "deals combat damage to a player"@) || has(lower, "deals combat damage to an opponent"@) {
        Some(
            (
                TriggerCondition::DealsCombatDamageToPlayer,
                match effect_after(lower, "player"@) {
                    Some(e) => e,
                    None => or_line(effect_after(lower, "opponent"@), line),
                },
                line,
            ),
        )
    } else if has(lower, "deals combat damage"@) && !(has(lower, "to a player"@)) && !(has(lower, "to an opponent"@)) {
        Some((TriggerCondition::DealsCombatDamage, or_line(effect_after(lower, "damage"@), line), line))
    } else if has(lower, "deals damage"@) && !(has(lower, "combat"@)) {
        Some((TriggerCondition::DealsDamage, or_line(effect_after(lower, "damage"@), line), line))
    } else if has(lower, "whenever you cast"@) {
        Some(
            (
                if has(lower, "creature spell"@) {
                    TriggerCondition::YouCastCreatureSpell
                } else {
                    TriggerCondition::YouCastSpell
                },
                or_line(effect_after(lower, "spell"@), line),
                line,
            ),
        )
    } else if has(lower, "whenever an opponent casts"@) {
        Some(
            (
                if has(lower, "noncreature"@) {
                    TriggerCondition::OpponentCastsNoncreatureSpell
                } else {
                    TriggerCondition::OpponentCastsSpell
                },
                or_line(effect_after(lower, "spell"@), line),
                line,
            ),
        )
    } else if has(lower, "whenever an opponent draws"@) {
        Some((TriggerCondition::OpponentDrawsCard, or_line(effect_after(lower, "card"@), line), line))
    } else {
        None
    }
}

/// Whether a lowercased text mentions entering the battlefield.
pub open spec fn mentions_etb(lower: Seq<char>) -> bool {
    has(lower, "enters the battlefield"@) || has(lower, "enters, "@)
}

/// The triggered abilities one line states: an enters-the-battlefield
/// trigger when the line starts with "when"/"whenever" and mentions
/// entering, then the first other trigger it states.
pub open spec fn line_triggers_spec(line: Seq<char>, lower: Seq<char>) -> Seq<TriggerModel> {
    (if mentions_etb(lower) && when_line(lower) && etb_spec(lower) is Some {
        seq![(TriggerCondition::EntersBattlefield, etb_spec(lower)->0, line)]
    } else {
        seq![]
    }) + match other_trigger(line, lower) {
        Some(a) => seq![a],
        None => seq![],
    }
}

/// The triggered abilities of the lines in `ls`, in order, each line
/// lowercased on its own.
pub open spec fn lines_triggers(ls: Seq<Seq<char>>) -> Seq<TriggerModel>
    decreases ls.len(),
{
    if ls.len() == 0 {
        seq![]
    } else {
        lines_triggers(ls.drop_last()) + line_triggers_spec(ls.last(), lowercase(ls.last()))
    }
}

/// The triggered abilities of an oracle text: those of its lines; when
/// there are none and the whole text mentions entering the battlefield,
/// one enters-the-battlefield trigger read from the whole lowercased text.
pub open spec fn triggered_spec(text: Seq<char>) -> Seq<TriggerModel> {
    let per_line = lines_triggers(lines(text));
    let low = lowercase(text);
    if per_line.len() == 0 && mentions_etb(low) && etb_spec(low) is Some {
        seq![(TriggerCondition::EntersBattlefield, etb_spec(low)->0, text)]
    } else {
        per_line
    }
}

fn count_or_one_exec(text: &Vec<char>, noun: &str) -> (r: u32)
    ensures
        r == count_or_one(text@, noun@),
{
    match number_before_exec(text, noun) {
        Some(n) => n,
        None => 1,
    }
}

fn token_exec(text: &Vec<char>) -> (r: Option<BasicEffect>)
    ensures
        r == token_in(text@),
{
    if has_str(text, "treasure") {
        Some(BasicEffect::CreatePredefinedToken { token_type: PredefinedToken::Treasure, count: count_or_one_exec(text, "treasure") })
    } else if has_str(text, "food") {
        Some(BasicEffect::CreatePredefinedToken { token_type: PredefinedToken::Food, count: count_or_one_exec(text, "food") })
    } else if has_str(text, "clue") {
        Some(BasicEffect::CreatePredefinedToken { token_type: PredefinedToken::Clue, count: count_or_one_exec(text, "clue") })
    } else {
        None
    }
}

pub(crate) fn inline_basic(text: &Vec<char>) -> (r: Option<BasicEffect>)
    ensures
        r == inline_spec(text@),
{
    if has_str(text, "draw") && has_str(text, "card") {
        return Some(BasicEffect::DrawCards { count: count_or_one_exec(text, "card") });
    }
    if has_str(text, "gain") && has_str(text, "life") {
        return Some(BasicEffect::GainLife { amount: count_or_one_exec(text, "life") });
    }
    if has_str(text, "lose") && has_str(text, "life") {
        return Some(BasicEffect::LoseLife { amount: count_or_one_exec(text, "life"), target: TargetSpec::Opponent });
    }
    match damage_amount_exec(text, "deal") {
        Some(amount) => {
            let target = if has_str(text, "any target") || has_str(text, "target creature or player") {
                TargetSpec::CreatureOrPlayer
            } else if has_str(text, "target creature") {
                TargetSpec::AnyCreature
            } else if has_str(text, "each opponent") || has_str(text, "target opponent") {
                TargetSpec::Opponent
            } else {
                TargetSpec::AnyPlayer
            };
            return Some(BasicEffect::DealDamage { amount, target });
        },
        None => {},
    }
    if has_str(text, "destroy target creature") {
        return Some(BasicEffect::DestroyTarget { target: TargetSpec::AnyCreature });
    }
    if has_str(text, "destroy target nonland permanent") {
        return Some(BasicEffect::DestroyTarget { target: TargetSpec::AnyNonlandPermanent });
    }
    if has_str(text, "exile target creature") {
        return Some(BasicEffect::ExileTarget { target: TargetSpec::AnyCreature });
    }
    if has_str(text, "return") && has_str(text, "to") && has_str(text, "hand") {
        let target = if has_str(text, "target creature") {
            TargetSpec::AnyCreature
        } else if has_str(text, "target nonland") {
            TargetSpec::AnyNonlandPermanent
        } else {
            TargetSpec::AnyPermanent
        };
        return Some(BasicEffect::BounceTo { zone: ZoneType::Hand, target });
    }
    if has_str(text, "create") && has_str(text, "token") {
        let t = token_exec(text);
        if t.is_some() {
            return t;
        }
    }
    if has_str(text, "add ") && (has_str(text, "{") || has_str(text, "mana")) {
        match count_mana_symbols(text) {
            Some(amount) => {
                return Some(BasicEffect::AddMana { color: None, amount });
            },
            None => {},
        }
    }
    match buff_exec(text) {
        Some((p, t)) => {
            let until_eot = has_str(text, "until end of turn");
            if p >= 0 && t >= 0 {
                return Some(BasicEffect::Buff { power: p, toughness: t, until_eot });
            } else {
                return Some(BasicEffect::Debuff { power: p, toughness: t, until_eot });
            }
        },
        None => {},
    }
    if has_str(text, "discard") && has_str(text, "card") {
        let count = count_or_one_exec(text, "card");
        let target = if has_str(text, "target player") || has_str(text, "target opponent") {
            TargetSpec::Opponent
        } else {
            TargetSpec::Controller
        };
        return Some(BasicEffect::DiscardCards { count, target });
    }
    if has_str(text, "counter target spell") {
        return Some(BasicEffect::Counter { target: TargetSpec::AnySpell });
    }
    None
}

fn inline_effect(text: &Vec<char>) -> (r: Effect)
    ensures
        r@ == inline_model(text@),
{
    match inline_basic(text) {
        Some(b) => Effect::Single(b),
        None => Effect::Unimplemented(string_from_chars(text)),
    }
}

/// The effect of a lowercased ability text: the simple effect it
/// describes, or the text itself.
pub fn parse_inline_effect(lowered: &str) -> (r: Effect)
    ensures
        r@ == inline_model(lowered@),
{
    let text = chars_of(lowered);
    inline_effect(&text)
}

/// The position from which `v[i..]` no longer starts with a comma or a
/// space (or a full stop when `dots`).
fn lead_trim_from(v: &Vec<char>, i: usize, dots: bool) -> (r: usize)
    requires
        i <= v@.len(),
    ensures
        i <= r <= v@.len(),
        lead_trimmed(v@.skip(i as int), dots) == v@.skip(r as int),
{
    let mut j = i;
    while j < v.len() && (v[j] == ',' || v[j] == ' ' || (dots && v[j] == '.'))
        invariant
            i <= j <= v@.len(),
            lead_trimmed(v@.skip(i as int), dots) == lead_trimmed(v@.skip(j as int), dots),
        decreases v.len() - j,
    {
        assert(v@.skip(j as int).drop_first() =~= v@.skip(j + 1));
        j = j + 1;
    }
    proof {
        if j < v.len() {
            assert(v@.skip(j as int)[0] == v@[j as int]);
        }
    }
    j
}

fn effect_after_exec(text: &Vec<char>, word: &str) -> (r: Option<Effect>)
    ensures
        match r {
            Some(e) => effect_after(text@, word@) == Some(e@),
            None => effect_after(text@, word@) is None,
        },
{
    let pat = chars_of(word);
    match find_chars(text, &pat) {
        None => None,
        Some(i) => {
            proof {
                crate::text::lemma_find_from_occurs(text@, pat@, 0);
                assert(crate::text::occurs_at(text@, pat@, i as int));
            }
            let tl = text.len();
            assert(i + pat@.len() <= tl);
            let st = lead_trim_from(text, i + pat.len(), true);
            if st == text.len() {
                assert(text@.skip(st as int).len() == 0);
                None
            } else {
                let rest = chars_from(text, st);
                Some(inline_effect(&rest))
            }
        },
    }
}

fn etb_exec(text: &Vec<char>) -> (r: Option<Effect>)
    ensures
        match r {
            Some(e) => etb_spec(text@) == Some(e@),
            None => etb_spec(text@) is None,
        },
{
    let p1 = chars_of("enters the battlefield");
    let p2 = chars_of("enters, ");
    proof {
        reveal_strlit("enters the battlefield");
        reveal_strlit("enters, ");
        crate::text::lemma_find_from_occurs(text@, p1@, 0);
        crate::text::lemma_find_from_occurs(text@, p2@, 0);
    }
    let start = match find_chars(text, &p1) {
        Some(i) => {
            assert(crate::text::occurs_at(text@, p1@, i as int));
            let tl = text.len();
            assert(i + p1@.len() <= tl);
            assert(p1@.len() == 22);
            i + 22
        },
        None => match find_chars(text, &p2) {
            Some(i) => {
                assert(crate::text::occurs_at(text@, p2@, i as int));
                let tl = text.len();
                assert(i + p2@.len() <= tl);
                assert(p2@.len() == 8);
                i + 8
            },
            None => {
                return None;
            },
        },
    };
    let st = lead_trim_from(text, start, false);
    let a = chars_from(text, st);
    let e = if has_str(&a, "draw") {
        Effect::Single(BasicEffect::DrawCards { count: count_or_one_exec(&a, "card") })
    } else if has_str(&a, "gain") && has_str(&a, "life") {
        Effect::Single(BasicEffect::GainLife { amount: count_or_one_exec(&a, "life") })
    } else if has_str(&a, "destroy target creature") {
        Effect::Single(BasicEffect::DestroyTarget { target: TargetSpec::AnyCreature })
    } else {
        match damage_amount_exec(&a, "deal") {
            Some(amount) => Effect::Single(BasicEffect::DealDamage { amount, target: TargetSpec::AnyPlayer }),
            None => Effect::Unimplemented(string_from_chars(&a)),
        }
    };
    Some(e)
}

/// The effect of an enters-the-battlefield trigger in a lowercased text,
/// as `etb_spec` reads it.
pub fn parse_etb_effect(lowered: &str) -> (r: Option<Effect>)
    ensures
        match r {
            Some(e) => etb_spec(lowered@) == Some(e@),
            None => etb_spec(lowered@) is None,
        },
{
    let text = chars_of(lowered);
    etb_exec(&text)
}

fn after_or_line(lc: &Vec<char>, word: &str, line: &str) -> (r: Effect)
    ensures
        r@ == or_line(effect_after(lc@, word@), line@),
{
    match effect_after_exec(lc, word) {
        Some(e) => e,
        None => Effect::Unimplemented(String::from_str(line)),
    }
}

fn ability(trigger: TriggerCondition, effect: Effect, line: &str) -> (r: TriggeredAbility)
    ensures
        r@ == (trigger, effect@, line@),
{
    TriggeredAbility { trigger, effect, description: String::from_str(line) }
}

fn other_exec(line: &str, lc: &Vec<char>) -> (r: Option<TriggeredAbility>)
    ensures
        match r {
            Some(a) => other_trigger(line@, lc@) == Some(a@),
            None => other_trigger(line@, lc@) is None,
        },
{
    if has_str(lc, "whenever a creature enters") || has_str(lc, "whenever another creature enters") {
        return Some(ability(TriggerCondition::ACreatureEnters, after_or_line(lc, "enters", line), line));
    }
    if has_str(lc, "dies") && (starts_chars(lc, "when ") || starts_chars(lc, "whenever ")) {
        let e = after_or_line(lc, "dies", line);
        let t = if has_str(lc, "whenever a creature dies") || has_str(lc, "whenever another creature dies") {
            TriggerCondition::ACreatureDies
        } else if has_str(lc, "creature you control dies") {
            TriggerCondition::ACreatureYouControlDies
        } else {
            TriggerCondition::Dies
        };
        return Some(ability(t, e, line));
    }
    if has_str(lc, "attacks") && (starts_chars(lc, "when") || starts_chars(lc, "whenever")) {
        let t = if has_str(lc, "attacks alone") {
            TriggerCondition::AttacksAlone
        } else {
            TriggerCondition::Attacks
        };
        return Some(ability(t, after_or_line(lc, "attacks", line), line));
    }
    if has_str(lc, "beginning of your upkeep") || has_str(lc, "beginning of each upkeep") {
        return Some(ability(TriggerCondition::BeginningOfUpkeep, after_or_line(lc, "upkeep", line), line));
    }
    if has_str(lc, "beginning of combat") {
        return Some(ability(TriggerCondition::BeginningOfCombat, after_or_line(lc, "combat", line), line));
    }
    if (has_str(lc, "end step") || has_str(lc, "end of turn")) && starts_chars(lc, "at ") {
        let e = match effect_after_exec(lc, "step") {
            Some(e) => e,
            None => after_or_line(lc, "turn", line),
        };
        return Some(ability(TriggerCondition::EndOfTurn, e, line));
    }
    if has_str(lc, "deals combat damage to a player") || has_str(lc, "deals combat damage to an opponent") {
        let e = match effect_after_exec(lc, "player") {
            Some(e) => e,
            None => after_or_line(lc, "opponent", line),
        };
        return Some(ability(TriggerCondition::DealsCombatDamageToPlayer, e, line));
    }
    if has_str(lc, "deals combat damage") && !has_str(lc, "to a player") && !has_str(lc, "to an opponent") {
        return Some(ability(TriggerCondition::DealsCombatDamage, after_or_line(lc, "damage", line), line));
    }
    if has_str(lc, "deals damage") && !has_str(lc, "combat") {
        return Some(ability(TriggerCondition::DealsDamage, after_or_line(lc, "damage", line), line));
    }
    if has_str(lc, "whenever you cast") {
        let t = if has_str(lc, "creature spell") {
            TriggerCondition::YouCastCreatureSpell
        } else {
            TriggerCondition::YouCastSpell
        };
        return Some(ability(t, after_or_line(lc, "spell", line), line));
    }
    if has_str(lc, "whenever an opponent casts") {
        let t = if has_str(lc, "noncreature") {
            TriggerCondition::OpponentCastsNoncreatureSpell
        } else {
            TriggerCondition::OpponentCastsSpell
        };
        return Some(ability(t, after_or_line(lc, "spell", line), line));
    }
    if has_str(lc, "whenever an opponent draws") {
        return Some(ability(TriggerCondition::OpponentDrawsCard, after_or_line(lc, "card", line), line));
    }
    None
}

/// The triggered abilities one line of oracle text states, given the line
/// and its lowercased form, as `line_triggers_spec` reads them.
pub fn line_triggers(line: &str, lowered: &str) -> (r: Vec<TriggeredAbility>)
    ensures
        r@.map_values(|a: TriggeredAbility| a@) == line_triggers_spec(line@, lowered@),
{
    let lc = chars_of(lowered);
    let mut out: Vec<TriggeredAbility> = Vec::new();
    if (has_str(&lc, "enters the battlefield") || has_str(&lc, "enters, ")) && (starts_chars(&lc, "when ")
        || starts_chars(&lc, "whenever ")) {
        match etb_exec(&lc) {
            Some(e) => {
                out.push(ability(TriggerCondition::EntersBattlefield, e, line));
            },
            None => {},
        }
    }
    let ghost first = out@.map_values(|a: TriggeredAbility| a@);
    match other_exec(line, &lc) {
        Some(a) => {
            out.push(a);
        },
        None => {},
    }
    assert(out@.map_values(|a: TriggeredAbility| a@) =~= line_triggers_spec(line@, lowered@));
    out
}

/// The triggered abilities of an oracle text, as `triggered_spec` reads
/// them: line by line, each line lowercased on its own; failing any, one
/// enters-the-battlefield trigger read from the whole text.
pub fn parse_triggered_abilities(oracle_text: &str) -> (r: Vec<TriggeredAbility>)
    ensures
        r@.map_values(|a: TriggeredAbility| a@) == triggered_spec(oracle_text@),
{
    let text = chars_of(oracle_text);
    let ls = split_lines(&text);
    let ghost lv = lines(oracle_text@);
    assert(ls@.map_values(|w: Vec<char>| w@) == lv);
    let mut out: Vec<TriggeredAbility> = Vec::new();
    let mut i: usize = 0;
    assert(lv.take(0) =~= Seq::<Seq<char>>::empty());
    while i < ls.len()
        invariant
            i <= ls@.len(),
            ls@.map_values(|w: Vec<char>| w@) == lv,
            out@.map_values(|a: TriggeredAbility| a@) == lines_triggers(lv.take(i as int)),
        decreases ls.len() - i,
    {
        let line = string_from_chars(&ls[i]);
        let lower = to_lowercase(line.as_str());
        let mut got = line_triggers(line.as_str(), lower.as_str());
        let ghost before = out@;
        out.append(&mut got);
        proof {
            assert(lv[i as int] == ls@[i as int]@);
            assert(lv.take(i + 1).drop_last() =~= lv.take(i as int));
            assert(lv.take(i + 1).last() == lv[i as int]);
            assert(out@.map_values(|a: TriggeredAbility| a@) =~= before.map_values(|a: TriggeredAbility| a@)
                + line_triggers_spec(line@, lower@));
        }
        i = i + 1;
    }
    assert(lv.take(i as int) =~= lv);
    if out.len() == 0 {
        let whole = to_lowercase(oracle_text);
        let lc = chars_of(whole.as_str());
        if has_str(&lc, "enters the battlefield") || has_str(&lc, "enters, ") {
            match etb_exec(&lc) {
                Some(e) => {
                    out.push(ability(TriggerCondition::EntersBattlefield, e, oracle_text));
                    assert(out@.map_values(|a: TriggeredAbility| a@) =~= triggered_spec(oracle_text@));
                },
                None => {},
            }
        }
    }
    out
}

} // verus!
