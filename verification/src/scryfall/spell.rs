//! Reading the effect of an instant or sorcery from its oracle text: a
//! handful of common patterns, tried in a fixed order on the lowercased
//! text; anything else is kept as text the engine does not read.
use vstd::prelude::*;

use crate::card::{BasicEffect, Effect, TargetSpec, ZoneType};
use crate::mana::{is_digit, parse_u32_chars, parse_u32_spec};
use crate::scryfall::{count_mana_symbols, mana_symbol_total};
use crate::text::{
    chars_from, chars_of, decimal, find_chars, find_from, has, is_ws, is_ws_exec, lowercase, push_decimal,
    push_str, split_words, starts_with, to_lowercase, trim_start, words,
};

verus! {

/// Whether a text holds a pattern.
pub(crate) fn has_chars(hay: &Vec<char>, pat: &Vec<char>) -> (r: bool)
    ensures
        r == has(hay@, pat@),
{
    find_chars(hay, pat).is_some()
}

/// Whether a text holds a pattern.
pub(crate) fn has_str(hay: &Vec<char>, pat: &str) -> (r: bool)
    ensures
        r == has(hay@, pat@),
{
    let p = chars_of(pat);
    has_chars(hay, &p)
}

/// Whether a text starts with a pattern.
pub(crate) fn starts_chars(s: &Vec<char>, p: &str) -> (r: bool)
    ensures
        r == starts_with(s@, p@),
{
    crate::text::starts_with_str(s, p)
}

/// The run of ASCII digits at the start of a text.
pub open spec fn leading_digits(s: Seq<char>) -> Seq<char>
    decreases s.len(),
{
    if s.len() > 0 && is_digit(s[0]) {
        seq![s[0]] + leading_digits(s.drop_first())
    } else {
        Seq::empty()
    }
}

/// The first whitespace-separated word that reads as a number and whose
/// first occurrence in the text is followed (after white space) by
/// "damage".
pub open spec fn damage_word(text: Seq<char>, ws: Seq<Seq<char>>) -> Option<int>
    decreases ws.len(),
{
    if ws.len() == 0 {
        None
    } else {
        let w = ws[0];
        match parse_u32_spec(w) {
            Some(n) => match find_from(text, w, 0) {
                Some(idx) => if starts_with(trim_start(text.skip(idx + w.len())), "damage"@) {
                    Some(n)
                } else {
                    damage_word(text, ws.drop_first())
                },
                None => damage_word(text, ws.drop_first()),
            },
            None => damage_word(text, ws.drop_first()),
        }
    }
}

/// A damage amount: the number right after the verb and a space, or else
/// a number word followed by "damage".
pub open spec fn damage_amount(text: Seq<char>, verb: Seq<char>) -> Option<int> {
    let pat = verb + " "@;
    match find_from(text, pat, 0) {
        Some(idx) => match parse_u32_spec(leading_digits(text.skip(idx + pat.len()))) {
            Some(n) => Some(n),
            None => damage_word(text, words(text)),
        },
        None => damage_word(text, words(text)),
    }
}

/// The counting words recognised before a noun, with their values.
pub open spec fn count_words() -> Seq<(Seq<char>, u32)> {
    seq![
        ("a "@, 1u32),
        ("an "@, 1u32),
        ("one "@, 1u32),
        ("two "@, 2u32),
        ("three "@, 3u32),
        ("four "@, 4u32),
        ("five "@, 5u32),
        ("six "@, 6u32),
        ("seven "@, 7u32),
    ]
}

/// The value of the first counting word (from `k` on) that occurs
/// followed by the noun.
pub open spec fn count_word_before(text: Seq<char>, noun: Seq<char>, k: int) -> Option<u32>
    decreases 9 - k,
{
    if k < 0 || k >= 9 {
        None
    } else if has(text, count_words()[k].0 + noun) {
        Some(count_words()[k].1)
    } else {
        count_word_before(text, noun, k + 1)
    }
}

/// The first number from `i` to 20 that occurs written out, a space, then
/// the noun.
pub open spec fn digits_before(text: Seq<char>, noun: Seq<char>, i: int) -> Option<u32>
    decreases 21 - i,
{
    if i < 1 || i > 20 {
        None
    } else if has(text, decimal(i as nat) + " "@ + noun) {
        Some(i as u32)
    } else {
        digits_before(text, noun, i + 1)
    }
}

/// The number before a noun: a counting word ("a", "two", ...) or else a
/// number from 1 to 20.
pub open spec fn number_before(text: Seq<char>, noun: Seq<char>) -> Option<u32> {
    match count_word_before(text, noun, 0) {
        Some(n) => Some(n),
        None => digits_before(text, noun, 1),
    }
}

/// The sign text of a sign index: 0 for "+", 1 for "-".
pub open spec fn sign_text(s: int) -> Seq<char> {
    if s == 0 {
        "+"@
    } else {
        "-"@
    }
}

/// The text of a power/toughness change such as "+2/-1".
pub open spec fn buff_text(sp: int, p: int, st: int, t: int) -> Seq<char> {
    sign_text(sp) + decimal(p as nat) + "/"@ + sign_text(st) + decimal(t as nat)
}

/// The signed value of an amount under a sign index.
pub open spec fn signed(s: int, n: int) -> int {
    if s == 0 {
        n
    } else {
        -n
    }
}

/// The first change (toughness amounts from `t` to 10) that occurs.
pub open spec fn buff_t(text: Seq<char>, sp: int, p: int, st: int, t: int) -> Option<(i32, i32)>
    decreases 11 - t,
{
    if t < 0 || t > 10 {
        None
    } else if has(text, buff_text(sp, p, st, t)) {
        Some((signed(sp, p) as i32, signed(st, t) as i32))
    } else {
        buff_t(text, sp, p, st, t + 1)
    }
}

/// The first change (power amounts from `p` to 10) that occurs.
pub open spec fn buff_p(text: Seq<char>, sp: int, st: int, p: int) -> Option<(i32, i32)>
    decreases 11 - p,
{
    if p < 0 || p > 10 {
        None
    } else {
        match buff_t(text, sp, p, st, 0) {
            Some(x) => Some(x),
            None => buff_p(text, sp, st, p + 1),
        }
    }
}

/// A power/toughness change in the text: signs tried in the order ++, +-,
/// -+, --, then the amounts from 0 to 10, power first.
pub open spec fn buff_in(text: Seq<char>) -> Option<(i32, i32)> {
    match buff_p(text, 0, 0, 0) {
        Some(x) => Some(x),
        None => match buff_p(text, 0, 1, 0) {
            Some(x) => Some(x),
            None => match buff_p(text, 1, 0, 0) {
                Some(x) => Some(x),
                None => buff_p(text, 1, 1, 0),
            },
        },
    }
}

/// The target of a damage effect read after "deals".
pub open spec fn deals_target(text: Seq<char>) -> TargetSpec {
    if has(text, "any target"@) || has(text, "target creature or player"@) || has(
        text,
        "creature or planeswalker"@,
    ) {
        TargetSpec::CreatureOrPlayer
    } else if has(text, "target creature"@) {
        TargetSpec::AnyCreature
    } else if has(text, "target player"@) || has(text, "target opponent"@) {
        TargetSpec::AnyPlayer
    } else if has(text, "each creature"@) {
        TargetSpec::EachCreature
    } else {
        TargetSpec::CreatureOrPlayer
    }
}

/// The target of a damage effect read after "deal".
pub open spec fn deal_target(text: Seq<char>) -> TargetSpec {
    if has(text, "any target"@) || has(text, "target creature or player"@) {
        TargetSpec::CreatureOrPlayer
    } else if has(text, "target creature"@) {
        TargetSpec::AnyCreature
    } else if has(text, "target player"@) || has(text, "target opponent"@) {
        TargetSpec::AnyPlayer
    } else {
        TargetSpec::CreatureOrPlayer
    }
}

/// The effect a lowercased oracle text describes, by the first pattern
/// that matches: countering a spell; destroying all creatures; destroying
/// a target creature or nonland permanent; exiling a target creature;
/// dealing damage; drawing cards; gaining life; returning a target to its
/// owner's hand; a power/toughness change; adding mana; discarding.
pub open spec fn spell_effect_spec(text: Seq<char>) -> Option<BasicEffect> {
    if has(text, "counter target spell"@) {
        Some(BasicEffect::Counter { target: TargetSpec::AnySpell })
    } else if has(text, "destroy all creatures"@) {
        Some(BasicEffect::DestroyAll)
    } else if has(text, "destroy target creature"@) {
        Some(BasicEffect::DestroyTarget { target: TargetSpec::AnyCreature })
    } else if has(text, "destroy target nonland permanent"@) {
        Some(BasicEffect::DestroyTarget { target: TargetSpec::AnyNonlandPermanent })
    } else if has(text, "exile target creature"@) {
        Some(BasicEffect::ExileTarget { target: TargetSpec::AnyCreature })
    } else if damage_amount(text, "deals"@) is Some {
        Some(BasicEffect::DealDamage { amount: damage_amount(text, "deals"@)->0 as u32, target: deals_target(text) })
    } else if damage_amount(text, "deal"@) is Some {
        Some(BasicEffect::DealDamage { amount: damage_amount(text, "deal"@)->0 as u32, target: deal_target(text) })
    } else if number_before(text, "card"@) is Some && has(text, "draw"@) {
        Some(BasicEffect::DrawCards { count: number_before(text, "card"@)->0 })
    } else if number_before(text, "life"@) is Some && has(text, "gain"@) {
        Some(BasicEffect::GainLife { amount: number_before(text, "life"@)->0 })
    } else if has(text, "return target"@) && (has(text, "to its owner's hand"@) || has(
        text,
        "to their owner's hand"@,
    )) {
        Some(
            BasicEffect::BounceTo {
                zone: ZoneType::Hand,
                target: if has(text, "creature"@) {
                    TargetSpec::AnyCreature
                } else if has(text, "nonland permanent"@) {
                    TargetSpec::AnyNonlandPermanent
                } else {
                    TargetSpec::AnyPermanent
                },
            },
        )
    } else if buff_in(text) is Some {
        let (p, t) = buff_in(text)->0;
        let until = has(text, "until end of turn"@);
        if p > 0 || t > 0 {
            Some(BasicEffect::Buff { power: p, toughness: t, until_eot: until })
        } else {
            Some(BasicEffect::Debuff { power: p, toughness: t, until_eot: until })
        }
    } else if (starts_with(text, "add "@) || has(text, "{t}: add "@)) && mana_symbol_total(text) > 0 {
        Some(
            BasicEffect::AddMana {
                color: None,
                amount: (if mana_symbol_total(text) < 10 {
                    mana_symbol_total(text)
                } else {
                    10
                }) as u32,
            },
        )
    } else if has(text, "discard"@) && has(text, "card"@) {
        Some(
            BasicEffect::DiscardCards {
                count: match number_before(text, "card"@) {
                    Some(n) => n,
                    None => 1,
                },
                target: if has(text, "target player"@) || has(text, "target opponent"@) {
                    TargetSpec::Opponent
                } else {
                    TargetSpec::Controller
                },
            },
        )
    } else {
        None
    }
}

/// The run of ASCII digits at the start of a text.
fn leading_digits_exec(s: &Vec<char>) -> (r: Vec<char>)
    ensures
        r@ == leading_digits(s@),
{
    let mut out: Vec<char> = Vec::new();
    let mut i: usize = 0;
    assert(s@.skip(0) =~= s@);
    assert(out@ + leading_digits(s@) =~= leading_digits(s@));
    while i < s.len() && '0' <= s[i] && s[i] <= '9'
        invariant
            i <= s@.len(),
            out@ + leading_digits(s@.skip(i as int)) == leading_digits(s@),
        decreases s.len() - i,
    {
        assert(s@.skip(i as int).drop_first() =~= s@.skip(i + 1));
        assert(s@.skip(i as int)[0] == s@[i as int]);
        out.push(s[i]);
        i = i + 1;
        assert(out@ + leading_digits(s@.skip(i as int)) =~= leading_digits(s@));
    }
    proof {
        if i < s@.len() {
            assert(s@.skip(i as int)[0] == s@[i as int]);
        }
    }
    assert(out@ =~= out@ + leading_digits(s@.skip(i as int)));
    out
}

/// The first position where a pattern occurs.
fn find_str(s: &Vec<char>, pat: &Vec<char>) -> (r: Option<usize>)
    ensures
        match r {
            Some(i) => find_from(s@, pat@, 0) == Some(i as int),
            None => find_from(s@, pat@, 0) is None,
        },
{
    find_chars(s, pat)
}

/// A text without its leading white space.
fn trim_start_exec(v: &Vec<char>) -> (r: Vec<char>)
    ensures
        r@ == trim_start(v@),
{
    let mut a: usize = 0;
    assert(v@.skip(0) =~= v@);
    while a < v.len() && is_ws_exec(v[a])
        invariant
            a <= v@.len(),
            trim_start(v@) == trim_start(v@.skip(a as int)),
        decreases v.len() - a,
    {
        assert(v@.skip(a as int).drop_first() =~= v@.skip(a + 1));
        a = a + 1;
    }
    chars_from(v, a)
}

/// The number word followed by "damage", as `damage_word` reads it.
fn damage_word_exec(text: &Vec<char>) -> (r: Option<u32>)
    ensures
        r == (match damage_word(text@, words(text@)) {
            Some(n) => Some(n as u32),
            None => None,
        }),
        damage_word(text@, words(text@)) matches Some(n) ==> n <= u32::MAX,
{
    let ws = split_words(text);
    let ghost wv = ws@.map_values(|w: Vec<char>| w@);
    assert(wv.skip(0) =~= wv);
    let mut k: usize = 0;
    while k < ws.len()
        invariant
            k <= ws@.len(),
            wv == ws@.map_values(|w: Vec<char>| w@),
            wv == words(text@),
            damage_word(text@, wv) == damage_word(text@, wv.skip(k as int)),
        decreases ws.len() - k,
    {
        assert(wv.skip(k as int).drop_first() =~= wv.skip(k + 1));
        assert(wv.skip(k as int)[0] == ws@[k as int]@);
        let w = &ws[k];
        match parse_u32_chars(w) {
            Some(n) => {
                match find_str(text, w) {
                    Some(idx) => {
                        proof {
                            crate::text::lemma_find_from_occurs(text@, w@, 0);
                        }
                        let tl = text.len();
                        assert(idx + w@.len() <= tl);
                        let rest = chars_from(text, idx + w.len());
                        let t = trim_start_exec(&rest);
                        if starts_chars(&t, "damage") {
                            return Some(n);
                        }
                    },
                    None => {},
                }
            },
            None => {},
        }
        k = k + 1;
    }
    None
}

/// A damage amount after a verb, as `damage_amount` reads it.
pub(crate) fn damage_amount_exec(text: &Vec<char>, verb: &str) -> (r: Option<u32>)
    ensures
        r == (match damage_amount(text@, verb@) {
            Some(n) => Some(n as u32),
            None => None,
        }),
        damage_amount(text@, verb@) matches Some(n) ==> n <= u32::MAX,
{
    let mut p = String::new();
    push_str(&mut p, verb);
    push_str(&mut p, " ");
    let pat = chars_of(p.as_str());
    match find_str(text, &pat) {
        Some(idx) => {
            proof {
                crate::text::lemma_find_from_occurs(text@, pat@, 0);
            }
            let tl = text.len();
            assert(idx + pat@.len() <= tl);
            let rest = chars_from(text, idx + pat.len());
            let digits = leading_digits_exec(&rest);
            match parse_u32_chars(&digits) {
                Some(n) => Some(n),
                None => damage_word_exec(text),
            }
        },
        None => damage_word_exec(text),
    }
}

/// The number before a noun, as `number_before` reads it.
pub(crate) fn number_before_exec(text: &Vec<char>, noun: &str) -> (r: Option<u32>)
    ensures
        r == number_before(text@, noun@),
{
    let words_list: [&str; 9] = ["a ", "an ", "one ", "two ", "three ", "four ", "five ", "six ", "seven "];
    let values: [u32; 9] = [1, 1, 1, 2, 3, 4, 5, 6, 7];
    proof {
        reveal_strlit("a ");
        reveal_strlit("an ");
        reveal_strlit("one ");
        reveal_strlit("two ");
        reveal_strlit("three ");
        reveal_strlit("four ");
        reveal_strlit("five ");
        reveal_strlit("six ");
        reveal_strlit("seven ");
    }
    let mut k: usize = 0;
    while k < 9
        invariant
            k <= 9,
            forall|j: int| 0 <= j < 9 ==> (#[trigger] words_list@[j])@ == count_words()[j].0,
            forall|j: int| 0 <= j < 9 ==> #[trigger] values@[j] == count_words()[j].1,
            count_word_before(text@, noun@, 0) == count_word_before(text@, noun@, k as int),
        decreases 9 - k,
    {
        let mut p = String::new();
        push_str(&mut p, words_list[k]);
        push_str(&mut p, noun);
        let pat = chars_of(p.as_str());
        if has_chars(text, &pat) {
            return Some(values[k]);
        }
        k = k + 1;
    }
    let mut i: u64 = 1;
    while i <= 20
        invariant
            1 <= i <= 21,
            count_word_before(text@, noun@, 0) is None,
            digits_before(text@, noun@, 1) == digits_before(text@, noun@, i as int),
        decreases 21 - i,
    {
        let mut p = String::new();
        push_decimal(&mut p, i);
        push_str(&mut p, " ");
        push_str(&mut p, noun);
        let pat = chars_of(p.as_str());
        if has_chars(text, &pat) {
            return Some(i as u32);
        }
        i = i + 1;
    }
    None
}

/// The first toughness amount (from 0) for given signs and power.
fn buff_t_exec(text: &Vec<char>, sp: u64, p: u64, st: u64) -> (r: Option<(i32, i32)>)
    requires
        sp <= 1,
        st <= 1,
        p <= 10,
    ensures
        r == buff_t(text@, sp as int, p as int, st as int, 0),
{
    let mut t: u64 = 0;
    while t <= 10
        invariant
            t <= 11,
            sp <= 1,
            st <= 1,
            p <= 10,
            buff_t(text@, sp as int, p as int, st as int, 0) == buff_t(text@, sp as int, p as int, st as int, t as int),
        decreases 11 - t,
    {
        let mut s = String::new();
        push_str(&mut s, if sp == 0 { "+" } else { "-" });
        push_decimal(&mut s, p);
        push_str(&mut s, "/");
        push_str(&mut s, if st == 0 { "+" } else { "-" });
        push_decimal(&mut s, t);
        let pat = chars_of(s.as_str());
        if has_chars(text, &pat) {
            let pv: i32 = if sp == 0 { p as i32 } else { -(p as i32) };
            let tv: i32 = if st == 0 { t as i32 } else { -(t as i32) };
            return Some((pv, tv));
        }
        t = t + 1;
    }
    None
}

/// The first change for given signs, as `buff_p` reads it.
fn buff_p_exec(text: &Vec<char>, sp: u64, st: u64) -> (r: Option<(i32, i32)>)
    requires
        sp <= 1,
        st <= 1,
    ensures
        r == buff_p(text@, sp as int, st as int, 0),
{
    let mut p: u64 = 0;
    while p <= 10
        invariant
            p <= 11,
            sp <= 1,
            st <= 1,
            buff_p(text@, sp as int, st as int, 0) == buff_p(text@, sp as int, st as int, p as int),
        decreases 11 - p,
    {
        match buff_t_exec(text, sp, p, st) {
            Some(x) => {
                return Some(x);
            },
            None => {},
        }
        p = p + 1;
    }
    None
}

/// The power/toughness change in a text, as `buff_in` reads it.
pub(crate) fn buff_exec(text: &Vec<char>) -> (r: Option<(i32, i32)>)
    ensures
        r == buff_in(text@),
{
    match buff_p_exec(text, 0, 0) {
        Some(x) => Some(x),
        None => match buff_p_exec(text, 0, 1) {
            Some(x) => Some(x),
            None => match buff_p_exec(text, 1, 0) {
                Some(x) => Some(x),
                None => buff_p_exec(text, 1, 1),
            },
        },
    }
}

/// The simple effect a lowercased oracle text describes, by the first
/// pattern of `spell_effect_spec` that matches.
pub fn spell_effect_from_lowered(lowered: &str) -> (r: Option<BasicEffect>)
    ensures
        r == spell_effect_spec(lowered@),
{
    let text = chars_of(lowered);
    if has_str(&text, "counter target spell") {
        return Some(BasicEffect::Counter { target: TargetSpec::AnySpell });
    }
    if has_str(&text, "destroy all creatures") {
        return Some(BasicEffect::DestroyAll);
    }
    if has_str(&text, "destroy target creature") {
        return Some(BasicEffect::DestroyTarget { target: TargetSpec::AnyCreature });
    }
    if has_str(&text, "destroy target nonland permanent") {
        return Some(BasicEffect::DestroyTarget { target: TargetSpec::AnyNonlandPermanent });
    }
    if has_str(&text, "exile target creature") {
        return Some(BasicEffect::ExileTarget { target: TargetSpec::AnyCreature });
    }
    match damage_amount_exec(&text, "deals") {
        Some(amount) => {
            let target = if has_str(&text, "any target") || has_str(&text, "target creature or player")
                || has_str(&text, "creature or planeswalker") {
                TargetSpec::CreatureOrPlayer
            } else if has_str(&text, "target creature") {
                TargetSpec::AnyCreature
            } else if has_str(&text, "target player") || has_str(&text, "target opponent") {
                TargetSpec::AnyPlayer
            } else if has_str(&text, "each creature") {
                TargetSpec::EachCreature
            } else {
                TargetSpec::CreatureOrPlayer
            };
            return Some(BasicEffect::DealDamage { amount, target });
        },
        None => {},
    }
    match damage_amount_exec(&text, "deal") {
        Some(amount) => {
            let target = if has_str(&text, "any target") || has_str(&text, "target creature or player") {
                TargetSpec::CreatureOrPlayer
            } else if has_str(&text, "target creature") {
                TargetSpec::AnyCreature
            } else if has_str(&text, "target player") || has_str(&text, "target opponent") {
                TargetSpec::AnyPlayer
            } else {
                TargetSpec::CreatureOrPlayer
            };
            return Some(BasicEffect::DealDamage { amount, target });
        },
        None => {},
    }
    let cards = number_before_exec(&text, "card");
    match cards {
        Some(count) => {
            if has_str(&text, "draw") {
                return Some(BasicEffect::DrawCards { count });
            }
        },
        None => {},
    }
    match number_before_exec(&text, "life") {
        Some(amount) => {
            if has_str(&text, "gain") {
                return Some(BasicEffect::GainLife { amount });
            }
        },
        None => {},
    }
    if has_str(&text, "return target") && (has_str(&text, "to its owner's hand") || has_str(
        &text,
        "to their owner's hand",
    )) {
        let target = if has_str(&text, "creature") {
            TargetSpec::AnyCreature
        } else if has_str(&text, "nonland permanent") {
            TargetSpec::AnyNonlandPermanent
        } else {
            TargetSpec::AnyPermanent
        };
        return Some(BasicEffect::BounceTo { zone: ZoneType::Hand, target });
    }
    match buff_exec(&text) {
        Some((p, t)) => {
            let until_eot = has_str(&text, "until end of turn");
            if p > 0 || t > 0 {
                return Some(BasicEffect::Buff { power: p, toughness: t, until_eot });
            } else {
                return Some(BasicEffect::Debuff { power: p, toughness: t, until_eot });
            }
        },
        None => {},
    }
    if starts_chars(&text, "add ") || has_str(&text, "{t}: add ") {
        match count_mana_symbols(&text) {
            Some(amount) => {
                return Some(BasicEffect::AddMana { color: None, amount });
            },
            None => {},
        }
    }
    if has_str(&text, "discard") && has_str(&text, "card") {
        let count = match cards {
            Some(n) => n,
            None => 1,
        };
        let target = if has_str(&text, "target player") || has_str(&text, "target opponent") {
            TargetSpec::Opponent
        } else {
            TargetSpec::Controller
        };
        return Some(BasicEffect::DiscardCards { count, target });
    }
    None
}

/// Read the effect of an instant or sorcery from its oracle text, by the
/// first pattern of `spell_effect_spec` that matches its lowercased form;
/// an oracle text that matches none is kept as text the engine does not
/// read, and an empty one gives no effect.
pub fn parse_spell_effect(oracle_text: &str) -> (r: Option<Effect>)
    ensures
        match spell_effect_spec(lowercase(oracle_text@)) {
            Some(b) => r == Some(Effect::Single(b)),
            None => if oracle_text@.len() == 0 {
                r is None
            } else {
                r matches Some(Effect::Unimplemented(s)) && s@ == oracle_text@
            },
        },
{
    let lower = to_lowercase(oracle_text);
    match spell_effect_from_lowered(lower.as_str()) {
        Some(b) => Some(Effect::Single(b)),
        None => if oracle_text.unicode_len() > 0 {
            Some(Effect::Unimplemented(String::from_str(oracle_text)))
        } else {
            None
        },
    }
}

} // verus!
