//! Card data from Scryfall: turning a card's printed data into a card
//! definition, reading deck lists, and the name and cache rules of the
//! fetcher. Fetching over the network and reading or writing the cache are
//! done by the caller.
use vstd::prelude::*;

pub mod import;
pub mod spell;
pub mod equip;
pub mod triggers;
pub mod statics;
pub mod activated;

use crate::card::{CardDatabase, CardDef, CardId, CardType, CostReduction, CostReductionTarget, KeywordAbility, ManaAbility, Subtype, Supertype};
use crate::game::subtype_names;
use crate::mana::Color;
use crate::mana::{ManaCost, all_digits, tally_of, digits_value, parse_tally, parse_u32_chars, parse_u32_spec, tally_fits, unsigned_part};
use crate::text::decimal;
use crate::text::{
    push_str,
    chars_eq_str, chars_from, chars_of, chars_take, contains_str, ends_with, ends_with_str, find_chars,
    find_from, first_ws, first_ws_from, has, lines, lowercase, push_char, split_lines, split_words,
    starts_with, starts_with_str, str_eq, string_from_chars, to_lowercase, trim, trim_char,
    trim_char_exec, trim_chars, words,
};

verus! {

/// A Scryfall error.
#[derive(Debug)]
pub enum ScryfallError {
    /// HTTP or network error.
    Network(String),
    /// Card not found on Scryfall.
    NotFound(String),
    /// JSON parse error.
    Parse(String),
    /// Cache file error.
    Io(String),
}

/// The text of a Scryfall error.
pub open spec fn error_text(e: ScryfallError) -> Seq<char> {
    match e {
        ScryfallError::Network(m) => "Scryfall network error: "@ + m@,
        ScryfallError::NotFound(n) => "card not found on Scryfall: '"@ + n@ + "'"@,
        ScryfallError::Parse(m) => "Scryfall JSON parse error: "@ + m@,
        ScryfallError::Io(m) => "Scryfall cache I/O error: "@ + m@,
    }
}

impl ScryfallError {
    /// The error's text, as it is shown to a user.
    pub fn message(&self) -> (r: String)
        ensures
            r@ == error_text(*self),
    {
        let mut out = String::new();
        match self {
            ScryfallError::Network(m) => {
                push_str(&mut out, "Scryfall network error: ");
                push_str(&mut out, m.as_str());
            },
            ScryfallError::NotFound(n) => {
                push_str(&mut out, "card not found on Scryfall: '");
                push_str(&mut out, n.as_str());
                push_str(&mut out, "'");
            },
            ScryfallError::Parse(m) => {
                push_str(&mut out, "Scryfall JSON parse error: ");
                push_str(&mut out, m.as_str());
            },
            ScryfallError::Io(m) => {
                push_str(&mut out, "Scryfall cache I/O error: ");
                push_str(&mut out, m.as_str());
            },
        }
        out
    }
}

/// The keyword a Scryfall keyword name stands for, if it is one this
/// engine knows.
pub open spec fn keyword_of(s: Seq<char>) -> Option<KeywordAbility> {
    if s == "Flying"@ {
        Some(KeywordAbility::Flying)
    } else if s == "First strike"@ {
        Some(KeywordAbility::FirstStrike)
    } else if s == "Double strike"@ {
        Some(KeywordAbility::DoubleStrike)
    } else if s == "Deathtouch"@ {
        Some(KeywordAbility::Deathtouch)
    } else if s == "Haste"@ {
        Some(KeywordAbility::Haste)
    } else if s == "Hexproof"@ {
        Some(KeywordAbility::Hexproof)
    } else if s == "Indestructible"@ {
        Some(KeywordAbility::Indestructible)
    } else if s == "Lifelink"@ {
        Some(KeywordAbility::Lifelink)
    } else if s == "Menace"@ {
        Some(KeywordAbility::Menace)
    } else if s == "Reach"@ {
        Some(KeywordAbility::Reach)
    } else if s == "Trample"@ {
        Some(KeywordAbility::Trample)
    } else if s == "Vigilance"@ {
        Some(KeywordAbility::Vigilance)
    } else if s == "Defender"@ {
        Some(KeywordAbility::Defender)
    } else if s == "Flash"@ {
        Some(KeywordAbility::Flash)
    } else if s == "Fear"@ {
        Some(KeywordAbility::Fear)
    } else if s == "Intimidate"@ {
        Some(KeywordAbility::Intimidate)
    } else if s == "Shroud"@ {
        Some(KeywordAbility::Shroud)
    } else if s == "Protection"@ {
        Some(KeywordAbility::Protection)
    } else if s == "Shadow"@ {
        Some(KeywordAbility::Shadow)
    } else if s == "Horsemanship"@ {
        Some(KeywordAbility::Horsemanship)
    } else if s == "Skulk"@ {
        Some(KeywordAbility::Skulk)
    } else if s == "Wither"@ {
        Some(KeywordAbility::Wither)
    } else if s == "Infect"@ {
        Some(KeywordAbility::Infect)
    } else if s == "Toxic"@ {
        Some(KeywordAbility::Toxic)
    } else if s == "Undying"@ {
        Some(KeywordAbility::Undying)
    } else if s == "Persist"@ {
        Some(KeywordAbility::Persist)
    } else if s == "Prowess"@ {
        Some(KeywordAbility::Prowess)
    } else if s == "Changeling"@ {
        Some(KeywordAbility::Changeling)
    } else if s == "Flanking"@ {
        Some(KeywordAbility::Flanking)
    } else if s == "Ward"@ {
        Some(KeywordAbility::Ward)
    } else {
        None
    }
}

/// The keyword a Scryfall keyword name stands for.
pub fn keyword_from_name(s: &str) -> (r: Option<KeywordAbility>)
    ensures
        r == keyword_of(s@),
{
    if str_eq(s, "Flying") {
        Some(KeywordAbility::Flying)
    } else if str_eq(s, "First strike") {
        Some(KeywordAbility::FirstStrike)
    } else if str_eq(s, "Double strike") {
        Some(KeywordAbility::DoubleStrike)
    } else if str_eq(s, "Deathtouch") {
        Some(KeywordAbility::Deathtouch)
    } else if str_eq(s, "Haste") {
        Some(KeywordAbility::Haste)
    } else if str_eq(s, "Hexproof") {
        Some(KeywordAbility::Hexproof)
    } else if str_eq(s, "Indestructible") {
        Some(KeywordAbility::Indestructible)
    } else if str_eq(s, "Lifelink") {
        Some(KeywordAbility::Lifelink)
    } else if str_eq(s, "Menace") {
        Some(KeywordAbility::Menace)
    } else if str_eq(s, "Reach") {
        Some(KeywordAbility::Reach)
    } else if str_eq(s, "Trample") {
        Some(KeywordAbility::Trample)
    } else if str_eq(s, "Vigilance") {
        Some(KeywordAbility::Vigilance)
    } else if str_eq(s, "Defender") {
        Some(KeywordAbility::Defender)
    } else if str_eq(s, "Flash") {
        Some(KeywordAbility::Flash)
    } else if str_eq(s, "Fear") {
        Some(KeywordAbility::Fear)
    } else if str_eq(s, "Intimidate") {
        Some(KeywordAbility::Intimidate)
    } else if str_eq(s, "Shroud") {
        Some(KeywordAbility::Shroud)
    } else if str_eq(s, "Protection") {
        Some(KeywordAbility::Protection)
    } else if str_eq(s, "Shadow") {
        Some(KeywordAbility::Shadow)
    } else if str_eq(s, "Horsemanship") {
        Some(KeywordAbility::Horsemanship)
    } else if str_eq(s, "Skulk") {
        Some(KeywordAbility::Skulk)
    } else if str_eq(s, "Wither") {
        Some(KeywordAbility::Wither)
    } else if str_eq(s, "Infect") {
        Some(KeywordAbility::Infect)
    } else if str_eq(s, "Toxic") {
        Some(KeywordAbility::Toxic)
    } else if str_eq(s, "Undying") {
        Some(KeywordAbility::Undying)
    } else if str_eq(s, "Persist") {
        Some(KeywordAbility::Persist)
    } else if str_eq(s, "Prowess") {
        Some(KeywordAbility::Prowess)
    } else if str_eq(s, "Changeling") {
        Some(KeywordAbility::Changeling)
    } else if str_eq(s, "Flanking") {
        Some(KeywordAbility::Flanking)
    } else if str_eq(s, "Ward") {
        Some(KeywordAbility::Ward)
    } else {
        None
    }
}

/// The known keywords among a list of Scryfall keyword names, in order;
/// unknown names are skipped.
pub open spec fn keywords_of(names: Seq<String>) -> Seq<KeywordAbility>
    decreases names.len(),
{
    if names.len() == 0 {
        Seq::empty()
    } else {
        let rest = keywords_of(names.drop_last());
        match keyword_of(names.last()@) {
            Some(k) => rest.push(k),
            None => rest,
        }
    }
}

/// Map Scryfall keyword names to keyword abilities, skipping unknown ones.
pub fn parse_keywords(keywords: &Vec<String>) -> (r: Vec<KeywordAbility>)
    ensures
        r@ == keywords_of(keywords@),
{
    let mut out: Vec<KeywordAbility> = Vec::new();
    let mut i: usize = 0;
    while i < keywords.len()
        invariant
            i <= keywords@.len(),
            out@ == keywords_of(keywords@.take(i as int)),
        decreases keywords.len() - i,
    {
        assert(keywords@.take(i + 1).drop_last() =~= keywords@.take(i as int));
        match keyword_from_name(keywords[i].as_str()) {
            Some(k) => out.push(k),
            None => {},
        }
        i = i + 1;
    }
    assert(keywords@.take(keywords@.len() as int) =~= keywords@);
    out
}

/// The supertype a type-line word names.
pub open spec fn supertype_of(w: Seq<char>) -> Option<Supertype> {
    if w == "Legendary"@ {
        Some(Supertype::Legendary)
    } else if w == "Basic"@ {
        Some(Supertype::Basic)
    } else if w == "Snow"@ {
        Some(Supertype::Snow)
    } else {
        None
    }
}

/// The card type a type-line word names.
pub open spec fn card_type_of(w: Seq<char>) -> Option<CardType> {
    if w == "Creature"@ {
        Some(CardType::Creature)
    } else if w == "Instant"@ {
        Some(CardType::Instant)
    } else if w == "Sorcery"@ {
        Some(CardType::Sorcery)
    } else if w == "Enchantment"@ {
        Some(CardType::Enchantment)
    } else if w == "Artifact"@ {
        Some(CardType::Artifact)
    } else if w == "Planeswalker"@ {
        Some(CardType::Planeswalker)
    } else if w == "Land"@ {
        Some(CardType::Land)
    } else {
        None
    }
}

/// The supertypes named by a list of words, in order.
pub open spec fn supertypes_of(ws: Seq<Seq<char>>) -> Seq<Supertype>
    decreases ws.len(),
{
    if ws.len() == 0 {
        Seq::empty()
    } else {
        let rest = supertypes_of(ws.drop_last());
        match supertype_of(ws.last()) {
            Some(t) => rest.push(t),
            None => rest,
        }
    }
}

/// The card types named by a list of words, in order.
pub open spec fn card_types_of(ws: Seq<Seq<char>>) -> Seq<CardType>
    decreases ws.len(),
{
    if ws.len() == 0 {
        Seq::empty()
    } else {
        let rest = card_types_of(ws.drop_last());
        match card_type_of(ws.last()) {
            Some(t) => rest.push(t),
            None => rest,
        }
    }
}

/// A type line split at its first ` — ` (or else its first ` - `) into the
/// types part and the subtypes part.
pub open spec fn type_line_parts(s: Seq<char>) -> (Seq<char>, Option<Seq<char>>) {
    match find_from(s, " \u{2014} "@, 0) {
        Some(p) => (s.take(p), Some(s.skip(p + 3))),
        None => match find_from(s, " - "@, 0) {
            Some(p) => (s.take(p), Some(s.skip(p + 3))),
            None => (s, None),
        },
    }
}

/// The subtypes of a type line: the words of its subtypes part.
pub open spec fn subtypes_of_line(s: Seq<char>) -> Seq<Seq<char>> {
    match type_line_parts(s).1 {
        Some(sub) => words(sub),
        None => Seq::empty(),
    }
}

/// Split a type line at the first occurrence of a three-character
/// separator.
fn split_at_sep(s: &Vec<char>, sep: &str) -> (r: Option<(Vec<char>, Vec<char>)>)
    requires
        sep@.len() == 3,
    ensures
        match find_from(s@, sep@, 0) {
            Some(p) => r matches Some(parts) && parts.0@ == s@.take(p) && parts.1@ == s@.skip(p + 3),
            None => r is None,
        },
{
    let sep_chars = chars_of(sep);
    match find_chars(s, &sep_chars) {
        Some(p) => {
            proof {
                crate::text::lemma_find_from_occurs(s@, sep_chars@, 0);
            }
            let mut a: Vec<char> = Vec::new();
            let mut b: Vec<char> = Vec::new();
            let mut i: usize = 0;
            while i < s.len()
                invariant
                    i <= s@.len(),
                    p + 3 <= s@.len(),
                    i <= p ==> a@ == s@.take(i as int) && b@.len() == 0,
                    p < i ==> a@ == s@.take(p as int),
                    p + 3 <= i ==> b@ == s@.subrange(p + 3, i as int),
                    p <= i < p + 3 ==> b@.len() == 0,
                decreases s.len() - i,
            {
                if i < p {
                    a.push(s[i]);
                    assert(a@ =~= s@.take(i + 1));
                } else if i >= p + 3 {
                    b.push(s[i]);
                    assert(b@ =~= s@.subrange(p + 3, i + 1));
                }
                i = i + 1;
            }
            assert(b@ =~= s@.skip(p + 3));
            Some((a, b))
        },
        None => None,
    }
}

/// Parse a type line such as `Legendary Creature — Human Soldier` into its
/// supertypes, card types and subtypes; unknown words are skipped.
pub fn parse_type_line(type_line: &str) -> (r: (Vec<Supertype>, Vec<CardType>, Vec<Subtype>))
    ensures
        r.0@ == supertypes_of(words(type_line_parts(type_line@).0)),
        r.1@ == card_types_of(words(type_line_parts(type_line@).0)),
        subtype_names(r.2@) == subtypes_of_line(type_line@),
{
    let chars = chars_of(type_line);
    proof {
        reveal_strlit(" \u{2014} ");
        reveal_strlit(" - ");
    }
    let parts: (Vec<char>, Option<Vec<char>>) = match split_at_sep(&chars, " \u{2014} ") {
        Some((a, b)) => (a, Some(b)),
        None => match split_at_sep(&chars, " - ") {
            Some((a, b)) => (a, Some(b)),
            None => (chars_of(type_line), None),
        },
    };
    let main_words = split_words(&parts.0);
    let ghost mw = main_words@.map_values(|w: Vec<char>| w@);
    let mut supertypes: Vec<Supertype> = Vec::new();
    let mut card_types: Vec<CardType> = Vec::new();
    let mut i: usize = 0;
    while i < main_words.len()
        invariant
            i <= main_words@.len(),
            mw == main_words@.map_values(|w: Vec<char>| w@),
            supertypes@ == supertypes_of(mw.take(i as int)),
            card_types@ == card_types_of(mw.take(i as int)),
        decreases main_words.len() - i,
    {
        assert(mw.take(i + 1).drop_last() =~= mw.take(i as int));
        assert(mw.take(i + 1).last() == main_words@[i as int]@);
        let w = &main_words[i];
        if chars_eq_str(w, "Legendary") {
            supertypes.push(Supertype::Legendary);
        } else if chars_eq_str(w, "Basic") {
            supertypes.push(Supertype::Basic);
        } else if chars_eq_str(w, "Snow") {
            supertypes.push(Supertype::Snow);
        }
        if chars_eq_str(w, "Creature") {
            card_types.push(CardType::Creature);
        } else if chars_eq_str(w, "Instant") {
            card_types.push(CardType::Instant);
        } else if chars_eq_str(w, "Sorcery") {
            card_types.push(CardType::Sorcery);
        } else if chars_eq_str(w, "Enchantment") {
            card_types.push(CardType::Enchantment);
        } else if chars_eq_str(w, "Artifact") {
            card_types.push(CardType::Artifact);
        } else if chars_eq_str(w, "Planeswalker") {
            card_types.push(CardType::Planeswalker);
        } else if chars_eq_str(w, "Land") {
            card_types.push(CardType::Land);
        }
        i = i + 1;
    }
    assert(mw.take(mw.len() as int) =~= mw);
    let mut subtypes: Vec<Subtype> = Vec::new();
    match &parts.1 {
        Some(sub) => {
            let sub_words = split_words(sub);
            let ghost sw = sub_words@.map_values(|w: Vec<char>| w@);
            let mut j: usize = 0;
            while j < sub_words.len()
                invariant
                    j <= sub_words@.len(),
                    sw == sub_words@.map_values(|w: Vec<char>| w@),
                    subtype_names(subtypes@) == sw.take(j as int),
                decreases sub_words.len() - j,
            {
                let name = string_from_chars(&sub_words[j]);
                let ghost before = subtypes@;
                subtypes.push(Subtype(name));
                assert(subtype_names(subtypes@) =~= subtype_names(before).push(sub_words@[j as int]@));
                assert(sw.take(j + 1) =~= sw.take(j as int).push(sub_words@[j as int]@));
                j = j + 1;
            }
            assert(sw.take(sw.len() as int) =~= sw);
        },
        None => {
            assert(subtype_names(subtypes@) =~= Seq::<Seq<char>>::empty());
        },
    }
    (supertypes, card_types, subtypes)
}

/// A mana ability as plain values: its kind (0 a color, 1 a choice, 2 any
/// color, 3 colorless, 4 a colorless amount), its color, its choice of
/// colors and its amount.
pub open spec fn ability_view(a: ManaAbility) -> (u8, Color, Seq<Color>, u32) {
    match a {
        ManaAbility::TapForColor(c) => (0, c, Seq::empty(), 0),
        ManaAbility::TapForChoice(v) => (1, Color::White, v@, 0),
        ManaAbility::TapForAny => (2, Color::White, Seq::empty(), 0),
        ManaAbility::TapForColorless => (3, Color::White, Seq::empty(), 0),
        ManaAbility::TapForColorlessAmount(n) => (4, Color::White, Seq::empty(), n),
    }
}

/// The view of a fixed-color ability.
pub open spec fn color_view(c: Color) -> (u8, Color, Seq<Color>, u32) {
    (0, c, Seq::empty(), 0)
}

/// The abilities implied by the basic land types in a lowercased type
/// line: plains, mountain, forest, island, swamp, in that order.
pub open spec fn basic_type_abilities(tl: Seq<char>) -> Seq<(u8, Color, Seq<Color>, u32)> {
    (if has(tl, "plains"@) { seq![color_view(Color::White)] } else { Seq::empty() })
        + (if has(tl, "mountain"@) { seq![color_view(Color::Red)] } else { Seq::empty() })
        + (if has(tl, "forest"@) { seq![color_view(Color::Green)] } else { Seq::empty() })
        + (if has(tl, "island"@) { seq![color_view(Color::Blue)] } else { Seq::empty() })
        + (if has(tl, "swamp"@) { seq![color_view(Color::Black)] } else { Seq::empty() })
}

/// Whether lowercased oracle text grants mana of any color.
pub open spec fn text_any_color(text: Seq<char>) -> bool {
    has(text, "{t}: add one mana of any color"@) || has(text, "{t}: add {c} or one mana of any color"@)
        || has(text, "add one mana of any color"@)
}

/// Whether lowercased oracle text grants colorless mana.
pub open spec fn text_colorless(text: Seq<char>) -> bool {
    has(text, "{t}: add {c}"@) || has(text, "{t}: add one colorless"@)
}

/// The colors, in the order White, Blue, Black, Red, Green, that
/// lowercased oracle text says are added.
pub open spec fn text_colors(text: Seq<char>) -> Seq<Color> {
    (if has(text, "add {w}"@) || has(text, "add {w} or"@) { seq![Color::White] } else { Seq::empty() })
        + (if has(text, "add {u}"@) || has(text, "add {u} or"@) { seq![Color::Blue] } else { Seq::empty() })
        + (if has(text, "add {b}"@) || has(text, "add {b} or"@) { seq![Color::Black] } else { Seq::empty() })
        + (if has(text, "add {r}"@) || has(text, "add {r} or"@) { seq![Color::Red] } else { Seq::empty() })
        + (if has(text, "add {g}"@) || has(text, "add {g} or"@) { seq![Color::Green] } else { Seq::empty() })
}

/// The mana abilities of a land, from its type line and oracle text: the
/// basic land types it has; otherwise any color or colorless as its text
/// says, and the colors its text adds (one choice among them when there
/// are several).
pub open spec fn land_mana_spec(type_line: Seq<char>, oracle_text: Seq<char>) -> Seq<(u8, Color, Seq<Color>, u32)> {
    let basics = basic_type_abilities(lowercase(type_line));
    if basics.len() > 0 {
        basics
    } else {
        let text = lowercase(oracle_text);
        let any = text_any_color(text);
        let colorless = !any && text_colorless(text);
        let first: Seq<(u8, Color, Seq<Color>, u32)> = if any {
            seq![(2u8, Color::White, Seq::<Color>::empty(), 0u32)]
        } else if colorless {
            seq![(3u8, Color::White, Seq::<Color>::empty(), 0u32)]
        } else {
            Seq::empty()
        };
        if has(text, "{t}: add "@) && !any {
            let cols = text_colors(text);
            if !colorless && cols.len() > 1 {
                seq![(1u8, Color::White, cols, 0u32)]
            } else {
                first + cols.map_values(|c: Color| color_view(c))
            }
        } else {
            first
        }
    }
}

/// Push a fixed-color ability when a text holds a word.
fn push_if(out: &mut Vec<ManaAbility>, text: &Vec<char>, word: &str, c: Color)
    ensures
        final(out)@.map_values(|a: ManaAbility| ability_view(a)) == old(out)@.map_values(|a: ManaAbility| ability_view(a)) + (if has(text@, word@) {
            seq![color_view(c)]
        } else {
            Seq::empty()
        }),
{
    let ghost before = out@.map_values(|a: ManaAbility| ability_view(a));
    if contains_str(text, word) {
        out.push(ManaAbility::TapForColor(c));
        assert(out@.map_values(|a: ManaAbility| ability_view(a)) =~= before + seq![color_view(c)]);
    } else {
        assert(before + Seq::<(u8, Color, Seq<Color>, u32)>::empty() =~= before);
    }
}

/// Push a color when oracle text adds it.
fn push_color_if(cols: &mut Vec<Color>, text: &Vec<char>, plain: &str, with_or: &str, c: Color)
    ensures
        final(cols)@ == old(cols)@ + (if has(text@, plain@) || has(text@, with_or@) {
            seq![c]
        } else {
            Seq::empty()
        }),
{
    if contains_str(text, plain) || contains_str(text, with_or) {
        cols.push(c);
        assert(cols@ =~= old(cols)@ + seq![c]);
    } else {
        assert(cols@ =~= old(cols)@ + Seq::<Color>::empty());
    }
}

/// Work out what mana a land makes from its type line and oracle text.
pub fn parse_land_mana_abilities(type_line: &str, oracle_text: &str) -> (r: Vec<ManaAbility>)
    ensures
        r@.map_values(|a: ManaAbility| ability_view(a)) == land_mana_spec(type_line@, oracle_text@),
{
    let tl_string = to_lowercase(type_line);
    let tl = chars_of(tl_string.as_str());
    let mut abilities: Vec<ManaAbility> = Vec::new();
    assert(abilities@.map_values(|a: ManaAbility| ability_view(a)) =~= Seq::<(u8, Color, Seq<Color>, u32)>::empty());
    push_if(&mut abilities, &tl, "plains", Color::White);
    push_if(&mut abilities, &tl, "mountain", Color::Red);
    push_if(&mut abilities, &tl, "forest", Color::Green);
    push_if(&mut abilities, &tl, "island", Color::Blue);
    push_if(&mut abilities, &tl, "swamp", Color::Black);
    assert(abilities@.map_values(|a: ManaAbility| ability_view(a)) =~= basic_type_abilities(lowercase(type_line@)));
    if abilities.len() > 0 {
        return abilities;
    }
    let text_string = to_lowercase(oracle_text);
    let text = chars_of(text_string.as_str());
    let any = contains_str(&text, "{t}: add one mana of any color") || contains_str(&text, "{t}: add {c} or one mana of any color")
        || contains_str(&text, "add one mana of any color");
    let colorless = !any && (contains_str(&text, "{t}: add {c}") || contains_str(&text, "{t}: add one colorless"));
    let mut first: Vec<ManaAbility> = Vec::new();
    if any {
        first.push(ManaAbility::TapForAny);
    } else if colorless {
        first.push(ManaAbility::TapForColorless);
    }
    let ghost first_view = first@.map_values(|a: ManaAbility| ability_view(a));
    assert(first_view =~= (if any {
        seq![(2u8, Color::White, Seq::<Color>::empty(), 0u32)]
    } else if colorless {
        seq![(3u8, Color::White, Seq::<Color>::empty(), 0u32)]
    } else {
        Seq::<(u8, Color, Seq<Color>, u32)>::empty()
    }));
    if contains_str(&text, "{t}: add ") && !any {
        let mut cols: Vec<Color> = Vec::new();
        push_color_if(&mut cols, &text, "add {w}", "add {w} or", Color::White);
        push_color_if(&mut cols, &text, "add {u}", "add {u} or", Color::Blue);
        push_color_if(&mut cols, &text, "add {b}", "add {b} or", Color::Black);
        push_color_if(&mut cols, &text, "add {r}", "add {r} or", Color::Red);
        push_color_if(&mut cols, &text, "add {g}", "add {g} or", Color::Green);
        assert(cols@ =~= text_colors(lowercase(oracle_text@)));
        if !colorless && cols.len() > 1 {
            let ghost cv = cols@;
            let mut single: Vec<ManaAbility> = Vec::new();
            single.push(ManaAbility::TapForChoice(cols));
            assert(single@.map_values(|a: ManaAbility| ability_view(a)) =~= seq![(1u8, Color::White, cv, 0u32)]);
            return single;
        }
        let mut k: usize = 0;
        while k < cols.len()
            invariant
                k <= cols@.len(),
                first@.map_values(|a: ManaAbility| ability_view(a)) == first_view + cols@.take(k as int).map_values(|c: Color| color_view(c)),
            decreases cols.len() - k,
        {
            let ghost before = first@.map_values(|a: ManaAbility| ability_view(a));
            first.push(ManaAbility::TapForColor(cols[k]));
            assert(first@.map_values(|a: ManaAbility| ability_view(a)) =~= before.push(color_view(cols@[k as int])));
            assert(cols@.take(k + 1).map_values(|c: Color| color_view(c)) =~= cols@.take(k as int).map_values(|c: Color| color_view(c)).push(color_view(cols@[k as int])));
            k = k + 1;
        }
        assert(cols@.take(cols@.len() as int) =~= cols@);
    }
    first
}

/// One card line of a deck list: how many copies, the card name as
/// written, the name to look it up by, and whether it is in the
/// commanders section.
#[derive(Debug, Clone)]
pub struct DeckLine {
    pub quantity: u32,
    pub card_name: String,
    pub lookup_name: String,
    pub is_commander: bool,
}

/// The view of a deck line.
pub open spec fn deck_line_view(l: DeckLine) -> (u32, Seq<char>, Seq<char>, bool) {
    (l.quantity, l.card_name@, l.lookup_name@, l.is_commander)
}

/// The name a deck-list card is looked up by: the trimmed front face of a
/// `Front // Back` name, or the name itself.
pub open spec fn lookup_name_spec(name: Seq<char>) -> Seq<char> {
    match find_from(name, " // "@, 0) {
        Some(p) => trim(name.take(p)),
        None => name,
    }
}

/// Whether a trimmed line is a section header (`~~Name~~`).
pub open spec fn is_header(t: Seq<char>) -> bool {
    starts_with(t, "~~"@) && ends_with(t, "~~"@)
}

/// Whether a header opens the commanders section.
pub open spec fn header_is_commander(t: Seq<char>) -> bool {
    has(lowercase(trim(trim_char(t, '~'))), "commander"@)
}

/// The card lines of `ls`, read in order with the commanders flag `in_cmd`,
/// after the lines `acc` already read. Empty lines, comments (`//` or
/// `#`), and lines that are not a quantity, white space and a name are
/// skipped; a header line sets whether the following lines are commanders.
pub open spec fn deck_lines_from(
    ls: Seq<Seq<char>>,
    in_cmd: bool,
    acc: Seq<(u32, Seq<char>, Seq<char>, bool)>,
) -> Seq<(u32, Seq<char>, Seq<char>, bool)>
    decreases ls.len(),
{
    if ls.len() == 0 {
        acc
    } else {
        let t = trim(ls[0]);
        let rest = ls.drop_first();
        if t.len() == 0 {
            deck_lines_from(rest, in_cmd, acc)
        } else if is_header(t) {
            deck_lines_from(rest, header_is_commander(t), acc)
        } else if starts_with(t, "//"@) || starts_with(t, "#"@) {
            deck_lines_from(rest, in_cmd, acc)
        } else {
            match first_ws_from(t, 0) {
                None => deck_lines_from(rest, in_cmd, acc),
                Some(k) => match parse_u32_spec(t.take(k)) {
                    None => deck_lines_from(rest, in_cmd, acc),
                    Some(q) => {
                        let name = trim(t.skip(k));
                        if name.len() == 0 {
                            deck_lines_from(rest, in_cmd, acc)
                        } else {
                            deck_lines_from(rest, in_cmd, acc.push((q as u32, name, lookup_name_spec(name), in_cmd)))
                        }
                    },
                },
            }
        }
    }
}

/// The card lines of a deck list.
pub open spec fn deck_lines_spec(text: Seq<char>) -> Seq<(u32, Seq<char>, Seq<char>, bool)> {
    deck_lines_from(lines(text), false, Seq::empty())
}

/// The name to look a card up by.
fn lookup_name_of(name: &Vec<char>) -> (r: Vec<char>)
    ensures
        r@ == lookup_name_spec(name@),
{
    let sep = chars_of(" // ");
    match find_chars(name, &sep) {
        Some(p) => {
            proof {
                crate::text::lemma_find_from_occurs(name@, sep@, 0);
            }
            let front = chars_take(name, p);
            trim_chars(&front)
        },
        None => {
            let mut out: Vec<char> = Vec::new();
            let mut i: usize = 0;
            while i < name.len()
                invariant
                    i <= name@.len(),
                    out@ == name@.take(i as int),
                decreases name.len() - i,
            {
                out.push(name[i]);
                i = i + 1;
                assert(out@ =~= name@.take(i as int));
            }
            assert(name@.take(name@.len() as int) =~= name@);
            out
        },
    }
}

/// Read the card lines of a deck list in the format
/// `~~Commanders~~` / `1 Card Name` / ... / `~~Mainboard~~` / ...
pub fn parse_deck_lines(deck_text: &str) -> (r: Vec<DeckLine>)
    ensures
        r@.map_values(|l: DeckLine| deck_line_view(l)) == deck_lines_spec(deck_text@),
{
    let text = chars_of(deck_text);
    let ls = split_lines(&text);
    let ghost lv = ls@.map_values(|w: Vec<char>| w@);
    let mut out: Vec<DeckLine> = Vec::new();
    let mut in_cmd = false;
    let mut i: usize = 0;
    assert(lv.skip(0) =~= lv);
    assert(out@.map_values(|l: DeckLine| deck_line_view(l)) =~= Seq::<(u32, Seq<char>, Seq<char>, bool)>::empty());
    while i < ls.len()
        invariant
            i <= ls@.len(),
            lv == ls@.map_values(|w: Vec<char>| w@),
            deck_lines_spec(deck_text@) == deck_lines_from(lv.skip(i as int), in_cmd, out@.map_values(|l: DeckLine| deck_line_view(l))),
        decreases ls.len() - i,
    {
        assert(lv.skip(i as int)[0] == ls@[i as int]@);
        assert(lv.skip(i as int).drop_first() =~= lv.skip(i + 1));
        let t = trim_chars(&ls[i]);
        i = i + 1;
        if t.len() == 0 {
            continue;
        }
        if starts_with_str(&t, "~~") && ends_with_str(&t, "~~") {
            let inner = trim_char_exec(&t, '~');
            let inner_trimmed = trim_chars(&inner);
            let section_str = string_from_chars(&inner_trimmed);
            let lower = to_lowercase(section_str.as_str());
            let lower_chars = chars_of(lower.as_str());
            in_cmd = contains_str(&lower_chars, "commander");
            continue;
        }
        if starts_with_str(&t, "//") || starts_with_str(&t, "#") {
            continue;
        }
        let k = match first_ws(&t) {
            Some(k) => k,
            None => {
                continue;
            },
        };
        let qty_chars = chars_take(&t, k);
        let quantity = match parse_u32_chars(&qty_chars) {
            Some(q) => q,
            None => {
                continue;
            },
        };
        let rest = chars_from(&t, k);
        let name = trim_chars(&rest);
        if name.len() == 0 {
            continue;
        }
        let lookup = lookup_name_of(&name);
        let ghost before = out@.map_values(|l: DeckLine| deck_line_view(l));
        out.push(
            DeckLine {
                quantity,
                card_name: string_from_chars(&name),
                lookup_name: string_from_chars(&lookup),
                is_commander: in_cmd,
            },
        );
        assert(out@.map_values(|l: DeckLine| deck_line_view(l)) =~= before.push((quantity, name@, lookup@, in_cmd)));
    }
    out
}

/// `{n}`: a generic mana symbol.
pub open spec fn braced(n: nat) -> Seq<char> {
    "{"@ + decimal(n) + "}"@
}

/// The largest `n` from `n` down to 1 whose symbol `{n}` occurs in a text.
pub open spec fn largest_braced(text: Seq<char>, n: nat) -> Option<u32>
    decreases n,
{
    if n == 0 {
        None
    } else if has(text, braced(n)) {
        Some(n as u32)
    } else {
        largest_braced(text, (n - 1) as nat)
    }
}

/// The generic reduction in cost-reduction text: before the first `less`,
/// the largest `{n}` for n up to 10, or else 1 for `one `/`1 `, 2 for
/// `two `/`2 `.
pub open spec fn generic_reduction_spec(text: Seq<char>) -> Option<u32> {
    match find_from(text, "less"@, 0) {
        None => None,
        Some(i) => {
            let b = text.take(i);
            match largest_braced(b, 10) {
                Some(n) => Some(n),
                None => if has(b, "one "@) || has(b, "1 "@) {
                    Some(1)
                } else if has(b, "two "@) || has(b, "2 "@) {
                    Some(2)
                } else {
                    None
                },
            }
        },
    }
}

/// The generic reduction amount in text like `cost {1} less`.
pub fn extract_generic_reduction(text: &Vec<char>) -> (r: Option<u32>)
    ensures
        r == generic_reduction_spec(text@),
{
    let less = chars_of("less");
    let idx = match find_chars(text, &less) {
        Some(i) => i,
        None => return None,
    };
    proof {
        crate::text::lemma_find_from_occurs(text@, less@, 0);
    }
    let before = chars_take(text, idx);
    let mut n: u32 = 10;
    while n > 0
        invariant
            n <= 10,
            less@ == "less"@,
            find_from(text@, "less"@, 0) == Some(idx as int),
            before@ == text@.take(idx as int),
            largest_braced(before@, 10) == largest_braced(before@, n as nat),
        decreases n,
    {
        let mut pat = String::new();
        crate::text::push_str(&mut pat, "{");
        crate::text::push_decimal(&mut pat, n as u64);
        crate::text::push_str(&mut pat, "}");
        assert(pat@ =~= braced(n as nat));
        let pat_chars = chars_of(pat.as_str());
        if find_chars(&before, &pat_chars).is_some() {
            return Some(n);
        }
        n = n - 1;
    }
    if contains_str(&before, "one ") || contains_str(&before, "1 ") {
        return Some(1);
    }
    if contains_str(&before, "two ") || contains_str(&before, "2 ") {
        return Some(2);
    }
    None
}

/// The cost reduction that oracle text gives: when its lowercase form
/// mentions `cost` and `less to cast`, the generic reduction it names (1
/// if none), for creature spells if it says `creature spells`, else for
/// all spells.
pub open spec fn cost_reduction_spec(oracle_text: Seq<char>) -> Option<CostReduction> {
    let text = lowercase(oracle_text);
    if has(text, "cost"@) && has(text, "less to cast"@) {
        Some(
            CostReduction {
                generic_reduction: match generic_reduction_spec(text) {
                    Some(n) => n,
                    None => 1,
                },
                applies_to: if has(text, "creature spells"@) {
                    CostReductionTarget::CreatureSpells
                } else {
                    CostReductionTarget::AllSpells
                },
            },
        )
    } else {
        None
    }
}

/// Read a cost reduction from oracle text.
pub fn parse_cost_reduction(oracle_text: &str) -> (r: Option<CostReduction>)
    ensures
        r == cost_reduction_spec(oracle_text@),
{
    let lower = to_lowercase(oracle_text);
    let text = chars_of(lower.as_str());
    if contains_str(&text, "cost") && contains_str(&text, "less to cast") {
        let amount = match extract_generic_reduction(&text) {
            Some(n) => n,
            None => 1,
        };
        let applies_to = if contains_str(&text, "creature spells") {
            CostReductionTarget::CreatureSpells
        } else {
            CostReductionTarget::AllSpells
        };
        return Some(CostReduction { generic_reduction: amount, applies_to });
    }
    None
}

/// What a character of a card name becomes in a cache file name: path and
/// shell characters and spaces become `_`, ASCII capitals are lowered.
pub open spec fn cache_char(c: char) -> char {
    if c == '/' || c == '\\' || c == ':' || c == '*' || c == '?' || c == '"' || c == '<' || c == '>'
        || c == '|' || c == ' ' {
        '_'
    } else if 'A' <= c && c <= 'Z' {
        ((c as u32) + 32) as char
    } else {
        c
    }
}

/// The cache file name of a card name.
pub open spec fn cache_filename_spec(name: Seq<char>) -> Seq<char> {
    name.map_values(|c: char| cache_char(c)) + ".json"@
}

/// The file-system-safe cache file name of a card name.
pub fn cache_filename(name: &str) -> (r: String)
    ensures
        r@ == cache_filename_spec(name@),
{
    let chars = chars_of(name);
    let mut out = String::new();
    let mut i: usize = 0;
    while i < chars.len()
        invariant
            i <= chars@.len(),
            out@ == chars@.take(i as int).map_values(|c: char| cache_char(c)),
        decreases chars.len() - i,
    {
        let c = chars[i];
        let m = if c == '/' || c == '\\' || c == ':' || c == '*' || c == '?' || c == '"' || c == '<' || c == '>'
            || c == '|' || c == ' ' {
            '_'
        } else if 'A' <= c && c <= 'Z' {
            let lower = ((c as u8) + 32) as char;
            assert(lower == ((c as u32) + 32) as char);
            lower
        } else {
            c
        };
        push_char(&mut out, m);
        i = i + 1;
        assert(out@ =~= chars@.take(i as int).map_values(|c: char| cache_char(c)));
    }
    assert(chars@.take(chars@.len() as int) =~= chars@);
    crate::text::push_str(&mut out, ".json");
    out
}

/// The UTF-8 encoding of a character.
pub open spec fn utf8(c: char) -> Seq<u8> {
    let u = c as u32;
    if u < 0x80 {
        seq![u as u8]
    } else if u < 0x800 {
        seq![(0xC0 + u / 64) as u8, (0x80 + u % 64) as u8]
    } else if u < 0x10000 {
        seq![(0xE0 + u / 4096) as u8, (0x80 + (u / 64) % 64) as u8, (0x80 + u % 64) as u8]
    } else {
        seq![
            (0xF0 + u / 262144) as u8,
            (0x80 + (u / 4096) % 64) as u8,
            (0x80 + (u / 64) % 64) as u8,
            (0x80 + u % 64) as u8,
        ]
    }
}

/// The uppercase hexadecimal digit of a number below 16.
pub open spec fn hex_digit(d: int) -> char {
    if d < 10 {
        ((48 + d) as u32) as char
    } else {
        ((55 + d) as u32) as char
    }
}

/// `%XX` for each byte.
pub open spec fn percent_bytes(b: Seq<u8>) -> Seq<char>
    decreases b.len(),
{
    if b.len() == 0 {
        Seq::empty()
    } else {
        percent_bytes(b.drop_last()) + seq!['%', hex_digit((b.last() / 16) as int), hex_digit((b.last() % 16) as int)]
    }
}

/// Whether a character is left as it is in a URL query.
pub open spec fn url_safe(c: char) -> bool {
    ('A' <= c && c <= 'Z') || ('a' <= c && c <= 'z') || ('0' <= c && c <= '9') || c == '-' || c == '_'
        || c == '.' || c == '~'
}

/// How a character is written in a URL query: as is if safe, `+` for a
/// space, otherwise the `%XX` codes of its UTF-8 bytes.
pub open spec fn url_char(c: char) -> Seq<char> {
    if url_safe(c) {
        seq![c]
    } else if c == ' ' {
        seq!['+']
    } else {
        percent_bytes(utf8(c))
    }
}

/// A string encoded for a URL query.
pub open spec fn urlencode_spec(s: Seq<char>) -> Seq<char>
    decreases s.len(),
{
    if s.len() == 0 {
        Seq::empty()
    } else {
        urlencode_spec(s.drop_last()) + url_char(s.last())
    }
}

/// The uppercase hexadecimal digit of a number below 16.
fn hex_digit_exec(d: u8) -> (r: char)
    requires
        d < 16,
    ensures
        r == hex_digit(d as int),
{
    if d < 10 {
        (48 + d) as char
    } else {
        (55 + d) as char
    }
}

/// The UTF-8 bytes of a character.
fn utf8_bytes(c: char) -> (r: Vec<u8>)
    ensures
        r@ == utf8(c),
{
    let u = c as u32;
    let mut v: Vec<u8> = Vec::new();
    if u < 0x80 {
        v.push(u as u8);
    } else if u < 0x800 {
        v.push((0xC0 + u / 64) as u8);
        v.push((0x80 + u % 64) as u8);
    } else if u < 0x10000 {
        v.push((0xE0 + u / 4096) as u8);
        v.push((0x80 + (u / 64) % 64) as u8);
        v.push((0x80 + u % 64) as u8);
    } else {
        assert(u <= 0x10FFFF);
        v.push((0xF0 + u / 262144) as u8);
        v.push((0x80 + (u / 4096) % 64) as u8);
        v.push((0x80 + (u / 64) % 64) as u8);
        v.push((0x80 + u % 64) as u8);
    }
    assert(v@ =~= utf8(c));
    v
}

/// Encode a string for a URL query: letters, digits and `-_.~` stay,
/// spaces become `+`, anything else is percent-encoded byte by byte.
pub fn urlencode(s: &str) -> (r: String)
    ensures
        r@ == urlencode_spec(s@),
{
    let chars = chars_of(s);
    let mut out = String::new();
    let mut i: usize = 0;
    while i < chars.len()
        invariant
            i <= chars@.len(),
            out@ == urlencode_spec(chars@.take(i as int)),
        decreases chars.len() - i,
    {
        let c = chars[i];
        let ghost before = out@;
        if ('A' <= c && c <= 'Z') || ('a' <= c && c <= 'z') || ('0' <= c && c <= '9') || c == '-' || c == '_'
            || c == '.' || c == '~' {
            push_char(&mut out, c);
        } else if c == ' ' {
            push_char(&mut out, '+');
        } else {
            let bytes = utf8_bytes(c);
            let mut k: usize = 0;
            while k < bytes.len()
                invariant
                    k <= bytes@.len(),
                    out@ == before + percent_bytes(bytes@.take(k as int)),
                decreases bytes.len() - k,
            {
                let b = bytes[k];
                push_char(&mut out, '%');
                push_char(&mut out, hex_digit_exec(b / 16));
                push_char(&mut out, hex_digit_exec(b % 16));
                assert(bytes@.take(k + 1).drop_last() =~= bytes@.take(k as int));
                assert(out@ =~= before + percent_bytes(bytes@.take(k + 1)));
                k = k + 1;
            }
            assert(bytes@.take(bytes@.len() as int) =~= bytes@);
        }
        assert(chars@.take(i + 1).drop_last() =~= chars@.take(i as int));
        assert(out@ =~= urlencode_spec(chars@.take(i + 1)));
        i = i + 1;
    }
    assert(chars@.take(chars@.len() as int) =~= chars@);
    out
}

/// What reading a string as an `i32` gives (`str::parse::<i32>`): an
/// optional sign, then one or more decimal digits whose value fits.
pub open spec fn parse_i32_spec(s: Seq<char>) -> Option<int> {
    if s.len() > 0 && s[0] == '-' {
        let d = s.drop_first();
        if d.len() > 0 && all_digits(d) && digits_value(d) <= 2147483648 {
            Some(-digits_value(d))
        } else {
            None
        }
    } else {
        let d = unsigned_part(s);
        if d.len() > 0 && all_digits(d) && digits_value(d) <= 2147483647 {
            Some(digits_value(d))
        } else {
            None
        }
    }
}

/// Read a string as an `i32`.
pub fn parse_i32_str(s: &str) -> (r: Option<i32>)
    ensures
        r is Some <==> parse_i32_spec(s@) is Some,
        r is Some ==> parse_i32_spec(s@) == Some(r->0 as int),
{
    let chars = chars_of(s);
    if chars.len() > 0 && chars[0] == '-' {
        let d = chars_from(&chars, 1);
        assert(d@ =~= s@.drop_first());
        if d.len() == 0 || d[0] == '+' {
            proof {
                if d@.len() > 0 {
                    assert(!crate::mana::is_digit(d@[0]));
                }
            }
            return None;
        }
        assert(unsigned_part(d@) == d@);
        match parse_u32_chars(&d) {
            Some(v) => {
                if v <= 2147483648 {
                    if v == 2147483648 {
                        Some(-2147483647i32 - 1)
                    } else {
                        Some(-(v as i32))
                    }
                } else {
                    None
                }
            },
            None => None,
        }
    } else {
        match parse_u32_chars(&chars) {
            Some(v) => {
                if v <= 2147483647 {
                    Some(v as i32)
                } else {
                    None
                }
            },
            None => None,
        }
    }
}

/// Read a string as a `u32`.
pub fn parse_u32_str(s: &str) -> (r: Option<u32>)
    ensures
        r is Some <==> parse_u32_spec(s@) is Some,
        r is Some ==> parse_u32_spec(s@) == Some(r->0 as int),
{
    let chars = chars_of(s);
    parse_u32_chars(&chars)
}

/// The part of a Scryfall card's data this engine reads.
#[derive(Debug, Clone)]
pub struct ScryfallCard {
    pub name: String,
    pub mana_cost: Option<String>,
    pub type_line: Option<String>,
    pub oracle_text: Option<String>,
    pub power: Option<String>,
    pub toughness: Option<String>,
    pub keywords: Vec<String>,
    pub loyalty: Option<String>,
    pub colors: Vec<String>,
    pub color_identity: Vec<String>,
    /// Scryfall layout: "normal", "transform", "modal_dfc", "split", ...
    pub layout: Option<String>,
    /// The faces of a double-faced or split card.
    pub card_faces: Option<Vec<ScryfallCardFace>>,
    pub legalities: Option<ScryfallLegalities>,
}

/// A face of a double-faced or split card.
#[derive(Debug, Clone)]
pub struct ScryfallCardFace {
    pub name: String,
    pub mana_cost: Option<String>,
    pub type_line: Option<String>,
    pub oracle_text: Option<String>,
    pub power: Option<String>,
    pub toughness: Option<String>,
    pub keywords: Vec<String>,
    pub loyalty: Option<String>,
    pub colors: Vec<String>,
}

/// Format legalities of a card.
#[derive(Debug, Clone)]
pub struct ScryfallLegalities {
    pub commander: Option<String>,
    pub standard: Option<String>,
    pub modern: Option<String>,
}

/// The characters of an optional string.
pub open spec fn opt_view(s: Option<String>) -> Option<Seq<char>> {
    match s {
        Some(x) => Some(x@),
        None => None,
    }
}

/// The characters of an optional string, or nothing.
pub open spec fn or_empty(s: Option<String>) -> Seq<char> {
    match s {
        Some(x) => x@,
        None => Seq::empty(),
    }
}

/// The printed data a card definition is made from: that of the front
/// face of a card with faces (its mana cost falling back to the card's),
/// otherwise the card's own. In order: mana cost, type line, oracle text,
/// power, toughness, keywords, loyalty.
pub open spec fn printed_data(card: ScryfallCard) -> (
    Option<Seq<char>>,
    Seq<char>,
    Seq<char>,
    Option<Seq<char>>,
    Option<Seq<char>>,
    Seq<String>,
    Option<Seq<char>>,
) {
    match card.card_faces {
        Some(faces) if faces@.len() > 0 => {
            let f = faces@[0];
            (
                match f.mana_cost {
                    Some(m) => Some(m@),
                    None => opt_view(card.mana_cost),
                },
                or_empty(f.type_line),
                or_empty(f.oracle_text),
                opt_view(f.power),
                opt_view(f.toughness),
                f.keywords@,
                opt_view(f.loyalty),
            )
        },
        _ => (
            opt_view(card.mana_cost),
            or_empty(card.type_line),
            or_empty(card.oracle_text),
            opt_view(card.power),
            opt_view(card.toughness),
            card.keywords@,
            opt_view(card.loyalty),
        ),
    }
}

/// Whether the mana cost of a card's printed data can be totalled in `u32`s.
pub open spec fn printed_cost_fits(card: ScryfallCard) -> bool {
    &&& match printed_data(card).0 {
        Some(m) => tally_fits(parse_tally(m)),
        None => true,
    }
    &&& equip::equip_cost_fits(printed_data(card).2)
    &&& activated::activated_fit(printed_data(card).2)
}

/// An optional string's value, read as an `i32` when present.
pub open spec fn opt_i32(s: Option<Seq<char>>) -> Option<i32> {
    match s {
        Some(x) => match parse_i32_spec(x) {
            Some(v) => Some(v as i32),
            None => None,
        },
        None => None,
    }
}

/// Whether a card's printed mana cost can be totalled in `u32`s, which
/// converting the card needs.
pub fn printed_cost_fits_check(card: &ScryfallCard) -> (r: bool)
    ensures
        r == printed_cost_fits(*card),
{
    let m: Option<&String> = match &card.card_faces {
        Some(faces) if faces.len() > 0 => match &faces[0].mana_cost {
            Some(m) => Some(m),
            None => card.mana_cost.as_ref(),
        },
        _ => card.mana_cost.as_ref(),
    };
    let empty = String::new();
    let ot: &String = match &card.card_faces {
        Some(faces) if faces.len() > 0 => match &faces[0].oracle_text {
            Some(t) => t,
            None => &empty,
        },
        _ => match &card.oracle_text {
            Some(t) => t,
            None => &empty,
        },
    };
    let equip_fits = match equip::equip_cost_string(ot.as_str()) {
        Some(c) => ManaCost::parse_checked(c.as_str()).is_some(),
        None => true,
    };
    let cost_fits = match m {
        Some(m) => ManaCost::parse_checked(m.as_str()).is_some(),
        None => true,
    };
    let acts_fit = activated::activated_fit_check(ot.as_str());
    cost_fits && equip_fits && acts_fit
}

/// Whether a spell effect is what an instant's or sorcery's oracle text
/// reads as (see `spell::parse_spell_effect`); other cards have none.
pub open spec fn spell_effect_of(e: Option<crate::card::Effect>, types: Seq<CardType>, text: Seq<char>) -> bool {
    if types.contains(CardType::Instant) || types.contains(CardType::Sorcery) {
        match spell::spell_effect_spec(lowercase(text)) {
            Some(b) => e == Some(crate::card::Effect::Single(b)),
            None => if text.len() == 0 {
                e is None
            } else {
                e matches Some(crate::card::Effect::Unimplemented(s)) && s@ == text
            },
        }
    } else {
        e is None
    }
}

/// What converting a Scryfall card gives under the given id: its name;
/// from its printed data, the mana cost (none if empty), the types, the
/// known keywords, power, toughness and loyalty where they are numbers, the
/// land mana abilities, the spell effect of an instant or sorcery, the
/// triggered, activated and static abilities, the equip cost, a cost reduction,
/// whether it enters tapped, and the oracle text; no cost increase.
pub open spec fn converts_to(card: ScryfallCard, id: CardId, r: CardDef) -> bool {
    let (mc, tl, ot, pw, tg, kw, ly) = printed_data(card);
    &&& r.id == id
    &&& r.name@ == card.name@
    &&& (match mc {
        Some(m) => if m.len() == 0 {
            r.mana_cost is None
        } else {
            r.mana_cost is Some && tally_of(r.mana_cost->0) == parse_tally(m)
        },
        None => r.mana_cost is None,
    })
    &&& r.supertypes@ == supertypes_of(words(type_line_parts(tl).0))
    &&& r.card_types@ == card_types_of(words(type_line_parts(tl).0))
    &&& subtype_names(r.subtypes@) == subtypes_of_line(tl)
    &&& r.keywords@ == keywords_of(kw)
    &&& r.power == opt_i32(pw)
    &&& r.toughness == opt_i32(tg)
    &&& r.starting_loyalty == (match ly {
        Some(x) => match parse_u32_spec(x) {
            Some(v) => Some(v as u32),
            None => None,
        },
        None => None,
    })
    &&& r.mana_abilities@.map_values(|a: ManaAbility| ability_view(a)) == land_mana_spec(tl, ot)
    &&& spell_effect_of(r.spell_effect, r.card_types@, ot)
    &&& r.cost_reduction == cost_reduction_spec(ot)
    &&& r.cost_increase is None
    &&& r.static_abilities@ == statics::lines_statics(lines(ot))
    &&& r.activated_abilities@.map_values(|a: crate::card::ActivatedAbility| activated::act_view(a))
        == activated::lines_activated(lines(ot))
    &&& r.triggered_abilities@.map_values(|a: crate::card::TriggeredAbility| a@) == triggers::triggered_spec(ot)
    &&& (match equip::equip_cost_text(ot) {
        Some(cs) => r.equip_cost is Some && tally_of(r.equip_cost->0) == parse_tally(cs),
        None => r.equip_cost is None,
    })
    &&& r.enters_tapped == (has(ot, "enters the battlefield tapped"@) || has(ot, "enters tapped"@))
    &&& r.oracle_text@ == ot
}

/// Convert a Scryfall card into a card definition with the given id: its
/// name; from its printed data, the mana cost (none if empty), the types,
/// the known keywords, power, toughness and loyalty where they are
/// numbers, the land mana abilities, the spell effect of an instant or
/// sorcery, the triggered, activated and static abilities, the equip cost, a cost
/// reduction, whether it enters tapped, and the oracle text.
pub fn scryfall_to_card_def(card: &ScryfallCard, id: CardId) -> (r: CardDef)
    requires
        printed_cost_fits(*card),
    ensures
        converts_to(*card, id, r),
{
    let empty = String::new();
    let (mana_cost_str, type_line, oracle_text, power_str, toughness_str, keywords, loyalty_str): (
        Option<&String>,
        &String,
        &String,
        Option<&String>,
        Option<&String>,
        &Vec<String>,
        Option<&String>,
    ) = match &card.card_faces {
        Some(faces) if faces.len() > 0 => {
            let f = &faces[0];
            (
                match &f.mana_cost {
                    Some(m) => Some(m),
                    None => card.mana_cost.as_ref(),
                },
                match &f.type_line {
                    Some(t) => t,
                    None => &empty,
                },
                match &f.oracle_text {
                    Some(t) => t,
                    None => &empty,
                },
                f.power.as_ref(),
                f.toughness.as_ref(),
                &f.keywords,
                f.loyalty.as_ref(),
            )
        },
        _ => (
            card.mana_cost.as_ref(),
            match &card.type_line {
                Some(t) => t,
                None => &empty,
            },
            match &card.oracle_text {
                Some(t) => t,
                None => &empty,
            },
            card.power.as_ref(),
            card.toughness.as_ref(),
            &card.keywords,
            card.loyalty.as_ref(),
        ),
    };
    let mana_cost = match mana_cost_str {
        Some(m) => {
            if m.as_str().unicode_len() == 0 {
                None
            } else {
                ManaCost::parse(m.as_str())
            }
        },
        None => None,
    };
    let (supertypes, card_types, subtypes) = parse_type_line(type_line.as_str());
    let kw = parse_keywords(keywords);
    let power = match power_str {
        Some(p) => parse_i32_str(p.as_str()),
        None => None,
    };
    let toughness = match toughness_str {
        Some(t) => parse_i32_str(t.as_str()),
        None => None,
    };
    let starting_loyalty = match loyalty_str {
        Some(l) => parse_u32_str(l.as_str()),
        None => None,
    };
    let mana_abilities = parse_land_mana_abilities(type_line.as_str(), oracle_text.as_str());
    let cost_reduction = parse_cost_reduction(oracle_text.as_str());
    let equip_cost = equip::parse_equip_cost(oracle_text.as_str());
    let triggered_abilities = triggers::parse_triggered_abilities(oracle_text.as_str());
    let static_abilities = statics::parse_static_abilities(oracle_text.as_str());
    let activated_abilities = activated::parse_activated_abilities(oracle_text.as_str());
    let ot_chars = chars_of(oracle_text.as_str());
    let enters_tapped = contains_str(&ot_chars, "enters the battlefield tapped") || contains_str(&ot_chars, "enters tapped");
    let spell_effect = if crate::card::has_card_type(&card_types, CardType::Instant) || crate::card::has_card_type(
        &card_types,
        CardType::Sorcery,
    ) {
        spell::parse_spell_effect(oracle_text.as_str())
    } else {
        None
    };
    CardDef {
        id,
        name: card.name.clone(),
        mana_cost,
        card_types,
        supertypes,
        subtypes,
        keywords: kw,
        power,
        toughness,
        mana_abilities,
        spell_effect,
        starting_loyalty,
        enters_tapped,
        oracle_text: oracle_text.clone(),
        cost_reduction,
        cost_increase: None,
        static_abilities,
        equip_cost,
        triggered_abilities,
        activated_abilities,
    }
}

/// The result of importing a deck list.
pub struct DeckImportResult {
    /// Card definitions for all successfully fetched cards.
    pub db: CardDatabase,
    /// The full deck list as card ids (the commander included).
    pub deck: Vec<CardId>,
    /// The commander's card id, if the list has a commanders section.
    pub commander_id: Option<CardId>,
    /// Cards that failed to fetch, as `name: error`.
    pub errors: Vec<String>,
}

/// Fetches card data with a disk cache; the fetching itself is done by the
/// caller. New cards get ids counting up from a start.
#[derive(Debug)]
pub struct ScryfallFetcher {
    pub cache_dir: String,
    pub next_card_id: CardId,
}

impl ScryfallFetcher {
    /// A fetcher whose new card ids start at 10000 (above the sample ids).
    pub fn new(cache_dir: &str) -> (r: ScryfallFetcher)
        ensures
            r.cache_dir@ == cache_dir@,
            r.next_card_id == 10_000,
    {
        ScryfallFetcher { cache_dir: String::from_str(cache_dir), next_card_id: 10_000 }
    }

    /// A fetcher whose new card ids start at `start_id`.
    pub fn with_start_id(cache_dir: &str, start_id: CardId) -> (r: ScryfallFetcher)
        ensures
            r.cache_dir@ == cache_dir@,
            r.next_card_id == start_id,
    {
        ScryfallFetcher { cache_dir: String::from_str(cache_dir), next_card_id: start_id }
    }

    /// The sample database's definition of a card of the given name, if it
    /// has one.
    pub fn lookup_sample_db(&self, name: &str) -> (r: Option<CardDef>)
        ensures
            (r is Some) == crate::card::sample::sample_names().contains(name@),
            r matches Some(d) ==> d.name@ == name@,
    {
        let db = crate::card::sample::build_sample_db();
        proof {
            crate::card::lemma_first_named(db.cards@, name@);
        }
        db.into_named(name)
    }

    /// The definition of a fetched card under the next card id.
    pub fn convert_fetched(&mut self, raw: &ScryfallCard) -> (r: CardDef)
        requires
            old(self).next_card_id < u64::MAX,
            printed_cost_fits(*raw),
        ensures
            converts_to(*raw, old(self).next_card_id, r),
            final(self).next_card_id == old(self).next_card_id + 1,
            final(self).cache_dir == old(self).cache_dir,
    {
        let id = self.allocate_id();
        scryfall_to_card_def(raw, id)
    }

    /// Take the next card id.
    pub fn allocate_id(&mut self) -> (r: CardId)
        requires
            old(self).next_card_id < u64::MAX,
        ensures
            r == old(self).next_card_id,
            final(self).next_card_id == old(self).next_card_id + 1,
            final(self).cache_dir == old(self).cache_dir,
    {
        let id = self.next_card_id;
        self.next_card_id = self.next_card_id + 1;
        id
    }
}

/// The number of non-overlapping occurrences of a pattern in `s[i..]`,
/// scanning from the left.
pub open spec fn count_from(s: Seq<char>, pat: Seq<char>, i: int) -> nat
    decreases s.len() + 1 - i,
{
    if pat.len() == 0 || i < 0 || i > s.len() {
        0
    } else {
        match find_from(s, pat, i) {
            Some(p) => if p >= i {
                proof {
                    crate::text::lemma_find_from_occurs(s, pat, i);
                }
                1 + count_from(s, pat, p + pat.len())
            } else {
                0
            },
            None => 0,
        }
    }
}

/// The number of mana symbols (`{w}`, `{u}`, `{b}`, `{r}`, `{g}`, `{c}`) in
/// a text.
pub open spec fn mana_symbol_total(text: Seq<char>) -> nat {
    count_from(text, "{w}"@, 0) + count_from(text, "{u}"@, 0) + count_from(text, "{b}"@, 0) + count_from(
        text,
        "{r}"@,
        0,
    ) + count_from(text, "{g}"@, 0) + count_from(text, "{c}"@, 0)
}

/// The first position at or after `i` where `pat` occurs.
pub(crate) fn find_chars_from(s: &Vec<char>, pat: &Vec<char>, i: usize) -> (r: Option<usize>)
    ensures
        match r {
            Some(p) => find_from(s@, pat@, i as int) == Some(p as int),
            None => find_from(s@, pat@, i as int) is None,
        },
{
    let mut j: usize = i;
    while j < s.len() && pat.len() <= s.len() - j
        invariant
            i <= j,
            find_from(s@, pat@, i as int) == find_from(s@, pat@, j as int),
        decreases s.len() - j,
    {
        if crate::text::occurs_at_exec(s, pat, j) {
            return Some(j);
        }
        j = j + 1;
    }
    if pat.len() == 0 && j == s.len() {
        assert(crate::text::occurs_at(s@, pat@, j as int)) by {
            assert(s@.subrange(j as int, j as int) =~= pat@);
        }
        return Some(j);
    }
    None
}

/// Count the non-overlapping occurrences of a non-empty pattern.
fn count_occurrences(s: &Vec<char>, pat: &str) -> (r: u64)
    requires
        pat@.len() > 0,
    ensures
        r == count_from(s@, pat@, 0),
{
    let p = chars_of(pat);
    let mut n: u64 = 0;
    let mut i: usize = 0;
    while i <= s.len()
        invariant
            i <= s@.len() + 1,
            p@ == pat@,
            p@.len() > 0,
            n <= i,
            count_from(s@, pat@, 0) == n + count_from(s@, pat@, i as int),
        decreases s.len() + 1 - i,
    {
        match find_chars_from(s, &p, i) {
            Some(at) => {
                proof {
                    crate::text::lemma_find_from_occurs(s@, p@, i as int);
                }
                n = n + 1;
                i = at + p.len();
            },
            None => {
                return n;
            },
        }
    }
    n
}

/// The number of mana symbols in a (lowercased) text, at most 10, or
/// nothing if there are none.
pub fn count_mana_symbols(text: &Vec<char>) -> (r: Option<u32>)
    ensures
        r == (if mana_symbol_total(text@) > 0 {
            Some((if mana_symbol_total(text@) < 10 { mana_symbol_total(text@) } else { 10 }) as u32)
        } else {
            None
        }),
{
    proof {
        reveal_strlit("{w}");
        reveal_strlit("{u}");
        reveal_strlit("{b}");
        reveal_strlit("{r}");
        reveal_strlit("{g}");
        reveal_strlit("{c}");
    }
    let w = capped(count_occurrences(text, "{w}"));
    let u = capped(count_occurrences(text, "{u}"));
    let b = capped(count_occurrences(text, "{b}"));
    let rr = capped(count_occurrences(text, "{r}"));
    let g = capped(count_occurrences(text, "{g}"));
    let c = capped(count_occurrences(text, "{c}"));
    let total = capped(capped(capped(capped(capped(w + u) + b) + rr) + g) + c);
    if total > 0 {
        Some(total as u32)
    } else {
        None
    }
}

/// A count, capped at 10.
fn capped(n: u64) -> (r: u64)
    ensures
        r == (if n < 10 { n } else { 10 }),
{
    if n < 10 {
        n
    } else {
        10
    }
}

} // verus!
