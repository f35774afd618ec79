//! Reading static abilities from oracle text: anthems ("creatures you
//! control get +1/+1") and keyword grants ("equipped creature has
//! flying").
use vstd::prelude::*;

use crate::card::{AffectedObjects, KeywordAbility, StaticAbility};
use crate::scryfall::spell::{buff_exec, buff_in, has_str, starts_chars};
use crate::text::{chars_of, has, lines, lowercase, split_lines, starts_with, string_from_chars, to_lowercase};

verus! {

/// The keywords a grant can name, with the words that name them, in the
/// order they are looked for.
pub open spec fn keyword_names() -> Seq<(Seq<char>, KeywordAbility)> {
    seq![
        ("flying"@, KeywordAbility::Flying),
        ("first strike"@, KeywordAbility::FirstStrike),
        ("double strike"@, KeywordAbility::DoubleStrike),
        ("deathtouch"@, KeywordAbility::Deathtouch),
        ("haste"@, KeywordAbility::Haste),
        ("hexproof"@, KeywordAbility::Hexproof),
        ("indestructible"@, KeywordAbility::Indestructible),
        ("lifelink"@, KeywordAbility::Lifelink),
        ("menace"@, KeywordAbility::Menace),
        ("reach"@, KeywordAbility::Reach),
        ("trample"@, KeywordAbility::Trample),
        ("vigilance"@, KeywordAbility::Vigilance),
        ("defender"@, KeywordAbility::Defender),
        ("fear"@, KeywordAbility::Fear),
        ("intimidate"@, KeywordAbility::Intimidate),
        ("shadow"@, KeywordAbility::Shadow),
        ("skulk"@, KeywordAbility::Skulk),
        ("wither"@, KeywordAbility::Wither),
        ("infect"@, KeywordAbility::Infect),
        ("undying"@, KeywordAbility::Undying),
        ("persist"@, KeywordAbility::Persist),
        ("prowess"@, KeywordAbility::Prowess),
        ("flanking"@, KeywordAbility::Flanking),
    ]
}

/// The first keyword (from entry `k` on) whose name occurs in the text.
pub open spec fn keyword_in(text: Seq<char>, k: int) -> Option<KeywordAbility>
    decreases 23 - k,
{
    if k < 0 || k >= 23 {
        None
    } else if has(text, keyword_names()[k].0) {
        Some(keyword_names()[k].1)
    } else {
        keyword_in(text, k + 1)
    }
}

/// The objects a static line speaks of.
pub open spec fn affected_in(text: Seq<char>) -> Option<AffectedObjects> {
    if has(text, "other creatures you control"@) {
        Some(AffectedObjects::OtherCreaturesControlledBy(0))
    } else if has(text, "creatures you control"@) {
        Some(AffectedObjects::CreaturesControlledBy(0))
    } else if has(text, "equipped creature"@) || has(text, "enchanted creature"@) {
        Some(AffectedObjects::AttachedTo)
    } else {
        None
    }
}

/// The static abilities of one lowercased line: none on a trigger or an
/// activated ability; none on a power/toughness change for objects it does
/// not recognise; else an anthem for a power/toughness change, then a
/// keyword grant when the affected objects "have"/"has" a keyword.
pub open spec fn static_line_spec(lower: Seq<char>) -> Seq<StaticAbility> {
    if starts_with(lower, "when"@) || starts_with(lower, "at "@) || has(lower, ": "@) {
        seq![]
    } else if buff_in(lower) is Some && affected_in(lower) is None {
        seq![]
    } else {
        (if buff_in(lower) is Some {
            let (p, t) = buff_in(lower)->0;
            seq![StaticAbility::Anthem { power: p, toughness: t, affected: affected_in(lower)->0 }]
        } else {
            seq![]
        }) + (if (has(lower, "have "@) || has(lower, "has "@)) && affected_in(lower) is Some && keyword_in(
            lower,
            0,
        ) is Some {
            seq![StaticAbility::GrantKeyword { keyword: keyword_in(lower, 0)->0, affected: affected_in(lower)->0 }]
        } else {
            seq![]
        })
    }
}

/// The static abilities of the lines in `ls`, each lowercased on its own.
pub open spec fn lines_statics(ls: Seq<Seq<char>>) -> Seq<StaticAbility>
    decreases ls.len(),
{
    if ls.len() == 0 {
        seq![]
    } else {
        lines_statics(ls.drop_last()) + static_line_spec(lowercase(ls.last()))
    }
}

fn keyword_exec(text: &Vec<char>) -> (r: Option<KeywordAbility>)
    ensures
        r == keyword_in(text@, 0),
{
    let names: [&str; 23] = [
        "flying", "first strike", "double strike", "deathtouch", "haste", "hexproof", "indestructible",
        "lifelink", "menace", "reach", "trample", "vigilance", "defender", "fear", "intimidate", "shadow",
        "skulk", "wither", "infect", "undying", "persist", "prowess", "flanking",
    ];
    let kws: [KeywordAbility; 23] = [
        KeywordAbility::Flying,
        KeywordAbility::FirstStrike,
        KeywordAbility::DoubleStrike,
        KeywordAbility::Deathtouch,
        KeywordAbility::Haste,
        KeywordAbility::Hexproof,
        KeywordAbility::Indestructible,
        KeywordAbility::Lifelink,
        KeywordAbility::Menace,
        KeywordAbility::Reach,
        KeywordAbility::Trample,
        KeywordAbility::Vigilance,
        KeywordAbility::Defender,
        KeywordAbility::Fear,
        KeywordAbility::Intimidate,
        KeywordAbility::Shadow,
        KeywordAbility::Skulk,
        KeywordAbility::Wither,
        KeywordAbility::Infect,
        KeywordAbility::Undying,
        KeywordAbility::Persist,
        KeywordAbility::Prowess,
        KeywordAbility::Flanking,
    ];
    proof {
        reveal_strlit("flying");
        reveal_strlit("first strike");
        reveal_strlit("double strike");
        reveal_strlit("deathtouch");
        reveal_strlit("haste");
        reveal_strlit("hexproof");
        reveal_strlit("indestructible");
        reveal_strlit("lifelink");
        reveal_strlit("menace");
        reveal_strlit("reach");
        reveal_strlit("trample");
        reveal_strlit("vigilance");
        reveal_strlit("defender");
        reveal_strlit("fear");
        reveal_strlit("intimidate");
        reveal_strlit("shadow");
        reveal_strlit("skulk");
        reveal_strlit("wither");
        reveal_strlit("infect");
        reveal_strlit("undying");
        reveal_strlit("persist");
        reveal_strlit("prowess");
        reveal_strlit("flanking");
    }
    let mut k: usize = 0;
    while k < 23
        invariant
            k <= 23,
            forall|j: int| 0 <= j < 23 ==> (#[trigger] names@[j])@ == keyword_names()[j].0,
            forall|j: int| 0 <= j < 23 ==> #[trigger] kws@[j] == keyword_names()[j].1,
            keyword_in(text@, 0) == keyword_in(text@, k as int),
        decreases 23 - k,
    {
        if has_str(text, names[k]) {
            return Some(kws[k]);
        }
        k = k + 1;
    }
    None
}

fn affected_exec(text: &Vec<char>) -> (r: Option<AffectedObjects>)
    ensures
        r == affected_in(text@),
{
    if has_str(text, "other creatures you control") {
        Some(AffectedObjects::OtherCreaturesControlledBy(0))
    } else if has_str(text, "creatures you control") {
        Some(AffectedObjects::CreaturesControlledBy(0))
    } else if has_str(text, "equipped creature") || has_str(text, "enchanted creature") {
        Some(AffectedObjects::AttachedTo)
    } else {
        None
    }
}

/// The static abilities of one lowercased line, as `static_line_spec`
/// reads them.
pub fn static_line(lowered: &str) -> (r: Vec<StaticAbility>)
    ensures
        r@ == static_line_spec(lowered@),
{
    let lc = chars_of(lowered);
    let mut out: Vec<StaticAbility> = Vec::new();
    if starts_chars(&lc, "when") || starts_chars(&lc, "at ") || has_str(&lc, ": ") {
        return out;
    }
    let buff = buff_exec(&lc);
    let affected = affected_exec(&lc);
    match buff {
        Some((p, t)) => match affected {
            Some(a) => {
                out.push(StaticAbility::Anthem { power: p, toughness: t, affected: a });
            },
            None => {
                return out;
            },
        },
        None => {},
    }
    let ghost first = out@;
    if has_str(&lc, "have ") || has_str(&lc, "has ") {
        match affected {
            Some(a) => match keyword_exec(&lc) {
                Some(k) => {
                    out.push(StaticAbility::GrantKeyword { keyword: k, affected: a });
                },
                None => {},
            },
            None => {},
        }
    }
    assert(out@ =~= static_line_spec(lowered@));
    out
}

/// The static abilities of an oracle text: those of each line, lowercased
/// on its own.
pub fn parse_static_abilities(oracle_text: &str) -> (r: Vec<StaticAbility>)
    ensures
        r@ == lines_statics(lines(oracle_text@)),
{
    let text = chars_of(oracle_text);
    let ls = split_lines(&text);
    let ghost lv = lines(oracle_text@);
    let mut out: Vec<StaticAbility> = Vec::new();
    let mut i: usize = 0;
    assert(lv.take(0) =~= Seq::<Seq<char>>::empty());
    while i < ls.len()
        invariant
            i <= ls@.len(),
            ls@.map_values(|w: Vec<char>| w@) == lv,
            out@ == lines_statics(lv.take(i as int)),
        decreases ls.len() - i,
    {
        let line = string_from_chars(&ls[i]);
        let lower = to_lowercase(line.as_str());
        let mut got = static_line(lower.as_str());
        let ghost before = out@;
        out.append(&mut got);
        proof {
            assert(lv[i as int] == ls@[i as int]@);
            assert(lv.take(i + 1).drop_last() =~= lv.take(i as int));
            assert(lv.take(i + 1).last() == lv[i as int]);
            assert(out@ =~= before + static_line_spec(lower@));
        }
        i = i + 1;
    }
    assert(lv.take(i as int) =~= lv);
    out
}

} // verus!
