//! Reading activated abilities from oracle text: lines of the form
//! "{cost}: effect".
use vstd::prelude::*;

use crate::card::{ActivatedAbility, ActivatedModel, Effect, EffectModel, SacrificeCost};
use crate::mana::{parse_tally, tally_fits, tally_of, ManaCost, Tally};
use crate::scryfall::find_chars_from;
use crate::scryfall::spell::{has_str, starts_chars};
use crate::scryfall::triggers::{inline_basic, inline_spec};
use crate::text::{
    chars_from, chars_of, chars_take, find_chars, find_from, has, lines, lowercase, split_lines, starts_with,
    string_from_chars, to_lowercase, trim, trim_chars,
};

verus! {

/// The effect of an ability's text: the simple effect its lowercased form
/// describes, or else the text as written.
pub open spec fn inline_model_of(lower: Seq<char>, written: Seq<char>) -> EffectModel {
    match inline_spec(lower) {
        Some(b) => EffectModel::Single(b),
        None => EffectModel::Unimplemented(written),
    }
}

/// `s[i..]` with every occurrence of `pat` taken out, left to right.
pub open spec fn remove_from(s: Seq<char>, pat: Seq<char>, i: int) -> Seq<char>
    decreases s.len() - i,
{
    if i < 0 || i > s.len() || pat.len() == 0 {
        s.skip(i)
    } else {
        match find_from(s, pat, i) {
            Some(j) => {
                proof {
                    crate::text::lemma_find_from_occurs(s, pat, i);
                }
                s.subrange(i, j) + remove_from(s, pat, j + pat.len())
            },
            None => s.skip(i),
        }
    }
}

/// The mana part of an ability cost: without "{T}", commas and
/// "Sacrifice", trimmed.
pub open spec fn cleaned_cost(c: Seq<char>) -> Seq<char> {
    trim(
        remove_from(
            remove_from(
                remove_from(remove_from(remove_from(c, "{T}"@, 0), ", "@, 0), ","@, 0),
                "Sacrifice"@,
                0,
            ),
            "sacrifice"@,
            0,
        ),
    )
}

/// Whether the mana part of an ability cost is written as mana symbols.
pub open spec fn has_mana_part(c: Seq<char>) -> bool {
    cleaned_cost(c).len() > 0 && has(cleaned_cost(c), "{"@)
}

/// The mana an ability cost asks for: nothing when no symbol is written.
pub open spec fn ability_cost_tally(c: Seq<char>) -> Tally {
    if has_mana_part(c) {
        parse_tally(cleaned_cost(c))
    } else {
        (0, 0, 0, 0, 0, 0)
    }
}

/// Whether a line cannot hold an activated ability.
pub open spec fn act_skip(lower: Seq<char>) -> bool {
    ||| starts_with(lower, "when"@)
    ||| starts_with(lower, "at "@)
    ||| starts_with(lower, "as "@)
    ||| starts_with(lower, "if "@)
    ||| starts_with(lower, "equipped"@)
    ||| starts_with(lower, "enchanted"@)
    ||| starts_with(lower, "creatures"@)
}

/// Where a line splits at the first ": " of its lowercased form: the cost
/// before it and the effect after it (positions past the end of the line
/// are taken as its end).
pub open spec fn split_at(line: Seq<char>, ci: int) -> (Seq<char>, Seq<char>) {
    let a = if ci <= line.len() {
        ci
    } else {
        line.len() as int
    };
    let b = if ci + 2 <= line.len() {
        ci + 2
    } else {
        line.len() as int
    };
    (line.take(a), line.skip(b))
}

/// The written cost of a line's activated ability, when the line has one.
pub open spec fn act_cost_of(line: Seq<char>, lower: Seq<char>) -> Option<Seq<char>> {
    if act_skip(lower) {
        None
    } else {
        match find_from(lower, ": "@, 0) {
            None => None,
            Some(ci) => if starts_with(lower, "equip"@) || !(has(split_at(line, ci).0, "{"@)) {
                None
            } else {
                Some(split_at(line, ci).0)
            },
        }
    }
}

/// The activated ability of one line (`lower` its lowercased form): its
/// mana cost (as totals), whether it taps, a "sacrifice a creature" cost,
/// the effect read after ": ", and the line.
pub open spec fn activated_line_spec(line: Seq<char>, lower: Seq<char>) -> Option<(Tally, bool, Option<SacrificeCost>, EffectModel, Seq<char>)> {
    match act_cost_of(line, lower) {
        None => None,
        Some(cost) => {
            let eff = split_at(line, find_from(lower, ": "@, 0)->0).1;
            Some(
                (
                    ability_cost_tally(cost),
                    has(cost, "{T}"@),
                    if has(lower, "sacrifice a creature"@) {
                        Some(SacrificeCost::AnyCreature)
                    } else {
                        None
                    },
                    inline_model_of(lowercase(eff), eff),
                    line,
                ),
            )
        },
    }
}

/// Whether a line's ability cost, if any, can be totalled in `u32`s.
pub open spec fn activated_line_fits(line: Seq<char>, lower: Seq<char>) -> bool {
    match act_cost_of(line, lower) {
        Some(cost) => has_mana_part(cost) ==> tally_fits(parse_tally(cleaned_cost(cost))),
        None => true,
    }
}

/// An ability as the totals of its cost and the rest.
pub open spec fn act_view(a: ActivatedAbility) -> (Tally, bool, Option<SacrificeCost>, EffectModel, Seq<char>) {
    (tally_of(a.cost), a.requires_tap, a.sacrifice_cost, a.effect@, a.description@)
}

/// The activated abilities of the lines in `ls`, each lowercased on its own.
pub open spec fn lines_activated(ls: Seq<Seq<char>>) -> Seq<(Tally, bool, Option<SacrificeCost>, EffectModel, Seq<char>)>
    decreases ls.len(),
{
    if ls.len() == 0 {
        seq![]
    } else {
        lines_activated(ls.drop_last()) + match activated_line_spec(ls.last(), lowercase(ls.last())) {
            Some(a) => seq![a],
            None => seq![],
        }
    }
}

/// Whether every line's ability cost can be totalled in `u32`s.
pub open spec fn activated_fit(text: Seq<char>) -> bool {
    forall|k: int| 0 <= k < lines(text).len() ==> #[trigger] activated_line_fits(lines(text)[k], lowercase(lines(text)[k]))
}

fn remove_all(v: &Vec<char>, pat: &str) -> (r: Vec<char>)
    ensures
        r@ == remove_from(v@, pat@, 0),
{
    let p = chars_of(pat);
    if p.len() == 0 {
        assert(v@.skip(0) =~= v@);
        return chars_from(v, 0);
    }
    let mut out: Vec<char> = Vec::new();
    let mut i: usize = 0;
    loop
        invariant
            i <= v@.len(),
            p@ == pat@,
            p@.len() > 0,
            remove_from(v@, pat@, 0) == out@ + remove_from(v@, pat@, i as int),
        decreases v.len() - i,
    {
        match find_chars_from(v, &p, i) {
            Some(j) => {
                proof {
                    crate::text::lemma_find_from_occurs(v@, p@, i as int);
                }
                let ghost before = out@;
                let piece = chars_take(&chars_from(v, i), j - i);
                let mut piece = piece;
                out.append(&mut piece);
                proof {
                    assert(v@.skip(i as int).take(j - i) =~= v@.subrange(i as int, j as int));
                    assert(out@ + remove_from(v@, pat@, j + p@.len()) =~= before + (v@.subrange(i as int, j as int)
                        + remove_from(v@, pat@, j + p@.len())));
                }
                i = j + p.len();
            },
            None => {
                let mut rest = chars_from(v, i);
                out.append(&mut rest);
                return out;
            },
        }
    }
}

fn cleaned_exec(c: &Vec<char>) -> (r: Vec<char>)
    ensures
        r@ == cleaned_cost(c@),
{
    let a = remove_all(c, "{T}");
    let b = remove_all(&a, ", ");
    let d = remove_all(&b, ",");
    let e = remove_all(&d, "Sacrifice");
    let f = remove_all(&e, "sacrifice");
    trim_chars(&f)
}

/// The written cost of a line's activated ability, and where its effect
/// starts.
fn act_cost_exec(line: &Vec<char>, lower: &Vec<char>) -> (r: Option<(Vec<char>, usize)>)
    ensures
        match r {
            Some((cost, st)) => act_cost_of(line@, lower@) == Some(cost@) && st <= line@.len() && line@.skip(
                st as int,
            ) == split_at(line@, find_from(lower@, ": "@, 0)->0).1,
            None => act_cost_of(line@, lower@) is None,
        },
{
    if starts_chars(lower, "when") || starts_chars(lower, "at ") || starts_chars(lower, "as ") || starts_chars(
        lower,
        "if ",
    ) || starts_chars(lower, "equipped") || starts_chars(lower, "enchanted") || starts_chars(lower, "creatures") {
        return None;
    }
    let pat = chars_of(": ");
    proof {
        reveal_strlit(": ");
    }
    let ci = match find_chars(lower, &pat) {
        Some(ci) => ci,
        None => {
            return None;
        },
    };
    if starts_chars(lower, "equip") {
        return None;
    }
    let a: usize = if ci <= line.len() {
        ci
    } else {
        line.len()
    };
    let b: usize = if ci <= line.len() && 2 <= line.len() - ci {
        ci + 2
    } else {
        line.len()
    };
    let cost = chars_take(line, a);
    if !has_str(&cost, "{") {
        return None;
    }
    Some((cost, b))
}

/// The activated ability of one line of oracle text, given the line and
/// its lowercased form, as `activated_line_spec` reads it.
pub fn activated_line(line: &str, lowered: &str) -> (r: Option<ActivatedAbility>)
    requires
        activated_line_fits(line@, lowered@),
    ensures
        match r {
            Some(a) => activated_line_spec(line@, lowered@) == Some(act_view(a)),
            None => activated_line_spec(line@, lowered@) is None,
        },
{
    let lc = chars_of(lowered);
    let text = chars_of(line);
    let (cost_chars, st) = match act_cost_exec(&text, &lc) {
        Some(x) => x,
        None => {
            return None;
        },
    };
    let cleaned = cleaned_exec(&cost_chars);
    let cost = if cleaned.len() > 0 && has_str(&cleaned, "{") {
        let cs = string_from_chars(&cleaned);
        ManaCost::parse(cs.as_str()).unwrap()
    } else {
        ManaCost::zero()
    };
    let requires_tap = has_str(&cost_chars, "{T}");
    let sacrifice_cost = if has_str(&lc, "sacrifice a creature") {
        Some(SacrificeCost::AnyCreature)
    } else {
        None
    };
    let eff_chars = chars_from(&text, st);
    let eff = string_from_chars(&eff_chars);
    let eff_lower = to_lowercase(eff.as_str());
    let el = chars_of(eff_lower.as_str());
    let effect = match inline_basic(&el) {
        Some(b) => Effect::Single(b),
        None => Effect::Unimplemented(eff),
    };
    Some(ActivatedAbility { cost, requires_tap, sacrifice_cost, effect, description: String::from_str(line) })
}

/// Whether a line's ability cost, if any, can be totalled in `u32`s.
pub fn activated_line_fits_check(line: &str, lowered: &str) -> (r: bool)
    ensures
        r == activated_line_fits(line@, lowered@),
{
    let lc = chars_of(lowered);
    let text = chars_of(line);
    match act_cost_exec(&text, &lc) {
        Some((cost_chars, _)) => {
            let cleaned = cleaned_exec(&cost_chars);
            if cleaned.len() > 0 && has_str(&cleaned, "{") {
                let cs = string_from_chars(&cleaned);
                ManaCost::parse_checked(cs.as_str()).is_some()
            } else {
                true
            }
        },
        None => true,
    }
}

/// The activated abilities of an oracle text, line by line, each line
/// lowercased on its own.
pub fn parse_activated_abilities(oracle_text: &str) -> (r: Vec<ActivatedAbility>)
    requires
        activated_fit(oracle_text@),
    ensures
        r@.map_values(|a: ActivatedAbility| act_view(a)) == lines_activated(lines(oracle_text@)),
{
    let text = chars_of(oracle_text);
    let ls = split_lines(&text);
    let ghost lv = lines(oracle_text@);
    let mut out: Vec<ActivatedAbility> = Vec::new();
    let mut i: usize = 0;
    assert(lv.take(0) =~= Seq::<Seq<char>>::empty());
    while i < ls.len()
        invariant
            i <= ls@.len(),
            ls@.map_values(|w: Vec<char>| w@) == lv,
            activated_fit(oracle_text@),
            lv == lines(oracle_text@),
            out@.map_values(|a: ActivatedAbility| act_view(a)) == lines_activated(lv.take(i as int)),
        decreases ls.len() - i,
    {
        let line = string_from_chars(&ls[i]);
        let lower = to_lowercase(line.as_str());
        proof {
            assert(lv[i as int] == ls@[i as int]@);
            assert(activated_line_fits(lv[i as int], lowercase(lv[i as int])));
        }
        let got = activated_line(line.as_str(), lower.as_str());
        let ghost before = out@;
        match got {
            Some(a) => {
                out.push(a);
            },
            None => {},
        }
        proof {
            assert(lv.take(i + 1).drop_last() =~= lv.take(i as int));
            assert(lv.take(i + 1).last() == lv[i as int]);
            assert(out@.map_values(|a: ActivatedAbility| act_view(a)) =~= lines_activated(lv.take(i + 1)));
        }
        i = i + 1;
    }
    assert(lv.take(i as int) =~= lv);
    out
}

/// Whether every line's ability cost in an oracle text can be totalled in
/// `u32`s.
pub fn activated_fit_check(oracle_text: &str) -> (r: bool)
    ensures
        r == activated_fit(oracle_text@),
{
    let text = chars_of(oracle_text);
    let ls = split_lines(&text);
    let ghost lv = lines(oracle_text@);
    let mut i: usize = 0;
    while i < ls.len()
        invariant
            i <= ls@.len(),
            ls@.map_values(|w: Vec<char>| w@) == lv,
            lv == lines(oracle_text@),
            forall|k: int| 0 <= k < i ==> #[trigger] activated_line_fits(lv[k], lowercase(lv[k])),
        decreases ls.len() - i,
    {
        let line = string_from_chars(&ls[i]);
        let lower = to_lowercase(line.as_str());
        assert(lv[i as int] == ls@[i as int]@);
        if !activated_line_fits_check(line.as_str(), lower.as_str()) {
            return false;
        }
        i = i + 1;
    }
    true
}

} // verus!
