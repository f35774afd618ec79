//! The equip cost written in a card's oracle text.
use vstd::prelude::*;

use crate::mana::{parse_tally, tally_fits, tally_of, ManaCost};
use crate::text::{alphanumeric, chars_of, find_chars, find_from, is_alphanumeric, lowercase, string_from_chars, to_lowercase};

verus! {

/// Whether a character can be part of a written mana cost: a brace, a
/// letter or a digit.
pub open spec fn cost_char(c: char) -> bool {
    c == '{' || c == '}' || alphanumeric(c)
}

/// The longest prefix of `s` made of cost characters.
pub open spec fn cost_prefix(s: Seq<char>) -> Seq<char>
    decreases s.len(),
{
    if s.len() > 0 && cost_char(s[0]) {
        seq![s[0]] + cost_prefix(s.drop_first())
    } else {
        seq![]
    }
}

/// The written equip cost: after the first "equip " (found ignoring
/// case), the run of cost characters that follows in the text, when it
/// holds a brace.
pub open spec fn equip_cost_text(text: Seq<char>) -> Option<Seq<char>> {
    match find_from(lowercase(text), "equip "@, 0) {
        None => None,
        Some(idx) => {
            let start = if idx + 6 <= text.len() {
                idx + 6
            } else {
                text.len() as int
            };
            let cs = cost_prefix(text.skip(start));
            if cs.len() > 0 && cs.contains('{') {
                Some(cs)
            } else {
                None
            }
        },
    }
}

/// Whether the written equip cost, if any, can be totalled in `u32`s.
pub open spec fn equip_cost_fits(text: Seq<char>) -> bool {
    match equip_cost_text(text) {
        Some(cs) => tally_fits(parse_tally(cs)),
        None => true,
    }
}

/// The written equip cost of an oracle text, as characters.
pub fn equip_cost_string(oracle_text: &str) -> (r: Option<String>)
    ensures
        match r {
            Some(c) => equip_cost_text(oracle_text@) == Some(c@),
            None => equip_cost_text(oracle_text@) is None,
        },
{
    let lower = to_lowercase(oracle_text);
    let lc = chars_of(lower.as_str());
    let pat = chars_of("equip ");
    proof {
        reveal_strlit("equip ");
    }
    let idx = match find_chars(&lc, &pat) {
        Some(i) => i,
        None => return None,
    };
    let text = chars_of(oracle_text);
    let start: usize = if idx <= text.len() && 6 <= text.len() - idx {
        idx + 6
    } else {
        text.len()
    };
    let ghost rest = text@.skip(start as int);
    let mut cs: Vec<char> = Vec::new();
    let mut j: usize = start;
    let mut has_brace = false;
    while j < text.len() && (text[j] == '{' || text[j] == '}' || is_alphanumeric(text[j]))
        invariant
            start <= j <= text@.len(),
            rest == text@.skip(start as int),
            cost_prefix(rest) == cs@ + cost_prefix(text@.skip(j as int)),
            has_brace == cs@.contains('{'),
        decreases text.len() - j,
    {
        let c = text[j];
        let ghost tail = text@.skip(j as int);
        assert(tail[0] == c);
        assert(tail.drop_first() =~= text@.skip(j + 1));
        let ghost before = cs@;
        cs.push(c);
        if c == '{' {
            has_brace = true;
        }
        proof {
            assert(cs@ + cost_prefix(text@.skip(j + 1)) =~= before + (seq![c] + cost_prefix(text@.skip(j + 1))));
            if has_brace && c != '{' {
                let k = choose|k: int| 0 <= k < before.len() && before[k] == '{';
                assert(cs@[k] == '{');
            }
            if !has_brace {
                assert forall|k: int| 0 <= k < cs@.len() implies cs@[k] != '{' by {
                    if k < before.len() {
                        assert(cs@[k] == before[k]);
                    }
                }
            }
            if c == '{' {
                assert(cs@[cs@.len() - 1] == '{');
            }
        }
        j = j + 1;
    }
    proof {
        let tail = text@.skip(j as int);
        if j < text.len() {
            assert(tail[0] == text@[j as int]);
        }
        assert(cost_prefix(tail) =~= seq![]);
        assert(cs@ + seq![] =~= cs@);
    }
    if cs.len() > 0 && has_brace {
        Some(string_from_chars(&cs))
    } else {
        None
    }
}

/// The equip cost written in an oracle text ("Equip {2}{B}"): none when
/// there is no "equip " or no written cost after it.
pub fn parse_equip_cost(oracle_text: &str) -> (r: Option<ManaCost>)
    requires
        equip_cost_fits(oracle_text@),
    ensures
        match equip_cost_text(oracle_text@) {
            Some(cs) => r is Some && tally_of(r->0) == parse_tally(cs),
            None => r is None,
        },
{
    match equip_cost_string(oracle_text) {
        Some(c) => ManaCost::parse(c.as_str()),
        None => None,
    }
}

} // verus!
