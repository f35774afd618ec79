//! Game setup: deck validation for Commander and tutor targets.
use vstd::prelude::*;

pub mod opening;

use crate::card::{CardDatabase, CardDef, CardId, KeywordAbility};
use crate::mana::{Color, color_symbol};
use crate::text::{decimal, push_char, push_decimal, push_str};

verus! {

/// Whether a card definition is a legendary creature.
pub open spec fn legendary_creature(d: CardDef) -> bool {
    d.is_legendary_spec() && d.is_creature_spec()
}

/// The combined color identity of a commander and its optional partner.
pub open spec fn commander_identity(db: CardDatabase, commander: CardId, partner: Option<CardId>) -> Seq<Color> {
    let base = match db.lookup(commander) {
        Some(d) => d.color_identity_spec(),
        None => Seq::empty(),
    };
    match partner {
        Some(p) => match db.lookup(p) {
            Some(d) => base + d.color_identity_spec(),
            None => base,
        },
        None => base,
    }
}

/// The first color of a list that is not in the identity.
pub open spec fn first_outside(colors: Seq<Color>, ident: Seq<Color>) -> Option<Color>
    decreases colors.len(),
{
    if colors.len() == 0 {
        None
    } else if !ident.contains(colors[0]) {
        Some(colors[0])
    } else {
        first_outside(colors.drop_first(), ident)
    }
}

/// The first card of the deck (with a known definition) having a color
/// outside the identity, with that color.
pub open spec fn first_color_violation(deck: Seq<CardId>, db: CardDatabase, ident: Seq<Color>) -> Option<(CardDef, Color)>
    decreases deck.len(),
{
    if deck.len() == 0 {
        None
    } else {
        match db.lookup(deck[0]) {
            Some(d) => match first_outside(d.color_identity_spec(), ident) {
                Some(c) => Some((d, c)),
                None => first_color_violation(deck.drop_first(), db, ident),
            },
            None => first_color_violation(deck.drop_first(), db, ident),
        }
    }
}

/// `first_outside` finds a color exactly when some color of the list is
/// missing from the identity, and what it finds is such a color.
pub proof fn lemma_first_outside(colors: Seq<Color>, ident: Seq<Color>)
    ensures
        first_outside(colors, ident) is None <==> forall|k: int|
            0 <= k < colors.len() ==> ident.contains(#[trigger] colors[k]),
        first_outside(colors, ident) is Some ==> colors.contains(first_outside(colors, ident)->0) && !ident.contains(
            first_outside(colors, ident)->0,
        ),
    decreases colors.len(),
{
    if colors.len() > 0 {
        let t = colors.drop_first();
        lemma_first_outside(t, ident);
        if ident.contains(colors[0]) {
            assert forall|k: int| 0 <= k < t.len() && ident.contains(#[trigger] t[k]) implies ident.contains(
                colors[k + 1],
            ) by {}
            if forall|k: int| 0 <= k < t.len() ==> ident.contains(#[trigger] t[k]) {
                assert forall|k: int| 0 <= k < colors.len() implies ident.contains(#[trigger] colors[k]) by {
                    if k > 0 {
                        assert(colors[k] == t[k - 1]);
                    }
                }
            } else {
                let k = choose|k: int| 0 <= k < t.len() && !ident.contains(#[trigger] t[k]);
                assert(colors[k + 1] == t[k]);
            }
            if first_outside(t, ident) is Some {
                let c = first_outside(t, ident)->0;
                let k = choose|k: int| 0 <= k < t.len() && t[k] == c;
                assert(colors[k + 1] == c);
            }
        } else {
            assert(colors[0] == colors[0]);
        }
    }
}

/// The identity of a commander with a partner holds exactly the colors of
/// either commander's identity.
pub proof fn lemma_partner_identity(db: CardDatabase, commander: CardId, partner: CardId, c: Color)
    requires
        db.lookup(commander) is Some,
        db.lookup(partner) is Some,
    ensures
        commander_identity(db, commander, Some(partner)).contains(c) <==> db.lookup(commander)->0.color_identity_spec().contains(c)
            || db.lookup(partner)->0.color_identity_spec().contains(c),
{
    let a = db.lookup(commander)->0.color_identity_spec();
    let b = db.lookup(partner)->0.color_identity_spec();
    let ident = commander_identity(db, commander, Some(partner));
    assert(ident == a + b);
    if ident.contains(c) {
        let k = choose|k: int| 0 <= k < ident.len() && ident[k] == c;
        if k < a.len() {
            assert(a[k] == c);
        } else {
            assert(b[k - a.len()] == c);
        }
    }
    if a.contains(c) {
        let k = choose|k: int| 0 <= k < a.len() && a[k] == c;
        assert(ident[k] == c);
    }
    if b.contains(c) {
        let k = choose|k: int| 0 <= k < b.len() && b[k] == c;
        assert(ident[k + a.len()] == c);
    }
}

/// With a partner, the color identity check reports a card only for a
/// color that is in neither commander's identity (and is in the card's
/// own), and passes a deck exactly when every known card's colors are each
/// in one of the two identities; so neither commander ever violates it.
pub proof fn lemma_partner_color_check(db: CardDatabase, deck: Seq<CardId>, commander: CardId, partner: CardId)
    requires
        db.lookup(commander) is Some,
        db.lookup(partner) is Some,
    ensures
        ({
            let ident = commander_identity(db, commander, Some(partner));
            let cd = db.lookup(commander)->0.color_identity_spec();
            let pd = db.lookup(partner)->0.color_identity_spec();
            &&& first_outside(cd, ident) is None
            &&& first_outside(pd, ident) is None
            &&& first_color_violation(deck, db, ident) is Some ==> {
                let (d, c) = first_color_violation(deck, db, ident)->0;
                &&& !cd.contains(c)
                &&& !pd.contains(c)
                &&& d.color_identity_spec().contains(c)
            }
            &&& first_color_violation(deck, db, ident) is None <==> forall|k: int, j: int|
                0 <= k < deck.len() && #[trigger] db.lookup(deck[k]) is Some && 0 <= j < db.lookup(
                    deck[k],
                )->0.color_identity_spec().len() ==> {
                    let c = #[trigger] db.lookup(deck[k])->0.color_identity_spec()[j];
                    cd.contains(c) || pd.contains(c)
                }
        }),
    decreases deck.len(),
{
    let ident = commander_identity(db, commander, Some(partner));
    let cd = db.lookup(commander)->0.color_identity_spec();
    let pd = db.lookup(partner)->0.color_identity_spec();
    assert forall|c: Color| #[trigger] ident.contains(c) <==> cd.contains(c) || pd.contains(c) by {
        lemma_partner_identity(db, commander, partner, c);
    }
    lemma_first_outside(cd, ident);
    lemma_first_outside(pd, ident);
    assert forall|k: int| 0 <= k < cd.len() implies ident.contains(#[trigger] cd[k]) by {
        assert(cd.contains(cd[k]));
    }
    assert forall|k: int| 0 <= k < pd.len() implies ident.contains(#[trigger] pd[k]) by {
        assert(pd.contains(pd[k]));
    }
    if deck.len() > 0 {
        let t = deck.drop_first();
        lemma_partner_color_check(db, t, commander, partner);
        match db.lookup(deck[0]) {
            Some(d) => {
                lemma_first_outside(d.color_identity_spec(), ident);
            },
            None => {},
        }
        let whole = forall|k: int, j: int|
            0 <= k < deck.len() && #[trigger] db.lookup(deck[k]) is Some && 0 <= j < db.lookup(
                deck[k],
            )->0.color_identity_spec().len() ==> {
                let c = #[trigger] db.lookup(deck[k])->0.color_identity_spec()[j];
                cd.contains(c) || pd.contains(c)
            };
        let tail = forall|k: int, j: int|
            0 <= k < t.len() && #[trigger] db.lookup(t[k]) is Some && 0 <= j < db.lookup(
                t[k],
            )->0.color_identity_spec().len() ==> {
                let c = #[trigger] db.lookup(t[k])->0.color_identity_spec()[j];
                cd.contains(c) || pd.contains(c)
            };
        if whole {
            assert forall|k: int, j: int|
                0 <= k < t.len() && #[trigger] db.lookup(t[k]) is Some && 0 <= j < db.lookup(
                    t[k],
                )->0.color_identity_spec().len() implies {
                let c = #[trigger] db.lookup(t[k])->0.color_identity_spec()[j];
                cd.contains(c) || pd.contains(c)
            } by {
                assert(t[k] == deck[k + 1]);
                assert(db.lookup(deck[k + 1]) is Some);
            }
            if db.lookup(deck[0]) is Some {
                let d = db.lookup(deck[0])->0;
                assert forall|j: int| 0 <= j < d.color_identity_spec().len() implies ident.contains(
                    #[trigger] d.color_identity_spec()[j],
                ) by {
                    assert(db.lookup(deck[0]) is Some);
                    let c = db.lookup(deck[0])->0.color_identity_spec()[j];
                    assert(cd.contains(c) || pd.contains(c));
                }
            }
        }
        if first_color_violation(deck, db, ident) is None && tail {
            assert forall|k: int, j: int|
                0 <= k < deck.len() && #[trigger] db.lookup(deck[k]) is Some && 0 <= j < db.lookup(
                    deck[k],
                )->0.color_identity_spec().len() implies {
                let c = #[trigger] db.lookup(deck[k])->0.color_identity_spec()[j];
                cd.contains(c) || pd.contains(c)
            } by {
                if k > 0 {
                    assert(deck[k] == t[k - 1]);
                    assert(db.lookup(t[k - 1]) is Some);
                } else {
                    let c = db.lookup(deck[0])->0.color_identity_spec()[j];
                    assert(ident.contains(c));
                }
            }
        }
    }
}

/// No card of a deck is reported for its colors exactly when every color
/// of every known card is in the identity.
pub proof fn lemma_no_color_violation(deck: Seq<CardId>, db: CardDatabase, ident: Seq<Color>)
    ensures
        first_color_violation(deck, db, ident) is None <==> forall|k: int, j: int|
            0 <= k < deck.len() && #[trigger] db.lookup(deck[k]) is Some && 0 <= j < db.lookup(
                deck[k],
            )->0.color_identity_spec().len() ==> ident.contains(
                #[trigger] db.lookup(deck[k])->0.color_identity_spec()[j],
            ),
    decreases deck.len(),
{
    if deck.len() > 0 {
        let t = deck.drop_first();
        lemma_no_color_violation(t, db, ident);
        if db.lookup(deck[0]) is Some {
            lemma_first_outside(db.lookup(deck[0])->0.color_identity_spec(), ident);
        }
        if forall|k: int, j: int|
            0 <= k < deck.len() && #[trigger] db.lookup(deck[k]) is Some && 0 <= j < db.lookup(
                deck[k],
            )->0.color_identity_spec().len() ==> ident.contains(
                #[trigger] db.lookup(deck[k])->0.color_identity_spec()[j],
            ) {
            assert forall|k: int, j: int|
                0 <= k < t.len() && #[trigger] db.lookup(t[k]) is Some && 0 <= j < db.lookup(
                    t[k],
                )->0.color_identity_spec().len() implies ident.contains(
                #[trigger] db.lookup(t[k])->0.color_identity_spec()[j],
            ) by {
                assert(t[k] == deck[k + 1]);
                assert(db.lookup(deck[k + 1]) is Some);
            }
            if db.lookup(deck[0]) is Some {
                assert forall|j: int| 0 <= j < db.lookup(deck[0])->0.color_identity_spec().len() implies ident.contains(
                    #[trigger] db.lookup(deck[0])->0.color_identity_spec()[j],
                ) by {
                    assert(db.lookup(deck[0]) is Some);
                }
            }
        }
        if first_color_violation(deck, db, ident) is None {
            assert forall|k: int, j: int|
                0 <= k < deck.len() && #[trigger] db.lookup(deck[k]) is Some && 0 <= j < db.lookup(
                    deck[k],
                )->0.color_identity_spec().len() implies ident.contains(
                #[trigger] db.lookup(deck[k])->0.color_identity_spec()[j],
            ) by {
                if k > 0 {
                    assert(deck[k] == t[k - 1]);
                    assert(db.lookup(t[k - 1]) is Some);
                }
            }
        }
    }
}

/// No card is reported as a duplicate exactly when every known card among
/// `rest` that is not a basic land appears at most once in the deck.
pub proof fn lemma_no_duplicate(rest: Seq<CardId>, deck: Seq<CardId>, db: CardDatabase)
    ensures
        first_duplicate(rest, deck, db) is None <==> forall|k: int|
            0 <= k < rest.len() && #[trigger] db.lookup(rest[k]) is Some && !db.lookup(rest[k])->0.is_basic_land_spec()
                ==> copies(deck, rest[k]) <= 1,
    decreases rest.len(),
{
    if rest.len() > 0 {
        let t = rest.drop_first();
        lemma_no_duplicate(t, deck, db);
        if forall|k: int|
            0 <= k < rest.len() && #[trigger] db.lookup(rest[k]) is Some && !db.lookup(rest[k])->0.is_basic_land_spec()
                ==> copies(deck, rest[k]) <= 1 {
            assert forall|k: int|
                0 <= k < t.len() && #[trigger] db.lookup(t[k]) is Some && !db.lookup(t[k])->0.is_basic_land_spec() implies copies(
                deck,
                t[k],
            ) <= 1 by {
                assert(t[k] == rest[k + 1]);
                assert(db.lookup(rest[k + 1]) is Some);
            }
        }
        if first_duplicate(rest, deck, db) is None {
            assert forall|k: int|
                0 <= k < rest.len() && #[trigger] db.lookup(rest[k]) is Some && !db.lookup(
                    rest[k],
                )->0.is_basic_land_spec() implies copies(deck, rest[k]) <= 1 by {
                if k > 0 {
                    assert(rest[k] == t[k - 1]);
                    assert(db.lookup(t[k - 1]) is Some);
                }
            }
        }
    }
}

/// A deck that passes Commander validation meets every rule: 100 cards,
/// each commander in the deck and a legendary creature, both partners with
/// the Partner keyword, every color of every known card within the
/// combined color identity, and no non-basic card more than once.
pub proof fn lemma_valid_commander_deck(db: CardDatabase, deck: Seq<CardId>, commander: CardId, partner: Option<CardId>)
    requires
        commander_deck_check(db, deck, commander, partner) is Ok,
    ensures
        deck.len() == 100,
        deck.contains(commander),
        db.lookup(commander) is Some,
        db.lookup(commander)->0.is_legendary_spec() && db.lookup(commander)->0.is_creature_spec(),
        partner is Some ==> {
            &&& deck.contains(partner->0)
            &&& db.lookup(partner->0) is Some
            &&& db.lookup(partner->0)->0.is_legendary_spec() && db.lookup(partner->0)->0.is_creature_spec()
            &&& db.lookup(partner->0)->0.has_keyword_spec(KeywordAbility::Partner)
            &&& db.lookup(commander)->0.has_keyword_spec(KeywordAbility::Partner)
        },
        forall|k: int, j: int|
            0 <= k < deck.len() && #[trigger] db.lookup(deck[k]) is Some && 0 <= j < db.lookup(
                deck[k],
            )->0.color_identity_spec().len() ==> commander_identity(db, commander, partner).contains(
                #[trigger] db.lookup(deck[k])->0.color_identity_spec()[j],
            ),
        forall|k: int|
            0 <= k < deck.len() && #[trigger] db.lookup(deck[k]) is Some && !db.lookup(deck[k])->0.is_basic_land_spec()
                ==> copies(deck, deck[k]) <= 1,
{
    lemma_no_color_violation(deck, db, commander_identity(db, commander, partner));
    lemma_no_duplicate(deck, deck, db);
}

/// How many times a card appears in a deck.
pub open spec fn copies(deck: Seq<CardId>, id: CardId) -> nat
    decreases deck.len(),
{
    if deck.len() == 0 {
        0
    } else {
        copies(deck.drop_last(), id) + if deck.last() == id {
            1nat
        } else {
            0nat
        }
    }
}

/// The first card among `rest` (with a known definition that is not a basic
/// land) that appears more than once in the whole deck, with its count.
pub open spec fn first_duplicate(rest: Seq<CardId>, deck: Seq<CardId>, db: CardDatabase) -> Option<(CardDef, nat)>
    decreases rest.len(),
{
    if rest.len() == 0 {
        None
    } else {
        match db.lookup(rest[0]) {
            Some(d) => if copies(deck, rest[0]) > 1 && !d.is_basic_land_spec() {
                Some((d, copies(deck, rest[0])))
            } else {
                first_duplicate(rest.drop_first(), deck, db)
            },
            None => first_duplicate(rest.drop_first(), deck, db),
        }
    }
}

/// The outcome of validating a Commander deck: the checks in order, the
/// first that fails giving its message.
pub open spec fn commander_deck_check(
    db: CardDatabase,
    deck: Seq<CardId>,
    commander: CardId,
    partner: Option<CardId>,
) -> Result<(), Seq<char>> {
    if deck.len() != 100 {
        Err("Commander deck must be exactly 100 cards, got "@ + decimal(deck.len()))
    } else if !deck.contains(commander) {
        Err("Commander card must be included in the deck"@)
    } else if db.lookup(commander) is None {
        Err("Commander card ID "@ + decimal(commander as nat) + " not found in database"@)
    } else if !legendary_creature(db.lookup(commander)->0) {
        Err("Commander '"@ + db.lookup(commander)->0.name@ + "' must be a legendary creature"@)
    } else if partner is Some && !deck.contains(partner->0) {
        Err("Partner commander must be included in the deck"@)
    } else if partner is Some && db.lookup(partner->0) is None {
        Err("Partner commander card ID "@ + decimal(partner->0 as nat) + " not found in database"@)
    } else if partner is Some && !legendary_creature(db.lookup(partner->0)->0) {
        Err("Partner commander '"@ + db.lookup(partner->0)->0.name@ + "' must be a legendary creature"@)
    } else if partner is Some && !db.lookup(partner->0)->0.has_keyword_spec(KeywordAbility::Partner) {
        Err("Partner commander '"@ + db.lookup(partner->0)->0.name@ + "' must have the Partner keyword"@)
    } else if partner is Some && !db.lookup(commander)->0.has_keyword_spec(KeywordAbility::Partner) {
        Err("Commander '"@ + db.lookup(commander)->0.name@
            + "' must have the Partner keyword to use with a partner"@)
    } else {
        card_rules_check(db, deck, commander_identity(db, commander, partner))
    }
}

/// The checks on the cards of a deck: color identity, then singleton.
pub open spec fn card_rules_check(db: CardDatabase, deck: Seq<CardId>, ident: Seq<Color>) -> Result<(), Seq<char>> {
    if first_color_violation(deck, db, ident) is Some {
        let (d, c) = first_color_violation(deck, db, ident)->0;
        Err("'"@ + d.name@ + "' has color "@ + seq![color_symbol(c)]
            + " which is outside the commander's color identity"@)
    } else if first_duplicate(deck, deck, db) is Some {
        let (d, n) = first_duplicate(deck, deck, db)->0;
        Err("Commander decks allow only 1 copy of non-basic '"@ + d.name@ + "', found "@ + decimal(n))
    } else {
        Ok(())
    }
}

/// Whether a deck holds a card.
fn deck_contains(deck: &[CardId], id: CardId) -> (r: bool)
    ensures
        r == deck@.contains(id),
{
    let mut i: usize = 0;
    while i < deck.len()
        invariant
            i <= deck@.len(),
            forall|k: int| 0 <= k < i ==> deck@[k] != id,
        decreases deck.len() - i,
    {
        if deck[i] == id {
            return true;
        }
        i = i + 1;
    }
    false
}

/// Whether a list of colors holds a color.
fn has_color(v: &Vec<Color>, c: Color) -> (r: bool)
    ensures
        r == v@.contains(c),
{
    let mut i: usize = 0;
    while i < v.len()
        invariant
            i <= v@.len(),
            forall|k: int| 0 <= k < i ==> v@[k] != c,
        decreases v.len() - i,
    {
        if v[i] == c {
            return true;
        }
        i = i + 1;
    }
    false
}

/// The first color of a list that is not in the identity.
fn find_outside(colors: &Vec<Color>, ident: &Vec<Color>) -> (r: Option<Color>)
    ensures
        r == first_outside(colors@, ident@),
{
    let mut i: usize = 0;
    assert(colors@.skip(0) =~= colors@);
    while i < colors.len()
        invariant
            i <= colors@.len(),
            first_outside(colors@, ident@) == first_outside(colors@.skip(i as int), ident@),
        decreases colors.len() - i,
    {
        assert(colors@.skip(i as int).drop_first() =~= colors@.skip(i + 1));
        if !has_color(ident, colors[i]) {
            return Some(colors[i]);
        }
        i = i + 1;
    }
    assert(colors@.skip(i as int).len() == 0);
    None
}

/// How many times a card appears in a deck.
fn count_copies(deck: &[CardId], id: CardId) -> (r: u64)
    ensures
        r == copies(deck@, id),
{
    let mut n: u64 = 0;
    let mut i: usize = 0;
    while i < deck.len()
        invariant
            i <= deck@.len(),
            n == copies(deck@.take(i as int), id),
            n <= i,
        decreases deck.len() - i,
    {
        assert(deck@.take(i + 1).drop_last() =~= deck@.take(i as int));
        if deck[i] == id {
            n = n + 1;
        }
        i = i + 1;
    }
    assert(deck@.take(deck@.len() as int) =~= deck@);
    n
}

/// A message naming a card between quotes: `prefix'name'suffix`.
fn quoted_message(prefix: &str, name: &String, suffix: &str) -> (r: String)
    ensures
        r@ == prefix@ + name@ + suffix@,
{
    let mut s = String::new();
    push_str(&mut s, prefix);
    push_str(&mut s, name.as_str());
    push_str(&mut s, suffix);
    assert(s@ =~= prefix@ + name@ + suffix@);
    s
}

/// A message with a number in it: `prefix` then the number then `suffix`.
fn numbered_message(prefix: &str, n: u64, suffix: &str) -> (r: String)
    ensures
        r@ == prefix@ + decimal(n as nat) + suffix@,
{
    let mut s = String::new();
    push_str(&mut s, prefix);
    push_decimal(&mut s, n);
    push_str(&mut s, suffix);
    assert(s@ =~= prefix@ + decimal(n as nat) + suffix@);
    s
}

/// Validate a Commander deck with its commander: see
/// `validate_commander_deck_with_partner`.
pub fn validate_commander_deck(db: &CardDatabase, deck: &[CardId], commander: CardId) -> (r: Result<(), String>)
    ensures
        match r {
            Ok(()) => commander_deck_check(*db, deck@, commander, None) is Ok,
            Err(msg) => commander_deck_check(*db, deck@, commander, None) == Err::<(), Seq<char>>(msg@),
        },
{
    validate_commander_deck_with_partner(db, deck, commander, None)
}

/// Validate a Commander deck with an optional partner commander: exactly
/// 100 cards including the commander(s); each commander a legendary
/// creature; partners both with the Partner keyword; every card within the
/// combined color identity; at most one copy of each card but basic lands.
/// The first failed rule is reported.
pub fn validate_commander_deck_with_partner(
    db: &CardDatabase,
    deck: &[CardId],
    commander: CardId,
    partner: Option<CardId>,
) -> (r: Result<(), String>)
    ensures
        match r {
            Ok(()) => commander_deck_check(*db, deck@, commander, partner) is Ok,
            Err(msg) => commander_deck_check(*db, deck@, commander, partner) == Err::<(), Seq<char>>(msg@),
        },
{
    if deck.len() != 100 {
        let mut s = String::from_str("Commander deck must be exactly 100 cards, got ");
        push_decimal(&mut s, deck.len() as u64);
        return Err(s);
    }
    if !deck_contains(deck, commander) {
        return Err(String::from_str("Commander card must be included in the deck"));
    }
    let cdef = match db.get(commander) {
        Some(d) => d,
        None => {
            return Err(numbered_message("Commander card ID ", commander, " not found in database"));
        },
    };
    if !cdef.is_legendary() || !cdef.is_creature() {
        return Err(quoted_message("Commander '", &cdef.name, "' must be a legendary creature"));
    }
    let mut ident: Vec<Color> = cdef.color_identity();
    match partner {
        Some(partner_id) => {
            if !deck_contains(deck, partner_id) {
                return Err(String::from_str("Partner commander must be included in the deck"));
            }
            let pdef = match db.get(partner_id) {
                Some(d) => d,
                None => {
                    return Err(
                        numbered_message("Partner commander card ID ", partner_id, " not found in database"),
                    );
                },
            };
            if !pdef.is_legendary() || !pdef.is_creature() {
                return Err(quoted_message("Partner commander '", &pdef.name, "' must be a legendary creature"));
            }
            if !pdef.has_keyword(KeywordAbility::Partner) {
                return Err(quoted_message("Partner commander '", &pdef.name, "' must have the Partner keyword"));
            }
            if !cdef.has_keyword(KeywordAbility::Partner) {
                return Err(
                    quoted_message("Commander '", &cdef.name, "' must have the Partner keyword to use with a partner"),
                );
            }
            let mut more = pdef.color_identity();
            ident.append(&mut more);
        },
        None => {},
    }
    assert(ident@ == commander_identity(*db, commander, partner));
    let ghost id_spec = commander_identity(*db, commander, partner);
    assert(commander_deck_check(*db, deck@, commander, partner) == card_rules_check(*db, deck@, id_spec));
    let mut i: usize = 0;
    assert(deck@.skip(0) =~= deck@);
    while i < deck.len()
        invariant
            i <= deck@.len(),
            ident@ == id_spec,
            commander_deck_check(*db, deck@, commander, partner) == card_rules_check(*db, deck@, id_spec),
            first_color_violation(deck@, *db, id_spec) == first_color_violation(deck@.skip(i as int), *db, id_spec),
        decreases deck.len() - i,
    {
        assert(deck@.skip(i as int).drop_first() =~= deck@.skip(i + 1));
        match db.get(deck[i]) {
            Some(d) => {
                let colors = d.color_identity();
                match find_outside(&colors, &ident) {
                    Some(c) => {
                        let mut s = String::new();
                        push_str(&mut s, "'");
                        push_str(&mut s, d.name.as_str());
                        push_str(&mut s, "' has color ");
                        push_char(&mut s, c.symbol());
                        push_str(&mut s, " which is outside the commander's color identity");
                        assert(s@ =~= "'"@ + d.name@ + "' has color "@ + seq![color_symbol(c)]
                            + " which is outside the commander's color identity"@);
                        return Err(s);
                    },
                    None => {},
                }
            },
            None => {},
        }
        i = i + 1;
    }
    assert(deck@.skip(i as int).len() == 0);
    let mut j: usize = 0;
    assert(deck@.skip(0) =~= deck@);
    while j < deck.len()
        invariant
            j <= deck@.len(),
            commander_deck_check(*db, deck@, commander, partner) == card_rules_check(*db, deck@, id_spec),
            first_color_violation(deck@, *db, id_spec) is None,
            first_duplicate(deck@, deck@, *db) == first_duplicate(deck@.skip(j as int), deck@, *db),
        decreases deck.len() - j,
    {
        assert(deck@.skip(j as int).drop_first() =~= deck@.skip(j + 1));
        let card_id = deck[j];
        match db.get(card_id) {
            Some(d) => {
                let n = count_copies(deck, card_id);
                if n > 1 && !d.is_basic_land() {
                    let mut s = String::new();
                    push_str(&mut s, "Commander decks allow only 1 copy of non-basic '");
                    push_str(&mut s, d.name.as_str());
                    push_str(&mut s, "', found ");
                    push_decimal(&mut s, n);
                    assert(s@ =~= "Commander decks allow only 1 copy of non-basic '"@ + d.name@ + "', found "@
                        + decimal(n as nat));
                    return Err(s);
                }
            },
            None => {},
        }
        j = j + 1;
    }
    assert(deck@.skip(j as int).len() == 0);
    Ok(())
}

/// Set the cards a player's tutor effects may search for.
pub fn set_tutor_targets(state: &mut crate::game::GameState, player: crate::game::PlayerIndex, targets: &[CardId])
    requires
        player < old(state).players@.len(),
    ensures
        *final(state) == (crate::game::GameState { players: final(state).players, ..*old(state) }),
        final(state).players@.len() == old(state).players@.len(),
        forall|q: int|
            0 <= q < old(state).players@.len() && q != player ==> final(state).players@[q] == old(state).players@[q],
        final(state).players@[player as int] == (crate::game::PlayerState {
            tutor_targets: final(state).players@[player as int].tutor_targets,
            ..old(state).players@[player as int]
        }),
        final(state).players@[player as int].tutor_targets@ == targets@,
{
    let mut v: Vec<CardId> = Vec::new();
    let mut i: usize = 0;
    while i < targets.len()
        invariant
            i <= targets@.len(),
            v@ == targets@.take(i as int),
        decreases targets.len() - i,
    {
        v.push(targets[i]);
        i = i + 1;
        assert(v@ =~= targets@.take(i as int));
    }
    assert(targets@.take(targets@.len() as int) =~= targets@);
    state.players[player].tutor_targets = v;
}

} // verus!
