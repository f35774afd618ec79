//! Paying for spells: cost reductions and taxes, and tapping mana sources.
use vstd::prelude::*;

use crate::card::{CardDef, CardId, CardType, CostIncreaseTarget, CostReductionTarget, KeywordAbility, ManaAbility, ObjectId, StaticAbility};
use crate::card::CardInstance;
use crate::game::{GameState, PlayerIndex, PlayerState};
use crate::info_set::count_where;
use crate::mana::{Color, ManaCost, ManaPool, color_at};

verus! {

broadcast use vstd::std_specs::hash::group_hash_axioms;

/// The sum of a value over a list of objects.
pub open spec fn sum_over(s: Seq<ObjectId>, f: spec_fn(ObjectId) -> int) -> int
    decreases s.len(),
{
    if s.len() == 0 {
        0
    } else {
        sum_over(s.drop_last(), f) + f(s.last())
    }
}

/// A sum of non-negative values over a prefix is at most the whole sum.
pub proof fn lemma_sum_prefix_le(s: Seq<ObjectId>, f: spec_fn(ObjectId) -> int, j: int)
    requires
        0 <= j <= s.len(),
        forall|x: ObjectId| #[trigger] f(x) >= 0,
    ensures
        0 <= sum_over(s.take(j), f) <= sum_over(s, f),
    decreases s.len() - j,
{
    if j < s.len() {
        lemma_sum_prefix_le(s, f, j + 1);
        assert(s.take(j + 1).drop_last() =~= s.take(j));
        assert(f(s[j]) >= 0);
        lemma_sum_nonneg(s.take(j), f);
    } else {
        assert(s.take(j) =~= s);
        lemma_sum_nonneg(s, f);
    }
}

proof fn lemma_sum_nonneg(s: Seq<ObjectId>, f: spec_fn(ObjectId) -> int)
    requires
        forall|x: ObjectId| #[trigger] f(x) >= 0,
    ensures
        sum_over(s, f) >= 0,
    decreases s.len(),
{
    if s.len() > 0 {
        lemma_sum_nonneg(s.drop_last(), f);
    }
}

/// The definition of a known object's card.
pub open spec fn def_at(state: GameState, id: ObjectId) -> Option<CardDef> {
    if state.objects@.contains_key(id) {
        state.db().lookup(state.objects@[id].card_def_id)
    } else {
        None
    }
}

/// The generic reduction a permanent gives to `player`'s spell.
pub open spec fn reduction_of(state: GameState, player: PlayerIndex, is_creature: bool, id: ObjectId) -> int {
    if state.objects@[id].controller != player {
        0
    } else {
        match def_at(state, id) {
            Some(d) => match d.cost_reduction {
                Some(r) => if r.applies_to == CostReductionTarget::AllSpells || is_creature {
                    r.generic_reduction as int
                } else {
                    0
                },
                None => 0,
            },
            None => 0,
        }
    }
}

/// The generic tax a permanent puts on `player`'s spell.
pub open spec fn increase_of(state: GameState, player: PlayerIndex, is_creature: bool, id: ObjectId) -> int {
    match def_at(state, id) {
        Some(d) => match d.cost_increase {
            Some(inc) => {
                let ctrl = state.objects@[id].controller;
                let applies_to_caster = if inc.affects_controller {
                    ctrl == player
                } else {
                    ctrl != player
                };
                let spell_matches = match inc.applies_to {
                    CostIncreaseTarget::AllSpells => true,
                    CostIncreaseTarget::NoncreatureSpells => !is_creature,
                    CostIncreaseTarget::CreatureSpells => is_creature,
                };
                if applies_to_caster && spell_matches {
                    inc.generic_increase as int
                } else {
                    0
                }
            },
            None => 0,
        },
        None => 0,
    }
}

/// The total generic cost reduction `player`'s permanents give a spell.
pub open spec fn total_reduction_spec(state: GameState, player: PlayerIndex, is_creature: bool) -> int {
    sum_over(state.battlefield@, |id: ObjectId| reduction_of(state, player, is_creature, id))
}

/// The total generic tax on `player`'s spell.
pub open spec fn total_increase_spec(state: GameState, player: PlayerIndex, is_creature: bool) -> int {
    sum_over(state.battlefield@, |id: ObjectId| increase_of(state, player, is_creature, id))
}

/// The total generic cost reduction for a spell cast by `player`: the sum
/// of the cost reductions of the permanents they control that apply to it.
pub fn total_cost_reduction(state: &GameState, player: PlayerIndex, is_creature: bool) -> (r: u32)
    requires
        state.battlefield_known(),
        state.card_db is Some,
        total_reduction_spec(*state, player, is_creature) <= u32::MAX,
    ensures
        r == total_reduction_spec(*state, player, is_creature),
{
    let db = state.card_db();
    let mut total: u32 = 0;
    let mut i: usize = 0;
    while i < state.battlefield.len()
        invariant
            i <= state.battlefield@.len(),
            state.battlefield_known(),
            state.card_db is Some,
            *db == state.db(),
            total_reduction_spec(*state, player, is_creature) <= u32::MAX,
            total == sum_over(state.battlefield@.take(i as int), |id: ObjectId| reduction_of(*state, player, is_creature, id)),
        decreases state.battlefield.len() - i,
    {
        let obj_id = state.battlefield[i];
        assert(state.battlefield@.take(i + 1).drop_last() =~= state.battlefield@.take(i as int));
        assert(state.battlefield@.take(i + 1).last() == obj_id);
        proof {
            lemma_sum_prefix_le(state.battlefield@, |id: ObjectId| reduction_of(*state, player, is_creature, id), i + 1);
        }
        let inst = state.objects.get(&obj_id).unwrap();
        if inst.controller == player {
            match db.get(inst.card_def_id) {
                Some(def) => match def.cost_reduction {
                    Some(reduction) => {
                        let applies = match reduction.applies_to {
                            CostReductionTarget::AllSpells => true,
                            CostReductionTarget::CreatureSpells => is_creature,
                        };
                        if applies {
                            total = total + reduction.generic_reduction;
                        }
                    },
                    None => {},
                },
                None => {},
            }
        }
        i = i + 1;
    }
    assert(state.battlefield@.take(state.battlefield@.len() as int) =~= state.battlefield@);
    total
}

/// The total generic tax on a spell cast by `player`: the sum of the cost
/// increases of the permanents whose tax applies to that player (their
/// controller's spells or their opponents', as each says) and to that kind
/// of spell.
pub fn total_cost_increase(state: &GameState, player: PlayerIndex, is_creature: bool) -> (r: u32)
    requires
        state.battlefield_known(),
        state.card_db is Some,
        total_increase_spec(*state, player, is_creature) <= u32::MAX,
    ensures
        r == total_increase_spec(*state, player, is_creature),
{
    let db = state.card_db();
    let mut total: u32 = 0;
    let mut i: usize = 0;
    while i < state.battlefield.len()
        invariant
            i <= state.battlefield@.len(),
            state.battlefield_known(),
            state.card_db is Some,
            *db == state.db(),
            total_increase_spec(*state, player, is_creature) <= u32::MAX,
            total == sum_over(state.battlefield@.take(i as int), |id: ObjectId| increase_of(*state, player, is_creature, id)),
        decreases state.battlefield.len() - i,
    {
        let obj_id = state.battlefield[i];
        assert(state.battlefield@.take(i + 1).drop_last() =~= state.battlefield@.take(i as int));
        assert(state.battlefield@.take(i + 1).last() == obj_id);
        proof {
            lemma_sum_prefix_le(state.battlefield@, |id: ObjectId| increase_of(*state, player, is_creature, id), i + 1);
        }
        let inst = state.objects.get(&obj_id).unwrap();
        match db.get(inst.card_def_id) {
            Some(def) => match def.cost_increase {
                Some(increase) => {
                    let applies_to_caster = if increase.affects_controller {
                        inst.controller == player
                    } else {
                        inst.controller != player
                    };
                    let spell_matches = match increase.applies_to {
                        CostIncreaseTarget::AllSpells => true,
                        CostIncreaseTarget::NoncreatureSpells => !is_creature,
                        CostIncreaseTarget::CreatureSpells => is_creature,
                    };
                    if applies_to_caster && spell_matches {
                        total = total + increase.generic_increase;
                    }
                },
                None => {},
            },
            None => {},
        }
        i = i + 1;
    }
    assert(state.battlefield@.take(state.battlefield@.len() as int) =~= state.battlefield@);
    total
}

/// Only the caster's own permanents reduce a spell's cost, and a tax
/// reaches only the players it names: its controller's spells when it
/// affects its controller, the opponents' spells otherwise.
pub proof fn lemma_reductions_and_taxes_reach_their_players(
    state: GameState,
    player: PlayerIndex,
    is_creature: bool,
    id: ObjectId,
)
    ensures
        state.objects@[id].controller != player ==> reduction_of(state, player, is_creature, id) == 0,
        (def_at(state, id) is Some && def_at(state, id)->0.cost_increase is Some && def_at(state, id)->0.cost_increase->0.affects_controller
            && state.objects@[id].controller != player) ==> increase_of(state, player, is_creature, id) == 0,
        (def_at(state, id) is Some && def_at(state, id)->0.cost_increase is Some && !def_at(state, id)->0.cost_increase->0.affects_controller
            && state.objects@[id].controller == player) ==> increase_of(state, player, is_creature, id) == 0,
{
}

/// Whether a permanent is an artifact `player` controls.
pub open spec fn own_artifact(state: GameState, player: PlayerIndex, id: ObjectId) -> bool {
    state.objects@.contains_key(id) && state.objects@[id].controller == player && match def_at(state, id) {
        Some(d) => d.is_artifact_spec(),
        None => false,
    }
}

/// Whether a permanent is an untapped creature `player` controls that is
/// not summoning sick (one that could convoke).
pub open spec fn convoker(state: GameState, player: PlayerIndex, id: ObjectId) -> bool {
    state.objects@.contains_key(id) && state.objects@[id].controller == player && !state.objects@[id].tapped
        && !state.objects@[id].summoning_sick && match def_at(state, id) {
        Some(d) => d.is_creature_spec(),
        None => false,
    }
}

/// The reduction a spell's own keywords give: one per artifact its caster
/// controls (affinity for artifacts), one per untapped creature that could
/// convoke (convoke), one per card in the caster's graveyard (delve).
pub open spec fn spell_reduction_spec(state: GameState, player: PlayerIndex, card: CardId) -> int {
    match state.db().lookup(card) {
        Some(d) => {
            let affinity = if d.has_keyword_spec(KeywordAbility::AffinityForArtifacts) {
                count_where(state.battlefield@, |id: ObjectId| own_artifact(state, player, id)) as int
            } else {
                0
            };
            let convoke = if d.has_keyword_spec(KeywordAbility::Convoke) {
                count_where(state.battlefield@, |id: ObjectId| convoker(state, player, id)) as int
            } else {
                0
            };
            let delve = if d.has_keyword_spec(KeywordAbility::Delve) {
                state.players@[player as int].graveyard@.len() as int
            } else {
                0
            };
            affinity + convoke + delve
        },
        None => 0,
    }
}

/// How many battlefield permanents could convoke for `player` (with
/// `convoke`), or are artifacts `player` controls (without).
fn count_battlefield(state: &GameState, player: PlayerIndex, convoke: bool) -> (r: u64)
    requires
        state.card_db is Some,
    ensures
        r == (if convoke {
            count_where(state.battlefield@, |id: ObjectId| convoker(*state, player, id))
        } else {
            count_where(state.battlefield@, |id: ObjectId| own_artifact(*state, player, id))
        }),
{
    let db = state.card_db();
    let mut n: u64 = 0;
    let mut i: usize = 0;
    while i < state.battlefield.len()
        invariant
            i <= state.battlefield@.len(),
            state.card_db is Some,
            *db == state.db(),
            n <= i,
            n == (if convoke {
                count_where(state.battlefield@.take(i as int), |id: ObjectId| convoker(*state, player, id))
            } else {
                count_where(state.battlefield@.take(i as int), |id: ObjectId| own_artifact(*state, player, id))
            }),
        decreases state.battlefield.len() - i,
    {
        let id = state.battlefield[i];
        assert(state.battlefield@.take(i + 1).drop_last() =~= state.battlefield@.take(i as int));
        assert(state.battlefield@.take(i + 1).last() == id);
        let hit = match state.objects.get(&id) {
            Some(inst) => {
                if inst.controller != player {
                    false
                } else if convoke && (inst.tapped || inst.summoning_sick) {
                    false
                } else {
                    match db.get(inst.card_def_id) {
                        Some(d) => if convoke {
                            d.is_creature()
                        } else {
                            d.is_artifact()
                        },
                        None => false,
                    }
                }
            },
            None => false,
        };
        if hit {
            n = n + 1;
        }
        i = i + 1;
    }
    assert(state.battlefield@.take(state.battlefield@.len() as int) =~= state.battlefield@);
    n
}

/// Counting with a weaker predicate counts no more; strictly fewer when
/// some element satisfies only the stronger one.
proof fn lemma_count_where_le<A>(s: Seq<A>, p: spec_fn(A) -> bool, q: spec_fn(A) -> bool)
    requires
        forall|k: int| 0 <= k < s.len() && q(#[trigger] s[k]) ==> p(s[k]),
    ensures
        count_where(s, q) <= count_where(s, p),
        (exists|k: int| 0 <= k < s.len() && p(#[trigger] s[k]) && !q(s[k])) ==> count_where(s, q) < count_where(
            s,
            p,
        ),
    decreases s.len(),
{
    if s.len() > 0 {
        let t = s.drop_last();
        assert forall|k: int| 0 <= k < t.len() && q(#[trigger] t[k]) implies p(t[k]) by {
            assert(t[k] == s[k]);
        }
        lemma_count_where_le(t, p, q);
        if exists|k: int| 0 <= k < s.len() && p(#[trigger] s[k]) && !q(s[k]) {
            let k = choose|k: int| 0 <= k < s.len() && p(#[trigger] s[k]) && !q(s[k]);
            if k < s.len() - 1 {
                assert(t[k] == s[k]);
            }
        }
    }
}

/// Nothing is counted when no element satisfies the predicate.
proof fn lemma_count_where_none<A>(s: Seq<A>, p: spec_fn(A) -> bool)
    requires
        forall|k: int| 0 <= k < s.len() ==> !p(#[trigger] s[k]),
    ensures
        count_where(s, p) == 0,
    decreases s.len(),
{
    if s.len() > 0 {
        let t = s.drop_last();
        assert forall|k: int| 0 <= k < t.len() implies !p(#[trigger] t[k]) by {
            assert(t[k] == s[k]);
        }
        lemma_count_where_none(t, p);
    }
}

/// Convoke counts only untapped creatures: when every creature the caster
/// controls on the battlefield is tapped, a spell whose only cost keyword
/// is convoke gets no reduction.
pub proof fn lemma_convoke_needs_untapped_creatures(state: GameState, player: PlayerIndex, card: CardId)
    requires
        state.db().lookup(card) is Some,
        state.db().lookup(card)->0.has_keyword_spec(KeywordAbility::Convoke),
        !state.db().lookup(card)->0.has_keyword_spec(KeywordAbility::AffinityForArtifacts),
        !state.db().lookup(card)->0.has_keyword_spec(KeywordAbility::Delve),
        forall|k: int|
            0 <= k < state.battlefield@.len() && state.objects@.contains_key(#[trigger] state.battlefield@[k])
                && state.objects@[state.battlefield@[k]].controller == player && def_at(state, state.battlefield@[k]) is Some
                && def_at(state, state.battlefield@[k])->0.is_creature_spec() ==> state.objects@[state.battlefield@[k]].tapped,
    ensures
        spell_reduction_spec(state, player, card) == 0,
{
    lemma_count_where_none(state.battlefield@, |id: ObjectId| convoker(state, player, id));
}

/// Delve: a spell whose only cost keyword is delve is reduced by one
/// generic mana per card in its caster's graveyard.
pub proof fn lemma_delve_counts_graveyard(state: GameState, player: PlayerIndex, card: CardId)
    requires
        state.db().lookup(card) is Some,
        state.db().lookup(card)->0.has_keyword_spec(KeywordAbility::Delve),
        !state.db().lookup(card)->0.has_keyword_spec(KeywordAbility::AffinityForArtifacts),
        !state.db().lookup(card)->0.has_keyword_spec(KeywordAbility::Convoke),
    ensures
        spell_reduction_spec(state, player, card) == state.players@[player as int].graveyard@.len(),
{
}

/// Tapping a permanent never raises the reduction a spell's keywords give;
/// tapping an untapped, non-summoning-sick creature of the caster's on the
/// battlefield lowers it when the spell has convoke.
pub proof fn lemma_tapping_lowers_reduction(
    before: GameState,
    after: GameState,
    player: PlayerIndex,
    card: CardId,
    id: ObjectId,
)
    requires
        before.objects@.contains_key(id),
        after == (GameState { objects: after.objects, ..before }),
        after.objects@ == before.objects@.insert(id, CardInstance { tapped: true, ..before.objects@[id] }),
    ensures
        spell_reduction_spec(after, player, card) <= spell_reduction_spec(before, player, card),
        before.db().lookup(card) is Some && before.db().lookup(card)->0.has_keyword_spec(KeywordAbility::Convoke)
            && before.battlefield@.contains(id) && before.objects@[id].controller == player
            && !before.objects@[id].tapped && !before.objects@[id].summoning_sick && def_at(before, id) is Some
            && def_at(before, id)->0.is_creature_spec() ==> spell_reduction_spec(after, player, card)
            < spell_reduction_spec(before, player, card),
{
    let bf = before.battlefield@;
    assert(after.battlefield@ == bf);
    assert(after.db() == before.db());
    let pa = |x: ObjectId| own_artifact(before, player, x);
    let qa = |x: ObjectId| own_artifact(after, player, x);
    assert forall|x: ObjectId| #[trigger] def_at(after, x) == def_at(before, x) by {}
    assert forall|x: ObjectId| #[trigger] qa(x) == pa(x) by {
        assert(def_at(after, x) == def_at(before, x));
    }
    assert(qa =~= pa);
    let pc = |x: ObjectId| convoker(before, player, x);
    let qc = |x: ObjectId| convoker(after, player, x);
    assert forall|k: int| 0 <= k < bf.len() && qc(#[trigger] bf[k]) implies pc(bf[k]) by {
        assert(def_at(after, bf[k]) == def_at(before, bf[k]));
    }
    lemma_count_where_le(bf, pc, qc);
    if bf.contains(id) && before.objects@[id].controller == player && !before.objects@[id].tapped
        && !before.objects@[id].summoning_sick && def_at(before, id) is Some && def_at(before, id)->0.is_creature_spec() {
        let k = choose|k: int| 0 <= k < bf.len() && bf[k] == id;
        assert(pc(bf[k]) && !qc(bf[k]));
    }
}

/// The cost reduction a spell gets from its own keywords: affinity for
/// artifacts, convoke and delve (each applied in full, up to whatever the
/// caster has).
pub fn spell_cost_reduction(state: &GameState, player: PlayerIndex, card_def_id: CardId) -> (r: u32)
    requires
        state.card_db is Some,
        player < state.players@.len(),
        spell_reduction_spec(*state, player, card_def_id) <= u32::MAX,
    ensures
        r == spell_reduction_spec(*state, player, card_def_id),
{
    let db = state.card_db();
    let def = match db.get(card_def_id) {
        Some(d) => d,
        None => return 0,
    };
    let mut extra: u64 = 0;
    if def.has_keyword(KeywordAbility::AffinityForArtifacts) {
        extra = extra + count_battlefield(state, player, false);
    }
    if def.has_keyword(KeywordAbility::Convoke) {
        extra = extra + count_battlefield(state, player, true);
    }
    if def.has_keyword(KeywordAbility::Delve) {
        extra = extra + state.players[player].graveyard.len() as u64;
    }
    extra as u32
}

/// A cost with its generic part reduced, not below zero.
pub fn apply_cost_reduction(cost: &ManaCost, reduction: u32) -> (r: ManaCost)
    ensures
        r == (ManaCost { generic: (if cost.generic >= reduction { cost.generic - reduction } else { 0 }) as u32, ..*cost }),
{
    let mut reduced = *cost;
    reduced.generic = reduced.generic.saturating_sub(reduction);
    reduced
}

/// Whether a mana ability names a color (a fixed color or one of a choice).
pub open spec fn names_color(a: ManaAbility, c: Color) -> bool {
    match a {
        ManaAbility::TapForColor(x) => x == c,
        ManaAbility::TapForChoice(v) => v@.contains(c),
        _ => false,
    }
}

/// Whether some ability names a color.
pub open spec fn abilities_name_color(abilities: Seq<ManaAbility>, c: Color) -> bool {
    exists|i: int| 0 <= i < abilities.len() && names_color(#[trigger] abilities[i], c)
}

/// Whether some ability can make any color.
pub open spec fn has_any_color(abilities: Seq<ManaAbility>) -> bool {
    exists|i: int| 0 <= i < abilities.len() && (#[trigger] abilities[i]) is TapForAny
}

/// The five colors in order.
pub open spec fn all_colors() -> Seq<Color> {
    seq![Color::White, Color::Blue, Color::Black, Color::Red, Color::Green]
}

/// How constrained a mana source is (lower is more constrained): 100 if it
/// can make any color, 50 if it makes only colorless mana, otherwise the
/// number of colors its abilities name.
pub open spec fn constraint_score_spec(abilities: Seq<ManaAbility>) -> u32 {
    if has_any_color(abilities) {
        100
    } else {
        let n = count_where(all_colors(), |c: Color| abilities_name_color(abilities, c));
        if n == 0 {
            50
        } else {
            n as u32
        }
    }
}

/// Whether some ability names a color, and whether some can make any color.
fn scan_abilities(abilities: &Vec<ManaAbility>, c: Color) -> (r: (bool, bool))
    ensures
        r.0 == abilities_name_color(abilities@, c),
        r.1 == has_any_color(abilities@),
{
    let mut named = false;
    let mut any = false;
    let mut i: usize = 0;
    while i < abilities.len()
        invariant
            i <= abilities@.len(),
            named == exists|k: int| 0 <= k < i && names_color(#[trigger] abilities@[k], c),
            any == exists|k: int| 0 <= k < i && (#[trigger] abilities@[k]) is TapForAny,
        decreases abilities.len() - i,
    {
        match &abilities[i] {
            ManaAbility::TapForColor(x) => {
                if *x == c {
                    named = true;
                }
            },
            ManaAbility::TapForChoice(v) => {
                let mut j: usize = 0;
                while j < v.len()
                    invariant
                        j <= v@.len(),
                        abilities@[i as int] == ManaAbility::TapForChoice(*v),
                        named ==> exists|k: int| 0 <= k <= i && names_color(#[trigger] abilities@[k], c),
                        !named ==> !exists|k: int| 0 <= k < i && names_color(#[trigger] abilities@[k], c),
                        !named ==> forall|m: int| 0 <= m < j ==> v@[m] != c,
                    decreases v.len() - j,
                {
                    if v[j] == c {
                        named = true;
                        assert(names_color(abilities@[i as int], c));
                    }
                    j = j + 1;
                }
            },
            ManaAbility::TapForAny => {
                any = true;
            },
            _ => {},
        }
        i = i + 1;
    }
    (named, any)
}

/// How constrained a mana source is: 100 if it can make any color, 50 if
/// it makes only colorless mana, otherwise the number of colors it names.
pub fn constraint_score(abilities: &Vec<ManaAbility>) -> (r: u32)
    ensures
        r == constraint_score_spec(abilities@),
{
    let colors = Color::all();
    let mut n: u32 = 0;
    let mut any = false;
    let mut i: usize = 0;
    assert(all_colors() =~= colors@) by {
        assert(colors@[0] == color_at(0));
        assert(colors@[1] == color_at(1));
        assert(colors@[2] == color_at(2));
        assert(colors@[3] == color_at(3));
        assert(colors@[4] == color_at(4));
    }
    while i < 5
        invariant
            i <= 5,
            colors@ == all_colors(),
            n <= i,
            n == count_where(all_colors().take(i as int), |c: Color| abilities_name_color(abilities@, c)),
            i > 0 ==> any == has_any_color(abilities@),
        decreases 5 - i,
    {
        assert(all_colors().take(i + 1).drop_last() =~= all_colors().take(i as int));
        let (named, has_any) = scan_abilities(abilities, colors[i]);
        if named {
            n = n + 1;
        }
        any = has_any;
        i = i + 1;
    }
    assert(all_colors().take(5) =~= all_colors());
    if any {
        100
    } else if n == 0 {
        50
    } else {
        n
    }
}

/// The mana a source's first ability makes: its amount for a colorless
/// amount, one otherwise, none without abilities.
pub open spec fn mana_amount_spec(abilities: Seq<ManaAbility>) -> u32 {
    if abilities.len() == 0 {
        0
    } else {
        match abilities[0] {
            ManaAbility::TapForColorlessAmount(n) => n,
            _ => 1,
        }
    }
}

/// How much mana a source's first ability makes.
pub fn mana_amount(abilities: &Vec<ManaAbility>) -> (r: u32)
    ensures
        r == mana_amount_spec(abilities@),
{
    if abilities.len() == 0 {
        0
    } else {
        match &abilities[0] {
            ManaAbility::TapForColorlessAmount(n) => *n,
            _ => 1,
        }
    }
}

/// A mana source the auto-tapper may use: its id, its card's mana
/// abilities and its constraint score.
#[derive(Clone, Copy)]
pub struct SourceInfo<'a> {
    pub id: ObjectId,
    pub abilities: &'a Vec<ManaAbility>,
    pub score: u32,
}

/// A decision to tap a source for one mana of a color, or for some
/// colorless mana.
#[derive(Debug, Clone, Copy, PartialEq, Eq, Structural)]
pub enum TapDecision {
    Color(ObjectId, Color),
    Colorless(ObjectId, u32),
}

/// What the auto-tapper knows of a source: its id, its abilities and its
/// constraint score.
pub type SourceView = (ObjectId, Seq<ManaAbility>, u32);

/// The views of a list of sources.
pub open spec fn views<'a>(s: Seq<SourceInfo<'a>>) -> Seq<SourceView> {
    s.map_values(|x: SourceInfo<'a>| (x.id, x.abilities@, x.score))
}

/// Whether every ability of a source makes only colorless mana.
pub open spec fn colorless_only_spec(abilities: Seq<ManaAbility>) -> bool {
    forall|i: int|
        0 <= i < abilities.len() ==> (#[trigger] abilities[i]) is TapForColorless || abilities[i] is TapForColorlessAmount
}

/// The order in which sources are tried: `a` comes strictly after `b`. By
/// score, lower first; for generic mana, colorless-only sources first, then
/// those making more mana first.
pub open spec fn comes_after(by_score: bool, a: SourceView, b: SourceView) -> bool {
    if by_score {
        a.2 > b.2
    } else {
        let ga: int = if colorless_only_spec(a.1) { 0 } else { 1 };
        let gb: int = if colorless_only_spec(b.1) { 0 } else { 1 };
        ga > gb || (ga == gb && mana_amount_spec(a.1) < mana_amount_spec(b.1))
    }
}

/// Insert a source before the first source that comes after it.
pub open spec fn stable_insert(s: Seq<SourceView>, x: SourceView, by_score: bool) -> Seq<SourceView>
    decreases s.len(),
{
    if s.len() == 0 {
        seq![x]
    } else if comes_after(by_score, s[0], x) {
        seq![x] + s
    } else {
        seq![s[0]] + stable_insert(s.drop_first(), x, by_score)
    }
}

/// A stable sort of sources by the tapping order.
pub open spec fn stable_sort(s: Seq<SourceView>, by_score: bool) -> Seq<SourceView>
    decreases s.len(),
{
    if s.len() == 0 {
        s
    } else {
        stable_insert(stable_sort(s.drop_last(), by_score), s.last(), by_score)
    }
}

proof fn lemma_stable_insert(s: Seq<SourceView>, x: SourceView, by_score: bool, pos: int)
    requires
        0 <= pos <= s.len(),
        forall|k: int| 0 <= k < pos ==> !comes_after(by_score, #[trigger] s[k], x),
        pos < s.len() ==> comes_after(by_score, s[pos], x),
    ensures
        stable_insert(s, x, by_score) == s.insert(pos, x),
    decreases s.len(),
{
    if s.len() == 0 {
        assert(s.insert(pos, x) =~= seq![x]);
    } else if pos == 0 {
        assert(s.insert(0, x) =~= seq![x] + s);
    } else {
        assert(!comes_after(by_score, s[0], x));
        let t = s.drop_first();
        assert forall|k: int| 0 <= k < pos - 1 implies !comes_after(by_score, #[trigger] t[k], x) by {
            assert(t[k] == s[k + 1]);
        }
        lemma_stable_insert(t, x, by_score, pos - 1);
        assert(seq![s[0]] + t.insert(pos - 1, x) =~= s.insert(pos, x));
    }
}

/// Whether every ability makes only colorless mana.
fn colorless_only(abilities: &Vec<ManaAbility>) -> (r: bool)
    ensures
        r == colorless_only_spec(abilities@),
{
    let mut i: usize = 0;
    while i < abilities.len()
        invariant
            i <= abilities@.len(),
            forall|k: int|
                0 <= k < i ==> (#[trigger] abilities@[k]) is TapForColorless || abilities@[k] is TapForColorlessAmount,
        decreases abilities.len() - i,
    {
        match &abilities[i] {
            ManaAbility::TapForColorless => {},
            ManaAbility::TapForColorlessAmount(_) => {},
            _ => {
                return false;
            },
        }
        i = i + 1;
    }
    true
}

/// Whether a source is tried after another.
fn comes_after_exec(by_score: bool, a: &SourceInfo, b: &SourceInfo) -> (r: bool)
    ensures
        r == comes_after(by_score, (a.id, a.abilities@, a.score), (b.id, b.abilities@, b.score)),
{
    if by_score {
        a.score > b.score
    } else {
        let ga: u8 = if colorless_only(a.abilities) { 0 } else { 1 };
        let gb: u8 = if colorless_only(b.abilities) { 0 } else { 1 };
        ga > gb || (ga == gb && mana_amount(a.abilities) < mana_amount(b.abilities))
    }
}

/// A stable sort of sources by the tapping order.
fn sort_sources<'a>(v: &Vec<SourceInfo<'a>>, by_score: bool) -> (r: Vec<SourceInfo<'a>>)
    ensures
        views(r@) == stable_sort(views(v@), by_score),
{
    let mut out: Vec<SourceInfo<'a>> = Vec::new();
    let mut i: usize = 0;
    while i < v.len()
        invariant
            i <= v@.len(),
            views(out@) == stable_sort(views(v@.take(i as int)), by_score),
        decreases v.len() - i,
    {
        let x = v[i];
        let mut pos: usize = 0;
        while pos < out.len() && !comes_after_exec(by_score, &out[pos], &x)
            invariant
                pos <= out@.len(),
                forall|k: int| 0 <= k < pos ==> !comes_after(by_score, #[trigger] views(out@)[k], (x.id, x.abilities@, x.score)),
            decreases out.len() - pos,
        {
            pos = pos + 1;
        }
        proof {
            lemma_stable_insert(views(out@), (x.id, x.abilities@, x.score), by_score, pos as int);
            assert(views(v@.take(i + 1)).drop_last() =~= views(v@.take(i as int)));
            assert(views(v@.take(i + 1)).last() == (x.id, x.abilities@, x.score));
            assert(views(out@.insert(pos as int, x)) =~= views(out@).insert(pos as int, (x.id, x.abilities@, x.score)));
        }
        out.insert(pos, x);
        i = i + 1;
    }
    assert(v@.take(v@.len() as int) =~= v@);
    out
}

/// Whether a source makes exactly one given color with some ability.
pub open spec fn makes_exactly(abilities: Seq<ManaAbility>, c: Color) -> bool {
    exists|i: int| 0 <= i < abilities.len() && (#[trigger] abilities[i]) == ManaAbility::TapForColor(c)
}

/// Whether a source can make a color: a fixed color, a choice including it,
/// or any color.
pub open spec fn makes_color(abilities: Seq<ManaAbility>, c: Color) -> bool {
    exists|i: int|
        0 <= i < abilities.len() && (names_color(#[trigger] abilities[i], c) || abilities[i] is TapForAny)
}

/// Tap, in order, untapped sources of score at most 1 that make exactly
/// color `c`, one mana each, until `need` is met.
pub open spec fn exact_pass(
    infos: Seq<SourceView>,
    c: Color,
    need: nat,
    dec: Seq<TapDecision>,
    tapped: Seq<ObjectId>,
) -> (Seq<TapDecision>, Seq<ObjectId>, nat)
    decreases infos.len(),
{
    if infos.len() == 0 || need == 0 {
        (dec, tapped, need)
    } else {
        let x = infos[0];
        if !tapped.contains(x.0) && x.2 <= 1 && makes_exactly(x.1, c) {
            exact_pass(infos.drop_first(), c, (need - 1) as nat, dec.push(TapDecision::Color(x.0, c)), tapped.push(x.0))
        } else {
            exact_pass(infos.drop_first(), c, need, dec, tapped)
        }
    }
}

/// Tap, in order, untapped sources that can make color `c`, one mana each,
/// until `need` is met.
pub open spec fn any_pass(
    infos: Seq<SourceView>,
    c: Color,
    need: nat,
    dec: Seq<TapDecision>,
    tapped: Seq<ObjectId>,
) -> (Seq<TapDecision>, Seq<ObjectId>, nat)
    decreases infos.len(),
{
    if infos.len() == 0 || need == 0 {
        (dec, tapped, need)
    } else {
        let x = infos[0];
        if !tapped.contains(x.0) && makes_color(x.1, c) {
            any_pass(infos.drop_first(), c, (need - 1) as nat, dec.push(TapDecision::Color(x.0, c)), tapped.push(x.0))
        } else {
            any_pass(infos.drop_first(), c, need, dec, tapped)
        }
    }
}

/// Whether a source makes exactly a given color with some ability.
fn makes_exactly_exec(abilities: &Vec<ManaAbility>, c: Color) -> (r: bool)
    ensures
        r == makes_exactly(abilities@, c),
{
    let mut i: usize = 0;
    while i < abilities.len()
        invariant
            i <= abilities@.len(),
            forall|k: int| 0 <= k < i ==> (#[trigger] abilities@[k]) != ManaAbility::TapForColor(c),
        decreases abilities.len() - i,
    {
        match &abilities[i] {
            ManaAbility::TapForColor(x) => {
                if *x == c {
                    return true;
                }
            },
            _ => {},
        }
        i = i + 1;
    }
    false
}

/// Whether a source can make a color.
fn makes_color_exec(abilities: &Vec<ManaAbility>, c: Color) -> (r: bool)
    ensures
        r == makes_color(abilities@, c),
{
    let (named, any) = scan_abilities(abilities, c);
    proof {
        if named {
            let i = choose|i: int| 0 <= i < abilities@.len() && names_color(#[trigger] abilities@[i], c);
            assert(names_color(abilities@[i], c) || abilities@[i] is TapForAny);
        }
        if any {
            let i = choose|i: int| 0 <= i < abilities@.len() && (#[trigger] abilities@[i]) is TapForAny;
            assert(names_color(abilities@[i], c) || abilities@[i] is TapForAny);
        }
    }
    named || any
}

/// One color pass: tap, in order, untapped sources for color `c` (only
/// exact single-color sources when `exact`), until `need` is met. Returns
/// what is still needed.
fn color_pass(
    infos: &Vec<SourceInfo>,
    c: Color,
    need: u32,
    exact: bool,
    dec: &mut Vec<TapDecision>,
    tapped: &mut Vec<ObjectId>,
) -> (r: u32)
    ensures
        (final(dec)@, final(tapped)@, r as nat) == (if exact {
            exact_pass(views(infos@), c, need as nat, old(dec)@, old(tapped)@)
        } else {
            any_pass(views(infos@), c, need as nat, old(dec)@, old(tapped)@)
        }),
{
    let ghost target = if exact {
        exact_pass(views(infos@), c, need as nat, old(dec)@, old(tapped)@)
    } else {
        any_pass(views(infos@), c, need as nat, old(dec)@, old(tapped)@)
    };
    let mut still = need;
    let mut i: usize = 0;
    assert(views(infos@).skip(0) =~= views(infos@));
    while i < infos.len() && still > 0
        invariant
            i <= infos@.len(),
            target == (if exact {
                exact_pass(views(infos@).skip(i as int), c, still as nat, dec@, tapped@)
            } else {
                any_pass(views(infos@).skip(i as int), c, still as nat, dec@, tapped@)
            }),
        decreases infos.len() - i,
    {
        let x = infos[i];
        assert(views(infos@).skip(i as int)[0] == (x.id, x.abilities@, x.score));
        assert(views(infos@).skip(i as int).drop_first() =~= views(infos@).skip(i + 1));
        let already = crate::game::contains_id(tapped, x.id);
        let ok = if exact {
            !already && x.score <= 1 && makes_exactly_exec(x.abilities, c)
        } else {
            !already && makes_color_exec(x.abilities, c)
        };
        if ok {
            dec.push(TapDecision::Color(x.id, c));
            tapped.push(x.id);
            still = still - 1;
        }
        i = i + 1;
    }
    proof {
        if still > 0 {
            assert(views(infos@).skip(i as int).len() == 0);
        }
    }
    still
}

/// The decision for tapping a source for generic mana by its first ability,
/// with the mana it makes.
pub open spec fn generic_decision(id: ObjectId, a: ManaAbility) -> (TapDecision, nat) {
    match a {
        ManaAbility::TapForColor(c) => (TapDecision::Color(id, c), 1),
        ManaAbility::TapForColorless => (TapDecision::Colorless(id, 1), 1),
        ManaAbility::TapForAny => (TapDecision::Colorless(id, 1), 1),
        ManaAbility::TapForColorlessAmount(n) => (TapDecision::Colorless(id, n), n as nat),
        ManaAbility::TapForChoice(v) => if v@.len() > 0 {
            (TapDecision::Color(id, v@[0]), 1)
        } else {
            (TapDecision::Colorless(id, 1), 1)
        },
    }
}

/// Tap, in order, untapped sources with an ability for generic mana until
/// `need` is met.
pub open spec fn generic_pass(
    infos: Seq<SourceView>,
    need: nat,
    dec: Seq<TapDecision>,
    tapped: Seq<ObjectId>,
) -> (Seq<TapDecision>, Seq<ObjectId>)
    decreases infos.len(),
{
    if infos.len() == 0 || need == 0 {
        (dec, tapped)
    } else {
        let x = infos[0];
        if tapped.contains(x.0) || x.1.len() == 0 {
            generic_pass(infos.drop_first(), need, dec, tapped)
        } else {
            let (d, n) = generic_decision(x.0, x.1[0]);
            generic_pass(
                infos.drop_first(),
                if need >= n {
                    (need - n) as nat
                } else {
                    0
                },
                dec.push(d),
                tapped.push(x.0),
            )
        }
    }
}

/// The sources not yet tapped, in order.
pub open spec fn untapped_among(infos: Seq<SourceView>, tapped: Seq<ObjectId>) -> Seq<SourceView>
    decreases infos.len(),
{
    if infos.len() == 0 {
        infos
    } else {
        let rest = untapped_among(infos.drop_last(), tapped);
        if tapped.contains(infos.last().0) {
            rest
        } else {
            rest.push(infos.last())
        }
    }
}

/// Pay one color: exact single-color sources first, then any source that
/// can make the color, for what the pool lacks.
pub open spec fn color_step(
    infos: Seq<SourceView>,
    cost: ManaCost,
    pool: ManaPool,
    c: Color,
    acc: (Seq<TapDecision>, Seq<ObjectId>),
) -> (Seq<TapDecision>, Seq<ObjectId>) {
    let needed = cost.color_spec(c);
    let have = pool.get_spec(c);
    if needed <= have {
        acc
    } else {
        let e = exact_pass(infos, c, (needed - have) as nat, acc.0, acc.1);
        let a = any_pass(infos, c, e.2, e.0, e.1);
        (a.0, a.1)
    }
}

/// The colored taps, color by color in the order White, Blue, Black, Red,
/// Green.
pub open spec fn colored_plan(infos: Seq<SourceView>, cost: ManaCost, pool: ManaPool) -> (Seq<TapDecision>, Seq<ObjectId>) {
    let s0 = (Seq::<TapDecision>::empty(), Seq::<ObjectId>::empty());
    let s1 = color_step(infos, cost, pool, Color::White, s0);
    let s2 = color_step(infos, cost, pool, Color::Blue, s1);
    let s3 = color_step(infos, cost, pool, Color::Black, s2);
    let s4 = color_step(infos, cost, pool, Color::Red, s3);
    color_step(infos, cost, pool, Color::Green, s4)
}

/// The sum of a cost's colored requirements.
pub open spec fn colored_total(cost: ManaCost) -> int {
    cost.white + cost.blue + cost.black + cost.red + cost.green
}

/// The taps the auto-tapper decides on: sources sorted by constraint
/// score, colored requirements paid first, then, if the pool and the
/// colored taps fall short of the whole cost, untapped sources for generic
/// mana, colorless-only and bigger ones first.
pub open spec fn tap_plan(infos: Seq<SourceView>, cost: ManaCost, pool: ManaPool) -> Seq<TapDecision> {
    let sorted = stable_sort(infos, true);
    let c = colored_plan(sorted, cost, pool);
    let pool_total = pool.total_spec() + c.0.len();
    let total_needed = colored_total(cost) + cost.generic;
    if pool_total < total_needed {
        generic_pass(stable_sort(untapped_among(sorted, c.1), false), (total_needed - pool_total) as nat, c.0, c.1).0
    } else {
        c.0
    }
}

/// The generic pass: tap untapped sources by their first ability until
/// `need` is met.
fn generic_pass_exec(infos: &Vec<SourceInfo>, need: u32, dec: &mut Vec<TapDecision>, tapped: &mut Vec<ObjectId>)
    ensures
        (final(dec)@, final(tapped)@) == generic_pass(views(infos@), need as nat, old(dec)@, old(tapped)@),
{
    let ghost target = generic_pass(views(infos@), need as nat, old(dec)@, old(tapped)@);
    let mut still = need;
    let mut i: usize = 0;
    assert(views(infos@).skip(0) =~= views(infos@));
    while i < infos.len() && still > 0
        invariant
            i <= infos@.len(),
            target == generic_pass(views(infos@).skip(i as int), still as nat, dec@, tapped@),
        decreases infos.len() - i,
    {
        let x = infos[i];
        assert(views(infos@).skip(i as int)[0] == (x.id, x.abilities@, x.score));
        assert(views(infos@).skip(i as int).drop_first() =~= views(infos@).skip(i + 1));
        if !crate::game::contains_id(tapped, x.id) && x.abilities.len() > 0 {
            let produced: u32 = match &x.abilities[0] {
                ManaAbility::TapForColor(c) => {
                    dec.push(TapDecision::Color(x.id, *c));
                    1
                },
                ManaAbility::TapForColorless => {
                    dec.push(TapDecision::Colorless(x.id, 1));
                    1
                },
                ManaAbility::TapForAny => {
                    dec.push(TapDecision::Colorless(x.id, 1));
                    1
                },
                ManaAbility::TapForColorlessAmount(n) => {
                    dec.push(TapDecision::Colorless(x.id, *n));
                    *n
                },
                ManaAbility::TapForChoice(colors) => {
                    if colors.len() > 0 {
                        dec.push(TapDecision::Color(x.id, colors[0]));
                    } else {
                        dec.push(TapDecision::Colorless(x.id, 1));
                    }
                    1
                },
            };
            tapped.push(x.id);
            still = still.saturating_sub(produced);
        }
        i = i + 1;
    }
    proof {
        if still > 0 {
            assert(views(infos@).skip(i as int).len() == 0);
        }
    }
}

/// The sources not yet tapped, in order.
fn untapped_sources<'a>(infos: &Vec<SourceInfo<'a>>, tapped: &Vec<ObjectId>) -> (r: Vec<SourceInfo<'a>>)
    ensures
        views(r@) == untapped_among(views(infos@), tapped@),
{
    let mut out: Vec<SourceInfo<'a>> = Vec::new();
    let mut i: usize = 0;
    while i < infos.len()
        invariant
            i <= infos@.len(),
            views(out@) == untapped_among(views(infos@.take(i as int)), tapped@),
        decreases infos.len() - i,
    {
        let x = infos[i];
        assert(views(infos@.take(i + 1)).drop_last() =~= views(infos@.take(i as int)));
        assert(views(infos@.take(i + 1)).last() == (x.id, x.abilities@, x.score));
        if !crate::game::contains_id(tapped, x.id) {
            out.push(x);
            assert(views(out@) =~= untapped_among(views(infos@.take(i as int)), tapped@).push((x.id, x.abilities@, x.score)));
        }
        i = i + 1;
    }
    assert(infos@.take(infos@.len() as int) =~= infos@);
    out
}

/// Pay one color from the sources.
fn color_step_exec(
    infos: &Vec<SourceInfo>,
    cost: &ManaCost,
    pool: &ManaPool,
    c: Color,
    dec: &mut Vec<TapDecision>,
    tapped: &mut Vec<ObjectId>,
)
    ensures
        (final(dec)@, final(tapped)@) == color_step(views(infos@), *cost, *pool, c, (old(dec)@, old(tapped)@)),
{
    let needed = cost.color_amount(c);
    let have = pool.get(c);
    if needed <= have {
        return;
    }
    let rest = color_pass(infos, c, needed - have, true, dec, tapped);
    color_pass(infos, c, rest, false, dec, tapped);
}

/// The taps for a cost from a list of sources, given the pool.
pub fn plan_taps(infos: &Vec<SourceInfo>, cost: &ManaCost, pool: &ManaPool) -> (r: Vec<TapDecision>)
    requires
        pool.total_spec() + colored_plan(stable_sort(views(infos@), true), *cost, *pool).0.len() <= u32::MAX,
        colored_total(*cost) + cost.generic <= u32::MAX,
    ensures
        r@ == tap_plan(views(infos@), *cost, *pool),
{
    let sorted = sort_sources(infos, true);
    let mut dec: Vec<TapDecision> = Vec::new();
    let mut tapped: Vec<ObjectId> = Vec::new();
    color_step_exec(&sorted, cost, pool, Color::White, &mut dec, &mut tapped);
    color_step_exec(&sorted, cost, pool, Color::Blue, &mut dec, &mut tapped);
    color_step_exec(&sorted, cost, pool, Color::Black, &mut dec, &mut tapped);
    color_step_exec(&sorted, cost, pool, Color::Red, &mut dec, &mut tapped);
    color_step_exec(&sorted, cost, pool, Color::Green, &mut dec, &mut tapped);
    let colored_from_decisions = dec.len() as u32;
    let pool_total = pool.total() + colored_from_decisions;
    let colored = cost.white + cost.blue + cost.black + cost.red + cost.green;
    let total_needed = colored + cost.generic;
    if pool_total < total_needed {
        let still = total_needed - pool_total;
        let candidates = untapped_sources(&sorted, &tapped);
        let remaining = sort_sources(&candidates, false);
        generic_pass_exec(&remaining, still, &mut dec, &mut tapped);
    }
    dec
}

/// The sources, in order, among the listed objects that are known and whose
/// card is known.
pub open spec fn source_views_of(ids: Seq<ObjectId>, state: GameState) -> Seq<SourceView>
    decreases ids.len(),
{
    if ids.len() == 0 {
        Seq::empty()
    } else {
        let rest = source_views_of(ids.drop_last(), state);
        match def_at(state, ids.last()) {
            Some(d) => rest.push((ids.last(), d.mana_abilities@, constraint_score_spec(d.mana_abilities@))),
            None => rest,
        }
    }
}

/// The auto-tapper's view of `player`'s untapped mana sources.
pub open spec fn mana_source_views(state: GameState, player: PlayerIndex) -> Seq<SourceView> {
    source_views_of(state.filtered_battlefield(player, crate::game::PermanentFilter::UntappedManaSource), state)
}

/// The number of copies of a static ability among the abilities of a
/// permanent that `player` controls (none for another player's).
pub open spec fn ability_count_of(state: GameState, player: PlayerIndex, ability: StaticAbility, id: ObjectId) -> int {
    if state.objects@.contains_key(id) && state.objects@[id].controller == player {
        match def_at(state, id) {
            Some(d) => ability_copies(d.static_abilities@, ability) as int,
            None => 0,
        }
    } else {
        0
    }
}

/// The number of copies of a static ability among the permanents that
/// `player` controls.
pub open spec fn ability_total(state: GameState, player: PlayerIndex, ability: StaticAbility) -> int {
    sum_over(state.battlefield@, |id: ObjectId| ability_count_of(state, player, ability, id))
}

/// How much extra mana `player`'s nonland sources make: one per
/// `ManaFromNonlandBonus` ability among the permanents they control.
pub open spec fn nonland_bonus_spec(state: GameState, player: PlayerIndex) -> int {
    ability_total(state, player, StaticAbility::ManaFromNonlandBonus)
}

/// How many copies of a static ability are in a list.
pub open spec fn ability_copies(v: Seq<StaticAbility>, ability: StaticAbility) -> nat
    decreases v.len(),
{
    if v.len() == 0 {
        0
    } else {
        ability_copies(v.drop_last(), ability) + if v.last() == ability {
            1nat
        } else {
            0nat
        }
    }
}

/// How many copies of a static ability are in a list.
fn count_ability(v: &Vec<StaticAbility>, ability: StaticAbility) -> (r: u64)
    ensures
        r == ability_copies(v@, ability),
{
    let mut n: u64 = 0;
    let mut i: usize = 0;
    while i < v.len()
        invariant
            i <= v@.len(),
            n <= i,
            n == ability_copies(v@.take(i as int), ability),
        decreases v.len() - i,
    {
        assert(v@.take(i + 1).drop_last() =~= v@.take(i as int));
        if v[i] == ability {
            n = n + 1;
        }
        i = i + 1;
    }
    assert(v@.take(v@.len() as int) =~= v@);
    n
}

/// The number of copies of a static ability among the permanents that
/// `player` controls.
fn static_ability_count(state: &GameState, player: PlayerIndex, ability: StaticAbility) -> (r: u32)
    requires
        state.card_db is Some,
        ability_total(*state, player, ability) <= u32::MAX,
    ensures
        r == ability_total(*state, player, ability),
{
    let db = state.card_db();
    let mut count: u32 = 0;
    let mut i: usize = 0;
    while i < state.battlefield.len()
        invariant
            i <= state.battlefield@.len(),
            state.card_db is Some,
            *db == state.db(),
            ability_total(*state, player, ability) <= u32::MAX,
            count == sum_over(state.battlefield@.take(i as int), |id: ObjectId| ability_count_of(*state, player, ability, id)),
        decreases state.battlefield.len() - i,
    {
        let obj_id = state.battlefield[i];
        assert(state.battlefield@.take(i + 1).drop_last() =~= state.battlefield@.take(i as int));
        assert(state.battlefield@.take(i + 1).last() == obj_id);
        proof {
            lemma_sum_prefix_le(state.battlefield@, |id: ObjectId| ability_count_of(*state, player, ability, id), i + 1);
        }
        match state.objects.get(&obj_id) {
            Some(inst) => {
                if inst.controller == player {
                    match db.get(inst.card_def_id) {
                        Some(def) => {
                            let n = count_ability(&def.static_abilities, ability);
                            assert(def_at(*state, obj_id) == Some(*def));
                            assert(ability_count_of(*state, player, ability, obj_id) == n as int);
                            count = count + n as u32;
                        },
                        None => {},
                    }
                }
            },
            None => {},
        }
        i = i + 1;
    }
    assert(state.battlefield@.take(state.battlefield@.len() as int) =~= state.battlefield@);
    count
}

/// How much extra mana `player`'s nonland sources make (Kinnan-style).
pub fn mana_from_nonland_bonus_count(state: &GameState, player: PlayerIndex) -> (r: u32)
    requires
        state.card_db is Some,
        nonland_bonus_spec(*state, player) <= u32::MAX,
    ensures
        r == nonland_bonus_spec(*state, player),
{
    static_ability_count(state, player, StaticAbility::ManaFromNonlandBonus)
}

/// How much extra black mana `player`'s Swamps make: one per
/// `ManaFromSwampBonus` ability among the permanents they control.
pub fn mana_from_swamp_bonus_count(state: &GameState, player: PlayerIndex) -> (r: u32)
    requires
        state.card_db is Some,
        ability_total(*state, player, StaticAbility::ManaFromSwampBonus) <= u32::MAX,
    ensures
        r == ability_total(*state, player, StaticAbility::ManaFromSwampBonus),
{
    static_ability_count(state, player, StaticAbility::ManaFromSwampBonus)
}

/// The auto-tapper's sources for a list of objects.
fn source_infos<'a>(state: &'a GameState, ids: &Vec<ObjectId>) -> (r: Vec<SourceInfo<'a>>)
    requires
        state.card_db is Some,
    ensures
        views(r@) == source_views_of(ids@, *state),
{
    let db = state.card_db();
    let mut out: Vec<SourceInfo<'a>> = Vec::new();
    let mut i: usize = 0;
    while i < ids.len()
        invariant
            i <= ids@.len(),
            state.card_db is Some,
            *db == state.db(),
            views(out@) == source_views_of(ids@.take(i as int), *state),
        decreases ids.len() - i,
    {
        let id = ids[i];
        assert(ids@.take(i + 1).drop_last() =~= ids@.take(i as int));
        assert(ids@.take(i + 1).last() == id);
        match state.objects.get(&id) {
            Some(inst) => match db.get(inst.card_def_id) {
                Some(def) => {
                    let score = constraint_score(&def.mana_abilities);
                    out.push(SourceInfo { id, abilities: &def.mana_abilities, score });
                    assert(views(out@) =~= source_views_of(ids@.take(i as int), *state).push(
                        (id, def.mana_abilities@, score),
                    ));
                },
                None => {},
            },
            None => {},
        }
        i = i + 1;
    }
    assert(ids@.take(ids@.len() as int) =~= ids@);
    out
}

/// The source a decision taps.
pub open spec fn decision_source(d: TapDecision) -> ObjectId {
    match d {
        TapDecision::Color(id, _) => id,
        TapDecision::Colorless(id, _) => id,
    }
}

/// Whether a known object's card is known and is not a land.
pub open spec fn nonland_at(state: GameState, id: ObjectId) -> bool {
    match def_at(state, id) {
        Some(d) => !d.card_types@.contains(CardType::Land),
        None => false,
    }
}

/// The mana of color `c` that a list of decisions adds.
pub open spec fn color_gain(decs: Seq<TapDecision>, c: Color) -> int
    decreases decs.len(),
{
    if decs.len() == 0 {
        0
    } else {
        color_gain(decs.drop_last(), c) + match decs.last() {
            TapDecision::Color(_, x) => if x == c {
                1int
            } else {
                0int
            },
            _ => 0int,
        }
    }
}

/// The colorless mana that a list of decisions adds, with the bonus for
/// each nonland source.
pub open spec fn colorless_gain(decs: Seq<TapDecision>, bonus: int, state: GameState) -> int
    decreases decs.len(),
{
    if decs.len() == 0 {
        0
    } else {
        colorless_gain(decs.drop_last(), bonus, state) + match decs.last() {
            TapDecision::Colorless(_, n) => n as int,
            _ => 0int,
        } + if nonland_at(state, decision_source(decs.last())) {
            bonus
        } else {
            0
        }
    }
}

/// Whether some decision taps a source.
pub open spec fn taps(decs: Seq<TapDecision>, id: ObjectId) -> bool {
    exists|i: int| 0 <= i < decs.len() && decision_source(#[trigger] decs[i]) == id
}

/// A pool after the mana of a list of decisions is added.
pub open spec fn pool_after(pool: ManaPool, decs: Seq<TapDecision>, bonus: int, state: GameState) -> ManaPool {
    ManaPool {
        white: (pool.white + color_gain(decs, Color::White)) as u32,
        blue: (pool.blue + color_gain(decs, Color::Blue)) as u32,
        black: (pool.black + color_gain(decs, Color::Black)) as u32,
        red: (pool.red + color_gain(decs, Color::Red)) as u32,
        green: (pool.green + color_gain(decs, Color::Green)) as u32,
        colorless: (pool.colorless + colorless_gain(decs, bonus, state)) as u32,
    }
}

/// Whether adding a list of decisions' mana to a pool keeps every amount
/// within a `u32`.
pub open spec fn gains_fit(pool: ManaPool, decs: Seq<TapDecision>, bonus: int, state: GameState) -> bool {
    &&& pool.white + color_gain(decs, Color::White) <= u32::MAX
    &&& pool.blue + color_gain(decs, Color::Blue) <= u32::MAX
    &&& pool.black + color_gain(decs, Color::Black) <= u32::MAX
    &&& pool.red + color_gain(decs, Color::Red) <= u32::MAX
    &&& pool.green + color_gain(decs, Color::Green) <= u32::MAX
    &&& pool.colorless + colorless_gain(decs, bonus, state) <= u32::MAX
}

proof fn lemma_gains_monotone(decs: Seq<TapDecision>, j: int, bonus: int, state: GameState, c: Color)
    requires
        0 <= j <= decs.len(),
        bonus >= 0,
    ensures
        0 <= color_gain(decs.take(j), c) <= color_gain(decs, c),
        0 <= colorless_gain(decs.take(j), bonus, state) <= colorless_gain(decs, bonus, state),
    decreases decs.len() - j,
{
    if j < decs.len() {
        lemma_gains_monotone(decs, j + 1, bonus, state, c);
        assert(decs.take(j + 1).drop_last() =~= decs.take(j));
        lemma_gains_nonneg(decs.take(j), bonus, state, c);
    } else {
        assert(decs.take(j) =~= decs);
        lemma_gains_nonneg(decs, bonus, state, c);
    }
}

proof fn lemma_gains_nonneg(decs: Seq<TapDecision>, bonus: int, state: GameState, c: Color)
    requires
        bonus >= 0,
    ensures
        color_gain(decs, c) >= 0,
        colorless_gain(decs, bonus, state) >= 0,
    decreases decs.len(),
{
    if decs.len() > 0 {
        lemma_gains_nonneg(decs.drop_last(), bonus, state, c);
    }
}

/// The pool after one decision's mana (and bonus) is added.
pub open spec fn step_pool(p: ManaPool, d: TapDecision, bonus: int, nonland: bool) -> ManaPool {
    let q = match d {
        TapDecision::Color(_, c) => p.set_spec(c, (p.get_spec(c) + 1) as u32),
        TapDecision::Colorless(_, n) => ManaPool { colorless: (p.colorless + n) as u32, ..p },
    };
    if bonus > 0 && nonland {
        ManaPool { colorless: (q.colorless + bonus) as u32, ..q }
    } else {
        q
    }
}

proof fn lemma_pool_step(pool0: ManaPool, decs: Seq<TapDecision>, j: int, bonus: int, s0: GameState)
    requires
        0 <= j < decs.len(),
        bonus >= 0,
        gains_fit(pool0, decs, bonus, s0),
    ensures
        pool_after(pool0, decs.take(j + 1), bonus, s0) == step_pool(
            pool_after(pool0, decs.take(j), bonus, s0),
            decs[j],
            bonus,
            nonland_at(s0, decision_source(decs[j])),
        ),
        pool_after(pool0, decs.take(j), bonus, s0).colorless + (match decs[j] {
            TapDecision::Colorless(_, n) => n as int,
            _ => 0int,
        }) + (if nonland_at(s0, decision_source(decs[j])) { bonus } else { 0 }) <= u32::MAX,
        forall|c: Color| #![trigger pool_after(pool0, decs.take(j), bonus, s0).get_spec(c)]
            decs[j] == TapDecision::Color(decision_source(decs[j]), c) ==> pool_after(pool0, decs.take(j), bonus, s0).get_spec(c) + 1 <= u32::MAX,
{
    assert(decs.take(j + 1).drop_last() =~= decs.take(j));
    assert(decs.take(j + 1).last() == decs[j]);
    lemma_gains_monotone(decs, j, bonus, s0, Color::White);
    lemma_gains_monotone(decs, j, bonus, s0, Color::Blue);
    lemma_gains_monotone(decs, j, bonus, s0, Color::Black);
    lemma_gains_monotone(decs, j, bonus, s0, Color::Red);
    lemma_gains_monotone(decs, j, bonus, s0, Color::Green);
    lemma_gains_monotone(decs, j + 1, bonus, s0, Color::White);
    lemma_gains_monotone(decs, j + 1, bonus, s0, Color::Blue);
    lemma_gains_monotone(decs, j + 1, bonus, s0, Color::Black);
    lemma_gains_monotone(decs, j + 1, bonus, s0, Color::Red);
    lemma_gains_monotone(decs, j + 1, bonus, s0, Color::Green);
}

/// Whether the first `j + 1` decisions tap a source.
proof fn lemma_taps_step(decs: Seq<TapDecision>, j: int)
    requires
        0 <= j < decs.len(),
    ensures
        forall|k: ObjectId|
            #[trigger] taps(decs.take(j + 1), k) == (taps(decs.take(j), k) || decision_source(decs[j]) == k),
{
    assert forall|k: ObjectId| #[trigger] taps(decs.take(j + 1), k) == (taps(decs.take(j), k) || decision_source(decs[j]) == k) by {
        if taps(decs.take(j + 1), k) {
            let i = choose|i: int| 0 <= i < decs.take(j + 1).len() && decision_source(#[trigger] decs.take(j + 1)[i]) == k;
            if i < j {
                assert(decs.take(j)[i] == decs.take(j + 1)[i]);
            }
        }
        if taps(decs.take(j), k) {
            let i = choose|i: int| 0 <= i < decs.take(j).len() && decision_source(#[trigger] decs.take(j)[i]) == k;
            assert(decs.take(j)[i] == decs.take(j + 1)[i]);
        }
        if decision_source(decs[j]) == k {
            assert(decision_source(decs.take(j + 1)[j]) == k);
        }
    }
}

/// Add one decision's mana (and the nonland bonus) to a pool.
fn add_decision_mana(pool: &mut ManaPool, d: TapDecision, bonus: u32, nonland: bool)
    requires
        match d {
            TapDecision::Color(_, c) => old(pool).get_spec(c) + 1 <= u32::MAX,
            TapDecision::Colorless(_, n) => true,
        },
        old(pool).colorless + (match d {
            TapDecision::Colorless(_, n) => n as int,
            _ => 0int,
        }) + (if nonland { bonus as int } else { 0 }) <= u32::MAX,
    ensures
        *final(pool) == step_pool(*old(pool), d, bonus as int, nonland),
{
    match d {
        TapDecision::Color(_, color) => {
            pool.add_color(color, 1);
        },
        TapDecision::Colorless(_, amount) => {
            pool.colorless = pool.colorless + amount;
        },
    }
    if bonus > 0 && nonland {
        pool.colorless = pool.colorless + bonus;
    }
}

/// Mark a known object tapped.
fn tap_object(objects: &mut std::collections::HashMap<ObjectId, CardInstance>, id: ObjectId)
    ensures
        final(objects)@ == (if old(objects)@.contains_key(id) {
            old(objects)@.insert(id, CardInstance { tapped: true, ..old(objects)@[id] })
        } else {
            old(objects)@
        }),
{
    match objects.get(&id) {
        Some(inst) => {
            let mut t = *inst;
            t.tapped = true;
            objects.insert(id, t);
        },
        None => {},
    }
}

/// Tap `player`'s mana sources to pay a cost, most constrained sources
/// first: colored requirements from single-color sources, then from
/// multicolor and any-color sources; then, if the pool still falls short,
/// generic mana from the remaining sources, colorless-only and bigger ones
/// first. Each tapped source adds its mana to the pool (and, with a
/// Kinnan-style bonus, nonland sources add that much more colorless).
pub fn auto_tap_lands(state: &mut GameState, player: PlayerIndex, cost: &ManaCost)
    requires
        old(state).battlefield_known(),
        old(state).card_db is Some,
        player < old(state).players@.len(),
        old(state).players@[player as int].mana_pool.total_spec() + colored_plan(
            stable_sort(mana_source_views(*old(state), player), true),
            *cost,
            old(state).players@[player as int].mana_pool,
        ).0.len() <= u32::MAX,
        colored_total(*cost) + cost.generic <= u32::MAX,
        nonland_bonus_spec(*old(state), player) <= u32::MAX,
        gains_fit(
            old(state).players@[player as int].mana_pool,
            tap_plan(mana_source_views(*old(state), player), *cost, old(state).players@[player as int].mana_pool),
            nonland_bonus_spec(*old(state), player),
            *old(state),
        ),
    ensures
        ({
            let pool = old(state).players@[player as int].mana_pool;
            let plan = tap_plan(mana_source_views(*old(state), player), *cost, pool);
            &&& *final(state) == (GameState { objects: final(state).objects, players: final(state).players, ..*old(state) })
            &&& final(state).players@ == old(state).players@.update(
                player as int,
                PlayerState { mana_pool: pool_after(pool, plan, nonland_bonus_spec(*old(state), player), *old(state)), ..old(state).players@[player as int] },
            )
            &&& final(state).objects@.dom() == old(state).objects@.dom()
            &&& forall|k: ObjectId|
                #[trigger] final(state).objects@.contains_key(k) ==> final(state).objects@[k] == (if taps(plan, k) {
                    CardInstance { tapped: true, ..old(state).objects@[k] }
                } else {
                    old(state).objects@[k]
                })
        }),
{
    let ghost s0 = *state;
    let decisions = {
        let sources = state.untapped_mana_sources(player);
        let infos = source_infos(state, &sources);
        plan_taps(&infos, cost, &state.players[player].mana_pool)
    };
    let bonus = mana_from_nonland_bonus_count(state, player);
    let ghost pool0 = s0.players@[player as int].mana_pool;
    let mut j: usize = 0;
    while j < decisions.len()
        invariant
            j <= decisions@.len(),
            player < s0.players@.len(),
            state.card_db == s0.card_db,
            state.card_db is Some,
            bonus == nonland_bonus_spec(s0, player),
            gains_fit(pool0, decisions@, bonus as int, s0),
            *state == (GameState { objects: state.objects, players: state.players, ..s0 }),
            state.players@ == s0.players@.update(
                player as int,
                PlayerState { mana_pool: pool_after(pool0, decisions@.take(j as int), bonus as int, s0), ..s0.players@[player as int] },
            ),
            state.objects@.dom() == s0.objects@.dom(),
            forall|k: ObjectId|
                #[trigger] state.objects@.contains_key(k) ==> state.objects@[k] == (if taps(decisions@.take(j as int), k) {
                    CardInstance { tapped: true, ..s0.objects@[k] }
                } else {
                    s0.objects@[k]
                }),
        decreases decisions.len() - j,
    {
        let d = decisions[j];
        proof {
            lemma_pool_step(pool0, decisions@, j as int, bonus as int, s0);
            lemma_taps_step(decisions@, j as int);
        }
        let id = match d {
            TapDecision::Color(source_id, _) => source_id,
            TapDecision::Colorless(source_id, _) => source_id,
        };
        let nonland = match state.objects.get(&id) {
            Some(inst) => {
                let db = state.card_db();
                match db.get(inst.card_def_id) {
                    Some(def) => !crate::card::has_card_type(&def.card_types, CardType::Land),
                    None => false,
                }
            },
            None => false,
        };
        assert(nonland == nonland_at(s0, id));
        add_decision_mana(&mut state.players[player].mana_pool, d, bonus, nonland);
        tap_object(&mut state.objects, id);
        j = j + 1;
    }
    assert(decisions@.take(decisions@.len() as int) =~= decisions@);
}

/// A source with an ability for mana of any color can make each color.
pub proof fn lemma_any_color_source_makes_each_color(abilities: Seq<ManaAbility>, c: Color)
    requires
        has_any_color(abilities),
    ensures
        makes_color(abilities, c),
{
    let i = choose|i: int| 0 <= i < abilities.len() && (#[trigger] abilities[i]) is TapForAny;
    assert(names_color(abilities[i], c) || abilities[i] is TapForAny);
}

proof fn lemma_stable_insert_keeps(s: Seq<SourceView>, x: SourceView, by_score: bool)
    ensures
        stable_insert(s, x, by_score).contains(x),
        forall|k: int| 0 <= k < s.len() ==> stable_insert(s, x, by_score).contains(#[trigger] s[k]),
    decreases s.len(),
{
    let r = stable_insert(s, x, by_score);
    if s.len() == 0 {
        assert(r[0] == x);
    } else if comes_after(by_score, s[0], x) {
        assert(r[0] == x);
        assert forall|k: int| 0 <= k < s.len() implies r.contains(#[trigger] s[k]) by {
            assert(r[k + 1] == s[k]);
        }
    } else {
        let t = s.drop_first();
        lemma_stable_insert_keeps(t, x, by_score);
        let rt = stable_insert(t, x, by_score);
        assert(r == seq![s[0]] + rt);
        let i = choose|i: int| 0 <= i < rt.len() && rt[i] == x;
        assert(r[i + 1] == x);
        assert forall|k: int| 0 <= k < s.len() implies r.contains(#[trigger] s[k]) by {
            if k == 0 {
                assert(r[0] == s[0]);
            } else {
                assert(t[k - 1] == s[k]);
                assert(rt.contains(t[k - 1]));
                let m = choose|m: int| 0 <= m < rt.len() && rt[m] == t[k - 1];
                assert(r[m + 1] == s[k]);
            }
        }
    }
}

proof fn lemma_stable_sort_keeps(s: Seq<SourceView>, by_score: bool)
    ensures
        forall|k: int| 0 <= k < s.len() ==> stable_sort(s, by_score).contains(#[trigger] s[k]),
    decreases s.len(),
{
    if s.len() > 0 {
        let t = s.drop_last();
        lemma_stable_sort_keeps(t, by_score);
        let st = stable_sort(t, by_score);
        lemma_stable_insert_keeps(st, s.last(), by_score);
        let r = stable_sort(s, by_score);
        assert forall|k: int| 0 <= k < s.len() implies r.contains(#[trigger] s[k]) by {
            if k < s.len() - 1 {
                assert(t[k] == s[k]);
                assert(st.contains(t[k]));
                let m = choose|m: int| 0 <= m < st.len() && st[m] == t[k];
                assert(r.contains(st[m]));
            }
        }
    }
}

proof fn lemma_color_gain_push(dec: Seq<TapDecision>, id: ObjectId, c: Color)
    ensures
        color_gain(dec.push(TapDecision::Color(id, c)), c) == color_gain(dec, c) + 1,
{
    assert(dec.push(TapDecision::Color(id, c)).drop_last() =~= dec);
}

/// Each source the exact pass taps adds one mana of the color.
proof fn lemma_exact_pass_gain(infos: Seq<SourceView>, c: Color, need: nat, dec: Seq<TapDecision>, tapped: Seq<ObjectId>)
    ensures
        exact_pass(infos, c, need, dec, tapped).2 <= need,
        color_gain(exact_pass(infos, c, need, dec, tapped).0, c) == color_gain(dec, c) + need - exact_pass(
            infos,
            c,
            need,
            dec,
            tapped,
        ).2,
        exact_pass(infos, c, need, dec, tapped).2 == need ==> exact_pass(infos, c, need, dec, tapped).1 == tapped,
    decreases infos.len(),
{
    if infos.len() > 0 && need > 0 {
        let x = infos[0];
        if !tapped.contains(x.0) && x.2 <= 1 && makes_exactly(x.1, c) {
            lemma_color_gain_push(dec, x.0, c);
            lemma_exact_pass_gain(infos.drop_first(), c, (need - 1) as nat, dec.push(TapDecision::Color(x.0, c)), tapped.push(x.0));
        } else {
            lemma_exact_pass_gain(infos.drop_first(), c, need, dec, tapped);
        }
    }
}

/// Each source the any-color pass taps adds one mana of the color.
proof fn lemma_any_pass_gain(infos: Seq<SourceView>, c: Color, need: nat, dec: Seq<TapDecision>, tapped: Seq<ObjectId>)
    ensures
        any_pass(infos, c, need, dec, tapped).2 <= need,
        color_gain(any_pass(infos, c, need, dec, tapped).0, c) == color_gain(dec, c) + need - any_pass(
            infos,
            c,
            need,
            dec,
            tapped,
        ).2,
    decreases infos.len(),
{
    if infos.len() > 0 && need > 0 {
        let x = infos[0];
        if !tapped.contains(x.0) && makes_color(x.1, c) {
            lemma_color_gain_push(dec, x.0, c);
            lemma_any_pass_gain(infos.drop_first(), c, (need - 1) as nat, dec.push(TapDecision::Color(x.0, c)), tapped.push(x.0));
        } else {
            lemma_any_pass_gain(infos.drop_first(), c, need, dec, tapped);
        }
    }
}

/// While mana is needed, the any-color pass taps an untapped source that
/// can make the color.
proof fn lemma_any_pass_takes(
    infos: Seq<SourceView>,
    c: Color,
    need: nat,
    dec: Seq<TapDecision>,
    tapped: Seq<ObjectId>,
    j: int,
)
    requires
        0 <= j < infos.len(),
        need > 0,
        !tapped.contains(infos[j].0),
        makes_color(infos[j].1, c),
    ensures
        any_pass(infos, c, need, dec, tapped).2 < need,
    decreases infos.len(),
{
    let x = infos[0];
    if !tapped.contains(x.0) && makes_color(x.1, c) {
        lemma_any_pass_gain(infos.drop_first(), c, (need - 1) as nat, dec.push(TapDecision::Color(x.0, c)), tapped.push(x.0));
    } else {
        assert(infos.drop_first()[j - 1] == infos[j]);
        lemma_any_pass_takes(infos.drop_first(), c, need, dec, tapped, j - 1);
    }
}

/// The generic pass only adds decisions after those already made.
proof fn lemma_generic_pass_extends(infos: Seq<SourceView>, need: nat, dec: Seq<TapDecision>, tapped: Seq<ObjectId>)
    ensures
        generic_pass(infos, need, dec, tapped).0.len() >= dec.len(),
        generic_pass(infos, need, dec, tapped).0.take(dec.len() as int) == dec,
    decreases infos.len(),
{
    let r = generic_pass(infos, need, dec, tapped).0;
    if infos.len() == 0 || need == 0 {
        assert(r.take(dec.len() as int) =~= dec);
    } else {
        let x = infos[0];
        if tapped.contains(x.0) || x.1.len() == 0 {
            lemma_generic_pass_extends(infos.drop_first(), need, dec, tapped);
        } else {
            let (d, n) = generic_decision(x.0, x.1[0]);
            let need2: nat = if need >= n {
                (need - n) as nat
            } else {
                0
            };
            lemma_generic_pass_extends(infos.drop_first(), need2, dec.push(d), tapped.push(x.0));
            assert(r.take(dec.push(d).len() as int) == dec.push(d));
            assert(r.take(dec.len() as int) =~= dec.push(d).take(dec.len() as int));
            assert(dec.push(d).take(dec.len() as int) =~= dec);
        }
    }
}

/// Paying a color the pool lacks: when an untapped source that can make
/// any color is at hand, the step taps some source for that color.
proof fn lemma_color_step_pays(
    infos: Seq<SourceView>,
    cost: ManaCost,
    pool: ManaPool,
    c: Color,
    acc: (Seq<TapDecision>, Seq<ObjectId>),
    j: int,
)
    requires
        cost.color_spec(c) > pool.get_spec(c),
        0 <= j < infos.len(),
        has_any_color(infos[j].1),
        !acc.1.contains(infos[j].0),
    ensures
        color_gain(color_step(infos, cost, pool, c, acc).0, c) > color_gain(acc.0, c),
{
    let need = (cost.color_spec(c) - pool.get_spec(c)) as nat;
    let e = exact_pass(infos, c, need, acc.0, acc.1);
    lemma_exact_pass_gain(infos, c, need, acc.0, acc.1);
    lemma_any_pass_gain(infos, c, e.2, e.0, e.1);
    if e.2 == need {
        lemma_any_color_source_makes_each_color(infos[j].1, c);
        lemma_any_pass_takes(infos, c, e.2, e.0, e.1, j);
    }
}

/// A colored requirement the pool cannot meet is paid from a source that
/// can make any color: when the cost needs more of color `c` than the pool
/// holds, every other color's requirement is covered by the pool, and some
/// source can make any color, the auto-tapper's plan taps a source for
/// mana of color `c`.
pub proof fn lemma_any_color_source_pays_lacking_color(
    infos: Seq<SourceView>,
    cost: ManaCost,
    pool: ManaPool,
    c: Color,
    j: int,
)
    requires
        0 <= j < infos.len(),
        has_any_color(infos[j].1),
        cost.color_spec(c) > pool.get_spec(c),
        forall|d: Color| d != c ==> #[trigger] cost.color_spec(d) <= pool.get_spec(d),
    ensures
        color_gain(tap_plan(infos, cost, pool), c) >= 1,
        exists|k: int| 0 <= k < tap_plan(infos, cost, pool).len() && #[trigger] tap_plan(infos, cost, pool)[k] is Color
            && tap_plan(infos, cost, pool)[k]->Color_1 == c,
{
    let sorted = stable_sort(infos, true);
    lemma_stable_sort_keeps(infos, true);
    assert(sorted.contains(infos[j]));
    let m = choose|m: int| 0 <= m < sorted.len() && sorted[m] == infos[j];
    let s0 = (Seq::<TapDecision>::empty(), Seq::<ObjectId>::empty());
    let step = color_step(sorted, cost, pool, c, s0);
    assert(color_step(sorted, cost, pool, Color::White, s0) == (if c == Color::White { step } else { s0 }));
    assert(cost.color_spec(Color::Blue) <= pool.get_spec(Color::Blue) || c == Color::Blue);
    assert(cost.color_spec(Color::Black) <= pool.get_spec(Color::Black) || c == Color::Black);
    assert(cost.color_spec(Color::Red) <= pool.get_spec(Color::Red) || c == Color::Red);
    assert(cost.color_spec(Color::Green) <= pool.get_spec(Color::Green) || c == Color::Green);
    assert(colored_plan(sorted, cost, pool) == step);
    lemma_color_step_pays(sorted, cost, pool, c, s0, m);
    let plan = tap_plan(infos, cost, pool);
    let cp = colored_plan(sorted, cost, pool);
    let pool_total = pool.total_spec() + cp.0.len();
    let total_needed = colored_total(cost) + cost.generic;
    if pool_total < total_needed {
        lemma_generic_pass_extends(
            stable_sort(untapped_among(sorted, cp.1), false),
            (total_needed - pool_total) as nat,
            cp.0,
            cp.1,
        );
    }
    assert(plan.take(cp.0.len() as int) == cp.0);
    lemma_gains_monotone(plan, cp.0.len() as int, 0, vstd::pervasive::arbitrary::<GameState>(), c);
    lemma_color_gain_found(plan, c);
}

/// Some decision gives a color when the decisions give any of it.
proof fn lemma_color_gain_found(decs: Seq<TapDecision>, c: Color)
    requires
        color_gain(decs, c) >= 1,
    ensures
        exists|k: int| 0 <= k < decs.len() && #[trigger] decs[k] is Color && decs[k]->Color_1 == c,
    decreases decs.len(),
{
    let t = decs.drop_last();
    if decs.last() is Color && decs.last()->Color_1 == c {
        assert(decs[decs.len() - 1] is Color);
    } else {
        lemma_color_gain_found(t, c);
        let k = choose|k: int| 0 <= k < t.len() && #[trigger] t[k] is Color && t[k]->Color_1 == c;
        assert(decs[k] == t[k]);
    }
}

/// The decisions made so far tap, in order, the listed sources, each once.
pub open spec fn decisions_tap(dec: Seq<TapDecision>, tapped: Seq<ObjectId>) -> bool {
    &&& dec.len() == tapped.len()
    &&& forall|k: int| 0 <= k < dec.len() ==> decision_source(#[trigger] dec[k]) == tapped[k]
    &&& tapped.no_duplicates()
}

proof fn lemma_decisions_tap_push(dec: Seq<TapDecision>, tapped: Seq<ObjectId>, d: TapDecision)
    requires
        decisions_tap(dec, tapped),
        !tapped.contains(decision_source(d)),
    ensures
        decisions_tap(dec.push(d), tapped.push(decision_source(d))),
{
    let t = tapped.push(decision_source(d));
    assert forall|i: int, j: int| 0 <= i < t.len() && 0 <= j < t.len() && i != j implies t[i] != t[j] by {
        if i == tapped.len() {
            assert(tapped[j] == t[j]);
        } else if j == tapped.len() {
            assert(tapped[i] == t[i]);
        }
    }
    let nd = dec.push(d);
    assert forall|k: int| 0 <= k < nd.len() implies decision_source(#[trigger] nd[k]) == t[k] by {
        if k < dec.len() {
            assert(nd[k] == dec[k]);
        }
    }
}

proof fn lemma_exact_pass_taps_once(infos: Seq<SourceView>, c: Color, need: nat, dec: Seq<TapDecision>, tapped: Seq<ObjectId>)
    requires
        decisions_tap(dec, tapped),
    ensures
        decisions_tap(exact_pass(infos, c, need, dec, tapped).0, exact_pass(infos, c, need, dec, tapped).1),
    decreases infos.len(),
{
    if infos.len() > 0 && need > 0 {
        let x = infos[0];
        if !tapped.contains(x.0) && x.2 <= 1 && makes_exactly(x.1, c) {
            lemma_decisions_tap_push(dec, tapped, TapDecision::Color(x.0, c));
            lemma_exact_pass_taps_once(infos.drop_first(), c, (need - 1) as nat, dec.push(TapDecision::Color(x.0, c)), tapped.push(x.0));
        } else {
            lemma_exact_pass_taps_once(infos.drop_first(), c, need, dec, tapped);
        }
    }
}

proof fn lemma_any_pass_taps_once(infos: Seq<SourceView>, c: Color, need: nat, dec: Seq<TapDecision>, tapped: Seq<ObjectId>)
    requires
        decisions_tap(dec, tapped),
    ensures
        decisions_tap(any_pass(infos, c, need, dec, tapped).0, any_pass(infos, c, need, dec, tapped).1),
    decreases infos.len(),
{
    if infos.len() > 0 && need > 0 {
        let x = infos[0];
        if !tapped.contains(x.0) && makes_color(x.1, c) {
            lemma_decisions_tap_push(dec, tapped, TapDecision::Color(x.0, c));
            lemma_any_pass_taps_once(infos.drop_first(), c, (need - 1) as nat, dec.push(TapDecision::Color(x.0, c)), tapped.push(x.0));
        } else {
            lemma_any_pass_taps_once(infos.drop_first(), c, need, dec, tapped);
        }
    }
}

proof fn lemma_generic_pass_taps_once(infos: Seq<SourceView>, need: nat, dec: Seq<TapDecision>, tapped: Seq<ObjectId>)
    requires
        decisions_tap(dec, tapped),
    ensures
        decisions_tap(generic_pass(infos, need, dec, tapped).0, generic_pass(infos, need, dec, tapped).1),
    decreases infos.len(),
{
    if infos.len() > 0 && need > 0 {
        let x = infos[0];
        if tapped.contains(x.0) || x.1.len() == 0 {
            lemma_generic_pass_taps_once(infos.drop_first(), need, dec, tapped);
        } else {
            let (d, n) = generic_decision(x.0, x.1[0]);
            assert(decision_source(d) == x.0);
            lemma_decisions_tap_push(dec, tapped, d);
            let need2: nat = if need >= n {
                (need - n) as nat
            } else {
                0
            };
            lemma_generic_pass_taps_once(infos.drop_first(), need2, dec.push(d), tapped.push(x.0));
        }
    }
}

proof fn lemma_color_step_taps_once(
    infos: Seq<SourceView>,
    cost: ManaCost,
    pool: ManaPool,
    c: Color,
    acc: (Seq<TapDecision>, Seq<ObjectId>),
)
    requires
        decisions_tap(acc.0, acc.1),
    ensures
        decisions_tap(color_step(infos, cost, pool, c, acc).0, color_step(infos, cost, pool, c, acc).1),
{
    let needed = cost.color_spec(c);
    let have = pool.get_spec(c);
    if needed > have {
        let e = exact_pass(infos, c, (needed - have) as nat, acc.0, acc.1);
        lemma_exact_pass_taps_once(infos, c, (needed - have) as nat, acc.0, acc.1);
        lemma_any_pass_taps_once(infos, c, e.2, e.0, e.1);
    }
}

/// The auto-tapper never taps a source twice: the sources of its plan's
/// decisions are all different.
pub proof fn lemma_tap_plan_taps_each_source_once(infos: Seq<SourceView>, cost: ManaCost, pool: ManaPool)
    ensures
        forall|i: int, j: int|
            0 <= i < j < tap_plan(infos, cost, pool).len() ==> decision_source(
                #[trigger] tap_plan(infos, cost, pool)[i],
            ) != decision_source(#[trigger] tap_plan(infos, cost, pool)[j]),
{
    let sorted = stable_sort(infos, true);
    let s0 = (Seq::<TapDecision>::empty(), Seq::<ObjectId>::empty());
    assert(decisions_tap(s0.0, s0.1));
    let s1 = color_step(sorted, cost, pool, Color::White, s0);
    lemma_color_step_taps_once(sorted, cost, pool, Color::White, s0);
    let s2 = color_step(sorted, cost, pool, Color::Blue, s1);
    lemma_color_step_taps_once(sorted, cost, pool, Color::Blue, s1);
    let s3 = color_step(sorted, cost, pool, Color::Black, s2);
    lemma_color_step_taps_once(sorted, cost, pool, Color::Black, s2);
    let s4 = color_step(sorted, cost, pool, Color::Red, s3);
    lemma_color_step_taps_once(sorted, cost, pool, Color::Red, s3);
    lemma_color_step_taps_once(sorted, cost, pool, Color::Green, s4);
    let cp = colored_plan(sorted, cost, pool);
    assert(decisions_tap(cp.0, cp.1));
    let pool_total = pool.total_spec() + cp.0.len();
    let total_needed = colored_total(cost) + cost.generic;
    let gp = generic_pass(stable_sort(untapped_among(sorted, cp.1), false), (total_needed - pool_total) as nat, cp.0, cp.1);
    if pool_total < total_needed {
        lemma_generic_pass_taps_once(stable_sort(untapped_among(sorted, cp.1), false), (total_needed - pool_total) as nat, cp.0, cp.1);
        assert(tap_plan(infos, cost, pool) == gp.0);
    } else {
        assert(tap_plan(infos, cost, pool) == cp.0);
    }
    let plan = tap_plan(infos, cost, pool);
    let t = if pool_total < total_needed { gp.1 } else { cp.1 };
    assert(decisions_tap(plan, t));
    assert forall|i: int, j: int| 0 <= i < j < plan.len() implies decision_source(#[trigger] plan[i]) != decision_source(
        #[trigger] plan[j],
    ) by {
        assert(t[i] != t[j]);
    }
}

} // verus!
