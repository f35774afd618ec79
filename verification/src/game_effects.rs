//! Replacement effects applied to game events (CR 614): damage, dying,
//! entering the battlefield, and dropping effects whose source has left.
use vstd::prelude::*;

use crate::card::{CardInstance, ObjectId, ZoneType};
use crate::game::{GameState, Target};
use crate::replacement::{
    ReplacementAction, ReplacementEffect, ReplacementEventKind, choice_indices, find_applicable_replacements,
    self_indices,
};

verus! {

broadcast use vstd::std_specs::hash::group_hash_axioms;

/// The order in which the replacement effects for an event apply: the
/// self-replacement effects first, then the others, each in list order
/// (the affected player's choice of order for several of the others is
/// taken to be list order).
pub open spec fn replacement_order(effects: Seq<ReplacementEffect>, kind: ReplacementEventKind) -> Seq<usize> {
    self_indices(effects, kind) + choice_indices(effects, kind)
}

/// The damage after the listed replacement effects, applied in order:
/// prevention makes it 0, a modification adds its delta.
pub open spec fn damage_after(effects: Seq<ReplacementEffect>, idx: Seq<usize>, start: int) -> int
    decreases idx.len(),
{
    if idx.len() == 0 {
        start
    } else {
        let before = damage_after(effects, idx.drop_last(), start);
        let i = idx.last() as int;
        if 0 <= i < effects.len() {
            match effects[i].action {
                ReplacementAction::Prevent => 0,
                ReplacementAction::ModifyAmount { delta } => before + delta,
                _ => before,
            }
        } else {
            before
        }
    }
}

/// Whether every intermediate damage amount fits in an `i32`.
pub open spec fn damage_fits(effects: Seq<ReplacementEffect>, idx: Seq<usize>, start: int) -> bool
    decreases idx.len(),
{
    i32::MIN <= damage_after(effects, idx, start) <= i32::MAX && (idx.len() > 0 ==> damage_fits(
        effects,
        idx.drop_last(),
        start,
    ))
}

/// Where a dying creature goes under the listed replacement effects:
/// the first that redirects it sends it there, the first that prevents the
/// death keeps it on the battlefield; otherwise the graveyard.
pub open spec fn death_zone_from(effects: Seq<ReplacementEffect>, idx: Seq<usize>) -> ZoneType
    decreases idx.len(),
{
    if idx.len() == 0 {
        ZoneType::Graveyard
    } else {
        let i = idx[0] as int;
        if 0 <= i < effects.len() {
            match effects[i].action {
                ReplacementAction::RedirectToZone(z) => z,
                ReplacementAction::Prevent => ZoneType::Battlefield,
                _ => death_zone_from(effects, idx.drop_first()),
            }
        } else {
            death_zone_from(effects, idx.drop_first())
        }
    }
}

/// An instance after the listed enters-the-battlefield self-replacements:
/// tapped if one says so, with each one's extra +1/+1 counters added.
pub open spec fn entered_with(effects: Seq<ReplacementEffect>, idx: Seq<usize>, inst: CardInstance) -> CardInstance
    decreases idx.len(),
{
    if idx.len() == 0 {
        inst
    } else {
        let before = entered_with(effects, idx.drop_last(), inst);
        let i = idx.last() as int;
        if 0 <= i < effects.len() {
            match effects[i].action {
                ReplacementAction::EntersModified { enters_tapped, extra_counters } => CardInstance {
                    tapped: before.tapped || enters_tapped,
                    plus_counters: if extra_counters > 0 {
                        (before.plus_counters + extra_counters) as i32
                    } else {
                        before.plus_counters
                    },
                    ..before
                },
                _ => before,
            }
        } else {
            before
        }
    }
}

/// Whether every intermediate counter count fits in an `i32`.
pub open spec fn counters_fit(effects: Seq<ReplacementEffect>, idx: Seq<usize>, inst: CardInstance) -> bool
    decreases idx.len(),
{
    idx.len() > 0 ==> {
        &&& counters_fit(effects, idx.drop_last(), inst)
        &&& {
            let before = entered_with(effects, idx.drop_last(), inst);
            let i = idx.last() as int;
            0 <= i < effects.len() ==> match effects[i].action {
                ReplacementAction::EntersModified { extra_counters, .. } => extra_counters > 0
                    ==> before.plus_counters + extra_counters <= i32::MAX,
                _ => true,
            }
        }
    }
}

/// The effects whose source is on the battlefield, in order.
pub open spec fn effects_on_battlefield(effects: Seq<ReplacementEffect>, bf: Seq<ObjectId>) -> Seq<ReplacementEffect>
    decreases effects.len(),
{
    if effects.len() == 0 {
        effects
    } else {
        let rest = effects_on_battlefield(effects.drop_last(), bf);
        if bf.contains(effects.last().source_id) {
            rest.push(effects.last())
        } else {
            rest
        }
    }
}

impl GameState {
    /// The damage actually dealt by `amount` damage to a target once the
    /// replacement effects for damage apply: the self-replacement effects
    /// first, then the others, each in list order (prevention makes it 0,
    /// modifications add their deltas); never negative.
    pub fn deal_damage_with_replacement(&mut self, amount: u32, target: &Target) -> (r: u32)
        requires
            damage_fits(
                old(self).replacement_effects@,
                replacement_order(old(self).replacement_effects@, ReplacementEventKind::DamageDealt),
                (amount as i32) as int,
            ),
        ensures
            *final(self) == *old(self),
            ({
                let d = damage_after(
                    old(self).replacement_effects@,
                    replacement_order(old(self).replacement_effects@, ReplacementEventKind::DamageDealt),
                    (amount as i32) as int,
                );
                r == (if d > 0 { d } else { 0 })
            }),
    {
        let affected = match target {
            Target::Player(p) => *p,
            Target::Object(id) => match self.objects.get(id) {
                Some(inst) => inst.controller,
                None => 0,
            },
        };
        let (mut self_replacements, mut player_choice) = find_applicable_replacements(
            self.replacement_effects.as_slice(),
            &ReplacementEventKind::DamageDealt,
            affected,
        );
        self_replacements.append(&mut player_choice);
        let ghost effs = self.replacement_effects@;
        let ghost start = (amount as i32) as int;
        let mut effective: i32 = amount as i32;
        let mut k: usize = 0;
        while k < self_replacements.len()
            invariant
                k <= self_replacements@.len(),
                effs == self.replacement_effects@,
                damage_fits(effs, self_replacements@, start),
                effective == damage_after(effs, self_replacements@.take(k as int), start),
            decreases self_replacements.len() - k,
        {
            let idx = self_replacements[k];
            proof {
                assert(self_replacements@.take(k + 1).drop_last() =~= self_replacements@.take(k as int));
                assert(self_replacements@.take(k + 1).last() == idx);
                lemma_damage_fits_prefix(effs, self_replacements@, start, k + 1);
            }
            if idx < self.replacement_effects.len() {
                match &self.replacement_effects[idx].action {
                    ReplacementAction::Prevent => {
                        effective = 0;
                    },
                    ReplacementAction::ModifyAmount { delta } => {
                        effective = effective + *delta;
                    },
                    _ => {},
                }
            }
            k = k + 1;
        }
        assert(self_replacements@.take(self_replacements@.len() as int) =~= self_replacements@);
        if effective > 0 {
            effective as u32
        } else {
            0
        }
    }

    /// The zone a dying creature goes to (CR 614): the replacement effects
    /// for dying are taken in order (self-replacements first, then the
    /// others): the first that redirects the creature sends it there, the
    /// first that prevents the death keeps it on the battlefield; with
    /// none, the graveyard.
    pub fn death_replacement_zone(&self, obj_id: ObjectId) -> (r: ZoneType)
        ensures
            r == death_zone_from(
                self.replacement_effects@,
                replacement_order(self.replacement_effects@, ReplacementEventKind::WouldDie),
            ),
    {
        let controller = match self.objects.get(&obj_id) {
            Some(inst) => inst.controller,
            None => 0,
        };
        let (mut self_replacements, mut player_choice) = find_applicable_replacements(
            self.replacement_effects.as_slice(),
            &ReplacementEventKind::WouldDie,
            controller,
        );
        self_replacements.append(&mut player_choice);
        let mut k: usize = 0;
        assert(self_replacements@.skip(0) =~= self_replacements@);
        while k < self_replacements.len()
            invariant
                k <= self_replacements@.len(),
                self_replacements@ == replacement_order(self.replacement_effects@, ReplacementEventKind::WouldDie),
                death_zone_from(self.replacement_effects@, self_replacements@) == death_zone_from(
                    self.replacement_effects@,
                    self_replacements@.skip(k as int),
                ),
            decreases self_replacements.len() - k,
        {
            let idx = self_replacements[k];
            assert(self_replacements@.skip(k as int)[0] == idx);
            assert(self_replacements@.skip(k as int).drop_first() =~= self_replacements@.skip(k + 1));
            if idx < self.replacement_effects.len() {
                match &self.replacement_effects[idx].action {
                    ReplacementAction::RedirectToZone(zone) => {
                        return *zone;
                    },
                    ReplacementAction::Prevent => {
                        return ZoneType::Battlefield;
                    },
                    _ => {},
                }
            }
            k = k + 1;
        }
        ZoneType::Graveyard
    }

    /// Apply the replacement effects for entering the battlefield to an
    /// object (self-replacements first, then the others): it enters tapped
    /// if one says so, and with each one's extra +1/+1 counters.
    pub fn apply_etb_replacements(&mut self, obj_id: ObjectId)
        requires
            old(self).objects@.contains_key(obj_id) ==> counters_fit(
                old(self).replacement_effects@,
                replacement_order(old(self).replacement_effects@, ReplacementEventKind::EntersBattlefield),
                old(self).objects@[obj_id],
            ),
        ensures
            *final(self) == (GameState { objects: final(self).objects, ..*old(self) }),
            final(self).objects@ == (if old(self).objects@.contains_key(obj_id) {
                old(self).objects@.insert(
                    obj_id,
                    entered_with(
                        old(self).replacement_effects@,
                        replacement_order(old(self).replacement_effects@, ReplacementEventKind::EntersBattlefield),
                        old(self).objects@[obj_id],
                    ),
                )
            } else {
                old(self).objects@
            }),
    {
        let controller = match self.objects.get(&obj_id) {
            Some(inst) => inst.controller,
            None => 0,
        };
        let (mut self_replacements, mut player_choice) = find_applicable_replacements(
            self.replacement_effects.as_slice(),
            &ReplacementEventKind::EntersBattlefield,
            controller,
        );
        self_replacements.append(&mut player_choice);
        let mut inst = match self.objects.get(&obj_id) {
            Some(i) => *i,
            None => {
                return;
            },
        };
        let ghost effs = self.replacement_effects@;
        let ghost inst0 = inst;
        let mut k: usize = 0;
        while k < self_replacements.len()
            invariant
                k <= self_replacements@.len(),
                effs == self.replacement_effects@,
                counters_fit(effs, self_replacements@, inst0),
                inst == entered_with(effs, self_replacements@.take(k as int), inst0),
            decreases self_replacements.len() - k,
        {
            let idx = self_replacements[k];
            proof {
                assert(self_replacements@.take(k + 1).drop_last() =~= self_replacements@.take(k as int));
                assert(self_replacements@.take(k + 1).last() == idx);
                lemma_counters_fit_prefix(effs, self_replacements@, inst0, k + 1);
            }
            if idx < self.replacement_effects.len() {
                match &self.replacement_effects[idx].action {
                    ReplacementAction::EntersModified { enters_tapped, extra_counters } => {
                        if *enters_tapped {
                            inst.tapped = true;
                        }
                        if *extra_counters > 0 {
                            inst.plus_counters = inst.plus_counters + *extra_counters;
                        }
                    },
                    _ => {},
                }
            }
            k = k + 1;
        }
        assert(self_replacements@.take(self_replacements@.len() as int) =~= self_replacements@);
        self.objects.insert(obj_id, inst);
    }

    /// Drop the replacement effects whose source is no longer on the
    /// battlefield.
    pub fn refresh_replacement_effects(&mut self)
        ensures
            *final(self) == (GameState { replacement_effects: final(self).replacement_effects, ..*old(self) }),
            final(self).replacement_effects@ == effects_on_battlefield(
                old(self).replacement_effects@,
                old(self).battlefield@,
            ),
    {
        let ghost orig = self.replacement_effects@;
        let ghost mut j: int = 0;
        let mut i: usize = 0;
        while i < self.replacement_effects.len()
            invariant
                0 <= j <= orig.len(),
                *self == (GameState { replacement_effects: self.replacement_effects, ..*old(self) }),
                orig == old(self).replacement_effects@,
                self.replacement_effects@ == effects_on_battlefield(orig.take(j), self.battlefield@) + orig.skip(j),
                i == effects_on_battlefield(orig.take(j), self.battlefield@).len(),
            decreases self.replacement_effects.len() - i,
        {
            proof {
                assert(self.replacement_effects@[i as int] == orig[j]);
                assert(orig.take(j + 1).drop_last() =~= orig.take(j));
                assert(orig.take(j + 1).last() == orig[j]);
            }
            let src = self.replacement_effects[i].source_id;
            if crate::game::contains_id(&self.battlefield, src) {
                proof {
                    assert(self.replacement_effects@ =~= effects_on_battlefield(orig.take(j + 1), self.battlefield@) + orig.skip(j + 1));
                    j = j + 1;
                }
                i = i + 1;
            } else {
                self.replacement_effects.remove(i);
                proof {
                    assert(self.replacement_effects@ =~= effects_on_battlefield(orig.take(j + 1), self.battlefield@) + orig.skip(j + 1));
                    j = j + 1;
                }
            }
        }
        proof {
            assert(j == orig.len()) by {
                if j < orig.len() {
                    assert(self.replacement_effects@.len() == i + orig.len() - j);
                }
            }
            assert(orig.take(j) =~= orig);
            assert(self.replacement_effects@ =~= effects_on_battlefield(orig, old(self).battlefield@));
        }
    }
}

proof fn lemma_damage_fits_prefix(effects: Seq<ReplacementEffect>, idx: Seq<usize>, start: int, n: int)
    requires
        0 <= n <= idx.len(),
        damage_fits(effects, idx, start),
    ensures
        damage_fits(effects, idx.take(n), start),
    decreases idx.len() - n,
{
    if n < idx.len() {
        assert(idx.drop_last().take(n) =~= idx.take(n));
        lemma_damage_fits_prefix(effects, idx.drop_last(), start, n);
    } else {
        assert(idx.take(n) =~= idx);
    }
}

proof fn lemma_counters_fit_prefix(effects: Seq<ReplacementEffect>, idx: Seq<usize>, inst: CardInstance, n: int)
    requires
        0 <= n <= idx.len(),
        counters_fit(effects, idx, inst),
    ensures
        counters_fit(effects, idx.take(n), inst),
    decreases idx.len() - n,
{
    if n < idx.len() {
        assert(idx.drop_last().take(n) =~= idx.take(n));
        lemma_counters_fit_prefix(effects, idx.drop_last(), inst, n);
    } else {
        assert(idx.take(n) =~= idx);
    }
}

} // verus!
