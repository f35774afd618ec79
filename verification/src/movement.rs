//! Moving objects between zones, with the commander redirect, linked exiles
//! and tokens ceasing to exist.
use vstd::prelude::*;

use std::collections::HashMap;

use crate::card::{CardInstance, ObjectId, ZoneType};
use crate::events::GameEvent;
use crate::game::{GameFormat, GameState, PlayerState, StackEntry, StackSource, player_zone, same_but_zones};

verus! {

broadcast use vstd::std_specs::hash::group_hash_axioms;

/// A list of object ids with every occurrence of `id` removed.
pub open spec fn without(s: Seq<ObjectId>, id: ObjectId) -> Seq<ObjectId>
    decreases s.len(),
{
    if s.len() == 0 {
        s
    } else {
        let rest = without(s.drop_last(), id);
        if s.last() == id {
            rest
        } else {
            rest.push(s.last())
        }
    }
}

/// A copy of a list of object ids with every occurrence of `id` removed.
pub fn vec_without(v: &Vec<ObjectId>, id: ObjectId) -> (r: Vec<ObjectId>)
    ensures
        r@ == without(v@, id),
{
    let mut out: Vec<ObjectId> = Vec::new();
    let mut i: usize = 0;
    while i < v.len()
        invariant
            i <= v@.len(),
            out@ == without(v@.take(i as int), id),
        decreases v.len() - i,
    {
        assert(v@.take(i + 1).drop_last() =~= v@.take(i as int));
        if v[i] != id {
            out.push(v[i]);
        }
        i = i + 1;
    }
    assert(v@.take(v@.len() as int) =~= v@);
    out
}

impl GameState {
    /// Whether an object is a commander: in a Commander game, the recorded
    /// commander or partner object of some player, or else, where the
    /// owner has no commander object recorded, an instance of the owner's
    /// commander card (and likewise for the partner).
    pub open spec fn is_commander_spec(&self, obj_id: ObjectId) -> bool {
        &&& self.format == GameFormat::Commander
        &&& {
            ||| exists|p: int|
                0 <= p < self.players@.len() && ((#[trigger] self.players@[p]).commander_object_id
                    == Some(obj_id) || self.players@[p].partner_commander_object_id == Some(obj_id))
            ||| self.objects@.contains_key(obj_id) && {
                let inst = self.objects@[obj_id];
                let pl = self.players@[inst.owner as int];
                if pl.commander_object_id is None {
                    pl.commander_card_id == Some(inst.card_def_id)
                } else {
                    pl.partner_commander_object_id is None && pl.partner_commander_card_id == Some(
                        inst.card_def_id,
                    )
                }
            }
        }
    }

    /// Whether an object is a commander (primary or partner).
    pub fn is_commander(&self, obj_id: ObjectId) -> (r: bool)
        requires
            self.objects@.contains_key(obj_id) ==> self.objects@[obj_id].owner < self.players@.len(),
        ensures
            r == self.is_commander_spec(obj_id),
    {
        if self.format != GameFormat::Commander {
            return false;
        }
        let mut p: usize = 0;
        while p < self.players.len()
            invariant
                p <= self.players@.len(),
                self.format == GameFormat::Commander,
                forall|q: int|
                    0 <= q < p ==> !((#[trigger] self.players@[q]).commander_object_id == Some(obj_id)
                        || self.players@[q].partner_commander_object_id == Some(obj_id)),
            decreases self.players.len() - p,
        {
            if self.players[p].commander_object_id == Some(obj_id) {
                assert(self.players@[p as int].commander_object_id == Some(obj_id));
                return true;
            }
            if self.players[p].partner_commander_object_id == Some(obj_id) {
                assert(self.players@[p as int].partner_commander_object_id == Some(obj_id));
                return true;
            }
            p = p + 1;
        }
        match self.objects.get(&obj_id) {
            Some(inst) => {
                let owner = inst.owner;
                if self.players[owner].commander_object_id.is_none() {
                    return self.players[owner].commander_card_id == Some(inst.card_def_id);
                }
                if self.players[owner].partner_commander_object_id.is_none() {
                    if self.players[owner].partner_commander_card_id == Some(inst.card_def_id) {
                        return true;
                    }
                }
                false
            },
            None => false,
        }
    }
}

/// Whether `e` is a known object that was exiled by `src`.
pub open spec fn linked_to(objs: Map<ObjectId, CardInstance>, src: ObjectId, e: ObjectId) -> bool {
    objs.contains_key(e) && objs[e].exiled_by == Some(src)
}

/// The entries of a list that were exiled by `src`, in order.
pub open spec fn linked_in(s: Seq<ObjectId>, objs: Map<ObjectId, CardInstance>, src: ObjectId) -> Seq<ObjectId>
    decreases s.len(),
{
    if s.len() == 0 {
        s
    } else {
        let rest = linked_in(s.drop_last(), objs, src);
        if linked_to(objs, src, s.last()) {
            rest.push(s.last())
        } else {
            rest
        }
    }
}

/// The entries of a list that were not exiled by `src`, in order.
pub open spec fn unlinked(s: Seq<ObjectId>, objs: Map<ObjectId, CardInstance>, src: ObjectId) -> Seq<ObjectId>
    decreases s.len(),
{
    if s.len() == 0 {
        s
    } else {
        let rest = unlinked(s.drop_last(), objs, src);
        if linked_to(objs, src, s.last()) {
            rest
        } else {
            rest.push(s.last())
        }
    }
}

/// The cards exiled by `src` in every player's exile, player by player.
pub open spec fn linked_exiles(ps: Seq<PlayerState>, objs: Map<ObjectId, CardInstance>, src: ObjectId) -> Seq<ObjectId>
    decreases ps.len(),
{
    if ps.len() == 0 {
        Seq::empty()
    } else {
        linked_exiles(ps.drop_last(), objs, src) + linked_in(ps.last().exile@, objs, src)
    }
}

/// The entries of a list owned by player `q`, in order.
pub open spec fn owned_by(l: Seq<ObjectId>, objs: Map<ObjectId, CardInstance>, q: usize) -> Seq<ObjectId>
    decreases l.len(),
{
    if l.len() == 0 {
        l
    } else {
        let rest = owned_by(l.drop_last(), objs, q);
        if objs[l.last()].owner == q {
            rest.push(l.last())
        } else {
            rest
        }
    }
}

/// How many times `e` occurs in a list.
pub open spec fn occurrences(l: Seq<ObjectId>, e: ObjectId) -> nat
    decreases l.len(),
{
    if l.len() == 0 {
        0
    } else {
        occurrences(l.drop_last(), e) + if l.last() == e {
            1nat
        } else {
            0nat
        }
    }
}

/// An instance after being returned from exile `n` times: no longer linked
/// to its exiler, and with its zone changes counted.
pub open spec fn returned(inst: CardInstance, n: nat) -> CardInstance {
    if n > 0 {
        CardInstance {
            exiled_by: None,
            zone_change_count: (inst.zone_change_count + n) as u32,
            ..inst
        }
    } else {
        inst
    }
}

/// The zone-change event of a card returned from exile to a graveyard.
pub open spec fn return_event(e: ObjectId) -> GameEvent {
    GameEvent::ZoneChange { object: e, from: ZoneType::Exile, to: ZoneType::Graveyard }
}

impl GameState {
    /// The cards exiled by `src`, player by player, each exile in order.
    fn linked_exile_list(&self, src: ObjectId) -> (r: Vec<ObjectId>)
        ensures
            r@ == linked_exiles(self.players@, self.objects@, src),
    {
        let mut out: Vec<ObjectId> = Vec::new();
        let mut p: usize = 0;
        while p < self.players.len()
            invariant
                p <= self.players@.len(),
                out@ == linked_exiles(self.players@.take(p as int), self.objects@, src),
            decreases self.players.len() - p,
        {
            let exile = &self.players[p].exile;
            let ghost base = out@;
            let mut i: usize = 0;
            while i < exile.len()
                invariant
                    i <= exile@.len(),
                    *exile == self.players@[p as int].exile,
                    out@ == base + linked_in(exile@.take(i as int), self.objects@, src),
                decreases exile.len() - i,
            {
                let e = exile[i];
                assert(exile@.take(i + 1).drop_last() =~= exile@.take(i as int));
                let linked = match self.objects.get(&e) {
                    Some(inst) => inst.exiled_by == Some(src),
                    None => false,
                };
                if linked {
                    out.push(e);
                }
                assert(out@ =~= base + linked_in(exile@.take(i + 1), self.objects@, src));
                i = i + 1;
            }
            assert(exile@.take(exile@.len() as int) =~= exile@);
            assert(self.players@.take(p + 1).drop_last() =~= self.players@.take(p as int));
            p = p + 1;
        }
        assert(self.players@.take(self.players@.len() as int) =~= self.players@);
        out
    }

    /// Take the cards exiled by `src` out of every player's exile.
    fn drop_linked_from_exiles(&mut self, src: ObjectId)
        ensures
            *final(self) == (GameState { players: final(self).players, ..*old(self) }),
            final(self).players@.len() == old(self).players@.len(),
            forall|q: int|
                0 <= q < old(self).players@.len() ==> #[trigger] final(self).players@[q] == (PlayerState {
                    exile: final(self).players@[q].exile,
                    ..old(self).players@[q]
                }),
            forall|q: int|
                0 <= q < old(self).players@.len() ==> (#[trigger] final(self).players@[q]).exile@
                    == unlinked(old(self).players@[q].exile@, old(self).objects@, src),
    {
        let mut q: usize = 0;
        while q < self.players.len()
            invariant
                q <= self.players@.len(),
                self.players@.len() == old(self).players@.len(),
                *self == (GameState { players: self.players, ..*old(self) }),
                forall|k: int|
                    0 <= k < old(self).players@.len() ==> #[trigger] self.players@[k] == (PlayerState {
                        exile: self.players@[k].exile,
                        ..old(self).players@[k]
                    }),
                forall|k: int| q <= k < old(self).players@.len() ==> #[trigger] self.players@[k] == old(self).players@[k],
                forall|k: int|
                    0 <= k < q ==> (#[trigger] self.players@[k]).exile@ == unlinked(
                        old(self).players@[k].exile@,
                        old(self).objects@,
                        src,
                    ),
            decreases self.players.len() - q,
        {
            let mut kept: Vec<ObjectId> = Vec::new();
            let mut i: usize = 0;
            while i < self.players[q].exile.len()
                invariant
                    q < self.players@.len(),
                    self.players@[q as int] == old(self).players@[q as int],
                    self.objects@ == old(self).objects@,
                    i <= self.players@[q as int].exile@.len(),
                    kept@ == unlinked(self.players@[q as int].exile@.take(i as int), self.objects@, src),
                decreases self.players@[q as int].exile@.len() - i,
            {
                let e = self.players[q].exile[i];
                assert(self.players@[q as int].exile@.take(i + 1).drop_last() =~= self.players@[q as int].exile@.take(i as int));
                let linked = match self.objects.get(&e) {
                    Some(inst) => inst.exiled_by == Some(src),
                    None => false,
                };
                if !linked {
                    kept.push(e);
                }
                i = i + 1;
            }
            assert(self.players@[q as int].exile@.take(self.players@[q as int].exile@.len() as int) =~= self.players@[q as int].exile@);
            self.players[q].exile = kept;
            q = q + 1;
        }
    }

    /// Return each listed card from exile to its owner's graveyard: it is
    /// no longer linked, its zone change is counted and announced.
    fn return_linked(&mut self, l: &Vec<ObjectId>)
        requires
            forall|i: int|
                0 <= i < l@.len() ==> old(self).objects@.contains_key(#[trigger] l@[i])
                    && old(self).objects@[l@[i]].owner < old(self).players@.len(),
            forall|e: ObjectId|
                #[trigger] old(self).objects@.contains_key(e) ==> old(self).objects@[e].zone_change_count
                    + occurrences(l@, e) <= u32::MAX,
        ensures
            *final(self) == (GameState {
                players: final(self).players,
                objects: final(self).objects,
                pending_events: final(self).pending_events,
                ..*old(self)
            }),
            final(self).objects@.dom() == old(self).objects@.dom(),
            forall|e: ObjectId|
                #[trigger] final(self).objects@.contains_key(e) ==> final(self).objects@[e] == returned(
                    old(self).objects@[e],
                    occurrences(l@, e),
                ),
            final(self).pending_events@ == old(self).pending_events@ + l@.map_values(
                |e: ObjectId| return_event(e),
            ),
            final(self).players@.len() == old(self).players@.len(),
            forall|q: usize|
                0 <= q < old(self).players@.len() ==> #[trigger] final(self).players@[q as int] == (PlayerState {
                    graveyard: final(self).players@[q as int].graveyard,
                    ..old(self).players@[q as int]
                }),
            forall|q: usize|
                0 <= q < old(self).players@.len() ==> (#[trigger] final(self).players@[q as int]).graveyard@
                    == old(self).players@[q as int].graveyard@ + owned_by(l@, old(self).objects@, q),
    {
        let mut i: usize = 0;
        while i < l.len()
            invariant
                i <= l@.len(),
                forall|j: int|
                    0 <= j < l@.len() ==> old(self).objects@.contains_key(#[trigger] l@[j])
                        && old(self).objects@[l@[j]].owner < old(self).players@.len(),
                forall|e: ObjectId|
                    #[trigger] old(self).objects@.contains_key(e) ==> old(self).objects@[e].zone_change_count
                        + occurrences(l@, e) <= u32::MAX,
                *self == (GameState {
                    players: self.players,
                    objects: self.objects,
                    pending_events: self.pending_events,
                    ..*old(self)
                }),
                self.objects@.dom() == old(self).objects@.dom(),
                forall|e: ObjectId|
                    #[trigger] self.objects@.contains_key(e) ==> self.objects@[e] == returned(
                        old(self).objects@[e],
                        occurrences(l@.take(i as int), e),
                    ),
                self.pending_events@ == old(self).pending_events@ + l@.take(i as int).map_values(
                    |e: ObjectId| return_event(e),
                ),
                self.players@.len() == old(self).players@.len(),
                forall|q: usize|
                    0 <= q < old(self).players@.len() ==> #[trigger] self.players@[q as int] == (PlayerState {
                        graveyard: self.players@[q as int].graveyard,
                        ..old(self).players@[q as int]
                    }),
                forall|q: usize|
                    0 <= q < old(self).players@.len() ==> (#[trigger] self.players@[q as int]).graveyard@
                        == old(self).players@[q as int].graveyard@ + owned_by(
                        l@.take(i as int),
                        old(self).objects@,
                        q,
                    ),
            decreases l.len() - i,
        {
            let e = l[i];
            assert(l@.take(i + 1).drop_last() =~= l@.take(i as int));
            assert(l@.take(i + 1).last() == e);
            proof {
                lemma_occurrences_le(l@, i + 1, e);
            }
            let mut inst = *self.objects.get(&e).unwrap();
            assert(inst == returned(old(self).objects@[e], occurrences(l@.take(i as int), e)));
            inst.exiled_by = None;
            inst.zone_change_count = inst.zone_change_count + 1;
            self.objects.insert(e, inst);
            self.pending_events.push(
                GameEvent::ZoneChange { object: e, from: ZoneType::Exile, to: ZoneType::Graveyard },
            );
            let owner = inst.owner;
            assert(old(self).objects@[e].owner == owner);
            let ghost pre = self.players@;
            self.players[owner].graveyard.push(e);
            assert(owned_by(l@.take(i + 1), old(self).objects@, owner) =~= owned_by(l@.take(i as int), old(self).objects@, owner).push(e));
            assert forall|q: usize| 0 <= q < old(self).players@.len() && q != owner implies
                #[trigger] owned_by(l@.take(i + 1), old(self).objects@, q) == owned_by(l@.take(i as int), old(self).objects@, q) by {
                assert(old(self).objects@[e].owner != q);
            }
            i = i + 1;
            assert(self.pending_events@ =~= old(self).pending_events@ + l@.take(i as int).map_values(
                |e: ObjectId| return_event(e),
            ));
            assert forall|q: usize|
                0 <= q < old(self).players@.len() implies (#[trigger] self.players@[q as int]).graveyard@
                    == old(self).players@[q as int].graveyard@ + owned_by(
                    l@.take(i as int),
                    old(self).objects@,
                    q,
                ) by {
                if q == owner {
                    assert(self.players@[q as int].graveyard@ == pre[q as int].graveyard@.push(e));
                    assert(old(self).players@[q as int].graveyard@ + owned_by(l@.take(i as int), old(self).objects@, q)
                        =~= (old(self).players@[q as int].graveyard@ + owned_by(l@.take(i - 1), old(self).objects@, q)).push(e));
                } else {
                    assert(self.players@[q as int] == pre[q as int]);
                }
            }
            assert forall|k: ObjectId|
                #[trigger] self.objects@.contains_key(k) implies self.objects@[k] == returned(
                    old(self).objects@[k],
                    occurrences(l@.take(i as int), k),
                ) by {
                if k == e {
                    lemma_occurrences_le(l@, i as int, e);
                }
            }
        }
        assert(l@.take(l@.len() as int) =~= l@);
    }
}

/// The occurrences in a prefix are at most those in the whole list.
proof fn lemma_occurrences_le(l: Seq<ObjectId>, n: int, e: ObjectId)
    requires
        0 <= n <= l.len(),
    ensures
        occurrences(l.take(n), e) <= occurrences(l, e),
    decreases l.len() - n,
{
    if n < l.len() {
        lemma_occurrences_le(l, n + 1, e);
        assert(l.take(n + 1).drop_last() =~= l.take(n));
    } else {
        assert(l.take(n) =~= l);
    }
}

/// Every entry of the cards exiled by `src` is a known object exiled by it.
proof fn lemma_linked_exiles_linked(ps: Seq<PlayerState>, objs: Map<ObjectId, CardInstance>, src: ObjectId)
    ensures
        forall|i: int|
            0 <= i < linked_exiles(ps, objs, src).len() ==> linked_to(
                objs,
                src,
                #[trigger] linked_exiles(ps, objs, src)[i],
            ),
    decreases ps.len(),
{
    if ps.len() > 0 {
        lemma_linked_exiles_linked(ps.drop_last(), objs, src);
        lemma_linked_in_linked(ps.last().exile@, objs, src);
        let a = linked_exiles(ps.drop_last(), objs, src);
        let b = linked_in(ps.last().exile@, objs, src);
        assert forall|i: int| 0 <= i < (a + b).len() implies linked_to(objs, src, #[trigger] (a + b)[i]) by {
            if i >= a.len() {
                assert((a + b)[i] == b[i - a.len()]);
            }
        }
    }
}

proof fn lemma_linked_in_linked(s: Seq<ObjectId>, objs: Map<ObjectId, CardInstance>, src: ObjectId)
    ensures
        forall|i: int|
            0 <= i < linked_in(s, objs, src).len() ==> linked_to(objs, src, #[trigger] linked_in(s, objs, src)[i]),
    decreases s.len(),
{
    if s.len() > 0 {
        lemma_linked_in_linked(s.drop_last(), objs, src);
        let rest = linked_in(s.drop_last(), objs, src);
        assert forall|i: int| 0 <= i < linked_in(s, objs, src).len() implies linked_to(objs, src, #[trigger] linked_in(s, objs, src)[i]) by {
            if i < rest.len() {
                assert(linked_in(s, objs, src)[i] == rest[i]);
            }
        }
    }
}

/// Whether a stack entry is the spell of an object.
pub open spec fn is_spell_of(e: StackEntry, obj: ObjectId) -> bool {
    e.source == StackSource::Spell(obj)
}

/// The stack with the spell entries of an object removed.
pub open spec fn without_spell(s: Seq<StackEntry>, obj: ObjectId) -> Seq<StackEntry>
    decreases s.len(),
{
    if s.len() == 0 {
        s
    } else {
        let rest = without_spell(s.drop_last(), obj);
        if is_spell_of(s.last(), obj) {
            rest
        } else {
            rest.push(s.last())
        }
    }
}

proof fn lemma_without_spell_step(s: Seq<StackEntry>, j: int, obj: ObjectId)
    requires
        0 <= j < s.len(),
    ensures
        without_spell(s.take(j + 1), obj) == (if is_spell_of(s[j], obj) {
            without_spell(s.take(j), obj)
        } else {
            without_spell(s.take(j), obj).push(s[j])
        }),
{
    assert(s.take(j + 1).drop_last() =~= s.take(j));
}

/// Remove the spell entries of an object from a stack, keeping the order
/// of the others.
fn remove_spell_entries(stack: &mut Vec<StackEntry>, obj: ObjectId)
    ensures
        final(stack)@ == without_spell(old(stack)@, obj),
{
    let ghost orig = stack@;
    let ghost mut j: int = 0;
    let mut i: usize = 0;
    while i < stack.len()
        invariant
            0 <= j <= orig.len(),
            stack@ == without_spell(orig.take(j), obj) + orig.skip(j),
            i == without_spell(orig.take(j), obj).len(),
        decreases stack.len() - i,
    {
        proof {
            assert(stack@[i as int] == orig[j]);
            lemma_without_spell_step(orig, j, obj);
        }
        let is_spell = match stack[i].source {
            StackSource::Spell(id) => id == obj,
            _ => false,
        };
        if is_spell {
            stack.remove(i);
            proof {
                assert(stack@ =~= without_spell(orig.take(j + 1), obj) + orig.skip(j + 1));
                j = j + 1;
            }
        } else {
            proof {
                assert(without_spell(orig.take(j), obj) + orig.skip(j) =~= without_spell(orig.take(j + 1), obj) + orig.skip(j + 1));
                j = j + 1;
            }
            i = i + 1;
        }
    }
    proof {
        assert(j == orig.len()) by {
            if j < orig.len() {
                assert(stack@.len() == i + orig.len() - j);
            }
        }
        assert(orig.take(j) =~= orig);
        assert(stack@ =~= without_spell(orig, obj));
    }
}

/// An instance entering the battlefield: untapped unless its card enters
/// tapped, summoning sick, with no damage or temporary modifiers.
pub open spec fn entered(inst: CardInstance, enters_tapped: bool) -> CardInstance {
    CardInstance {
        tapped: enters_tapped,
        summoning_sick: true,
        damage_marked: 0,
        temp_power_mod: 0,
        temp_toughness_mod: 0,
        ..inst
    }
}

/// An instance after a zone move of `obj`: returned from exile as often as
/// it appears in the returned list, and, if it is the moved object, with
/// one more zone change and the battlefield reset when it enters.
pub open spec fn moved_instance(
    inst: CardInstance,
    k: ObjectId,
    obj: ObjectId,
    back: Seq<ObjectId>,
    dest: ZoneType,
    enters_tapped: bool,
) -> CardInstance {
    let r = returned(inst, occurrences(back, k));
    if k == obj {
        let b = CardInstance { zone_change_count: (r.zone_change_count + 1) as u32, ..r };
        if dest == ZoneType::Battlefield {
            entered(b, enters_tapped)
        } else {
            b
        }
    } else {
        r
    }
}

impl GameState {
    /// Where a moved object goes: a commander headed to a graveyard or exile
    /// goes to the command zone instead.
    pub open spec fn move_destination(&self, obj: ObjectId, to: ZoneType) -> ZoneType {
        if self.format == GameFormat::Commander && (to == ZoneType::Graveyard || to == ZoneType::Exile)
            && self.is_commander_spec(obj) {
            ZoneType::Command
        } else {
            to
        }
    }

    /// The cards returned from exile when `obj` leaves `from`: those it
    /// exiled, if it leaves the battlefield.
    pub open spec fn returning_exiles(&self, obj: ObjectId, from: ZoneType) -> Seq<ObjectId> {
        if from == ZoneType::Battlefield {
            linked_exiles(self.players@, self.objects@, obj)
        } else {
            Seq::empty()
        }
    }

    /// Whether a card enters the battlefield tapped.
    pub open spec fn enters_tapped_spec(&self, card: crate::card::CardId) -> bool {
        match self.db().lookup(card) {
            Some(d) => d.enters_tapped,
            None => false,
        }
    }

    /// Whether the moved object ceases to exist: a token leaving the
    /// battlefield.
    pub open spec fn move_removes(&self, obj: ObjectId, to: ZoneType) -> bool {
        self.objects@[obj].is_token && self.move_destination(obj, to) != ZoneType::Battlefield
    }

    /// The contents of player `q`'s zone `z` once the cards exiled by `obj`
    /// have gone back to their owners' graveyards.
    pub open spec fn pre_strip_zone(&self, q: usize, z: ZoneType, obj: ObjectId, from: ZoneType) -> Seq<ObjectId> {
        let l = self.returning_exiles(obj, from);
        let p = self.players@[q as int];
        match z {
            ZoneType::Graveyard => p.graveyard@ + owned_by(l, self.objects@, q),
            ZoneType::Exile => if from == ZoneType::Battlefield {
                unlinked(p.exile@, self.objects@, obj)
            } else {
                p.exile@
            },
            _ => player_zone(p, z),
        }
    }

    /// The contents of player `q`'s zone `z` after `obj` moves.
    pub open spec fn moved_zone(&self, q: usize, z: ZoneType, obj: ObjectId, from: ZoneType, to: ZoneType) -> Seq<ObjectId> {
        let pre = self.pre_strip_zone(q, z, obj, from);
        let inst = self.objects@[obj];
        let stripped = if q == inst.owner || q == inst.controller {
            without(pre, obj)
        } else {
            pre
        };
        if q == inst.owner && z == self.move_destination(obj, to) && !self.move_removes(obj, to) {
            stripped.push(obj)
        } else {
            stripped
        }
    }

    /// Remove an object from every zone of a player.
    fn strip_player(&mut self, p: usize, obj: ObjectId)
        requires
            p < old(self).players@.len(),
        ensures
            *final(self) == (GameState { players: final(self).players, ..*old(self) }),
            final(self).players@ == old(self).players@.update(p as int, final(self).players@[p as int]),
            same_but_zones(final(self).players@[p as int], old(self).players@[p as int]),
            forall|z: ZoneType|
                crate::game::is_player_zone(z) ==> #[trigger] player_zone(final(self).players@[p as int], z)
                    == without(player_zone(old(self).players@[p as int], z), obj),
    {
        let v = vec_without(&self.players[p].library, obj);
        self.players[p].library = v;
        let v = vec_without(&self.players[p].hand, obj);
        self.players[p].hand = v;
        let v = vec_without(&self.players[p].graveyard, obj);
        self.players[p].graveyard = v;
        let v = vec_without(&self.players[p].exile, obj);
        self.players[p].exile = v;
        let v = vec_without(&self.players[p].command_zone, obj);
        self.players[p].command_zone = v;
        assert(self.players@ =~= old(self).players@.update(p as int, self.players@[p as int]));
    }
}

impl GameState {
    /// Move an object from one zone to another.
    ///
    /// A commander headed to a graveyard or exile goes to the command zone
    /// instead. When a permanent leaves the battlefield, the cards it exiled
    /// go to their owners' graveyards. The object is taken out of its
    /// owner's and controller's zones, the battlefield and the stack; a
    /// token that leaves the battlefield ceases to exist; otherwise the
    /// object joins its owner's destination zone (or the battlefield, where
    /// it enters summoning sick, untapped unless its card enters tapped).
    /// Each zone change is counted and announced.
    #[verifier::spinoff_prover]
    #[verifier::rlimit(40)]
    pub fn move_object(&mut self, obj_id: ObjectId, from: ZoneType, to: ZoneType)
        requires
            old(self).objects@.contains_key(obj_id),
            old(self).owners_valid(),
            to == ZoneType::Battlefield ==> old(self).card_db is Some,
            forall|e: ObjectId|
                #[trigger] old(self).objects@.contains_key(e) ==> old(self).objects@[e].zone_change_count
                    + occurrences(old(self).returning_exiles(obj_id, from), e) + (if e == obj_id {
                    1int
                } else {
                    0int
                }) <= u32::MAX,
        ensures
            *final(self) == (GameState {
                objects: final(self).objects,
                players: final(self).players,
                battlefield: final(self).battlefield,
                stack: final(self).stack,
                pending_events: final(self).pending_events,
                ..*old(self)
            }),
            final(self).pending_events@ == old(self).pending_events@.push(
                GameEvent::ZoneChange {
                    object: obj_id,
                    from,
                    to: old(self).move_destination(obj_id, to),
                },
            ) + old(self).returning_exiles(obj_id, from).map_values(|e: ObjectId| return_event(e)),
            final(self).battlefield@ == without(old(self).battlefield@, obj_id) + (if old(self).move_destination(
                obj_id,
                to,
            ) == ZoneType::Battlefield {
                seq![obj_id]
            } else {
                Seq::empty()
            }),
            final(self).stack@ == without_spell(old(self).stack@, obj_id),
            final(self).objects@.dom() == (if old(self).move_removes(obj_id, to) {
                old(self).objects@.dom().remove(obj_id)
            } else {
                old(self).objects@.dom()
            }),
            forall|k: ObjectId|
                #[trigger] final(self).objects@.contains_key(k) ==> final(self).objects@[k] == moved_instance(
                    old(self).objects@[k],
                    k,
                    obj_id,
                    old(self).returning_exiles(obj_id, from),
                    old(self).move_destination(obj_id, to),
                    old(self).enters_tapped_spec(old(self).objects@[obj_id].card_def_id),
                ),
            final(self).players@.len() == old(self).players@.len(),
            forall|q: usize|
                q < old(self).players@.len() ==> same_but_zones(
                    #[trigger] final(self).players@[q as int],
                    old(self).players@[q as int],
                ),
            forall|q: usize, z: ZoneType|
                q < old(self).players@.len() && crate::game::is_player_zone(z) ==> #[trigger] player_zone(
                    final(self).players@[q as int],
                    z,
                ) == old(self).moved_zone(q, z, obj_id, from, to),
    {
        let ghost s0 = *self;
        let actual_to = if self.format == GameFormat::Commander && (to == ZoneType::Graveyard || to
            == ZoneType::Exile) && self.is_commander(obj_id) {
            ZoneType::Command
        } else {
            to
        };
        self.emit_event(GameEvent::ZoneChange { object: obj_id, from, to: actual_to });
        if from == ZoneType::Battlefield {
            let l = self.linked_exile_list(obj_id);
            proof {
                lemma_linked_exiles_linked(self.players@, self.objects@, obj_id);
            }
            self.drop_linked_from_exiles(obj_id);
            self.return_linked(&l);
        }
        proof {
            assert forall|q: usize, z: ZoneType|
                q < s0.players@.len() && crate::game::is_player_zone(z) implies #[trigger] player_zone(
                    self.players@[q as int],
                    z,
                ) == s0.pre_strip_zone(q, z, obj_id, from) && same_but_zones(self.players@[q as int], s0.players@[q as int]) by {
                if from != ZoneType::Battlefield {
                    assert(s0.players@[q as int].graveyard@ + owned_by(Seq::<ObjectId>::empty(), s0.objects@, q) =~= s0.players@[q as int].graveyard@);
                }
            }
        }
        let ghost s1 = *self;
        let mut inst = *self.objects.get(&obj_id).unwrap();
        assert(inst == returned(s0.objects@[obj_id], occurrences(s0.returning_exiles(obj_id, from), obj_id)));
        inst.zone_change_count = inst.zone_change_count + 1;
        let owner = inst.owner;
        let controller = inst.controller;
        self.strip_player(owner, obj_id);
        if controller != owner {
            self.strip_player(controller, obj_id);
        }
        let bf = vec_without(&self.battlefield, obj_id);
        self.battlefield = bf;
        remove_spell_entries(&mut self.stack, obj_id);
        proof {
            assert forall|q: usize, z: ZoneType|
                q < s0.players@.len() && crate::game::is_player_zone(z) implies #[trigger] player_zone(
                    self.players@[q as int],
                    z,
                ) == (if q == owner || q == controller {
                    without(s0.pre_strip_zone(q, z, obj_id, from), obj_id)
                } else {
                    s0.pre_strip_zone(q, z, obj_id, from)
                }) && same_but_zones(self.players@[q as int], s0.players@[q as int]) by {
                assert(player_zone(s1.players@[q as int], z) == s0.pre_strip_zone(q, z, obj_id, from));
            }
        }
        let ghost s2 = *self;
        if inst.is_token && actual_to != ZoneType::Battlefield {
            self.objects.remove(&obj_id);
            proof {
                assert forall|q: usize| q < s0.players@.len() implies same_but_zones(
                    #[trigger] self.players@[q as int],
                    s0.players@[q as int],
                ) by {
                    assert(player_zone(s2.players@[q as int], ZoneType::Hand) == player_zone(s2.players@[q as int], ZoneType::Hand));
                }
            }
            return;
        }
        match actual_to {
            ZoneType::Library => self.players[owner].library.push(obj_id),
            ZoneType::Hand => self.players[owner].hand.push(obj_id),
            ZoneType::Battlefield => {
                let enters_tapped = match self.card_db().get(inst.card_def_id) {
                    Some(d) => d.enters_tapped,
                    None => false,
                };
                inst.tapped = enters_tapped;
                inst.summoning_sick = true;
                inst.damage_marked = 0;
                inst.temp_power_mod = 0;
                inst.temp_toughness_mod = 0;
                self.battlefield.push(obj_id);
            },
            ZoneType::Graveyard => self.players[owner].graveyard.push(obj_id),
            ZoneType::Exile => self.players[owner].exile.push(obj_id),
            ZoneType::Stack => {},
            ZoneType::Command => self.players[owner].command_zone.push(obj_id),
        }
        self.objects.insert(obj_id, inst);
        proof {
            assert forall|q: usize, z: ZoneType|
                q < s0.players@.len() && crate::game::is_player_zone(z) implies #[trigger] player_zone(
                    self.players@[q as int],
                    z,
                ) == s0.moved_zone(q, z, obj_id, from, to) && same_but_zones(self.players@[q as int], s0.players@[q as int]) by {
                assert(player_zone(s2.players@[q as int], z) == (if q == owner || q == controller {
                    without(s0.pre_strip_zone(q, z, obj_id, from), obj_id)
                } else {
                    s0.pre_strip_zone(q, z, obj_id, from)
                }));
            }
            assert forall|q: usize| q < s0.players@.len() implies same_but_zones(
                #[trigger] self.players@[q as int],
                s0.players@[q as int],
            ) by {
                assert(player_zone(self.players@[q as int], ZoneType::Hand) == s0.moved_zone(q, ZoneType::Hand, obj_id, from, to));
            }
        }
    }
}

/// After removing every occurrence of an id, the list no longer holds it.
pub proof fn lemma_without_excludes(s: Seq<ObjectId>, id: ObjectId)
    ensures
        !without(s, id).contains(id),
    decreases s.len(),
{
    if s.len() > 0 {
        lemma_without_excludes(s.drop_last(), id);
        let rest = without(s.drop_last(), id);
        if s.last() != id {
            assert forall|i: int| 0 <= i < rest.push(s.last()).len() implies rest.push(s.last())[i] != id by {
                if i < rest.len() {
                    assert(rest.push(s.last())[i] == rest[i]);
                }
            }
        }
    }
}

/// A moved object ends up where it was sent: it is the last card of its
/// owner's destination zone, and in no other zone of its owner or
/// controller; a token leaving the battlefield is in none of them.
pub proof fn lemma_move_object_places(s: GameState, obj: ObjectId, from: ZoneType, to: ZoneType)
    requires
        s.objects@.contains_key(obj),
    ensures
        ({
            let inst = s.objects@[obj];
            let dest = s.move_destination(obj, to);
            &&& forall|q: usize, z: ZoneType|
                (q == inst.owner || q == inst.controller) && crate::game::is_player_zone(z) && !(q
                    == inst.owner && z == dest && !s.move_removes(obj, to)) ==> !(#[trigger] s.moved_zone(
                    q,
                    z,
                    obj,
                    from,
                    to,
                )).contains(obj)
            &&& (crate::game::is_player_zone(dest) && !s.move_removes(obj, to)) ==> {
                let zone = s.moved_zone(inst.owner, dest, obj, from, to);
                &&& zone.len() > 0
                &&& zone.last() == obj
                &&& !zone.drop_last().contains(obj)
            }
        }),
{
    let inst = s.objects@[obj];
    let dest = s.move_destination(obj, to);
    assert forall|q: usize, z: ZoneType|
        (q == inst.owner || q == inst.controller) && crate::game::is_player_zone(z) implies !without(
        s.pre_strip_zone(q, z, obj, from),
        obj,
    ).contains(obj) by {
        lemma_without_excludes(s.pre_strip_zone(q, z, obj, from), obj);
    }
    if crate::game::is_player_zone(dest) && !s.move_removes(obj, to) {
        let pre = without(s.pre_strip_zone(inst.owner, dest, obj, from), obj);
        lemma_without_excludes(s.pre_strip_zone(inst.owner, dest, obj, from), obj);
        assert(s.moved_zone(inst.owner, dest, obj, from, to) == pre.push(obj));
        assert(pre.push(obj).drop_last() =~= pre);
    }
}

/// Keeping only some elements adds none.
proof fn lemma_unlinked_within(s: Seq<ObjectId>, objs: Map<ObjectId, CardInstance>, src: ObjectId, x: ObjectId)
    ensures
        unlinked(s, objs, src).contains(x) ==> s.contains(x),
    decreases s.len(),
{
    if s.len() > 0 {
        lemma_unlinked_within(s.drop_last(), objs, src, x);
        let rest = unlinked(s.drop_last(), objs, src);
        if unlinked(s, objs, src).contains(x) {
            let k = choose|k: int| 0 <= k < unlinked(s, objs, src).len() && unlinked(s, objs, src)[k] == x;
            if k < rest.len() {
                assert(rest[k] == x);
                assert(s.drop_last().contains(x));
                let j = choose|j: int| 0 <= j < s.drop_last().len() && s.drop_last()[j] == x;
                assert(s[j] == x);
            } else {
                assert(s[s.len() - 1] == x);
            }
        }
    }
}

/// Keeping only some elements adds none.
proof fn lemma_owned_by_within(l: Seq<ObjectId>, objs: Map<ObjectId, CardInstance>, q: usize, x: ObjectId)
    ensures
        owned_by(l, objs, q).contains(x) ==> l.contains(x),
    decreases l.len(),
{
    if l.len() > 0 {
        lemma_owned_by_within(l.drop_last(), objs, q, x);
        let rest = owned_by(l.drop_last(), objs, q);
        if owned_by(l, objs, q).contains(x) {
            let k = choose|k: int| 0 <= k < owned_by(l, objs, q).len() && owned_by(l, objs, q)[k] == x;
            if k < rest.len() {
                assert(rest[k] == x);
                let j = choose|j: int| 0 <= j < l.drop_last().len() && l.drop_last()[j] == x;
                assert(l[j] == x);
            } else {
                assert(l[l.len() - 1] == x);
            }
        }
    }
}

/// No spell entry of the object is left on the stack.
proof fn lemma_without_spell_none(s: Seq<StackEntry>, obj: ObjectId)
    ensures
        forall|i: int| 0 <= i < without_spell(s, obj).len() ==> !is_spell_of(#[trigger] without_spell(s, obj)[i], obj),
    decreases s.len(),
{
    if s.len() > 0 {
        lemma_without_spell_none(s.drop_last(), obj);
        let rest = without_spell(s.drop_last(), obj);
        if !is_spell_of(s.last(), obj) {
            assert forall|i: int| 0 <= i < rest.push(s.last()).len() implies !is_spell_of(
                #[trigger] rest.push(s.last())[i],
                obj,
            ) by {
                if i < rest.len() {
                    assert(rest.push(s.last())[i] == rest[i]);
                }
            }
        }
    }
}

/// After a move the object stands in exactly one place, given that it was
/// in no zone of a player other than its owner and controller and is not
/// one of the cards it exiled: the battlefield, once and last, when it
/// enters the battlefield; otherwise (unless it is a token that ceases to
/// exist) its owner's destination zone, once and last (see
/// `lemma_move_object_places`), and not the battlefield; no spell of it is
/// left on the stack, and no other player's zone holds it.
pub proof fn lemma_move_object_exactly_once(s: GameState, obj: ObjectId, from: ZoneType, to: ZoneType)
    requires
        s.objects@.contains_key(obj),
        s.objects@[obj].owner < s.players@.len(),
        forall|q: usize, z: ZoneType|
            q < s.players@.len() && q != s.objects@[obj].owner && q != s.objects@[obj].controller
                && crate::game::is_player_zone(z) ==> !(#[trigger] player_zone(s.players@[q as int], z)).contains(
                obj,
            ),
        !s.returning_exiles(obj, from).contains(obj),
    ensures
        ({
            let inst = s.objects@[obj];
            let dest = s.move_destination(obj, to);
            let bf = without(s.battlefield@, obj) + (if dest == ZoneType::Battlefield {
                seq![obj]
            } else {
                Seq::empty()
            });
            &&& dest == ZoneType::Battlefield ==> bf.len() > 0 && bf.last() == obj && !bf.drop_last().contains(obj)
            &&& dest != ZoneType::Battlefield ==> !bf.contains(obj)
            &&& forall|i: int|
                0 <= i < without_spell(s.stack@, obj).len() ==> !is_spell_of(
                    #[trigger] without_spell(s.stack@, obj)[i],
                    obj,
                )
            &&& forall|q: usize, z: ZoneType|
                q < s.players@.len() && q != inst.owner && q != inst.controller && crate::game::is_player_zone(z)
                    ==> !(#[trigger] s.moved_zone(q, z, obj, from, to)).contains(obj)
        }),
{
    let inst = s.objects@[obj];
    let dest = s.move_destination(obj, to);
    lemma_without_excludes(s.battlefield@, obj);
    let w = without(s.battlefield@, obj);
    if dest == ZoneType::Battlefield {
        assert((w + seq![obj]).drop_last() =~= w);
    } else {
        assert(w + Seq::<ObjectId>::empty() =~= w);
    }
    lemma_without_spell_none(s.stack@, obj);
    assert forall|q: usize, z: ZoneType|
        q < s.players@.len() && q != inst.owner && q != inst.controller && crate::game::is_player_zone(z)
            implies !(#[trigger] s.moved_zone(q, z, obj, from, to)).contains(obj) by {
        let p = s.players@[q as int];
        assert(!player_zone(p, z).contains(obj));
        let l = s.returning_exiles(obj, from);
        if z == ZoneType::Graveyard {
            lemma_owned_by_within(l, s.objects@, q, obj);
            let g = p.graveyard@ + owned_by(l, s.objects@, q);
            if g.contains(obj) {
                let k = choose|k: int| 0 <= k < g.len() && g[k] == obj;
                if k < p.graveyard@.len() {
                    assert(p.graveyard@[k] == obj);
                    assert(player_zone(p, z).contains(obj));
                } else {
                    assert(owned_by(l, s.objects@, q)[k - p.graveyard@.len()] == obj);
                }
            }
        } else if z == ZoneType::Exile {
            lemma_unlinked_within(p.exile@, s.objects@, obj, obj);
        }
    }
}

} // verus!
