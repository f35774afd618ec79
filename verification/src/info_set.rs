//! Information sets: everything a player can observe, in a canonical,
//! hashable form, and abstractions that map an information set to a coarser
//! hash.
use vstd::prelude::*;

use std::collections::HashMap;

use crate::card::{CardDatabase, CardDef, CardInstance, ObjectId, effect_is_removal, is_removal_effect};
use crate::game::{Phase, PlayerView, StackEntry, StackSource, Target, source_object};
use crate::hashing::{hash_words, words_hash};
use crate::sorting::{sort_u64, sorted_u64};
use vstd::relations::{sorted_by, total_ordering};
use vstd::seq_lib::lemma_sorted_unique;

verus! {

broadcast use vstd::std_specs::hash::group_hash_axioms;

/// Observable information about a permanent on the battlefield.
#[derive(Debug, Clone, Copy, PartialEq, Eq, Hash, PartialOrd, Ord, Structural)]
pub struct PermanentInfo {
    pub controller: usize,
    pub card_id: u64,
    pub tapped: bool,
    pub damage_marked: u32,
    pub summoning_sick: bool,
    pub plus_counters: i32,
    pub minus_counters: i32,
}

/// Observable information about a stack entry.
#[derive(Debug, Clone, PartialEq, Eq, Hash)]
pub struct StackInfo {
    pub controller: usize,
    pub source_card_id: u64,
    /// A hash of each target's description.
    pub target_summary: Vec<u64>,
}

/// Everything a player can observe, in canonical form.
#[derive(Debug, Clone)]
pub struct InformationSet {
    pub phase: u8,
    pub active_player: usize,
    pub turn_number: u32,
    pub priority_player: usize,
    pub my_life: i32,
    pub opp_life: i32,
    /// Cards in our hand, as sorted card ids.
    pub my_hand: Vec<u64>,
    pub opp_hand_size: usize,
    pub opp_library_size: usize,
    /// Permanents on the battlefield, sorted.
    pub battlefield: Vec<PermanentInfo>,
    /// Stack entries in stack order (top last).
    pub stack_entries: Vec<StackInfo>,
    pub my_graveyard: Vec<u64>,
    pub opp_graveyard: Vec<u64>,
    pub my_exile: Vec<u64>,
    pub opp_exile: Vec<u64>,
    pub my_land_plays_remaining: u32,
    /// Mana per color: W, U, B, R, G, colorless.
    pub my_mana: [u32; 6],
    pub my_command_zone: Vec<u64>,
    pub opp_command_zone: Vec<u64>,
    pub my_commander_tax: u32,
    pub my_mulligan_count: u32,
}

/// A stable code for each phase.
pub open spec fn phase_code(p: Phase) -> u8 {
    match p {
        Phase::Mulligan => 13,
        Phase::Untap => 0,
        Phase::Upkeep => 1,
        Phase::Draw => 2,
        Phase::PreCombatMain => 3,
        Phase::BeginningOfCombat => 4,
        Phase::DeclareAttackers => 5,
        Phase::DeclareBlockers => 6,
        Phase::FirstStrikeDamage => 7,
        Phase::CombatDamage => 8,
        Phase::EndOfCombat => 9,
        Phase::PostCombatMain => 10,
        Phase::EndStep => 11,
        Phase::Cleanup => 12,
    }
}

/// The stable code of a phase.
pub fn phase_to_u8(phase: Phase) -> (r: u8)
    ensures
        r == phase_code(phase),
{
    match phase {
        Phase::Mulligan => 13,
        Phase::Untap => 0,
        Phase::Upkeep => 1,
        Phase::Draw => 2,
        Phase::PreCombatMain => 3,
        Phase::BeginningOfCombat => 4,
        Phase::DeclareAttackers => 5,
        Phase::DeclareBlockers => 6,
        Phase::FirstStrikeDamage => 7,
        Phase::CombatDamage => 8,
        Phase::EndOfCombat => 9,
        Phase::PostCombatMain => 10,
        Phase::EndStep => 11,
        Phase::Cleanup => 12,
    }
}

/// The card ids of the listed objects that are in the map, in list order.
pub open spec fn card_ids_of(ids: Seq<ObjectId>, objs: Map<ObjectId, CardInstance>) -> Seq<u64>
    decreases ids.len(),
{
    if ids.len() == 0 {
        Seq::empty()
    } else {
        let rest = card_ids_of(ids.drop_last(), objs);
        if objs.contains_key(ids.last()) {
            rest.push(objs[ids.last()].card_def_id)
        } else {
            rest
        }
    }
}

/// The observable facts of a permanent.
pub open spec fn permanent_info_of(inst: CardInstance) -> PermanentInfo {
    PermanentInfo {
        controller: inst.controller,
        card_id: inst.card_def_id,
        tapped: inst.tapped,
        damage_marked: inst.damage_marked,
        summoning_sick: inst.summoning_sick,
        plus_counters: inst.plus_counters,
        minus_counters: inst.minus_counters,
    }
}

/// The observable facts of the listed objects that are in the map.
pub open spec fn permanents_of(ids: Seq<ObjectId>, objs: Map<ObjectId, CardInstance>) -> Seq<PermanentInfo>
    decreases ids.len(),
{
    if ids.len() == 0 {
        Seq::empty()
    } else {
        let rest = permanents_of(ids.drop_last(), objs);
        if objs.contains_key(ids.last()) {
            rest.push(permanent_info_of(objs[ids.last()]))
        } else {
            rest
        }
    }
}

/// Numeric code of a boolean.
pub open spec fn bool_word(b: bool) -> u64 {
    if b {
        1
    } else {
        0
    }
}

/// The order of permanent facts: by controller, card, tapped, damage,
/// summoning sickness, +1/+1 counters, then -1/-1 counters.
pub open spec fn perm_le(a: PermanentInfo, b: PermanentInfo) -> bool {
    if a.controller != b.controller {
        a.controller < b.controller
    } else if a.card_id != b.card_id {
        a.card_id < b.card_id
    } else if a.tapped != b.tapped {
        !a.tapped
    } else if a.damage_marked != b.damage_marked {
        a.damage_marked < b.damage_marked
    } else if a.summoning_sick != b.summoning_sick {
        !a.summoning_sick
    } else if a.plus_counters != b.plus_counters {
        a.plus_counters < b.plus_counters
    } else {
        a.minus_counters <= b.minus_counters
    }
}

/// Whether a sequence of permanent facts is in `perm_le` order.
pub open spec fn sorted_perms(s: Seq<PermanentInfo>) -> bool {
    forall|i: int, j: int| 0 <= i < j < s.len() ==> perm_le(s[i], s[j])
}

/// The order of permanent facts.
fn perm_le_exec(a: &PermanentInfo, b: &PermanentInfo) -> (r: bool)
    ensures
        r == perm_le(*a, *b),
{
    if a.controller != b.controller {
        a.controller < b.controller
    } else if a.card_id != b.card_id {
        a.card_id < b.card_id
    } else if a.tapped != b.tapped {
        !a.tapped
    } else if a.damage_marked != b.damage_marked {
        a.damage_marked < b.damage_marked
    } else if a.summoning_sick != b.summoning_sick {
        !a.summoning_sick
    } else if a.plus_counters != b.plus_counters {
        a.plus_counters < b.plus_counters
    } else {
        a.minus_counters <= b.minus_counters
    }
}

proof fn lemma_insert_multiset_perm(s: Seq<PermanentInfo>, pos: int, x: PermanentInfo)
    requires
        0 <= pos <= s.len(),
    ensures
        s.insert(pos, x).to_multiset() =~= s.to_multiset().insert(x),
{
    broadcast use vstd::seq_lib::group_to_multiset_ensures;

    let t = s.insert(pos, x);
    s.insert_ensures(pos, x);
    assert(t.remove(pos) =~= s);
    assert(t.remove(pos).to_multiset() =~= t.to_multiset().remove(t[pos]));
    assert(t.contains(x)) by {
        assert(t[pos] == x);
    }
}

/// `perm_le` is a total order.
pub proof fn lemma_perm_le_total(a: PermanentInfo, b: PermanentInfo, c: PermanentInfo)
    ensures
        perm_le(a, b) || perm_le(b, a),
        perm_le(a, b) && perm_le(b, c) ==> perm_le(a, c),
        perm_le(a, b) && perm_le(b, a) ==> a == b,
{
}

/// Inserting an element after every element not above it and before the
/// first element above it keeps a list sorted.
proof fn lemma_insert_sorted_perm(s: Seq<PermanentInfo>, pos: int, x: PermanentInfo)
    requires
        0 <= pos <= s.len(),
        sorted_perms(s),
        forall|k: int| 0 <= k < pos ==> perm_le(s[k], x),
        pos < s.len() ==> !perm_le(s[pos], x),
    ensures
        sorted_perms(s.insert(pos, x)),
{
    s.insert_ensures(pos, x);
    let t = s.insert(pos, x);
    assert forall|a: int, b: int| 0 <= a < b < t.len() implies perm_le(t[a], t[b]) by {
        if b > pos {
            lemma_perm_le_total(x, s[pos], s[b - 1]);
            lemma_perm_le_total(s[pos], x, s[pos]);
            if a < pos {
                lemma_perm_le_total(t[a], x, t[b]);
            }
        }
    }
}

/// A sorted copy of a list of permanent facts.
fn sort_perms(v: Vec<PermanentInfo>) -> (r: Vec<PermanentInfo>)
    ensures
        sorted_perms(r@),
        r@.to_multiset() == v@.to_multiset(),
{
    broadcast use vstd::seq_lib::group_to_multiset_ensures;

    let mut out: Vec<PermanentInfo> = Vec::new();
    let mut i: usize = 0;
    while i < v.len()
        invariant
            i <= v@.len(),
            sorted_perms(out@),
            out@.to_multiset() == v@.take(i as int).to_multiset(),
        decreases v.len() - i,
    {
        let x = v[i];
        let mut pos: usize = 0;
        while pos < out.len() && perm_le_exec(&out[pos], &x)
            invariant
                pos <= out@.len(),
                forall|k: int| 0 <= k < pos ==> perm_le(out@[k], x),
            decreases out.len() - pos,
        {
            pos = pos + 1;
        }
        proof {
            lemma_insert_multiset_perm(out@, pos as int, x);
            assert(v@.take(i + 1) =~= v@.take(i as int).push(x));
            v@.take(i as int).to_multiset_ensures();
            assert(v@.take(i + 1).to_multiset() =~= v@.take(i as int).to_multiset().insert(x));
            lemma_insert_sorted_perm(out@, pos as int, x);
        }
        out.insert(pos, x);
        i = i + 1;
    }
    assert(v@.take(v@.len() as int) =~= v@);
    out
}

/// The card ids of the listed objects that are in the map, in list order.
fn collect_card_ids(ids: &[ObjectId], objs: &HashMap<ObjectId, CardInstance>) -> (r: Vec<u64>)
    ensures
        r@ == card_ids_of(ids@, objs@),
{
    let mut out: Vec<u64> = Vec::new();
    let mut i: usize = 0;
    while i < ids.len()
        invariant
            i <= ids@.len(),
            out@ == card_ids_of(ids@.take(i as int), objs@),
        decreases ids.len() - i,
    {
        assert(ids@.take(i + 1).drop_last() =~= ids@.take(i as int));
        match objs.get(&ids[i]) {
            Some(inst) => out.push(inst.card_def_id),
            None => {},
        }
        i = i + 1;
    }
    assert(ids@.take(ids@.len() as int) =~= ids@);
    out
}

/// The card ids of the listed objects that are in the map, sorted.
fn sorted_card_ids(ids: &[ObjectId], objs: &HashMap<ObjectId, CardInstance>) -> (r: Vec<u64>)
    ensures
        sorted_u64(r@),
        r@.to_multiset() == card_ids_of(ids@, objs@).to_multiset(),
{
    let v = collect_card_ids(ids, objs);
    sort_u64(&v)
}

/// The observable facts of the listed objects that are in the map.
fn collect_permanents(ids: &[ObjectId], objs: &HashMap<ObjectId, CardInstance>) -> (r: Vec<PermanentInfo>)
    ensures
        r@ == permanents_of(ids@, objs@),
{
    let mut out: Vec<PermanentInfo> = Vec::new();
    let mut i: usize = 0;
    while i < ids.len()
        invariant
            i <= ids@.len(),
            out@ == permanents_of(ids@.take(i as int), objs@),
        decreases ids.len() - i,
    {
        assert(ids@.take(i + 1).drop_last() =~= ids@.take(i as int));
        match objs.get(&ids[i]) {
            Some(inst) => out.push(
                PermanentInfo {
                    controller: inst.controller,
                    card_id: inst.card_def_id,
                    tapped: inst.tapped,
                    damage_marked: inst.damage_marked,
                    summoning_sick: inst.summoning_sick,
                    plus_counters: inst.plus_counters,
                    minus_counters: inst.minus_counters,
                },
            ),
            None => {},
        }
        i = i + 1;
    }
    assert(ids@.take(ids@.len() as int) =~= ids@);
    out
}

/// The words describing a target: a player by seat, an object by its card
/// and controller (or by its id when it is not visible).
pub open spec fn target_words(t: Target, objs: Map<ObjectId, CardInstance>) -> Seq<u64> {
    match t {
        Target::Player(idx) => seq![0u64, idx as u64],
        Target::Object(id) => if objs.contains_key(id) {
            seq![1u64, objs[id].card_def_id, objs[id].controller as u64]
        } else {
            seq![1u64, id]
        },
    }
}

/// The card id of the object a stack entry comes from, or 0 if it is not
/// visible.
pub open spec fn source_card_of(src: StackSource, objs: Map<ObjectId, CardInstance>) -> u64 {
    if objs.contains_key(source_object(src)) {
        objs[source_object(src)].card_def_id
    } else {
        0
    }
}

/// Whether `info` describes the stack entry `e`.
pub open spec fn describes_entry(info: StackInfo, e: StackEntry, objs: Map<ObjectId, CardInstance>) -> bool {
    &&& info.controller == e.controller
    &&& info.source_card_id == source_card_of(e.source, objs)
    &&& info.target_summary@ == e.targets@.map_values(|t: Target| words_hash(target_words(t, objs)))
}

/// The hash of a target's description.
fn target_hash(t: &Target, objs: &HashMap<ObjectId, CardInstance>) -> (r: u64)
    ensures
        r == words_hash(target_words(*t, objs@)),
{
    let mut w: Vec<u64> = Vec::new();
    match t {
        Target::Player(idx) => {
            w.push(0);
            w.push(*idx as u64);
        },
        Target::Object(id) => {
            w.push(1);
            match objs.get(id) {
                Some(inst) => {
                    w.push(inst.card_def_id);
                    w.push(inst.controller as u64);
                },
                None => {
                    w.push(*id);
                },
            }
        },
    }
    assert(w@ =~= target_words(*t, objs@));
    hash_words(&w)
}

/// Convert a stack entry into what can be observed of it.
fn stack_entry_to_info(entry: &StackEntry, objs: &HashMap<ObjectId, CardInstance>) -> (r: StackInfo)
    ensures
        describes_entry(r, *entry, objs@),
{
    let sid = match entry.source {
        StackSource::Spell(id) => id,
        StackSource::ActivatedAbility { source_id, .. } => source_id,
        StackSource::TriggeredAbility { source_id, .. } => source_id,
    };
    let source_card_id = match objs.get(&sid) {
        Some(inst) => inst.card_def_id,
        None => 0,
    };
    let mut summary: Vec<u64> = Vec::new();
    let mut i: usize = 0;
    while i < entry.targets.len()
        invariant
            i <= entry.targets@.len(),
            summary@ =~= entry.targets@.take(i as int).map_values(
                |t: Target| words_hash(target_words(t, objs@)),
            ),
        decreases entry.targets.len() - i,
    {
        let h = target_hash(&entry.targets[i], objs);
        summary.push(h);
        i = i + 1;
    }
    assert(entry.targets@.take(entry.targets@.len() as int) =~= entry.targets@);
    StackInfo { controller: entry.controller, source_card_id, target_summary: summary }
}

/// Whether `ids` holds, in sorted order, exactly the card ids of the listed
/// objects that are in the map.
pub open spec fn canonical_ids(ids: Seq<u64>, objects: Seq<ObjectId>, objs: Map<ObjectId, CardInstance>) -> bool {
    sorted_u64(ids) && ids.to_multiset() == card_ids_of(objects, objs).to_multiset()
}

impl InformationSet {
    /// Whether this information set is the canonical form of what the view
    /// shows.
    pub open spec fn describes_view(&self, view: PlayerView) -> bool {
        let objs = view.objects@;
        &&& self.phase == phase_code(view.phase)
        &&& self.active_player == view.active_player
        &&& self.turn_number == view.turn_number
        &&& self.priority_player == view.priority_player
        &&& self.my_life == view.my_life
        &&& self.opp_life == view.opp_life
        &&& canonical_ids(self.my_hand@, view.my_hand@, objs)
        &&& self.opp_hand_size == view.opp_hand_size
        &&& self.opp_library_size == view.opp_library_size
        &&& sorted_perms(self.battlefield@)
        &&& self.battlefield@.to_multiset() == permanents_of(view.battlefield@, objs).to_multiset()
        &&& self.stack_entries@.len() == view.stack@.len()
        &&& (forall|i: int|
            0 <= i < view.stack@.len() ==> describes_entry(
                #[trigger] self.stack_entries@[i],
                view.stack@[i],
                objs,
            ))
        &&& canonical_ids(self.my_graveyard@, view.my_graveyard@, objs)
        &&& canonical_ids(self.opp_graveyard@, view.opp_graveyard@, objs)
        &&& canonical_ids(self.my_exile@, view.my_exile@, objs)
        &&& canonical_ids(self.opp_exile@, view.opp_exile@, objs)
        &&& self.my_land_plays_remaining == view.my_land_plays_remaining
        &&& self.my_mana@ == seq![
            view.my_mana_pool.white,
            view.my_mana_pool.blue,
            view.my_mana_pool.black,
            view.my_mana_pool.red,
            view.my_mana_pool.green,
            view.my_mana_pool.colorless,
        ]
        &&& canonical_ids(self.my_command_zone@, view.my_command_zone@, objs)
        &&& canonical_ids(self.opp_command_zone@, view.opp_command_zone@, objs)
        &&& self.my_commander_tax == view.my_commander_tax
        &&& self.my_mulligan_count == view.my_mulligan_count
    }

    /// Build the information set of a view. Zones are reduced to sorted card
    /// ids (the battlefield to sorted permanent facts); the stack keeps its
    /// order.
    pub fn from_view(view: &PlayerView, _card_db: &CardDatabase) -> (r: InformationSet)
        ensures
            r.describes_view(*view),
    {
        let phase = phase_to_u8(view.phase);
        let my_hand = sorted_card_ids(view.my_hand, &view.objects);
        let battlefield = sort_perms(collect_permanents(view.battlefield, &view.objects));
        let mut stack_entries: Vec<StackInfo> = Vec::new();
        let mut i: usize = 0;
        while i < view.stack.len()
            invariant
                i <= view.stack@.len(),
                stack_entries@.len() == i,
                forall|k: int|
                    0 <= k < i ==> describes_entry(
                        #[trigger] stack_entries@[k],
                        view.stack@[k],
                        view.objects@,
                    ),
            decreases view.stack.len() - i,
        {
            let info = stack_entry_to_info(&view.stack[i], &view.objects);
            stack_entries.push(info);
            i = i + 1;
        }
        let my_graveyard = sorted_card_ids(view.my_graveyard, &view.objects);
        let opp_graveyard = sorted_card_ids(view.opp_graveyard, &view.objects);
        let my_exile = sorted_card_ids(view.my_exile, &view.objects);
        let opp_exile = sorted_card_ids(view.opp_exile, &view.objects);
        let mana = view.my_mana_pool;
        let my_mana = [mana.white, mana.blue, mana.black, mana.red, mana.green, mana.colorless];
        assert(my_mana@ =~= seq![mana.white, mana.blue, mana.black, mana.red, mana.green, mana.colorless]);
        let my_command_zone = sorted_card_ids(view.my_command_zone, &view.objects);
        let opp_command_zone = sorted_card_ids(view.opp_command_zone, &view.objects);
        InformationSet {
            phase,
            active_player: view.active_player,
            turn_number: view.turn_number,
            priority_player: view.priority_player,
            my_life: view.my_life,
            opp_life: view.opp_life,
            my_hand,
            opp_hand_size: view.opp_hand_size,
            opp_library_size: view.opp_library_size,
            battlefield,
            stack_entries,
            my_graveyard,
            opp_graveyard,
            my_exile,
            opp_exile,
            my_land_plays_remaining: view.my_land_plays_remaining,
            my_mana,
            my_command_zone,
            opp_command_zone,
            my_commander_tax: view.my_commander_tax,
            my_mulligan_count: view.my_mulligan_count,
        }
    }
}

/// A sequence preceded by its length.
pub open spec fn len_prefixed(s: Seq<u64>) -> Seq<u64> {
    seq![s.len() as u64] + s
}

/// The words of one permanent's facts.
pub open spec fn perm_words(p: PermanentInfo) -> Seq<u64> {
    seq![
        p.controller as u64,
        p.card_id,
        bool_word(p.tapped),
        p.damage_marked as u64,
        bool_word(p.summoning_sick),
        p.plus_counters as u64,
        p.minus_counters as u64,
    ]
}

/// The words of a list of permanent facts, one after another.
pub open spec fn perms_flat(s: Seq<PermanentInfo>) -> Seq<u64>
    decreases s.len(),
{
    if s.len() == 0 {
        Seq::empty()
    } else {
        perms_flat(s.drop_last()) + perm_words(s.last())
    }
}

/// The words of one stack entry's facts.
pub open spec fn stack_info_words(e: StackInfo) -> Seq<u64> {
    seq![e.controller as u64, e.source_card_id, e.target_summary@.len() as u64] + e.target_summary@
}

/// The words of a list of stack entry facts, one after another.
pub open spec fn stacks_flat(s: Seq<StackInfo>) -> Seq<u64>
    decreases s.len(),
{
    if s.len() == 0 {
        Seq::empty()
    } else {
        stacks_flat(s.drop_last()) + stack_info_words(s.last())
    }
}

/// The words that the hash of an information set is computed from: every
/// field in order, each list preceded by its length.
pub open spec fn info_words(i: InformationSet) -> Seq<u64> {
    seq![
        i.phase as u64,
        i.active_player as u64,
        i.turn_number as u64,
        i.priority_player as u64,
        i.my_life as u64,
        i.opp_life as u64,
    ] + len_prefixed(i.my_hand@) + seq![i.opp_hand_size as u64, i.opp_library_size as u64] + seq![
        i.battlefield@.len() as u64,
    ] + perms_flat(i.battlefield@) + seq![i.stack_entries@.len() as u64] + stacks_flat(
        i.stack_entries@,
    ) + len_prefixed(i.my_graveyard@) + len_prefixed(i.opp_graveyard@) + len_prefixed(i.my_exile@)
        + len_prefixed(i.opp_exile@) + seq![i.my_land_plays_remaining as u64] + i.my_mana@.map_values(
        |x: u32| x as u64,
    ) + len_prefixed(i.my_command_zone@) + len_prefixed(i.opp_command_zone@) + seq![
        i.my_commander_tax as u64,
        i.my_mulligan_count as u64,
    ]
}

/// Append a list of words.
fn push_all(w: &mut Vec<u64>, src: &Vec<u64>)
    ensures
        final(w)@ == old(w)@ + src@,
{
    let mut i: usize = 0;
    while i < src.len()
        invariant
            i <= src@.len(),
            w@ == old(w)@ + src@.take(i as int),
        decreases src.len() - i,
    {
        w.push(src[i]);
        i = i + 1;
        assert(old(w)@ + src@.take(i as int) =~= (old(w)@ + src@.take(i - 1)).push(src@[i - 1]));
    }
    assert(src@.take(src@.len() as int) =~= src@);
}

/// Append a list of words preceded by its length.
fn push_len_prefixed(w: &mut Vec<u64>, src: &Vec<u64>)
    ensures
        final(w)@ == old(w)@ + len_prefixed(src@),
{
    w.push(src.len() as u64);
    push_all(w, src);
    assert(old(w)@ + len_prefixed(src@) =~= old(w)@.push(src@.len() as u64) + src@);
}

impl InformationSet {
    /// A hash of this information set: identical information sets always
    /// hash alike.
    pub fn hash_value(&self) -> (r: u64)
        ensures
            r == words_hash(info_words(*self)),
    {
        let mut w: Vec<u64> = Vec::new();
        w.push(self.phase as u64);
        w.push(self.active_player as u64);
        w.push(self.turn_number as u64);
        w.push(self.priority_player as u64);
        w.push(self.my_life as u64);
        w.push(self.opp_life as u64);
        push_len_prefixed(&mut w, &self.my_hand);
        w.push(self.opp_hand_size as u64);
        w.push(self.opp_library_size as u64);
        w.push(self.battlefield.len() as u64);
        let ghost base = w@;
        let mut i: usize = 0;
        while i < self.battlefield.len()
            invariant
                i <= self.battlefield@.len(),
                w@ == base + perms_flat(self.battlefield@.take(i as int)),
            decreases self.battlefield.len() - i,
        {
            let p = self.battlefield[i];
            w.push(p.controller as u64);
            w.push(p.card_id);
            w.push(if p.tapped { 1 } else { 0 });
            w.push(p.damage_marked as u64);
            w.push(if p.summoning_sick { 1 } else { 0 });
            w.push(p.plus_counters as u64);
            w.push(p.minus_counters as u64);
            assert(self.battlefield@.take(i + 1).drop_last() =~= self.battlefield@.take(i as int));
            assert(w@ =~= base + perms_flat(self.battlefield@.take(i + 1)));
            i = i + 1;
        }
        assert(self.battlefield@.take(self.battlefield@.len() as int) =~= self.battlefield@);
        w.push(self.stack_entries.len() as u64);
        let ghost base2 = w@;
        let mut j: usize = 0;
        while j < self.stack_entries.len()
            invariant
                j <= self.stack_entries@.len(),
                w@ == base2 + stacks_flat(self.stack_entries@.take(j as int)),
            decreases self.stack_entries.len() - j,
        {
            let e = &self.stack_entries[j];
            w.push(e.controller as u64);
            w.push(e.source_card_id);
            w.push(e.target_summary.len() as u64);
            push_all(&mut w, &e.target_summary);
            assert(self.stack_entries@.take(j + 1).drop_last() =~= self.stack_entries@.take(j as int));
            assert(w@ =~= base2 + stacks_flat(self.stack_entries@.take(j + 1)));
            j = j + 1;
        }
        assert(self.stack_entries@.take(self.stack_entries@.len() as int) =~= self.stack_entries@);
        push_len_prefixed(&mut w, &self.my_graveyard);
        push_len_prefixed(&mut w, &self.opp_graveyard);
        push_len_prefixed(&mut w, &self.my_exile);
        push_len_prefixed(&mut w, &self.opp_exile);
        w.push(self.my_land_plays_remaining as u64);
        let mut m: usize = 0;
        let ghost base3 = w@;
        while m < 6
            invariant
                m <= 6,
                self.my_mana@.len() == 6,
                w@ == base3 + self.my_mana@.take(m as int).map_values(|x: u32| x as u64),
            decreases 6 - m,
        {
            w.push(self.my_mana[m] as u64);
            assert(w@ =~= base3 + self.my_mana@.take(m + 1).map_values(|x: u32| x as u64));
            m = m + 1;
        }
        assert(self.my_mana@.take(6) =~= self.my_mana@);
        push_len_prefixed(&mut w, &self.my_command_zone);
        push_len_prefixed(&mut w, &self.opp_command_zone);
        w.push(self.my_commander_tax as u64);
        w.push(self.my_mulligan_count as u64);
        assert(w@ =~= info_words(*self));
        hash_words(&w)
    }
}

/// The number of elements of a sequence that satisfy a predicate.
pub open spec fn count_where<A>(s: Seq<A>, p: spec_fn(A) -> bool) -> nat
    decreases s.len(),
{
    if s.len() == 0 {
        0
    } else {
        count_where(s.drop_last(), p) + if p(s.last()) {
            1nat
        } else {
            0nat
        }
    }
}

/// The smaller of two integers.
pub open spec fn min_of(a: int, b: int) -> int {
    if a <= b {
        a
    } else {
        b
    }
}

/// The total of the six mana amounts.
pub open spec fn mana_total(m: Seq<u32>) -> int {
    m[0] + m[1] + m[2] + m[3] + m[4] + m[5]
}

/// The total mana of an information set, capped at ten.
pub open spec fn mana_bucket(i: InformationSet) -> u64 {
    min_of(mana_total(i.my_mana@), 10) as u64
}

/// The number of permanents controlled by the player with priority.
pub open spec fn my_permanent_count(i: InformationSet) -> nat {
    count_where(i.battlefield@, |p: PermanentInfo| p.controller == i.priority_player)
}

/// The opponent's hand size as a byte, capped at seven.
pub open spec fn opp_hand_bucket(i: InformationSet) -> u64 {
    min_of((i.opp_hand_size as u8) as int, 7) as u64
}

/// The bucket of a life total: at most 0, then steps of five up to 40,
/// then 41 and above.
pub open spec fn life_bucket_spec(life: i32) -> u8 {
    if life <= 0 {
        0
    } else if life <= 5 {
        1
    } else if life <= 10 {
        2
    } else if life <= 15 {
        3
    } else if life <= 20 {
        4
    } else if life <= 25 {
        5
    } else if life <= 30 {
        6
    } else if life <= 35 {
        7
    } else if life <= 40 {
        8
    } else {
        9
    }
}

/// The bucket of a turn number: early (0 to 3), mid (4 to 6), late.
pub open spec fn turn_bucket_spec(turn: u32) -> u8 {
    if turn <= 3 {
        0
    } else if turn <= 6 {
        1
    } else {
        2
    }
}

/// The bucket of a phase code: main phases, combat steps, anything else.
pub open spec fn phase_bucket_spec(phase: u8) -> u8 {
    if phase == 3 || phase == 10 {
        0
    } else if 4 <= phase <= 9 {
        1
    } else {
        2
    }
}

/// The features the bucketed abstraction hashes.
pub open spec fn bucketed_words(i: InformationSet) -> Seq<u64> {
    seq![
        i.phase as u64,
        i.active_player as u64,
        turn_bucket_spec(i.turn_number) as u64,
        i.priority_player as u64,
        life_bucket_spec(i.my_life) as u64,
        life_bucket_spec(i.opp_life) as u64,
        (i.my_hand@.len() as u8) as u64,
        opp_hand_bucket(i),
        my_permanent_count(i) as u64,
        (i.battlefield@.len() - my_permanent_count(i)) as u64,
        bool_word(i.stack_entries@.len() > 0),
        mana_bucket(i),
        i.my_land_plays_remaining as u64,
        (i.my_command_zone@.len() as u8) as u64,
        (i.opp_command_zone@.len() as u8) as u64,
        i.my_commander_tax as u64,
        i.my_mulligan_count as u64,
    ]
}

/// The features the goldfish abstraction hashes.
pub open spec fn goldfish_words(i: InformationSet) -> Seq<u64> {
    seq![
        phase_bucket_spec(i.phase) as u64,
        turn_bucket_spec(i.turn_number) as u64,
        life_bucket_spec(i.my_life) as u64,
        life_bucket_spec(i.opp_life) as u64,
        (i.my_hand@.len() as u8) as u64,
        my_permanent_count(i) as u64,
        mana_bucket(i),
        i.my_land_plays_remaining as u64,
        (i.my_command_zone@.len() as u8) as u64,
        i.my_commander_tax as u64,
    ]
}

/// Maps an information set to an abstract hash: information sets with the
/// same abstract hash share strategy entries.
pub trait InfoSetAbstraction {
    /// What the abstraction maps an information set to.
    spec fn abstract_hash(&self, info_set: InformationSet) -> u64;

    /// The abstract hash of an information set.
    fn abstract_info_set(&self, info_set: &InformationSet) -> (r: u64)
        ensures
            r == self.abstract_hash(*info_set),
    ;

    /// The abstraction's name.
    fn name(&self) -> &str;
}

/// The identity abstraction: the full information set hash.
pub struct IdentityAbstraction;

impl InfoSetAbstraction for IdentityAbstraction {
    open spec fn abstract_hash(&self, info_set: InformationSet) -> u64 {
        words_hash(info_words(info_set))
    }

    fn abstract_info_set(&self, info_set: &InformationSet) -> (r: u64) {
        info_set.hash_value()
    }

    fn name(&self) -> (r: &str)
        ensures
            r@ == "Identity"@,
    {
        "Identity"
    }
}

/// The bucketed abstraction: life, turn, board, hand and mana reduced to
/// coarse buckets, without card knowledge.
pub struct BucketedAbstraction;

/// The number of listed permanents controlled by `controller`.
fn count_controlled(battlefield: &Vec<PermanentInfo>, controller: usize) -> (r: u64)
    ensures
        r == count_where(battlefield@, |p: PermanentInfo| p.controller == controller),
{
    let mut n: u64 = 0;
    let mut i: usize = 0;
    while i < battlefield.len()
        invariant
            i <= battlefield@.len(),
            n == count_where(battlefield@.take(i as int), |p: PermanentInfo| p.controller == controller),
            n <= i,
        decreases battlefield.len() - i,
    {
        assert(battlefield@.take(i + 1).drop_last() =~= battlefield@.take(i as int));
        if battlefield[i].controller == controller {
            n = n + 1;
        }
        i = i + 1;
    }
    assert(battlefield@.take(battlefield@.len() as int) =~= battlefield@);
    n
}

/// The total mana of an information set, capped at ten.
fn total_mana_bucket(info_set: &InformationSet) -> (r: u64)
    ensures
        r == mana_bucket(*info_set),
{
    let m = &info_set.my_mana;
    let total: u64 = m[0] as u64 + m[1] as u64 + m[2] as u64 + m[3] as u64 + m[4] as u64 + m[5] as u64;
    if total < 10 {
        total
    } else {
        10
    }
}

/// The opponent's hand size as a byte, capped at seven.
fn opp_hand_bucket_of(info_set: &InformationSet) -> (r: u64)
    ensures
        r == opp_hand_bucket(*info_set),
{
    let b = info_set.opp_hand_size as u8;
    if b < 7 {
        b as u64
    } else {
        7
    }
}

impl BucketedAbstraction {
    /// The bucket of a life total.
    pub fn life_bucket(life: i32) -> (r: u8)
        ensures
            r == life_bucket_spec(life),
    {
        if life <= 0 {
            0
        } else if life <= 5 {
            1
        } else if life <= 10 {
            2
        } else if life <= 15 {
            3
        } else if life <= 20 {
            4
        } else if life <= 25 {
            5
        } else if life <= 30 {
            6
        } else if life <= 35 {
            7
        } else if life <= 40 {
            8
        } else {
            9
        }
    }

    /// The bucket of a turn number.
    pub fn turn_bucket(turn: u32) -> (r: u8)
        ensures
            r == turn_bucket_spec(turn),
    {
        if turn <= 3 {
            0
        } else if turn <= 6 {
            1
        } else {
            2
        }
    }
}

/// The bucketed abstraction gives the same abstract hash to information
/// sets that differ only in life totals and turn number, when those fall in
/// the same buckets.
pub proof fn lemma_bucketed_collapses_same_buckets(i1: InformationSet, i2: InformationSet)
    requires
        i2 == (InformationSet {
            my_life: i2.my_life,
            opp_life: i2.opp_life,
            turn_number: i2.turn_number,
            ..i1
        }),
        life_bucket_spec(i1.my_life) == life_bucket_spec(i2.my_life),
        life_bucket_spec(i1.opp_life) == life_bucket_spec(i2.opp_life),
        turn_bucket_spec(i1.turn_number) == turn_bucket_spec(i2.turn_number),
    ensures
        BucketedAbstraction.abstract_hash(i1) == BucketedAbstraction.abstract_hash(i2),
{
    assert(bucketed_words(i1) =~= bucketed_words(i2));
}

impl InfoSetAbstraction for BucketedAbstraction {
    open spec fn abstract_hash(&self, info_set: InformationSet) -> u64 {
        words_hash(bucketed_words(info_set))
    }

    fn abstract_info_set(&self, info_set: &InformationSet) -> (r: u64) {
        let mine = count_controlled(&info_set.battlefield, info_set.priority_player);
        proof {
            lemma_count_where_le(info_set.battlefield@, |p: PermanentInfo| p.controller == info_set.priority_player);
        }
        let theirs = info_set.battlefield.len() as u64 - mine;
        let mut w: Vec<u64> = Vec::new();
        w.push(info_set.phase as u64);
        w.push(info_set.active_player as u64);
        w.push(BucketedAbstraction::turn_bucket(info_set.turn_number) as u64);
        w.push(info_set.priority_player as u64);
        w.push(BucketedAbstraction::life_bucket(info_set.my_life) as u64);
        w.push(BucketedAbstraction::life_bucket(info_set.opp_life) as u64);
        w.push((info_set.my_hand.len() as u8) as u64);
        w.push(opp_hand_bucket_of(info_set));
        w.push(mine);
        w.push(theirs);
        w.push(if info_set.stack_entries.len() > 0 { 1 } else { 0 });
        w.push(total_mana_bucket(info_set));
        w.push(info_set.my_land_plays_remaining as u64);
        w.push((info_set.my_command_zone.len() as u8) as u64);
        w.push((info_set.opp_command_zone.len() as u8) as u64);
        w.push(info_set.my_commander_tax as u64);
        w.push(info_set.my_mulligan_count as u64);
        assert(w@ =~= bucketed_words(*info_set));
        hash_words(&w)
    }

    fn name(&self) -> (r: &str)
        ensures
            r@ == "Bucketed"@,
    {
        "Bucketed"
    }
}

/// A count of matching elements is at most the length.
pub proof fn lemma_count_where_le<A>(s: Seq<A>, p: spec_fn(A) -> bool)
    ensures
        count_where(s, p) <= s.len(),
    decreases s.len(),
{
    if s.len() > 0 {
        lemma_count_where_le(s.drop_last(), p);
    }
}

/// The goldfish abstraction, for play against a passive opponent: phases
/// collapse to main, combat and other, and the opponent's side is dropped
/// but for its life.
pub struct GoldfishBucketedAbstraction;

impl GoldfishBucketedAbstraction {
    /// The bucket of a phase code.
    pub fn phase_bucket(phase_u8: u8) -> (r: u8)
        ensures
            r == phase_bucket_spec(phase_u8),
    {
        if phase_u8 == 3 || phase_u8 == 10 {
            0
        } else if 4 <= phase_u8 && phase_u8 <= 9 {
            1
        } else {
            2
        }
    }
}

impl InfoSetAbstraction for GoldfishBucketedAbstraction {
    open spec fn abstract_hash(&self, info_set: InformationSet) -> u64 {
        words_hash(goldfish_words(info_set))
    }

    fn abstract_info_set(&self, info_set: &InformationSet) -> (r: u64) {
        let mine = count_controlled(&info_set.battlefield, info_set.priority_player);
        let mut w: Vec<u64> = Vec::new();
        w.push(GoldfishBucketedAbstraction::phase_bucket(info_set.phase) as u64);
        w.push(BucketedAbstraction::turn_bucket(info_set.turn_number) as u64);
        w.push(BucketedAbstraction::life_bucket(info_set.my_life) as u64);
        w.push(BucketedAbstraction::life_bucket(info_set.opp_life) as u64);
        w.push((info_set.my_hand.len() as u8) as u64);
        w.push(mine);
        w.push(total_mana_bucket(info_set));
        w.push(info_set.my_land_plays_remaining as u64);
        w.push((info_set.my_command_zone.len() as u8) as u64);
        w.push(info_set.my_commander_tax as u64);
        assert(w@ =~= goldfish_words(*info_set));
        hash_words(&w)
    }

    fn name(&self) -> (r: &str)
        ensures
            r@ == "GoldfishBucketed"@,
    {
        "GoldfishBucketed"
    }
}

/// Whether a permanent is a creature of `controller` known to the database.
pub open spec fn counted_creature(db: CardDatabase, controller: usize, p: PermanentInfo) -> bool {
    p.controller == controller && match db.lookup(p.card_id) {
        Some(d) => d.is_creature_spec(),
        None => false,
    }
}

/// A permanent's printed power (0 without one) adjusted by its counters.
pub open spec fn adjusted_power(db: CardDatabase, p: PermanentInfo) -> int {
    let base: int = match db.lookup(p.card_id) {
        Some(d) => match d.power {
            Some(x) => x as int,
            None => 0,
        },
        None => 0,
    };
    base + p.plus_counters - p.minus_counters
}

/// A permanent's printed toughness (0 without one) adjusted by its counters.
pub open spec fn adjusted_toughness(db: CardDatabase, p: PermanentInfo) -> int {
    let base: int = match db.lookup(p.card_id) {
        Some(d) => match d.toughness {
            Some(x) => x as int,
            None => 0,
        },
        None => 0,
    };
    base + p.plus_counters - p.minus_counters
}

/// The total adjusted power of `controller`'s creatures.
pub open spec fn side_power(s: Seq<PermanentInfo>, controller: usize, db: CardDatabase) -> int
    decreases s.len(),
{
    if s.len() == 0 {
        0
    } else {
        side_power(s.drop_last(), controller, db) + if counted_creature(db, controller, s.last()) {
            adjusted_power(db, s.last())
        } else {
            0
        }
    }
}

/// The total adjusted toughness of `controller`'s creatures.
pub open spec fn side_toughness(s: Seq<PermanentInfo>, controller: usize, db: CardDatabase) -> int
    decreases s.len(),
{
    if s.len() == 0 {
        0
    } else {
        side_toughness(s.drop_last(), controller, db) + if counted_creature(db, controller, s.last()) {
            adjusted_toughness(db, s.last())
        } else {
            0
        }
    }
}

/// The number of `controller`'s creatures.
pub open spec fn side_count(s: Seq<PermanentInfo>, controller: usize, db: CardDatabase) -> nat {
    count_where(s, |p: PermanentInfo| counted_creature(db, controller, p))
}

/// Whether a card id names a land.
pub open spec fn hand_land(db: CardDatabase, id: u64) -> bool {
    match db.lookup(id) {
        Some(d) => d.is_land_spec(),
        None => false,
    }
}

/// Whether a card id names a nonland card of mana value at most two.
pub open spec fn hand_cheap(db: CardDatabase, id: u64) -> bool {
    match db.lookup(id) {
        Some(d) => !d.is_land_spec() && d.cmc_spec() <= 2,
        None => false,
    }
}

/// Whether a card id names a nonland card of mana value above two.
pub open spec fn hand_expensive(db: CardDatabase, id: u64) -> bool {
    match db.lookup(id) {
        Some(d) => !d.is_land_spec() && d.cmc_spec() > 2,
        None => false,
    }
}

/// Whether a card id names a nonland card whose spell removes a permanent.
pub open spec fn hand_removal(db: CardDatabase, id: u64) -> bool {
    match db.lookup(id) {
        Some(d) => !d.is_land_spec() && match d.spell_effect {
            Some(e) => effect_is_removal(e),
            None => false,
        },
        None => false,
    }
}

/// The features the card-aware abstraction hashes.
pub open spec fn card_aware_words(i: InformationSet, db: CardDatabase) -> Seq<u64> {
    let me = i.priority_player;
    let opp = 1usize.wrapping_sub(me);
    let bf = i.battlefield@;
    let hand = i.my_hand@;
    seq![
        i.phase as u64,
        i.active_player as u64,
        turn_bucket_spec(i.turn_number) as u64,
        i.priority_player as u64,
        life_bucket_spec(i.my_life) as u64,
        life_bucket_spec(i.opp_life) as u64,
        count_where(hand, |id: u64| hand_land(db, id)) as u64,
        count_where(hand, |id: u64| hand_cheap(db, id)) as u64,
        count_where(hand, |id: u64| hand_expensive(db, id)) as u64,
        count_where(hand, |id: u64| hand_removal(db, id)) as u64,
        opp_hand_bucket(i),
        side_count(bf, me, db) as u64,
        side_power(bf, me, db) as u64,
        side_toughness(bf, me, db) as u64,
        side_count(bf, opp, db) as u64,
        side_power(bf, opp, db) as u64,
        side_toughness(bf, opp, db) as u64,
        min_of(i.stack_entries@.len() as int, 3) as u64,
        mana_bucket(i),
        i.my_land_plays_remaining as u64,
        (i.my_command_zone@.len() as u8) as u64,
        (i.opp_command_zone@.len() as u8) as u64,
        i.my_commander_tax as u64,
        i.my_mulligan_count as u64,
    ]
}

/// The bucketed abstraction enriched with card knowledge: hand roles and
/// the power and toughness on each side of the board.
pub struct CardAwareBucketedAbstraction<'a> {
    pub card_db: &'a CardDatabase,
}

/// Aggregate stats of one side of the board.
pub struct BoardStats {
    pub total_power: i128,
    pub total_toughness: i128,
    pub creature_count: u64,
}

/// Roles of the cards in a hand.
pub struct HandCategories {
    pub lands: u64,
    pub cheap: u64,
    pub expensive: u64,
    pub removal: u64,
}

/// The mana value of a card is at most two, computed without overflow.
fn is_cheap(def: &CardDef) -> (r: bool)
    ensures
        r == (def.cmc_spec() <= 2),
{
    match &def.mana_cost {
        Some(c) => {
            let total: u64 = c.generic as u64 + c.white as u64 + c.blue as u64 + c.black as u64
                + c.red as u64 + c.green as u64;
            total <= 2
        },
        None => true,
    }
}

impl<'a> CardAwareBucketedAbstraction<'a> {
    /// Total power, total toughness and number of `controller`'s creatures.
    pub fn board_stats(battlefield: &Vec<PermanentInfo>, controller: usize, card_db: &CardDatabase) -> (r: BoardStats)
        ensures
            r.total_power == side_power(battlefield@, controller, *card_db),
            r.total_toughness == side_toughness(battlefield@, controller, *card_db),
            r.creature_count == side_count(battlefield@, controller, *card_db),
    {
        let mut power: i128 = 0;
        let mut toughness: i128 = 0;
        let mut count: u64 = 0;
        let mut i: usize = 0;
        while i < battlefield.len()
            invariant
                i <= battlefield@.len(),
                power == side_power(battlefield@.take(i as int), controller, *card_db),
                toughness == side_toughness(battlefield@.take(i as int), controller, *card_db),
                count == side_count(battlefield@.take(i as int), controller, *card_db),
                -(i * 8589934592) <= power <= i * 8589934592,
                -(i * 8589934592) <= toughness <= i * 8589934592,
                count <= i,
            decreases battlefield.len() - i,
        {
            let perm = battlefield[i];
            assert(battlefield@.take(i + 1).drop_last() =~= battlefield@.take(i as int));
            assert(battlefield@.take(i + 1).last() == perm);
            if perm.controller == controller {
                match card_db.get(perm.card_id) {
                    Some(def) => {
                        if def.is_creature() {
                            let p: i128 = match def.power {
                                Some(x) => x as i128,
                                None => 0,
                            };
                            let t: i128 = match def.toughness {
                                Some(x) => x as i128,
                                None => 0,
                            };
                            power = power + p + perm.plus_counters as i128 - perm.minus_counters as i128;
                            toughness = toughness + t + perm.plus_counters as i128
                                - perm.minus_counters as i128;
                            count = count + 1;
                        }
                    },
                    None => {},
                }
            }
            i = i + 1;
        }
        assert(battlefield@.take(battlefield@.len() as int) =~= battlefield@);
        BoardStats { total_power: power, total_toughness: toughness, creature_count: count }
    }

    /// Lands, nonland cards of mana value at most two, those above two, and
    /// removal spells among the hand's cards.
    pub fn hand_categories(hand: &Vec<u64>, card_db: &CardDatabase) -> (r: HandCategories)
        ensures
            r.lands == count_where(hand@, |id: u64| hand_land(*card_db, id)),
            r.cheap == count_where(hand@, |id: u64| hand_cheap(*card_db, id)),
            r.expensive == count_where(hand@, |id: u64| hand_expensive(*card_db, id)),
            r.removal == count_where(hand@, |id: u64| hand_removal(*card_db, id)),
    {
        let mut lands: u64 = 0;
        let mut cheap: u64 = 0;
        let mut expensive: u64 = 0;
        let mut removal: u64 = 0;
        let mut i: usize = 0;
        while i < hand.len()
            invariant
                i <= hand@.len(),
                lands == count_where(hand@.take(i as int), |id: u64| hand_land(*card_db, id)),
                cheap == count_where(hand@.take(i as int), |id: u64| hand_cheap(*card_db, id)),
                expensive == count_where(hand@.take(i as int), |id: u64| hand_expensive(*card_db, id)),
                removal == count_where(hand@.take(i as int), |id: u64| hand_removal(*card_db, id)),
                lands <= i,
                cheap <= i,
                expensive <= i,
                removal <= i,
            decreases hand.len() - i,
        {
            let id = hand[i];
            assert(hand@.take(i + 1).drop_last() =~= hand@.take(i as int));
            assert(hand@.take(i + 1).last() == id);
            match card_db.get(id) {
                Some(def) => {
                    if def.is_land() {
                        lands = lands + 1;
                    } else {
                        if is_cheap(def) {
                            cheap = cheap + 1;
                        } else {
                            expensive = expensive + 1;
                        }
                        match &def.spell_effect {
                            Some(e) => {
                                if is_removal_effect(e) {
                                    removal = removal + 1;
                                }
                            },
                            None => {},
                        }
                    }
                },
                None => {},
            }
            i = i + 1;
        }
        assert(hand@.take(hand@.len() as int) =~= hand@);
        HandCategories { lands, cheap, expensive, removal }
    }
}

/// The card-aware abstraction looks only at its features: information
/// sets that differ only in the graveyards, the exiles, the opponent's
/// library size, and life totals and turn number within the same buckets
/// get the same abstract hash.
pub proof fn lemma_card_aware_ignores_other_details(i1: InformationSet, i2: InformationSet, db: &CardDatabase)
    requires
        i2 == (InformationSet {
            my_life: i2.my_life,
            opp_life: i2.opp_life,
            turn_number: i2.turn_number,
            my_graveyard: i2.my_graveyard,
            opp_graveyard: i2.opp_graveyard,
            my_exile: i2.my_exile,
            opp_exile: i2.opp_exile,
            opp_library_size: i2.opp_library_size,
            ..i1
        }),
        life_bucket_spec(i1.my_life) == life_bucket_spec(i2.my_life),
        life_bucket_spec(i1.opp_life) == life_bucket_spec(i2.opp_life),
        turn_bucket_spec(i1.turn_number) == turn_bucket_spec(i2.turn_number),
    ensures
        (CardAwareBucketedAbstraction { card_db: db }).abstract_hash(i1) == (CardAwareBucketedAbstraction {
            card_db: db,
        }).abstract_hash(i2),
{
    assert(card_aware_words(i1, *db) =~= card_aware_words(i2, *db));
}

impl<'a> InfoSetAbstraction for CardAwareBucketedAbstraction<'a> {
    open spec fn abstract_hash(&self, info_set: InformationSet) -> u64 {
        words_hash(card_aware_words(info_set, *self.card_db))
    }

    fn abstract_info_set(&self, info_set: &InformationSet) -> (r: u64) {
        let hc = CardAwareBucketedAbstraction::hand_categories(&info_set.my_hand, self.card_db);
        let me = info_set.priority_player;
        let opp = 1usize.wrapping_sub(me);
        let mine = CardAwareBucketedAbstraction::board_stats(&info_set.battlefield, me, self.card_db);
        let theirs = CardAwareBucketedAbstraction::board_stats(&info_set.battlefield, opp, self.card_db);
        let stack_len = info_set.stack_entries.len();
        let stack_bucket: u64 = if stack_len < 3 { stack_len as u64 } else { 3 };
        let mut w: Vec<u64> = Vec::new();
        w.push(info_set.phase as u64);
        w.push(info_set.active_player as u64);
        w.push(BucketedAbstraction::turn_bucket(info_set.turn_number) as u64);
        w.push(info_set.priority_player as u64);
        w.push(BucketedAbstraction::life_bucket(info_set.my_life) as u64);
        w.push(BucketedAbstraction::life_bucket(info_set.opp_life) as u64);
        w.push(hc.lands);
        w.push(hc.cheap);
        w.push(hc.expensive);
        w.push(hc.removal);
        w.push(opp_hand_bucket_of(info_set));
        w.push(mine.creature_count);
        w.push(mine.total_power as u64);
        w.push(mine.total_toughness as u64);
        w.push(theirs.creature_count);
        w.push(theirs.total_power as u64);
        w.push(theirs.total_toughness as u64);
        w.push(stack_bucket);
        w.push(total_mana_bucket(info_set));
        w.push(info_set.my_land_plays_remaining as u64);
        w.push((info_set.my_command_zone.len() as u8) as u64);
        w.push((info_set.opp_command_zone.len() as u8) as u64);
        w.push(info_set.my_commander_tax as u64);
        w.push(info_set.my_mulligan_count as u64);
        assert(w@ =~= card_aware_words(*info_set, *self.card_db));
        hash_words(&w)
    }

    fn name(&self) -> (r: &str)
        ensures
            r@ == "CardAwareBucketed"@,
    {
        "CardAwareBucketed"
    }
}

/// Two abstractions by phase: the fine one for the phases from the first
/// main phase through the second (numbers 3 to 10), the coarse one
/// elsewhere.
pub struct MultiPhaseAbstraction<'a, F: InfoSetAbstraction, C: InfoSetAbstraction> {
    pub fine: &'a F,
    pub coarse: &'a C,
}

impl<'a, F: InfoSetAbstraction, C: InfoSetAbstraction> InfoSetAbstraction for MultiPhaseAbstraction<'a, F, C> {
    open spec fn abstract_hash(&self, info_set: InformationSet) -> u64 {
        if 3 <= info_set.phase <= 10 {
            self.fine.abstract_hash(info_set)
        } else {
            self.coarse.abstract_hash(info_set)
        }
    }

    fn abstract_info_set(&self, info_set: &InformationSet) -> (r: u64) {
        if 3 <= info_set.phase && info_set.phase <= 10 {
            self.fine.abstract_info_set(info_set)
        } else {
            self.coarse.abstract_info_set(info_set)
        }
    }

    fn name(&self) -> (r: &str)
        ensures
            r@ == "MultiPhase"@,
    {
        "MultiPhase"
    }
}

proof fn lemma_u64_le_total_ordering()
    ensures
        total_ordering(|a: u64, b: u64| a <= b),
{
}

proof fn lemma_perm_le_total_ordering()
    ensures
        total_ordering(|a: PermanentInfo, b: PermanentInfo| perm_le(a, b)),
{
    let r = |a: PermanentInfo, b: PermanentInfo| perm_le(a, b);
    assert forall|x: PermanentInfo, y: PermanentInfo, z: PermanentInfo| #[trigger] r(x, y) && #[trigger] r(y, z) implies r(x, z) by {
        lemma_perm_le_total(x, y, z);
    }
    assert forall|x: PermanentInfo, y: PermanentInfo| #[trigger] r(x, y) && #[trigger] r(y, x) implies x == y by {
        lemma_perm_le_total(x, y, x);
    }
    assert forall|x: PermanentInfo, y: PermanentInfo| #[trigger] r(x, y) || #[trigger] r(y, x) by {
        lemma_perm_le_total(x, y, x);
    }
    assert forall|x: PermanentInfo| #[trigger] r(x, x) by {
        lemma_perm_le_total(x, x, x);
    }
}

/// Two sorted lists of card ids with the same elements are equal.
proof fn lemma_canonical_ids_unique(
    x: Seq<u64>,
    y: Seq<u64>,
    objects: Seq<ObjectId>,
    objs: Map<ObjectId, CardInstance>,
)
    requires
        canonical_ids(x, objects, objs),
        canonical_ids(y, objects, objs),
    ensures
        x == y,
{
    lemma_u64_le_total_ordering();
    let leq = |a: u64, b: u64| a <= b;
    assert(sorted_by(x, leq));
    assert(sorted_by(y, leq));
    lemma_sorted_unique(x, y, leq);
}

/// Two lists of stack entry facts that agree entry by entry flatten alike.
proof fn lemma_stacks_flat_eq(a: Seq<StackInfo>, b: Seq<StackInfo>)
    requires
        a.len() == b.len(),
        forall|i: int| 0 <= i < a.len() ==> stack_info_words(#[trigger] a[i]) == stack_info_words(b[i]),
    ensures
        stacks_flat(a) == stacks_flat(b),
    decreases a.len(),
{
    if a.len() > 0 {
        lemma_stacks_flat_eq(a.drop_last(), b.drop_last());
        assert(stack_info_words(a.last()) == stack_info_words(b.last()));
    }
}

/// The canonical form is unique: two information sets that describe the
/// same view hash from the same words, so they have the same hash, however
/// the zones of the view were ordered.
pub proof fn lemma_describes_view_unique(a: InformationSet, b: InformationSet, view: PlayerView)
    requires
        a.describes_view(view),
        b.describes_view(view),
    ensures
        info_words(a) == info_words(b),
        words_hash(info_words(a)) == words_hash(info_words(b)),
{
    let objs = view.objects@;
    lemma_canonical_ids_unique(a.my_hand@, b.my_hand@, view.my_hand@, objs);
    lemma_canonical_ids_unique(a.my_graveyard@, b.my_graveyard@, view.my_graveyard@, objs);
    lemma_canonical_ids_unique(a.opp_graveyard@, b.opp_graveyard@, view.opp_graveyard@, objs);
    lemma_canonical_ids_unique(a.my_exile@, b.my_exile@, view.my_exile@, objs);
    lemma_canonical_ids_unique(a.opp_exile@, b.opp_exile@, view.opp_exile@, objs);
    lemma_canonical_ids_unique(a.my_command_zone@, b.my_command_zone@, view.my_command_zone@, objs);
    lemma_canonical_ids_unique(a.opp_command_zone@, b.opp_command_zone@, view.opp_command_zone@, objs);
    lemma_perm_le_total_ordering();
    let leq = |x: PermanentInfo, y: PermanentInfo| perm_le(x, y);
    assert(sorted_by(a.battlefield@, leq));
    assert(sorted_by(b.battlefield@, leq));
    lemma_sorted_unique(a.battlefield@, b.battlefield@, leq);
    assert forall|i: int| 0 <= i < a.stack_entries@.len() implies stack_info_words(
        #[trigger] a.stack_entries@[i],
    ) == stack_info_words(b.stack_entries@[i]) by {
        assert(describes_entry(a.stack_entries@[i], view.stack@[i], objs));
        assert(describes_entry(b.stack_entries@[i], view.stack@[i], objs));
    }
    lemma_stacks_flat_eq(a.stack_entries@, b.stack_entries@);
    assert(info_words(a) =~= info_words(b));
}

/// Life totals in the same bucket are indistinguishable to the bucketed
/// abstraction.
pub proof fn lemma_bucketed_life_collapse(a: InformationSet, b: InformationSet)
    requires
        life_bucket_spec(a.my_life) == life_bucket_spec(b.my_life),
        life_bucket_spec(a.opp_life) == life_bucket_spec(b.opp_life),
        b == (InformationSet { my_life: b.my_life, opp_life: b.opp_life, ..a }),
    ensures
        words_hash(bucketed_words(a)) == words_hash(bucketed_words(b)),
{
    assert(bucketed_words(a) =~= bucketed_words(b));
}

/// Turn numbers in the same bucket are indistinguishable to the bucketed
/// abstraction.
pub proof fn lemma_bucketed_turn_collapse(a: InformationSet, b: InformationSet)
    requires
        turn_bucket_spec(a.turn_number) == turn_bucket_spec(b.turn_number),
        b == (InformationSet { turn_number: b.turn_number, ..a }),
    ensures
        words_hash(bucketed_words(a)) == words_hash(bucketed_words(b)),
{
    assert(bucketed_words(a) =~= bucketed_words(b));
}

/// Life buckets run from 0 to 9 and never decrease as life grows; turn
/// buckets run from 0 to 2 and never decrease as turns pass.
pub proof fn lemma_buckets_monotone(l1: i32, l2: i32, t1: u32, t2: u32)
    ensures
        life_bucket_spec(l1) <= 9,
        turn_bucket_spec(t1) <= 2,
        l1 <= l2 ==> life_bucket_spec(l1) <= life_bucket_spec(l2),
        t1 <= t2 ==> turn_bucket_spec(t1) <= turn_bucket_spec(t2),
{
}

} // verus!
