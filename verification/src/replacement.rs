//! Replacement effects (CR 614): effects that modify or replace game events
//! as they happen. Self-replacement effects apply first without a choice
//! (CR 614.16a); when several other effects apply, the affected player
//! chooses their order.
use vstd::prelude::*;

use crate::card::{ObjectId, ZoneType};

verus! {

/// The kind of game event a replacement effect can modify.
#[derive(Debug, Clone, Copy, PartialEq, Eq, Hash, Structural)]
pub enum ReplacementEventKind {
    /// A permanent would enter the battlefield.
    EntersBattlefield,
    /// Damage would be dealt to a player or permanent.
    DamageDealt,
    /// A card would be drawn.
    CardDraw,
    /// A permanent would die.
    WouldDie,
    /// A player would gain life.
    LifeGain,
    /// A player would lose life.
    LifeLoss,
    /// Counters would be placed on a permanent.
    CounterPlacement,
}

/// What a replacement effect does when it applies.
#[derive(Debug, PartialEq, Eq, Hash)]
pub enum ReplacementAction {
    /// Instead of the original event, do nothing.
    Prevent,
    /// Send the object to a different zone.
    RedirectToZone(ZoneType),
    /// Change the amount (damage, life, counters) by `delta`.
    ModifyAmount { delta: i32 },
    /// The permanent enters tapped and/or with extra +1/+1 counters.
    EntersModified { enters_tapped: bool, extra_counters: i32 },
    /// Card-specific behavior, named by the string.
    Custom(String),
}

/// Whether two replacement actions are the same (a custom action by the
/// text of its name).
pub open spec fn same_action(a: ReplacementAction, b: ReplacementAction) -> bool {
    match (a, b) {
        (ReplacementAction::Custom(x), ReplacementAction::Custom(y)) => x@ == y@,
        (ReplacementAction::Custom(_), _) => false,
        (_, ReplacementAction::Custom(_)) => false,
        _ => a == b,
    }
}

impl Clone for ReplacementAction {
    fn clone(&self) -> (r: Self)
        ensures
            same_action(r, *self),
    {
        match self {
            ReplacementAction::Prevent => ReplacementAction::Prevent,
            ReplacementAction::RedirectToZone(z) => ReplacementAction::RedirectToZone(*z),
            ReplacementAction::ModifyAmount { delta } => ReplacementAction::ModifyAmount { delta: *delta },
            ReplacementAction::EntersModified { enters_tapped, extra_counters } => ReplacementAction::EntersModified {
                enters_tapped: *enters_tapped,
                extra_counters: *extra_counters,
            },
            ReplacementAction::Custom(s) => ReplacementAction::Custom(s.clone()),
        }
    }
}

/// A replacement effect, registered from a permanent's static ability.
#[derive(Debug, PartialEq, Eq)]
pub struct ReplacementEffect {
    /// The permanent that generates the effect.
    pub source_id: ObjectId,
    /// The player who controls the source.
    pub controller: usize,
    /// The kind of event the effect replaces.
    pub applies_to: ReplacementEventKind,
    /// What the replacement does.
    pub action: ReplacementAction,
    /// Whether it is a self-replacement effect (CR 614.16a).
    pub is_self_replacement: bool,
    /// Human-readable description.
    pub description: String,
}

impl ReplacementEffect {
    /// Whether two replacement effects hold the same values.
    pub open spec fn same_as(self, o: ReplacementEffect) -> bool {
        &&& self.source_id == o.source_id
        &&& self.controller == o.controller
        &&& self.applies_to == o.applies_to
        &&& same_action(self.action, o.action)
        &&& self.is_self_replacement == o.is_self_replacement
        &&& self.description@ == o.description@
    }
}

impl Clone for ReplacementEffect {
    fn clone(&self) -> (r: Self)
        ensures
            r.same_as(*self),
    {
        ReplacementEffect {
            source_id: self.source_id,
            controller: self.controller,
            applies_to: self.applies_to,
            action: self.action.clone(),
            is_self_replacement: self.is_self_replacement,
            description: self.description.clone(),
        }
    }
}

/// A pending choice: several replacement effects apply to one event and the
/// affected player chooses the order.
#[derive(Debug, Clone)]
pub struct PendingReplacementChoice {
    /// The player who chooses.
    pub chooser: usize,
    /// The competing effects, as (source, index into the effect list).
    pub applicable_effects: Vec<(ObjectId, usize)>,
    /// The event being replaced.
    pub event_kind: ReplacementEventKind,
}

/// The indices, in increasing order, of the effects among the first `n` that
/// apply to `kind` and whose self-replacement flag is `want_self`.
pub open spec fn matching_indices(
    effects: Seq<ReplacementEffect>,
    kind: ReplacementEventKind,
    want_self: bool,
    n: int,
) -> Seq<usize>
    decreases n,
{
    if n <= 0 {
        Seq::empty()
    } else {
        let rest = matching_indices(effects, kind, want_self, n - 1);
        if effects[n - 1].applies_to == kind && effects[n - 1].is_self_replacement == want_self {
            rest.push((n - 1) as usize)
        } else {
            rest
        }
    }
}

/// The self-replacement effects that apply to `kind`, by index.
pub open spec fn self_indices(effects: Seq<ReplacementEffect>, kind: ReplacementEventKind) -> Seq<usize> {
    matching_indices(effects, kind, true, effects.len() as int)
}

/// The other (player-choice) effects that apply to `kind`, by index.
pub open spec fn choice_indices(effects: Seq<ReplacementEffect>, kind: ReplacementEventKind) -> Seq<usize> {
    matching_indices(effects, kind, false, effects.len() as int)
}

/// Find which replacement effects apply to an event kind. Returns the
/// indices of the self-replacement effects and those of the player-choice
/// effects, each in list order.
pub fn find_applicable_replacements(
    effects: &[ReplacementEffect],
    event_kind: &ReplacementEventKind,
    _affected_player: usize,
) -> (r: (Vec<usize>, Vec<usize>))
    ensures
        r.0@ == self_indices(effects@, *event_kind),
        r.1@ == choice_indices(effects@, *event_kind),
{
    let mut self_replacements: Vec<usize> = Vec::new();
    let mut player_choice: Vec<usize> = Vec::new();
    let mut i: usize = 0;
    while i < effects.len()
        invariant
            i <= effects@.len(),
            self_replacements@ == matching_indices(effects@, *event_kind, true, i as int),
            player_choice@ == matching_indices(effects@, *event_kind, false, i as int),
        decreases effects.len() - i,
    {
        let effect = &effects[i];
        if effect.applies_to == *event_kind {
            if effect.is_self_replacement {
                self_replacements.push(i);
            } else {
                player_choice.push(i);
            }
        }
        i = i + 1;
    }
    (self_replacements, player_choice)
}

/// Whether `k` is below `n` and points at an effect of the given kind and
/// self-replacement flag.
pub open spec fn index_matches(
    effects: Seq<ReplacementEffect>,
    kind: ReplacementEventKind,
    want_self: bool,
    n: int,
    k: usize,
) -> bool {
    &&& 0 <= k < n
    &&& effects[k as int].applies_to == kind
    &&& effects[k as int].is_self_replacement == want_self
}

/// Every index the search returns points at an effect of the right kind
/// with the right self-replacement flag, and the indices increase.
pub proof fn lemma_matching_indices_sound(
    effects: Seq<ReplacementEffect>,
    kind: ReplacementEventKind,
    want_self: bool,
    n: int,
)
    requires
        0 <= n <= effects.len(),
        n <= usize::MAX,
    ensures
        forall|j: int|
            0 <= j < matching_indices(effects, kind, want_self, n).len() ==> index_matches(
                effects,
                kind,
                want_self,
                n,
                #[trigger] matching_indices(effects, kind, want_self, n)[j],
            ),
        forall|a: int, b: int|
            0 <= a < b < matching_indices(effects, kind, want_self, n).len() ==> matching_indices(
                effects,
                kind,
                want_self,
                n,
            )[a] < matching_indices(effects, kind, want_self, n)[b],
    decreases n,
{
    if n > 0 {
        lemma_matching_indices_sound(effects, kind, want_self, n - 1);
        let rest = matching_indices(effects, kind, want_self, n - 1);
        let cur = matching_indices(effects, kind, want_self, n);
        if effects[n - 1].applies_to == kind && effects[n - 1].is_self_replacement == want_self {
            assert(cur == rest.push((n - 1) as usize));
            assert forall|j: int| 0 <= j < cur.len() implies index_matches(
                effects,
                kind,
                want_self,
                n,
                #[trigger] cur[j],
            ) by {
                if j < rest.len() {
                    assert(cur[j] == rest[j]);
                } else {
                    assert(cur[j] == (n - 1) as usize);
                }
            }
            assert forall|a: int, b: int| 0 <= a < b < cur.len() implies cur[a] < cur[b] by {
                assert(cur[a] == rest[a]);
                if b < rest.len() {
                    assert(cur[b] == rest[b]);
                }
            }
        }
    }
}

/// Every effect of the right kind and flag is found.
pub proof fn lemma_matching_indices_complete(
    effects: Seq<ReplacementEffect>,
    kind: ReplacementEventKind,
    want_self: bool,
    n: int,
    k: int,
)
    requires
        0 <= k < n <= effects.len(),
        n <= usize::MAX,
        effects[k].applies_to == kind,
        effects[k].is_self_replacement == want_self,
    ensures
        matching_indices(effects, kind, want_self, n).contains(k as usize),
    decreases n,
{
    if k < n - 1 {
        lemma_matching_indices_complete(effects, kind, want_self, n - 1, k);
        let rest = matching_indices(effects, kind, want_self, n - 1);
        let j = choose|j: int| 0 <= j < rest.len() && rest[j] == k as usize;
        if effects[n - 1].applies_to == kind && effects[n - 1].is_self_replacement == want_self {
            assert(rest.push((n - 1) as usize)[j] == k as usize);
        }
    } else {
        let rest = matching_indices(effects, kind, want_self, n - 1);
        assert(rest.push((n - 1) as usize)[rest.len() as int] == k as usize);
    }
}

/// Apply replacement effects for an event, following CR 614 ordering:
/// self-replacement effects are applied automatically; one other effect is
/// applied automatically after them; when two or more other effects apply,
/// the affected player must choose their order and a pending choice is
/// returned beside the self-replacement effects.
pub fn apply_replacement_effects<'a>(
    effects: &'a [ReplacementEffect],
    event_kind: &ReplacementEventKind,
    affected_player: usize,
) -> (r: (Vec<&'a ReplacementEffect>, Option<PendingReplacementChoice>))
    ensures
        ({
            let si = self_indices(effects@, *event_kind);
            let ci = choice_indices(effects@, *event_kind);
            let applied = if ci.len() <= 1 { si + ci } else { si };
            &&& r.0@.len() == applied.len()
            &&& forall|j: int| 0 <= j < applied.len() ==> *r.0@[j] == effects@[applied[j] as int]
            &&& (ci.len() <= 1 ==> r.1 is None)
            &&& (ci.len() > 1 ==> (r.1 matches Some(c) && c.chooser == affected_player
                && c.event_kind == *event_kind && c.applicable_effects@.len() == ci.len()
                && forall|j: int|
                0 <= j < ci.len() ==> #[trigger] c.applicable_effects@[j] == (
                    effects@[ci[j] as int].source_id,
                    ci[j],
                )))
        }),
{
    let (self_indices_v, player_indices) = find_applicable_replacements(
        effects,
        event_kind,
        affected_player,
    );
    let len = effects.len();
    proof {
        lemma_matching_indices_sound(effects@, *event_kind, true, effects@.len() as int);
        lemma_matching_indices_sound(effects@, *event_kind, false, effects@.len() as int);
    }
    let mut auto_applied: Vec<&'a ReplacementEffect> = Vec::new();
    let mut i: usize = 0;
    while i < self_indices_v.len()
        invariant
            i <= self_indices_v@.len(),
            self_indices_v@ == self_indices(effects@, *event_kind),
            forall|j: int|
                0 <= j < self_indices_v@.len() ==> 0 <= #[trigger] self_indices_v@[j] < effects@.len(),
            auto_applied@.len() == i,
            forall|j: int| 0 <= j < i ==> *auto_applied@[j] == effects@[self_indices_v@[j] as int],
        decreases self_indices_v.len() - i,
    {
        auto_applied.push(&effects[self_indices_v[i]]);
        i = i + 1;
    }
    if player_indices.len() <= 1 {
        let mut k: usize = 0;
        while k < player_indices.len()
            invariant
                k <= player_indices@.len(),
                player_indices@ == choice_indices(effects@, *event_kind),
                self_indices_v@ == self_indices(effects@, *event_kind),
                forall|j: int|
                    0 <= j < player_indices@.len() ==> 0 <= #[trigger] player_indices@[j]
                        < effects@.len(),
                auto_applied@.len() == self_indices_v@.len() + k,
                forall|j: int|
                    0 <= j < auto_applied@.len() ==> *auto_applied@[j] == effects@[(self_indices_v@
                        + player_indices@)[j] as int],
            decreases player_indices.len() - k,
        {
            auto_applied.push(&effects[player_indices[k]]);
            k = k + 1;
        }
        (auto_applied, None)
    } else {
        let mut applicable: Vec<(ObjectId, usize)> = Vec::new();
        let mut k: usize = 0;
        while k < player_indices.len()
            invariant
                k <= player_indices@.len(),
                player_indices@ == choice_indices(effects@, *event_kind),
                forall|j: int|
                    0 <= j < player_indices@.len() ==> 0 <= #[trigger] player_indices@[j]
                        < effects@.len(),
                applicable@.len() == k,
                forall|j: int|
                    0 <= j < k ==> #[trigger] applicable@[j] == (
                        effects@[player_indices@[j] as int].source_id,
                        player_indices@[j],
                    ),
            decreases player_indices.len() - k,
        {
            let idx = player_indices[k];
            applicable.push((effects[idx].source_id, idx));
            k = k + 1;
        }
        let choice = PendingReplacementChoice {
            chooser: affected_player,
            applicable_effects: applicable,
            event_kind: *event_kind,
        };
        (auto_applied, Some(choice))
    }
}

} // verus!
