//! Triggered abilities: finding the abilities an event triggers, queueing
//! them, and putting queued triggers on the stack in APNAP order.
use vstd::prelude::*;

use crate::card::{ObjectId, TriggerCondition, TriggeredAbility};
use crate::events::GameEvent;
use crate::game::{GameState, PendingTrigger, PlayerIndex, PlayerState, StackEntry, StackSource, Target};

verus! {

/// A queued trigger as a value: its source, ability index, controller and
/// targets.
pub open spec fn trigger_view(t: PendingTrigger) -> (ObjectId, usize, PlayerIndex, Seq<Target>) {
    (t.source_id, t.ability_index, t.controller, t.targets@)
}

/// Whose permanents an event triggers.
pub enum ControllerFilter {
    /// Every player's.
    Any,
    /// Every player's but this one's.
    Not(PlayerIndex),
    /// Those of the listed players.
    Among(Vec<PlayerIndex>),
}

/// Whether a controller passes a filter.
pub open spec fn passes(filter: ControllerFilter, controller: PlayerIndex) -> bool {
    match filter {
        ControllerFilter::Any => true,
        ControllerFilter::Not(p) => controller != p,
        ControllerFilter::Among(v) => v@.contains(controller),
    }
}

/// Which abilities an event triggers: those with the event's condition
/// whose controller passes the filter.
pub open spec fn triggered_by(
    condition: TriggerCondition,
    filter: ControllerFilter,
    trigger: TriggerCondition,
    controller: PlayerIndex,
) -> bool {
    trigger == condition && passes(filter, controller)
}

/// Whether a list of players holds one.
fn lists_player(v: &Vec<PlayerIndex>, p: PlayerIndex) -> (r: bool)
    ensures
        r == v@.contains(p),
{
    let mut i: usize = 0;
    while i < v.len()
        invariant
            i <= v@.len(),
            forall|k: int| 0 <= k < i ==> v@[k] != p,
        decreases v.len() - i,
    {
        if v[i] == p {
            return true;
        }
        i = i + 1;
    }
    false
}

/// Whether a controller passes a filter.
fn passes_exec(filter: &ControllerFilter, controller: PlayerIndex) -> (r: bool)
    ensures
        r == passes(*filter, controller),
{
    match filter {
        ControllerFilter::Any => true,
        ControllerFilter::Not(p) => controller != *p,
        ControllerFilter::Among(v) => lists_player(v, controller),
    }
}

/// The triggers among the first `k` abilities of an object.
pub open spec fn abilities_found(
    abs: Seq<TriggeredAbility>,
    id: ObjectId,
    controller: PlayerIndex,
    condition: TriggerCondition,
    filter: ControllerFilter,
    k: int,
) -> Seq<(ObjectId, usize, PlayerIndex, Seq<Target>)>
    decreases k,
{
    if k <= 0 || k > abs.len() {
        seq![]
    } else {
        abilities_found(abs, id, controller, condition, filter, k - 1) + if triggered_by(
            condition,
            filter,
            abs[k - 1].trigger,
            controller,
        ) {
            seq![(id, (k - 1) as usize, controller, Seq::<Target>::empty())]
        } else {
            seq![]
        }
    }
}

/// The triggers of one object's abilities, in ability order, with no
/// targets chosen yet.
pub open spec fn object_found(s: GameState, id: ObjectId, condition: TriggerCondition, filter: ControllerFilter) -> Seq<
    (ObjectId, usize, PlayerIndex, Seq<Target>),
> {
    match s.def_of(id) {
        Some(d) => abilities_found(
            d.triggered_abilities@,
            id,
            s.objects@[id].controller,
            condition,
            filter,
            d.triggered_abilities@.len() as int,
        ),
        None => seq![],
    }
}

/// The triggers of the objects `ids`, in order.
pub open spec fn objects_found(
    s: GameState,
    ids: Seq<ObjectId>,
    condition: TriggerCondition,
    filter: ControllerFilter,
) -> Seq<(ObjectId, usize, PlayerIndex, Seq<Target>)>
    decreases ids.len(),
{
    if ids.len() == 0 {
        seq![]
    } else {
        objects_found(s, ids.drop_last(), condition, filter) + object_found(s, ids.last(), condition, filter)
    }
}

/// Collect the triggers of the objects in `ids`.
fn collect_triggers(
    state: &GameState,
    ids: &Vec<ObjectId>,
    condition: TriggerCondition,
    filter: &ControllerFilter,
) -> (r: Vec<PendingTrigger>)
    requires
        state.card_db is Some,
        forall|k: int| 0 <= k < ids@.len() ==> state.objects@.contains_key(#[trigger] ids@[k]),
    ensures
        r@.map_values(|t: PendingTrigger| trigger_view(t)) == objects_found(*state, ids@, condition, *filter),
{
    let db = state.card_db();
    let mut out: Vec<PendingTrigger> = Vec::new();
    let mut i: usize = 0;
    while i < ids.len()
        invariant
            i <= ids@.len(),
            state.card_db is Some,
            *db == state.db(),
            forall|k: int| 0 <= k < ids@.len() ==> state.objects@.contains_key(#[trigger] ids@[k]),
            out@.map_values(|t: PendingTrigger| trigger_view(t)) == objects_found(
                *state,
                ids@.take(i as int),
                condition,
                *filter,
            ),
        decreases ids.len() - i,
    {
        let id = ids[i];
        assert(ids@.take(i + 1).drop_last() =~= ids@.take(i as int));
        assert(ids@.take(i + 1).last() == id);
        let inst = *state.objects.get(&id).unwrap();
        let ghost before = out@.map_values(|t: PendingTrigger| trigger_view(t));
        match db.get(inst.card_def_id) {
            Some(d) => {
                let ghost abs = d.triggered_abilities@;
                let mut j: usize = 0;
                while j < d.triggered_abilities.len()
                    invariant
                        j <= abs.len(),
                        abs == d.triggered_abilities@,
                        out@.map_values(|t: PendingTrigger| trigger_view(t)) == before + abilities_found(
                            abs,
                            id,
                            inst.controller,
                            condition,
                            *filter,
                            j as int,
                        ),
                    decreases d.triggered_abilities.len() - j,
                {
                    let t = d.triggered_abilities[j].trigger;
                    let ghost prev = out@;
                    assert(t == abs[j as int].trigger);
                    let hit = t == condition && passes_exec(filter, inst.controller);
                    if hit {
                        out.push(
                            PendingTrigger { source_id: id, ability_index: j, controller: inst.controller, targets: Vec::new() },
                        );
                    }
                    proof {
                        assert(hit == triggered_by(condition, *filter, abs[j as int].trigger, inst.controller));
                        let step = if hit {
                            seq![(id, j, inst.controller, Seq::<Target>::empty())]
                        } else {
                            seq![]
                        };
                        assert(abilities_found(abs, id, inst.controller, condition, *filter, j + 1)
                            == abilities_found(abs, id, inst.controller, condition, *filter, j as int) + step);
                        if hit {
                            assert(trigger_view(out@.last()) == (id, j, inst.controller, Seq::<Target>::empty()));
                            assert(out@ =~= prev.push(out@.last()));
                            assert(out@.map_values(|t: PendingTrigger| trigger_view(t)) =~= prev.map_values(
                                |t: PendingTrigger| trigger_view(t),
                            ).push(trigger_view(out@.last())));
                        } else {
                            assert(out@ == prev);
                        }
                        assert(out@.map_values(|t: PendingTrigger| trigger_view(t)) =~= before + abilities_found(
                            abs,
                            id,
                            inst.controller,
                            condition,
                            *filter,
                            j + 1,
                        ));
                    }
                    j = j + 1;
                }
            },
            None => {
                assert(out@.map_values(|t: PendingTrigger| trigger_view(t)) =~= before + seq![]);
            },
        }
        i = i + 1;
    }
    assert(ids@.take(i as int) =~= ids@);
    out
}

/// What flushing works on: the queued triggers, the stack, the next stack
/// id, the pending events and the player with priority.
pub type FlushModel = (Seq<PendingTrigger>, Seq<StackEntry>, u64, Seq<GameEvent>, PlayerIndex);

pub open spec fn flush_model(s: GameState) -> FlushModel {
    (s.pending_triggers@, s.stack@, s.next_stack_id, s.pending_events@, s.priority_player)
}

/// How many queued triggers a player controls.
pub open spec fn count_of(p: Seq<PendingTrigger>, player: PlayerIndex) -> nat
    decreases p.len(),
{
    if p.len() == 0 {
        0
    } else {
        count_of(p.drop_last(), player) + if p.last().controller == player {
            1nat
        } else {
            0nat
        }
    }
}

/// The position of the first queued trigger a player controls.
pub open spec fn first_of(p: Seq<PendingTrigger>, player: PlayerIndex, i: int) -> int
    decreases p.len() - i,
{
    if i < 0 || i >= p.len() {
        p.len() as int
    } else if p[i].controller == player {
        i
    } else {
        first_of(p, player, i + 1)
    }
}

/// The stack entry of a queued trigger.
pub open spec fn entry_of(t: PendingTrigger, id: u64) -> StackEntry {
    StackEntry {
        id,
        source: StackSource::TriggeredAbility { source_id: t.source_id, ability_index: t.ability_index },
        controller: t.controller,
        targets: t.targets,
    }
}

/// Flush from seat offset `offset` on, in APNAP order from the active
/// player: a player who has lost is passed over; a player with exactly
/// one queued trigger has it put on the stack; at the first player with
/// several, flushing pauses with that player to choose their order (the
/// result is then false).
pub open spec fn flush_from(m: FlushModel, active: PlayerIndex, lost: Seq<bool>, offset: int) -> (FlushModel, bool)
    decreases lost.len() - offset,
{
    if offset < 0 || offset >= lost.len() {
        (m, true)
    } else {
        let player = ((active + offset) % (lost.len() as int)) as usize;
        let c = count_of(m.0, player);
        if lost[player as int] || c == 0 {
            flush_from(m, active, lost, offset + 1)
        } else if c > 1 {
            ((m.0, m.1, m.2, m.3, player), false)
        } else {
            let j = first_of(m.0, player, 0);
            let t = m.0[j];
            flush_from(
                (
                    m.0.remove(j),
                    m.1.push(entry_of(t, m.2)),
                    (m.2 + 1) as u64,
                    m.3.push(GameEvent::AbilityTriggered { source: t.source_id, ability_index: t.ability_index }),
                    m.4,
                ),
                active,
                lost,
                offset + 1,
            )
        }
    }
}

/// Whether each player has lost.
pub open spec fn lost_flags(ps: Seq<PlayerState>) -> Seq<bool> {
    ps.map_values(|p: PlayerState| p.has_lost)
}

/// Flushing the queued triggers (nothing to do when none are queued).
pub open spec fn flush_spec(s: GameState) -> (FlushModel, bool) {
    if s.pending_triggers@.len() == 0 {
        (flush_model(s), true)
    } else {
        flush_from(flush_model(s), s.active_player, lost_flags(s.players@), 0)
    }
}

proof fn lemma_count_has(p: Seq<PendingTrigger>, player: PlayerIndex)
    ensures
        count_of(p, player) > 0 ==> exists|k: int| 0 <= k < p.len() && (#[trigger] p[k]).controller == player,
    decreases p.len(),
{
    if p.len() > 0 {
        lemma_count_has(p.drop_last(), player);
        if count_of(p.drop_last(), player) > 0 {
            let k = choose|k: int| 0 <= k < p.drop_last().len() && (#[trigger] p.drop_last()[k]).controller == player;
            assert(p[k] == p.drop_last()[k]);
        } else if count_of(p, player) > 0 {
            assert(p[p.len() - 1].controller == player);
        }
    }
}

fn count_controlled(p: &Vec<PendingTrigger>, player: PlayerIndex) -> (r: usize)
    ensures
        r == count_of(p@, player),
{
    let mut c: usize = 0;
    let mut i: usize = 0;
    while i < p.len()
        invariant
            i <= p@.len(),
            c <= i,
            c == count_of(p@.take(i as int), player),
        decreases p.len() - i,
    {
        assert(p@.take(i + 1).drop_last() =~= p@.take(i as int));
        if p[i].controller == player {
            c = c + 1;
        }
        i = i + 1;
    }
    assert(p@.take(i as int) =~= p@);
    c
}

fn first_controlled(p: &Vec<PendingTrigger>, player: PlayerIndex) -> (r: usize)
    requires
        count_of(p@, player) > 0,
    ensures
        r == first_of(p@, player, 0),
        r < p@.len(),
        p@[r as int].controller == player,
{
    proof {
        lemma_count_has(p@, player);
    }
    let mut i: usize = 0;
    while i < p.len()
        invariant
            i <= p@.len(),
            count_of(p@, player) > 0,
            exists|k: int| 0 <= k < p@.len() && (#[trigger] p@[k]).controller == player,
            forall|k: int| 0 <= k < i ==> (#[trigger] p@[k]).controller != player,
            first_of(p@, player, 0) == first_of(p@, player, i as int),
        decreases p.len() - i,
    {
        if p[i].controller == player {
            return i;
        }
        i = i + 1;
    }
    proof {
        let k = choose|k: int| 0 <= k < p@.len() && (#[trigger] p@[k]).controller == player;
        assert(false);
    }
    0
}

/// Put queued triggers on the stack in APNAP order (CR 603.3b): going round
/// the table from the active player, each player still in the game with
/// exactly one queued trigger has it put on the stack (a new stack id, and
/// an `AbilityTriggered` event); at the first player with several,
/// flushing pauses with that player holding priority to order them, and
/// returns false. Returns true when nothing is left to order.
pub fn flush_triggers(state: &mut GameState) -> (r: bool)
    requires
        old(state).active_player + old(state).players@.len() < usize::MAX,
        old(state).next_stack_id + old(state).players@.len() < u64::MAX,
    ensures
        (flush_model(*final(state)), r) == flush_spec(*old(state)),
        final(state).next_stack_id <= old(state).next_stack_id + old(state).players@.len(),
        *final(state) == (GameState {
            pending_triggers: final(state).pending_triggers,
            stack: final(state).stack,
            next_stack_id: final(state).next_stack_id,
            pending_events: final(state).pending_events,
            priority_player: final(state).priority_player,
            ..*old(state)
        }),
{
    if state.pending_triggers.len() == 0 {
        return true;
    }
    let n = state.players.len();
    let active = state.active_player;
    let ghost lost = lost_flags(state.players@);
    let ghost target = flush_spec(*old(state));
    let mut offset: usize = 0;
    while offset < n
        invariant
            offset <= n,
            n == state.players@.len(),
            active == state.active_player,
            active + n < usize::MAX,
            lost == lost_flags(state.players@),
            state.pending_triggers@.len() > 0 || offset > 0,
            state.next_stack_id <= old(state).next_stack_id + offset,
            old(state).next_stack_id + n < u64::MAX,
            target == flush_from(flush_model(*state), active, lost, offset as int),
            target == flush_spec(*old(state)),
            *state == (GameState {
                pending_triggers: state.pending_triggers,
                stack: state.stack,
                next_stack_id: state.next_stack_id,
                pending_events: state.pending_events,
                priority_player: state.priority_player,
                ..*old(state)
            }),
        decreases n - offset,
    {
        let player = (active + offset) % n;
        if state.players[player].has_lost {
            offset = offset + 1;
            continue;
        }
        let c = count_controlled(&state.pending_triggers, player);
        if c == 0 {
            offset = offset + 1;
            continue;
        }
        if c > 1 {
            proof {
                assert(lost[player as int] == state.players@[player as int].has_lost);
                assert(player == ((active + offset) % (lost.len() as int)) as usize);
                assert(count_of(flush_model(*state).0, player) > 1);
                assert(flush_from(flush_model(*state), active, lost, offset as int) == (
                    (
                        state.pending_triggers@,
                        state.stack@,
                        state.next_stack_id,
                        state.pending_events@,
                        player,
                    ),
                    false,
                ));
            }
            state.priority_player = player;
            return false;
        }
        let j = first_controlled(&state.pending_triggers, player);
        let ghost m = flush_model(*state);
        let t = state.pending_triggers.remove(j);
        let id = state.new_stack_id();
        let source_id = t.source_id;
        let ability_index = t.ability_index;
        state.stack.push(
            StackEntry {
                id,
                source: StackSource::TriggeredAbility { source_id, ability_index },
                controller: t.controller,
                targets: t.targets,
            },
        );
        state.emit_event(GameEvent::AbilityTriggered { source: source_id, ability_index });
        proof {
            assert(flush_model(*state).1 =~= m.1.push(entry_of(m.0[j as int], m.2)));
        }
        offset = offset + 1;
    }
    true
}

/// The triggers an event gives: those of the hinted object, when it is
/// known, or else those of every permanent on the battlefield.
pub open spec fn checked(s: GameState, condition: TriggerCondition, source_hint: Option<ObjectId>) -> Seq<
    (ObjectId, usize, PlayerIndex, Seq<Target>),
> {
    match source_hint {
        Some(id) => if s.objects@.contains_key(id) {
            object_found(s, id, condition, ControllerFilter::Any)
        } else {
            seq![]
        },
        None => objects_found(s, s.battlefield@, condition, ControllerFilter::Any),
    }
}

/// Queue triggers after an event.
fn queue(state: &mut GameState, found: Vec<PendingTrigger>)
    ensures
        final(state).pending_triggers@ == old(state).pending_triggers@ + found@,
        *final(state) == (GameState { pending_triggers: final(state).pending_triggers, ..*old(state) }),
{
    let mut found = found;
    state.pending_triggers.append(&mut found);
}

/// Queue the triggered abilities with a condition: those of the hinted
/// object when one is given (and known), else those of every permanent on
/// the battlefield, each with its controller and no targets yet.
pub fn check_triggers(state: &mut GameState, condition: TriggerCondition, source_hint: Option<ObjectId>)
    requires
        old(state).card_db is Some,
        old(state).battlefield_known(),
    ensures
        final(state).pending_triggers@.map_values(|t: PendingTrigger| trigger_view(t)) == old(
            state,
        ).pending_triggers@.map_values(|t: PendingTrigger| trigger_view(t)) + checked(*old(state), condition, source_hint),
        *final(state) == (GameState { pending_triggers: final(state).pending_triggers, ..*old(state) }),
{
    let ghost s0 = *state;
    let found = match source_hint {
        Some(id) => {
            let mut ids: Vec<ObjectId> = Vec::new();
            if state.objects.contains_key(&id) {
                ids.push(id);
            }
            let f = collect_triggers(state, &ids, condition, &ControllerFilter::Any);
            proof {
                if s0.objects@.contains_key(id) {
                    assert(ids@ =~= seq![id]);
                    assert(ids@.drop_last() =~= Seq::<ObjectId>::empty());
                    assert(ids@.last() == id);
                    assert(objects_found(s0, ids@.drop_last(), condition, ControllerFilter::Any) =~= Seq::empty());
                    assert(objects_found(s0, ids@, condition, ControllerFilter::Any) =~= object_found(s0, id, condition, ControllerFilter::Any));
                }
            }
            f
        },
        None => collect_triggers(state, &state.battlefield, condition, &ControllerFilter::Any),
    };
    let ghost fv = found@;
    queue(state, found);
    assert(state.pending_triggers@.map_values(|t: PendingTrigger| trigger_view(t)) =~= s0.pending_triggers@.map_values(
        |t: PendingTrigger| trigger_view(t),
    ) + fv.map_values(|t: PendingTrigger| trigger_view(t)));
}

/// Queue the triggers with a condition and put them on the stack; returns
/// whether flushing finished (false: a player must order triggers).
pub fn fire_triggers(state: &mut GameState, condition: TriggerCondition, source_hint: Option<ObjectId>) -> (r: bool)
    requires
        old(state).card_db is Some,
        old(state).battlefield_known(),
        old(state).active_player + old(state).players@.len() < usize::MAX,
        old(state).next_stack_id + old(state).players@.len() < u64::MAX,
    ensures
        exists|mid: GameState|
            {
                &&& mid.pending_triggers@.map_values(|t: PendingTrigger| trigger_view(t)) == old(
                    state,
                ).pending_triggers@.map_values(|t: PendingTrigger| trigger_view(t)) + checked(
                    *old(state),
                    condition,
                    source_hint,
                )
                &&& mid == (GameState { pending_triggers: mid.pending_triggers, ..*old(state) })
                &&& (flush_model(*final(state)), r) == flush_spec(mid)
                &&& *final(state) == (GameState {
                    pending_triggers: final(state).pending_triggers,
                    stack: final(state).stack,
                    next_stack_id: final(state).next_stack_id,
                    pending_events: final(state).pending_events,
                    priority_player: final(state).priority_player,
                    ..mid
                })
            },
{
    check_triggers(state, condition, source_hint);
    let ghost mid = *state;
    flush_triggers(state)
}

/// What firing the "whenever an opponent draws a card" triggers after
/// `player` draws makes of a state: the triggers of the permanents other
/// players control are queued, and the queue is flushed; with nothing
/// found and nothing queued, nothing changes.
pub open spec fn fired(m: GameState, player: PlayerIndex, b: GameState) -> bool {
    let f = objects_found(m, m.battlefield@, TriggerCondition::OpponentDrawsCard, ControllerFilter::Not(player));
    if f.len() == 0 && m.pending_triggers@.len() == 0 {
        b == m
    } else {
        exists|mid: GameState|
            {
                &&& mid.pending_triggers@.map_values(|t: PendingTrigger| trigger_view(t))
                    == m.pending_triggers@.map_values(|t: PendingTrigger| trigger_view(t)) + f
                &&& mid == (GameState { pending_triggers: mid.pending_triggers, ..m })
                &&& flush_model(b) == flush_spec(mid).0
                &&& b == (GameState {
                    pending_triggers: b.pending_triggers,
                    stack: b.stack,
                    next_stack_id: b.next_stack_id,
                    pending_events: b.pending_events,
                    priority_player: b.priority_player,
                    ..mid
                })
            }
    }
}

/// After `drawing_player` draws a card: queue the "whenever an opponent
/// draws a card" triggers of the permanents other players control, and
/// put the queued triggers on the stack.
pub fn fire_card_draw_triggers(state: &mut GameState, drawing_player: PlayerIndex)
    requires
        old(state).card_db is Some,
        old(state).battlefield_known(),
        old(state).active_player + old(state).players@.len() < usize::MAX,
        old(state).next_stack_id + old(state).players@.len() < u64::MAX,
    ensures
        fired(*old(state), drawing_player, *final(state)),
        final(state).next_stack_id <= old(state).next_stack_id + old(state).players@.len(),
{
    let ghost s0 = *state;
    let found = collect_triggers(
        state,
        &state.battlefield,
        TriggerCondition::OpponentDrawsCard,
        &ControllerFilter::Not(drawing_player),
    );
    if found.len() == 0 && state.pending_triggers.len() == 0 {
        return;
    }
    let ghost fv = found@;
    queue(state, found);
    assert(state.pending_triggers@.map_values(|t: PendingTrigger| trigger_view(t)) =~= s0.pending_triggers@.map_values(
        |t: PendingTrigger| trigger_view(t),
    ) + fv.map_values(|t: PendingTrigger| trigger_view(t)));
    let ghost mid = *state;
    let _ = flush_triggers(state);
}

/// Queue the "whenever a creature you control dies" triggers of the
/// permanents controlled by a player in `dying_controllers` (the
/// controllers of the creatures that died).
pub fn check_your_creature_dies_triggers(state: &mut GameState, dying_controllers: Vec<PlayerIndex>)
    requires
        old(state).card_db is Some,
        old(state).battlefield_known(),
    ensures
        final(state).pending_triggers@.map_values(|t: PendingTrigger| trigger_view(t)) == old(
            state,
        ).pending_triggers@.map_values(|t: PendingTrigger| trigger_view(t)) + objects_found(
            *old(state),
            old(state).battlefield@,
            TriggerCondition::ACreatureYouControlDies,
            ControllerFilter::Among(dying_controllers),
        ),
        *final(state) == (GameState { pending_triggers: final(state).pending_triggers, ..*old(state) }),
{
    let ghost s0 = *state;
    let filter = ControllerFilter::Among(dying_controllers);
    let found = collect_triggers(state, &state.battlefield, TriggerCondition::ACreatureYouControlDies, &filter);
    let ghost fv = found@;
    queue(state, found);
    assert(state.pending_triggers@.map_values(|t: PendingTrigger| trigger_view(t)) =~= s0.pending_triggers@.map_values(
        |t: PendingTrigger| trigger_view(t),
    ) + fv.map_values(|t: PendingTrigger| trigger_view(t)));
}

} // verus!
