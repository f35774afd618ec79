use std::collections::HashMap;

use mtg_gto::card::{ObjectId, ZoneType};
use mtg_gto::events::GameEvent;
use mtg_gto::game::{GameState, Target};
use mtg_gto::rules::combat::{resolve_combat_damage, CombatTraits};

fn traits(power: i32, toughness: i32) -> CombatTraits {
    CombatTraits {
        power,
        toughness,
        first_strike: false,
        double_strike: false,
        lifelink: false,
        wither: false,
        infect: false,
        trample: false,
        deathtouch: false,
        toxic: false,
        flanking: false,
    }
}

fn creature(state: &mut GameState, owner: usize) -> ObjectId {
    state.create_card_in_zone(1, owner, ZoneType::Battlefield)
}

#[test]
fn unblocked_attacker_hits_the_defending_player() {
    let mut state = GameState::new(2);
    let a = creature(&mut state, 0);
    state.combat.attackers.push(a);
    let mut tm = HashMap::new();
    tm.insert(a, traits(3, 3));
    resolve_combat_damage(&mut state, &tm, false);
    assert_eq!(state.players[1].life, 17);
    assert_eq!(state.players[0].life, 20);
    let events = state.drain_events();
    assert_eq!(
        events.last(),
        Some(&GameEvent::DamageDealt { source: a, target: Target::Player(1), amount: 3, is_combat: true })
    );
}

#[test]
fn blocked_trampler_assigns_lethal_then_tramples_over() {
    let mut state = GameState::new(2);
    let a = creature(&mut state, 0);
    let b = creature(&mut state, 1);
    state.combat.attackers.push(a);
    state.combat.attacker_blockers.insert(a, vec![b]);
    state.combat.blockers.insert(b, a);
    let mut tm = HashMap::new();
    let mut at = traits(5, 5);
    at.trample = true;
    at.lifelink = true;
    tm.insert(a, at);
    tm.insert(b, traits(2, 2));
    resolve_combat_damage(&mut state, &tm, false);
    assert_eq!(state.objects[&b].damage_marked, 2);
    assert_eq!(state.objects[&a].damage_marked, 2);
    assert_eq!(state.players[1].life, 17);
    // Lifelink on the 2 to the blocker and the 3 to the player.
    assert_eq!(state.players[0].life, 25);
}

#[test]
fn double_strike_deals_damage_in_both_steps() {
    let mut state = GameState::new(2);
    let a = creature(&mut state, 0);
    let b = creature(&mut state, 1);
    state.combat.attackers.push(a);
    state.combat.attacker_blockers.insert(a, vec![b]);
    let mut tm = HashMap::new();
    let mut at = traits(2, 2);
    at.double_strike = true;
    tm.insert(a, at);
    tm.insert(b, traits(4, 5));
    resolve_combat_damage(&mut state, &tm, true);
    assert_eq!(state.objects[&b].damage_marked, 2);
    assert_eq!(state.objects[&a].damage_marked, 0);
    resolve_combat_damage(&mut state, &tm, false);
    // Lethal damage left for the blocker is 3, the attacker has 2.
    assert_eq!(state.objects[&b].damage_marked, 4);
    assert_eq!(state.objects[&a].damage_marked, 4);
}

#[test]
fn infect_and_wither_deal_counters() {
    let mut state = GameState::new(2);
    let a = creature(&mut state, 0);
    let c = creature(&mut state, 0);
    let b = creature(&mut state, 1);
    state.combat.attackers.push(a);
    state.combat.attackers.push(c);
    state.combat.attacker_blockers.insert(c, vec![b]);
    let mut tm = HashMap::new();
    let mut at = traits(2, 2);
    at.infect = true;
    tm.insert(a, at);
    let mut ct = traits(3, 3);
    ct.wither = true;
    ct.deathtouch = true;
    tm.insert(c, ct);
    tm.insert(b, traits(0, 5));
    resolve_combat_damage(&mut state, &tm, false);
    assert_eq!(state.players[1].poison_counters, 2);
    assert_eq!(state.players[1].life, 20);
    // Deathtouch assigns 1 to the blocker, as a -1/-1 counter.
    assert_eq!(state.objects[&b].minus_counters, 1);
    assert_eq!(state.objects[&b].damage_marked, 0);
}

#[test]
fn commander_damage_is_recorded() {
    let mut state = GameState::new_commander(2);
    let a = creature(&mut state, 0);
    state.players[0].commander_object_id = Some(a);
    state.combat.attackers.push(a);
    let mut tm = HashMap::new();
    let mut at = traits(7, 7);
    at.toxic = true;
    tm.insert(a, at);
    resolve_combat_damage(&mut state, &tm, false);
    assert_eq!(state.players[1].life, 33);
    assert_eq!(state.players[1].commander_damage_received[0], 7);
    assert_eq!(state.players[1].poison_counters, 1);
}

#[test]
fn a_creature_without_power_deals_nothing() {
    let mut state = GameState::new(2);
    let a = creature(&mut state, 0);
    let missing: ObjectId = 999;
    state.combat.attackers.push(a);
    state.combat.attackers.push(missing);
    let mut tm = HashMap::new();
    tm.insert(a, traits(-1, 3));
    resolve_combat_damage(&mut state, &tm, false);
    assert_eq!(state.players[1].life, 20);
    assert!(state.drain_events().is_empty());
}

#[test]
fn flanking_weakens_blockers_in_the_first_damage_step() {
    let mut state = GameState::new(2);
    let a = creature(&mut state, 0);
    let b = creature(&mut state, 1);
    state.combat.attackers.push(a);
    state.combat.attacker_blockers.insert(a, vec![b]);
    state.combat.blockers.insert(b, a);
    let mut tm = HashMap::new();
    let mut at = traits(2, 2);
    at.flanking = true;
    tm.insert(a, at);
    tm.insert(b, traits(2, 2));
    let debuffs = resolve_combat_damage(&mut state, &tm, false);
    assert_eq!(debuffs, vec![(b, 0)]);
    // The blocker is a 1/1 now: it takes 1 and deals 1.
    assert_eq!(state.objects[&b].damage_marked, 1);
    assert_eq!(state.objects[&a].damage_marked, 1);
}

#[test]
fn flanking_waits_for_the_first_damage_step() {
    let mut state = GameState::new(2);
    let a = creature(&mut state, 0);
    let b = creature(&mut state, 1);
    state.combat.attackers.push(a);
    state.combat.attacker_blockers.insert(a, vec![b]);
    state.combat.blockers.insert(b, a);
    let mut tm = HashMap::new();
    let mut at = traits(2, 2);
    at.flanking = true;
    tm.insert(a, at);
    let mut bt = traits(2, 2);
    bt.first_strike = true;
    tm.insert(b, bt);
    // A blocker strikes first, so the regular step is not the first one.
    let debuffs = resolve_combat_damage(&mut state, &tm, false);
    assert!(debuffs.is_empty());
    assert_eq!(state.objects[&b].damage_marked, 2);
}

#[test]
fn a_blocked_attacker_without_trample_spares_the_player() {
    let mut state = GameState::new(2);
    let a = creature(&mut state, 0);
    let b = creature(&mut state, 1);
    state.combat.attackers.push(a);
    state.combat.attacker_blockers.insert(a, vec![b]);
    let mut tm = HashMap::new();
    tm.insert(a, traits(6, 6));
    tm.insert(b, traits(1, 1));
    resolve_combat_damage(&mut state, &tm, false);
    assert_eq!(state.players[1].life, 20);
    assert_eq!(state.objects[&b].damage_marked, 1);
    assert_eq!(state.objects[&a].damage_marked, 1);
}
