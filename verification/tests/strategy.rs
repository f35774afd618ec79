use std::collections::HashMap;
use std::sync::Arc;

use mtg_gto::action::Action;
use mtg_gto::card::sample;
use mtg_gto::card::sample::ids;
use mtg_gto::card::{ObjectId, ZoneType};
use mtg_gto::game::{GameState, Phase};
use mtg_gto::rules::combat::CombatTraits;
use mtg_gto::strategy::GreedyStrategy;

fn greedy_choose_action(state: &GameState, tm: &HashMap<ObjectId, CombatTraits>, actions: Vec<Action>) -> Action {
    GreedyStrategy.choose_action(state, tm, actions)
}

fn sample_state() -> GameState {
    let mut state = GameState::new(2);
    state.card_db = Some(Arc::new(sample::build_sample_db()));
    state.phase = Phase::PreCombatMain;
    state
}

fn traits(power: i32, toughness: i32) -> CombatTraits {
    CombatTraits {
        power,
        toughness,
        first_strike: false,
        double_strike: false,
        lifelink: false,
        wither: false,
        infect: false,
        trample: false,
        deathtouch: false,
        toxic: false,
        flanking: false,
    }
}

fn in_hand(state: &mut GameState, card: u64) -> ObjectId {
    state.create_card_in_zone(card, 0, ZoneType::Hand)
}

#[test]
fn greedy_plays_a_land_before_casting() {
    let mut state = sample_state();
    let land = in_hand(&mut state, ids::MOUNTAIN);
    let bolt = in_hand(&mut state, ids::LIGHTNING_BOLT);
    let actions = vec![
        Action::PassPriority,
        Action::CastSpell { object_id: bolt, targets: vec![] },
        Action::PlayLand { object_id: land },
    ];
    let tm = HashMap::new();
    assert_eq!(greedy_choose_action(&state, &tm, actions), Action::PlayLand { object_id: land });
}

#[test]
fn greedy_casts_the_most_expensive_spell() {
    let mut state = sample_state();
    let bolt = in_hand(&mut state, ids::LIGHTNING_BOLT);
    let ogre = in_hand(&mut state, ids::GREY_OGRE);
    let elves = in_hand(&mut state, ids::LLANOWAR_ELVES);
    let actions = vec![
        Action::CastSpell { object_id: bolt, targets: vec![] },
        Action::CastSpell { object_id: ogre, targets: vec![] },
        Action::CastSpell { object_id: elves, targets: vec![] },
        Action::PassPriority,
    ];
    let tm = HashMap::new();
    assert_eq!(
        greedy_choose_action(&state, &tm, actions),
        Action::CastSpell { object_id: ogre, targets: vec![] }
    );
}

#[test]
fn greedy_orders_triggers_first() {
    let mut state = sample_state();
    let land = in_hand(&mut state, ids::MOUNTAIN);
    let actions = vec![
        Action::PlayLand { object_id: land },
        Action::OrderTriggers { ordering: vec![1, 0] },
    ];
    let tm = HashMap::new();
    assert_eq!(
        greedy_choose_action(&state, &tm, actions),
        Action::OrderTriggers { ordering: vec![1, 0] }
    );
}

#[test]
fn greedy_attacks_with_the_most_creatures() {
    let state = sample_state();
    let actions = vec![
        Action::DeclareAttackers { attackers: vec![] },
        Action::DeclareAttackers { attackers: vec![7] },
        Action::DeclareAttackers { attackers: vec![7, 8] },
        Action::DeclareAttackers { attackers: vec![8, 7] },
    ];
    let tm = HashMap::new();
    assert_eq!(
        greedy_choose_action(&state, &tm, actions),
        Action::DeclareAttackers { attackers: vec![7, 8] }
    );
}

#[test]
fn greedy_blocks_only_when_the_trade_is_good() {
    let mut state = sample_state();
    let blocker = state.create_card_in_zone(ids::GREY_OGRE, 0, ZoneType::Battlefield);
    let attacker = state.create_card_in_zone(ids::LLANOWAR_ELVES, 1, ZoneType::Battlefield);
    let mut tm = HashMap::new();
    tm.insert(blocker, traits(2, 2));
    tm.insert(attacker, traits(1, 1));
    let actions = vec![
        Action::DeclareBlockers { blocks: vec![] },
        Action::DeclareBlockers { blocks: vec![(blocker, attacker)] },
    ];
    // Power 1 kept off the player, and the attacker (mana value 1) dies alone.
    assert_eq!(
        greedy_choose_action(&state, &tm, actions),
        Action::DeclareBlockers { blocks: vec![(blocker, attacker)] }
    );
    // A losing block scores below zero: pass instead.
    tm.insert(blocker, traits(0, 1));
    tm.insert(attacker, traits(1, 5));
    let actions = vec![Action::DeclareBlockers { blocks: vec![(blocker, attacker)] }];
    assert_eq!(greedy_choose_action(&state, &tm, actions), Action::PassPriority);
}

#[test]
fn greedy_keeps_or_mulligans_by_land_count() {
    let mut state = sample_state();
    state.phase = Phase::Mulligan;
    state.priority_player = 0;
    in_hand(&mut state, ids::MOUNTAIN);
    in_hand(&mut state, ids::FOREST);
    in_hand(&mut state, ids::GREY_OGRE);
    let tm = HashMap::new();
    assert_eq!(greedy_choose_action(&state, &tm, vec![]), Action::MulliganKeep);
    let mut flood = sample_state();
    flood.phase = Phase::Mulligan;
    in_hand(&mut flood, ids::GREY_OGRE);
    assert_eq!(greedy_choose_action(&flood, &tm, vec![]), Action::MulliganMulligan);
    flood.players[0].mulligan_count = 2;
    assert_eq!(greedy_choose_action(&flood, &tm, vec![]), Action::MulliganKeep);
}

#[test]
fn greedy_bottoms_the_most_expensive_card() {
    let mut state = sample_state();
    state.phase = Phase::Mulligan;
    state.players[0].mulligan_decided = true;
    let land = in_hand(&mut state, ids::MOUNTAIN);
    let ogre = in_hand(&mut state, ids::GREY_OGRE);
    let bolt = in_hand(&mut state, ids::LIGHTNING_BOLT);
    let actions = vec![
        Action::MulliganBottomCard { object_id: land },
        Action::MulliganBottomCard { object_id: bolt },
        Action::MulliganBottomCard { object_id: ogre },
    ];
    let tm = HashMap::new();
    assert_eq!(
        greedy_choose_action(&state, &tm, actions),
        Action::MulliganBottomCard { object_id: ogre }
    );
}

#[test]
fn greedy_discards_when_nothing_else() {
    let state = sample_state();
    let tm = HashMap::new();
    assert_eq!(
        greedy_choose_action(&state, &tm, vec![Action::PassPriority, Action::Discard { object_id: 3 }]),
        Action::Discard { object_id: 3 }
    );
    assert_eq!(greedy_choose_action(&state, &tm, vec![]), Action::PassPriority);
}

#[test]
fn greedy_is_named() {
    assert_eq!(GreedyStrategy.name(), "Greedy");
}
