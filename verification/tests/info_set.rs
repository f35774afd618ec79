use std::collections::HashSet;
use std::sync::Arc;

use mtg_gto::card::sample;
use mtg_gto::card::ZoneType;
use mtg_gto::game::{GameState, Phase};
use mtg_gto::info_set::{
    BucketedAbstraction, CardAwareBucketedAbstraction, GoldfishBucketedAbstraction,
    IdentityAbstraction, InfoSetAbstraction, InformationSet, MultiPhaseAbstraction,
};

fn setup_test_state() -> GameState {
    let db = sample::build_sample_db();
    let mut state = GameState::new(2);
    state.card_db = Some(Arc::new(db));
    for _ in 0..20 {
        state.create_card_in_zone(sample::ids::MOUNTAIN, 0, ZoneType::Library);
        state.create_card_in_zone(sample::ids::FOREST, 1, ZoneType::Library);
    }
    state
}

fn info_of(state: &GameState) -> InformationSet {
    let view = state.visible_state(0);
    InformationSet::from_view(&view, state.card_db())
}

#[test]
fn test_info_set_from_view_basic() {
    let mut state = setup_test_state();
    state.create_card_in_zone(sample::ids::LIGHTNING_BOLT, 0, ZoneType::Hand);
    state.create_card_in_zone(sample::ids::MOUNTAIN, 0, ZoneType::Battlefield);
    state.active_player = 0;
    state.priority_player = 0;
    state.phase = Phase::PreCombatMain;

    let view = state.visible_state(0);
    let info_set = InformationSet::from_view(&view, state.card_db());

    assert_eq!(info_set.phase, 3);
    assert_eq!(info_set.active_player, 0);
    assert_eq!(info_set.my_life, 20);
    assert_eq!(info_set.opp_life, 20);
    assert_eq!(info_set.my_hand.len(), 1);
    assert_eq!(info_set.my_hand[0], sample::ids::LIGHTNING_BOLT);
    assert!(!info_set.battlefield.is_empty());
}

#[test]
fn test_info_set_hash_deterministic() {
    let mut state = setup_test_state();
    state.create_card_in_zone(sample::ids::LIGHTNING_BOLT, 0, ZoneType::Hand);
    state.create_card_in_zone(sample::ids::MOUNTAIN, 0, ZoneType::Battlefield);
    state.active_player = 0;
    state.priority_player = 0;
    state.phase = Phase::PreCombatMain;

    let view1 = state.visible_state(0);
    let info1 = InformationSet::from_view(&view1, state.card_db());

    let view2 = state.visible_state(0);
    let info2 = InformationSet::from_view(&view2, state.card_db());

    assert_eq!(info1.hash_value(), info2.hash_value());
}

#[test]
fn test_info_set_different_hands_different_hash() {
    let mut state1 = setup_test_state();
    state1.create_card_in_zone(sample::ids::LIGHTNING_BOLT, 0, ZoneType::Hand);
    state1.active_player = 0;
    state1.priority_player = 0;
    state1.phase = Phase::PreCombatMain;

    let mut state2 = setup_test_state();
    state2.create_card_in_zone(sample::ids::GREY_OGRE, 0, ZoneType::Hand);
    state2.active_player = 0;
    state2.priority_player = 0;
    state2.phase = Phase::PreCombatMain;

    let view1 = state1.visible_state(0);
    let info1 = InformationSet::from_view(&view1, state1.card_db());

    let view2 = state2.visible_state(0);
    let info2 = InformationSet::from_view(&view2, state2.card_db());

    assert_ne!(info1.hash_value(), info2.hash_value());
}

#[test]
fn test_info_set_same_observable_same_hash() {
    let mut state1 = setup_test_state();
    state1.create_card_in_zone(sample::ids::LIGHTNING_BOLT, 0, ZoneType::Hand);
    state1.create_card_in_zone(sample::ids::MOUNTAIN, 0, ZoneType::Battlefield);
    state1.create_card_in_zone(sample::ids::LIGHTNING_BOLT, 1, ZoneType::Hand);
    state1.active_player = 0;
    state1.priority_player = 0;
    state1.phase = Phase::PreCombatMain;

    let mut state2 = setup_test_state();
    state2.create_card_in_zone(sample::ids::LIGHTNING_BOLT, 0, ZoneType::Hand);
    state2.create_card_in_zone(sample::ids::MOUNTAIN, 0, ZoneType::Battlefield);
    state2.create_card_in_zone(sample::ids::GREY_OGRE, 1, ZoneType::Hand);
    state2.active_player = 0;
    state2.priority_player = 0;
    state2.phase = Phase::PreCombatMain;

    let view1 = state1.visible_state(0);
    let info1 = InformationSet::from_view(&view1, state1.card_db());

    let view2 = state2.visible_state(0);
    let info2 = InformationSet::from_view(&view2, state2.card_db());

    assert_eq!(info1.hash_value(), info2.hash_value());
}

#[test]
fn test_identity_abstraction_matches_hash() {
    let mut state = setup_test_state();
    state.create_card_in_zone(sample::ids::LIGHTNING_BOLT, 0, ZoneType::Hand);
    state.active_player = 0;
    state.priority_player = 0;
    state.phase = Phase::PreCombatMain;

    let view = state.visible_state(0);
    let info_set = InformationSet::from_view(&view, state.card_db());

    let identity = IdentityAbstraction;
    assert_eq!(
        identity.abstract_info_set(&info_set),
        info_set.hash_value(),
        "IdentityAbstraction should return the raw hash"
    );
}

#[test]
fn test_bucketed_abstraction_collapses_similar_life() {
    let mut state1 = setup_test_state();
    state1.active_player = 0;
    state1.priority_player = 0;
    state1.phase = Phase::PreCombatMain;
    state1.players[0].life = 16;

    let mut state2 = setup_test_state();
    state2.active_player = 0;
    state2.priority_player = 0;
    state2.phase = Phase::PreCombatMain;
    state2.players[0].life = 18;

    let view1 = state1.visible_state(0);
    let info1 = InformationSet::from_view(&view1, state1.card_db());

    let view2 = state2.visible_state(0);
    let info2 = InformationSet::from_view(&view2, state2.card_db());

    let bucketed = BucketedAbstraction;
    assert_eq!(
        bucketed.abstract_info_set(&info1),
        bucketed.abstract_info_set(&info2),
        "Life totals 16 and 18 should be in the same bucket"
    );

    assert_ne!(info1.hash_value(), info2.hash_value());
}

#[test]
fn test_bucketed_abstraction_separates_different_life_buckets() {
    let mut state1 = setup_test_state();
    state1.active_player = 0;
    state1.priority_player = 0;
    state1.phase = Phase::PreCombatMain;
    state1.players[0].life = 5;

    let mut state2 = setup_test_state();
    state2.active_player = 0;
    state2.priority_player = 0;
    state2.phase = Phase::PreCombatMain;
    state2.players[0].life = 15;

    let view1 = state1.visible_state(0);
    let info1 = InformationSet::from_view(&view1, state1.card_db());

    let view2 = state2.visible_state(0);
    let info2 = InformationSet::from_view(&view2, state2.card_db());

    let bucketed = BucketedAbstraction;
    assert_ne!(
        bucketed.abstract_info_set(&info1),
        bucketed.abstract_info_set(&info2),
        "Life totals in different buckets should produce different abstract hashes"
    );
}

#[test]
fn test_bucketed_abstraction_collapses_turn_bucket() {
    let mut state1 = setup_test_state();
    state1.active_player = 0;
    state1.priority_player = 0;
    state1.phase = Phase::PreCombatMain;
    state1.turn_number = 1;

    let mut state2 = setup_test_state();
    state2.active_player = 0;
    state2.priority_player = 0;
    state2.phase = Phase::PreCombatMain;
    state2.turn_number = 3;

    let view1 = state1.visible_state(0);
    let info1 = InformationSet::from_view(&view1, state1.card_db());

    let view2 = state2.visible_state(0);
    let info2 = InformationSet::from_view(&view2, state2.card_db());

    let bucketed = BucketedAbstraction;
    assert_eq!(
        bucketed.abstract_info_set(&info1),
        bucketed.abstract_info_set(&info2),
        "Turns 1 and 3 should be in the same 'early' bucket"
    );
}

#[test]
fn test_bucketed_fewer_info_sets_than_identity() {
    let identity = IdentityAbstraction;
    let bucketed = BucketedAbstraction;

    let mut identity_hashes = HashSet::new();
    let mut bucketed_hashes = HashSet::new();

    for life in [5, 10, 15, 16, 17, 18, 19, 20, 25] {
        for turn in [1, 2, 3, 4, 5, 6, 7, 8, 10] {
            let mut state = setup_test_state();
            state.active_player = 0;
            state.priority_player = 0;
            state.phase = Phase::PreCombatMain;
            state.players[0].life = life;
            state.turn_number = turn;

            let view = state.visible_state(0);
            let info_set = InformationSet::from_view(&view, state.card_db());

            identity_hashes.insert(identity.abstract_info_set(&info_set));
            bucketed_hashes.insert(bucketed.abstract_info_set(&info_set));
        }
    }

    assert!(
        bucketed_hashes.len() < identity_hashes.len(),
        "Bucketed abstraction should produce fewer unique hashes ({}) than identity ({})",
        bucketed_hashes.len(),
        identity_hashes.len(),
    );
}

#[test]
fn test_card_aware_bucketed_abstraction() {
    let db = sample::build_sample_db();
    let mut state = setup_test_state();
    state.create_card_in_zone(sample::ids::LIGHTNING_BOLT, 0, ZoneType::Hand);
    state.create_card_in_zone(sample::ids::MOUNTAIN, 0, ZoneType::Hand);
    state.create_card_in_zone(sample::ids::GREY_OGRE, 0, ZoneType::Battlefield);
    state.active_player = 0;
    state.priority_player = 0;
    state.phase = Phase::PreCombatMain;

    let view = state.visible_state(0);
    let info_set = InformationSet::from_view(&view, state.card_db());

    let card_aware = CardAwareBucketedAbstraction { card_db: &db };
    let hash = card_aware.abstract_info_set(&info_set);
    assert_eq!(hash, card_aware.abstract_info_set(&info_set));
}

#[test]
fn test_life_bucket_values() {
    assert_eq!(BucketedAbstraction::life_bucket(0), 0);
    assert_eq!(BucketedAbstraction::life_bucket(-5), 0);
    assert_eq!(BucketedAbstraction::life_bucket(1), 1);
    assert_eq!(BucketedAbstraction::life_bucket(5), 1);
    assert_eq!(BucketedAbstraction::life_bucket(6), 2);
    assert_eq!(BucketedAbstraction::life_bucket(10), 2);
    assert_eq!(BucketedAbstraction::life_bucket(11), 3);
    assert_eq!(BucketedAbstraction::life_bucket(15), 3);
    assert_eq!(BucketedAbstraction::life_bucket(16), 4);
    assert_eq!(BucketedAbstraction::life_bucket(20), 4);
    assert_eq!(BucketedAbstraction::life_bucket(21), 5);
    assert_eq!(BucketedAbstraction::life_bucket(25), 5);
    assert_eq!(BucketedAbstraction::life_bucket(30), 6);
    assert_eq!(BucketedAbstraction::life_bucket(35), 7);
    assert_eq!(BucketedAbstraction::life_bucket(40), 8);
    assert_eq!(BucketedAbstraction::life_bucket(100), 9);
}

#[test]
fn test_turn_bucket_values() {
    assert_eq!(BucketedAbstraction::turn_bucket(1), 0);
    assert_eq!(BucketedAbstraction::turn_bucket(3), 0);
    assert_eq!(BucketedAbstraction::turn_bucket(4), 1);
    assert_eq!(BucketedAbstraction::turn_bucket(6), 1);
    assert_eq!(BucketedAbstraction::turn_bucket(7), 2);
    assert_eq!(BucketedAbstraction::turn_bucket(100), 2);
}

#[test]
fn hand_order_does_not_change_info_set() {
    let mut state1 = setup_test_state();
    state1.create_card_in_zone(sample::ids::LIGHTNING_BOLT, 0, ZoneType::Hand);
    state1.create_card_in_zone(sample::ids::GREY_OGRE, 0, ZoneType::Hand);
    let mut state2 = setup_test_state();
    state2.create_card_in_zone(sample::ids::GREY_OGRE, 0, ZoneType::Hand);
    state2.create_card_in_zone(sample::ids::LIGHTNING_BOLT, 0, ZoneType::Hand);
    let info1 = info_of(&state1);
    let info2 = info_of(&state2);
    assert_eq!(info1.my_hand, vec![sample::ids::LIGHTNING_BOLT, sample::ids::GREY_OGRE]);
    assert_eq!(info1.my_hand, info2.my_hand);
    assert_eq!(info1.hash_value(), info2.hash_value());
}

#[test]
fn opponent_library_and_hand_are_counted_not_shown() {
    let mut state = setup_test_state();
    state.create_card_in_zone(sample::ids::GREY_OGRE, 1, ZoneType::Hand);
    let info = info_of(&state);
    assert_eq!(info.opp_hand_size, 1);
    assert_eq!(info.opp_library_size, 20);
    assert!(info.my_hand.is_empty());
}

#[test]
fn mana_pool_is_recorded_per_color() {
    let mut state = setup_test_state();
    state.players[0].mana_pool.red = 2;
    state.players[0].mana_pool.colorless = 1;
    let info = info_of(&state);
    assert_eq!(info.my_mana, [0, 0, 0, 2, 0, 1]);
}

#[test]
fn goldfish_ignores_opponent_hand_but_not_life_bucket() {
    let goldfish = GoldfishBucketedAbstraction;
    let state1 = setup_test_state();
    let mut state2 = setup_test_state();
    state2.create_card_in_zone(sample::ids::GREY_OGRE, 1, ZoneType::Hand);
    assert_eq!(
        goldfish.abstract_info_set(&info_of(&state1)),
        goldfish.abstract_info_set(&info_of(&state2))
    );
    let mut state3 = setup_test_state();
    state3.players[1].life = 3;
    assert_ne!(
        goldfish.abstract_info_set(&info_of(&state1)),
        goldfish.abstract_info_set(&info_of(&state3))
    );
}

#[test]
fn goldfish_phase_buckets() {
    assert_eq!(GoldfishBucketedAbstraction::phase_bucket(3), 0);
    assert_eq!(GoldfishBucketedAbstraction::phase_bucket(10), 0);
    assert_eq!(GoldfishBucketedAbstraction::phase_bucket(4), 1);
    assert_eq!(GoldfishBucketedAbstraction::phase_bucket(9), 1);
    assert_eq!(GoldfishBucketedAbstraction::phase_bucket(0), 2);
    assert_eq!(GoldfishBucketedAbstraction::phase_bucket(13), 2);
}

#[test]
fn card_aware_hand_and_board_stats() {
    let db = sample::build_sample_db();
    let hand = vec![
        sample::ids::LIGHTNING_BOLT,
        sample::ids::MOUNTAIN,
        sample::ids::GREY_OGRE,
        999,
    ];
    let hc = CardAwareBucketedAbstraction::hand_categories(&hand, &db);
    assert_eq!(hc.lands, 1);
    assert_eq!(hc.cheap, 1);
    assert_eq!(hc.expensive, 1);
    assert_eq!(hc.removal, 1);

    let mut state = setup_test_state();
    state.create_card_in_zone(sample::ids::GREY_OGRE, 0, ZoneType::Battlefield);
    state.create_card_in_zone(sample::ids::MOUNTAIN, 0, ZoneType::Battlefield);
    let info = info_of(&state);
    let mine = CardAwareBucketedAbstraction::board_stats(&info.battlefield, 0, &db);
    assert_eq!(mine.creature_count, 1);
    assert_eq!(mine.total_power, 2);
    assert_eq!(mine.total_toughness, 2);
    let theirs = CardAwareBucketedAbstraction::board_stats(&info.battlefield, 1, &db);
    assert_eq!(theirs.creature_count, 0);
}

#[test]
fn abstraction_names() {
    assert_eq!(IdentityAbstraction.name(), "Identity");
    assert_eq!(BucketedAbstraction.name(), "Bucketed");
    assert_eq!(GoldfishBucketedAbstraction.name(), "GoldfishBucketed");
}

#[test]
fn multi_phase_uses_fine_in_main_phases_and_coarse_elsewhere() {
    let mut state = setup_test_state();
    state.active_player = 0;
    state.priority_player = 0;
    let identity = IdentityAbstraction;
    let bucketed = BucketedAbstraction;
    let multi = MultiPhaseAbstraction { fine: &identity, coarse: &bucketed };
    assert_eq!(multi.name(), "MultiPhase");

    state.phase = Phase::PreCombatMain;
    let main_info = info_of(&state);
    assert_eq!(multi.abstract_info_set(&main_info), identity.abstract_info_set(&main_info));

    state.phase = Phase::Upkeep;
    let upkeep_info = info_of(&state);
    assert!(upkeep_info.phase < 3);
    assert_eq!(multi.abstract_info_set(&upkeep_info), bucketed.abstract_info_set(&upkeep_info));
    assert_ne!(multi.abstract_info_set(&upkeep_info), identity.abstract_info_set(&upkeep_info));
}
