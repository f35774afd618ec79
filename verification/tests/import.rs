use mtg_gto::card::sample;
use mtg_gto::card::{CardDatabase, CardDef};
use mtg_gto::scryfall::import::{DeckImport, ImportStep};
use mtg_gto::scryfall::{printed_cost_fits_check, ScryfallCard, ScryfallCardFace, ScryfallError, ScryfallFetcher};
use mtg_gto::solver::{McfrConfig, RolloutMode};

fn def_named(id: u64, name: &str) -> CardDef {
    let db: CardDatabase = sample::build_sample_db();
    let mut d = db.into_named("Grey Ogre").unwrap();
    d.id = id;
    d.name = name.to_string();
    d
}

fn fetch_name(imp: &mut DeckImport) -> Option<String> {
    match imp.advance() {
        ImportStep::Fetch(n) => Some(n),
        ImportStep::Done => None,
    }
}

#[test]
fn sample_definitions_by_name() {
    let bolt = sample::build_sample_db().into_named("Lightning Bolt").unwrap();
    assert_eq!(bolt.id, sample::ids::LIGHTNING_BOLT);
    assert_eq!(bolt.name, "Lightning Bolt");
    assert!(sample::build_sample_db().into_named("Black Lotus").is_none());
    assert!(sample::build_sample_db().into_named("lightning bolt").is_none());
}

#[test]
fn scryfall_error_texts() {
    assert_eq!(ScryfallError::Network("timeout".to_string()).message(), "Scryfall network error: timeout");
    assert_eq!(ScryfallError::NotFound("Foo".to_string()).message(), "card not found on Scryfall: 'Foo'");
    assert_eq!(ScryfallError::Parse("eof".to_string()).message(), "Scryfall JSON parse error: eof");
    assert_eq!(ScryfallError::Io("denied".to_string()).message(), "Scryfall cache I/O error: denied");
}

#[test]
fn fetched_cards_get_consecutive_ids() {
    let card = ScryfallCard {
        name: "Shock".to_string(),
        mana_cost: Some("{R}".to_string()),
        type_line: Some("Instant".to_string()),
        oracle_text: Some("Shock deals 2 damage to any target.".to_string()),
        power: None,
        toughness: None,
        keywords: vec![],
        loyalty: None,
        colors: vec!["R".to_string()],
        color_identity: vec!["R".to_string()],
        layout: Some("normal".to_string()),
        card_faces: None,
        legalities: None,
    };
    let mut f = ScryfallFetcher::new("cache");
    let a = f.convert_fetched(&card);
    let b = f.convert_fetched(&card);
    assert_eq!(a.id, 10_000);
    assert_eq!(b.id, 10_001);
    assert_eq!(a.name, "Shock");
    assert_eq!(f.next_card_id, 10_002);
    assert_eq!(f.cache_dir, "cache");
}

#[test]
fn deck_import_asks_for_each_name_once() {
    let text = "~~Commanders~~\n1 Krenko\n\n~~Mainboard~~\n2 Mountain\n1 Fire // Ice\n3 Mountain\n1 Missing Card\n";
    let mut imp = DeckImport::new(text);
    assert_eq!(fetch_name(&mut imp).as_deref(), Some("Krenko"));
    imp.supply(Ok(def_named(500, "Krenko")));
    assert_eq!(fetch_name(&mut imp).as_deref(), Some("Mountain"));
    imp.supply(Ok(def_named(1, "Mountain")));
    assert_eq!(fetch_name(&mut imp).as_deref(), Some("Fire"));
    imp.supply(Ok(def_named(501, "Fire")));
    // The second Mountain line is already resolved.
    assert_eq!(fetch_name(&mut imp).as_deref(), Some("Missing Card"));
    imp.supply(Err("card not found on Scryfall: 'Missing Card'".to_string()));
    assert_eq!(fetch_name(&mut imp), None);
    let result = imp.finish();
    assert_eq!(result.deck, vec![500, 1, 1, 501, 1, 1, 1]);
    assert_eq!(result.commander_id, Some(500));
    assert_eq!(result.errors, vec!["Missing Card: card not found on Scryfall: 'Missing Card'".to_string()]);
    assert_eq!(result.db.get(501).unwrap().name, "Fire // Ice");
    assert_eq!(result.db.get(1).unwrap().name, "Mountain");
    assert!(result.db.get(2).is_none());
}

#[test]
fn deck_import_of_empty_text_is_done() {
    let mut imp = DeckImport::new("// nothing here\n\n");
    assert!(matches!(imp.advance(), ImportStep::Done));
    let result = imp.finish();
    assert!(result.deck.is_empty());
    assert!(result.commander_id.is_none());
}

#[test]
fn solver_configuration_defaults() {
    let c = McfrConfig::default();
    assert_eq!(c.max_depth, 0);
    assert_eq!(c.max_actions, 10_000);
    let m = RolloutMode::Strategy { max_rollout_actions: 50 };
    assert!(matches!(m, RolloutMode::Strategy { max_rollout_actions: 50 }));
    assert!(matches!(RolloutMode::Heuristic, RolloutMode::Heuristic));
}

#[test]
fn printed_cost_check_reads_the_front_face() {
    let face = |cost: Option<&str>| ScryfallCardFace {
        name: "Front".to_string(),
        mana_cost: cost.map(|c| c.to_string()),
        type_line: None,
        oracle_text: None,
        power: None,
        toughness: None,
        keywords: vec![],
        loyalty: None,
        colors: vec![],
    };
    let mut card = ScryfallCard {
        name: "Front // Back".to_string(),
        mana_cost: Some("{4294967295}{4294967295}".to_string()),
        type_line: None,
        oracle_text: None,
        power: None,
        toughness: None,
        keywords: vec![],
        loyalty: None,
        colors: vec![],
        color_identity: vec![],
        layout: None,
        card_faces: Some(vec![face(Some("{1}{U}"))]),
        legalities: None,
    };
    assert!(printed_cost_fits_check(&card));
    card.card_faces = Some(vec![face(None)]);
    assert!(!printed_cost_fits_check(&card));
    card.card_faces = None;
    card.mana_cost = None;
    assert!(printed_cost_fits_check(&card));
}

#[test]
fn fetcher_finds_sample_cards_first() {
    let f = ScryfallFetcher::new("cache");
    let ogre = f.lookup_sample_db("Grey Ogre").unwrap();
    assert_eq!(ogre.id, sample::ids::GREY_OGRE);
    assert_eq!(ogre.power, Some(2));
    assert!(f.lookup_sample_db("Sol Ring").is_none());
}
