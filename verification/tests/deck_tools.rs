use mtg_gto::card::sample;
use mtg_gto::moxfield::import::MoxfieldImport;
use mtg_gto::scryfall::import::ImportStep;
use mtg_gto::card::{CardType, KeywordAbility, ManaAbility, Supertype};
use mtg_gto::mana::Color;
use mtg_gto::moxfield::{
    build_deck_text, extract_deck_id, front_face_name, import_entries, sanitize_name, DeckAssembly,
    MoxfieldCard, MoxfieldCardEntry, MoxfieldDeckResponse, MoxfieldError,
};
use mtg_gto::scryfall::{
    cache_filename, parse_cost_reduction, parse_deck_lines, parse_keywords, parse_land_mana_abilities,
    parse_type_line, scryfall_to_card_def, urlencode, ScryfallCard, ScryfallFetcher,
};
use mtg_gto::setup::{validate_commander_deck, validate_commander_deck_with_partner};

fn entry(q: u32, name: &str) -> MoxfieldCardEntry {
    MoxfieldCardEntry { quantity: q, card: MoxfieldCard { name: name.to_string() } }
}

#[test]
fn deck_id_from_url_and_bare_id() {
    match extract_deck_id("https://moxfield.com/decks/JHjwO92ZUEyNdPzE7D5d7A") {
        Ok(id) => assert_eq!(id, "JHjwO92ZUEyNdPzE7D5d7A"),
        Err(_) => panic!("expected an id"),
    }
    match extract_deck_id("  https://www.moxfield.com/decks/abc123/primer ") {
        Ok(id) => assert_eq!(id, "abc123"),
        Err(_) => panic!("expected an id"),
    }
    match extract_deck_id("XYZ") {
        Ok(id) => assert_eq!(id, "XYZ"),
        Err(_) => panic!("expected an id"),
    }
    assert!(matches!(extract_deck_id("   "), Err(MoxfieldError::InvalidUrl(m)) if m == "empty input"));
    assert!(matches!(extract_deck_id("moxfield.com/decks/"), Err(MoxfieldError::InvalidUrl(_))));
}

#[test]
fn sanitize_deck_names() {
    assert_eq!(sanitize_name("My Cool  Deck"), "my-cool-deck");
    assert_eq!(sanitize_name("  Atraxa's Deck!! "), "atraxas-deck");
    assert_eq!(sanitize_name("--A--B--"), "a-b");
}

#[test]
fn deck_text_sorted_sections() {
    let deck = MoxfieldDeckResponse {
        name: "Test".to_string(),
        commanders: vec![entry(1, "Zur")],
        mainboard: vec![entry(2, "Island"), entry(1, "Brainstorm")],
    };
    assert_eq!(build_deck_text(&deck), "~~Commanders~~\n1 Zur\n\n~~Mainboard~~\n1 Brainstorm\n2 Island\n");
    let entries = import_entries(&deck);
    assert_eq!(entries.len(), 3);
    assert_eq!(entries[0].name, "Zur");
    assert!(entries[0].is_commander);
    assert_eq!(entries[1].name, "Brainstorm");
    assert_eq!(entries[2].quantity, 2);
}

#[test]
fn import_entries_skip_repeated_names() {
    let deck = MoxfieldDeckResponse {
        name: "Dup".to_string(),
        commanders: vec![entry(1, "Atraxa")],
        mainboard: vec![entry(1, "Atraxa"), entry(1, "Sol Ring")],
    };
    let entries = import_entries(&deck);
    assert_eq!(entries.len(), 2);
    assert!(entries[0].is_commander);
    assert_eq!(entries[1].name, "Sol Ring");
}

#[test]
fn deck_assembly_resolves_and_records() {
    let db = sample::build_sample_db();
    let mut assembly = DeckAssembly::new();
    assert_eq!(assembly.known_id("Mountain", &db), Some(sample::ids::MOUNTAIN));
    assert_eq!(assembly.known_id("Sol Ring", &db), None);
    assembly.add_card("Sol Ring", 10_000, 1, false);
    assembly.add_card("Mountain", sample::ids::MOUNTAIN, 3, false);
    assembly.add_card("Zur", 10_001, 1, true);
    assert_eq!(assembly.known_id("Sol Ring", &db), Some(10_000));
    assert_eq!(assembly.deck, vec![10_000, 1, 1, 1, 10_001]);
    assert_eq!(assembly.commander_id, Some(10_001));
    assembly.add_error("Missing Card", "not found");
    assert_eq!(assembly.errors, vec!["Missing Card: not found".to_string()]);
    assert_eq!(front_face_name("Delver of Secrets // Insectile Aberration"), "Delver of Secrets");
    assert_eq!(front_face_name("Opt"), "Opt");
}

#[test]
fn commander_deck_validation() {
    let mut db = sample::build_sample_db();
    let mut legend = db.get(sample::ids::GREY_OGRE).unwrap().clone();
    legend.id = 300;
    legend.name = "Ogre Lord".to_string();
    legend.supertypes = vec![Supertype::Legendary];
    db.insert(legend);
    let mut deck = vec![300];
    for _ in 0..99 {
        deck.push(sample::ids::MOUNTAIN);
    }
    assert_eq!(validate_commander_deck(&db, &deck, 300), Ok(()));
    let short = vec![300];
    assert_eq!(
        validate_commander_deck(&db, &short, 300),
        Err("Commander deck must be exactly 100 cards, got 1".to_string())
    );
    assert_eq!(
        validate_commander_deck(&db, &deck, sample::ids::GREY_OGRE),
        Err("Commander card must be included in the deck".to_string())
    );
    let mut bad_color = deck.clone();
    bad_color[1] = sample::ids::LLANOWAR_ELVES;
    assert_eq!(
        validate_commander_deck(&db, &bad_color, 300),
        Err("'Llanowar Elves' has color G which is outside the commander's color identity".to_string())
    );
    let mut dup = deck.clone();
    dup[1] = sample::ids::LIGHTNING_BOLT;
    dup[2] = sample::ids::LIGHTNING_BOLT;
    assert_eq!(
        validate_commander_deck(&db, &dup, 300),
        Err("Commander decks allow only 1 copy of non-basic 'Lightning Bolt', found 2".to_string())
    );
    let mut nonlegend = deck.clone();
    nonlegend[1] = sample::ids::GREY_OGRE;
    assert_eq!(
        validate_commander_deck(&db, &nonlegend, sample::ids::GREY_OGRE),
        Err("Commander 'Grey Ogre' must be a legendary creature".to_string())
    );
    assert_eq!(
        validate_commander_deck_with_partner(&db, &deck, 300, Some(77)),
        Err("Partner commander must be included in the deck".to_string())
    );
    let mut unknown = deck.clone();
    unknown[1] = 555;
    assert_eq!(
        validate_commander_deck(&db, &unknown, 555),
        Err("Commander card ID 555 not found in database".to_string())
    );
}

#[test]
fn type_lines_and_keywords() {
    let (supers, types, subs) = parse_type_line("Legendary Creature \u{2014} Human Soldier");
    assert_eq!(supers, vec![Supertype::Legendary]);
    assert_eq!(types, vec![CardType::Creature]);
    assert_eq!(subs.iter().map(|s| s.0.clone()).collect::<Vec<_>>(), vec!["Human", "Soldier"]);
    let (_, types2, subs2) = parse_type_line("Artifact - Equipment");
    assert_eq!(types2, vec![CardType::Artifact]);
    assert_eq!(subs2.len(), 1);
    let (_, types3, subs3) = parse_type_line("Instant");
    assert_eq!(types3, vec![CardType::Instant]);
    assert!(subs3.is_empty());
    let kws = parse_keywords(&vec!["Flying".to_string(), "Banding".to_string(), "First strike".to_string()]);
    assert_eq!(kws, vec![KeywordAbility::Flying, KeywordAbility::FirstStrike]);
}

#[test]
fn land_mana_from_type_and_text() {
    assert_eq!(
        parse_land_mana_abilities("Land \u{2014} Forest Island", ""),
        vec![ManaAbility::TapForColor(Color::Green), ManaAbility::TapForColor(Color::Blue)]
    );
    assert_eq!(
        parse_land_mana_abilities("Land", "{T}: Add one mana of any color."),
        vec![ManaAbility::TapForAny]
    );
    assert_eq!(
        parse_land_mana_abilities("Land", "{T}: Add {R} or {G}."),
        vec![ManaAbility::TapForColor(Color::Red)]
    );
    assert_eq!(
        parse_land_mana_abilities("Land", "{T}: Add {C}."),
        vec![ManaAbility::TapForColorless]
    );
    assert_eq!(parse_land_mana_abilities("Land", "Flavor only."), vec![]);
}

#[test]
fn reductions_names_and_urls() {
    let r = parse_cost_reduction("Creature spells you cast cost {1} less to cast.").unwrap();
    assert_eq!(r.generic_reduction, 1);
    assert_eq!(r.applies_to, mtg_gto::card::CostReductionTarget::CreatureSpells);
    let r2 = parse_cost_reduction("Spells you cast cost {2} less to cast.").unwrap();
    assert_eq!(r2.generic_reduction, 2);
    assert!(parse_cost_reduction("Draw a card.").is_none());
    assert_eq!(cache_filename("Fire // Ice"), "fire____ice.json");
    assert_eq!(urlencode("Sol Ring"), "Sol+Ring");
    assert_eq!(urlencode("Lim-Dûl's Vault"), "Lim-D%C3%BBl%27s+Vault");
}

#[test]
fn deck_lines_with_sections() {
    let text = "~~Commanders~~\n1 Zur the Enchanter\n\n~~Mainboard~~\n// comment\n3 Island\r\nabc Island\n1 Fire // Ice\n";
    let lines = parse_deck_lines(text);
    assert_eq!(lines.len(), 3);
    assert!(lines[0].is_commander);
    assert_eq!(lines[0].card_name, "Zur the Enchanter");
    assert_eq!(lines[1].quantity, 3);
    assert!(!lines[1].is_commander);
    assert_eq!(lines[1].card_name, "Island");
    assert_eq!(lines[2].lookup_name, "Fire");
    assert_eq!(lines[2].card_name, "Fire // Ice");
}

#[test]
fn scryfall_card_conversion() {
    let card = ScryfallCard {
        name: "Grizzly Bears".to_string(),
        mana_cost: Some("{1}{G}".to_string()),
        type_line: Some("Creature \u{2014} Bear".to_string()),
        oracle_text: Some(String::new()),
        power: Some("2".to_string()),
        toughness: Some("2".to_string()),
        keywords: vec![],
        loyalty: None,
        colors: vec!["G".to_string()],
        color_identity: vec!["G".to_string()],
        layout: Some("normal".to_string()),
        card_faces: None,
        legalities: None,
    };
    let def = scryfall_to_card_def(&card, 10_000);
    assert_eq!(def.id, 10_000);
    assert_eq!(def.name, "Grizzly Bears");
    assert_eq!(def.mana_cost.unwrap().cmc(), 2);
    assert_eq!(def.card_types, vec![CardType::Creature]);
    assert_eq!(def.power, Some(2));
    assert_eq!(def.toughness, Some(2));
    assert!(!def.enters_tapped);
    let mut f = ScryfallFetcher::new("cache");
    assert_eq!(f.allocate_id(), 10_000);
    assert_eq!(f.allocate_id(), 10_001);
    let g = ScryfallFetcher::with_start_id("cache", 5);
    assert_eq!(g.next_card_id, 5);
}

#[test]
fn moxfield_error_texts() {
    assert_eq!(MoxfieldError::InvalidUrl("x".to_string()).message(), "invalid Moxfield URL or ID: x");
    assert_eq!(MoxfieldError::Network("down".to_string()).message(), "network error: down");
    assert_eq!(MoxfieldError::Parse("bad".to_string()).message(), "JSON parse error: bad");
    assert_eq!(MoxfieldError::Io("disk".to_string()).message(), "I/O error: disk");
    let e: MoxfieldError = mtg_gto::scryfall::ScryfallError::NotFound("Foo".to_string()).into();
    assert_eq!(e.message(), "Scryfall error: card not found on Scryfall: 'Foo'");
}

#[test]
fn moxfield_import_resolves_sample_cards_and_asks_for_the_rest() {
    let deck = MoxfieldDeckResponse {
        name: "Test".to_string(),
        commanders: vec![entry(1, "Zur the Enchanter")],
        mainboard: vec![entry(3, "Mountain"), entry(1, "Fire // Ice"), entry(1, "Missing")],
    };
    let mut import = MoxfieldImport::new(&deck, sample::build_sample_db(), sample::build_sample_db());
    let ask = |s: ImportStep| match s {
        ImportStep::Fetch(n) => Some(n),
        ImportStep::Done => None,
    };
    assert_eq!(ask(import.advance()).as_deref(), Some("Zur the Enchanter"));
    let mut zur = sample::build_sample_db().into_named("Grey Ogre").unwrap();
    zur.id = 500;
    zur.name = "Zur the Enchanter".to_string();
    import.supply(Ok(zur));
    // "Fire // Ice" sorts before "Missing" and "Mountain".
    assert_eq!(ask(import.advance()).as_deref(), Some("Fire"));
    import.supply(Err("network error".to_string()));
    assert_eq!(ask(import.advance()).as_deref(), Some("Missing"));
    import.supply(Err("not found".to_string()));
    assert_eq!(ask(import.advance()), None);
    assert_eq!(import.assembly.deck, vec![500, sample::ids::MOUNTAIN, sample::ids::MOUNTAIN, sample::ids::MOUNTAIN]);
    assert_eq!(import.assembly.commander_id, Some(500));
    assert_eq!(import.assembly.errors, vec!["Fire // Ice: network error".to_string(), "Missing: not found".to_string()]);
    assert_eq!(import.extra_ids, vec![500]);
    assert_eq!(import.merged_db.get(500).unwrap().name, "Zur the Enchanter");
}
