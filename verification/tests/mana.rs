use mtg_gto::mana::{Color, ManaCost, ManaPool};

#[test]
fn test_mana_cost_parse() {
    let cost = ManaCost::parse("{2}{W}{U}").unwrap();
    assert_eq!(cost.generic, 2);
    assert_eq!(cost.white, 1);
    assert_eq!(cost.blue, 1);
    assert_eq!(cost.cmc(), 4);
}

#[test]
fn test_mana_pool_can_pay() {
    let mut pool = ManaPool::empty();
    pool.white = 2;
    pool.blue = 1;
    pool.red = 1;

    let cost = ManaCost::new(1, 1, 1, 0, 0, 0);
    assert!(pool.can_pay(&cost));

    let cost2 = ManaCost::new(0, 3, 0, 0, 0, 0);
    assert!(!pool.can_pay(&cost2));
}

#[test]
fn test_mana_pool_pay() {
    let mut pool = ManaPool::empty();
    pool.white = 2;
    pool.blue = 1;
    pool.red = 1;

    let cost = ManaCost::new(1, 1, 1, 0, 0, 0);
    assert!(pool.pay(&cost));
    assert_eq!(pool.white, 0);
    assert_eq!(pool.blue, 0);
    assert_eq!(pool.red, 1);
}

#[test]
fn parse_hybrid_and_unknown_symbols() {
    let cost = ManaCost::parse("{X}{R}{R}").unwrap();
    assert_eq!(cost.generic, 0);
    assert_eq!(cost.red, 2);
    assert_eq!(cost.cmc(), 2);
    let empty = ManaCost::parse("").unwrap();
    assert_eq!(empty.cmc(), 0);
}

#[test]
fn failed_payment_leaves_pool_unchanged() {
    let mut pool = ManaPool::empty();
    pool.green = 1;
    let cost = ManaCost::new(1, 0, 0, 0, 0, 1);
    assert!(!pool.pay(&cost));
    assert_eq!(pool.green, 1);
    assert_eq!(pool.total(), 1);
}

#[test]
fn pay_removes_exactly_the_mana_value() {
    let mut pool = ManaPool::empty();
    pool.add_color(Color::Green, 3);
    pool.colorless = 2;
    let before = pool.total();
    let cost = ManaCost::new(2, 0, 0, 0, 0, 1);
    assert!(pool.pay(&cost));
    assert_eq!(pool.total(), before - cost.cmc());
}

#[test]
fn drain_empties_pool() {
    let mut pool = ManaPool::empty();
    pool.add_color(Color::Blue, 4);
    pool.drain();
    assert_eq!(pool.total(), 0);
}

#[test]
fn colors_and_symbols() {
    let cost = ManaCost::new(1, 0, 1, 0, 1, 0);
    assert_eq!(cost.colors(), vec![Color::Blue, Color::Red]);
    assert_eq!(Color::White.symbol(), 'W');
    assert_eq!(Color::all().len(), 5);
    assert_eq!(cost.color_amount(Color::Red), 1);
}

#[test]
fn mana_cost_text() {
    assert_eq!(ManaCost::new(2, 1, 1, 0, 0, 0).to_text(), "{2}{W}{U}");
    assert_eq!(ManaCost::new(0, 0, 0, 0, 0, 0).to_text(), "{0}");
    assert_eq!(ManaCost::new(0, 0, 0, 0, 1, 0).to_text(), "{R}");
    assert_eq!(ManaCost::new(12, 0, 0, 2, 0, 1).to_text(), "{12}{B}{B}{G}");
    let parsed = ManaCost::parse("{3}{G}{G}").unwrap();
    assert_eq!(parsed.to_text(), "{3}{G}{G}");
}

#[test]
fn pools_combine_componentwise() {
    let mut a = ManaPool::empty();
    a.add_color(Color::Red, 2);
    a.colorless = 1;
    let mut b = ManaPool::empty();
    b.add_color(Color::Red, 1);
    b.add_color(Color::Green, 3);
    let c = a.combined(b);
    assert_eq!(c.red, 3);
    assert_eq!(c.green, 3);
    assert_eq!(c.colorless, 1);
    assert_eq!(c.white, 0);
    a.absorb(b);
    assert_eq!(a, c);
}

#[test]
fn checked_parse_refuses_overflowing_totals() {
    let c = ManaCost::parse_checked("{2}{W}").unwrap();
    assert_eq!(c, ManaCost::new(2, 1, 0, 0, 0, 0));
    assert_eq!(ManaCost::parse_checked("{4294967295}").unwrap().generic, u32::MAX);
    assert!(ManaCost::parse_checked("{4294967295}{1}").is_none());
    assert!(ManaCost::parse_checked("{4294967295}{X}{R}").is_some());
}

#[test]
fn cost_text_parses_back() {
    for c in [
        ManaCost::new(0, 0, 0, 0, 0, 0),
        ManaCost::new(2, 1, 1, 0, 0, 0),
        ManaCost::new(0, 0, 0, 3, 0, 0),
        ManaCost::new(15, 1, 2, 0, 1, 2),
    ] {
        assert_eq!(ManaCost::parse(&c.to_text()), Some(c));
    }
}
