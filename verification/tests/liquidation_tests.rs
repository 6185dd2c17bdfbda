use bolt_hedger::model::liquidation_level::{Level, LiquidationLevel, Side};

#[test]
fn levels_are_stored_under_the_whole_price() {
    let mut l = LiquidationLevel::new("BTCUSDT");
    assert_eq!(l.symbol, "BTCUSDT");
    l.add_level(Level::new(6_543_210_000_000, 5, Side::SELL, 1));
    assert!(l.levels.contains_key(&65432));
    assert_eq!(l.get_level(65432).unwrap().price, 6_543_210_000_000);
    assert_eq!(l.get_level(65432).unwrap().side, Side::SELL);
    assert!(l.get_level(65433).is_none());
    l.remove_level(65432);
    assert!(l.get_level(65432).is_none());
}

#[test]
fn huge_prices_share_the_largest_key_and_lookups_wrap() {
    let mut l = LiquidationLevel::new("X");
    l.add_level(Level::new(u64::MAX, 1, Side::BUY, 0));
    assert!(l.levels.contains_key(&u32::MAX));
    // a time stamp is read by its low 32 bits
    assert!(l.get_level(-1).is_some());
    assert!(l.get_level((1i64 << 32) + 7).is_none());
    l.add_level(Level::new(700_000_000, 1, Side::BUY, 0));
    assert!(l.get_level((1i64 << 32) + 7).is_some());
}
