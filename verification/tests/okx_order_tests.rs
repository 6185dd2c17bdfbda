use bolt_hedger::model::okx_order::{ExchangeOrder, OrderSide, OrderState, OrderType, PosSide};
use bolt_hedger::model::okx_ticker::okx_ticker;

fn order() -> ExchangeOrder {
    ExchangeOrder::new("okx", "hedge", "m1", "BTC-USDT-SWAP", 100, 10, OrderSide::Buy, OrderType::Limit, false)
}

#[test]
fn new_order_is_live_and_unfilled() {
    let o = order();
    assert_eq!(o.ref_id.len(), 36);
    assert_eq!(o.ref_id.matches('-').count(), 4);
    let c: Vec<char> = o.ref_id.chars().collect();
    assert_eq!((c[8], c[13], c[18], c[23]), ('-', '-', '-', '-'));
    assert_eq!(c[14], '4');
    assert!("89ab".contains(c[19]));
    assert!(o.ref_id.chars().all(|x| x == '-' || x.is_ascii_digit() || ('a'..='f').contains(&x)));
    assert_eq!(o.trading_mode, "cross");
    assert_eq!(o.order_id, "");
    assert_eq!(o.order_state, OrderState::Live);
    assert_eq!(o.pos_side, PosSide::Net);
    assert!(!o.is_live && !o.is_filled);
    assert_eq!(o.updated_ts, None);
    assert!(o.created_ts > 1_600_000_000_000);
    assert_ne!(order().ref_id, o.ref_id);
}

#[test]
fn order_fills_when_filled_size_reaches_size() {
    let mut o = order();
    assert!(!o.is_fully_filled());
    o.update_fill_size(10, 101);
    assert!(o.updated_ts.is_some());
    assert_eq!(o.fill_price, 101);
    assert!(o.is_fully_filled());
    assert!(o.is_filled);
    assert_eq!(o.order_state, OrderState::Filled);
}

#[test]
fn resizing_to_the_filled_size_fills() {
    let mut o = order();
    o.update_fill_size(4, 100);
    o.update_order_size(5);
    assert!(!o.is_filled);
    o.update_order_size(4);
    assert!(o.is_filled);
    o.set_state(OrderState::Live);
    assert_eq!(o.order_state, OrderState::Live);
    o.update_order_price(7);
    o.update_order_price_size(8, 9);
    assert_eq!((o.price, o.size), (8, 9));
}

#[test]
fn ticker_holds_its_fields() {
    let t = okx_ticker::new(1, 2, 3, 4, 5, "BTC-USDT".to_string(), "SPOT".to_string(), 6, 7, 8, 9, 10, 11, 12, 13, 14);
    assert_eq!((t.ask_px, t.ask_sz, t.bid_px, t.bid_sz, t.high24h), (1, 2, 3, 4, 5));
    assert_eq!(t.inst_id, "BTC-USDT");
    assert_eq!(t.inst_type, "SPOT");
    assert_eq!((t.last, t.last_sz, t.low24h, t.open24h, t.sod_utc0, t.sod_utc8), (6, 7, 8, 9, 10, 11));
    assert_eq!((t.ts, t.vol24h, t.vol_ccy24h), (12, 13, 14));
}
