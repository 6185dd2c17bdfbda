use bolt_hedger::model::orderbook::{OrderBook, OrderBookLevel, OrderBooks};

const ONE: u64 = 100_000_000;

fn lv(price: u64, quantity: u64) -> OrderBookLevel {
    OrderBookLevel::new(price, quantity)
}

#[test]
fn level_strings_have_eight_decimals() {
    let l = lv(6_543_210_000_000, 150_000_000);
    assert_eq!(l.price_string, "65432.10000000");
    assert_eq!(l.quantity_string, "1.50000000");
    let z = lv(0, 1);
    assert_eq!(z.price_string, "0.00000000");
    assert_eq!(z.quantity_string, "0.00000001");
}

#[test]
fn levels_compare_by_price_only() {
    let a = lv(100, 1);
    let b = lv(100, 2);
    let c = lv(200, 1);
    assert!(a == b);
    assert!(a < c);
    assert!(c > b);
    assert_eq!(a.partial_cmp(&c), Some(std::cmp::Ordering::Less));
}

#[test]
fn snapshot_sorts_bids_highest_first() {
    let mut b = OrderBook::new("BTC-USDT".to_string());
    b.set_bids_on_snapshot(vec![lv(100, 1), lv(300, 1), lv(200, 1)]);
    assert_eq!(b.best_bid().unwrap().price, 300);
    assert_eq!(b.bid_by_level(2).unwrap().price, 200);
    assert_eq!(b.bid_by_level(3).unwrap().price, 100);
}

#[test]
fn snapshot_sorts_asks_lowest_first() {
    let mut b = OrderBook::new("BTC-USDT".to_string());
    b.set_asks_on_snapshot(vec![lv(300, 1), lv(100, 1), lv(200, 1)]);
    assert_eq!(b.best_ask().unwrap().price, 100);
    assert_eq!(b.ask_by_level(2).unwrap().price, 200);
    assert_eq!(b.ask_by_level(3).unwrap().price, 300);
}

#[test]
fn snapshot_keeps_equal_prices_in_given_order() {
    let mut b = OrderBook::new("X".to_string());
    b.set_bids_on_snapshot(vec![lv(100, 1), lv(200, 9), lv(100, 2), lv(100, 3)]);
    assert_eq!(b.bid_by_level(1).unwrap().quantity, 9);
    assert_eq!(b.bid_by_level(2).unwrap().quantity, 1);
    assert_eq!(b.bid_by_level(3).unwrap().quantity, 2);
    assert_eq!(b.bid_by_level(4).unwrap().quantity, 3);
}

#[test]
fn bid_update_appends_inserts_replaces_and_removes() {
    let mut b = OrderBook::new("X".to_string());
    b.set_bids_on_snapshot(vec![lv(300, 1), lv(200, 1)]);
    // worse than the worst: appended
    b.set_bids_on_update(lv(100, 5));
    assert_eq!(b.bid_by_level(3).unwrap().price, 100);
    // between levels: inserted
    b.set_bids_on_update(lv(250, 4));
    assert_eq!(b.bid_by_level(2).unwrap().price, 250);
    assert_eq!(b.bid_by_level(3).unwrap().price, 200);
    // better than the best: inserted first
    b.set_bids_on_update(lv(400, 7));
    assert_eq!(b.best_bid().unwrap().price, 400);
    // same price: replaced
    b.set_bids_on_update(lv(200, 9));
    assert_eq!(b.bid_by_level(4).unwrap().quantity, 9);
    // same price, zero quantity: removed
    b.set_bids_on_update(lv(250, 0));
    assert_eq!(b.bid_by_level(2).unwrap().price, 300);
    assert_eq!(b.bid_by_level(3).unwrap().price, 200);
    assert_eq!(b.bid_by_level(4).unwrap().price, 100);
    assert_eq!(b.bid_by_level(5).unwrap().price, 100);
}

#[test]
fn ask_update_appends_inserts_replaces_and_removes() {
    let mut b = OrderBook::new("X".to_string());
    b.set_asks_on_update(lv(200, 1));
    b.set_asks_on_update(lv(300, 1));
    b.set_asks_on_update(lv(100, 1));
    assert_eq!(b.ask_by_level(1).unwrap().price, 100);
    assert_eq!(b.ask_by_level(2).unwrap().price, 200);
    assert_eq!(b.ask_by_level(3).unwrap().price, 300);
    b.set_asks_on_update(lv(200, 8));
    assert_eq!(b.ask_by_level(2).unwrap().quantity, 8);
    b.set_asks_on_update(lv(100, 0));
    assert_eq!(b.best_ask().unwrap().price, 200);
}

#[test]
fn zero_quantity_at_a_new_price_is_kept_as_a_level() {
    let mut b = OrderBook::new("X".to_string());
    b.set_bids_on_snapshot(vec![lv(300, 1)]);
    b.set_bids_on_update(lv(100, 0));
    assert_eq!(b.bid_by_level(2).unwrap().price, 100);
    assert_eq!(b.bid_by_level(2).unwrap().quantity, 0);
}

#[test]
fn empty_side_gives_the_book_message() {
    let b = OrderBook::new("ETH-USDT".to_string());
    let expected = "Orderbook for ETH-USDT: either bids or asks array not initiated.".to_string();
    assert_eq!(b.best_bid().unwrap_err(), expected);
    assert_eq!(b.best_ask().unwrap_err(), expected);
    assert_eq!(b.best_bid_price().unwrap_err(), expected);
    assert_eq!(b.best_ask_price().unwrap_err(), expected);
    assert_eq!(b.bid_by_level(1).unwrap_err(), expected);
    assert_eq!(b.ask_by_level(3).unwrap_err(), expected);
}

#[test]
fn depth_is_clamped_to_the_levels_present() {
    let mut b = OrderBook::new("X".to_string());
    b.set_bids_on_snapshot(vec![lv(100, 1), lv(300, 1), lv(200, 1)]);
    assert_eq!(b.bid_by_level(0).unwrap().price, 300);
    assert_eq!(b.bid_by_level(99).unwrap().price, 100);
    assert_eq!(b.best_bid_price().unwrap(), 300);
}

#[test]
fn checksum_matches_the_crc_of_the_interleaved_levels() {
    let mut b = OrderBook::new("X".to_string());
    b.set_bids_on_snapshot(vec![lv(100 * ONE, ONE), lv(99 * ONE, 3 * ONE)]);
    b.set_asks_on_snapshot(vec![lv(101 * ONE, 2 * ONE)]);
    // no checksum from the exchange: taken as matching
    assert!(b.do_check_sum());
    b.set_exch_check_sum(161430578);
    assert!(b.do_check_sum());
    b.set_exch_check_sum(161430579);
    assert!(!b.do_check_sum());
}

#[test]
fn checksum_covers_at_most_25_levels() {
    let mut b = OrderBook::new("X".to_string());
    let bids: Vec<OrderBookLevel> = (0..30).map(|i| lv(10000 - i, 1)).collect();
    let asks: Vec<OrderBookLevel> = (0..30).map(|i| lv(10001 + i, 2)).collect();
    b.set_bids_on_snapshot(bids);
    b.set_asks_on_snapshot(asks);
    b.set_exch_check_sum(1277735654);
    assert!(b.do_check_sum());
}

#[test]
fn checksum_with_sides_of_different_depth() {
    let mut b = OrderBook::new("X".to_string());
    b.set_bids_on_snapshot(vec![lv(300, 5), lv(200, 7)]);
    b.set_asks_on_snapshot(vec![lv(400, 6)]);
    b.set_exch_check_sum(367727661);
    assert!(b.do_check_sum());
}

#[test]
fn timestamp_and_checksum_are_recorded() {
    let mut b = OrderBook::new("X".to_string());
    assert_eq!(b.timestamp, 0);
    assert_eq!(b.exch_check_sum, 0);
    b.set_timestamp(1_700_000_000_000);
    b.set_exch_check_sum(-5);
    assert_eq!(b.timestamp, 1_700_000_000_000);
    assert_eq!(b.exch_check_sum, -5);
    assert_eq!(b.inst_id, "X");
}

#[test]
fn books_register_once_per_instrument() {
    let mut books = OrderBooks::new("OKX".to_string());
    books.register_orderbook("BTC-USDT-SWAP");
    books.register_orderbook("ETH-USDT-SWAP");
    books.register_orderbook("BTC-USDT-SWAP");
    assert_eq!(books.order_books().len(), 2);
    assert_eq!(books.name, "OKX");
    assert!(books.get_orderbook("BTC-USDT-SWAP").is_some());
    assert!(books.get_orderbook("SOL-USDT-SWAP").is_none());
    {
        let b = books.get_orderbook_mut("ETH-USDT-SWAP").unwrap();
        b.set_bids_on_snapshot(vec![lv(5, 1)]);
    }
    assert_eq!(books.get_orderbook("ETH-USDT-SWAP").unwrap().best_bid_price().unwrap(), 5);
    assert!(books.get_orderbook_mut("DOGE").is_none());
}

#[test]
fn read_after_write_on_a_price() {
    // law: after an update the price reads the new level, other prices are unchanged
    let mut b = OrderBook::new("X".to_string());
    b.set_asks_on_snapshot(vec![lv(100, 1), lv(200, 2), lv(300, 3)]);
    b.set_asks_on_update(lv(200, 20));
    let got: Vec<(u64, u64)> = (1..=3).map(|i| {
        let l = b.ask_by_level(i).unwrap();
        (l.price, l.quantity)
    }).collect();
    assert_eq!(got, vec![(100, 1), (200, 20), (300, 3)]);
}
