use std::collections::VecDeque;

use bolt_hedger::model::circular_orderbook::{CircularOrderBook, ExchangeOrder};

fn ids(v: &VecDeque<ExchangeOrder>) -> Vec<String> {
    v.iter().map(|o| o.ref_id.clone()).collect()
}

#[test]
fn full_side_drops_its_oldest_order() {
    let mut b = CircularOrderBook::new("BTC-USDT", 2);
    b.add_bid_order(ExchangeOrder::new("a"));
    b.add_bid_order(ExchangeOrder::new("b"));
    b.add_bid_order(ExchangeOrder::new("c"));
    assert_eq!(ids(b.get_bid_queue()), vec!["b", "c"]);
    assert!(b.get_order("a").is_none());
    assert_eq!(b.get_order("c").unwrap().ref_id, "c");
    assert!(b.get_ask_queue().is_empty());
}

#[test]
fn positions_are_looked_up_bids_first() {
    let mut b = CircularOrderBook::new("X", 3);
    b.add_bid_order(ExchangeOrder::new("b1"));
    b.add_bid_order(ExchangeOrder::new("b2"));
    b.add_ask_order(ExchangeOrder::new("a1"));
    assert_eq!(b.get_order_index("b2"), Some(1));
    assert_eq!(b.get_order_index("a1"), Some(0));
    assert_eq!(b.get_order_index("zz"), None);
}

#[test]
fn order_list_holds_bids_asks_then_fills() {
    let mut b = CircularOrderBook::new("X", 3);
    b.add_bid_order(ExchangeOrder::new("b1"));
    b.add_ask_order(ExchangeOrder::new("a1"));
    b.add_fill_list("f1");
    b.add_fill_list("f2");
    assert_eq!(b.get_order_list(), vec!["b1", "a1", "f1", "f2"]);
    assert!(b.is_ref_id_in_list("f2"));
    assert!(!b.is_ref_id_in_list("b1"));
    b.add_fill_list("f1");
    b.delete_fill_list("f1");
    assert_eq!(b.get_order_list(), vec!["b1", "a1", "f2"]);
}

#[test]
fn state_and_fills_reach_only_indexed_orders() {
    let mut b = CircularOrderBook::new("X", 1);
    b.add_ask_order(ExchangeOrder::new("a1"));
    assert!(b.set_order_state("a1", "filled"));
    assert!(!b.set_order_state("nope", "filled"));
    b.set_fill_size("a1", 100, 200);
    assert_eq!(b.get_order("a1").unwrap().ref_id, "a1");
}

#[test]
fn same_id_twice_is_indexed_once() {
    let mut b = CircularOrderBook::new("X", 2);
    b.add_bid_order(ExchangeOrder::new("x"));
    b.add_bid_order(ExchangeOrder::new("x"));
    assert_eq!(ids(b.get_bid_queue()), vec!["x", "x"]);
    assert_eq!(b.get_order_list(), vec!["x"]);
    // the oldest leaves and takes the id out of the index, though a later order has it
    b.add_bid_order(ExchangeOrder::new("y"));
    assert_eq!(ids(b.get_bid_queue()), vec!["x", "y"]);
    assert_eq!(b.get_order_list(), vec!["y"]);
    assert_eq!(b.get_order_index("x"), None);
}

#[test]
fn order_clone_keeps_the_id() {
    let o = ExchangeOrder::new("r");
    let mut c = o.clone();
    c.set_state("live");
    c.update_fill_size(1, 2);
    assert_eq!(c.ref_id, o.ref_id);
}

#[test]
fn deleted_fills_are_no_longer_listed() {
    let mut b = CircularOrderBook::new("X", 1);
    b.add_fill_list("f1");
    b.add_fill_list("f2");
    b.add_fill_list("f1");
    assert!(b.is_ref_id_in_list("f1"));
    b.delete_fill_list("f1");
    assert!(!b.is_ref_id_in_list("f1"));
    assert!(b.is_ref_id_in_list("f2"));
    assert_eq!(b.get_order_list(), vec!["f2"]);
}

#[test]
fn fresh_ids_keep_queue_and_index_equal() {
    let mut b = CircularOrderBook::new("X", 2);
    for id in ["a", "b", "c", "d"] {
        b.add_ask_order(ExchangeOrder::new(id));
        let mut q = ids(b.get_ask_queue());
        let mut keys = b.get_order_list();
        q.sort();
        keys.sort();
        assert_eq!(q, keys);
    }
    assert_eq!(ids(b.get_ask_queue()), vec!["c", "d"]);
}
