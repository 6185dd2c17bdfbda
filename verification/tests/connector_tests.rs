use bolt_hedger::connector::binance_websocket_connector::{
    decode_binance_event, force_order_step, liquidation_subscribe_request, on_frame, parse_level,
    subscribe_request, BinanceEvent, BinanceFeedState,
    BookTickerEvent, ConnectorConfig, ForceOrderDetail, ForceOrderEvent, Frame, FrameAction,
    Outcome, RetryDecision, WebSocketError,
};
use bolt_hedger::connector::okx_websocket_connector::{
    decode_okx_message, ping_request, ticker_subscribe_request, ConnectorConfig as OkxConfig,
    OkxFeedState, OkxMessage, OkxTickerEvent,
};

fn s(x: &str) -> Option<String> {
    Some(x.to_string())
}

fn ticker(sym: Option<String>) -> BookTickerEvent {
    BookTickerEvent {
        symbol: sym,
        event_time: Some(1_700_000_000_000),
        bid_price: s("65000.5"),
        bid_qty: s("1.25"),
        ask_price: s("65001"),
        ask_qty: s("0.5"),
    }
}

fn fields(step: &Option<bolt_hedger::connector::binance_websocket_connector::RedisHash>) -> (String, Vec<(String, String)>) {
    let h = step.as_ref().unwrap();
    (h.key.clone(), h.fields.clone())
}

#[test]
fn configs_default_to_five_attempts() {
    let c = ConnectorConfig::default();
    assert_eq!(c.reconnect_attempts(), 5);
    assert_eq!(c.reconnect_delay_secs(), 5);
    assert_eq!(c.timeout_secs(), 10);
    let o = OkxConfig::default();
    assert_eq!(o.timeout_secs(), 5);
    assert_eq!(o.reconnect_attempts(), 5);
}

#[test]
fn retries_stop_at_the_fifth_failure() {
    let c = ConnectorConfig::default();
    let mut attempts = 0;
    let mut waits = 0;
    loop {
        match c.after_failed_attempt(attempts) {
            RetryDecision::Retry { attempts: a, delay_secs } => {
                assert_eq!(delay_secs, 5);
                attempts = a;
                waits += 1;
            }
            RetryDecision::GiveUp { attempts: a } => {
                attempts = a;
                break;
            }
        }
    }
    assert_eq!(attempts, 5);
    assert_eq!(waits, 4);
}

#[test]
fn frames_are_handled_answered_or_ended() {
    assert!(matches!(on_frame(Frame::Text("x".into())), FrameAction::Handle(t) if t == "x"));
    assert!(matches!(on_frame(Frame::Ping(vec![1, 2])), FrameAction::Reply(p) if p == vec![1, 2]));
    assert!(matches!(on_frame(Frame::Close), FrameAction::Finish));
    assert!(matches!(on_frame(Frame::StreamEnded), FrameAction::Finish));
    assert!(matches!(on_frame(Frame::TimedOut), FrameAction::Fail(WebSocketError::Timeout)));
    assert!(matches!(on_frame(Frame::Pong), FrameAction::Ignore));
    assert!(matches!(on_frame(Frame::Binary), FrameAction::Ignore));
}

#[test]
fn error_messages() {
    assert_eq!(WebSocketError::Timeout.describe(), "No message received for 10 seconds");
    assert_eq!(WebSocketError::ReconnectError.describe(), "Failed to reconnect after maximum attempts");
    assert_eq!(WebSocketError::SendError("closed".into()).describe(), "Send error: closed");
    assert_eq!(WebSocketError::OrderBookError("x".into()).describe(), "OrderBook error: x");
    assert_eq!(WebSocketError::ParseError("y".into()).describe(), "Parse error: y");
    let e = serde_json::from_str::<serde_json::Value>("{").unwrap_err();
    assert!(WebSocketError::JsonError(e).describe().starts_with("JSON parsing error: "));
}

#[test]
fn levels_read_or_say_what_is_wrong() {
    let l = parse_level(&s("65000.5"), &s("2")).unwrap();
    assert_eq!((l.price, l.quantity), (6_500_050_000_000, 200_000_000));
    assert_eq!(l.price_string, "65000.50000000");
    let msg = |r: Result<_, WebSocketError>| match r {
        Err(WebSocketError::ParseError(m)) => m,
        _ => panic!("expected a parse error"),
    };
    assert_eq!(msg(parse_level(&None, &s("1"))), "Missing price");
    assert_eq!(msg(parse_level(&s("1"), &None)), "Missing amount");
    assert_eq!(msg(parse_level(&s(""), &s("1"))), "cannot parse float from empty string");
    assert_eq!(msg(parse_level(&s("1"), &s("abc"))), "invalid float literal");
}

#[test]
fn feed_registers_upper_case_symbols_and_subscribes_lower_case() {
    let st = BinanceFeedState::new(vec!["btcusdt".to_string(), "ethusdt".to_string()]);
    assert_eq!(st.order_books().name, "BinanceFutures");
    assert!(st.order_books().get_orderbook("BTCUSDT").is_some());
    assert!(st.order_books().get_orderbook("ETHUSDT").is_some());
    assert_eq!(st.subscribe_params(), vec!["btcusdt@bookTicker", "ethusdt@bookTicker"]);
}

#[test]
fn ticker_is_stored_applied_and_published() {
    let mut st = BinanceFeedState::new(vec!["btcusdt".to_string()]);
    let step = st.on_book_ticker(&ticker(s("BTCUSDT")), 1_700_000_000_123);
    assert!(step.publish);
    assert!(matches!(step.outcome, Outcome::Done));
    let (key, f) = fields(&step.store);
    assert_eq!(key, "Binance_ticker:BTCUSDT");
    assert_eq!(
        f,
        vec![
            ("bid".to_string(), "65000.5".to_string()),
            ("ask".to_string(), "65001".to_string()),
            ("bid_size".to_string(), "1.25".to_string()),
            ("ask_size".to_string(), "0.5".to_string()),
            ("timestamp".to_string(), "1700000000123".to_string()),
        ]
    );
    let b = st.order_books().get_orderbook("BTCUSDT").unwrap();
    assert_eq!(b.best_bid_price().unwrap(), 6_500_050_000_000);
    assert_eq!(b.best_ask_price().unwrap(), 6_500_100_000_000);
}

#[test]
fn ticker_within_a_second_is_left_alone() {
    let mut st = BinanceFeedState::new(vec!["btcusdt".to_string()]);
    st.on_book_ticker(&ticker(s("BTCUSDT")), 1_700_000_000_000);
    let step = st.on_book_ticker(&ticker(s("BTCUSDT")), 1_700_000_000_999);
    assert!(step.store.is_none() && !step.publish);
    assert!(matches!(step.outcome, Outcome::Done));
    let step = st.on_book_ticker(&ticker(s("BTCUSDT")), 1_700_000_001_001);
    assert!(step.publish);
}

#[test]
fn ticker_failures() {
    let mut st = BinanceFeedState::new(vec!["btcusdt".to_string()]);
    let mut t = ticker(s("BTCUSDT"));
    t.event_time = None;
    let step = st.on_book_ticker(&t, 5_000);
    assert!(matches!(step.outcome, Outcome::Failed(WebSocketError::ParseError(ref m)) if m == "Missing event time"));
    assert!(step.store.is_none());
    let mut t = ticker(s("BTCUSDT"));
    t.ask_qty = None;
    let step = st.on_book_ticker(&t, 5_000);
    assert!(matches!(step.outcome, Outcome::Failed(WebSocketError::ParseError(ref m)) if m == "Missing amount"));
    // a symbol without a book: stored, then fails
    let step = st.on_book_ticker(&ticker(s("SOLUSDT")), 5_000);
    assert!(step.store.is_some() && !step.publish);
    assert!(matches!(step.outcome, Outcome::Failed(WebSocketError::OrderBookError(ref m)) if m == "Orderbook not found"));
    // no symbol: stored under "Unknown", then handling stops
    let step = st.on_book_ticker(&ticker(None), 5_000);
    assert_eq!(fields(&step.store).0, "Binance_ticker:Unknown");
    assert!(matches!(step.outcome, Outcome::Abort));
}

#[test]
fn liquidation_is_stored() {
    let ev = ForceOrderEvent {
        event_time: Some(1),
        detail: Some(ForceOrderDetail { time: None, symbol: s("BTCUSDT"), side: s("SELL"), price: s("65000"), quantity: None }),
    };
    let step = force_order_step(&ev);
    let (key, f) = fields(&step.store);
    assert_eq!(key, "Binance_Liquidation:BTCUSDT");
    assert_eq!(f[0], ("time".to_string(), "0".to_string()));
    assert_eq!(f[1], ("symbol".to_string(), "BTCUSDT".to_string()));
    assert_eq!(f[2], ("side".to_string(), "SELL".to_string()));
    assert_eq!(f[3], ("price".to_string(), "65000".to_string()));
    assert_eq!(f[4], ("quantity".to_string(), "0".to_string()));
    let step = force_order_step(&ForceOrderEvent { event_time: None, detail: None });
    assert!(matches!(step.outcome, Outcome::Failed(WebSocketError::ParseError(_))));
    let step = force_order_step(&ForceOrderEvent { event_time: Some(1), detail: None });
    assert!(matches!(step.outcome, Outcome::Abort));
}

#[test]
fn binance_messages_decode_by_event_type() {
    let text = r#"{"e":"bookTicker","u":1,"s":"BTCUSDT","b":"65000.10","B":"3","a":"65000.20","A":"4","T":1,"E":1700000000000}"#;
    match decode_binance_event(text).unwrap() {
        BinanceEvent::BookTicker(t) => {
            assert_eq!(t.symbol.as_deref(), Some("BTCUSDT"));
            assert_eq!(t.event_time, Some(1_700_000_000_000));
            assert_eq!(t.bid_price.as_deref(), Some("65000.10"));
            assert_eq!(t.ask_qty.as_deref(), Some("4"));
        }
        _ => panic!("expected a ticker"),
    }
    let text = r#"{"e":"forceOrder","E":1,"o":{"s":"ETHUSDT","S":"BUY","p":"3000","q":"2","T":5}}"#;
    match decode_binance_event(text).unwrap() {
        BinanceEvent::ForceOrder(f) => {
            let d = f.detail.unwrap();
            assert_eq!(d.symbol.as_deref(), Some("ETHUSDT"));
            assert_eq!(d.time, None);
        }
        _ => panic!("expected a liquidation"),
    }
    assert!(matches!(decode_binance_event(r#"{"result":null,"id":1}"#).unwrap(), BinanceEvent::Other));
    assert!(decode_binance_event("not json").is_err());
}

#[test]
fn binance_text_goes_through_to_the_books() {
    let mut st = BinanceFeedState::new(vec!["btcusdt".to_string()]);
    let text = r#"{"e":"bookTicker","s":"BTCUSDT","b":"1.5","B":"3","a":"2","A":"4","E":9}"#;
    let step = st.process_text_message(text, 10_000);
    assert!(step.publish);
    assert_eq!(st.order_books().get_orderbook("BTCUSDT").unwrap().best_bid_price().unwrap(), 150_000_000);
    let step = st.process_text_message("{", 20_000);
    assert!(matches!(step.outcome, Outcome::Failed(WebSocketError::JsonError(_))));
}

#[test]
fn okx_messages_decode() {
    assert!(matches!(decode_okx_message("pong").unwrap(), OkxMessage::Pong));
    let text = r#"{"arg":{"channel":"tickers","instId":"BTC-USDT-SWAP"},"data":[{"instId":"BTC-USDT-SWAP","bidPx":"65000.1","bidSz":"10","askPx":"65000.2","askSz":"11","ts":"1700000000000"}]}"#;
    match decode_okx_message(text).unwrap() {
        OkxMessage::Ticker(t) => {
            assert_eq!(t.ts, 1_700_000_000_000);
            assert_eq!(t.inst_id.as_deref(), Some("BTC-USDT-SWAP"));
            assert_eq!(t.ask_sz.as_deref(), Some("11"));
        }
        _ => panic!("expected a ticker"),
    }
    assert!(matches!(decode_okx_message(r#"{"event":"subscribe"}"#).unwrap(), OkxMessage::NoData));
    assert!(matches!(decode_okx_message(r#"{"data":[{"ts":"x"}]}"#).unwrap(), OkxMessage::NoData));
    assert!(decode_okx_message("{oops").is_err());
}

#[test]
fn okx_ticker_updates_its_book() {
    let mut st = OkxFeedState::new_at(vec!["BTC-USDT-SWAP".to_string()], 1_000);
    let text = r#"{"data":[{"instId":"BTC-USDT-SWAP","bidPx":"10","bidSz":"1","askPx":"11","askSz":"2","ts":"5"}]}"#;
    let step = st.process_text_message(text);
    assert!(step.publish);
    let b = st.order_books().get_orderbook("BTC-USDT-SWAP").unwrap();
    assert_eq!(b.best_bid_price().unwrap(), 1_000_000_000);
    assert_eq!(b.best_ask_price().unwrap(), 1_100_000_000);
    let ev = OkxTickerEvent { ts: 1, inst_id: s("ETH-USDT-SWAP"), bid_px: s("1"), bid_sz: s("1"), ask_px: s("2"), ask_sz: s("1") };
    assert!(matches!(st.on_ticker(&ev).outcome, Outcome::Failed(WebSocketError::OrderBookError(_))));
    let ev = OkxTickerEvent { ts: 1, inst_id: None, bid_px: None, bid_sz: None, ask_px: None, ask_sz: None };
    assert!(matches!(st.on_ticker(&ev).outcome, Outcome::Abort));
    assert!(matches!(st.process_text_message("pong").outcome, Outcome::Done));
}

#[test]
fn okx_pings_every_three_seconds() {
    let mut st = OkxFeedState::new_at(vec![], 1_000);
    assert!(!st.ping_due(4_000));
    assert!(st.ping_due(4_001));
    assert!(!st.ping_due(7_001));
    assert!(st.ping_due(7_002));
    let st2 = OkxFeedState::new(vec!["A".to_string()]);
    assert!(st2.order_books().get_orderbook("A").is_some());
}

#[test]
fn subscription_requests_are_written_as_json() {
    let st = BinanceFeedState::new(vec!["btcusdt".to_string(), "ETHusdt".to_string()]);
    assert_eq!(
        subscribe_request(&st.subscribe_params()),
        r#"{"id":1,"method":"SUBSCRIBE","params":["btcusdt@bookTicker","ethusdt@bookTicker"]}"#
    );
    assert_eq!(subscribe_request(&vec![]), r#"{"id":1,"method":"SUBSCRIBE","params":[]}"#);
    assert_eq!(liquidation_subscribe_request(), r#"{"id":1,"method":"SUBSCRIBE","params":["!forceOrder@arr"]}"#);
    assert_eq!(
        ticker_subscribe_request("BTC-USDT-SWAP"),
        r#"{"args":[{"channel":"tickers","instId":"BTC-USDT-SWAP"}],"op":"subscribe"}"#
    );
    assert_eq!(ticker_subscribe_request("a\"b"), r#"{"args":[{"channel":"tickers","instId":"a\"b"}],"op":"subscribe"}"#);
    assert_eq!(ping_request(), r#"{"op":"ping"}"#);
    assert_eq!(
        ticker_subscribe_request("a\\b\n\u{1}\u{1f}"),
        r#"{"args":[{"channel":"tickers","instId":"a\\b\n\u0001\u001f"}],"op":"subscribe"}"#
    );
}

#[test]
fn liquidation_without_all_members_stops() {
    let text = r#"{"e":"forceOrder","E":1,"o":{"s":"ETHUSDT","S":"BUY","p":"3000"}}"#;
    match decode_binance_event(text).unwrap() {
        BinanceEvent::ForceOrder(f) => assert!(f.detail.is_none()),
        _ => panic!("expected a liquidation"),
    }
    let mut st = BinanceFeedState::new(vec![]);
    assert!(matches!(st.process_text_message(text, 1).outcome, Outcome::Abort));
    let text = r#"{"e":"forceOrder","E":1,"o":"x"}"#;
    assert!(matches!(st.process_text_message(text, 1).outcome, Outcome::Abort));
}

#[test]
fn tickers_read_numbers_as_floats_read_them() {
    let mut st = BinanceFeedState::new(vec!["btcusdt".to_string()]);
    let text = r#"{"e":"bookTicker","s":"BTCUSDT","b":"6.5e4","B":"+3","a":"65000.123456789","A":"4","E":9}"#;
    let step = st.process_text_message(text, 10_000);
    assert!(step.publish);
    let b = st.order_books().get_orderbook("BTCUSDT").unwrap();
    assert_eq!(b.best_bid_price().unwrap(), 6_500_000_000_000);
    assert_eq!(b.best_ask_price().unwrap(), 6_500_012_345_679);
    assert_eq!(b.best_ask().unwrap().price_string, "65000.12345679");
}

#[test]
fn okx_text_without_a_readable_stamp_changes_nothing() {
    let mut st = OkxFeedState::new_at(vec!["BTC-USDT-SWAP".to_string()], 1_000);
    let text = r#"{"data":[{"instId":"BTC-USDT-SWAP","bidPx":"10","bidSz":"1","askPx":"11","askSz":"2","ts":5}]}"#;
    let step = st.process_text_message(text);
    assert!(!step.publish);
    assert!(matches!(step.outcome, Outcome::Done));
    assert!(st.order_books().get_orderbook("BTC-USDT-SWAP").unwrap().best_bid().is_err());
}

#[test]
fn feeds_register_books_in_topic_order() {
    let st = BinanceFeedState::new(vec!["ethusdt".to_string(), "btcusdt".to_string(), "ETHUSDT".to_string()]);
    let names: Vec<String> = st.order_books().order_books().iter().map(|b| b.inst_id.clone()).collect();
    assert_eq!(names, vec!["ETHUSDT", "BTCUSDT"]);
    assert!(st.order_books().order_books().iter().all(|b| b.timestamp == 0 && b.exch_check_sum == 0));
    let st = OkxFeedState::new_at(vec!["B-SWAP".to_string(), "A-SWAP".to_string(), "B-SWAP".to_string()], 7);
    let names: Vec<String> = st.order_books().order_books().iter().map(|b| b.inst_id.clone()).collect();
    assert_eq!(names, vec!["B-SWAP", "A-SWAP"]);
    assert!(st.order_books().order_books().iter().all(|b| b.timestamp == 0 && b.exch_check_sum == 0));
}

#[test]
fn ticker_writes_are_a_second_apart() {
    let mut st = BinanceFeedState::new(vec!["btcusdt".to_string()]);
    let text = r#"{"e":"bookTicker","s":"BTCUSDT","b":"1","B":"1","a":"2","A":"1","E":9}"#;
    assert!(st.process_text_message(text, 10_000).store.is_some());
    assert!(st.process_text_message(text, 10_500).store.is_none());
    assert!(st.process_text_message(text, 11_000).store.is_none());
    assert!(st.process_text_message(text, 11_001).store.is_some());
}
