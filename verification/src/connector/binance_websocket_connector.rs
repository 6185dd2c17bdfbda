//! The decisions of the Binance futures market-data feed: connection settings
//! and retries, the subscription, and what each pushed message does to the
//! order books and to the Redis store. Sockets, Redis and channels are driven
//! around these decisions by the caller.
use vstd::prelude::*;
use vstd::string::{StringExecFns, StringSliceAdditionalSpecFns};
use vstd::utf8::encode_utf8;

use crate::bindings::{
    ascii_lower_char, chars_ascii, json_error_text, json_i64_at, json_i64_field, json_object_at,
    json_object_field, json_parse_error, json_parses, json_plain, json_quote, json_quoted, lemma_plain_escaped,
    json_str_at, json_str_field, opt_view,
    str_to_lowercase, tungstenite_error_text, unicode_lower,
    unicode_upper, url_error_text, str_to_uppercase,
};
use crate::model::book_side::{lemma_single_sorted, sort_side};
use crate::model::orderbook::{
    book_index, distinct_in_order, fresh_books, lemma_book_index_at, lemma_book_index_props,
    lemma_register_fresh, OrderBook, OrderBookLevel, OrderBooks,
};
use crate::util::decimal::{
    ascii_chars, fixed8_bytes, format_i64, parse_units, parse_units_spec, signed_decimal_bytes,
};

verus! {

/// How many connection attempts are made before giving up.
pub const MAX_RECONNECT_ATTEMPTS: u32 = 5;

/// Seconds to wait before trying a lost connection again.
pub const RECONNECT_DELAY_SECS: u64 = 5;

/// Connection settings: attempts before giving up, the wait between attempts
/// and how long the socket may stay silent, in seconds.
pub struct ConnectorConfig {
    reconnect_attempts: u32,
    reconnect_delay_secs: u64,
    timeout_secs: u64,
}

impl ConnectorConfig {
    pub closed spec fn attempts(&self) -> u32 {
        self.reconnect_attempts
    }

    pub closed spec fn delay(&self) -> u64 {
        self.reconnect_delay_secs
    }

    pub closed spec fn timeout(&self) -> u64 {
        self.timeout_secs
    }

    /// Attempts before giving up.
    pub fn reconnect_attempts(&self) -> (r: u32)
        ensures
            r == self.attempts(),
    {
        self.reconnect_attempts
    }

    /// Seconds between attempts.
    pub fn reconnect_delay_secs(&self) -> (r: u64)
        ensures
            r == self.delay(),
    {
        self.reconnect_delay_secs
    }

    /// Seconds of silence after which the connection counts as lost.
    pub fn timeout_secs(&self) -> (r: u64)
        ensures
            r == self.timeout(),
    {
        self.timeout_secs
    }

    /// What to do after the connection attempt numbered `attempts + 1` failed:
    /// give up once that many attempts reach the configured number, otherwise
    /// wait the configured delay and try again.
    pub fn after_failed_attempt(&self, attempts: u32) -> (d: RetryDecision)
        requires
            attempts < u32::MAX,
        ensures
            d == (if attempts + 1 >= self.attempts() {
                RetryDecision::GiveUp { attempts: (attempts + 1) as u32 }
            } else {
                RetryDecision::Retry { attempts: (attempts + 1) as u32, delay_secs: self.delay() }
            }),
    {
        let made = attempts + 1;
        if made >= self.reconnect_attempts {
            RetryDecision::GiveUp { attempts: made }
        } else {
            RetryDecision::Retry { attempts: made, delay_secs: self.reconnect_delay_secs }
        }
    }
}

impl Default for ConnectorConfig {
    /// Five attempts, five seconds apart; ten seconds of silence is a lost connection.
    fn default() -> (c: Self)
        ensures
            c.attempts() == MAX_RECONNECT_ATTEMPTS,
            c.delay() == RECONNECT_DELAY_SECS,
            c.timeout() == 10,
    {
        ConnectorConfig {
            reconnect_attempts: MAX_RECONNECT_ATTEMPTS,
            reconnect_delay_secs: RECONNECT_DELAY_SECS,
            timeout_secs: 10,
        }
    }
}

/// What follows a failed connection attempt.
#[derive(Debug, PartialEq, Eq, Structural)]
pub enum RetryDecision {
    /// Stop: `attempts` attempts have been made.
    GiveUp { attempts: u32 },
    /// Wait `delay_secs` seconds and try again; `attempts` have been made.
    Retry { attempts: u32, delay_secs: u64 },
}

/// Retry law: when every attempt fails, the connector gives up exactly at the
/// attempt numbered `max(1, n)` for a configuration of `n` attempts.
pub proof fn lemma_retry_count(cfg: ConnectorConfig, k: u32)
    requires
        1 <= k < u32::MAX,
    ensures
        (if (k - 1) as u32 + 1 >= cfg.attempts() {
            RetryDecision::GiveUp { attempts: k }
        } else {
            RetryDecision::Retry { attempts: k, delay_secs: cfg.delay() }
        }) is GiveUp <==> k >= (if cfg.attempts() >= 1 {
            cfg.attempts()
        } else {
            1
        }),
{
}

/// Why handling the feed failed.
#[derive(Debug)]
pub enum WebSocketError {
    Timeout,
    WebSocketError(tokio_tungstenite::tungstenite::Error),
    JsonError(serde_json::Error),
    SendError(String),
    UrlParseError(url::ParseError),
    OrderBookError(String),
    ParseError(String),
    ReconnectError,
}

impl WebSocketError {
    /// The error as a message: a fixed text, or a prefix naming the kind of
    /// error before the cause.
    pub fn describe(&self) -> (s: String)
        ensures
            self is Timeout ==> s@ == "No message received for 10 seconds"@,
            self is ReconnectError ==> s@ == "Failed to reconnect after maximum attempts"@,
            self matches WebSocketError::SendError(m) ==> s@ == "Send error: "@ + m@,
            self matches WebSocketError::OrderBookError(m) ==> s@ == "OrderBook error: "@ + m@,
            self matches WebSocketError::ParseError(m) ==> s@ == "Parse error: "@ + m@,
            self is WebSocketError ==> s@.subrange(0, 17) == "WebSocket error: "@,
            self is JsonError ==> s@.subrange(0, 20) == "JSON parsing error: "@,
            self is UrlParseError ==> s@.subrange(0, 17) == "URL parse error: "@,
    {
        match self {
            WebSocketError::Timeout => "No message received for 10 seconds".to_owned(),
            WebSocketError::WebSocketError(e) => {
                let mut s = "WebSocket error: ".to_owned();
                let t = tungstenite_error_text(e);
                let ghost p = s@;
                s.append(t.as_str());
                proof {
                    reveal_strlit("WebSocket error: ");
                    assert(s@.subrange(0, 17) =~= p);
                }
                s
            },
            WebSocketError::JsonError(e) => {
                let mut s = "JSON parsing error: ".to_owned();
                let t = json_error_text(e);
                let ghost p = s@;
                s.append(t.as_str());
                proof {
                    reveal_strlit("JSON parsing error: ");
                    assert(s@.subrange(0, 20) =~= p);
                }
                s
            },
            WebSocketError::SendError(m) => {
                let mut s = "Send error: ".to_owned();
                s.append(m.as_str());
                s
            },
            WebSocketError::UrlParseError(e) => {
                let mut s = "URL parse error: ".to_owned();
                let t = url_error_text(e);
                let ghost p = s@;
                s.append(t.as_str());
                proof {
                    reveal_strlit("URL parse error: ");
                    assert(s@.subrange(0, 17) =~= p);
                }
                s
            },
            WebSocketError::OrderBookError(m) => {
                let mut s = "OrderBook error: ".to_owned();
                s.append(m.as_str());
                s
            },
            WebSocketError::ParseError(m) => {
                let mut s = "Parse error: ".to_owned();
                s.append(m.as_str());
                s
            },
            WebSocketError::ReconnectError => "Failed to reconnect after maximum attempts".to_owned(),
        }
    }
}

// ---------------------------------------------------------------------------
// The receive loop
// ---------------------------------------------------------------------------

/// What the socket gave: a frame of some kind, the end of the stream, or
/// nothing within the time-out.
#[derive(Debug)]
pub enum Frame {
    Text(String),
    Binary,
    Ping(Vec<u8>),
    Pong,
    Raw,
    Close,
    StreamEnded,
    TimedOut,
}

/// What the receive loop does with it.
#[derive(Debug)]
pub enum FrameAction {
    /// Hand the text to the message handler, then read on.
    Handle(String),
    /// Answer with a pong carrying this payload, then read on.
    Reply(Vec<u8>),
    /// Read on.
    Ignore,
    /// The connection ended normally.
    Finish,
    /// The connection failed with this error.
    Fail(WebSocketError),
}

/// The receive loop's decision for one read: text is handled, a ping is
/// answered with its payload, a close or the end of the stream ends the
/// connection, silence past the time-out fails it, anything else is skipped.
pub fn on_frame(f: Frame) -> (a: FrameAction)
    ensures
        match f {
            Frame::Text(t) => a matches FrameAction::Handle(u) && u == t,
            Frame::Ping(p) => a matches FrameAction::Reply(q) && q == p,
            Frame::Close => a is Finish,
            Frame::StreamEnded => a is Finish,
            Frame::TimedOut => a matches FrameAction::Fail(e) && e is Timeout,
            _ => a is Ignore,
        },
{
    match f {
        Frame::Text(t) => FrameAction::Handle(t),
        Frame::Binary => FrameAction::Ignore,
        Frame::Ping(p) => FrameAction::Reply(p),
        Frame::Pong => FrameAction::Ignore,
        Frame::Raw => FrameAction::Ignore,
        Frame::Close => FrameAction::Finish,
        Frame::StreamEnded => FrameAction::Finish,
        Frame::TimedOut => FrameAction::Fail(WebSocketError::Timeout),
    }
}

// ---------------------------------------------------------------------------
// Reading price levels from pushed text
// ---------------------------------------------------------------------------

/// The message std gives for text that is not a number: one for empty text,
/// one for any other. The same message is given for a number that a count of
/// 10^-8 units cannot hold (below zero, too large, `inf`, `nan`), which std
/// would read as a float.
pub open spec fn number_error_text(s: Seq<char>) -> Seq<char> {
    if s.len() == 0 {
        "cannot parse float from empty string"@
    } else {
        "invalid float literal"@
    }
}

/// What reading a price and an amount gives: both in 10^-8 units (see
/// `parse_units_spec`), or the message of the first that is missing or does
/// not read.
pub open spec fn level_parse(price: Option<String>, amount: Option<String>) -> Result<
    (u64, u64),
    Seq<char>,
> {
    match price {
        None => Err("Missing price"@),
        Some(p) => match parse_units_spec(encode_utf8(p@)) {
            None => Err(number_error_text(p@)),
            Some(pv) => match amount {
                None => Err("Missing amount"@),
                Some(a) => match parse_units_spec(encode_utf8(a@)) {
                    None => Err(number_error_text(a@)),
                    Some(av) => Ok((pv, av)),
                },
            },
        },
    }
}

/// Whether `l` is the level at price `p` with quantity `q`, written to eight decimals.
pub open spec fn is_level(l: OrderBookLevel, p: u64, q: u64) -> bool {
    &&& l.price == p
    &&& l.quantity == q
    &&& l.price_string@ == ascii_chars(fixed8_bytes(p as nat))
    &&& l.quantity_string@ == ascii_chars(fixed8_bytes(q as nat))
}

/// Reads `s` as an amount; on failure gives the message std gives.
fn read_amount(s: &String) -> (r: Result<u64, String>)
    ensures
        match parse_units_spec(encode_utf8(s@)) {
            Some(v) => r == Ok::<u64, String>(v),
            None => r matches Err(m) && m@ == number_error_text(s@),
        },
{
    match parse_units(s.as_str()) {
        Some(v) => Ok(v),
        None => {
            if s.as_str().is_empty() {
                Err("cannot parse float from empty string".to_owned())
            } else {
                Err("invalid float literal".to_owned())
            }
        },
    }
}

/// Reads a price level from its price and amount texts (see `level_parse`).
pub fn parse_level(price: &Option<String>, amount: &Option<String>) -> (r: Result<
    OrderBookLevel,
    WebSocketError,
>)
    ensures
        match level_parse(*price, *amount) {
            Ok((p, q)) => r matches Ok(l) && is_level(l, p, q),
            Err(m) => r matches Err(WebSocketError::ParseError(s)) && s@ == m,
        },
{
    let p = match price {
        None => {
            return Err(WebSocketError::ParseError("Missing price".to_owned()));
        },
        Some(t) => match read_amount(t) {
            Ok(v) => v,
            Err(m) => {
                return Err(WebSocketError::ParseError(m));
            },
        },
    };
    let q = match amount {
        None => {
            return Err(WebSocketError::ParseError("Missing amount".to_owned()));
        },
        Some(t) => match read_amount(t) {
            Ok(v) => v,
            Err(m) => {
                return Err(WebSocketError::ParseError(m));
            },
        },
    };
    Ok(OrderBookLevel::new(p, q))
}

// ---------------------------------------------------------------------------
// Pushed messages and what they call for
// ---------------------------------------------------------------------------

/// A best bid/ask push: symbol, event time (ms), and the four quotes as text.
#[derive(Debug, Clone)]
pub struct BookTickerEvent {
    pub symbol: Option<String>,
    pub event_time: Option<i64>,
    pub bid_price: Option<String>,
    pub bid_qty: Option<String>,
    pub ask_price: Option<String>,
    pub ask_qty: Option<String>,
}

/// The order details of a liquidation push, as text (`None` where a member is
/// not a string).
#[derive(Debug, Clone)]
pub struct ForceOrderDetail {
    pub time: Option<String>,
    pub symbol: Option<String>,
    pub side: Option<String>,
    pub price: Option<String>,
    pub quantity: Option<String>,
}

/// A liquidation push: event time (ms) and the order, when the push has one
/// with all five members.
#[derive(Debug, Clone)]
pub struct ForceOrderEvent {
    pub event_time: Option<i64>,
    pub detail: Option<ForceOrderDetail>,
}

/// A pushed message, by its event type.
#[derive(Debug, Clone)]
pub enum BinanceEvent {
    BookTicker(BookTickerEvent),
    ForceOrder(ForceOrderEvent),
    Other,
}

/// A Redis hash to write: its key and its fields with their values.
#[derive(Debug, Clone)]
pub struct RedisHash {
    pub key: String,
    pub fields: Vec<(String, String)>,
}

/// A hash as text: key, then field/value pairs.
pub open spec fn hash_view(h: RedisHash) -> (Seq<char>, Seq<(Seq<char>, Seq<char>)>) {
    (h.key@, h.fields@.map_values(|p: (String, String)| (p.0@, p.1@)))
}

/// How handling a message ends.
#[derive(Debug)]
pub enum Outcome {
    /// Handled.
    Done,
    /// Failed with this error.
    Failed(WebSocketError),
    /// The message lacks a part the handler cannot do without; handling stops
    /// the program.
    Abort,
}

/// What handling one message calls for, in order: write `store` to Redis when
/// there is one, send a copy of the order books when `publish`, end with `outcome`.
#[derive(Debug)]
pub struct BinanceStep {
    pub store: Option<RedisHash>,
    pub publish: bool,
    pub outcome: Outcome,
}

/// The text of an optional value, or `d` when there is none.
pub open spec fn text_or(o: Option<String>, d: Seq<char>) -> Seq<char> {
    match o {
        Some(s) => s@,
        None => d,
    }
}

/// Whether a ticker for a symbol last handled at `last` (0 for never) is
/// handled at `now`: more than a second apart, either way, or never handled.
pub open spec fn passes_throttle(last: i64, now: i64) -> bool {
    last - now > 1000 || now - last > 1000 || last == 0
}

/// The hash a handled ticker is stored as.
pub open spec fn ticker_hash(ev: BookTickerEvent, now: i64) -> (Seq<char>, Seq<(Seq<char>, Seq<char>)>) {
    (
        "Binance_ticker:"@ + text_or(ev.symbol, "Unknown"@),
        seq![
            ("bid"@, text_or(ev.bid_price, "0"@)),
            ("ask"@, text_or(ev.ask_price, "0"@)),
            ("bid_size"@, text_or(ev.bid_qty, "0"@)),
            ("ask_size"@, text_or(ev.ask_qty, "0"@)),
            ("timestamp"@, ascii_chars(signed_decimal_bytes(now as int))),
        ],
    )
}

/// The hash a liquidation is stored as.
pub open spec fn liquidation_hash(d: ForceOrderDetail) -> (Seq<char>, Seq<(Seq<char>, Seq<char>)>) {
    (
        "Binance_Liquidation:"@ + text_or(d.symbol, "Unknown"@),
        seq![
            ("time"@, text_or(d.time, "0"@)),
            ("symbol"@, text_or(d.symbol, "Unknown"@)),
            ("side"@, text_or(d.side, "Unknown"@)),
            ("price"@, text_or(d.price, "0"@)),
            ("quantity"@, text_or(d.quantity, "0"@)),
        ],
    )
}

/// Index of the first record for `sym` (the length when there is none).
pub open spec fn record_index(rec: Seq<(Seq<char>, i64)>, sym: Seq<char>) -> nat
    decreases rec.len(),
{
    if rec.len() == 0 {
        0
    } else if rec[0].0 == sym {
        0
    } else {
        1 + record_index(rec.drop_first(), sym)
    }
}

/// When `sym` was last handled (0 for never).
pub open spec fn record_get(rec: Seq<(Seq<char>, i64)>, sym: Seq<char>) -> i64 {
    if record_index(rec, sym) < rec.len() {
        rec[record_index(rec, sym) as int].1
    } else {
        0
    }
}

/// The record after noting `sym` as handled at `ts`.
pub open spec fn record_put(rec: Seq<(Seq<char>, i64)>, sym: Seq<char>, ts: i64) -> Seq<
    (Seq<char>, i64),
> {
    if record_index(rec, sym) < rec.len() {
        rec.update(record_index(rec, sym) as int, (sym, ts))
    } else {
        rec.push((sym, ts))
    }
}

proof fn lemma_record_index_at(rec: Seq<(Seq<char>, i64)>, sym: Seq<char>, i: int)
    requires
        0 <= i <= rec.len(),
        forall|k: int| 0 <= k < i ==> #[trigger] rec[k].0 != sym,
        i < rec.len() ==> rec[i].0 == sym,
    ensures
        record_index(rec, sym) == i,
    decreases rec.len(),
{
    if rec.len() > 0 && i > 0 {
        assert forall|k: int| 0 <= k < i - 1 implies #[trigger] rec.drop_first()[k].0 != sym by {
            assert(rec.drop_first()[k] == rec[k + 1]);
        }
        lemma_record_index_at(rec.drop_first(), sym, i - 1);
    }
}

/// The book of a collection after a ticker: its bids become the one bid level
/// and its asks the one ask level; nothing else changes.
pub open spec fn ticker_applied(old: OrderBook, new: OrderBook, bid: (u64, u64), ask: (u64, u64)) -> bool {
    &&& new.bids().len() == 1
    &&& is_level(new.bids()[0], bid.0, bid.1)
    &&& new.asks().len() == 1
    &&& is_level(new.asks()[0], ask.0, ask.1)
    &&& new.instrument() == old.instrument()
    &&& new.stamp() == old.stamp()
    &&& new.exchange_checksum() == old.exchange_checksum()
}

/// The upper case of the `k`-th symbol.
pub open spec fn upper_topic(topics: Seq<String>, k: int) -> Seq<char> {
    unicode_upper(topics[k]@)
}

/// Whether a book belongs to one of the first `n` symbols, in upper case.
pub open spec fn registered_from(b: OrderBook, topics: Seq<String>, n: int) -> bool {
    exists|k: int| 0 <= k < n && b.instrument()@ == #[trigger] upper_topic(topics, k)
}

/// A book with no levels on either side.
pub open spec fn book_empty(b: OrderBook) -> bool {
    b.bids().len() == 0 && b.asks().len() == 0
}

/// Every book has no levels.
pub open spec fn all_books_empty(bs: Seq<OrderBook>) -> bool {
    forall|j: int| 0 <= j < bs.len() ==> #[trigger] book_empty(bs[j])
}

/// The texts written as JSON string literals, separated by commas.
pub open spec fn quoted_list(ps: Seq<String>) -> Seq<char>
    decreases ps.len(),
{
    if ps.len() == 0 {
        Seq::empty()
    } else if ps.len() == 1 {
        json_quoted(ps[0]@)
    } else {
        quoted_list(ps.drop_last()) + ","@ + json_quoted(ps.last()@)
    }
}

/// A subscription request for the streams `ps`, as serde_json writes the
/// object with members `method` `SUBSCRIBE`, `params` and `id` 1 (members in
/// key order).
pub open spec fn binance_subscribe_text(ps: Seq<String>) -> Seq<char> {
    "{\"id\":1,\"method\":\"SUBSCRIBE\",\"params\":["@ + quoted_list(ps) + "]}"@
}

/// The subscription request for the streams `params` (see `binance_subscribe_text`).
pub fn subscribe_request(params: &Vec<String>) -> (r: String)
    ensures
        r@ == binance_subscribe_text(params@),
{
    let mut out = "{\"id\":1,\"method\":\"SUBSCRIBE\",\"params\":[".to_owned();
    let ghost head = out@;
    let n = params.len();
    let mut i: usize = 0;
    while i < n
        invariant
            n == params@.len(),
            i <= n,
            out@ == head + quoted_list(params@.take(i as int)),
        decreases n - i,
    {
        let q = json_quote(params[i].as_str());
        let ghost before = out@;
        if i > 0 {
            out.append(",");
        }
        out.append(q.as_str());
        proof {
            let t = params@.take(i + 1);
            assert(t.drop_last() =~= params@.take(i as int));
            assert(t.last() == params@[i as int]);
            if i == 0 {
                assert(t =~= seq![params@[0]]);
                assert(params@.take(0) =~= Seq::<String>::empty());
                assert(out@ =~= head + quoted_list(t));
            } else {
                assert(out@ =~= head + quoted_list(t));
            }
        }
        i = i + 1;
    }
    assert(params@.take(n as int) =~= params@);
    out.append("]}");
    out
}

/// The request subscribing to all liquidation orders, `!forceOrder@arr`.
pub fn liquidation_subscribe_request() -> (r: String)
    ensures
        r@ == "{\"id\":1,\"method\":\"SUBSCRIBE\",\"params\":[\"!forceOrder@arr\"]}"@,
{
    let mut out = "{\"id\":1,\"method\":\"SUBSCRIBE\",\"params\":[".to_owned();
    let q = json_quote("!forceOrder@arr");
    out.append(q.as_str());
    out.append("]}");
    proof {
        reveal_strlit("!forceOrder@arr");
        reveal_strlit("{\"id\":1,\"method\":\"SUBSCRIBE\",\"params\":[");
        reveal_strlit("]}");
        reveal_strlit("{\"id\":1,\"method\":\"SUBSCRIBE\",\"params\":[\"!forceOrder@arr\"]}");
        assert(json_plain("!forceOrder@arr"@));
        lemma_plain_escaped("!forceOrder@arr"@);
        assert(out@ =~= "{\"id\":1,\"method\":\"SUBSCRIBE\",\"params\":[\"!forceOrder@arr\"]}"@);
    }
    out
}

/// The state of the Binance feed: the subscribed symbols, the order books, and
/// when each symbol's ticker was last handled.
pub struct BinanceFeedState {
    topic_list: Vec<String>,
    order_books: OrderBooks,
    timestamp_record: Vec<(String, i64)>,
}

impl BinanceFeedState {
    /// The subscribed symbols.
    pub closed spec fn topics(&self) -> Seq<String> {
        self.topic_list@
    }

    /// The order books.
    pub closed spec fn books(&self) -> OrderBooks {
        self.order_books
    }

    /// When each symbol's ticker was last handled, by symbol.
    pub closed spec fn record(&self) -> Seq<(Seq<char>, i64)> {
        self.timestamp_record@.map_values(|p: (String, i64)| (p.0@, p.1))
    }

    /// Two states hold the same books and record.
    pub open spec fn same_as(&self, other: &Self) -> bool {
        &&& self.topics() == other.topics()
        &&& self.books() == other.books()
        &&& self.record() == other.record()
    }

    /// The feed for `topic_list`: one empty book per symbol, under its upper
    /// case, and no ticker handled yet.
    pub fn new(topic_list: Vec<String>) -> (s: Self)
        ensures
            s.topics() == topic_list@,
            s.books().exchange()@ == "BinanceFutures"@,
            s.books().wf(),
            forall|i: int|
                0 <= i < topic_list@.len() ==> book_index(
                    s.books().books(),
                    unicode_upper(#[trigger] topic_list@[i]@),
                ) < s.books().books().len(),
            forall|j: int|
                0 <= j < s.books().books().len() ==> #[trigger] registered_from(
                    s.books().books()[j],
                    topic_list@,
                    topic_list@.len() as int,
                ),
            all_books_empty(s.books().books()),
            s.record().len() == 0,
            fresh_books(s.books().books(), distinct_in_order(topic_list@.map_values(|t: String| unicode_upper(t@)))),
    {
        let mut books = OrderBooks::new("BinanceFutures".to_owned());
        let n = topic_list.len();
        let mut i: usize = 0;
        while i < n
            invariant
                n == topic_list@.len(),
                i <= n,
                books.exchange()@ == "BinanceFutures"@,
                books.wf(),
                forall|k: int|
                    0 <= k < i ==> book_index(books.books(), unicode_upper(#[trigger] topic_list@[k]@))
                        < books.books().len(),
                forall|j: int|
                    0 <= j < books.books().len() ==> #[trigger] registered_from(
                        books.books()[j],
                        topic_list@,
                        i as int,
                    ),
                all_books_empty(books.books()),
                fresh_books(books.books(), distinct_in_order(topic_list@.map_values(|t: String| unicode_upper(t@)).take(i as int))),
            decreases n - i,
        {
            let upper = str_to_uppercase(topic_list[i].as_str());
            let ghost before = books.books();
            proof {
                lemma_book_index_props(before, upper@);
            }
            books.register_orderbook(upper.as_str());
            proof {
                let after = books.books();
                let names = topic_list@.map_values(|t: String| unicode_upper(t@));
                lemma_register_fresh(before, names.take(i as int), upper@, after);
                assert(names.take(i + 1) =~= names.take(i as int).push(upper@));
                lemma_book_index_props(after, upper@);
                assert forall|k: int| 0 <= k < i + 1 implies book_index(
                    after,
                    unicode_upper(#[trigger] topic_list@[k]@),
                ) < after.len() by {
                    if k < i {
                        let id = unicode_upper(topic_list@[k]@);
                        lemma_book_index_props(before, id);
                        lemma_book_index_props(after, id);
                        let bi = book_index(before, id) as int;
                        assert(after[bi] == before[bi]);
                        if book_index(after, id) == after.len() {
                            assert(after[bi].instrument()@ == id);
                        }
                    }
                }
                assert forall|j: int| 0 <= j < after.len() implies #[trigger] registered_from(
                    after[j],
                    topic_list@,
                    i + 1,
                ) by {
                    if j < before.len() {
                        assert(after[j] == before[j]);
                        assert(registered_from(before[j], topic_list@, i as int));
                        let k = choose|k: int|
                            0 <= k < i && before[j].instrument()@ == #[trigger] upper_topic(
                                topic_list@,
                                k,
                            );
                        assert(after[j].instrument()@ == upper_topic(topic_list@, k));
                    } else {
                        assert(after[j] == after.last());
                        assert(after[j].instrument()@ == upper_topic(topic_list@, i as int));
                    }
                }
                assert forall|j: int| 0 <= j < after.len() implies #[trigger] book_empty(after[j]) by {
                    if j < before.len() {
                        assert(after[j] == before[j]);
                        assert(book_empty(before[j]));
                    } else {
                        assert(after[j] == after.last());
                    }
                }
            }
            i = i + 1;
        }
        assert(topic_list@.map_values(|t: String| unicode_upper(t@)).take(n as int) =~= topic_list@.map_values(|t: String| unicode_upper(t@)));
        let s = BinanceFeedState { topic_list, order_books: books, timestamp_record: Vec::new() };
        assert(s.record() =~= Seq::<(Seq<char>, i64)>::empty());
        s
    }

    /// The order books, to send a copy of.
    pub fn order_books(&self) -> (r: &OrderBooks)
        ensures
            *r == self.books(),
    {
        &self.order_books
    }

    /// The subscription parameters: each symbol in lower case followed by
    /// `@bookTicker`.
    pub fn subscribe_params(&self) -> (r: Vec<String>)
        ensures
            r@.len() == self.topics().len(),
            forall|i: int|
                0 <= i < r@.len() ==> #[trigger] r@[i]@ == unicode_lower(self.topics()[i]@)
                    + "@bookTicker"@,
    {
        let mut out: Vec<String> = Vec::new();
        let n = self.topic_list.len();
        let mut i: usize = 0;
        while i < n
            invariant
                n == self.topic_list@.len(),
                i <= n,
                out@.len() == i,
                forall|k: int|
                    0 <= k < i ==> #[trigger] out@[k]@ == unicode_lower(self.topic_list@[k]@)
                        + "@bookTicker"@,
            decreases n - i,
        {
            let mut p = str_to_lowercase(self.topic_list[i].as_str());
            p.append("@bookTicker");
            out.push(p);
            i = i + 1;
        }
        out
    }

    /// When `sym` was last handled, 0 for never.
    fn last_handled(&self, sym: &String) -> (r: i64)
        ensures
            r == record_get(self.record(), sym@),
    {
        let n = self.timestamp_record.len();
        let ghost rec = self.record();
        let mut i: usize = 0;
        while i < n && !(self.timestamp_record[i].0 == *sym)
            invariant
                n == self.timestamp_record@.len(),
                rec == self.record(),
                rec.len() == n,
                i <= n,
                forall|k: int| 0 <= k < i ==> #[trigger] rec[k].0 != sym@,
            decreases n - i,
        {
            assert(rec[i as int].0 == self.timestamp_record@[i as int].0@);
            i = i + 1;
        }
        proof {
            if i < n {
                assert(rec[i as int].0 == self.timestamp_record@[i as int].0@);
            }
            lemma_record_index_at(rec, sym@, i as int);
        }
        if i < n {
            self.timestamp_record[i].1
        } else {
            0
        }
    }

    /// Notes `sym` as handled at `ts`.
    fn note_handled(&mut self, sym: String, ts: i64)
        ensures
            final(self).record() == record_put(old(self).record(), sym@, ts),
            final(self).topics() == old(self).topics(),
            final(self).books() == old(self).books(),
    {
        let n = self.timestamp_record.len();
        let ghost rec = self.record();
        let mut i: usize = 0;
        while i < n && !(self.timestamp_record[i].0 == sym)
            invariant
                n == self.timestamp_record@.len(),
                rec == self.record(),
                rec.len() == n,
                i <= n,
                forall|k: int| 0 <= k < i ==> #[trigger] rec[k].0 != sym@,
            decreases n - i,
        {
            assert(rec[i as int].0 == self.timestamp_record@[i as int].0@);
            i = i + 1;
        }
        proof {
            if i < n {
                assert(rec[i as int].0 == self.timestamp_record@[i as int].0@);
            }
            lemma_record_index_at(rec, sym@, i as int);
        }
        if i < n {
            self.timestamp_record.set(i, (sym, ts));
        } else {
            self.timestamp_record.push((sym, ts));
        }
        assert(self.record() =~= record_put(rec, sym@, ts));
    }

    /// Handles a best bid/ask push received at `server_ts` (ms): see `ticker_step`.
    pub fn on_book_ticker(&mut self, ev: &BookTickerEvent, server_ts: i64) -> (r: BinanceStep)
        ensures
            ticker_step(*old(self), *ev, server_ts, *final(self), r),
    {
        let sym: String = match &ev.symbol {
            Some(s) => s.clone(),
            None => "Unknown".to_owned(),
        };
        let last_ts = self.last_handled(&sym);
        let diff: i128 = last_ts as i128 - server_ts as i128;
        if !(diff > 1000 || diff < -1000 || last_ts == 0) {
            let r = BinanceStep { store: None, publish: false, outcome: Outcome::Done };
            return r;
        }
        if ev.event_time.is_none() {
            let r = BinanceStep {
                store: None,
                publish: false,
                outcome: Outcome::Failed(WebSocketError::ParseError("Missing event time".to_owned())),
            };
            return r;
        }
        let bid_order = match parse_level(&ev.bid_price, &ev.bid_qty) {
            Ok(l) => l,
            Err(e) => {
                let r = BinanceStep { store: None, publish: false, outcome: Outcome::Failed(e) };
                return r;
            },
        };
        let ask_order = match parse_level(&ev.ask_price, &ev.ask_qty) {
            Ok(l) => l,
            Err(e) => {
                let r = BinanceStep { store: None, publish: false, outcome: Outcome::Failed(e) };
                return r;
            },
        };
        self.note_handled(sym.clone(), server_ts);
        let store = ticker_store(ev, &sym, server_ts);
        match &ev.symbol {
            None => {
                let r = BinanceStep { store: Some(store), publish: false, outcome: Outcome::Abort };
                r
            },
            Some(s) => {
                proof {
                    lemma_book_index_props(self.order_books.books(), s@);
                }
                match self.order_books.get_orderbook_mut(s.as_str()) {
                    Some(orderbook) => {
                        let mut bids: Vec<OrderBookLevel> = Vec::new();
                        bids.push(bid_order);
                        let mut asks: Vec<OrderBookLevel> = Vec::new();
                        asks.push(ask_order);
                        proof {
                            lemma_single_sorted(bids@[0], true);
                            lemma_single_sorted(asks@[0], false);
                            assert(bids@ =~= seq![bids@[0]]);
                            assert(asks@ =~= seq![asks@[0]]);
                        }
                        orderbook.set_bids_on_snapshot(bids);
                        orderbook.set_asks_on_snapshot(asks);
                        let r = BinanceStep { store: Some(store), publish: true, outcome: Outcome::Done };
                        r
                    },
                    None => {
                        let r = BinanceStep {
                            store: Some(store),
                            publish: false,
                            outcome: Outcome::Failed(
                                WebSocketError::OrderBookError("Orderbook not found".to_owned()),
                            ),
                        };
                        r
                    },
                }
            },
        }
    }

    /// Handles one pushed message received at `server_ts` (ms): reads it as
    /// JSON, then acts on it by its event type (see `event_step`).
    pub fn process_text_message(&mut self, text: &str, server_ts: i64) -> (r: BinanceStep)
        ensures
            text_step(*old(self), text@, server_ts, *final(self), r),
    {
        match decode_binance_event(text) {
            Err(e) => BinanceStep {
                store: None,
                publish: false,
                outcome: Outcome::Failed(WebSocketError::JsonError(e)),
            },
            Ok(ev) => {
                let ghost old_state = *self;
                let r = match &ev {
                    BinanceEvent::BookTicker(t) => self.on_book_ticker(t, server_ts),
                    BinanceEvent::ForceOrder(f) => force_order_step(f),
                    BinanceEvent::Other => BinanceStep {
                        store: None,
                        publish: false,
                        outcome: Outcome::Done,
                    },
                };
                assert(binance_event_matches(ev, text@) && event_step(old_state, ev, server_ts, *self, r));
                r
            },
        }
    }
}

/// What handling a best bid/ask push does. With `sym` the symbol (or
/// "Unknown") and `last` when it was last handled: a push within a second of
/// the last is left alone; otherwise a push without event time, or whose bid
/// or ask does not read, fails with that reason and changes nothing; otherwise
/// the symbol is noted as handled now, the ticker is stored, and the book of
/// the symbol gets the bid and the ask as its only levels and a copy of the
/// books is sent; a push without symbol stops there, and a symbol without a
/// book fails.
pub open spec fn ticker_step(
    old: BinanceFeedState,
    ev: BookTickerEvent,
    now: i64,
    new: BinanceFeedState,
    r: BinanceStep,
) -> bool {
    let sym = text_or(ev.symbol, "Unknown"@);
    let last = record_get(old.record(), sym);
    if !passes_throttle(last, now) {
        r.store is None && !r.publish && r.outcome is Done && new.same_as(&old)
    } else if ev.event_time is None {
        &&& r.store is None && !r.publish
        &&& r.outcome matches Outcome::Failed(WebSocketError::ParseError(m)) && m@
            == "Missing event time"@
        &&& new.same_as(&old)
    } else if level_parse(ev.bid_price, ev.bid_qty) is Err {
        &&& r.store is None && !r.publish
        &&& r.outcome matches Outcome::Failed(WebSocketError::ParseError(m)) && m@ == level_parse(
            ev.bid_price,
            ev.bid_qty,
        )->Err_0
        &&& new.same_as(&old)
    } else if level_parse(ev.ask_price, ev.ask_qty) is Err {
        &&& r.store is None && !r.publish
        &&& r.outcome matches Outcome::Failed(WebSocketError::ParseError(m)) && m@ == level_parse(
            ev.ask_price,
            ev.ask_qty,
        )->Err_0
        &&& new.same_as(&old)
    } else {
        let bid = level_parse(ev.bid_price, ev.bid_qty)->Ok_0;
        let ask = level_parse(ev.ask_price, ev.ask_qty)->Ok_0;
        &&& new.record() == record_put(old.record(), sym, now)
        &&& new.topics() == old.topics()
        &&& r.store matches Some(h) && hash_view(h) == ticker_hash(ev, now)
        &&& new.books().exchange() == old.books().exchange()
        &&& match ev.symbol {
            None => !r.publish && r.outcome is Abort && new.books() == old.books(),
            Some(s) => {
                let bs = old.books().books();
                let i = book_index(bs, s@) as int;
                if i < bs.len() {
                    &&& r.publish && r.outcome is Done
                    &&& new.books().books().len() == bs.len()
                    &&& forall|j: int|
                        0 <= j < bs.len() && j != i ==> #[trigger] new.books().books()[j] == bs[j]
                    &&& ticker_applied(bs[i], new.books().books()[i], bid, ask)
                } else {
                    &&& !r.publish
                    &&& r.outcome matches Outcome::Failed(WebSocketError::OrderBookError(m)) && m@
                        == "Orderbook not found"@
                    &&& new.books() == old.books()
                }
            },
        }
    }
}

/// What handling a liquidation push does: without event time it fails;
/// without the order details it stops; otherwise the liquidation is stored.
/// The feed state does not change.
pub open spec fn force_step(ev: ForceOrderEvent, r: BinanceStep) -> bool {
    if ev.event_time is None {
        &&& r.store is None && !r.publish
        &&& r.outcome matches Outcome::Failed(WebSocketError::ParseError(m)) && m@
            == "Missing event time"@
    } else {
        match ev.detail {
            None => r.store is None && !r.publish && r.outcome is Abort,
            Some(d) => r.store matches Some(h) && hash_view(h) == liquidation_hash(d) && !r.publish
                && r.outcome is Done,
        }
    }
}

/// What handling a pushed message does, by its event type; other event types
/// are ignored.
pub open spec fn event_step(
    old: BinanceFeedState,
    ev: BinanceEvent,
    now: i64,
    new: BinanceFeedState,
    r: BinanceStep,
) -> bool {
    match ev {
        BinanceEvent::BookTicker(t) => ticker_step(old, t, now, new, r),
        BinanceEvent::ForceOrder(f) => force_step(f, r) && new.same_as(&old),
        BinanceEvent::Other => r.store is None && !r.publish && r.outcome is Done && new.same_as(
            &old,
        ),
    }
}

proof fn lemma_record_index_props(rec: Seq<(Seq<char>, i64)>, sym: Seq<char>)
    ensures
        record_index(rec, sym) <= rec.len(),
        forall|k: int| 0 <= k < record_index(rec, sym) ==> #[trigger] rec[k].0 != sym,
        record_index(rec, sym) < rec.len() ==> rec[record_index(rec, sym) as int].0 == sym,
    decreases rec.len(),
{
    if rec.len() > 0 && rec[0].0 != sym {
        lemma_record_index_props(rec.drop_first(), sym);
        assert forall|k: int| 0 <= k < record_index(rec, sym) implies #[trigger] rec[k].0 != sym by {
            if k > 0 {
                assert(rec[k] == rec.drop_first()[k - 1]);
            }
        }
    }
}

/// Record law: the time noted for a symbol is the time read back for it, and
/// every other symbol reads as before.
pub proof fn lemma_record_put_get(rec: Seq<(Seq<char>, i64)>, sym: Seq<char>, ts: i64, other: Seq<char>)
    ensures
        record_get(record_put(rec, sym, ts), sym) == ts,
        other != sym ==> record_get(record_put(rec, sym, ts), other) == record_get(rec, other),
{
    lemma_record_index_props(rec, sym);
    lemma_record_index_props(rec, other);
    let r = record_put(rec, sym, ts);
    let i = record_index(rec, sym) as int;
    if i < rec.len() {
        lemma_record_index_at(r, sym, i);
    } else {
        lemma_record_index_at(r, sym, i);
    }
    if other != sym {
        let j = record_index(rec, other) as int;
        if j < rec.len() {
            assert(r[j] == rec[j]);
            lemma_record_index_at(r, other, j);
        } else {
            assert forall|k: int| 0 <= k < r.len() implies #[trigger] r[k].0 != other by {
                if k < rec.len() && k != i {
                    assert(r[k] == rec[k]);
                }
            }
            lemma_record_index_at(r, other, r.len() as int);
        }
    }
}

/// Throttle law: once a symbol's ticker has been handled at time `now1` (not
/// 0), a ticker of the same symbol at a time within a second of it is left
/// alone: nothing is stored, sent or changed.
pub proof fn lemma_throttle(
    s1: BinanceFeedState,
    ev1: BookTickerEvent,
    now1: i64,
    s2: BinanceFeedState,
    r1: BinanceStep,
    ev2: BookTickerEvent,
    now2: i64,
    s3: BinanceFeedState,
    r2: BinanceStep,
)
    requires
        ticker_step(s1, ev1, now1, s2, r1),
        r1.store is Some,
        ticker_step(s2, ev2, now2, s3, r2),
        text_or(ev2.symbol, "Unknown"@) == text_or(ev1.symbol, "Unknown"@),
        now1 != 0,
        -1000 <= now2 - now1 <= 1000,
    ensures
        r2.store is None,
        !r2.publish,
        r2.outcome is Done,
        s3.same_as(&s2),
{
    let sym = text_or(ev1.symbol, "Unknown"@);
    lemma_record_put_get(s1.record(), sym, now1, sym);
}

/// Whether handling `ev` gave `r` by handling a best bid/ask push of `sym`:
/// the push passed the throttle, read, and was stored.
pub open spec fn handles_ticker(ev: BinanceEvent, sym: Seq<char>, r: BinanceStep) -> bool {
    ev matches BinanceEvent::BookTicker(t) && text_or(t.symbol, "Unknown"@) == sym && r.store is Some
}

/// Whether the states, messages, times and steps form a run: each step
/// handles its message at its time and leads to the next state.
pub open spec fn is_run(
    states: Seq<BinanceFeedState>,
    evs: Seq<BinanceEvent>,
    times: Seq<i64>,
    steps: Seq<BinanceStep>,
) -> bool {
    &&& states.len() == evs.len() + 1
    &&& times.len() == evs.len()
    &&& steps.len() == evs.len()
    &&& forall|k: int|
        0 <= k < evs.len() ==> #[trigger] event_step(states[k], evs[k], times[k], states[k + 1], steps[k])
}

proof fn lemma_record_kept(
    states: Seq<BinanceFeedState>,
    evs: Seq<BinanceEvent>,
    times: Seq<i64>,
    steps: Seq<BinanceStep>,
    sym: Seq<char>,
    i: int,
    k: int,
)
    requires
        is_run(states, evs, times, steps),
        0 <= i < k <= evs.len(),
        handles_ticker(evs[i], sym, steps[i]),
        forall|m: int| i < m < k ==> !#[trigger] handles_ticker(evs[m], sym, steps[m]),
    ensures
        record_get(states[k].record(), sym) == times[i],
    decreases k - i,
{
    assert(event_step(states[i], evs[i], times[i], states[i + 1], steps[i]));
    if k == i + 1 {
        lemma_record_put_get(states[i].record(), sym, times[i], sym);
    } else {
        let m = k - 1;
        lemma_record_kept(states, evs, times, steps, sym, i, m);
        assert(event_step(states[m], evs[m], times[m], states[m + 1], steps[m]));
        assert(!handles_ticker(evs[m], sym, steps[m]));
        match evs[m] {
            BinanceEvent::BookTicker(t) => {
                let sm = text_or(t.symbol, "Unknown"@);
                if steps[m].store is Some {
                    assert(sm != sym);
                    lemma_record_put_get(states[m].record(), sm, times[m], sym);
                }
            },
            _ => {},
        }
    }
}

/// Throttle law over a run: of two best bid/ask pushes of one symbol that
/// are handled with none of that symbol handled between them, the second
/// comes more than a second before or after the first, unless the first was
/// handled at time 0.
pub proof fn lemma_throttle_run(
    states: Seq<BinanceFeedState>,
    evs: Seq<BinanceEvent>,
    times: Seq<i64>,
    steps: Seq<BinanceStep>,
    sym: Seq<char>,
    i: int,
    j: int,
)
    requires
        is_run(states, evs, times, steps),
        0 <= i < j < evs.len(),
        handles_ticker(evs[i], sym, steps[i]),
        handles_ticker(evs[j], sym, steps[j]),
        forall|m: int| i < m < j ==> !#[trigger] handles_ticker(evs[m], sym, steps[m]),
        times[i] != 0,
    ensures
        times[j] - times[i] > 1000 || times[i] - times[j] > 1000,
{
    lemma_record_kept(states, evs, times, steps, sym, i, j);
    assert(event_step(states[j], evs[j], times[j], states[j + 1], steps[j]));
}

/// Whether step `r` writes the ticker hash of `sym` to Redis.
pub open spec fn writes_ticker(r: BinanceStep, sym: Seq<char>) -> bool {
    r.store matches Some(h) && h.key@ == "Binance_ticker:"@ + sym
}

/// What handling the text `text` at `now` does (see `process_text_message`):
/// text that is not JSON fails and changes nothing; JSON is handled as the
/// event it holds.
pub open spec fn text_step(
    old: BinanceFeedState,
    text: Seq<char>,
    now: i64,
    new: BinanceFeedState,
    r: BinanceStep,
) -> bool {
    &&& !json_parses(text) ==> (r.store is None && !r.publish && (r.outcome is Failed
        && r.outcome->Failed_0 is JsonError) && new.same_as(&old))
    &&& json_parses(text) ==> (exists|ev: BinanceEvent|
        #[trigger] binance_event_matches(ev, text) && event_step(old, ev, now, new, r))
}

/// Whether the states, texts, times and steps form a run of
/// `process_text_message` calls: each step handles its text at its time and
/// leads to the next state.
pub open spec fn is_text_run(
    states: Seq<BinanceFeedState>,
    texts: Seq<Seq<char>>,
    times: Seq<i64>,
    steps: Seq<BinanceStep>,
) -> bool {
    &&& states.len() == texts.len() + 1
    &&& times.len() == texts.len()
    &&& steps.len() == texts.len()
    &&& forall|k: int|
        0 <= k < texts.len() ==> #[trigger] text_step(states[k], texts[k], times[k], states[k + 1], steps[k])
}

proof fn lemma_prefix_cancel(a: Seq<char>, x: Seq<char>, y: Seq<char>)
    requires
        a + x == a + y,
    ensures
        x == y,
{
    assert((a + x).skip(a.len() as int) =~= x);
    assert((a + y).skip(a.len() as int) =~= y);
}

/// A step writes the ticker hash of `sym` exactly when it handles a best
/// bid/ask push of `sym`; then `sym` is noted as handled at `now`, and the push
/// had passed the throttle. Any other step keeps what is noted for `sym`.
proof fn lemma_step_record(
    old: BinanceFeedState,
    ev: BinanceEvent,
    now: i64,
    new: BinanceFeedState,
    r: BinanceStep,
    sym: Seq<char>,
)
    requires
        event_step(old, ev, now, new, r),
    ensures
        writes_ticker(r, sym) <==> handles_ticker(ev, sym, r),
        writes_ticker(r, sym) ==> record_get(new.record(), sym) == now && passes_throttle(
            record_get(old.record(), sym),
            now,
        ),
        !writes_ticker(r, sym) ==> record_get(new.record(), sym) == record_get(old.record(), sym),
{
    reveal_strlit("Binance_ticker:");
    reveal_strlit("Binance_Liquidation:");
    match ev {
        BinanceEvent::BookTicker(t) => {
            let st = text_or(t.symbol, "Unknown"@);
            if r.store is Some {
                assert(r.store->0.key@ == "Binance_ticker:"@ + st);
                if writes_ticker(r, sym) {
                    lemma_prefix_cancel("Binance_ticker:"@, st, sym);
                }
                if st == sym {
                    lemma_record_put_get(old.record(), st, now, sym);
                } else {
                    assert(!writes_ticker(r, sym));
                    lemma_record_put_get(old.record(), st, now, sym);
                }
            }
        },
        BinanceEvent::ForceOrder(f) => {
            if r.store is Some {
                let k = r.store->0.key@;
                assert(k == "Binance_Liquidation:"@ + text_or(f.detail->0.symbol, "Unknown"@));
                assert(k[8] == 'L');
                assert(("Binance_ticker:"@ + sym)[8] == 't');
            }
        },
        BinanceEvent::Other => {},
    }
}

proof fn lemma_text_step_record(
    old: BinanceFeedState,
    text: Seq<char>,
    now: i64,
    new: BinanceFeedState,
    r: BinanceStep,
    sym: Seq<char>,
)
    requires
        text_step(old, text, now, new, r),
    ensures
        writes_ticker(r, sym) ==> record_get(new.record(), sym) == now && passes_throttle(
            record_get(old.record(), sym),
            now,
        ),
        !writes_ticker(r, sym) ==> record_get(new.record(), sym) == record_get(old.record(), sym),
{
    if json_parses(text) {
        let ev = choose|ev: BinanceEvent|
            #[trigger] binance_event_matches(ev, text) && event_step(old, ev, now, new, r);
        lemma_step_record(old, ev, now, new, r, sym);
    }
}

proof fn lemma_text_record_kept(
    states: Seq<BinanceFeedState>,
    texts: Seq<Seq<char>>,
    times: Seq<i64>,
    steps: Seq<BinanceStep>,
    sym: Seq<char>,
    i: int,
    k: int,
)
    requires
        is_text_run(states, texts, times, steps),
        0 <= i < k <= texts.len(),
        writes_ticker(steps[i], sym),
        forall|m: int| i < m < k ==> !#[trigger] writes_ticker(steps[m], sym),
    ensures
        record_get(states[k].record(), sym) == times[i],
    decreases k - i,
{
    if k == i + 1 {
        assert(text_step(states[i], texts[i], times[i], states[i + 1], steps[i]));
        lemma_text_step_record(states[i], texts[i], times[i], states[i + 1], steps[i], sym);
    } else {
        let m = k - 1;
        lemma_text_record_kept(states, texts, times, steps, sym, i, m);
        assert(text_step(states[m], texts[m], times[m], states[m + 1], steps[m]));
        assert(!writes_ticker(steps[m], sym));
        lemma_text_step_record(states[m], texts[m], times[m], states[m + 1], steps[m], sym);
    }
}

/// Throttle law over calls of `process_text_message`: of two calls that write
/// the ticker hash of one symbol, with no call between them writing it, the
/// second runs more than a second before or after the first (after it, when
/// the clock does not go back), unless the first ran at time 0.
pub proof fn lemma_throttle_text_run(
    states: Seq<BinanceFeedState>,
    texts: Seq<Seq<char>>,
    times: Seq<i64>,
    steps: Seq<BinanceStep>,
    sym: Seq<char>,
    i: int,
    j: int,
)
    requires
        is_text_run(states, texts, times, steps),
        0 <= i < j < texts.len(),
        writes_ticker(steps[i], sym),
        writes_ticker(steps[j], sym),
        forall|m: int| i < m < j ==> !#[trigger] writes_ticker(steps[m], sym),
        times[i] != 0,
    ensures
        times[j] - times[i] > 1000 || times[i] - times[j] > 1000,
        times[i] <= times[j] ==> times[j] - times[i] > 1000,
{
    lemma_text_record_kept(states, texts, times, steps, sym, i, j);
    assert(text_step(states[j], texts[j], times[j], states[j + 1], steps[j]));
    lemma_text_step_record(states[j], texts[j], times[j], states[j + 1], steps[j], sym);
}

/// Ticker law: after a ticker of a symbol with a book is handled, looking the
/// symbol up finds its book, whose only bid and only ask are the ticker's.
pub proof fn lemma_ticker_then_best(
    old: BinanceFeedState,
    ev: BookTickerEvent,
    now: i64,
    new: BinanceFeedState,
    r: BinanceStep,
)
    requires
        ticker_step(old, ev, now, new, r),
        r.publish,
    ensures
        ev.symbol is Some,
        book_index(new.books().books(), ev.symbol->0@) < new.books().books().len(),
        ({
            let b = new.books().books()[book_index(new.books().books(), ev.symbol->0@) as int];
            let bid = level_parse(ev.bid_price, ev.bid_qty)->Ok_0;
            let ask = level_parse(ev.ask_price, ev.ask_qty)->Ok_0;
            &&& b.bids().len() == 1 && b.bids()[0].price == bid.0 && b.bids()[0].quantity == bid.1
            &&& b.asks().len() == 1 && b.asks()[0].price == ask.0 && b.asks()[0].quantity == ask.1
        }),
{
    let id = ev.symbol->0@;
    let bs = old.books().books();
    let nbs = new.books().books();
    lemma_book_index_props(bs, id);
    let i = book_index(bs, id) as int;
    assert forall|k: int| 0 <= k < i implies #[trigger] nbs[k].instrument()@ != id by {
        assert(nbs[k] == bs[k]);
    }
    lemma_book_index_at(nbs, id, i);
}

/// An optional text, or `d` when there is none.
pub open spec fn or_text(o: Option<Seq<char>>, d: Seq<char>) -> Seq<char> {
    match o {
        Some(t) => t,
        None => d,
    }
}

/// The amount a text reads as (see `parse_units_spec`).
pub open spec fn amount_of(t: Seq<char>) -> Option<u64> {
    parse_units_spec(encode_utf8(t))
}

/// Book law for pushed text: when handling a text sends the books, the text
/// is a best bid/ask push whose symbol `s` has a book, and that book's only
/// bid is the price `b` for the quantity `B` of the text and its only ask the
/// price `a` for the quantity `A`.
pub proof fn lemma_text_ticker_book(
    old: BinanceFeedState,
    text: Seq<char>,
    now: i64,
    new: BinanceFeedState,
    r: BinanceStep,
)
    requires
        text_step(old, text, now, new, r),
        r.publish,
    ensures
        json_str_field(text, "e"@) == Some("bookTicker"@),
        json_str_field(text, "s"@) is Some,
        book_index(new.books().books(), json_str_field(text, "s"@)->0) < new.books().books().len(),
        ({
            let b = new.books().books()[book_index(new.books().books(), json_str_field(text, "s"@)->0) as int];
            &&& b.bids().len() == 1
            &&& Some(b.bids()[0].price) == amount_of(json_str_field(text, "b"@)->0)
            &&& Some(b.bids()[0].quantity) == amount_of(json_str_field(text, "B"@)->0)
            &&& b.asks().len() == 1
            &&& Some(b.asks()[0].price) == amount_of(json_str_field(text, "a"@)->0)
            &&& Some(b.asks()[0].quantity) == amount_of(json_str_field(text, "A"@)->0)
        }),
{
    let ev = choose|ev: BinanceEvent|
        #[trigger] binance_event_matches(ev, text) && event_step(old, ev, now, new, r);
    assert(binance_event_matches(ev, text) && event_step(old, ev, now, new, r));
    let t = ev->BookTicker_0;
    lemma_ticker_then_best(old, t, now, new, r);
}

/// Store law for pushed text: when handling a best bid/ask push stores a
/// hash, it is the hash of the text's symbol `s` (or `Unknown`) holding the
/// text's `b`, `a`, `B` and `A` as `bid`, `ask`, `bid_size` and `ask_size`
/// (each `0` when missing) and the handling time.
pub proof fn lemma_text_ticker_store(
    old: BinanceFeedState,
    text: Seq<char>,
    now: i64,
    new: BinanceFeedState,
    r: BinanceStep,
)
    requires
        text_step(old, text, now, new, r),
        json_str_field(text, "e"@) == Some("bookTicker"@),
        r.store is Some,
    ensures
        hash_view(r.store->0) == (
            "Binance_ticker:"@ + or_text(json_str_field(text, "s"@), "Unknown"@),
            seq![
                ("bid"@, or_text(json_str_field(text, "b"@), "0"@)),
                ("ask"@, or_text(json_str_field(text, "a"@), "0"@)),
                ("bid_size"@, or_text(json_str_field(text, "B"@), "0"@)),
                ("ask_size"@, or_text(json_str_field(text, "A"@), "0"@)),
                ("timestamp"@, ascii_chars(signed_decimal_bytes(now as int))),
            ],
        ),
{
    let ev = choose|ev: BinanceEvent|
        #[trigger] binance_event_matches(ev, text) && event_step(old, ev, now, new, r);
    assert(binance_event_matches(ev, text) && event_step(old, ev, now, new, r));
}

/// The text of an object member read from JSON, or `d` when it is not a string.
pub open spec fn member_or(f: Option<Option<Seq<char>>>, d: Seq<char>) -> Seq<char> {
    match f {
        Some(Some(t)) => t,
        _ => d,
    }
}

/// Store law for a pushed liquidation: when handling a `forceOrder` text
/// stores a hash, its order object `o` has all five members, and the hash is
/// that of its symbol `s` holding its `T`, `s`, `S`, `p` and `q` as `time`,
/// `symbol`, `side`, `price` and `quantity` (each `0`, or `Unknown` for
/// symbol and side, when not a string).
pub proof fn lemma_text_liquidation_store(
    old: BinanceFeedState,
    text: Seq<char>,
    now: i64,
    new: BinanceFeedState,
    r: BinanceStep,
)
    requires
        text_step(old, text, now, new, r),
        json_str_field(text, "e"@) == Some("forceOrder"@),
        r.store is Some,
    ensures
        json_object_field(text, "o"@, "q"@) is Some,
        hash_view(r.store->0) == (
            "Binance_Liquidation:"@ + member_or(json_object_field(text, "o"@, "s"@), "Unknown"@),
            seq![
                ("time"@, member_or(json_object_field(text, "o"@, "T"@), "0"@)),
                ("symbol"@, member_or(json_object_field(text, "o"@, "s"@), "Unknown"@)),
                ("side"@, member_or(json_object_field(text, "o"@, "S"@), "Unknown"@)),
                ("price"@, member_or(json_object_field(text, "o"@, "p"@), "0"@)),
                ("quantity"@, member_or(json_object_field(text, "o"@, "q"@), "0"@)),
            ],
        ),
{
    let ev = choose|ev: BinanceEvent|
        #[trigger] binance_event_matches(ev, text) && event_step(old, ev, now, new, r);
    assert(binance_event_matches(ev, text) && event_step(old, ev, now, new, r));
    reveal_strlit("bookTicker");
    reveal_strlit("forceOrder");
    assert("bookTicker"@ != "forceOrder"@) by {
        assert("bookTicker"@[0] != "forceOrder"@[0]);
    }
}

/// Liquidation law: a liquidation push with event time and order details is
/// stored under `Binance_Liquidation:` and its symbol, with fields `time`,
/// `symbol`, `side`, `price` and `quantity` holding the order's texts, each
/// only `0` (or `Unknown` for symbol and side) when the order lacks it.
pub proof fn lemma_liquidation_fields(ev: ForceOrderEvent, r: BinanceStep)
    requires
        force_step(ev, r),
        ev.event_time is Some,
        ev.detail is Some,
    ensures
        r.store is Some,
        !r.publish,
        r.outcome is Done,
        ({
            let d = ev.detail->0;
            let h = hash_view(r.store->0);
            &&& h.0 == "Binance_Liquidation:"@ + (if d.symbol is Some { d.symbol->0@ } else { "Unknown"@ })
            &&& h.1.len() == 5
            &&& h.1[0] == ("time"@, if d.time is Some { d.time->0@ } else { "0"@ })
            &&& h.1[1] == ("symbol"@, if d.symbol is Some { d.symbol->0@ } else { "Unknown"@ })
            &&& h.1[2] == ("side"@, if d.side is Some { d.side->0@ } else { "Unknown"@ })
            &&& h.1[3] == ("price"@, if d.price is Some { d.price->0@ } else { "0"@ })
            &&& h.1[4] == ("quantity"@, if d.quantity is Some { d.quantity->0@ } else { "0"@ })
        }),
{
}

/// A copy of an optional text, or `d` when there is none.
fn text_or_exec(o: &Option<String>, d: &str) -> (s: String)
    ensures
        s@ == text_or(*o, d@),
{
    match o {
        Some(t) => t.clone(),
        None => d.to_owned(),
    }
}

/// The hash a handled ticker is stored as (see `ticker_hash`).
fn ticker_store(ev: &BookTickerEvent, sym: &String, server_ts: i64) -> (h: RedisHash)
    requires
        sym@ == text_or(ev.symbol, "Unknown"@),
    ensures
        hash_view(h) == ticker_hash(*ev, server_ts),
{
    let mut key = "Binance_ticker:".to_owned();
    key.append(sym.as_str());
    let mut fields: Vec<(String, String)> = Vec::new();
    fields.push(("bid".to_owned(), text_or_exec(&ev.bid_price, "0")));
    fields.push(("ask".to_owned(), text_or_exec(&ev.ask_price, "0")));
    fields.push(("bid_size".to_owned(), text_or_exec(&ev.bid_qty, "0")));
    fields.push(("ask_size".to_owned(), text_or_exec(&ev.ask_qty, "0")));
    fields.push(("timestamp".to_owned(), format_i64(server_ts)));
    let h = RedisHash { key, fields };
    assert(hash_view(h).1 =~= ticker_hash(*ev, server_ts).1);
    h
}

/// Handles a liquidation push (see `force_step`).
pub fn force_order_step(ev: &ForceOrderEvent) -> (r: BinanceStep)
    ensures
        force_step(*ev, r),
{
    if ev.event_time.is_none() {
        return BinanceStep {
            store: None,
            publish: false,
            outcome: Outcome::Failed(WebSocketError::ParseError("Missing event time".to_owned())),
        };
    }
    match &ev.detail {
        None => BinanceStep { store: None, publish: false, outcome: Outcome::Abort },
        Some(d) => {
            let sym = text_or_exec(&d.symbol, "Unknown");
            let mut key = "Binance_Liquidation:".to_owned();
            key.append(sym.as_str());
            let mut fields: Vec<(String, String)> = Vec::new();
            fields.push(("time".to_owned(), text_or_exec(&d.time, "0")));
            fields.push(("symbol".to_owned(), sym));
            fields.push(("side".to_owned(), text_or_exec(&d.side, "Unknown")));
            fields.push(("price".to_owned(), text_or_exec(&d.price, "0")));
            fields.push(("quantity".to_owned(), text_or_exec(&d.quantity, "0")));
            let h = RedisHash { key, fields };
            assert(hash_view(h).1 =~= liquidation_hash(*d).1);
            BinanceStep { store: Some(h), publish: false, outcome: Outcome::Done }
        },
    }
}

/// The liquidation details the JSON text `text` holds: the five members of
/// its object `o`, when `o` is an object with all five.
pub open spec fn force_detail_matches(d: Option<ForceOrderDetail>, text: Seq<char>) -> bool {
    let t = json_object_field(text, "o"@, "T"@);
    let s = json_object_field(text, "o"@, "s"@);
    let side = json_object_field(text, "o"@, "S"@);
    let p = json_object_field(text, "o"@, "p"@);
    let q = json_object_field(text, "o"@, "q"@);
    if t is Some && s is Some && side is Some && p is Some && q is Some {
        &&& d is Some
        &&& opt_view(d->0.time) == t->0
        &&& opt_view(d->0.symbol) == s->0
        &&& opt_view(d->0.side) == side->0
        &&& opt_view(d->0.price) == p->0
        &&& opt_view(d->0.quantity) == q->0
    } else {
        d is None
    }
}

/// Whether `ev` is the event the JSON text `text` holds: by its member `e`, a
/// best bid/ask push (`bookTicker`) with members `s`, `E`, `b`, `B`, `a`, `A`,
/// a liquidation (`forceOrder`) with `E` and the details of `o`, or another
/// message.
pub open spec fn binance_event_matches(ev: BinanceEvent, text: Seq<char>) -> bool {
    let kind = json_str_field(text, "e"@);
    if kind == Some("bookTicker"@) {
        &&& ev is BookTicker
        &&& opt_view(ev->BookTicker_0.symbol) == json_str_field(text, "s"@)
        &&& ev->BookTicker_0.event_time == json_i64_field(text, "E"@)
        &&& opt_view(ev->BookTicker_0.bid_price) == json_str_field(text, "b"@)
        &&& opt_view(ev->BookTicker_0.bid_qty) == json_str_field(text, "B"@)
        &&& opt_view(ev->BookTicker_0.ask_price) == json_str_field(text, "a"@)
        &&& opt_view(ev->BookTicker_0.ask_qty) == json_str_field(text, "A"@)
    } else if kind == Some("forceOrder"@) {
        &&& ev is ForceOrder
        &&& ev->ForceOrder_0.event_time == json_i64_field(text, "E"@)
        &&& force_detail_matches(ev->ForceOrder_0.detail, text)
    } else {
        ev is Other
    }
}

/// Reads the liquidation details of the JSON text `text` (see `force_detail_matches`).
fn read_force_detail(text: &str) -> (d: Option<ForceOrderDetail>)
    ensures
        force_detail_matches(d, text@),
{
    let t = json_object_at(text, "o", "T");
    let s = json_object_at(text, "o", "s");
    let side = json_object_at(text, "o", "S");
    let p = json_object_at(text, "o", "p");
    let q = json_object_at(text, "o", "q");
    proof {
        reveal_strlit("o");
        reveal_strlit("T");
        reveal_strlit("s");
        reveal_strlit("S");
        reveal_strlit("p");
        reveal_strlit("q");
    }
    match (t, s, side, p, q) {
        (Some(t), Some(s), Some(side), Some(p), Some(q)) => Some(
            ForceOrderDetail { time: t, symbol: s, side, price: p, quantity: q },
        ),
        _ => None,
    }
}

/// Reads a pushed message as JSON, failing exactly when it is not JSON, and
/// gives the event it holds (see `binance_event_matches`).
pub fn decode_binance_event(text: &str) -> (r: Result<BinanceEvent, serde_json::Error>)
    ensures
        r is Ok <==> json_parses(text@),
        r matches Ok(ev) ==> binance_event_matches(ev, text@),
{
    match json_parse_error(text) {
        Some(e) => {
            return Err(e);
        },
        None => {},
    }
    let kind = json_str_at(text, "e");
    proof {
        reveal_strlit("e");
        reveal_strlit("s");
        reveal_strlit("E");
        reveal_strlit("b");
        reveal_strlit("B");
        reveal_strlit("a");
        reveal_strlit("A");
    }
    let book_ticker = "bookTicker".to_owned();
    let force_order = "forceOrder".to_owned();
    match kind {
        Some(k) => {
            if k == book_ticker {
                Ok(
                    BinanceEvent::BookTicker(
                        BookTickerEvent {
                            symbol: json_str_at(text, "s"),
                            event_time: json_i64_at(text, "E"),
                            bid_price: json_str_at(text, "b"),
                            bid_qty: json_str_at(text, "B"),
                            ask_price: json_str_at(text, "a"),
                            ask_qty: json_str_at(text, "A"),
                        },
                    ),
                )
            } else if k == force_order {
                let event_time = json_i64_at(text, "E");
                let detail = read_force_detail(text);
                Ok(BinanceEvent::ForceOrder(ForceOrderEvent { event_time, detail }))
            } else {
                Ok(BinanceEvent::Other)
            }
        },
        None => Ok(BinanceEvent::Other),
    }
}

} // verus!
