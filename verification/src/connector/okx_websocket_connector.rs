//! The decisions of the OKX public market-data feed: connection settings,
//! keep-alive pings, and what each pushed ticker does to the order books.
//! Sockets and channels are driven around these decisions by the caller.
use vstd::prelude::*;

pub use crate::connector::binance_websocket_connector::{
    Outcome, RetryDecision, WebSocketError,
};

use crate::bindings::{
    json_first_str_at, json_first_str_field, json_parse_error, json_parses, json_quote, json_quoted,
    opt_view,
};
use vstd::utf8::encode_utf8;
use crate::connector::binance_websocket_connector::{is_level, level_parse, parse_level};
use crate::model::book_side::{lemma_single_sorted, sort_side};
use crate::model::orderbook::{
    book_index, distinct_in_order, fresh_books, lemma_book_index_at, lemma_book_index_props,
    lemma_register_fresh, OrderBook, OrderBookLevel, OrderBooks,
};
use crate::util::decimal::{parse_i64, parse_i64_spec, parse_units_spec};
use crate::util::time_util::{reading_millis, valid_reading, Utils};

verus! {

/// How many connection attempts are made before giving up.
pub const MAX_RECONNECT_ATTEMPTS: u32 = 5;

/// Seconds to wait before trying a lost connection again.
pub const RECONNECT_DELAY_SECS: u64 = 5;

/// Milliseconds between keep-alive pings.
pub const PING_INTERVAL_MS: u128 = 3000;

/// Connection settings: attempts before giving up, the wait between attempts
/// and how long the socket may stay silent, in seconds.
pub struct ConnectorConfig {
    reconnect_attempts: u32,
    reconnect_delay_secs: u64,
    timeout_secs: u64,
}

impl ConnectorConfig {
    pub closed spec fn attempts(&self) -> u32 {
        self.reconnect_attempts
    }

    pub closed spec fn delay(&self) -> u64 {
        self.reconnect_delay_secs
    }

    pub closed spec fn timeout(&self) -> u64 {
        self.timeout_secs
    }

    /// Attempts before giving up.
    pub fn reconnect_attempts(&self) -> (r: u32)
        ensures
            r == self.attempts(),
    {
        self.reconnect_attempts
    }

    /// Seconds between attempts.
    pub fn reconnect_delay_secs(&self) -> (r: u64)
        ensures
            r == self.delay(),
    {
        self.reconnect_delay_secs
    }

    /// Seconds of silence after which the connection counts as lost.
    pub fn timeout_secs(&self) -> (r: u64)
        ensures
            r == self.timeout(),
    {
        self.timeout_secs
    }

    /// What to do after the connection attempt numbered `attempts + 1` failed:
    /// give up once that many attempts reach the configured number, otherwise
    /// wait the configured delay and try again.
    pub fn after_failed_attempt(&self, attempts: u32) -> (d: RetryDecision)
        requires
            attempts < u32::MAX,
        ensures
            d == (if attempts + 1 >= self.attempts() {
                RetryDecision::GiveUp { attempts: (attempts + 1) as u32 }
            } else {
                RetryDecision::Retry { attempts: (attempts + 1) as u32, delay_secs: self.delay() }
            }),
    {
        let made = attempts + 1;
        if made >= self.reconnect_attempts {
            RetryDecision::GiveUp { attempts: made }
        } else {
            RetryDecision::Retry { attempts: made, delay_secs: self.reconnect_delay_secs }
        }
    }
}

impl Default for ConnectorConfig {
    /// Five attempts, five seconds apart; five seconds of silence is a lost connection.
    fn default() -> (c: Self)
        ensures
            c.attempts() == MAX_RECONNECT_ATTEMPTS,
            c.delay() == RECONNECT_DELAY_SECS,
            c.timeout() == 5,
    {
        ConnectorConfig {
            reconnect_attempts: MAX_RECONNECT_ATTEMPTS,
            reconnect_delay_secs: RECONNECT_DELAY_SECS,
            timeout_secs: 5,
        }
    }
}

/// The request subscribing to the tickers of instrument `inst`, as serde_json
/// writes the object with members `op` `subscribe` and `args` holding one
/// object with `channel` `tickers` and `instId` (members in key order).
pub open spec fn okx_subscribe_text(inst: Seq<char>) -> Seq<char> {
    "{\"args\":[{\"channel\":\"tickers\",\"instId\":"@ + json_quoted(inst) + "}],\"op\":\"subscribe\"}"@
}

/// The request subscribing to the tickers of `inst_id` (see `okx_subscribe_text`).
pub fn ticker_subscribe_request(inst_id: &str) -> (r: String)
    ensures
        r@ == okx_subscribe_text(inst_id@),
{
    let mut out = "{\"args\":[{\"channel\":\"tickers\",\"instId\":".to_owned();
    let q = json_quote(inst_id);
    out.append(q.as_str());
    out.append("}],\"op\":\"subscribe\"}");
    out
}

/// The keep-alive ping, `{"op":"ping"}`.
pub fn ping_request() -> (r: String)
    ensures
        r@ == "{\"op\":\"ping\"}"@,
{
    "{\"op\":\"ping\"}".to_owned()
}

/// A ticker push: the instrument and the best bid and ask as text.
#[derive(Debug, Clone)]
pub struct OkxTickerEvent {
    pub ts: i64,
    pub inst_id: Option<String>,
    pub bid_px: Option<String>,
    pub bid_sz: Option<String>,
    pub ask_px: Option<String>,
    pub ask_sz: Option<String>,
}

/// A pushed message: the answer to a keep-alive ping, a ticker (a message
/// whose first data record carries a time stamp), or anything else.
#[derive(Debug, Clone)]
pub enum OkxMessage {
    Pong,
    Ticker(OkxTickerEvent),
    NoData,
}

/// What handling one message calls for: send a copy of the order books when
/// `publish`, end with `outcome`.
#[derive(Debug)]
pub struct OkxStep {
    pub publish: bool,
    pub outcome: Outcome,
}

/// The state of the OKX feed: the subscribed instruments, their order books
/// and when the last keep-alive ping went out (ms since 1970 UTC).
pub struct OkxFeedState {
    topic_list: Vec<String>,
    order_books: OrderBooks,
    last_ping: u128,
}

/// What handling a ticker does: a ticker without instrument stops; one whose
/// bid or ask does not read fails with that reason; otherwise the book of the
/// instrument gets the bid and the ask as its only levels and a copy of the
/// books is sent, or, for an instrument without a book, handling fails.
pub open spec fn okx_ticker_step(old: OkxFeedState, ev: OkxTickerEvent, new: OkxFeedState, r: OkxStep) -> bool {
    &&& new.topics() == old.topics()
    &&& new.ping_time() == old.ping_time()
    &&& match ev.inst_id {
        None => !r.publish && r.outcome is Abort && new.books() == old.books(),
        Some(id) => if level_parse(ev.bid_px, ev.bid_sz) is Err {
            &&& !r.publish
            &&& r.outcome matches Outcome::Failed(WebSocketError::ParseError(m)) && m@ == level_parse(
                ev.bid_px,
                ev.bid_sz,
            )->Err_0
            &&& new.books() == old.books()
        } else if level_parse(ev.ask_px, ev.ask_sz) is Err {
            &&& !r.publish
            &&& r.outcome matches Outcome::Failed(WebSocketError::ParseError(m)) && m@ == level_parse(
                ev.ask_px,
                ev.ask_sz,
            )->Err_0
            &&& new.books() == old.books()
        } else {
            let bid = level_parse(ev.bid_px, ev.bid_sz)->Ok_0;
            let ask = level_parse(ev.ask_px, ev.ask_sz)->Ok_0;
            let bs = old.books().books();
            let i = book_index(bs, id@) as int;
            if i < bs.len() {
                &&& r.publish && r.outcome is Done
                &&& new.books().exchange() == old.books().exchange()
                &&& new.books().books().len() == bs.len()
                &&& forall|j: int|
                    0 <= j < bs.len() && j != i ==> #[trigger] new.books().books()[j] == bs[j]
                &&& new.books().books()[i].bids().len() == 1
                &&& is_level(new.books().books()[i].bids()[0], bid.0, bid.1)
                &&& new.books().books()[i].asks().len() == 1
                &&& is_level(new.books().books()[i].asks()[0], ask.0, ask.1)
                &&& new.books().books()[i].instrument() == bs[i].instrument()
                &&& new.books().books()[i].stamp() == bs[i].stamp()
                &&& new.books().books()[i].exchange_checksum() == bs[i].exchange_checksum()
            } else {
                &&& !r.publish
                &&& r.outcome matches Outcome::Failed(WebSocketError::OrderBookError(m)) && m@
                    == "Orderbook not found"@
                &&& new.books() == old.books()
            }
        },
    }
}

/// What handling a pushed message does: a pong or a message without ticker
/// data is done with; a ticker is handled (see `okx_ticker_step`).
pub open spec fn okx_message_step(old: OkxFeedState, m: OkxMessage, new: OkxFeedState, r: OkxStep) -> bool {
    match m {
        OkxMessage::Ticker(t) => okx_ticker_step(old, t, new, r),
        _ => !r.publish && r.outcome is Done && new.same_as(&old),
    }
}

impl OkxFeedState {
    /// The subscribed instruments.
    pub closed spec fn topics(&self) -> Seq<String> {
        self.topic_list@
    }

    /// The order books.
    pub closed spec fn books(&self) -> OrderBooks {
        self.order_books
    }

    /// When the last keep-alive ping went out.
    pub closed spec fn ping_time(&self) -> u128 {
        self.last_ping
    }

    /// Two states hold the same instruments, books and ping time.
    pub open spec fn same_as(&self, other: &Self) -> bool {
        &&& self.topics() == other.topics()
        &&& self.books() == other.books()
        &&& self.ping_time() == other.ping_time()
    }

    /// The feed for `topic_list` as of `now` (ms): one empty book per
    /// instrument, and the last ping counted as sent now.
    pub fn new_at(topic_list: Vec<String>, now: u128) -> (s: Self)
        ensures
            s.topics() == topic_list@,
            s.ping_time() == now,
            s.books().exchange()@ == "OKX"@,
            s.books().wf(),
            forall|i: int|
                0 <= i < topic_list@.len() ==> book_index(s.books().books(), #[trigger] topic_list@[i]@)
                    < s.books().books().len(),
            forall|j: int|
                0 <= j < s.books().books().len() ==> #[trigger] registered_topic(
                    s.books().books()[j],
                    topic_list@,
                    topic_list@.len() as int,
                ),
            forall|j: int|
                0 <= j < s.books().books().len() ==> #[trigger] s.books().books()[j].bids().len() == 0,
            forall|j: int|
                0 <= j < s.books().books().len() ==> #[trigger] s.books().books()[j].asks().len() == 0,
            fresh_books(s.books().books(), distinct_in_order(topic_list@.map_values(|t: String| t@))),
    {
        let mut books = OrderBooks::new("OKX".to_owned());
        let n = topic_list.len();
        let mut i: usize = 0;
        while i < n
            invariant
                n == topic_list@.len(),
                i <= n,
                books.exchange()@ == "OKX"@,
                books.wf(),
                forall|k: int|
                    0 <= k < i ==> book_index(books.books(), #[trigger] topic_list@[k]@)
                        < books.books().len(),
                forall|j: int|
                    0 <= j < books.books().len() ==> #[trigger] registered_topic(
                        books.books()[j],
                        topic_list@,
                        i as int,
                    ),
                forall|j: int|
                    0 <= j < books.books().len() ==> #[trigger] books.books()[j].bids().len() == 0,
                forall|j: int|
                    0 <= j < books.books().len() ==> #[trigger] books.books()[j].asks().len() == 0,
                fresh_books(books.books(), distinct_in_order(topic_list@.map_values(|t: String| t@).take(i as int))),
            decreases n - i,
        {
            let ghost before = books.books();
            let ghost id = topic_list@[i as int]@;
            proof {
                lemma_book_index_props(before, id);
            }
            books.register_orderbook(topic_list[i].as_str());
            proof {
                let after = books.books();
                let names = topic_list@.map_values(|t: String| t@);
                lemma_register_fresh(before, names.take(i as int), id, after);
                assert(names.take(i + 1) =~= names.take(i as int).push(id));
                lemma_book_index_props(after, id);
                assert forall|k: int| 0 <= k < i + 1 implies book_index(
                    after,
                    #[trigger] topic_list@[k]@,
                ) < after.len() by {
                    if k < i {
                        let kid = topic_list@[k]@;
                        lemma_book_index_props(before, kid);
                        lemma_book_index_props(after, kid);
                        let bi = book_index(before, kid) as int;
                        assert(after[bi] == before[bi]);
                        if book_index(after, kid) == after.len() {
                            assert(after[bi].instrument()@ == kid);
                        }
                    }
                }
                assert forall|j: int| 0 <= j < after.len() implies #[trigger] registered_topic(
                    after[j],
                    topic_list@,
                    i + 1,
                ) by {
                    if j < before.len() {
                        assert(after[j] == before[j]);
                        assert(registered_topic(before[j], topic_list@, i as int));
                        let k = choose|k: int|
                            0 <= k < i && before[j].instrument()@ == #[trigger] topic_text(
                                topic_list@,
                                k,
                            );
                        assert(after[j].instrument()@ == topic_text(topic_list@, k));
                    } else {
                        assert(after[j] == after.last());
                        assert(after[j].instrument()@ == topic_text(topic_list@, i as int));
                    }
                }
                assert forall|j: int| 0 <= j < after.len() implies #[trigger] after[j].bids().len()
                    == 0 by {
                    if j < before.len() {
                        assert(after[j] == before[j]);
                        assert(before[j].bids().len() == 0);
                    } else {
                        assert(after[j] == after.last());
                    }
                }
                assert forall|j: int| 0 <= j < after.len() implies #[trigger] after[j].asks().len()
                    == 0 by {
                    if j < before.len() {
                        assert(after[j] == before[j]);
                        assert(before[j].asks().len() == 0);
                    } else {
                        assert(after[j] == after.last());
                    }
                }
            }
            i = i + 1;
        }
        assert(topic_list@.map_values(|t: String| t@).take(n as int) =~= topic_list@.map_values(|t: String| t@));
        OkxFeedState { topic_list, order_books: books, last_ping: now }
    }

    /// The feed for `topic_list`, the last ping counted as sent now by the
    /// system clock.
    pub fn new(topic_list: Vec<String>) -> (s: Self)
        ensures
            s.topics() == topic_list@,
            s.books().exchange()@ == "OKX"@,
            s.books().wf(),
            forall|i: int|
                0 <= i < topic_list@.len() ==> book_index(s.books().books(), #[trigger] topic_list@[i]@)
                    < s.books().books().len(),
            forall|j: int|
                0 <= j < s.books().books().len() ==> #[trigger] registered_topic(
                    s.books().books()[j],
                    topic_list@,
                    topic_list@.len() as int,
                ),
            forall|j: int|
                0 <= j < s.books().books().len() ==> #[trigger] s.books().books()[j].bids().len() == 0,
            forall|j: int|
                0 <= j < s.books().books().len() ==> #[trigger] s.books().books()[j].asks().len() == 0,
            exists|rd: Option<(u64, u32)>| #[trigger] valid_reading(rd) && s.ping_time() == reading_millis(rd),
            fresh_books(s.books().books(), distinct_in_order(topic_list@.map_values(|t: String| t@))),
    {
        OkxFeedState::new_at(topic_list, Utils::get_current_timestamp_ms())
    }

    /// The order books, to send a copy of.
    pub fn order_books(&self) -> (r: &OrderBooks)
        ensures
            *r == self.books(),
    {
        &self.order_books
    }

    /// Whether a keep-alive ping is due at `now` (ms): more than three seconds
    /// after the last one. When it is, `now` becomes the time of the last ping.
    pub fn ping_due(&mut self, now: u128) -> (due: bool)
        ensures
            due == (old(self).ping_time() + PING_INTERVAL_MS < now),
            due ==> final(self).ping_time() == now,
            !due ==> final(self).ping_time() == old(self).ping_time(),
            final(self).topics() == old(self).topics(),
            final(self).books() == old(self).books(),
    {
        if self.last_ping < now && now - self.last_ping > PING_INTERVAL_MS {
            self.last_ping = now;
            true
        } else {
            false
        }
    }

    /// Handles a ticker push (see `okx_ticker_step`).
    pub fn on_ticker(&mut self, ev: &OkxTickerEvent) -> (r: OkxStep)
        ensures
            okx_ticker_step(*old(self), *ev, *final(self), r),
    {
        let id = match &ev.inst_id {
            None => {
                return OkxStep { publish: false, outcome: Outcome::Abort };
            },
            Some(s) => s,
        };
        let bid_order = match parse_level(&ev.bid_px, &ev.bid_sz) {
            Ok(l) => l,
            Err(e) => {
                return OkxStep { publish: false, outcome: Outcome::Failed(e) };
            },
        };
        let ask_order = match parse_level(&ev.ask_px, &ev.ask_sz) {
            Ok(l) => l,
            Err(e) => {
                return OkxStep { publish: false, outcome: Outcome::Failed(e) };
            },
        };
        proof {
            lemma_book_index_props(self.order_books.books(), id@);
        }
        match self.order_books.get_orderbook_mut(id.as_str()) {
            Some(orderbook) => {
                let mut bids: Vec<OrderBookLevel> = Vec::new();
                bids.push(bid_order);
                let mut asks: Vec<OrderBookLevel> = Vec::new();
                asks.push(ask_order);
                proof {
                    lemma_single_sorted(bids@[0], true);
                    lemma_single_sorted(asks@[0], false);
                    assert(bids@ =~= seq![bids@[0]]);
                    assert(asks@ =~= seq![asks@[0]]);
                }
                orderbook.set_bids_on_snapshot(bids);
                orderbook.set_asks_on_snapshot(asks);
                OkxStep { publish: true, outcome: Outcome::Done }
            },
            None => OkxStep {
                publish: false,
                outcome: Outcome::Failed(WebSocketError::OrderBookError("Orderbook not found".to_owned())),
            },
        }
    }

    /// Handles one pushed message: reads it (see `decode_okx_message`), then
    /// acts on it (see `okx_message_step`).
    pub fn process_text_message(&mut self, text: &str) -> (r: OkxStep)
        ensures
            okx_text_step(*old(self), text@, *final(self), r),
    {
        match decode_okx_message(text) {
            Err(e) => OkxStep { publish: false, outcome: Outcome::Failed(WebSocketError::JsonError(e)) },
            Ok(m) => {
                let ghost old_state = *self;
                let r = match &m {
                    OkxMessage::Ticker(t) => self.on_ticker(t),
                    _ => OkxStep { publish: false, outcome: Outcome::Done },
                };
                assert(okx_message_matches(m, text@) && okx_message_step(old_state, m, *self, r));
                r
            },
        }
    }
}

/// Keep-alive law: after a ping goes out at `now`, no ping is due at any
/// time up to three seconds later.
pub proof fn lemma_ping_spacing(s: OkxFeedState, now: u128, later: u128)
    requires
        s.ping_time() == now,
        later <= now + PING_INTERVAL_MS,
    ensures
        !(s.ping_time() + PING_INTERVAL_MS < later),
{
}

/// Ticker law: after a ticker is handled and the books sent, looking its
/// instrument up finds its book, whose only bid and only ask are the ticker's.
pub proof fn lemma_okx_ticker_then_best(old: OkxFeedState, ev: OkxTickerEvent, new: OkxFeedState, r: OkxStep)
    requires
        okx_ticker_step(old, ev, new, r),
        r.publish,
    ensures
        ev.inst_id is Some,
        book_index(new.books().books(), ev.inst_id->0@) < new.books().books().len(),
        ({
            let b = new.books().books()[book_index(new.books().books(), ev.inst_id->0@) as int];
            let bid = level_parse(ev.bid_px, ev.bid_sz)->Ok_0;
            let ask = level_parse(ev.ask_px, ev.ask_sz)->Ok_0;
            &&& b.bids().len() == 1 && b.bids()[0].price == bid.0 && b.bids()[0].quantity == bid.1
            &&& b.asks().len() == 1 && b.asks()[0].price == ask.0 && b.asks()[0].quantity == ask.1
        }),
{
    let id = ev.inst_id->0@;
    let bs = old.books().books();
    let nbs = new.books().books();
    lemma_book_index_props(bs, id);
    let i = book_index(bs, id) as int;
    assert forall|k: int| 0 <= k < i implies #[trigger] nbs[k].instrument()@ != id by {
        assert(nbs[k] == bs[k]);
    }
    lemma_book_index_at(nbs, id, i);
}

/// What handling the text `text` does (see `process_text_message`): `pong`
/// is done with; other text that is not JSON fails and changes nothing; JSON
/// is handled as the message it holds.
pub open spec fn okx_text_step(old: OkxFeedState, text: Seq<char>, new: OkxFeedState, r: OkxStep) -> bool {
    &&& text == "pong"@ ==> (!r.publish && r.outcome is Done && new.same_as(&old))
    &&& text != "pong"@ && !json_parses(text) ==> (!r.publish && (r.outcome is Failed
        && r.outcome->Failed_0 is JsonError) && new.same_as(&old))
    &&& text != "pong"@ && json_parses(text) ==> (exists|m: OkxMessage|
        #[trigger] okx_message_matches(m, text) && okx_message_step(old, m, new, r))
}

/// Book law for pushed text: when handling a text sends the books, its first
/// `data` record names an instrument with a book, and that book's only bid is
/// the price `bidPx` for the quantity `bidSz` of the record and its only ask
/// the price `askPx` for the quantity `askSz`.
pub proof fn lemma_okx_text_book(old: OkxFeedState, text: Seq<char>, new: OkxFeedState, r: OkxStep)
    requires
        okx_text_step(old, text, new, r),
        r.publish,
    ensures
        json_first_str_field(text, "data"@, "instId"@) is Some,
        book_index(new.books().books(), json_first_str_field(text, "data"@, "instId"@)->0)
            < new.books().books().len(),
        ({
            let b = new.books().books()[book_index(
                new.books().books(),
                json_first_str_field(text, "data"@, "instId"@)->0,
            ) as int];
            &&& b.bids().len() == 1
            &&& Some(b.bids()[0].price) == parse_units_spec(
                encode_utf8(json_first_str_field(text, "data"@, "bidPx"@)->0),
            )
            &&& Some(b.bids()[0].quantity) == parse_units_spec(
                encode_utf8(json_first_str_field(text, "data"@, "bidSz"@)->0),
            )
            &&& b.asks().len() == 1
            &&& Some(b.asks()[0].price) == parse_units_spec(
                encode_utf8(json_first_str_field(text, "data"@, "askPx"@)->0),
            )
            &&& Some(b.asks()[0].quantity) == parse_units_spec(
                encode_utf8(json_first_str_field(text, "data"@, "askSz"@)->0),
            )
        }),
{
    let m = choose|m: OkxMessage| #[trigger] okx_message_matches(m, text) && okx_message_step(old, m, new, r);
    assert(okx_message_matches(m, text) && okx_message_step(old, m, new, r));
    let t = m->Ticker_0;
    lemma_okx_ticker_then_best(old, t, new, r);
}

/// The `k`-th instrument.
pub open spec fn topic_text(topics: Seq<String>, k: int) -> Seq<char> {
    topics[k]@
}

/// Whether a book belongs to one of the first `n` instruments.
pub open spec fn registered_topic(b: OrderBook, topics: Seq<String>, n: int) -> bool {
    exists|k: int| 0 <= k < n && b.instrument()@ == #[trigger] topic_text(topics, k)
}

/// What member `key` of the first `data` record of the JSON text `text` gives
/// as a string.
pub open spec fn okx_field(text: Seq<char>, key: Seq<char>) -> Option<Seq<char>> {
    json_first_str_field(text, "data"@, key)
}

/// The time stamp of a pushed message: the `ts` of its first `data` record,
/// when that is a string that reads as an integer.
pub open spec fn okx_stamp(text: Seq<char>) -> Option<i64> {
    match okx_field(text, "ts"@) {
        Some(t) => parse_i64_spec(encode_utf8(t)),
        None => None,
    }
}

/// Whether `m` is the message the text `text` holds: `pong` answers a ping; a
/// message with a time stamp (see `okx_stamp`) is a ticker carrying the
/// `instId`, `bidPx`, `bidSz`, `askPx` and `askSz` of its first `data` record;
/// any other is a message without ticker data.
pub open spec fn okx_message_matches(m: OkxMessage, text: Seq<char>) -> bool {
    if text == "pong"@ {
        m is Pong
    } else if okx_stamp(text) is Some {
        &&& m is Ticker
        &&& m->Ticker_0.ts == okx_stamp(text)->0
        &&& opt_view(m->Ticker_0.inst_id) == okx_field(text, "instId"@)
        &&& opt_view(m->Ticker_0.bid_px) == okx_field(text, "bidPx"@)
        &&& opt_view(m->Ticker_0.bid_sz) == okx_field(text, "bidSz"@)
        &&& opt_view(m->Ticker_0.ask_px) == okx_field(text, "askPx"@)
        &&& opt_view(m->Ticker_0.ask_sz) == okx_field(text, "askSz"@)
    } else {
        m is NoData
    }
}

/// Reads a pushed message (see `okx_message_matches`): the text `pong`
/// answers a ping; any other text is read as JSON, failing exactly when it is
/// not JSON.
pub fn decode_okx_message(text: &str) -> (r: Result<OkxMessage, serde_json::Error>)
    ensures
        text@ == "pong"@ ==> r matches Ok(OkxMessage::Pong),
        text@ != "pong"@ ==> (r is Ok <==> json_parses(text@)),
        r matches Ok(m) ==> okx_message_matches(m, text@),
{
    let t = text.to_owned();
    let pong = "pong".to_owned();
    if t == pong {
        return Ok(OkxMessage::Pong);
    }
    match json_parse_error(text) {
        Some(e) => {
            return Err(e);
        },
        None => {},
    }
    proof {
        reveal_strlit("data");
        reveal_strlit("ts");
        reveal_strlit("instId");
        reveal_strlit("bidPx");
        reveal_strlit("bidSz");
        reveal_strlit("askPx");
        reveal_strlit("askSz");
    }
    let ts = match json_first_str_at(text, "data", "ts") {
        None => {
            return Ok(OkxMessage::NoData);
        },
        Some(s) => match parse_i64(s.as_str()) {
            None => {
                return Ok(OkxMessage::NoData);
            },
            Some(x) => x,
        },
    };
    Ok(
        OkxMessage::Ticker(
            OkxTickerEvent {
                ts,
                inst_id: json_first_str_at(text, "data", "instId"),
                bid_px: json_first_str_at(text, "data", "bidPx"),
                bid_sz: json_first_str_at(text, "data", "bidSz"),
                ask_px: json_first_str_at(text, "data", "askPx"),
                ask_sz: json_first_str_at(text, "data", "askSz"),
            },
        ),
    )
}

} // verus!
