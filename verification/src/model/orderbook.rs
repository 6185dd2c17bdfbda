//! Order books: price levels, one book per instrument kept in price order, its
//! checksum, and a collection of books keyed by instrument.
//!
//! Prices and quantities are whole counts of 10^-8 units (see `util::decimal`).
use vstd::prelude::*;
use vstd::string::StringSliceAdditionalSpecFns;

use vstd::string::StringExecFns;
use vstd::utf8::encode_utf8;

use crate::bindings::{crc32_ieee, crc32_of};
use crate::model::book_side::{
    apply_update, first_not_better, insert_all, insert_sorted, lemma_first_not_better_at,
    lemma_first_is_best, lemma_insert_sorted_at, lemma_sort_side, lemma_update_sorted, lemma_update_strictly_sorted,
    ranks_before, side_sorted, side_strictly_sorted, sort_side, strictly_better,
};
use crate::util::decimal::{ascii_chars, fixed8_bytes, format_fixed8};

verus! {

/// One price level: a price, the quantity resting there, and both written
/// with eight decimals as the exchange checksum reads them.
#[derive(Debug)]
pub struct OrderBookLevel {
    pub price: u64,
    pub quantity: u64,
    pub price_string: String,
    pub quantity_string: String,
}

impl Clone for OrderBookLevel {
    fn clone(&self) -> (r: Self)
        ensures
            r == *self,
    {
        OrderBookLevel {
            price: self.price,
            quantity: self.quantity,
            price_string: self.price_string.clone(),
            quantity_string: self.quantity_string.clone(),
        }
    }
}

impl OrderBookLevel {
    /// A level at `price` holding `quantity`, with both written to eight decimals.
    pub fn new(price: u64, quantity: u64) -> (l: Self)
        ensures
            l.price == price,
            l.quantity == quantity,
            l.price_string@ == ascii_chars(fixed8_bytes(price as nat)),
            l.quantity_string@ == ascii_chars(fixed8_bytes(quantity as nat)),
    {
        OrderBookLevel {
            price,
            quantity,
            price_string: format_fixed8(price),
            quantity_string: format_fixed8(quantity),
        }
    }
}


/// Whether `a` ranks before `b` on a side in the given order (run-time form).
fn ranks_before_exec(a: &OrderBookLevel, b: &OrderBookLevel, desc: bool) -> (r: bool)
    ensures
        r == ranks_before(*a, *b, desc),
{
    if desc {
        a.price >= b.price
    } else {
        a.price <= b.price
    }
}

/// Whether price `p` is strictly better than `q` (run-time form).
fn strictly_better_exec(p: u64, q: u64, desc: bool) -> (r: bool)
    ensures
        r == strictly_better(p, q, desc),
{
    if desc {
        p > q
    } else {
        p < q
    }
}

/// Inserts `x` into `side` after every level that ranks before it.
fn insert_level(side: &mut Vec<OrderBookLevel>, x: OrderBookLevel, desc: bool)
    ensures
        final(side)@ == insert_sorted(old(side)@, x, desc),
{
    let mut j = side.len();
    while j > 0 && !ranks_before_exec(&side[j - 1], &x, desc)
        invariant
            j <= side@.len(),
            forall|k: int| j <= k < side@.len() ==> !ranks_before(#[trigger] side@[k], x, desc),
        decreases j,
    {
        j = j - 1;
    }
    proof {
        lemma_insert_sorted_at(side@, x, desc, j as int);
    }
    side.insert(j, x);
}

/// Sorts levels by price, best first, keeping levels of equal price in the
/// order given.
fn sort_levels(levels: Vec<OrderBookLevel>, desc: bool) -> (r: Vec<OrderBookLevel>)
    ensures
        r@ == sort_side(levels@, desc),
{
    let mut rest = levels;
    let mut out: Vec<OrderBookLevel> = Vec::new();
    assert(insert_all(out@, rest@, desc) == sort_side(levels@, desc));
    while rest.len() > 0
        invariant
            insert_all(out@, rest@, desc) == sort_side(levels@, desc),
        decreases rest@.len(),
    {
        let ghost before = rest@;
        let x = rest.remove(0);
        assert(rest@ =~= before.drop_first());
        insert_level(&mut out, x, desc);
    }
    out
}

/// Applies an incremental update to one side (see `apply_update`).
fn update_side(side: &mut Vec<OrderBookLevel>, l: OrderBookLevel, desc: bool)
    ensures
        final(side)@ == apply_update(old(side)@, l, desc),
{
    let n = side.len();
    if n == 0 || strictly_better_exec(side[n - 1].price, l.price, desc) {
        side.push(l);
        return;
    }
    let mut i: usize = 0;
    while i < n && strictly_better_exec(side[i].price, l.price, desc)
        invariant
            n == side@.len(),
            i <= n,
            forall|k: int| 0 <= k < i ==> strictly_better(#[trigger] side@[k].price, l.price, desc),
        decreases n - i,
    {
        i = i + 1;
    }
    proof {
        lemma_first_not_better_at(side@, l.price, desc, i as int);
    }
    if i < n {
        if side[i].price == l.price {
            if l.quantity == 0 {
                side.remove(i);
            } else {
                side.set(i, l);
            }
        } else {
            side.insert(i, l);
        }
    }
}

/// The text a level contributes to the checksum: price, colon, quantity, colon.
pub open spec fn level_text(l: OrderBookLevel) -> Seq<u8> {
    encode_utf8(l.price_string@) + seq![58u8] + encode_utf8(l.quantity_string@) + seq![58u8]
}

/// The first `n` rows of checksum text: row `i` is bid `i` then ask `i`,
/// each where the side has one.
pub open spec fn checksum_rows(bids: Seq<OrderBookLevel>, asks: Seq<OrderBookLevel>, n: nat) -> Seq<
    u8,
>
    decreases n,
{
    if n == 0 {
        seq![]
    } else {
        let i = (n - 1) as int;
        checksum_rows(bids, asks, (n - 1) as nat) + (if i < bids.len() {
            level_text(bids[i])
        } else {
            seq![]
        }) + (if i < asks.len() {
            level_text(asks[i])
        } else {
            seq![]
        })
    }
}

/// Number of rows the checksum covers: the deeper side, at most 25 levels.
pub open spec fn checksum_depth(bids: Seq<OrderBookLevel>, asks: Seq<OrderBookLevel>) -> nat {
    let m = if bids.len() >= asks.len() {
        bids.len()
    } else {
        asks.len()
    };
    if m <= 25 {
        m
    } else {
        25
    }
}

/// The text that is checksummed: the covered rows without the final colon.
pub open spec fn checksum_text(bids: Seq<OrderBookLevel>, asks: Seq<OrderBookLevel>) -> Seq<u8> {
    let raw = checksum_rows(bids, asks, checksum_depth(bids, asks));
    if raw.len() > 0 {
        raw.drop_last()
    } else {
        raw
    }
}

proof fn lemma_rows_prefix(bids: Seq<OrderBookLevel>, asks: Seq<OrderBookLevel>, i: nat, n: nat)
    requires
        i <= n,
    ensures
        checksum_rows(bids, asks, i).len() <= checksum_rows(bids, asks, n).len(),
        checksum_rows(bids, asks, n).subrange(0, checksum_rows(bids, asks, i).len() as int)
            == checksum_rows(bids, asks, i),
    decreases n,
{
    if i < n {
        lemma_rows_prefix(bids, asks, i, (n - 1) as nat);
        let a = checksum_rows(bids, asks, (n - 1) as nat);
        let r = checksum_rows(bids, asks, n);
        let k = checksum_rows(bids, asks, i).len() as int;
        assert(r.subrange(0, a.len() as int) =~= a);
        assert(r.subrange(0, k) =~= a.subrange(0, k));
    } else {
        assert(checksum_rows(bids, asks, n).subrange(0, checksum_rows(bids, asks, n).len() as int)
            =~= checksum_rows(bids, asks, n));
    }
}

proof fn lemma_level_text_ends(l: OrderBookLevel)
    ensures
        level_text(l).len() > 0,
        level_text(l).last() == 58u8,
{
}

/// The covered rows, when there are any, end with a colon, so the checksum
/// text followed by a colon gives them back.
proof fn lemma_checksum_text_colon(bids: Seq<OrderBookLevel>, asks: Seq<OrderBookLevel>)
    requires
        checksum_depth(bids, asks) > 0,
    ensures
        checksum_text(bids, asks) + seq![58u8] == checksum_rows(bids, asks, checksum_depth(bids, asks)),
{
    let d = checksum_depth(bids, asks);
    let i = (d - 1) as int;
    let raw = checksum_rows(bids, asks, d);
    let prev = checksum_rows(bids, asks, (d - 1) as nat);
    let bt = if i < bids.len() { level_text(bids[i]) } else { seq![] };
    let at = if i < asks.len() { level_text(asks[i]) } else { seq![] };
    assert(raw == prev + bt + at);
    if i < asks.len() {
        lemma_level_text_ends(asks[i]);
        assert(raw.last() == at.last());
    } else {
        assert(i < bids.len());
        lemma_level_text_ends(bids[i]);
        assert(at =~= Seq::<u8>::empty());
        assert(raw.last() == bt.last());
    }
    assert(raw.drop_last() + seq![58u8] =~= raw);
}

/// Checksum law: the checksummed text covers the first 25 levels of each
/// side, whatever the depth of the other side: for every level at depth `i`
/// below 25 of either side, its text (price, colon, quantity, colon) stands
/// whole in the checksum text followed by a colon.
pub proof fn lemma_checksum_covers(bids: Seq<OrderBookLevel>, asks: Seq<OrderBookLevel>, i: int)
    requires
        0 <= i < 25,
    ensures
        i < asks.len() ==> exists|off: int|
            0 <= off && off + level_text(asks[i]).len() <= checksum_text(bids, asks).len() + 1
                && #[trigger] (checksum_text(bids, asks) + seq![58u8]).subrange(
                off,
                off + level_text(asks[i]).len(),
            ) == level_text(asks[i]),
        i < bids.len() ==> exists|off: int|
            0 <= off && off + level_text(bids[i]).len() <= checksum_text(bids, asks).len() + 1
                && #[trigger] (checksum_text(bids, asks) + seq![58u8]).subrange(
                off,
                off + level_text(bids[i]).len(),
            ) == level_text(bids[i]),
{
    if i < asks.len() || i < bids.len() {
        let d = checksum_depth(bids, asks);
        assert(i < d);
        lemma_checksum_text_colon(bids, asks);
        let full = checksum_text(bids, asks) + seq![58u8];
        let rows_i = checksum_rows(bids, asks, i as nat);
        let rows_next = checksum_rows(bids, asks, (i + 1) as nat);
        lemma_rows_prefix(bids, asks, (i + 1) as nat, d);
        let bt = if i < bids.len() { level_text(bids[i]) } else { seq![] };
        let at = if i < asks.len() { level_text(asks[i]) } else { seq![] };
        assert(rows_next == rows_i + bt + at);
        assert(full.subrange(0, rows_next.len() as int) == rows_next);
        if i < asks.len() {
            let off = (rows_i.len() + bt.len()) as int;
            let l = level_text(asks[i]).len() as int;
            assert(full.subrange(off, off + l) =~= rows_next.subrange(off, off + l));
            assert(rows_next.subrange(off, off + l) =~= at);
        }
        if i < bids.len() {
            let off = rows_i.len() as int;
            let l = level_text(bids[i]).len() as int;
            assert(full.subrange(off, off + l) =~= rows_next.subrange(off, off + l));
            assert(rows_next.subrange(off, off + l) =~= bt);
        }
    }
}

/// Checksum law: for one bid and one ask the checksummed text is the bid's
/// price, its quantity, then the ask's price and quantity, each followed by a
/// colon but the last.
pub proof fn lemma_checksum_one_row(b: OrderBookLevel, a: OrderBookLevel)
    ensures
        checksum_text(seq![b], seq![a]) == encode_utf8(b.price_string@) + seq![58u8] + encode_utf8(
            b.quantity_string@,
        ) + seq![58u8] + encode_utf8(a.price_string@) + seq![58u8] + encode_utf8(a.quantity_string@),
{
    let bs = seq![b];
    let as_ = seq![a];
    assert(checksum_depth(bs, as_) == 1);
    assert(checksum_rows(bs, as_, 0) =~= Seq::<u8>::empty());
    let raw = checksum_rows(bs, as_, 1);
    assert(raw =~= level_text(b) + level_text(a));
    assert(raw.drop_last() =~= encode_utf8(b.price_string@) + seq![58u8] + encode_utf8(
        b.quantity_string@,
    ) + seq![58u8] + encode_utf8(a.price_string@) + seq![58u8] + encode_utf8(a.quantity_string@));
}

proof fn lemma_rows_take(bids: Seq<OrderBookLevel>, asks: Seq<OrderBookLevel>, n: nat)
    requires
        n <= 25,
    ensures
        checksum_rows(bids, asks, n) == checksum_rows(
            bids.take(if bids.len() <= 25 { bids.len() as int } else { 25 }),
            asks.take(if asks.len() <= 25 { asks.len() as int } else { 25 }),
            n,
        ),
    decreases n,
{
    if n > 0 {
        lemma_rows_take(bids, asks, (n - 1) as nat);
    }
}

/// Checksum law: only the first 25 levels of each side count: the checksummed
/// text of a book is that of its sides cut to 25 levels.
pub proof fn lemma_checksum_depth_25(bids: Seq<OrderBookLevel>, asks: Seq<OrderBookLevel>)
    ensures
        checksum_text(bids, asks) == checksum_text(
            bids.take(if bids.len() <= 25 { bids.len() as int } else { 25 }),
            asks.take(if asks.len() <= 25 { asks.len() as int } else { 25 }),
        ),
{
    let tb = bids.take(if bids.len() <= 25 { bids.len() as int } else { 25 });
    let ta = asks.take(if asks.len() <= 25 { asks.len() as int } else { 25 });
    assert(checksum_depth(bids, asks) == checksum_depth(tb, ta));
    lemma_rows_take(bids, asks, checksum_depth(bids, asks));
}

/// The book's checksum: CRC-32 of the checksum text, read as a signed integer.
pub open spec fn book_checksum(bids: Seq<OrderBookLevel>, asks: Seq<OrderBookLevel>) -> i32 {
    crc32_ieee(checksum_text(bids, asks)) as i32
}

/// The message given when a side of the book is empty.
pub open spec fn empty_side_message(inst_id: Seq<char>) -> Seq<char> {
    "Orderbook for "@ + inst_id + ": either bids or asks array not initiated."@
}

/// The order book of one instrument: bids best (highest) first, asks best
/// (lowest) first, the exchange time stamp and the exchange checksum.
#[derive(Debug, Clone)]
pub struct OrderBook {
    pub inst_id: String,
    bids: Vec<OrderBookLevel>,
    asks: Vec<OrderBookLevel>,
    pub timestamp: i64,
    pub exch_check_sum: i32,
}

impl OrderBook {
    /// The bid levels, best first.
    pub closed spec fn bids(&self) -> Seq<OrderBookLevel> {
        self.bids@
    }

    /// The ask levels, best first.
    pub closed spec fn asks(&self) -> Seq<OrderBookLevel> {
        self.asks@
    }

    /// The instrument of the book.
    pub closed spec fn instrument(&self) -> String {
        self.inst_id
    }

    /// The exchange time stamp.
    pub closed spec fn stamp(&self) -> i64 {
        self.timestamp
    }

    /// The checksum the exchange sent.
    pub closed spec fn exchange_checksum(&self) -> i32 {
        self.exch_check_sum
    }

    /// Both sides are in price order.
    pub open spec fn wf(&self) -> bool {
        side_sorted(self.bids(), true) && side_sorted(self.asks(), false)
    }

    /// An empty book for `inst_id`, with time stamp and checksum zero.
    pub fn new(inst_id: String) -> (b: Self)
        ensures
            b.instrument() == inst_id,
            b.bids() == Seq::<OrderBookLevel>::empty(),
            b.asks() == Seq::<OrderBookLevel>::empty(),
            b.stamp() == 0,
            b.exchange_checksum() == 0,
            b.wf(),
    {
        OrderBook { inst_id, bids: Vec::new(), asks: Vec::new(), timestamp: 0, exch_check_sum: 0 }
    }

    /// Replaces the bids with `order_book_level_list`, sorted highest price first
    /// (levels of equal price keep their order).
    pub fn set_bids_on_snapshot(&mut self, order_book_level_list: Vec<OrderBookLevel>)
        ensures
            final(self).bids() == sort_side(order_book_level_list@, true),
            final(self).asks() == old(self).asks(),
            final(self).instrument() == old(self).instrument(),
            final(self).stamp() == old(self).stamp(),
            final(self).exchange_checksum() == old(self).exchange_checksum(),
            old(self).wf() ==> final(self).wf(),
    {
        self.bids = sort_levels(order_book_level_list, true);
        proof {
            lemma_sort_side(self.bids@, true);
            lemma_sort_side(order_book_level_list@, true);
        }
    }

    /// Replaces the asks with `order_book_level_list`, sorted lowest price first
    /// (levels of equal price keep their order).
    pub fn set_asks_on_snapshot(&mut self, order_book_level_list: Vec<OrderBookLevel>)
        ensures
            final(self).asks() == sort_side(order_book_level_list@, false),
            final(self).bids() == old(self).bids(),
            final(self).instrument() == old(self).instrument(),
            final(self).stamp() == old(self).stamp(),
            final(self).exchange_checksum() == old(self).exchange_checksum(),
            old(self).wf() ==> final(self).wf(),
    {
        self.asks = sort_levels(order_book_level_list, false);
        proof {
            lemma_sort_side(order_book_level_list@, false);
        }
    }

    /// Applies an incremental bid update (see `apply_update`).
    pub fn set_bids_on_update(&mut self, order_book_level: OrderBookLevel)
        ensures
            final(self).bids() == apply_update(old(self).bids(), order_book_level, true),
            final(self).asks() == old(self).asks(),
            final(self).instrument() == old(self).instrument(),
            final(self).stamp() == old(self).stamp(),
            final(self).exchange_checksum() == old(self).exchange_checksum(),
            old(self).wf() ==> final(self).wf(),
    {
        proof {
            if side_sorted(self.bids@, true) {
                lemma_update_sorted(self.bids@, order_book_level, true);
            }
        }
        update_side(&mut self.bids, order_book_level, true);
    }

    /// Applies an incremental ask update (see `apply_update`).
    pub fn set_asks_on_update(&mut self, order_book_level: OrderBookLevel)
        ensures
            final(self).asks() == apply_update(old(self).asks(), order_book_level, false),
            final(self).bids() == old(self).bids(),
            final(self).instrument() == old(self).instrument(),
            final(self).stamp() == old(self).stamp(),
            final(self).exchange_checksum() == old(self).exchange_checksum(),
            old(self).wf() ==> final(self).wf(),
    {
        proof {
            if side_sorted(self.asks@, false) {
                lemma_update_sorted(self.asks@, order_book_level, false);
            }
        }
        update_side(&mut self.asks, order_book_level, false);
    }

    /// Records the exchange time stamp.
    pub fn set_timestamp(&mut self, timestamp: i64)
        ensures
            final(self).stamp() == timestamp,
            final(self).bids() == old(self).bids(),
            final(self).asks() == old(self).asks(),
            final(self).instrument() == old(self).instrument(),
            final(self).exchange_checksum() == old(self).exchange_checksum(),
    {
        self.timestamp = timestamp;
    }

    /// Records the checksum the exchange sent.
    pub fn set_exch_check_sum(&mut self, checksum: i32)
        ensures
            final(self).exchange_checksum() == checksum,
            final(self).bids() == old(self).bids(),
            final(self).asks() == old(self).asks(),
            final(self).instrument() == old(self).instrument(),
            final(self).stamp() == old(self).stamp(),
    {
        self.exch_check_sum = checksum;
    }

    /// The checksum of the book's first 25 levels on each side.
    fn _current_check_sum(&self) -> (c: i32)
        ensures
            c == book_checksum(self.bids(), self.asks()),
    {
        let nb = self.bids.len();
        let na = self.asks.len();
        let m = if nb >= na { nb } else { na };
        let depth = if m <= 25 { m } else { 25 };
        let mut text: Vec<u8> = Vec::new();
        let mut i: usize = 0;
        while i < depth
            invariant
                nb == self.bids@.len(),
                na == self.asks@.len(),
                depth == checksum_depth(self.bids@, self.asks@),
                i <= depth,
                text@ == checksum_rows(self.bids@, self.asks@, i as nat),
            decreases depth - i,
        {
            let ghost before = text@;
            if i < nb {
                text.extend_from_slice(self.bids[i].price_string.as_str().as_bytes());
                text.push(58u8);
                text.extend_from_slice(self.bids[i].quantity_string.as_str().as_bytes());
                text.push(58u8);
            }
            let ghost mid = text@;
            assert(i < nb ==> mid =~= before + level_text(self.bids@[i as int]));
            assert(i >= nb ==> mid =~= before);
            if i < na {
                text.extend_from_slice(self.asks[i].price_string.as_str().as_bytes());
                text.push(58u8);
                text.extend_from_slice(self.asks[i].quantity_string.as_str().as_bytes());
                text.push(58u8);
            }
            assert(i < na ==> text@ =~= mid + level_text(self.asks@[i as int]));
            assert(i >= na ==> text@ =~= mid);
            i = i + 1;
            assert(text@ =~= checksum_rows(self.bids@, self.asks@, i as nat));
        }
        if text.len() > 0 {
            text.pop();
        }
        assert(text@ =~= checksum_text(self.bids@, self.asks@));
        let crc = crc32_of(text.as_slice());
        crc as i32
    }

    /// Whether the book matches the exchange checksum; a checksum of zero means
    /// none was sent, and the book is taken to match.
    pub fn do_check_sum(&self) -> (ok: bool)
        ensures
            ok == (self.exchange_checksum() == 0 || book_checksum(self.bids(), self.asks())
                == self.exchange_checksum()),
    {
        if self.exch_check_sum == 0 {
            return true;
        }
        let current_crc = self._current_check_sum();
        current_crc == self.exch_check_sum
    }

    /// Fails with the book's message when `order_book_array` is empty.
    fn _check_empty_array(&self, order_book_array: &Vec<OrderBookLevel>) -> (r: Result<(), String>)
        ensures
            order_book_array@.len() > 0 ==> r is Ok,
            order_book_array@.len() == 0 ==> (r matches Err(e) && e@ == empty_side_message(
                self.instrument()@,
            )),
    {
        if order_book_array.len() == 0 {
            let mut msg = "Orderbook for ".to_owned();
            msg.append(self.inst_id.as_str());
            msg.append(": either bids or asks array not initiated.");
            Err(msg)
        } else {
            Ok(())
        }
    }

    /// The best (highest) bid, or the book's message when there are no bids.
    pub fn best_bid(&self) -> (r: Result<&OrderBookLevel, String>)
        ensures
            self.bids().len() > 0 ==> (r matches Ok(l) && *l == self.bids()[0]),
            self.bids().len() == 0 ==> (r matches Err(e) && e@ == empty_side_message(
                self.instrument()@,
            )),
    {
        match self._check_empty_array(&self.bids) {
            Err(e) => Err(e),
            Ok(()) => Ok(&self.bids[0]),
        }
    }

    /// The best (lowest) ask, or the book's message when there are no asks.
    pub fn best_ask(&self) -> (r: Result<&OrderBookLevel, String>)
        ensures
            self.asks().len() > 0 ==> (r matches Ok(l) && *l == self.asks()[0]),
            self.asks().len() == 0 ==> (r matches Err(e) && e@ == empty_side_message(
                self.instrument()@,
            )),
    {
        match self._check_empty_array(&self.asks) {
            Err(e) => Err(e),
            Ok(()) => Ok(&self.asks[0]),
        }
    }

    /// The price of the best bid.
    pub fn best_bid_price(&self) -> (r: Result<u64, String>)
        ensures
            self.bids().len() > 0 ==> r == Ok::<u64, String>(self.bids()[0].price),
            self.bids().len() == 0 ==> (r matches Err(e) && e@ == empty_side_message(
                self.instrument()@,
            )),
    {
        match self.best_bid() {
            Err(e) => Err(e),
            Ok(l) => Ok(l.price),
        }
    }

    /// The price of the best ask.
    pub fn best_ask_price(&self) -> (r: Result<u64, String>)
        ensures
            self.asks().len() > 0 ==> r == Ok::<u64, String>(self.asks()[0].price),
            self.asks().len() == 0 ==> (r matches Err(e) && e@ == empty_side_message(
                self.instrument()@,
            )),
    {
        match self.best_ask() {
            Err(e) => Err(e),
            Ok(l) => Ok(l.price),
        }
    }

    /// The bid at depth `level` (1 is the best), with `level` clamped to the
    /// levels present.
    pub fn bid_by_level(&self, level: usize) -> (r: Result<&OrderBookLevel, String>)
        ensures
            self.bids().len() > 0 ==> (r matches Ok(l) && *l == self.bids()[clamp_depth(
                level as int,
                self.bids().len() as int,
            ) - 1]),
            self.bids().len() == 0 ==> (r matches Err(e) && e@ == empty_side_message(
                self.instrument()@,
            )),
    {
        match self._check_empty_array(&self.bids) {
            Err(e) => Err(e),
            Ok(()) => {
                let lv = clamp_depth_exec(level, self.bids.len());
                Ok(&self.bids[lv - 1])
            },
        }
    }

    /// The ask at depth `level` (1 is the best), with `level` clamped to the
    /// levels present.
    pub fn ask_by_level(&self, level: usize) -> (r: Result<&OrderBookLevel, String>)
        ensures
            self.asks().len() > 0 ==> (r matches Ok(l) && *l == self.asks()[clamp_depth(
                level as int,
                self.asks().len() as int,
            ) - 1]),
            self.asks().len() == 0 ==> (r matches Err(e) && e@ == empty_side_message(
                self.instrument()@,
            )),
    {
        match self._check_empty_array(&self.asks) {
            Err(e) => Err(e),
            Ok(()) => {
                let lv = clamp_depth_exec(level, self.asks.len());
                Ok(&self.asks[lv - 1])
            },
        }
    }
}

/// `level` raised to at least 1 and lowered to at most `len`.
pub open spec fn clamp_depth(level: int, len: int) -> int {
    let lo = if level >= 1 {
        level
    } else {
        1
    };
    if lo <= len {
        lo
    } else {
        len
    }
}

fn clamp_depth_exec(level: usize, len: usize) -> (r: usize)
    requires
        len >= 1,
    ensures
        r == clamp_depth(level as int, len as int),
        1 <= r <= len,
{
    let lo = if level >= 1 { level } else { 1 };
    if lo <= len { lo } else { len }
}


/// Order book laws: in a book whose sides are in price order, the best bid is
/// the highest bid and the best ask the lowest ask.
pub proof fn lemma_best_levels(b: OrderBook)
    requires
        b.wf(),
    ensures
        forall|i: int| 0 <= i < b.bids().len() ==> b.bids()[0].price >= #[trigger] b.bids()[i].price,
        forall|i: int| 0 <= i < b.asks().len() ==> b.asks()[0].price <= #[trigger] b.asks()[i].price,
{
    if b.bids().len() > 0 {
        lemma_first_is_best(b.bids(), true);
    }
    if b.asks().len() > 0 {
        lemma_first_is_best(b.asks(), false);
    }
}

/// Index of the first book for instrument `id` (the number of books when there is none).
pub open spec fn book_index(books: Seq<OrderBook>, id: Seq<char>) -> nat
    decreases books.len(),
{
    if books.len() == 0 {
        0
    } else if books[0].instrument()@ == id {
        0
    } else {
        1 + book_index(books.drop_first(), id)
    }
}

/// Look-up law: the book found for an instrument is the first with that
/// instrument, and none before it has it.
pub proof fn lemma_book_index_props(books: Seq<OrderBook>, id: Seq<char>)
    ensures
        book_index(books, id) <= books.len(),
        forall|k: int| 0 <= k < book_index(books, id) ==> #[trigger] books[k].instrument()@ != id,
        book_index(books, id) < books.len() ==> books[book_index(books, id) as int].instrument()@
            == id,
    decreases books.len(),
{
    if books.len() > 0 && books[0].instrument()@ != id {
        lemma_book_index_props(books.drop_first(), id);
        assert forall|k: int| 0 <= k < book_index(books, id) implies #[trigger] books[k].instrument()@
            != id by {
            if k > 0 {
                assert(books[k] == books.drop_first()[k - 1]);
            }
        }
    }
}

pub(crate) proof fn lemma_book_index_at(books: Seq<OrderBook>, id: Seq<char>, i: int)
    requires
        0 <= i <= books.len(),
        forall|k: int| 0 <= k < i ==> #[trigger] books[k].instrument()@ != id,
        i < books.len() ==> books[i].instrument()@ == id,
    ensures
        book_index(books, id) == i,
    decreases books.len(),
{
    if books.len() > 0 && i > 0 {
        assert forall|k: int| 0 <= k < i - 1 implies #[trigger] books.drop_first()[k].instrument()@
            != id by {
            assert(books.drop_first()[k] == books[k + 1]);
        }
        lemma_book_index_at(books.drop_first(), id, i - 1);
    }
}

/// The books after registering instrument `id`: unchanged when `id` has a
/// book, otherwise an empty book for `id` (no levels, time stamp and checksum
/// zero) is added at the end.
pub open spec fn after_register(old: Seq<OrderBook>, id: Seq<char>, new: Seq<OrderBook>) -> bool {
    if book_index(old, id) < old.len() {
        new == old
    } else {
        &&& new.len() == old.len() + 1
        &&& new.drop_last() == old
        &&& new.last().instrument()@ == id
        &&& new.last().bids().len() == 0
        &&& new.last().asks().len() == 0
        &&& new.last().stamp() == 0
        &&& new.last().exchange_checksum() == 0
    }
}

/// Registry law: once an instrument is registered its book is found, empty if
/// it was new; registering it again changes nothing; and every other
/// instrument is found exactly where it was before.
pub proof fn lemma_register_then_found(old: Seq<OrderBook>, id: Seq<char>, new: Seq<OrderBook>, other: Seq<char>)
    requires
        after_register(old, id, new),
    ensures
        book_index(new, id) < new.len(),
        new[book_index(new, id) as int].instrument()@ == id,
        book_index(old, id) == old.len() ==> new[book_index(new, id) as int].bids().len() == 0
            && new[book_index(new, id) as int].asks().len() == 0,
        after_register(new, id, new),
        other != id ==> book_index(new, other) == (if book_index(old, other) < old.len() {
            book_index(old, other)
        } else {
            new.len()
        }),
{
    lemma_book_index_props(old, id);
    lemma_book_index_props(old, other);
    if book_index(old, id) == old.len() {
        let n = old.len() as int;
        assert forall|k: int| 0 <= k < n implies #[trigger] new[k].instrument()@ != id by {
            assert(new[k] == new.drop_last()[k]);
        }
        lemma_book_index_at(new, id, n);
        if other != id {
            let j = book_index(old, other) as int;
            assert forall|k: int| 0 <= k < j implies #[trigger] new[k].instrument()@ != other by {
                assert(new[k] == new.drop_last()[k]);
            }
            if j < n {
                assert(new[j] == new.drop_last()[j]);
                lemma_book_index_at(new, other, j);
            } else {
                lemma_book_index_at(new, other, new.len() as int);
            }
        }
    } else {
        lemma_book_index_props(new, id);
    }
}

/// The instruments of `names` in order, each kept at its first occurrence:
/// what registering them one after another leaves.
pub open spec fn distinct_in_order(names: Seq<Seq<char>>) -> Seq<Seq<char>>
    decreases names.len(),
{
    if names.len() == 0 {
        seq![]
    } else {
        let p = distinct_in_order(names.drop_last());
        if p.contains(names.last()) {
            p
        } else {
            p.push(names.last())
        }
    }
}

/// Books for exactly the instruments `names`, in that order, each with no
/// levels and with time stamp and checksum zero.
pub open spec fn fresh_books(bs: Seq<OrderBook>, names: Seq<Seq<char>>) -> bool {
    &&& bs.len() == names.len()
    &&& forall|j: int|
        0 <= j < bs.len() ==> #[trigger] bs[j].instrument()@ == names[j] && bs[j].bids().len() == 0
            && bs[j].asks().len() == 0 && bs[j].stamp() == 0 && bs[j].exchange_checksum() == 0
}

/// Registry law: registering one more instrument on the fresh books of
/// `names` gives the fresh books of `names` followed by it.
pub proof fn lemma_register_fresh(bs: Seq<OrderBook>, names: Seq<Seq<char>>, id: Seq<char>, nb: Seq<OrderBook>)
    requires
        fresh_books(bs, distinct_in_order(names)),
        after_register(bs, id, nb),
    ensures
        fresh_books(nb, distinct_in_order(names.push(id))),
{
    let p = distinct_in_order(names);
    assert(names.push(id).drop_last() =~= names);
    assert(names.push(id).last() == id);
    lemma_book_index_props(bs, id);
    if book_index(bs, id) < bs.len() {
        let k = book_index(bs, id) as int;
        assert(p[k] == id);
        assert(p.contains(id));
    } else {
        if p.contains(id) {
            let k = choose|k: int| 0 <= k < p.len() && p[k] == id;
            assert(bs[k].instrument()@ == id);
        }
        assert(!p.contains(id));
        let q = p.push(id);
        assert forall|j: int| 0 <= j < nb.len() implies #[trigger] nb[j].instrument()@ == q[j]
            && nb[j].bids().len() == 0 && nb[j].asks().len() == 0 && nb[j].stamp() == 0
            && nb[j].exchange_checksum() == 0 by {
            if j < bs.len() {
                assert(nb[j] == nb.drop_last()[j]);
                assert(bs[j].instrument()@ == p[j]);
            } else {
                assert(nb[j] == nb.last());
            }
        }
    }
}

/// The order books of one exchange, at most one per instrument.
#[derive(Debug, Clone)]
pub struct OrderBooks {
    pub name: String,
    order_books: Vec<OrderBook>,
}

impl OrderBooks {
    /// The books held, in the order their instruments were registered.
    pub closed spec fn books(&self) -> Seq<OrderBook> {
        self.order_books@
    }

    /// The exchange name.
    pub closed spec fn exchange(&self) -> String {
        self.name
    }

    /// No instrument has two books, and every book is in price order.
    pub open spec fn wf(&self) -> bool {
        &&& forall|i: int, j: int|
            0 <= i < j < self.books().len() ==> #[trigger] self.books()[i].instrument()@
                != #[trigger] self.books()[j].instrument()@
        &&& forall|i: int| 0 <= i < self.books().len() ==> #[trigger] self.books()[i].wf()
    }

    /// No books yet, for exchange `name`.
    pub fn new(name: String) -> (r: Self)
        ensures
            r.exchange() == name,
            r.books() == Seq::<OrderBook>::empty(),
            r.wf(),
    {
        OrderBooks { name, order_books: Vec::new() }
    }

    /// Finds the book for `inst_id`.
    fn position(&self, inst_id: &str) -> (r: usize)
        ensures
            r == book_index(self.books(), inst_id@),
    {
        let key = inst_id.to_owned();
        let n = self.order_books.len();
        let mut i: usize = 0;
        while i < n && !(self.order_books[i].inst_id == key)
            invariant
                n == self.order_books@.len(),
                key@ == inst_id@,
                i <= n,
                forall|k: int| 0 <= k < i ==> #[trigger] self.order_books@[k].instrument()@ != inst_id@,
            decreases n - i,
        {
            i = i + 1;
        }
        proof {
            lemma_book_index_at(self.order_books@, inst_id@, i as int);
        }
        i
    }

    /// Adds an empty book for `inst_id`, unless it already has one
    /// (see `after_register`).
    pub fn register_orderbook(&mut self, inst_id: &str)
        ensures
            after_register(old(self).books(), inst_id@, final(self).books()),
            final(self).exchange() == old(self).exchange(),
            old(self).wf() ==> final(self).wf(),
    {
        proof {
            lemma_book_index_props(self.order_books@, inst_id@);
        }
        let i = self.position(inst_id);
        if i == self.order_books.len() {
            let book = OrderBook::new(inst_id.to_owned());
            self.order_books.push(book);
            assert(final(self).books().drop_last() =~= old(self).books());
        }
    }

    /// The book for `inst_id`, if there is one.
    pub fn get_orderbook(&self, inst_id: &str) -> (r: Option<&OrderBook>)
        ensures
            book_index(self.books(), inst_id@) < self.books().len() ==> (r matches Some(b) && *b
                == self.books()[book_index(self.books(), inst_id@) as int]),
            book_index(self.books(), inst_id@) == self.books().len() ==> r is None,
    {
        proof {
            lemma_book_index_props(self.order_books@, inst_id@);
        }
        let i = self.position(inst_id);
        if i < self.order_books.len() {
            Some(&self.order_books[i])
        } else {
            None
        }
    }

    /// The book for `inst_id`, to change in place, if there is one.
    pub fn get_orderbook_mut(&mut self, inst_id: &str) -> (r: Option<&mut OrderBook>)
        ensures
            book_index(old(self).books(), inst_id@) < old(self).books().len() ==> (r is Some && *r->0
                == old(self).books()[book_index(old(self).books(), inst_id@) as int]
                && final(self).books() == old(self).books().update(
                book_index(old(self).books(), inst_id@) as int,
                *final(r->0),
            )),
            book_index(old(self).books(), inst_id@) == old(self).books().len() ==> (r is None
                && *final(self) == *old(self)),
            final(self).exchange() == old(self).exchange(),
    {
        proof {
            lemma_book_index_props(self.order_books@, inst_id@);
        }
        let i = self.position(inst_id);
        if i < self.order_books.len() {
            Some(&mut self.order_books[i])
        } else {
            None
        }
    }

    /// All books, in the order their instruments were registered.
    pub fn order_books(&self) -> (r: &Vec<OrderBook>)
        ensures
            r@ == self.books(),
    {
        &self.order_books
    }
}

} // verus!
