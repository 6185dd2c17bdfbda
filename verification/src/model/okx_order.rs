//! An order as the strategy tracks it on OKX: its terms, its state and its fills.
use vstd::prelude::*;

use crate::bindings::{clock_since_unix_epoch, new_uuid_v4_text, uuid_v4_text};
use crate::util::time_util::{reading_millis, valid_reading, Utils};

verus! {

/// The milliseconds of a clock reading as an `i64` time stamp (the largest
/// `i64` past its range; 0 for a clock before 1970).
pub open spec fn reading_stamp(rd: Option<(u64, u32)>) -> i64 {
    if reading_millis(rd) <= i64::MAX {
        reading_millis(rd) as i64
    } else {
        i64::MAX
    }
}

/// Milliseconds since 1970-01-01 UTC by the system clock, as a time stamp.
fn now_stamp() -> (r: i64)
    ensures
        exists|rd: Option<(u64, u32)>| #[trigger] valid_reading(rd) && r == reading_stamp(rd),
{
    let rd = clock_since_unix_epoch();
    assert(valid_reading(rd));
    let ms = Utils::millis_of(rd);
    if ms <= i64::MAX as u128 {
        ms as i64
    } else {
        i64::MAX
    }
}

/// Buy or sell.
#[derive(PartialEq, Eq, Debug, Clone, Copy, Structural)]
pub enum OrderSide {
    Buy,
    Sell,
}

/// How the order is priced and triggered.
#[derive(PartialEq, Eq, Debug, Clone, Copy, Structural)]
pub enum OrderType {
    Market,
    Limit,
    StopMarket,
    StopLimit,
}

/// Whether the order still rests or has been filled.
#[derive(PartialEq, Eq, Debug, Clone, Copy, Structural)]
pub enum OrderState {
    Live,
    Filled,
}

/// The position side; orders trade the net position.
#[derive(PartialEq, Eq, Debug, Clone, Copy, Structural)]
pub enum PosSide {
    Net,
}

/// An order: reference id (a UUID), venue, terms (price and size in 10^-8
/// units), owner, state and fills; times are milliseconds since 1970 UTC.
#[derive(Debug)]
pub struct ExchangeOrder {
    pub ref_id: String,
    pub exchange_name: String,
    pub order_id: String,
    pub order_state: OrderState,
    pub price: u64,
    pub size: u64,
    pub side: OrderSide,
    pub manager_id: String,
    pub strategy: String,
    pub trading_mode: String,
    pub instrument: String,
    pub is_live: bool,
    pub created_ts: i64,
    pub pos_side: PosSide,
    pub fill_size: u64,
    pub fill_price: u64,
    pub is_filled: bool,
    pub updated_ts: Option<i64>,
    pub reduce_only: bool,
    pub order_type: OrderType,
}

impl ExchangeOrder {
    /// A new live order with a fresh reference id, created now, trading the net
    /// position in cross mode, not yet sent (no order id, not live) nor filled.
    pub fn new(
        exchange_name: &str,
        strategy: &str,
        manager_id: &str,
        instrument: &str,
        price: u64,
        size: u64,
        side: OrderSide,
        order_type: OrderType,
        reduce_only: bool,
    ) -> (o: Self)
        ensures
            uuid_v4_text(o.ref_id@),
            o.exchange_name@ == exchange_name@,
            o.order_id@ == Seq::<char>::empty(),
            o.order_state == OrderState::Live,
            o.price == price,
            o.size == size,
            o.side == side,
            o.manager_id@ == manager_id@,
            o.strategy@ == strategy@,
            o.trading_mode@ == "cross"@,
            o.instrument@ == instrument@,
            !o.is_live,
            o.pos_side == PosSide::Net,
            o.fill_size == 0,
            o.fill_price == 0,
            !o.is_filled,
            o.updated_ts is None,
            o.reduce_only == reduce_only,
            o.order_type == order_type,
            exists|rd: Option<(u64, u32)>| #[trigger] valid_reading(rd) && o.created_ts == reading_stamp(rd),
    {
        let ref_id = new_uuid_v4_text();
        let created_ts = now_stamp();
        let pos_side = match side {
            OrderSide::Buy => PosSide::Net,
            OrderSide::Sell => PosSide::Net,
        };
        ExchangeOrder {
            ref_id,
            exchange_name: exchange_name.to_owned(),
            order_id: String::new(),
            order_state: OrderState::Live,
            price,
            size,
            side,
            manager_id: manager_id.to_owned(),
            strategy: strategy.to_owned(),
            trading_mode: "cross".to_owned(),
            instrument: instrument.to_owned(),
            is_live: false,
            created_ts,
            pos_side,
            fill_size: 0,
            fill_price: 0,
            is_filled: false,
            updated_ts: None,
            reduce_only,
            order_type,
        }
    }

    /// Whether the filled size has reached the order size; when it has, the
    /// order is marked filled.
    pub fn is_fully_filled(&mut self) -> (filled: bool)
        ensures
            filled == (old(self).fill_size == old(self).size),
            filled ==> final(self).is_filled && final(self).order_state == OrderState::Filled,
            filled ==> *final(self) == (ExchangeOrder {
                is_filled: true,
                order_state: OrderState::Filled,
                ..*old(self)
            }),
            !filled ==> *final(self) == *old(self),
    {
        if self.fill_size == self.size {
            self.is_filled = true;
            self.order_state = OrderState::Filled;
            true
        } else {
            false
        }
    }

    /// Sets the order state.
    pub fn set_state(&mut self, state: OrderState)
        ensures
            *final(self) == (ExchangeOrder { order_state: state, ..*old(self) }),
    {
        self.order_state = state;
    }

    /// Changes the order price.
    pub fn update_order_price(&mut self, price: u64)
        ensures
            *final(self) == (ExchangeOrder { price: price, ..*old(self) }),
    {
        self.price = price;
    }

    /// Changes the order price and size.
    pub fn update_order_price_size(&mut self, price: u64, size: u64)
        ensures
            *final(self) == (ExchangeOrder { price: price, size: size, ..*old(self) }),
    {
        self.price = price;
        self.size = size;
    }

    /// Changes the order size, then marks the order filled when the filled size
    /// has reached it.
    pub fn update_order_size(&mut self, size: u64)
        ensures
            old(self).fill_size == size ==> *final(self) == (ExchangeOrder {
                size: size,
                is_filled: true,
                order_state: OrderState::Filled,
                ..*old(self)
            }),
            old(self).fill_size != size ==> *final(self) == (ExchangeOrder {
                size: size,
                ..*old(self)
            }),
    {
        self.size = size;
        self.is_fully_filled();
    }

    /// Records the filled size and price, stamped now.
    pub fn update_fill_size(&mut self, fill_size: u64, fill_price: u64)
        ensures
            exists|rd: Option<(u64, u32)>|
                #[trigger] valid_reading(rd) && final(self).updated_ts == Some(reading_stamp(rd)),
            *final(self) == (ExchangeOrder {
                fill_size: fill_size,
                fill_price: fill_price,
                updated_ts: final(self).updated_ts,
                ..*old(self)
            }),
    {
        self.updated_ts = Some(now_stamp());
        self.fill_size = fill_size;
        self.fill_price = fill_price;
    }
}

} // verus!
