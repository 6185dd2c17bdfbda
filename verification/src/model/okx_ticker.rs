//! The OKX ticker record.
use vstd::prelude::*;

verus! {

/// An OKX ticker: prices and sizes in 10^-8 units, `ts` in milliseconds.
#[allow(non_camel_case_types)]
#[derive(Debug, Clone)]
pub struct okx_ticker {
    pub ask_px: u64,
    pub ask_sz: u64,
    pub bid_px: u64,
    pub bid_sz: u64,
    pub high24h: u64,
    pub inst_id: String,
    pub inst_type: String,
    pub last: u64,
    pub last_sz: u64,
    pub low24h: u64,
    pub open24h: u64,
    pub sod_utc0: u64,
    pub sod_utc8: u64,
    pub ts: i64,
    pub vol24h: u64,
    pub vol_ccy24h: u64,
}

impl okx_ticker {
    /// A ticker from its fields.
    pub fn new(
        ask_px: u64,
        ask_sz: u64,
        bid_px: u64,
        bid_sz: u64,
        high24h: u64,
        inst_id: String,
        inst_type: String,
        last: u64,
        last_sz: u64,
        low24h: u64,
        open24h: u64,
        sod_utc0: u64,
        sod_utc8: u64,
        ts: i64,
        vol24h: u64,
        vol_ccy24h: u64,
    ) -> (t: Self)
        ensures
            t.ask_px == ask_px,
            t.ask_sz == ask_sz,
            t.bid_px == bid_px,
            t.bid_sz == bid_sz,
            t.high24h == high24h,
            t.inst_id == inst_id,
            t.inst_type == inst_type,
            t.last == last,
            t.last_sz == last_sz,
            t.low24h == low24h,
            t.open24h == open24h,
            t.sod_utc0 == sod_utc0,
            t.sod_utc8 == sod_utc8,
            t.ts == ts,
            t.vol24h == vol24h,
            t.vol_ccy24h == vol_ccy24h,
    {
        okx_ticker {
            ask_px,
            ask_sz,
            bid_px,
            bid_sz,
            high24h,
            inst_id,
            inst_type,
            last,
            last_sz,
            low24h,
            open24h,
            sod_utc0,
            sod_utc8,
            ts,
            vol24h,
            vol_ccy24h,
        }
    }
}

} // verus!
