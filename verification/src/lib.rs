//! The verified core of a hedging bot on OKX and Binance: order books kept in
//! price order with the OKX checksum, the decisions of the market-data feeds,
//! a circular book of sent orders, liquidation levels, order records, the
//! signed OKX login request, and fixed-point decimal text.
use vstd::prelude::*;

pub mod bindings;
pub mod model;
pub mod connector;
pub mod util;

verus! {

} // verus!
