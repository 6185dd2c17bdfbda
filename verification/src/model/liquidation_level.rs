//! Liquidation levels of a symbol, keyed by the whole part of their price.
use std::collections::HashMap;
use vstd::prelude::*;

verus! {

broadcast use vstd::std_specs::hash::group_hash_axioms;

/// The side of a liquidation.
#[derive(Debug, Clone, Copy, PartialEq, Eq)]
pub enum Side {
    BUY,
    SELL,
}

/// A liquidation at a price (10^-8 units) for a quantity (10^-8 units).
#[derive(Debug)]
pub struct Level {
    pub price: u64,
    pub quantity: u64,
    pub side: Side,
    pub timestamp: i64,
}

/// The liquidation levels of one symbol.
#[derive(Debug)]
pub struct LiquidationLevel {
    pub symbol: String,
    pub levels: HashMap<u32, Level>,
}

/// The key a level is stored under: the whole part of its price, limited to
/// the largest `u32` (what `price as u32` gives for a non-negative price).
pub open spec fn level_key(price: u64) -> u32 {
    if price / 100_000_000 > u32::MAX {
        u32::MAX
    } else {
        (price / 100_000_000) as u32
    }
}

impl Level {
    /// A level from its parts.
    pub fn new(price: u64, quantity: u64, side: Side, timestamp: i64) -> (l: Self)
        ensures
            l.price == price,
            l.quantity == quantity,
            l.side == side,
            l.timestamp == timestamp,
    {
        Level { price, quantity, side, timestamp }
    }
}

impl LiquidationLevel {
    /// No levels yet for `symbol`.
    pub fn new(symbol: &str) -> (l: Self)
        ensures
            l.symbol@ == symbol@,
            l.levels@ == Map::<u32, Level>::empty(),
    {
        LiquidationLevel { symbol: symbol.to_owned(), levels: HashMap::new() }
    }

    /// Stores `level` under the whole part of its price, replacing what was there.
    pub fn add_level(&mut self, level: Level)
        ensures
            final(self).levels@ == old(self).levels@.insert(level_key(level.price), level),
            final(self).symbol == old(self).symbol,
    {
        let whole = level.price / 100_000_000;
        let key: u32 = if whole > u32::MAX as u64 { u32::MAX } else { whole as u32 };
        self.levels.insert(key, level);
    }

    /// Drops the level stored under `timestamp` read as a `u32` (its low 32 bits).
    pub fn remove_level(&mut self, timestamp: i64)
        ensures
            final(self).levels@ == old(self).levels@.remove(timestamp as u32),
            final(self).symbol == old(self).symbol,
    {
        let key = timestamp as u32;
        self.levels.remove(&key);
    }

    /// The level stored under `timestamp` read as a `u32` (its low 32 bits).
    pub fn get_level(&self, timestamp: i64) -> (r: Option<&Level>)
        ensures
            match r {
                Some(v) => self.levels@.contains_key(timestamp as u32) && *v == self.levels@[timestamp
                    as u32],
                None => !self.levels@.contains_key(timestamp as u32),
            },
    {
        let key = timestamp as u32;
        self.levels.get(&key)
    }
}

/// Liquidation level law: after a level is added, a look-up under a time stamp
/// whose low 32 bits equal the level's key finds that level, and removing
/// under that time stamp leaves nothing there.
pub proof fn lemma_add_then_lookup(levels: Map<u32, Level>, level: Level, ts: i64)
    requires
        ts as u32 == level_key(level.price),
    ensures
        levels.insert(level_key(level.price), level).contains_key(ts as u32),
        levels.insert(level_key(level.price), level)[ts as u32] == level,
        !levels.insert(level_key(level.price), level).remove(ts as u32).contains_key(ts as u32),
{
}

} // verus!
