//! Price levels compare by price alone: equal when their prices are equal,
//! ordered as their prices are.
use std::cmp::Ordering;
use vstd::prelude::*;
use vstd::std_specs::cmp::{PartialEqSpecImpl, PartialOrdSpecImpl};

use crate::model::orderbook::OrderBookLevel;

verus! {

impl PartialEq for OrderBookLevel {
    fn eq(&self, other: &Self) -> (r: bool) {
        self.price == other.price
    }
}

impl PartialEqSpecImpl for OrderBookLevel {
    open spec fn obeys_eq_spec() -> bool {
        true
    }

    open spec fn eq_spec(&self, other: &Self) -> bool {
        self.price == other.price
    }
}

impl Eq for OrderBookLevel {

}

impl PartialOrd for OrderBookLevel {
    fn partial_cmp(&self, other: &Self) -> (r: Option<Ordering>) {
        if self.price < other.price {
            Some(Ordering::Less)
        } else if self.price == other.price {
            Some(Ordering::Equal)
        } else {
            Some(Ordering::Greater)
        }
    }
}

impl PartialOrdSpecImpl for OrderBookLevel {
    open spec fn obeys_partial_cmp_spec() -> bool {
        true
    }

    open spec fn partial_cmp_spec(&self, other: &Self) -> Option<Ordering> {
        if self.price < other.price {
            Some(Ordering::Less)
        } else if self.price == other.price {
            Some(Ordering::Equal)
        } else {
            Some(Ordering::Greater)
        }
    }
}

} // verus!
