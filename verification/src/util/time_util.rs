//! Clock readings and small text helpers.
use vstd::prelude::*;

use crate::bindings::{
    ascii_upper_char, chars_ascii, clock_since_unix_epoch, str_to_uppercase, unicode_upper,
};

verus! {

/// A clock reading: whole seconds and nanoseconds since 1970-01-01 UTC, or
/// `None` when the clock reads earlier than that.
pub open spec fn valid_reading(rd: Option<(u64, u32)>) -> bool {
    rd matches Some(r) ==> r.1 < 1_000_000_000
}

/// The whole seconds of a reading; 0 for a clock before 1970.
pub open spec fn reading_secs(rd: Option<(u64, u32)>) -> u64 {
    match rd {
        Some(r) => r.0,
        None => 0,
    }
}

/// The whole milliseconds of a reading; 0 for a clock before 1970.
pub open spec fn reading_millis(rd: Option<(u64, u32)>) -> u128 {
    match rd {
        Some(r) => (r.0 * 1000 + r.1 / 1_000_000) as u128,
        None => 0,
    }
}

/// Clock and text helpers.
pub struct Utils;

impl Utils {
    /// The whole seconds of a clock reading (0 for a clock before 1970).
    pub fn seconds_of(reading: Option<(u64, u32)>) -> (r: u64)
        ensures
            r == reading_secs(reading),
    {
        match reading {
            Some((secs, _)) => secs,
            None => 0,
        }
    }

    /// The whole milliseconds of a clock reading (0 for a clock before 1970).
    pub fn millis_of(reading: Option<(u64, u32)>) -> (r: u128)
        ensures
            r == reading_millis(reading),
    {
        match reading {
            Some((secs, nanos)) => (secs as u128) * 1000 + (nanos / 1_000_000) as u128,
            None => 0,
        }
    }

    /// Seconds since 1970-01-01 UTC by the system clock: the whole seconds of
    /// a reading of the clock (0 when the clock reads earlier than 1970).
    pub fn get_current_timestamp() -> (r: u64)
        ensures
            exists|rd: Option<(u64, u32)>| #[trigger] valid_reading(rd) && r == reading_secs(rd),
    {
        let rd = clock_since_unix_epoch();
        assert(valid_reading(rd));
        Utils::seconds_of(rd)
    }

    /// Milliseconds since 1970-01-01 UTC by the system clock: the whole
    /// milliseconds of a reading of the clock (0 when the clock reads earlier
    /// than 1970).
    pub fn get_current_timestamp_ms() -> (r: u128)
        ensures
            exists|rd: Option<(u64, u32)>| #[trigger] valid_reading(rd) && r == reading_millis(rd),
    {
        let rd = clock_since_unix_epoch();
        assert(valid_reading(rd));
        Utils::millis_of(rd)
    }

    /// The upper case of `s`; for ASCII text, `a`..`z` become `A`..`Z`.
    pub fn to_uppercase(s: &str) -> (r: String)
        ensures
            r@ == unicode_upper(s@),
            chars_ascii(s@) ==> r@ == s@.map_values(|c: char| ascii_upper_char(c)),
    {
        str_to_uppercase(s)
    }
}

} // verus!
