//! The daily bar stored for one symbol and one trading day.
//!
//! Prices are kept as plain unsigned integers (a fixed smallest currency
//! unit chosen by the caller), which keeps every derived statistic exact.

use vstd::prelude::*;
use crate::date::Date;

verus! {

/// One immutable daily record: open/high/low/close prices, the day's price
/// spread, and the traded volume and money.
#[derive(Clone, Copy, Debug)]
pub struct RawData {
    pub open: u32,
    pub high: u32,
    pub low: u32,
    pub close: u32,
    pub spread: i32,
    pub date: Date,
    pub trading_volume: u64,
    pub trading_money: u64,
}

impl core::default::Default for RawData {
    fn default() -> (r: RawData)
        ensures
            r == (RawData {
                open: 0u32,
                high: 0u32,
                low: 0u32,
                close: 0u32,
                spread: 0i32,
                date: Date { year: 1970u32, month: 1u32, day: 1u32 },
                trading_volume: 0u64,
                trading_money: 0u64,
            }),
    {
        RawData {
            open: 0,
            high: 0,
            low: 0,
            close: 0,
            spread: 0,
            date: Date { year: 1970, month: 1, day: 1 },
            trading_volume: 0,
            trading_money: 0,
        }
    }
}

impl core::convert::From<(u32, u32, u32, u32, i32, Date, u64, u64)> for RawData {
    fn from(t: (u32, u32, u32, u32, i32, Date, u64, u64)) -> (r: RawData) {
        RawData {
            open: t.0,
            high: t.1,
            low: t.2,
            close: t.3,
            spread: t.4,
            date: t.5,
            trading_volume: t.6,
            trading_money: t.7,
        }
    }
}

impl vstd::std_specs::convert::FromSpecImpl<(u32, u32, u32, u32, i32, Date, u64, u64)> for RawData {
    open spec fn obeys_from_spec() -> bool {
        true
    }

    open spec fn from_spec(t: (u32, u32, u32, u32, i32, Date, u64, u64)) -> RawData {
        RawData {
            open: t.0,
            high: t.1,
            low: t.2,
            close: t.3,
            spread: t.4,
            date: t.5,
            trading_volume: t.6,
            trading_money: t.7,
        }
    }
}

} // verus!
