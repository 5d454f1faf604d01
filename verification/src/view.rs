//! Derived indicator views over a record sequence.
//!
//! For a window length `p`, one view is produced per input record once `p`
//! records have been consumed, carrying that record's bar together with the
//! rolling sums of the representative price over the trailing window.
//!
//! The representative price of a day is `(high + low + close) / 3`.  To keep
//! everything exact, a view stores three times that price summed over the
//! window (`price_sum`) and the sum of its squares (`price_square_sum`);
//! the moving average and the standard deviation of the window are fixed
//! rational functions of those two sums, and every comparison the strategies
//! need is decided exactly from them.

use vstd::prelude::*;
use crate::bollinger_band::PERIOD;
use crate::date::Date;
use crate::schema::RawData;

verus! {

/// Largest window length the engine accepts; keeps the rolling sums well
/// inside their integer types.
pub const MAX_PERIOD: usize = 1024;

/// The kinds of derived view the library can produce.
pub enum Views {
    NoView,
    BollingerBand,
}

/// Failures of the view engine.
#[derive(Clone, Copy, Debug, PartialEq, Eq, Structural)]
pub enum Error {
    BadPeriod,
}

/// One day's bar plus the rolling window sums ending on that day.
///
/// With `S = price_sum`, `Q = price_square_sum` and window length `p`:
/// the window mean of the representative price is `S / (3p)` and its
/// variance is `(p*Q - S*S) / (9*p*p)`.
#[derive(Clone, Copy, Debug)]
pub struct BollingerBandView {
    pub open: u32,
    pub high: u32,
    pub low: u32,
    pub close: u32,
    pub date: Date,
    pub volume: u64,
    pub price_sum: u64,
    pub price_square_sum: u128,
}

impl core::default::Default for BollingerBandView {
    fn default() -> (r: BollingerBandView)
        ensures
            r == (BollingerBandView {
                open: 0u32,
                high: 0u32,
                low: 0u32,
                close: 0u32,
                date: Date { year: 1970u32, month: 1u32, day: 1u32 },
                volume: 0u64,
                price_sum: 0u64,
                price_square_sum: 0u128,
            }),
    {
        BollingerBandView {
            open: 0,
            high: 0,
            low: 0,
            close: 0,
            date: Date { year: 1970, month: 1, day: 1 },
            volume: 0,
            price_sum: 0,
            price_square_sum: 0,
        }
    }
}

/// Three times the representative price of one day.
pub open spec fn rep3(r: RawData) -> int {
    r.high + r.low + r.close
}

/// Sum of `rep3` over the records at indices `[lo, hi)`.
pub open spec fn sum_rep3(s: Seq<RawData>, lo: int, hi: int) -> int
    decreases hi - lo,
{
    if lo >= hi {
        0
    } else {
        rep3(s[lo]) + sum_rep3(s, lo + 1, hi)
    }
}

/// Sum of `rep3` squared over the records at indices `[lo, hi)`.
pub open spec fn sum_rep3_sq(s: Seq<RawData>, lo: int, hi: int) -> int
    decreases hi - lo,
{
    if lo >= hi {
        0
    } else {
        rep3(s[lo]) * rep3(s[lo]) + sum_rep3_sq(s, lo + 1, hi)
    }
}

/// The view at position `k` of the output describes the record at position
/// `k + p - 1` of the input, with sums over the window `[k, k + p)`.
pub open spec fn view_at(s: Seq<RawData>, p: int, k: int, v: BollingerBandView) -> bool {
    let e = k + p - 1;
    &&& v.open == s[e].open
    &&& v.high == s[e].high
    &&& v.low == s[e].low
    &&& v.close == s[e].close
    &&& v.date == s[e].date
    &&& v.volume == s[e].trading_volume
    &&& v.price_sum == sum_rep3(s, k, k + p)
    &&& v.price_square_sum == sum_rep3_sq(s, k, k + p)
}

/// The view the engine emits at output position `k`: the record at
/// `k + p - 1` with the window sums over `[k, k + p)`.
pub open spec fn view_of(s: Seq<RawData>, p: int, k: int) -> BollingerBandView {
    BollingerBandView {
        open: s[k + p - 1].open,
        high: s[k + p - 1].high,
        low: s[k + p - 1].low,
        close: s[k + p - 1].close,
        date: s[k + p - 1].date,
        volume: s[k + p - 1].trading_volume,
        price_sum: sum_rep3(s, k, k + p) as u64,
        price_square_sum: sum_rep3_sq(s, k, k + p) as u128,
    }
}

/// The whole output of the engine on `s` with window length `p`.
pub open spec fn spec_transform(s: Seq<RawData>, p: int) -> Seq<BollingerBandView> {
    if 1 <= p <= s.len() {
        Seq::new((s.len() - p + 1) as nat, |k: int| view_of(s, p, k))
    } else {
        Seq::empty()
    }
}

/// Start of the rolling window that ends just before `idx`.
pub open spec fn window_lo(idx: int, period: int) -> int {
    if idx >= period {
        idx - period
    } else {
        0
    }
}

proof fn lemma_sum_extend(s: Seq<RawData>, lo: int, hi: int)
    requires
        0 <= lo <= hi < s.len(),
    ensures
        sum_rep3(s, lo, hi + 1) == sum_rep3(s, lo, hi) + rep3(s[hi]),
        sum_rep3_sq(s, lo, hi + 1) == sum_rep3_sq(s, lo, hi) + rep3(s[hi]) * rep3(s[hi]),
    decreases hi - lo,
{
    if lo >= hi {
        assert(sum_rep3(s, lo, hi) == 0);
        assert(sum_rep3_sq(s, lo, hi) == 0);
        assert(sum_rep3(s, lo + 1, hi + 1) == 0);
        assert(sum_rep3_sq(s, lo + 1, hi + 1) == 0);
    } else {
        lemma_sum_extend(s, lo + 1, hi);
    }
}

proof fn lemma_sum_bounds(s: Seq<RawData>, lo: int, hi: int)
    requires
        0 <= lo <= hi <= s.len(),
    ensures
        0 <= sum_rep3(s, lo, hi) <= (hi - lo) * 0x3_0000_0000,
        0 <= sum_rep3_sq(s, lo, hi) <= (hi - lo) * 0x9_0000_0000_0000_0000,
    decreases hi - lo,
{
    if lo >= hi {
        assert(sum_rep3(s, lo, hi) == 0);
        assert(sum_rep3_sq(s, lo, hi) == 0);
    } else {
        lemma_sum_bounds(s, lo + 1, hi);
        assert(rep3(s[lo]) < 0x3_0000_0000);
        assert(rep3(s[lo]) * rep3(s[lo]) <= 0x9_0000_0000_0000_0000) by (nonlinear_arith)
            requires
                0 <= rep3(s[lo]) <= 0x3_0000_0000,
        ;
        assert((hi - lo) * 0x3_0000_0000 == (hi - (lo + 1)) * 0x3_0000_0000 + 0x3_0000_0000)
            by (nonlinear_arith);
        assert((hi - lo) * 0x9_0000_0000_0000_0000 == (hi - (lo + 1)) * 0x9_0000_0000_0000_0000
            + 0x9_0000_0000_0000_0000) by (nonlinear_arith);
    }
}

impl BollingerBandView {
    /// Runs the engine with the library's standard window length.
    pub fn transform(records: &Vec<RawData>) -> (r: Result<Vec<BollingerBandView>, Error>)
        ensures
            r matches Ok(vs) ==> {
                &&& vs@.len() == if records@.len() >= PERIOD {
                    records@.len() - PERIOD + 1
                } else {
                    0
                }
                &&& forall|k: int|
                    0 <= k < vs@.len() ==> view_at(records@, PERIOD as int, k, #[trigger] vs@[k])
                &&& forall|k: int|
                    0 <= k < vs@.len() ==> ((#[trigger] vs@[k]).price_sum <= 0xc00_0000_0000
                        && vs@[k].price_square_sum <= 0x2400_0000_0000_0000_0000)
                &&& vs@ == spec_transform(records@, PERIOD as int)
            },
            r is Ok,
    {
        transform_with_period(records, PERIOD)
    }
}

/// The indicator engine: one pass over `records`, emitting a view for every
/// position from `period - 1` on, each carrying the rolling sums of the
/// trailing `period` records.  The first `period - 1` positions yield no
/// view.  A window length of zero is rejected.
pub fn transform_with_period(records: &Vec<RawData>, period: usize) -> (r: Result<
    Vec<BollingerBandView>,
    Error,
>)
    requires
        period <= MAX_PERIOD,
    ensures
        r is Ok <==> period >= 1,
        r matches Ok(vs) ==> {
            &&& vs@.len() == if records@.len() >= period {
                records@.len() - period + 1
            } else {
                0
            }
            &&& forall|k: int|
                0 <= k < vs@.len() ==> view_at(records@, period as int, k, #[trigger] vs@[k])
            &&& forall|k: int|
                0 <= k < vs@.len() ==> ((#[trigger] vs@[k]).price_sum <= 0xc00_0000_0000
                    && vs@[k].price_square_sum <= 0x2400_0000_0000_0000_0000)
            &&& vs@ == spec_transform(records@, period as int)
        },
{
    if period == 0 {
        return Err(Error::BadPeriod);
    }
    let n = records.len();
    let mut views: Vec<BollingerBandView> = Vec::new();
    let mut sum: u64 = 0;
    let mut sumsq: u128 = 0;
    let mut idx: usize = 0;
    while idx < n
        invariant
            1 <= period <= MAX_PERIOD,
            idx <= n,
            n == records@.len(),
            sum == sum_rep3(records@, window_lo(idx as int, period as int), idx as int),
            sumsq == sum_rep3_sq(records@, window_lo(idx as int, period as int), idx as int),
            views@.len() == if idx >= period {
                idx - period + 1
            } else {
                0int
            },
            forall|k: int|
                0 <= k < views@.len() ==> view_at(records@, period as int, k, #[trigger] views@[k]),
            forall|k: int|
                0 <= k < views@.len() ==> ((#[trigger] views@[k]).price_sum <= 0xc00_0000_0000
                    && views@[k].price_square_sum <= 0x2400_0000_0000_0000_0000),
        decreases n - idx,
    {
        let ghost lo: int = window_lo(idx as int, period as int);
        let r = records[idx];
        let x: u64 = r.high as u64 + r.low as u64 + r.close as u64;
        proof {
            lemma_sum_bounds(records@, lo, idx as int);
            assert((idx - lo) * 0x3_0000_0000 <= 0xc00_0000_0000) by (nonlinear_arith)
                requires
                    0 <= idx - lo <= 1024,
            ;
            assert((idx - lo) * 0x9_0000_0000_0000_0000 <= 0x2400_0000_0000_0000_0000)
                by (nonlinear_arith)
                requires
                    0 <= idx - lo <= 1024,
            ;
            lemma_sum_extend(records@, lo, idx as int);
            assert((x as u128) * (x as u128) <= 0x9_0000_0000_0000_0000) by (nonlinear_arith)
                requires
                    0 <= x as u128 <= 0x3_0000_0000,
            ;
        }
        sum = sum + x;
        let xsq: u128 = (x as u128) * (x as u128);
        sumsq = sumsq + xsq;
        if idx >= period {
            let out = records[idx - period];
            let y: u64 = out.high as u64 + out.low as u64 + out.close as u64;
            proof {
                assert(sum_rep3(records@, lo, idx + 1) == rep3(records@[lo]) + sum_rep3(
                    records@,
                    lo + 1,
                    idx + 1,
                ));
                assert(sum_rep3_sq(records@, lo, idx + 1) == rep3(records@[lo]) * rep3(records@[lo])
                    + sum_rep3_sq(records@, lo + 1, idx + 1));
                lemma_sum_bounds(records@, lo + 1, idx + 1);
            }
            sum = sum - y;
            sumsq = sumsq - (y as u128) * (y as u128);
        }
        proof {
            let lo2 = window_lo(idx as int + 1, period as int);
            assert(sum == sum_rep3(records@, lo2, idx as int + 1));
            assert(sumsq == sum_rep3_sq(records@, lo2, idx as int + 1));
            lemma_sum_bounds(records@, lo2, idx as int + 1);
            assert((idx + 1 - lo2) * 0x3_0000_0000 <= 0xc00_0000_0000) by (nonlinear_arith)
                requires
                    0 <= idx + 1 - lo2 <= 1024,
            ;
            assert((idx + 1 - lo2) * 0x9_0000_0000_0000_0000 <= 0x2400_0000_0000_0000_0000)
                by (nonlinear_arith)
                requires
                    0 <= idx + 1 - lo2 <= 1024,
            ;
        }
        if idx + 1 >= period {
            views.push(
                BollingerBandView {
                    open: r.open,
                    high: r.high,
                    low: r.low,
                    close: r.close,
                    date: r.date,
                    volume: r.trading_volume,
                    price_sum: sum,
                    price_square_sum: sumsq,
                },
            );
        }
        idx = idx + 1;
    }
    proof {
        assert forall|k: int| 0 <= k < views@.len() implies views@[k] == view_of(
            records@,
            period as int,
            k,
        ) by {
            assert(view_at(records@, period as int, k, views@[k]));
        }
        assert(views@ =~= spec_transform(records@, period as int));
    }
    Ok(views)
}

} // verus!
