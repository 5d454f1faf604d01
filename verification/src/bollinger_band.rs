//! The Bollinger-band scoring strategy.
//!
//! All band conditions are decided exactly from the integer window sums a
//! view carries.  With `S = price_sum`, `Q = price_square_sum` and window
//! length `p = PERIOD`, the window mean of the representative price is
//! `S / (3p)` and its standard deviation is `sqrt(p*Q - S*S) / (3p)`; a
//! comparison against `mean + k*sd` is therefore a sign test plus a square
//! comparison, with no floating point anywhere.

use vstd::prelude::*;
use std::rc::Rc;
use crate::backend::BackendOp;
use crate::date::Date;
use crate::schema::RawData;
use crate::strategy;
use crate::strategy::Score;
use crate::view::BollingerBandView;

verus! {

/// Window length of the rolling indicator statistics.
pub const PERIOD: usize = 30;

/// Number of most recent views a score is computed over.
pub const ANALYZE_RANGE: usize = 8;

/// Width of the outer band, in standard deviations.
pub const BAND_SIZE: usize = 2;

/// Number of consecutive weak closes that trigger a settle.
pub const CONT_LOW_LIMIT: usize = 3;

/// Bounds that every view produced by the indicator engine satisfies; they
/// keep the band arithmetic inside `i128`.
pub open spec fn view_bounded(v: BollingerBandView) -> bool {
    &&& v.price_sum <= 0xc00_0000_0000
    &&& v.price_square_sum <= 0x2400_0000_0000_0000_0000
}

/// Three times the representative price of the view's own day.
pub open spec fn view_rep3(v: BollingerBandView) -> int {
    v.high + v.low + v.close
}

/// `(3*PERIOD)^2` times the variance of the view's window.
pub open spec fn variance_num(v: BollingerBandView) -> int {
    PERIOD * v.price_square_sum - v.price_sum * v.price_sum
}

/// The day's representative price lies in `[mean + sd, mean + BAND_SIZE*sd]`.
pub open spec fn in_buy_zone(v: BollingerBandView) -> bool {
    let d = PERIOD * view_rep3(v) - v.price_sum;
    &&& d >= 0
    &&& d * d >= variance_num(v)
    &&& (d <= 0 || d * d <= BAND_SIZE * BAND_SIZE * variance_num(v))
}

/// The day's weighted price `low + 0.75*(high - low)` is at or above
/// `mean + sd`.
pub open spec fn weighted_above_band(v: BollingerBandView) -> bool {
    let w = 3 * PERIOD * (v.low + 3 * v.high) - 4 * v.price_sum;
    &&& w >= 0
    &&& w * w >= 16 * variance_num(v)
}

/// The last `a` views have nonzero representative prices and their standard
/// deviation is non-increasing walking backward from the most recent view.
pub open spec fn window_filter_ok(vs: Seq<BollingerBandView>, a: int) -> bool {
    &&& forall|i: int| vs.len() - a <= i < vs.len() ==> view_rep3(#[trigger] vs[i]) != 0
    &&& forall|i: int|
        vs.len() - a <= i < vs.len() - 1 ==> variance_num(#[trigger] vs[i]) <= variance_num(
            vs[i + 1],
        )
}

/// Number of views at indices `[lo, len)` whose day is in the buy zone.
pub open spec fn buy_zone_count(vs: Seq<BollingerBandView>, lo: int) -> int
    decreases vs.len() - lo,
{
    if lo < 0 || lo >= vs.len() {
        0
    } else {
        (if in_buy_zone(vs[lo]) {
            1int
        } else {
            0int
        }) + buy_zone_count(vs, lo + 1)
    }
}

/// Nearest integer to `n / d` (half away from zero), for `n >= 0`, `d > 0`.
pub open spec fn round_div(n: int, d: int) -> int {
    (2 * n + d) / (2 * d)
}

/// The entry score for a sequence of indicator views ending at the
/// assessment date.
///
/// Neutral (`{0, 0}`) when fewer than `ANALYZE_RANGE` views are available,
/// when the most recent view is not the assessment date itself, when the
/// volatility filter rejects the window, or when the mean has not risen over
/// the window.  Otherwise the score is the in-buy-zone fraction of the
/// window times the percentage rise of the mean, rounded half away from
/// zero, with the most recent volume as tie-break.
pub open spec fn spec_analyze(vs: Seq<BollingerBandView>, assess_date: Date) -> Score {
    let lo = vs.len() - ANALYZE_RANGE;
    let s_last = vs.last().price_sum as int;
    let s_first = vs[lo].price_sum as int;
    if vs.len() < ANALYZE_RANGE {
        Score { point: 0, trading_volume: 0 }
    } else if vs.last().date != assess_date {
        Score { point: 0, trading_volume: 0 }
    } else if !window_filter_ok(vs, ANALYZE_RANGE as int) {
        Score { point: 0, trading_volume: 0 }
    } else if s_first == 0 || s_last <= s_first {
        Score { point: 0, trading_volume: 0 }
    } else {
        Score {
            point: round_div(
                100 * buy_zone_count(vs, lo) * (s_last - s_first),
                ANALYZE_RANGE * s_first,
            ) as i64,
            trading_volume: vs.last().volume,
        }
    }
}

/// Length of the run of most recent views whose weighted price stays below
/// `mean + sd`.
pub open spec fn low_run(vs: Seq<BollingerBandView>) -> int
    decreases vs.len(),
{
    if vs.len() == 0 {
        0
    } else if weighted_above_band(vs.last()) {
        0
    } else {
        1 + low_run(vs.drop_last())
    }
}

/// The exit decision for the views over `[hold_date, assess_date]`.
///
/// False when there are no views or the most recent one is not the
/// assessment date.  True when the window-start mean exceeds the current
/// mean (trend reversal), or when the weighted price has stayed below
/// `mean + sd` for `CONT_LOW_LIMIT` consecutive days.
pub open spec fn spec_settle(vs: Seq<BollingerBandView>, assess_date: Date) -> bool {
    if vs.len() == 0 {
        false
    } else if vs.last().date != assess_date {
        false
    } else if vs[0].price_sum > vs.last().price_sum {
        true
    } else {
        low_run(vs) >= CONT_LOW_LIMIT
    }
}

/// The suffix of `vs` from the first view dated at or after `start` on.
pub open spec fn spec_suffix_from(vs: Seq<BollingerBandView>, start: Date) -> Seq<
    BollingerBandView,
>
    decreases vs.len(),
{
    if vs.len() == 0 {
        Seq::empty()
    } else if !vs[0].date.spec_lt(start) {
        vs
    } else {
        spec_suffix_from(vs.drop_first(), start)
    }
}

proof fn lemma_suffix_from_skip(vs: Seq<BollingerBandView>, start: Date, i: int)
    requires
        0 <= i <= vs.len(),
        forall|j: int| 0 <= j < i ==> (#[trigger] vs[j]).date.spec_lt(start),
        i < vs.len() ==> !vs[i].date.spec_lt(start),
    ensures
        spec_suffix_from(vs, start) =~= vs.skip(i),
    decreases i,
{
    if i == 0 {
        if vs.len() > 0 {
            assert(spec_suffix_from(vs, start) == vs);
        }
        assert(vs.skip(0) =~= vs);
    } else {
        assert(vs[0].date.spec_lt(start));
        lemma_suffix_from_skip(vs.drop_first(), start, i - 1);
        assert(vs.drop_first().skip(i - 1) =~= vs.skip(i));
    }
}

/// The indicator views the strategy works on, given the raw records the
/// store served for `[start - 2*PERIOD days, assess]`: the engine's output,
/// from the first view dated at or after `start`; none when fewer than
/// `PERIOD` records exist.
pub open spec fn views_from(rs: Seq<RawData>, start: Date) -> Seq<BollingerBandView> {
    if rs.len() < PERIOD {
        Seq::empty()
    } else {
        spec_suffix_from(crate::view::spec_transform(rs, PERIOD as int), start)
    }
}

/// The first day of the indicator warm-up: `2 * PERIOD` days before
/// `start`, or nothing when that walks off the calendar.
pub open spec fn warmup_start(start: Date) -> Option<Date> {
    start.spec_sub_days((2 * PERIOD) as nat)
}

/// The warm-up start when it exists (and `start` itself when it does not).
pub open spec fn warmup_start_val(start: Date) -> Date {
    match warmup_start(start) {
        Some(cd) => cd,
        None => start,
    }
}

/// The start of the trailing analysis window: `2 * ANALYZE_RANGE` days
/// before the assessment date.
pub open spec fn analyze_start(assess_date: Date) -> Option<Date> {
    assess_date.spec_sub_days((2 * ANALYZE_RANGE) as nat)
}

/// The analysis-window start when it exists (and `assess_date` when not).
pub open spec fn analyze_start_val(assess_date: Date) -> Date {
    match analyze_start(assess_date) {
        Some(ad) => ad,
        None => assess_date,
    }
}

/// The first day of records an entry score draws on: warm-up before the
/// analysis window.
pub open spec fn analyze_fetch_start(assess_date: Date) -> Option<Date> {
    match analyze_start(assess_date) {
        Some(ad) => warmup_start(ad),
        None => None,
    }
}

/// The exit answer the band strategy stands for: the settle rule over the
/// store's (unique) record window for `[hold_date - 2*PERIOD days,
/// assess_date]`.
pub open spec fn spec_settle_answer<B: BackendOp>(
    strat: &Strategy<B>,
    stock_id: Seq<char>,
    hold_date: Date,
    assess_date: Date,
) -> bool {
    let rs = choose|rs: Seq<RawData>|
        crate::backend::range_records_match(
            (*strat.backend_op).records(),
            stock_id,
            warmup_start_val(hold_date),
            assess_date,
            rs,
        );
    spec_settle(views_from(rs, hold_date), assess_date)
}

/// The entry score the band strategy stands for: the band scoring over
/// the store's (unique) record window for the trailing analysis span
/// before `assess_date`.
pub open spec fn spec_score_answer<B: BackendOp>(
    strat: &Strategy<B>,
    stock_id: Seq<char>,
    assess_date: Date,
) -> Score {
    let rs = choose|rs: Seq<RawData>|
        crate::backend::range_records_match(
            (*strat.backend_op).records(),
            stock_id,
            warmup_start_val(analyze_start_val(assess_date)),
            assess_date,
            rs,
        );
    spec_analyze(views_from(rs, analyze_start_val(assess_date)), assess_date)
}

/// A successful score fetch reports exactly the strategy's score: the
/// store pins the record window, so the existential result clause of
/// `analyze` collapses to `spec_score_answer`.
pub proof fn lemma_score_answer<B: BackendOp>(
    strat: &Strategy<B>,
    stock_id: Seq<char>,
    assess_date: Date,
    s: Score,
)
    requires
        exists|rs: Seq<RawData>|
            #[trigger] crate::backend::range_records_match(
                (*strat.backend_op).records(),
                stock_id,
                warmup_start_val(analyze_start_val(assess_date)),
                assess_date,
                rs,
            ) && s == spec_analyze(views_from(rs, analyze_start_val(assess_date)), assess_date),
    ensures
        s == spec_score_answer(strat, stock_id, assess_date),
{
    let model = (*strat.backend_op).records();
    let rs0 = choose|rs: Seq<RawData>|
        #[trigger] crate::backend::range_records_match(
            model,
            stock_id,
            warmup_start_val(analyze_start_val(assess_date)),
            assess_date,
            rs,
        ) && s == spec_analyze(views_from(rs, analyze_start_val(assess_date)), assess_date);
    let rs1 = choose|rs: Seq<RawData>|
        crate::backend::range_records_match(
            model,
            stock_id,
            warmup_start_val(analyze_start_val(assess_date)),
            assess_date,
            rs,
        );
    assert(crate::backend::range_records_match(
        model,
        stock_id,
        warmup_start_val(analyze_start_val(assess_date)),
        assess_date,
        rs1,
    ));
    crate::backend::lemma_range_records_unique(
        model,
        stock_id,
        warmup_start_val(analyze_start_val(assess_date)),
        assess_date,
        rs0,
        rs1,
    );
}

/// A successful exit check reports exactly the strategy's answer: the
/// store pins the record window, so the existential result clause of
/// `settle_check` collapses to `spec_settle_answer`.
pub proof fn lemma_settle_answer<B: BackendOp>(
    strat: &Strategy<B>,
    stock_id: Seq<char>,
    hold_date: Date,
    assess_date: Date,
    b: bool,
)
    requires
        exists|rs: Seq<RawData>|
            #[trigger] crate::backend::range_records_match(
                (*strat.backend_op).records(),
                stock_id,
                warmup_start_val(hold_date),
                assess_date,
                rs,
            ) && b == spec_settle(views_from(rs, hold_date), assess_date),
    ensures
        b == spec_settle_answer(strat, stock_id, hold_date, assess_date),
{
    let model = (*strat.backend_op).records();
    let rs0 = choose|rs: Seq<RawData>|
        #[trigger] crate::backend::range_records_match(
            model,
            stock_id,
            warmup_start_val(hold_date),
            assess_date,
            rs,
        ) && b == spec_settle(views_from(rs, hold_date), assess_date);
    let rs1 = choose|rs: Seq<RawData>|
        crate::backend::range_records_match(
            model,
            stock_id,
            warmup_start_val(hold_date),
            assess_date,
            rs,
        );
    assert(crate::backend::range_records_match(
        model,
        stock_id,
        warmup_start_val(hold_date),
        assess_date,
        rs1,
    ));
    crate::backend::lemma_range_records_unique(
        model,
        stock_id,
        warmup_start_val(hold_date),
        assess_date,
        rs0,
        rs1,
    );
}

fn variance_num_exec(v: &BollingerBandView) -> (r: i128)
    requires
        view_bounded(*v),
    ensures
        r == variance_num(*v),
        -0x1000_0000_0000_0000_0000_0000 <= r <= 0x1000_0000_0000_0000_0000_0000,
{
    let s: i128 = v.price_sum as i128;
    proof {
        assert(0 <= s * s <= 0xc00_0000_0000 * 0xc00_0000_0000) by (nonlinear_arith)
            requires
                0 <= s <= 0xc00_0000_0000,
        ;
        assert(0xc00_0000_0000 * 0xc00_0000_0000 < 0x1000_0000_0000_0000_0000_0000);
    }
    30i128 * (v.price_square_sum as i128) - s * s
}

fn in_buy_zone_exec(v: &BollingerBandView) -> (r: bool)
    requires
        view_bounded(*v),
    ensures
        r == in_buy_zone(*v),
{
    let vn = variance_num_exec(v);
    let x: i128 = v.high as i128 + v.low as i128 + v.close as i128;
    let d: i128 = 30i128 * x - v.price_sum as i128;
    proof {
        assert(d * d <= 0xc00_0000_0000 * 0xc00_0000_0000) by (nonlinear_arith)
            requires
                -0xc00_0000_0000 <= d <= 0xc00_0000_0000,
        ;
    }
    d >= 0 && d * d >= vn && (d <= 0 || d * d <= 4i128 * vn)
}

fn weighted_above_band_exec(v: &BollingerBandView) -> (r: bool)
    requires
        view_bounded(*v),
    ensures
        r == weighted_above_band(*v),
{
    let vn = variance_num_exec(v);
    let w: i128 = 90i128 * (v.low as i128 + 3i128 * v.high as i128) - 4i128 * v.price_sum as i128;
    proof {
        assert(w * w <= 0x4000_0000_0000 * 0x4000_0000_0000) by (nonlinear_arith)
            requires
                -0x4000_0000_0000 <= w <= 0x4000_0000_0000,
        ;
    }
    w >= 0 && w * w >= 16i128 * vn
}

/// Computes the entry score from a window of indicator views, exactly as
/// `spec_analyze` states it.
#[verifier::rlimit(100)]
pub fn analyze_views(views: &Vec<BollingerBandView>, assess_date: Date) -> (r: Score)
    requires
        forall|k: int| 0 <= k < views@.len() ==> view_bounded(#[trigger] views@[k]),
    ensures
        r == spec_analyze(views@, assess_date),
        r.point >= 0,
{
    let n = views.len();
    if n < ANALYZE_RANGE {
        return Score { point: 0, trading_volume: 0 };
    }
    let last = views[n - 1];
    proof {
        assert(views@.last() == views@[n - 1]);
    }
    if !(last.date == assess_date) {
        return Score { point: 0, trading_volume: 0 };
    }
    let lo = n - ANALYZE_RANGE;
    let mut cnt: u64 = 0;
    let mut i: usize = lo;
    while i < n
        invariant
            lo <= i <= n,
            n == views@.len(),
            ANALYZE_RANGE <= n,
            lo == n - ANALYZE_RANGE,
            forall|k: int| 0 <= k < views@.len() ==> view_bounded(#[trigger] views@[k]),
            forall|j: int| lo <= j < i ==> view_rep3(#[trigger] views@[j]) != 0,
            forall|j: int|
                lo <= j < i && j + 1 < n ==> variance_num(#[trigger] views@[j]) <= variance_num(
                    views@[j + 1],
                ),
            cnt == buy_zone_count(views@, lo as int) - buy_zone_count(views@, i as int),
            cnt <= i - lo,
        decreases n - i,
    {
        let v = views[i];
        let x: u64 = v.high as u64 + v.low as u64 + v.close as u64;
        if x == 0 {
            return Score { point: 0, trading_volume: 0 };
        }
        if i + 1 < n {
            let a = variance_num_exec(&views[i]);
            let b = variance_num_exec(&views[i + 1]);
            if a > b {
                return Score { point: 0, trading_volume: 0 };
            }
        }
        proof {
            lemma_buy_zone_count_step(views@, i as int);
        }
        if in_buy_zone_exec(&v) {
            cnt = cnt + 1;
        }
        i = i + 1;
    }
    proof {
        assert(buy_zone_count(views@, n as int) == 0);
        assert(window_filter_ok(views@, ANALYZE_RANGE as int));
    }
    let s_last: u64 = last.price_sum;
    let s_first: u64 = views[lo].price_sum;
    if s_first == 0 || s_last <= s_first {
        return Score { point: 0, trading_volume: 0 };
    }
    proof {
        assert(100 * (cnt as int) * (s_last - s_first) <= 800 * 0xc00_0000_0000)
            by (nonlinear_arith)
            requires
                0 <= cnt <= 8,
                0 <= s_last - s_first <= 0xc00_0000_0000,
        ;
    }
    let num: u128 = 100u128 * (cnt as u128) * ((s_last - s_first) as u128);
    let den: u128 = (ANALYZE_RANGE as u128) * (s_first as u128);
    let q: u128 = (2 * num + den) / (2 * den);
    proof {
        assert(q <= num) by (nonlinear_arith)
            requires
                den >= 1,
                num >= 0,
                q == (2 * num + den) / (2 * den),
        ;
    }
    Score { point: q as i64, trading_volume: last.volume }
}

proof fn lemma_buy_zone_count_step(vs: Seq<BollingerBandView>, i: int)
    requires
        0 <= i < vs.len(),
    ensures
        buy_zone_count(vs, i) == buy_zone_count(vs, i + 1) + if in_buy_zone(vs[i]) {
            1int
        } else {
            0int
        },
{
}

/// Decides the exit signal from a window of indicator views, exactly as
/// `spec_settle` states it.
pub fn settle_check_views(views: &Vec<BollingerBandView>, assess_date: Date) -> (r: bool)
    requires
        forall|k: int| 0 <= k < views@.len() ==> view_bounded(#[trigger] views@[k]),
    ensures
        r == spec_settle(views@, assess_date),
{
    let n = views.len();
    if n == 0 {
        return false;
    }
    let last = views[n - 1];
    proof {
        assert(views@.last() == views@[n - 1]);
    }
    if !(last.date == assess_date) {
        return false;
    }
    if views[0].price_sum > last.price_sum {
        return true;
    }
    proof {
        assert(views@.take(n as int) =~= views@);
    }
    let mut count: usize = 0;
    while count < n
        invariant
            0 <= count <= n,
            n == views@.len(),
            n > 0,
            views@.last().date == assess_date,
            !(views@[0].price_sum > views@.last().price_sum),
            forall|k: int| 0 <= k < views@.len() ==> view_bounded(#[trigger] views@[k]),
            low_run(views@) == count + low_run(views@.take(n - count)),
            count < CONT_LOW_LIMIT,
        decreases n - count,
    {
        let v = views[n - 1 - count];
        proof {
            assert(views@.take(n - count).last() == views@[n - 1 - count]);
            assert(views@.take(n - count).drop_last() =~= views@.take(n - count - 1));
        }
        if weighted_above_band_exec(&v) {
            proof {
                assert(weighted_above_band(views@.take(n - count).last()));
                assert(low_run(views@.take(n - count)) == 0);
                assert(low_run(views@) == count);
                assert(low_run(views@) < CONT_LOW_LIMIT);
                assert(!spec_settle(views@, assess_date));
            }
            return false;
        }
        count = count + 1;
        if count == CONT_LOW_LIMIT {
            proof {
                lemma_low_run_nonneg(views@.take(n - count));
                assert(low_run(views@) == count + low_run(views@.take(n - count)));
                assert(low_run(views@) >= CONT_LOW_LIMIT);
                assert(spec_settle(views@, assess_date));
            }
            return true;
        }
    }
    proof {
        assert(views@.take(0) =~= Seq::<BollingerBandView>::empty());
        assert(low_run(views@) == n);
    }
    false
}

proof fn lemma_low_run_nonneg(vs: Seq<BollingerBandView>)
    ensures
        low_run(vs) >= 0,
    decreases vs.len(),
{
    if vs.len() > 0 && !weighted_above_band(vs.last()) {
        lemma_low_run_nonneg(vs.drop_last());
    }
}

/// Keeps the suffix of `views` dated at or after `start`, exactly as
/// `spec_suffix_from` states it.
pub fn suffix_from_date(views: Vec<BollingerBandView>, start: Date) -> (r: Vec<BollingerBandView>)
    ensures
        r@ == spec_suffix_from(views@, start),
        r@.len() <= views@.len(),
        forall|k: int|
            0 <= k < r@.len() ==> #[trigger] r@[k] == views@[views@.len() - r@.len() + k],
{
    let n = views.len();
    let mut i: usize = 0;
    let mut stop: bool = false;
    while i < n && !stop
        invariant
            0 <= i <= n,
            n == views@.len(),
            forall|j: int| 0 <= j < i ==> (#[trigger] views@[j]).date.spec_lt(start),
            stop ==> i < n && !views@[i as int].date.spec_lt(start),
        decreases n - i, 1int - if stop { 1int } else { 0int },
    {
        if views[i].date.lt(&start) {
            i = i + 1;
        } else {
            stop = true;
        }
    }
    proof {
        lemma_suffix_from_skip(views@, start, i as int);
    }
    let mut vs = views;
    let ghost all = vs@;
    let tail = vs.split_off(i);
    proof {
        assert(tail@ =~= all.skip(i as int));
    }
    tail
}

/// The Bollinger-band strategy over a record store.
pub struct Strategy<B: BackendOp> {
    pub backend_op: Rc<B>,
}

impl<B: BackendOp> Strategy<B> {
    /// Fetches the indicator views for `[start_date, end_date]`, computing
    /// them from records reaching `2 * PERIOD` days further back so the
    /// rolling window is warm by `start_date`.
    fn get_views(&self, stock_id: &str, start_date: Date, end_date: Date) -> (r: Result<
        Vec<BollingerBandView>,
        strategy::Error,
    >)
        requires
            start_date.valid(),
        ensures
            warmup_start(start_date) is None ==> r == Err::<
                Vec<BollingerBandView>,
                strategy::Error,
            >(strategy::Error::BadOperation),
            r matches Ok(vs) ==> {
                &&& warmup_start(start_date) is Some
                &&& forall|k: int| 0 <= k < vs@.len() ==> view_bounded(#[trigger] vs@[k])
                &&& exists|rs: Seq<RawData>|
                    #[trigger] crate::backend::range_records_match(
                        (*self.backend_op).records(),
                        stock_id@,
                        warmup_start_val(start_date),
                        end_date,
                        rs,
                    ) && vs@ == views_from(rs, start_date)
            },
            r matches Err(e) ==> (warmup_start(start_date) is None || e matches
                strategy::Error::Backend(_)),
    {
        let calc_date = match start_date.sub_days(2 * PERIOD as u32) {
            Some(d) => d,
            None => {
                return Err(strategy::Error::BadOperation);
            }
        };
        let records = match self.backend_op.query_by_range(stock_id, calc_date, end_date) {
            Ok(rs) => rs,
            Err(e) => {
                return Err(strategy::Error::Backend(e));
            }
        };
        let views = match BollingerBandView::transform(&records) {
            Ok(vs) => vs,
            Err(_) => {
                proof {
                    assert(false);
                }
                unreached()
            }
        };
        proof {
            assert(crate::backend::range_records_match(
                (*self.backend_op).records(),
                stock_id@,
                warmup_start_val(start_date),
                end_date,
                records@,
            ));
        }
        if records.len() < PERIOD {
            let empty_views: Vec<BollingerBandView> = Vec::new();
            proof {
                assert(empty_views@ =~= views_from(records@, start_date));
            }
            return Ok(empty_views);
        }
        let tail = suffix_from_date(views, start_date);
        proof {
            assert(tail@ == views_from(records@, start_date));
        }
        Ok(tail)
    }

    /// The entry score for `stock_id` at `assess_date`: the verified band
    /// scoring applied to the fetched views.
    pub fn analyze(&self, stock_id: &str, assess_date: Date) -> (r: Result<Score, strategy::Error>)
        requires
            assess_date.valid(),
        ensures
            analyze_fetch_start(assess_date) is None ==> r == Err::<Score, strategy::Error>(
                strategy::Error::BadOperation,
            ),
            r matches Ok(s) ==> {
                &&& s.point >= 0
                &&& exists|rs: Seq<RawData>|
                    #[trigger] crate::backend::range_records_match(
                        (*self.backend_op).records(),
                        stock_id@,
                        warmup_start_val(analyze_start_val(assess_date)),
                        assess_date,
                        rs,
                    ) && s == spec_analyze(
                        views_from(rs, analyze_start_val(assess_date)),
                        assess_date,
                    )
            },
            r matches Err(e) ==> (analyze_fetch_start(assess_date) is None || e matches
                strategy::Error::Backend(_)),
    {
        let analyze_date = match assess_date.sub_days(2 * ANALYZE_RANGE as u32) {
            Some(d) => d,
            None => {
                return Err(strategy::Error::BadOperation);
            }
        };
        let views = match self.get_views(stock_id, analyze_date, assess_date) {
            Ok(vs) => vs,
            Err(e) => {
                return Err(e);
            }
        };
        let score = analyze_views(&views, assess_date);
        proof {
            let rs = choose|rs: Seq<RawData>|
                #[trigger] crate::backend::range_records_match(
                    (*self.backend_op).records(),
                    stock_id@,
                    warmup_start_val(analyze_date),
                    assess_date,
                    rs,
                ) && views@ == views_from(rs, analyze_date);
            assert(analyze_date == analyze_start_val(assess_date));
            assert(score == spec_analyze(views_from(rs, analyze_start_val(assess_date)), assess_date));
        }
        Ok(score)
    }

    /// The exit decision for a position held since `hold_date`, assessed at
    /// `assess_date`: the verified settle rule applied to the fetched views.
    pub fn settle_check(&self, stock_id: &str, hold_date: Date, assess_date: Date) -> (r: Result<
        bool,
        strategy::Error,
    >)
        requires
            hold_date.valid(),
            assess_date.valid(),
        ensures
            warmup_start(hold_date) is None ==> r == Err::<bool, strategy::Error>(
                strategy::Error::BadOperation,
            ),
            r matches Ok(b) ==> exists|rs: Seq<RawData>|
                #[trigger] crate::backend::range_records_match(
                    (*self.backend_op).records(),
                    stock_id@,
                    warmup_start_val(hold_date),
                    assess_date,
                    rs,
                ) && b == spec_settle(views_from(rs, hold_date), assess_date),
            r matches Err(e) ==> (warmup_start(hold_date) is None || e matches
                strategy::Error::Backend(_)),
    {
        let views = match self.get_views(stock_id, hold_date, assess_date) {
            Ok(vs) => vs,
            Err(e) => {
                return Err(e);
            }
        };
        let fired = settle_check_views(&views, assess_date);
        proof {
            let rs = choose|rs: Seq<RawData>|
                #[trigger] crate::backend::range_records_match(
                    (*self.backend_op).records(),
                    stock_id@,
                    warmup_start_val(hold_date),
                    assess_date,
                    rs,
                ) && views@ == views_from(rs, hold_date);
            assert(fired == spec_settle(views_from(rs, hold_date), assess_date));
        }
        Ok(fired)
    }
}

} // verus!
