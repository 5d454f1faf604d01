//! The decision engine: the day-by-day simulation state machine.
//!
//! For each assessment date the engine runs settle, mark-to-market and
//! selection phases against the store, the crawler and the strategy it was
//! given, and produces one `Portfolio` snapshot.  Everything proved here
//! holds for every answer those collaborators can give.

use vstd::prelude::*;
use vstd::multiset::Multiset;
use std::rc::Rc;
use crate::backend;
use crate::backend::BackendOp;
use crate::crawler;
use crate::crawler::Crawler;
use crate::date::Date;
use crate::schema::RawData;
use crate::strategy;
use crate::strategy::{Score, StrategyAPI, score_le, spec_score_le};

verus! {

/// A failure of one simulation step, tagged with the originating subsystem.
///
/// `ZeroPriceRecord` and `LiquidityOverflow` name the two arithmetic dead
/// ends (a selected record priced at zero, and settle proceeds beyond the
/// liquidity type) that the engine refuses instead of panicking.
#[derive(Debug)]
pub enum Error {
    Backend(backend::Error),
    Crawler(crawler::Error),
    Strategy(strategy::Error),
    BackendRecordNotFound,
    ZeroPriceRecord,
    LiquidityOverflow,
}

impl core::convert::From<backend::Error> for Error {
    fn from(err: backend::Error) -> (r: Error) {
        Error::Backend(err)
    }
}

impl vstd::std_specs::convert::FromSpecImpl<backend::Error> for Error {
    open spec fn obeys_from_spec() -> bool {
        true
    }

    open spec fn from_spec(err: backend::Error) -> Error {
        Error::Backend(err)
    }
}

impl core::convert::From<crawler::Error> for Error {
    fn from(err: crawler::Error) -> (r: Error) {
        Error::Crawler(err)
    }
}

impl vstd::std_specs::convert::FromSpecImpl<crawler::Error> for Error {
    open spec fn obeys_from_spec() -> bool {
        true
    }

    open spec fn from_spec(err: crawler::Error) -> Error {
        Error::Crawler(err)
    }
}

impl core::convert::From<strategy::Error> for Error {
    fn from(err: strategy::Error) -> (r: Error) {
        Error::Strategy(err)
    }
}

impl vstd::std_specs::convert::FromSpecImpl<strategy::Error> for Error {
    open spec fn obeys_from_spec() -> bool {
        true
    }

    open spec fn from_spec(err: strategy::Error) -> Error {
        Error::Strategy(err)
    }
}

/// One position line of a snapshot: a symbol with a share count and the
/// price used for it.
#[derive(Debug, Clone)]
pub struct StockInfo {
    pub stock_id: String,
    pub num: u32,
    pub price: u32,
}

/// One simulation snapshot: the stocks selected, held and settled on `date`,
/// and the liquidity left after the day's trades.
#[derive(Debug, Clone)]
pub struct Portfolio {
    pub date: Date,
    pub stocks_selected: Vec<StockInfo>,
    pub stocks_hold: Vec<StockInfo>,
    pub stocks_settled: Vec<StockInfo>,
    pub liquidity: u32,
}

impl core::default::Default for Portfolio {
    fn default() -> (r: Portfolio)
        ensures
            r.date == (Date { year: 1970u32, month: 1u32, day: 1u32 }),
            r.stocks_selected@.len() == 0,
            r.stocks_hold@.len() == 0,
            r.stocks_settled@.len() == 0,
            r.liquidity == 0,
    {
        Portfolio {
            date: Date { year: 1970, month: 1, day: 1 },
            stocks_selected: Vec::new(),
            stocks_hold: Vec::new(),
            stocks_settled: Vec::new(),
            liquidity: 0,
        }
    }
}

/// One open position: the symbol, the date it was entered, and the share
/// count.
#[derive(Debug, Clone)]
pub struct Holding {
    pub stock_id: String,
    pub hold_date: Date,
    pub num: u32,
}

/// Total value of a list of position lines: the sum of `num * price`.
pub open spec fn stocks_value(s: Seq<StockInfo>) -> int
    decreases s.len(),
{
    if s.len() == 0 {
        0
    } else {
        stocks_value(s.drop_last()) + s.last().num * s.last().price
    }
}

pub open spec fn info_has_id(s: Seq<StockInfo>, id: Seq<char>) -> bool {
    exists|i: int| 0 <= i < s.len() && (#[trigger] s[i]).stock_id@ == id
}

pub open spec fn holding_has_id(h: Seq<Holding>, id: Seq<char>) -> bool {
    exists|i: int| 0 <= i < h.len() && (#[trigger] h[i]).stock_id@ == id
}

/// No symbol appears twice among the holdings.
pub open spec fn holdings_unique(h: Seq<Holding>) -> bool {
    forall|i: int, j: int|
        0 <= i < j < h.len() ==> (#[trigger] h[i]).stock_id@ != (#[trigger] h[j]).stock_id@
}

/// `ids` lists exactly the held symbols whose exit answer is yes.
pub open spec fn settles_exactly<S: StrategyAPI>(
    strategy: S,
    holdings: Seq<Holding>,
    assess_date: Date,
    ids: Seq<String>,
) -> bool {
    forall|j: int|
        #![trigger holdings[j]]
        0 <= j < holdings.len() ==> ((exists|k: int|
            0 <= k < ids.len() && (#[trigger] ids[k])@ == holdings[j].stock_id@)
            <==> strategy.settle_firing(
            holdings[j].stock_id@,
            holdings[j].hold_date,
            assess_date,
        ))
}

/// `lines` carries exactly the held symbols whose exit answer is yes.
pub open spec fn settled_lines_exactly<S: StrategyAPI>(
    strategy: S,
    holdings: Seq<Holding>,
    assess_date: Date,
    lines: Seq<StockInfo>,
) -> bool {
    forall|j: int|
        #![trigger holdings[j]]
        0 <= j < holdings.len() ==> (info_has_id(lines, holdings[j].stock_id@)
            <==> strategy.settle_firing(
            holdings[j].stock_id@,
            holdings[j].hold_date,
            assess_date,
        ))
}

/// `x` appears in `h` with the same symbol, entry date and share count.
pub open spec fn holding_in(h: Seq<Holding>, x: Holding) -> bool {
    exists|j: int|
        0 <= j < h.len() && (#[trigger] h[j]).stock_id@ == x.stock_id@ && h[j].hold_date
            == x.hold_date && h[j].num == x.num
}

proof fn lemma_stocks_value_push(s: Seq<StockInfo>, x: StockInfo)
    ensures
        stocks_value(s.push(x)) == stocks_value(s) + x.num * x.price,
{
    assert(s.push(x).drop_last() =~= s);
    assert(s.push(x).last() == x);
}

/// The settle and mark-to-market price of a daily record: the midpoint of
/// its high and low.
pub fn settle_price(record: &RawData) -> (r: u32)
    ensures
        r == (record.high + record.low) as int / 2,
{
    ((record.high as u64 + record.low as u64) / 2) as u32
}

/// `a` may stand no later than `b` in the ranking: a strictly better
/// score, or an equal score and an earlier (or equal) universe position.
pub open spec fn rank_before(a: (usize, Score), b: (usize, Score)) -> bool {
    ||| !spec_score_le(a.1, b.1)
    ||| (spec_score_le(a.1, b.1) && spec_score_le(b.1, a.1) && a.0 <= b.0)
}

/// Ranking order: scores descending, ties in universe order.
pub open spec fn ranking_sorted(r: Seq<(usize, Score)>) -> bool {
    forall|a: int, b: int| 0 <= a < b < r.len() ==> rank_before(#[trigger] r[a], #[trigger] r[b])
}

/// `r` is the ranking of `scored`: the same entries, in ranking order.
pub open spec fn is_ranking_of(scored: Seq<(usize, Score)>, r: Seq<(usize, Score)>) -> bool {
    r.to_multiset() == scored.to_multiset() && ranking_sorted(r)
}

/// The ranking of `scored`; unique by `lemma_ranking_unique`.
pub open spec fn ranking_of(scored: Seq<(usize, Score)>) -> Seq<(usize, Score)> {
    choose|r: Seq<(usize, Score)>| is_ranking_of(scored, r)
}

/// Each universe entry paired with the strategy's score for it.
pub open spec fn scored_universe<S: StrategyAPI>(
    strategy: &S,
    universe: Seq<Seq<char>>,
    assess_date: Date,
) -> Seq<(usize, Score)> {
    Seq::new(universe.len(), |i: int| (i as usize, strategy.score_of(universe[i], assess_date)))
}

proof fn lemma_sorted_multiset_unique(r1: Seq<(usize, Score)>, r2: Seq<(usize, Score)>)
    requires
        r1.to_multiset() == r2.to_multiset(),
        ranking_sorted(r1),
        ranking_sorted(r2),
    ensures
        r1 == r2,
    decreases r1.len(),
{
    broadcast use vstd::seq_lib::group_to_multiset_ensures;

    assert(r1.len() == r1.to_multiset().len());
    assert(r2.len() == r2.to_multiset().len());
    if r1.len() == 0 {
        assert(r1 =~= r2);
    } else {
        assert(r1.contains(r1[0]));
        assert(r2.to_multiset().count(r1[0]) > 0);
        assert(r2.contains(r1[0]));
        let j = choose|j: int| 0 <= j < r2.len() && r2[j] == r1[0];
        assert(rank_before(r2[0], r1[0])) by {
            if j > 0 {
                assert(rank_before(r2[0], r2[j]));
            }
        }
        assert(r2.contains(r2[0]));
        assert(r1.to_multiset().count(r2[0]) > 0);
        assert(r1.contains(r2[0]));
        let i = choose|i: int| 0 <= i < r1.len() && r1[i] == r2[0];
        assert(rank_before(r1[0], r2[0])) by {
            if i > 0 {
                assert(rank_before(r1[0], r1[i]));
            }
        }
        let a = r1[0];
        let b = r2[0];
        assert(a == b) by {
            assert(spec_score_le(a.1, b.1) && spec_score_le(b.1, a.1));
            assert(a.0 == b.0);
            assert(a.1.point == b.1.point && a.1.trading_volume == b.1.trading_volume);
        }
        let t1 = r1.drop_first();
        let t2 = r2.drop_first();
        assert(r1.remove(0) =~= t1);
        assert(r2.remove(0) =~= t2);
        assert(t1.to_multiset() =~= r1.to_multiset().remove(r1[0]));
        assert(t2.to_multiset() =~= r2.to_multiset().remove(r2[0]));
        assert(ranking_sorted(t1)) by {
            assert forall|c: int, d: int| 0 <= c < d < t1.len() implies rank_before(
                #[trigger] t1[c],
                #[trigger] t1[d],
            ) by {
                assert(t1[c] == r1[c + 1]);
                assert(t1[d] == r1[d + 1]);
            }
        }
        assert(ranking_sorted(t2)) by {
            assert forall|c: int, d: int| 0 <= c < d < t2.len() implies rank_before(
                #[trigger] t2[c],
                #[trigger] t2[d],
            ) by {
                assert(t2[c] == r2[c + 1]);
                assert(t2[d] == r2[d + 1]);
            }
        }
        lemma_sorted_multiset_unique(t1, t2);
        assert forall|m: int| 0 <= m < r1.len() implies #[trigger] r1[m] == r2[m] by {
            if m > 0 {
                assert(r1[m] == t1[m - 1]);
                assert(r2[m] == t2[m - 1]);
            }
        }
        assert(r1 =~= r2);
    }
}

/// Entries in ranking order with the same multiset are the one ranking.
pub proof fn lemma_ranking_unique(
    scored: Seq<(usize, Score)>,
    r1: Seq<(usize, Score)>,
    r2: Seq<(usize, Score)>,
)
    requires
        is_ranking_of(scored, r1),
        is_ranking_of(scored, r2),
    ensures
        r1 == r2,
{
    lemma_sorted_multiset_unique(r1, r2);
}

/// Sorts score-tagged entries into ranking order: scores descending under
/// the `(point, trading_volume)` order, entries with equal scores keeping
/// their universe order, the result a permutation of the input.
pub fn sort_scored_desc(v: &mut Vec<(usize, Score)>)
    requires
        forall|a: int, b: int|
            0 <= a < b < old(v)@.len() ==> (#[trigger] old(v)@[a]).0 < (#[trigger] old(v)@[b]).0,
    ensures
        final(v)@.len() == old(v)@.len(),
        final(v)@.to_multiset() == old(v)@.to_multiset(),
        forall|k: int| 0 <= k < final(v)@.len() ==> old(v)@.contains(#[trigger] final(v)@[k]),
        forall|a: int, b: int|
            0 <= a < b < final(v)@.len() ==> spec_score_le(
                (#[trigger] final(v)@[b]).1,
                (#[trigger] final(v)@[a]).1,
            ),
        ranking_sorted(final(v)@),
        is_ranking_of(old(v)@, final(v)@),
        forall|a: int, b: int|
            0 <= a < b < final(v)@.len() ==> (#[trigger] final(v)@[a]).0 != (
            #[trigger] final(v)@[b]).0,
{
    let ghost orig = v@;
    let mut out: Vec<(usize, Score)> = Vec::new();
    let mut rest: Vec<(usize, Score)> = Vec::new();
    core::mem::swap(&mut rest, v);
    proof {
        broadcast use vstd::seq_lib::group_to_multiset_ensures;

        assert(out@.to_multiset().add(rest@.to_multiset()) =~= orig.to_multiset());
        assert forall|k: int| 0 <= k < rest@.len() implies orig.contains(#[trigger] rest@[k]) by {
            assert(orig[k] == rest@[k]);
        }
        assert forall|a: int, b: int|
            0 <= a < b < rest@.len() implies (#[trigger] rest@[a]).0 < (#[trigger] rest@[b]).0 by {
            assert(rest@[a] == orig[a]);
            assert(rest@[b] == orig[b]);
        }
    }
    while rest.len() > 0
        invariant
            out@.len() + rest@.len() == orig.len(),
            out@.to_multiset().add(rest@.to_multiset()) == orig.to_multiset(),
            forall|k: int| 0 <= k < out@.len() ==> orig.contains(#[trigger] out@[k]),
            forall|k: int| 0 <= k < rest@.len() ==> orig.contains(#[trigger] rest@[k]),
            forall|a: int, b: int|
                0 <= a < b < rest@.len() ==> (#[trigger] rest@[a]).0 < (#[trigger] rest@[b]).0,
            forall|a: int, b: int|
                0 <= a < b < out@.len() ==> rank_before(#[trigger] out@[a], #[trigger] out@[b]),
            forall|a: int, b: int|
                0 <= a < out@.len() && 0 <= b < rest@.len() ==> rank_before(
                    #[trigger] out@[a],
                    #[trigger] rest@[b],
                ),
            forall|a: int, b: int|
                0 <= a < b < out@.len() ==> (#[trigger] out@[a]).0 != (#[trigger] out@[b]).0,
            forall|a: int, b: int|
                0 <= a < out@.len() && 0 <= b < rest@.len() ==> (#[trigger] out@[a]).0 != (
                #[trigger] rest@[b]).0,
        decreases rest@.len(),
    {
        let mut best: usize = 0;
        let mut k: usize = 1;
        while k < rest.len()
            invariant
                0 <= best < k <= rest@.len(),
                rest@.len() > 0,
                forall|m: int|
                    0 <= m < k ==> spec_score_le((#[trigger] rest@[m]).1, rest@[best as int].1),
                forall|m: int|
                    0 <= m < best ==> !spec_score_le(rest@[best as int].1, (#[trigger] rest@[m]).1),
            decreases rest@.len() - k,
        {
            if !score_le(&rest[k].1, &rest[best].1) {
                best = k;
            }
            k = k + 1;
        }
        let ghost old_rest = rest@;
        let x = rest.remove(best);
        proof {
            broadcast use vstd::seq_lib::group_to_multiset_ensures;

            assert(out@.push(x).to_multiset().add(rest@.to_multiset()) =~= orig.to_multiset());
            assert forall|m: int| 0 <= m < old_rest.len() && m != best implies rank_before(
                x,
                #[trigger] old_rest[m],
            ) by {
                if m > best {
                    assert(old_rest[best as int].0 < old_rest[m].0);
                }
            }
            assert forall|m: int| 0 <= m < rest@.len() implies (orig.contains(#[trigger] rest@[m])
                && rank_before(x, rest@[m])) by {
                if m < best {
                    assert(rest@[m] == old_rest[m]);
                } else {
                    assert(rest@[m] == old_rest[m + 1]);
                }
            }
            assert forall|a: int, b: int|
                0 <= a < b < rest@.len() implies (#[trigger] rest@[a]).0 < (
            #[trigger] rest@[b]).0 by {
                let a2: int = if a < best {
                    a
                } else {
                    a + 1
                };
                let b2: int = if b < best {
                    b
                } else {
                    b + 1
                };
                assert(rest@[a] == old_rest[a2]);
                assert(rest@[b] == old_rest[b2]);
            }
            assert forall|k2: int| 0 <= k2 < out@.push(x).len() implies orig.contains(
                #[trigger] out@.push(x)[k2],
            ) by {
                if k2 < out@.len() {
                    assert(out@.push(x)[k2] == out@[k2]);
                } else {
                    assert(out@.push(x)[k2] == x);
                    assert(orig.contains(old_rest[best as int]));
                }
            }
            assert forall|a: int, b: int|
                0 <= a < b < out@.push(x).len() implies (rank_before(
                #[trigger] out@.push(x)[a],
                #[trigger] out@.push(x)[b],
            ) && out@.push(x)[a].0 != out@.push(x)[b].0) by {
                assert(out@.push(x)[a] == out@[a]);
                if b < out@.len() {
                    assert(out@.push(x)[b] == out@[b]);
                } else {
                    assert(out@.push(x)[b] == x);
                    assert(rank_before(out@[a], old_rest[best as int]));
                    assert(out@[a].0 != old_rest[best as int].0);
                }
            }
            assert forall|a: int, b: int|
                0 <= a < out@.push(x).len() && 0 <= b < rest@.len() implies (
            #[trigger] out@.push(x)[a]).0 != (#[trigger] rest@[b]).0 by {
                let b2: int = if b < best {
                    b
                } else {
                    b + 1
                };
                assert(rest@[b] == old_rest[b2]);
                if a < out@.len() {
                    assert(out@.push(x)[a] == out@[a]);
                } else {
                    assert(out@.push(x)[a] == x);
                    assert(x == old_rest[best as int]);
                    if b2 < best {
                        assert(old_rest[b2].0 < old_rest[best as int].0);
                    } else {
                        assert(old_rest[best as int].0 < old_rest[b2].0);
                    }
                }
            }
        }
        out.push(x);
    }
    core::mem::swap(&mut out, v);
    proof {
        assert(v@.to_multiset() =~= orig.to_multiset()) by {
            broadcast use vstd::seq_lib::group_to_multiset_ensures;

            assert(rest@.to_multiset() =~= Multiset::<(usize, Score)>::empty());
        }
        broadcast use vstd::seq_lib::group_to_multiset_ensures;

        assert(v@.len() == v@.to_multiset().len());
        assert(orig.len() == orig.to_multiset().len());
        assert forall|a: int, b: int| 0 <= a < b < v@.len() implies spec_score_le(
            (#[trigger] v@[b]).1,
            (#[trigger] v@[a]).1,
        ) by {
            assert(rank_before(v@[a], v@[b]));
        }
    }
}

/// The symbols the ranking walk picks: down the ranked list, stop at
/// capacity or at the first non-positive score, skip symbols already held.
pub open spec fn spec_select(
    list: Seq<Seq<char>>,
    ranked: Seq<(usize, Score)>,
    held: Seq<Holding>,
    capacity: int,
    acc: Seq<Seq<char>>,
) -> Seq<Seq<char>>
    decreases ranked.len(),
{
    if ranked.len() == 0 {
        acc
    } else if held.len() + acc.len() == capacity {
        acc
    } else if ranked[0].1.point <= 0 {
        acc
    } else {
        let id = list[ranked[0].0 as int];
        let acc2 = if holding_has_id(held, id) {
            acc
        } else {
            acc.push(id)
        };
        spec_select(list, ranked.drop_first(), held, capacity, acc2)
    }
}

/// Walks the ranked scores and picks the symbols to buy, exactly as
/// `spec_select` states it: stop once the held plus picked count reaches
/// `capacity` or at the first score with no buy signal, and skip symbols
/// already held.
pub fn select_ranked(
    stock_list: &Vec<String>,
    ranked: &Vec<(usize, Score)>,
    held: &Vec<Holding>,
    capacity: usize,
) -> (r: Vec<String>)
    requires
        forall|k: int| 0 <= k < ranked@.len() ==> (#[trigger] ranked@[k]).0 < stock_list@.len(),
        holdings_unique(held@),
        held@.len() <= capacity,
    ensures
        r@.map_values(|s: String| s@) == spec_select(
            stock_list@.map_values(|s: String| s@),
            ranked@,
            held@,
            capacity as int,
            Seq::empty(),
        ),
        held@.len() + r@.len() <= capacity,
        forall|k: int| 0 <= k < r@.len() ==> !holding_has_id(held@, (#[trigger] r@[k])@),
{
    let ghost list = stock_list@.map_values(|s: String| s@);
    let mut picked: Vec<String> = Vec::new();
    proof {
        assert(ranked@.skip(0) =~= ranked@);
        assert(picked@.map_values(|s: String| s@) =~= Seq::<Seq<char>>::empty());
    }
    let mut i: usize = 0;
    let mut stop: bool = false;
    let n = ranked.len();
    while i < n && !stop
        invariant
            0 <= i <= n,
            n == ranked@.len(),
            forall|k: int| 0 <= k < ranked@.len() ==> (#[trigger] ranked@[k]).0 < stock_list@.len(),
            holdings_unique(held@),
            held@.len() <= capacity,
            list == stock_list@.map_values(|s: String| s@),
            held@.len() + picked@.len() <= capacity,
            forall|k: int|
                0 <= k < picked@.len() ==> !holding_has_id(held@, (#[trigger] picked@[k])@),
            !stop ==> spec_select(list, ranked@, held@, capacity as int, Seq::empty())
                == spec_select(
                list,
                ranked@.skip(i as int),
                held@,
                capacity as int,
                picked@.map_values(|s: String| s@),
            ),
            stop ==> spec_select(list, ranked@, held@, capacity as int, Seq::empty())
                == picked@.map_values(|s: String| s@),
        decreases n - i, 1int - if stop { 1int } else { 0int },
    {
        proof {
            assert(ranked@.skip(i as int)[0] == ranked@[i as int]);
        }
        if held.len() + picked.len() == capacity {
            proof {
                assert(spec_select(
                    list,
                    ranked@.skip(i as int),
                    held@,
                    capacity as int,
                    picked@.map_values(|s: String| s@),
                ) == picked@.map_values(|s: String| s@));
            }
            stop = true;
        } else if ranked[i].1.point <= 0 {
            proof {
                assert(spec_select(
                    list,
                    ranked@.skip(i as int),
                    held@,
                    capacity as int,
                    picked@.map_values(|s: String| s@),
                ) == picked@.map_values(|s: String| s@));
            }
            stop = true;
        } else {
            let idx = ranked[i].0;
            let id = &stock_list[idx];
            let mut held_already: bool = false;
            let mut j: usize = 0;
            while j < held.len()
                invariant
                    0 <= j <= held@.len(),
                    held_already ==> holding_has_id(held@, id@),
                    !held_already ==> forall|m: int|
                        0 <= m < j ==> (#[trigger] held@[m]).stock_id@ != id@,
                decreases held@.len() - j,
            {
                let hj = &held[j];
                if hj.stock_id.eq(id) {
                    held_already = true;
                }
                j = j + 1;
            }
            proof {
                assert(list[ranked@[i as int].0 as int] == id@);
                assert(ranked@.skip(i as int).drop_first() =~= ranked@.skip(i as int + 1));
                if !held_already {
                    assert(picked@.push(*id).map_values(|s: String| s@) =~= picked@.map_values(
                        |s: String| s@,
                    ).push(id@));
                }
            }
            if !held_already {
                picked.push(id.clone());
            }
            i = i + 1;
        }
    }
    proof {
        if !stop {
            assert(ranked@.skip(n as int) =~= Seq::<(usize, Score)>::empty());
            assert(spec_select(
                list,
                ranked@.skip(n as int),
                held@,
                capacity as int,
                picked@.map_values(|s: String| s@),
            ) == picked@.map_values(|s: String| s@));
        }
    }
    picked
}

/// The selection the engine stands for: the ranking walk over the scored
/// universe, against the held symbols and the position capacity.
pub open spec fn full_selection<C: Crawler, S: StrategyAPI>(
    crawler: &C,
    strategy: &S,
    holdings: Seq<Holding>,
    capacity: int,
    assess_date: Date,
) -> Seq<Seq<char>> {
    spec_select(
        crawler.universe(),
        ranking_of(scored_universe(strategy, crawler.universe(), assess_date)),
        holdings,
        capacity,
        Seq::empty(),
    )
}

/// With a duplicate-free universe and duplicate-free ranking indices, the
/// selection walk never picks a symbol twice.
proof fn lemma_spec_select_distinct(
    list: Seq<Seq<char>>,
    ranked: Seq<(usize, Score)>,
    held: Seq<Holding>,
    capacity: int,
    acc: Seq<Seq<char>>,
)
    requires
        forall|a: int, b: int| 0 <= a < b < list.len() ==> #[trigger] list[a] != #[trigger] list[b],
        forall|a: int, b: int|
            0 <= a < b < ranked.len() ==> (#[trigger] ranked[a]).0 != (#[trigger] ranked[b]).0,
        forall|k: int| 0 <= k < ranked.len() ==> (#[trigger] ranked[k]).0 < list.len(),
        forall|a: int, b: int| 0 <= a < b < acc.len() ==> #[trigger] acc[a] != #[trigger] acc[b],
        forall|k: int| 0 <= k < ranked.len() ==> !acc.contains(list[(#[trigger] ranked[k]).0 as int]),
    ensures
        forall|a: int, b: int|
            0 <= a < b < spec_select(list, ranked, held, capacity, acc).len()
                ==> #[trigger] spec_select(list, ranked, held, capacity, acc)[a]
                != #[trigger] spec_select(list, ranked, held, capacity, acc)[b],
    decreases ranked.len(),
{
    if ranked.len() == 0 || held.len() + acc.len() == capacity || ranked[0].1.point <= 0 {
        assert(spec_select(list, ranked, held, capacity, acc) == acc);
    } else {
        let id = list[ranked[0].0 as int];
        let tail = ranked.drop_first();
        if holding_has_id(held, id) {
            assert(spec_select(list, ranked, held, capacity, acc) == spec_select(
                list,
                tail,
                held,
                capacity,
                acc,
            ));
            assert forall|k: int|
                0 <= k < tail.len() implies !acc.contains(
                list[(#[trigger] tail[k]).0 as int],
            ) by {
                assert(tail[k] == ranked[k + 1]);
            }
            lemma_spec_select_distinct(list, tail, held, capacity, acc);
        } else {
            let acc2 = acc.push(id);
            assert(!acc.contains(id));
            assert forall|a: int, b: int|
                0 <= a < b < acc2.len() implies #[trigger] acc2[a] != #[trigger] acc2[b] by {
                assert(acc2[a] == acc[a]);
                if b < acc.len() {
                    assert(acc2[b] == acc[b]);
                } else {
                    assert(acc2[b] == id);
                    if acc[a] == id {
                        assert(acc.contains(id));
                    }
                }
            }
            assert forall|k: int|
                0 <= k < tail.len() implies !acc2.contains(
                list[(#[trigger] tail[k]).0 as int],
            ) by {
                assert(tail[k] == ranked[k + 1]);
                let id2 = list[ranked[k + 1].0 as int];
                assert(ranked[k + 1].0 != ranked[0].0);
                assert(id2 != id);
                if acc2.contains(id2) {
                    let m = choose|m: int| 0 <= m < acc2.len() && acc2[m] == id2;
                    if m < acc.len() {
                        assert(acc[m] == id2);
                        assert(acc.contains(id2));
                    } else {
                        assert(acc2[m] == id);
                    }
                }
            }
            assert(spec_select(list, ranked, held, capacity, acc) == spec_select(
                list,
                tail,
                held,
                capacity,
                acc2,
            ));
            lemma_spec_select_distinct(list, tail, held, capacity, acc2);
        }
    }
}

/// `s` settles a position of `h`: same symbol and share count, priced at
/// the midpoint of the day's record in `model`.
pub open spec fn settled_from(
    h: Seq<Holding>,
    model: Map<(Seq<char>, Date), RawData>,
    assess_date: Date,
    s: StockInfo,
) -> bool {
    &&& exists|j: int|
        0 <= j < h.len() && (#[trigger] h[j]).stock_id@ == s.stock_id@ && h[j].num == s.num
    &&& model.contains_key((s.stock_id@, assess_date))
    &&& s.price == (model[(s.stock_id@, assess_date)].high + model[(s.stock_id@,
    assess_date)].low) / 2
}

/// The mark-to-market price for `id` on `assess_date`: the record midpoint,
/// or zero when the store has no record (the zero-fill policy).
pub open spec fn marked_price(
    model: Map<(Seq<char>, Date), RawData>,
    id: Seq<char>,
    assess_date: Date,
) -> int {
    if model.contains_key((id, assess_date)) {
        (model[(id, assess_date)].high + model[(id, assess_date)].low) / 2
    } else {
        0
    }
}

/// Removing one holding of a duplicate-free list removes exactly its symbol.
proof fn lemma_holdings_remove(h: Seq<Holding>, idx: int)
    requires
        0 <= idx < h.len(),
        holdings_unique(h),
    ensures
        holdings_unique(h.remove(idx)),
        forall|id: Seq<char>|
            #![trigger holding_has_id(h.remove(idx), id)]
            holding_has_id(h.remove(idx), id) <==> (holding_has_id(h, id) && id != h[idx].stock_id@),
        forall|k: int|
            0 <= k < h.remove(idx).len() ==> holding_in(h, #[trigger] h.remove(idx)[k]),
{
    let r = h.remove(idx);
    assert forall|k: int| 0 <= k < r.len() implies holding_in(h, #[trigger] r[k]) by {
        if k < idx {
            assert(r[k] == h[k]);
        } else {
            assert(r[k] == h[k + 1]);
        }
    }
    assert forall|id: Seq<char>|
        #![trigger holding_has_id(r, id)]
        holding_has_id(r, id) <==> (holding_has_id(h, id) && id != h[idx].stock_id@) by {
        if holding_has_id(r, id) {
            let k = choose|k: int| 0 <= k < r.len() && r[k].stock_id@ == id;
            if k < idx {
                assert(r[k] == h[k]);
                assert(h[k].stock_id@ == id);
            } else {
                assert(r[k] == h[k + 1]);
                assert(h[k + 1].stock_id@ == id);
            }
        }
        if holding_has_id(h, id) && id != h[idx].stock_id@ {
            let j = choose|j: int| 0 <= j < h.len() && h[j].stock_id@ == id;
            if j < idx {
                assert(r[j] == h[j]);
            } else {
                assert(j > idx);
                assert(r[j - 1] == h[j]);
            }
        }
    }
    assert forall|i: int, j: int|
        0 <= i < j < r.len() implies (#[trigger] r[i]).stock_id@ != (#[trigger] r[j]).stock_id@ by {
        let i2: int = if i < idx {
            i
        } else {
            i + 1
        };
        let j2: int = if j < idx {
            j
        } else {
            j + 1
        };
        assert(r[i] == h[i2]);
        assert(r[j] == h[j2]);
    }
}

/// The decision engine's state: the collaborators it consults, the number
/// of positions it may hold at once, the liquidity it manages, and the open
/// positions.
pub struct Decision<C: Crawler, B: BackendOp, S: StrategyAPI> {
    pub crawler: Rc<C>,
    pub backend_op: Rc<B>,
    pub strategy: Rc<S>,
    pub stocks_hold_num: usize,
    pub liquidity: u32,
    pub stocks_hold: Vec<Holding>,
}

impl<C: Crawler, B: BackendOp, S: StrategyAPI> Decision<C, B, S> {
    /// The open positions.
    pub open spec fn holdings(&self) -> Seq<Holding> {
        self.stocks_hold@
    }

    /// The store contents the engine is working against.
    pub open spec fn store(&self) -> Map<(Seq<char>, Date), RawData> {
        (*self.backend_op).records()
    }

    /// Engine well-formedness: duplicate-free holdings, at most
    /// `stocks_hold_num` of them, each entered on a valid date.
    pub open spec fn wf(&self) -> bool {
        &&& holdings_unique(self.holdings())
        &&& self.holdings().len() <= self.stocks_hold_num
        &&& forall|i: int|
            0 <= i < self.holdings().len() ==> (#[trigger] self.holdings()[i]).hold_date.valid()
    }

    /// The fields a simulation step never changes.
    pub open spec fn same_collaborators(&self, other: &Self) -> bool {
        &&& self.crawler == other.crawler
        &&& self.backend_op == other.backend_op
        &&& self.strategy == other.strategy
        &&& self.stocks_hold_num == other.stocks_hold_num
    }

    /// A fresh engine: five position slots, a starting liquidity of 200000,
    /// and nothing held.
    pub fn new(crawler: Rc<C>, backend_op: Rc<B>, strategy: Rc<S>) -> (r: Self)
        ensures
            r.crawler == crawler,
            r.backend_op == backend_op,
            r.strategy == strategy,
            r.stocks_hold_num == 5,
            r.liquidity == 200000,
            r.holdings().len() == 0,
            r.wf(),
    {
        Decision {
            crawler,
            backend_op,
            strategy,
            stocks_hold_num: 5,
            liquidity: 200000,
            stocks_hold: Vec::new(),
        }
    }

    fn find_holding(&self, stock_id: &String) -> (r: Option<usize>)
        ensures
            match r {
                Some(i) => i < self.holdings().len() && self.holdings()[i as int].stock_id@
                    == stock_id@,
                None => !holding_has_id(self.holdings(), stock_id@),
            },
    {
        let n = self.stocks_hold.len();
        let mut i: usize = 0;
        while i < n
            invariant
                0 <= i <= n,
                n == self.holdings().len(),
                forall|j: int| 0 <= j < i ==> (#[trigger] self.holdings()[j]).stock_id@ != stock_id@,
            decreases n - i,
        {
            let h = &self.stocks_hold[i];
            if h.stock_id.eq(stock_id) {
                return Some(i);
            }
            i = i + 1;
        }
        None
    }

    /// Whether every held symbol has a record at `assess_date`; `Ok(false)`
    /// exactly when some held symbol has none.
    fn has_trading_data(&self, assess_date: Date) -> (r: Result<bool, Error>)
        ensures
            r matches Ok(b) ==> b == (forall|i: int|
                0 <= i < self.holdings().len() ==> self.store().contains_key(
                    ((#[trigger] self.holdings()[i]).stock_id@, assess_date),
                )),
    {
        let n = self.stocks_hold.len();
        let mut i: usize = 0;
        while i < n
            invariant
                0 <= i <= n,
                n == self.holdings().len(),
                forall|j: int|
                    0 <= j < i ==> self.store().contains_key(
                        ((#[trigger] self.holdings()[j]).stock_id@, assess_date),
                    ),
            decreases n - i,
        {
            let h = &self.stocks_hold[i];
            match self.backend_op.query(h.stock_id.as_str(), assess_date) {
                Ok(Some(_)) => {}
                Ok(None) => {
                    return Ok(false);
                }
                Err(e) => {
                    return Err(Error::Backend(e));
                }
            }
            i = i + 1;
        }
        Ok(true)
    }

    /// The held symbols whose exit check fires at `assess_date`: exactly
    /// the duplicate-free set of held symbols for which the strategy's
    /// exit answer is yes.
    #[verifier::rlimit(100)]
    fn get_settle_stocks(&self, assess_date: Date) -> (r: Result<Vec<String>, Error>)
        requires
            assess_date.valid(),
            self.wf(),
        ensures
            r matches Ok(ids) ==> forall|k: int|
                0 <= k < ids@.len() ==> holding_has_id(self.holdings(), (#[trigger] ids@[k])@),
            r matches Ok(ids) ==> forall|k: int, l: int|
                0 <= k < l < ids@.len() ==> (#[trigger] ids@[k])@ != (#[trigger] ids@[l])@,
            r matches Ok(ids) ==> settles_exactly(
                *self.strategy,
                self.holdings(),
                assess_date,
                ids@,
            ),
    {
        let mut stocks_settled: Vec<String> = Vec::new();
        let n = self.stocks_hold.len();
        let mut i: usize = 0;
        while i < n
            invariant
                0 <= i <= n,
                n == self.holdings().len(),
                self.wf(),
                assess_date.valid(),
                forall|k: int|
                    0 <= k < stocks_settled@.len() ==> exists|j: int|
                        0 <= j < i && (#[trigger] stocks_settled@[k])@ == self.holdings()[j].stock_id@,
                forall|k: int, l: int|
                    0 <= k < l < stocks_settled@.len() ==> (#[trigger] stocks_settled@[k])@ != (
                    #[trigger] stocks_settled@[l])@,
                forall|j: int|
                    #![trigger self.holdings()[j]]
                    0 <= j < i ==> ((exists|k: int|
                        0 <= k < stocks_settled@.len() && (#[trigger] stocks_settled@[k])@
                            == self.holdings()[j].stock_id@) <==> (
                    *self.strategy).settle_firing(
                        self.holdings()[j].stock_id@,
                        self.holdings()[j].hold_date,
                        assess_date,
                    )),
            decreases n - i,
        {
            let h = &self.stocks_hold[i];
            let fires = match self.strategy.settle_check(
                h.stock_id.as_str(),
                h.hold_date,
                assess_date,
            ) {
                Ok(b) => b,
                Err(e) => {
                    return Err(Error::Strategy(e));
                }
            };
            let ghost pre_settled = stocks_settled@;
            if fires {
                proof {
                    assert forall|k: int|
                        0 <= k < stocks_settled@.len() implies (#[trigger] stocks_settled@[k])@
                        != self.holdings()[i as int].stock_id@ by {
                        let j = choose|j: int|
                            0 <= j < i && stocks_settled@[k]@ == self.holdings()[j].stock_id@;
                        assert(self.holdings()[j].stock_id@ != self.holdings()[i as int].stock_id@);
                    }
                }
                stocks_settled.push(h.stock_id.clone());
            }
            proof {
                assert forall|j: int|
                    #![trigger self.holdings()[j]]
                    0 <= j < i + 1 implies ((exists|k: int|
                        0 <= k < stocks_settled@.len() && (#[trigger] stocks_settled@[k])@
                            == self.holdings()[j].stock_id@) <==> (*self.strategy).settle_firing(
                        self.holdings()[j].stock_id@,
                        self.holdings()[j].hold_date,
                        assess_date,
                    )) by {
                    if j == i {
                        if fires {
                            assert(stocks_settled@.last()@ == self.holdings()[i as int].stock_id@);
                        } else {
                            if exists|k: int|
                                0 <= k < stocks_settled@.len() && (#[trigger] stocks_settled@[k])@
                                    == self.holdings()[j].stock_id@ {
                                let k = choose|k: int|
                                    0 <= k < stocks_settled@.len() && (
                                    #[trigger] stocks_settled@[k])@
                                        == self.holdings()[j].stock_id@;
                                let j2 = choose|j2: int|
                                    0 <= j2 < i && stocks_settled@[k]@
                                        == self.holdings()[j2].stock_id@;
                                assert(self.holdings()[j2].stock_id@
                                    != self.holdings()[i as int].stock_id@);
                            }
                        }
                    } else {
                        if exists|k: int|
                            0 <= k < pre_settled.len() && (#[trigger] pre_settled[k])@
                                == self.holdings()[j].stock_id@ {
                            let k = choose|k: int|
                                0 <= k < pre_settled.len() && (#[trigger] pre_settled[k])@
                                    == self.holdings()[j].stock_id@;
                            assert(stocks_settled@[k]@ == self.holdings()[j].stock_id@);
                        }
                        if exists|k: int|
                            0 <= k < stocks_settled@.len() && (#[trigger] stocks_settled@[k])@
                                == self.holdings()[j].stock_id@ {
                            let k = choose|k: int|
                                0 <= k < stocks_settled@.len() && (#[trigger] stocks_settled@[k])@
                                    == self.holdings()[j].stock_id@;
                            if k < pre_settled.len() {
                                assert(pre_settled[k]@ == self.holdings()[j].stock_id@);
                            } else {
                                assert(stocks_settled@[k]@
                                    == self.holdings()[i as int].stock_id@);
                                assert(self.holdings()[j].stock_id@
                                    != self.holdings()[i as int].stock_id@);
                            }
                        }
                    }
                }
            }
            i = i + 1;
        }
        proof {
            assert(settles_exactly(*self.strategy, self.holdings(), assess_date, stocks_settled@));
        }
        Ok(stocks_settled)
    }

    /// The settle phase: for every held symbol whose exit check fires,
    /// credit `num * price` at the record midpoint, append the line to
    /// `stocks_settled`, and drop the position.  Settled lines carry the
    /// settled holding's share count and the store's price for the day;
    /// liquidity grows by exactly their value; exactly the settled symbols
    /// leave the holdings.
    fn handle_settle_stocks(&mut self, assess_date: Date, portfolio: &mut Portfolio) -> (r: Result<
        (),
        Error,
    >)
        requires
            assess_date.valid(),
            old(self).wf(),
        ensures
            final(self).wf(),
            final(self).same_collaborators(old(self)),
            final(portfolio).date == old(portfolio).date,
            final(portfolio).stocks_selected == old(portfolio).stocks_selected,
            final(portfolio).stocks_hold == old(portfolio).stocks_hold,
            r matches Ok(()) ==> ({
                let appended = final(portfolio).stocks_settled@.skip(
                    old(portfolio).stocks_settled@.len() as int,
                );
                &&& final(portfolio).stocks_settled@.len() >= old(portfolio).stocks_settled@.len()
                &&& final(portfolio).stocks_settled@.take(
                    old(portfolio).stocks_settled@.len() as int,
                ) == old(portfolio).stocks_settled@
                &&& final(self).liquidity == old(self).liquidity + stocks_value(appended)
                &&& final(portfolio).liquidity == final(self).liquidity
                &&& final(self).holdings().len() + appended.len() == old(self).holdings().len()
                &&& forall|id: Seq<char>|
                    #![trigger holding_has_id(final(self).holdings(), id)]
                    holding_has_id(final(self).holdings(), id) <==> (holding_has_id(
                        old(self).holdings(),
                        id,
                    ) && !info_has_id(appended, id))
                &&& forall|k: int|
                    0 <= k < final(self).holdings().len() ==> holding_in(
                        old(self).holdings(),
                        #[trigger] final(self).holdings()[k],
                    )
                &&& forall|k: int|
                    0 <= k < appended.len() ==> settled_from(
                        old(self).holdings(),
                        old(self).store(),
                        assess_date,
                        #[trigger] appended[k],
                    )
                &&& forall|k: int, l: int|
                    0 <= k < l < appended.len() ==> (#[trigger] appended[k]).stock_id@ != (
                    #[trigger] appended[l]).stock_id@
                &&& settled_lines_exactly(
                    *old(self).strategy,
                    old(self).holdings(),
                    assess_date,
                    appended,
                )
            }),
    {
        let settle_ids = match self.get_settle_stocks(assess_date) {
            Ok(v) => v,
            Err(e) => {
                return Err(e);
            }
        };
        let ghost old_holdings = self.stocks_hold@;
        let ghost old_liq = self.liquidity;
        let ghost old_settled = portfolio.stocks_settled@;
        let m = settle_ids.len();
        let mut i: usize = 0;
        while i < m
            invariant
                0 <= i <= m,
                m == settle_ids@.len(),
                assess_date.valid(),
                self.wf(),
                self.crawler == old(self).crawler,
                self.backend_op == old(self).backend_op,
                self.strategy == old(self).strategy,
                self.stocks_hold_num == old(self).stocks_hold_num,
                old_holdings == old(self).holdings(),
                old_liq == old(self).liquidity,
                old_settled == old(portfolio).stocks_settled@,
                holdings_unique(old_holdings),
                portfolio.date == old(portfolio).date,
                portfolio.stocks_selected == old(portfolio).stocks_selected,
                portfolio.stocks_hold == old(portfolio).stocks_hold,
                portfolio.stocks_settled@.len() >= old_settled.len(),
                portfolio.stocks_settled@.take(old_settled.len() as int) == old_settled,
                forall|k: int|
                    0 <= k < settle_ids@.len() ==> holding_has_id(
                        old_holdings,
                        (#[trigger] settle_ids@[k])@,
                    ),
                forall|k: int, l: int|
                    0 <= k < l < settle_ids@.len() ==> (#[trigger] settle_ids@[k])@ != (
                #[trigger] settle_ids@[l])@,
                self.liquidity == old_liq + stocks_value(
                    portfolio.stocks_settled@.skip(old_settled.len() as int),
                ),
                self.holdings().len() + portfolio.stocks_settled@.skip(
                    old_settled.len() as int,
                ).len() == old_holdings.len(),
                forall|id: Seq<char>|
                    #![trigger holding_has_id(self.holdings(), id)]
                    holding_has_id(self.holdings(), id) <==> (holding_has_id(old_holdings, id)
                        && !info_has_id(
                        portfolio.stocks_settled@.skip(old_settled.len() as int),
                        id,
                    )),
                forall|k: int|
                    0 <= k < self.holdings().len() ==> holding_in(
                        old_holdings,
                        #[trigger] self.holdings()[k],
                    ),
                forall|k: int|
                    0 <= k < portfolio.stocks_settled@.skip(old_settled.len() as int).len()
                        ==> settled_from(
                        old_holdings,
                        (*self.backend_op).records(),
                        assess_date,
                        #[trigger] portfolio.stocks_settled@.skip(old_settled.len() as int)[k],
                    ),
                portfolio.stocks_settled@.skip(old_settled.len() as int).len() == i,
                forall|k: int|
                    0 <= k < i ==> (#[trigger] portfolio.stocks_settled@.skip(
                        old_settled.len() as int,
                    )[k]).stock_id@ == settle_ids@[k]@,
            decreases m - i,
        {
            let stock_id = &settle_ids[i];
            let idx = match self.find_holding(stock_id) {
                Some(j) => j,
                None => {
                    return Err(Error::BackendRecordNotFound);
                }
            };
            let stock_num = self.stocks_hold[idx].num;
            let record = match self.backend_op.query(stock_id.as_str(), assess_date) {
                Ok(Some(rec)) => rec,
                Ok(None) => {
                    return Err(Error::BackendRecordNotFound);
                }
                Err(e) => {
                    return Err(Error::Backend(e));
                }
            };
            let price = settle_price(&record);
            proof {
                assert((stock_num as int) * (price as int) <= 0xffff_fffe_0000_0001)
                    by (nonlinear_arith)
                    requires
                        0 <= stock_num as int <= 0xffff_ffff,
                        0 <= price as int <= 0xffff_ffff,
                ;
            }
            let credit: u64 = stock_num as u64 * price as u64;
            let new_liq: u64 = self.liquidity as u64 + credit;
            if new_liq > 0xffff_ffffu64 {
                return Err(Error::LiquidityOverflow);
            }
            let ghost pre_holdings = self.stocks_hold@;
            let ghost pre_settled = portfolio.stocks_settled@;
            let entry = StockInfo { stock_id: stock_id.clone(), num: stock_num, price };
            self.liquidity = new_liq as u32;
            portfolio.stocks_settled.push(entry);
            self.stocks_hold.remove(idx);
            proof {
                lemma_holdings_remove(pre_holdings, idx as int);
                lemma_stocks_value_push(pre_settled.skip(old_settled.len() as int), entry);
                assert(pre_settled.push(entry).skip(old_settled.len() as int) =~= pre_settled.skip(
                    old_settled.len() as int,
                ).push(entry));
                assert(pre_settled.push(entry).take(old_settled.len() as int) =~= pre_settled.take(
                    old_settled.len() as int,
                ));
                let appended = portfolio.stocks_settled@.skip(old_settled.len() as int);
                assert(appended.drop_last() =~= pre_settled.skip(old_settled.len() as int));
                assert forall|k: int| 0 <= k < appended.len() implies (#[trigger] appended[k]).stock_id@
                    == settle_ids@[k]@ by {
                    if k < appended.len() - 1 {
                        assert(appended[k] == appended.drop_last()[k]);
                    } else {
                        assert(appended[k] == entry);
                    }
                }
                assert forall|k: int| 0 <= k < appended.len() implies settled_from(
                    old_holdings,
                    (*self.backend_op).records(),
                    assess_date,
                    #[trigger] appended[k],
                ) by {
                    if k < appended.len() - 1 {
                        assert(appended[k] == pre_settled.skip(old_settled.len() as int)[k]);
                    } else {
                        assert(appended[k] == entry);
                        assert(holding_in(old_holdings, pre_holdings[idx as int]));
                    }
                }
                assert forall|id: Seq<char>|
                    #![trigger holding_has_id(self.holdings(), id)]
                    holding_has_id(self.holdings(), id) <==> (holding_has_id(old_holdings, id)
                        && !info_has_id(appended, id)) by {
                    assert(info_has_id(appended, id) <==> (info_has_id(
                        appended.drop_last(),
                        id,
                    ) || entry.stock_id@ == id)) by {
                        if info_has_id(appended, id) {
                            let k = choose|k: int|
                                0 <= k < appended.len() && appended[k].stock_id@ == id;
                            if k < appended.len() - 1 {
                                assert(appended.drop_last()[k] == appended[k]);
                            }
                        }
                        if info_has_id(appended.drop_last(), id) {
                            let k = choose|k: int|
                                0 <= k < appended.drop_last().len() && appended.drop_last()[k].stock_id@
                                    == id;
                            assert(appended[k] == appended.drop_last()[k]);
                        }
                        if entry.stock_id@ == id {
                            assert(appended.last() == entry);
                        }
                    }
                }
            }
            i = i + 1;
        }
        proof {
            let appended = portfolio.stocks_settled@.skip(old_settled.len() as int);
            assert forall|k: int, l: int| 0 <= k < l < appended.len() implies (
            #[trigger] appended[k]).stock_id@ != (#[trigger] appended[l]).stock_id@ by {
                assert(appended[k].stock_id@ == settle_ids@[k]@);
                assert(appended[l].stock_id@ == settle_ids@[l]@);
            }
            assert forall|j: int|
                #![trigger old_holdings[j]]
                0 <= j < old_holdings.len() implies (info_has_id(
                appended,
                old_holdings[j].stock_id@,
            ) <==> (*self.strategy).settle_firing(
                old_holdings[j].stock_id@,
                old_holdings[j].hold_date,
                assess_date,
            )) by {
                if info_has_id(appended, old_holdings[j].stock_id@) {
                    let k = choose|k: int|
                        0 <= k < appended.len() && (#[trigger] appended[k]).stock_id@
                            == old_holdings[j].stock_id@;
                    assert(settle_ids@[k]@ == old_holdings[j].stock_id@);
                }
                if exists|k: int|
                    0 <= k < settle_ids@.len() && (#[trigger] settle_ids@[k])@
                        == old_holdings[j].stock_id@ {
                    let k = choose|k: int|
                        0 <= k < settle_ids@.len() && (#[trigger] settle_ids@[k])@
                            == old_holdings[j].stock_id@;
                    assert(appended[k].stock_id@ == old_holdings[j].stock_id@);
                }
            }
            assert(settled_lines_exactly(*self.strategy, old_holdings, assess_date, appended));
        }
        portfolio.liquidity = self.liquidity;
        Ok(())
    }

    /// The mark-to-market phase: append one line per remaining holding,
    /// priced at the record midpoint, or at zero when the record is
    /// unexpectedly absent (the zero-fill policy).  Liquidity is untouched.
    fn handle_hold_stocks(&mut self, assess_date: Date, portfolio: &mut Portfolio) -> (r: Result<
        (),
        Error,
    >)
        requires
            old(self).wf(),
        ensures
            *final(self) == *old(self),
            final(portfolio).date == old(portfolio).date,
            final(portfolio).stocks_selected == old(portfolio).stocks_selected,
            final(portfolio).stocks_settled == old(portfolio).stocks_settled,
            r matches Ok(()) ==> ({
                let appended = final(portfolio).stocks_hold@.skip(
                    old(portfolio).stocks_hold@.len() as int,
                );
                &&& final(portfolio).stocks_hold@.len() >= old(portfolio).stocks_hold@.len()
                &&& final(portfolio).stocks_hold@.take(old(portfolio).stocks_hold@.len() as int)
                    == old(portfolio).stocks_hold@
                &&& appended.len() == old(self).holdings().len()
                &&& forall|k: int|
                    0 <= k < appended.len() ==> {
                        &&& (#[trigger] appended[k]).stock_id@ == old(self).holdings()[k].stock_id@
                        &&& appended[k].num == old(self).holdings()[k].num
                        &&& appended[k].price == marked_price(
                            old(self).store(),
                            appended[k].stock_id@,
                            assess_date,
                        )
                    }
                &&& final(portfolio).liquidity == old(self).liquidity
            }),
    {
        let ghost old_hold = portfolio.stocks_hold@;
        let n = self.stocks_hold.len();
        let mut i: usize = 0;
        while i < n
            invariant
                0 <= i <= n,
                n == self.holdings().len(),
                *self == *old(self),
                old_hold == old(portfolio).stocks_hold@,
                portfolio.date == old(portfolio).date,
                portfolio.stocks_selected == old(portfolio).stocks_selected,
                portfolio.stocks_settled == old(portfolio).stocks_settled,
                portfolio.stocks_hold@.len() == old_hold.len() + i,
                portfolio.stocks_hold@.take(old_hold.len() as int) == old_hold,
                forall|k: int|
                    0 <= k < i ==> {
                        &&& (#[trigger] portfolio.stocks_hold@.skip(old_hold.len() as int)[k]).stock_id@
                            == self.holdings()[k].stock_id@
                        &&& portfolio.stocks_hold@.skip(old_hold.len() as int)[k].num
                            == self.holdings()[k].num
                        &&& portfolio.stocks_hold@.skip(old_hold.len() as int)[k].price
                            == marked_price(
                            self.store(),
                            self.holdings()[k].stock_id@,
                            assess_date,
                        )
                    },
            decreases n - i,
        {
            let h = &self.stocks_hold[i];
            let data = match self.backend_op.query(h.stock_id.as_str(), assess_date) {
                Ok(d) => d,
                Err(e) => {
                    return Err(Error::Backend(e));
                }
            };
            let record = match data {
                Some(rec) => rec,
                None => RawData::default(),
            };
            let price = settle_price(&record);
            let ghost pre = portfolio.stocks_hold@;
            portfolio.stocks_hold.push(
                StockInfo { stock_id: h.stock_id.clone(), num: h.num, price },
            );
            proof {
                assert(portfolio.stocks_hold@.take(old_hold.len() as int) =~= pre.take(
                    old_hold.len() as int,
                ));
                assert forall|k: int| 0 <= k < i + 1 implies {
                    &&& (#[trigger] portfolio.stocks_hold@.skip(old_hold.len() as int)[k]).stock_id@
                        == self.holdings()[k].stock_id@
                    &&& portfolio.stocks_hold@.skip(old_hold.len() as int)[k].num
                        == self.holdings()[k].num
                    &&& portfolio.stocks_hold@.skip(old_hold.len() as int)[k].price == marked_price(
                        self.store(),
                        self.holdings()[k].stock_id@,
                        assess_date,
                    )
                } by {
                    if k < i {
                        assert(portfolio.stocks_hold@.skip(old_hold.len() as int)[k] == pre.skip(
                            old_hold.len() as int,
                        )[k]);
                    }
                }
            }
            i = i + 1;
        }
        portfolio.liquidity = self.liquidity;
        Ok(())
    }

    /// The ranking walk: score the whole tradable universe, sort the scores
    /// descending (ties in universe order), and pick symbols that are not
    /// yet held until capacity is reached or the scores stop signalling a
    /// buy.  A failing symbol-list fetch or score aborts, wrapped with its
    /// subsystem tag.
    fn get_select_stocks(&self, assess_date: Date) -> (r: Result<Vec<String>, Error>)
        requires
            assess_date.valid(),
            self.wf(),
        ensures
            r matches Ok(ids) ==> {
                &&& forall|k: int|
                    0 <= k < ids@.len() ==> !holding_has_id(self.holdings(), (#[trigger] ids@[k])@)
                &&& self.holdings().len() + ids@.len() <= self.stocks_hold_num
                &&& ids@.map_values(|s: String| s@) == full_selection(
                    &*self.crawler,
                    &*self.strategy,
                    self.holdings(),
                    self.stocks_hold_num as int,
                    assess_date,
                )
                &&& (forall|a: int, b: int|
                    0 <= a < b < (*self.crawler).universe().len() ==> #[trigger] (
                    *self.crawler).universe()[a] != #[trigger] (*self.crawler).universe()[b])
                    ==> (forall|k: int, l: int|
                    0 <= k < l < ids@.len() ==> (#[trigger] ids@[k])@ != (#[trigger] ids@[l])@)
            },
    {
        let stock_list = match self.crawler.get_stock_list() {
            Ok(v) => v,
            Err(e) => {
                return Err(Error::Crawler(e));
            }
        };
        let ghost universe = (*self.crawler).universe();
        proof {
            assert(stock_list@.map_values(|s: String| s@) == universe);
        }
        let mut stock_scores: Vec<(usize, Score)> = Vec::new();
        let n = stock_list.len();
        let mut i: usize = 0;
        while i < n
            invariant
                0 <= i <= n,
                n == stock_list@.len(),
                assess_date.valid(),
                stock_scores@.len() == i,
                forall|k: int| 0 <= k < i ==> (#[trigger] stock_scores@[k]).0 == k,
                forall|k: int|
                    0 <= k < i ==> (#[trigger] stock_scores@[k]).1 == (*self.strategy).score_of(
                        stock_list@[k]@,
                        assess_date,
                    ),
            decreases n - i,
        {
            let sc = match self.strategy.analyze(stock_list[i].as_str(), assess_date) {
                Ok(s) => s,
                Err(e) => {
                    return Err(Error::Strategy(e));
                }
            };
            stock_scores.push((i, sc));
            i = i + 1;
        }
        proof {
            assert forall|k: int| 0 <= k < stock_scores@.len() implies (#[trigger] stock_scores@[k]).0
                < stock_list@.len() by {}
        }
        let ghost unsorted = stock_scores@;
        sort_scored_desc(&mut stock_scores);
        proof {
            assert forall|k: int| 0 <= k < stock_scores@.len() implies (#[trigger] stock_scores@[k]).0
                < stock_list@.len() by {
                assert(unsorted.contains(stock_scores@[k]));
                let j = choose|j: int| 0 <= j < unsorted.len() && unsorted[j] == stock_scores@[k];
                assert(unsorted[j].0 == j);
            }
            let scored0 = scored_universe(&*self.strategy, universe, assess_date);
            assert(unsorted =~= scored0) by {
                assert(universe.len() == stock_list@.len());
                assert forall|k: int| 0 <= k < unsorted.len() implies #[trigger] unsorted[k] == (
                    k as usize,
                    (*self.strategy).score_of(universe[k], assess_date),
                ) by {
                    assert(universe[k] == stock_list@.map_values(|s: String| s@)[k]);
                    assert(universe[k] == stock_list@[k]@);
                }
            }
            assert(is_ranking_of(scored0, stock_scores@));
            assert(is_ranking_of(scored0, ranking_of(scored0)));
            lemma_ranking_unique(scored0, stock_scores@, ranking_of(scored0));
            if forall|a: int, b: int|
                0 <= a < b < universe.len() ==> #[trigger] universe[a] != #[trigger] universe[b] {
                lemma_spec_select_distinct(
                    universe,
                    stock_scores@,
                    self.stocks_hold@,
                    self.stocks_hold_num as int,
                    Seq::empty(),
                );
            }
        }
        let picked = select_ranked(&stock_list, &stock_scores, &self.stocks_hold, self.stocks_hold_num);
        proof {
            let list = stock_list@.map_values(|s: String| s@);
            let ranked = stock_scores@;
            assert(picked@.map_values(|s: String| s@) == spec_select(
                list,
                ranked,
                self.holdings(),
                self.stocks_hold_num as int,
                Seq::empty(),
            ));
            if forall|a: int, b: int|
                0 <= a < b < universe.len() ==> #[trigger] universe[a] != #[trigger] universe[b] {
                let walk = spec_select(
                    universe,
                    ranked,
                    self.holdings(),
                    self.stocks_hold_num as int,
                    Seq::empty(),
                );
                assert forall|k: int, l: int| 0 <= k < l < picked@.len() implies (
                #[trigger] picked@[k])@ != (#[trigger] picked@[l])@ by {
                    assert(picked@.map_values(|s: String| s@)[k] == picked@[k]@);
                    assert(picked@.map_values(|s: String| s@)[l] == picked@[l]@);
                    assert(walk[k] != walk[l]);
                }
            }
        }
        Ok(picked)
    }

    /// The selection phase: split the liquidity evenly over the picked
    /// symbols, buy whole shares at the record midpoint, debit exactly what
    /// the bought shares cost, and open (or refresh) a position entered at
    /// `assess_date` for each.
    fn handle_selected_stocks(&mut self, assess_date: Date, portfolio: &mut Portfolio) -> (r:
        Result<(), Error>)
        requires
            assess_date.valid(),
            old(self).wf(),
        ensures
            final(self).wf(),
            final(self).same_collaborators(old(self)),
            final(portfolio).date == old(portfolio).date,
            final(portfolio).stocks_hold == old(portfolio).stocks_hold,
            final(portfolio).stocks_settled == old(portfolio).stocks_settled,
            r matches Ok(()) ==> ({
                let appended = final(portfolio).stocks_selected@.skip(
                    old(portfolio).stocks_selected@.len() as int,
                );
                &&& final(portfolio).stocks_selected@.len() >= old(
                    portfolio,
                ).stocks_selected@.len()
                &&& final(portfolio).stocks_selected@.take(
                    old(portfolio).stocks_selected@.len() as int,
                ) == old(portfolio).stocks_selected@
                &&& stocks_value(appended) <= old(self).liquidity
                &&& final(self).liquidity == old(self).liquidity - stocks_value(appended)
                &&& final(portfolio).liquidity == final(self).liquidity
                &&& old(self).holdings().len() + appended.len() <= old(self).stocks_hold_num
                &&& final(self).holdings().len() <= old(self).holdings().len() + appended.len()
                &&& forall|k: int|
                    0 <= k < appended.len() ==> !holding_has_id(
                        old(self).holdings(),
                        (#[trigger] appended[k]).stock_id@,
                    )
                &&& forall|k: int|
                    0 <= k < appended.len() ==> ((#[trigger] appended[k]).price > 0
                        && old(self).store().contains_key((appended[k].stock_id@, assess_date))
                        && appended[k].price == (old(self).store()[
                    (appended[k].stock_id@, assess_date)].high + old(self).store()[
                    (appended[k].stock_id@, assess_date)].low) / 2)
                &&& forall|k: int|
                    0 <= k < appended.len() ==> (#[trigger] appended[k]).num as int == ((old(self).liquidity as int) / (appended.len() as int)) / (appended[k].price as int)
                &&& forall|id: Seq<char>|
                    #![trigger holding_has_id(final(self).holdings(), id)]
                    holding_has_id(final(self).holdings(), id) <==> (holding_has_id(
                        old(self).holdings(),
                        id,
                    ) || info_has_id(appended, id))
                &&& forall|k: int|
                    0 <= k < final(self).holdings().len() ==> (holding_in(
                        old(self).holdings(),
                        #[trigger] final(self).holdings()[k],
                    ) || (final(self).holdings()[k].hold_date == assess_date && info_has_id(
                        appended,
                        final(self).holdings()[k].stock_id@,
                    )))
                &&& forall|k: int|
                    0 <= k < final(self).holdings().len() && info_has_id(
                        appended,
                        (#[trigger] final(self).holdings()[k]).stock_id@,
                    ) ==> final(self).holdings()[k].hold_date == assess_date
                &&& forall|k: int|
                    0 <= k < final(self).holdings().len() && info_has_id(
                        appended,
                        (#[trigger] final(self).holdings()[k]).stock_id@,
                    ) ==> exists|l: int|
                        0 <= l < appended.len() && (#[trigger] appended[l]).stock_id@ == final(self).holdings()[k].stock_id@ && appended[l].num == final(self).holdings()[k].num
                &&& appended.map_values(|x: StockInfo| x.stock_id@) == full_selection(
                    &*old(self).crawler,
                    &*old(self).strategy,
                    old(self).holdings(),
                    old(self).stocks_hold_num as int,
                    assess_date,
                )
                &&& (forall|a: int, b: int|
                    0 <= a < b < (*old(self).crawler).universe().len() ==> #[trigger] (
                    *old(self).crawler).universe()[a] != #[trigger] (
                    *old(self).crawler).universe()[b]) ==> (forall|k: int, l: int|
                    0 <= k < l < appended.len() ==> (#[trigger] appended[k]).stock_id@ != (
                    #[trigger] appended[l]).stock_id@)
            }),
    {
        let stocks_selected = match self.get_select_stocks(assess_date) {
            Ok(v) => v,
            Err(e) => {
                return Err(e);
            }
        };
        if !stocks_selected.is_empty() {
            let invest_max_per_stock: u32 = (self.liquidity as u64 / stocks_selected.len()
                as u64) as u32;
            let ghost old_holdings = self.stocks_hold@;
            let ghost old_liq = self.liquidity;
            let ghost old_selected = portfolio.stocks_selected@;
            let m = stocks_selected.len();
            proof {
                assert((m as int) * (invest_max_per_stock as int) <= old_liq as int)
                    by (nonlinear_arith)
                    requires
                        m as int >= 1,
                        invest_max_per_stock as int == (old_liq as int) / (m as int),
                        old_liq as int >= 0,
                ;
            }
            let mut i: usize = 0;
            while i < m
                invariant
                    0 <= i <= m,
                    m == stocks_selected@.len(),
                    assess_date.valid(),
                    self.wf(),
                    self.crawler == old(self).crawler,
                    self.backend_op == old(self).backend_op,
                    self.strategy == old(self).strategy,
                    self.stocks_hold_num == old(self).stocks_hold_num,
                    old_holdings == old(self).holdings(),
                    old_liq == old(self).liquidity,
                    old_selected == old(portfolio).stocks_selected@,
                    old_holdings.len() + m <= old(self).stocks_hold_num,
                    forall|k: int|
                        0 <= k < stocks_selected@.len() ==> !holding_has_id(
                            old_holdings,
                            (#[trigger] stocks_selected@[k])@,
                        ),
                    portfolio.date == old(portfolio).date,
                    portfolio.stocks_hold == old(portfolio).stocks_hold,
                    portfolio.stocks_settled == old(portfolio).stocks_settled,
                    portfolio.stocks_selected@.len() == old_selected.len() + i,
                    portfolio.stocks_selected@.take(old_selected.len() as int) == old_selected,
                    forall|k: int|
                        0 <= k < i ==> (#[trigger] portfolio.stocks_selected@.skip(
                            old_selected.len() as int,
                        )[k]).stock_id@ == stocks_selected@[k]@,
                    self.liquidity == old_liq - stocks_value(
                        portfolio.stocks_selected@.skip(old_selected.len() as int),
                    ),
                    self.liquidity >= (m - i) * invest_max_per_stock,
                    m >= 1,
                    invest_max_per_stock as int == (old_liq as int) / (m as int),
                    self.holdings().len() <= old_holdings.len() + i,
                    forall|k: int|
                        0 <= k < i ==> (#[trigger] portfolio.stocks_selected@.skip(
                            old_selected.len() as int,
                        )[k]).num as int == ((old_liq as int) / (m as int)) / (
                        portfolio.stocks_selected@.skip(old_selected.len() as int)[k].price as int),
                    forall|k: int|
                        0 <= k < self.holdings().len() && info_has_id(
                            portfolio.stocks_selected@.skip(old_selected.len() as int),
                            (#[trigger] self.holdings()[k]).stock_id@,
                        ) ==> exists|l: int|
                            0 <= l < portfolio.stocks_selected@.skip(old_selected.len() as int).len()
                                && (#[trigger] portfolio.stocks_selected@.skip(
                                old_selected.len() as int,
                            )[l]).stock_id@ == self.holdings()[k].stock_id@
                                && portfolio.stocks_selected@.skip(
                                old_selected.len() as int,
                            )[l].num == self.holdings()[k].num,
                    forall|k: int|
                        0 <= k < i ==> ((#[trigger] portfolio.stocks_selected@.skip(
                            old_selected.len() as int,
                        )[k]).price > 0 && (*self.backend_op).records().contains_key(
                            (portfolio.stocks_selected@.skip(old_selected.len() as int)[k].stock_id@,
                            assess_date),
                        ) && portfolio.stocks_selected@.skip(old_selected.len() as int)[k].price == (
                        (*self.backend_op).records()[
                        (portfolio.stocks_selected@.skip(old_selected.len() as int)[k].stock_id@,
                        assess_date)].high + (*self.backend_op).records()[
                        (portfolio.stocks_selected@.skip(old_selected.len() as int)[k].stock_id@,
                        assess_date)].low) / 2),
                    forall|k: int|
                        0 <= k < i ==> !holding_has_id(
                            old_holdings,
                            (#[trigger] portfolio.stocks_selected@.skip(
                                old_selected.len() as int,
                            )[k]).stock_id@,
                        ),
                    forall|id: Seq<char>|
                        #![trigger holding_has_id(self.holdings(), id)]
                        holding_has_id(self.holdings(), id) <==> (holding_has_id(old_holdings, id)
                            || info_has_id(
                            portfolio.stocks_selected@.skip(old_selected.len() as int),
                            id,
                        )),
                    forall|k: int|
                        0 <= k < self.holdings().len() ==> (holding_in(
                            old_holdings,
                            #[trigger] self.holdings()[k],
                        ) || (self.holdings()[k].hold_date == assess_date && info_has_id(
                            portfolio.stocks_selected@.skip(old_selected.len() as int),
                            self.holdings()[k].stock_id@,
                        ))),
                    forall|k: int|
                        0 <= k < self.holdings().len() && info_has_id(
                            portfolio.stocks_selected@.skip(old_selected.len() as int),
                            (#[trigger] self.holdings()[k]).stock_id@,
                        ) ==> self.holdings()[k].hold_date == assess_date,
                decreases m - i,
            {
                let stock_id = &stocks_selected[i];
                let record = match self.backend_op.query(stock_id.as_str(), assess_date) {
                    Ok(Some(rec)) => rec,
                    Ok(None) => {
                        return Err(Error::BackendRecordNotFound);
                    }
                    Err(e) => {
                        return Err(Error::Backend(e));
                    }
                };
                let price = settle_price(&record);
                if price == 0 {
                    return Err(Error::ZeroPriceRecord);
                }
                let stock_num: u32 = invest_max_per_stock / price;
                proof {
                    assert((stock_num as int) * (price as int) <= invest_max_per_stock as int)
                        by (nonlinear_arith)
                        requires
                            price as int >= 1,
                            invest_max_per_stock as int >= 0,
                            stock_num as int == (invest_max_per_stock as int) / (price as int),
                    ;
                    assert((m - i) * (invest_max_per_stock as int) >= invest_max_per_stock as int
                        + (m - i - 1) * (invest_max_per_stock as int)) by (nonlinear_arith)
                        requires
                            m - i >= 1,
                    ;
                }
                let debit: u32 = stock_num * price;
                let ghost pre_holdings = self.stocks_hold@;
                let ghost pre_selected = portfolio.stocks_selected@;
                let entry = StockInfo { stock_id: stock_id.clone(), num: stock_num, price };
                portfolio.stocks_selected.push(entry);
                self.liquidity = self.liquidity - debit;
                let new_holding = Holding {
                    stock_id: stock_id.clone(),
                    hold_date: assess_date,
                    num: stock_num,
                };
                let slot = self.find_holding(stock_id);
                match slot {
                    Some(j) => {
                        self.stocks_hold[j] = new_holding;
                    }
                    None => {
                        self.stocks_hold.push(new_holding);
                    }
                }
                proof {
                    lemma_stocks_value_push(pre_selected.skip(old_selected.len() as int), entry);
                    assert(pre_selected.push(entry).skip(old_selected.len() as int)
                        =~= pre_selected.skip(old_selected.len() as int).push(entry));
                    assert(pre_selected.push(entry).take(old_selected.len() as int)
                        =~= pre_selected.take(old_selected.len() as int));
                    let appended = portfolio.stocks_selected@.skip(old_selected.len() as int);
                    assert(appended.drop_last() =~= pre_selected.skip(old_selected.len() as int));
                    assert(appended.last() == entry);
                    assert forall|k: int| 0 <= k < appended.len() implies !holding_has_id(
                        old_holdings,
                        (#[trigger] appended[k]).stock_id@,
                    ) by {
                        if k < appended.len() - 1 {
                            assert(appended[k] == appended.drop_last()[k]);
                        }
                    }
                    assert forall|k: int| 0 <= k < appended.len() implies (
                    #[trigger] appended[k]).num as int == ((old_liq as int) / (m as int)) / (
                    appended[k].price as int) by {
                        if k < appended.len() - 1 {
                            assert(appended[k] == appended.drop_last()[k]);
                        } else {
                            assert(appended[k] == entry);
                        }
                    }
                    assert forall|k: int| 0 <= k < appended.len() implies (
                    #[trigger] appended[k]).stock_id@ == stocks_selected@[k]@ by {
                        if k < appended.len() - 1 {
                            assert(appended[k] == appended.drop_last()[k]);
                        } else {
                            assert(appended[k] == entry);
                        }
                    }
                    assert forall|id: Seq<char>| #![trigger info_has_id(appended, id)]
                        info_has_id(appended, id) <==> (info_has_id(appended.drop_last(), id)
                            || entry.stock_id@ == id) by {
                        if info_has_id(appended, id) {
                            let k = choose|k: int|
                                0 <= k < appended.len() && appended[k].stock_id@ == id;
                            if k < appended.len() - 1 {
                                assert(appended.drop_last()[k] == appended[k]);
                            }
                        }
                        if info_has_id(appended.drop_last(), id) {
                            let k = choose|k: int|
                                0 <= k < appended.drop_last().len()
                                    && appended.drop_last()[k].stock_id@ == id;
                            assert(appended[k] == appended.drop_last()[k]);
                        }
                    }
                    match slot {
                        Some(j) => {
                            assert(pre_holdings[j as int].stock_id@ == entry.stock_id@);
                            assert forall|k: int|
                                0 <= k < self.holdings().len() && info_has_id(
                                appended,
                                (#[trigger] self.holdings()[k]).stock_id@,
                            ) implies self.holdings()[k].hold_date == assess_date by {
                                if k == j {
                                    assert(self.holdings()[k] == new_holding);
                                } else {
                                    assert(self.holdings()[k] == pre_holdings[k]);
                                    if !info_has_id(
                                        appended.drop_last(),
                                        pre_holdings[k].stock_id@,
                                    ) {
                                        assert(pre_holdings[k].stock_id@ == entry.stock_id@);
                                        assert(pre_holdings[j as int].stock_id@
                                            == entry.stock_id@);
                                    }
                                }
                            }
                            assert forall|k: int|
                                0 <= k < self.holdings().len() && info_has_id(
                                appended,
                                (#[trigger] self.holdings()[k]).stock_id@,
                            ) implies exists|l: int|
                                0 <= l < appended.len() && (#[trigger] appended[l]).stock_id@
                                    == self.holdings()[k].stock_id@ && appended[l].num
                                    == self.holdings()[k].num by {
                                if k == j {
                                    assert(self.holdings()[k] == new_holding);
                                    assert(appended.last() == entry);
                                    assert(appended[appended.len() - 1].stock_id@
                                        == new_holding.stock_id@);
                                } else {
                                    assert(self.holdings()[k] == pre_holdings[k]);
                                    if info_has_id(
                                        appended.drop_last(),
                                        pre_holdings[k].stock_id@,
                                    ) {
                                        let l = choose|l: int|
                                            0 <= l < appended.drop_last().len() && (
                                            #[trigger] appended.drop_last()[l]).stock_id@
                                                == pre_holdings[k].stock_id@
                                                && appended.drop_last()[l].num
                                                == pre_holdings[k].num;
                                        assert(appended[l] == appended.drop_last()[l]);
                                    } else {
                                        assert(pre_holdings[k].stock_id@ == entry.stock_id@);
                                        assert(pre_holdings[j as int].stock_id@
                                            == entry.stock_id@);
                                    }
                                }
                            }
                            assert forall|k: int|
                                0 <= k < self.holdings().len() implies (holding_in(
                                old_holdings,
                                #[trigger] self.holdings()[k],
                            ) || (self.holdings()[k].hold_date == assess_date && info_has_id(
                                appended,
                                self.holdings()[k].stock_id@,
                            ))) by {
                                if k != j {
                                    assert(self.holdings()[k] == pre_holdings[k]);
                                } else {
                                    assert(self.holdings()[k] == new_holding);
                                }
                            }
                            assert forall|id: Seq<char>|
                                #![trigger holding_has_id(self.holdings(), id)]
                                holding_has_id(self.holdings(), id) <==> (holding_has_id(
                                old_holdings,
                                id,
                            ) || info_has_id(appended, id)) by {
                                if holding_has_id(self.holdings(), id) {
                                    let k = choose|k: int|
                                        0 <= k < self.holdings().len()
                                            && self.holdings()[k].stock_id@ == id;
                                    if k != j {
                                        assert(pre_holdings[k].stock_id@ == id);
                                    } else {
                                        assert(appended.last().stock_id@ == id);
                                    }
                                }
                                if holding_has_id(pre_holdings, id) {
                                    let k = choose|k: int|
                                        0 <= k < pre_holdings.len() && pre_holdings[k].stock_id@
                                            == id;
                                    assert(self.holdings()[k].stock_id@ == id);
                                }
                                if info_has_id(appended, id) {
                                    if entry.stock_id@ == id {
                                        assert(self.holdings()[j as int].stock_id@ == id);
                                    }
                                }
                            }
                            assert forall|a: int, b: int|
                                0 <= a < b < self.holdings().len() implies (
                            #[trigger] self.holdings()[a]).stock_id@ != (
                            #[trigger] self.holdings()[b]).stock_id@ by {
                                assert(self.holdings()[a] == if a == j {
                                    new_holding
                                } else {
                                    pre_holdings[a]
                                });
                                assert(self.holdings()[b] == if b == j {
                                    new_holding
                                } else {
                                    pre_holdings[b]
                                });
                            }
                        }
                        None => {
                            assert(self.holdings().drop_last() =~= pre_holdings);
                            assert(self.holdings().last() == new_holding);
                            assert forall|k: int|
                                0 <= k < self.holdings().len() && info_has_id(
                                appended,
                                (#[trigger] self.holdings()[k]).stock_id@,
                            ) implies self.holdings()[k].hold_date == assess_date by {
                                if k == self.holdings().len() - 1 {
                                    assert(self.holdings()[k] == new_holding);
                                } else {
                                    assert(self.holdings()[k] == pre_holdings[k]);
                                    if !info_has_id(
                                        appended.drop_last(),
                                        pre_holdings[k].stock_id@,
                                    ) {
                                        assert(pre_holdings[k].stock_id@ == entry.stock_id@);
                                        assert(holding_has_id(pre_holdings, entry.stock_id@));
                                    }
                                }
                            }
                            assert forall|k: int|
                                0 <= k < self.holdings().len() && info_has_id(
                                appended,
                                (#[trigger] self.holdings()[k]).stock_id@,
                            ) implies exists|l: int|
                                0 <= l < appended.len() && (#[trigger] appended[l]).stock_id@
                                    == self.holdings()[k].stock_id@ && appended[l].num
                                    == self.holdings()[k].num by {
                                if k == self.holdings().len() - 1 {
                                    assert(self.holdings()[k] == new_holding);
                                    assert(appended.last() == entry);
                                    assert(appended[appended.len() - 1].stock_id@
                                        == new_holding.stock_id@);
                                } else {
                                    assert(self.holdings()[k] == pre_holdings[k]);
                                    if info_has_id(
                                        appended.drop_last(),
                                        pre_holdings[k].stock_id@,
                                    ) {
                                        let l = choose|l: int|
                                            0 <= l < appended.drop_last().len() && (
                                            #[trigger] appended.drop_last()[l]).stock_id@
                                                == pre_holdings[k].stock_id@
                                                && appended.drop_last()[l].num
                                                == pre_holdings[k].num;
                                        assert(appended[l] == appended.drop_last()[l]);
                                    } else {
                                        assert(pre_holdings[k].stock_id@ == entry.stock_id@);
                                        assert(holding_has_id(pre_holdings, entry.stock_id@));
                                    }
                                }
                            }
                            assert forall|id: Seq<char>|
                                #![trigger holding_has_id(self.holdings(), id)]
                                holding_has_id(self.holdings(), id) <==> (holding_has_id(
                                old_holdings,
                                id,
                            ) || info_has_id(appended, id)) by {
                                if holding_has_id(self.holdings(), id) {
                                    let k = choose|k: int|
                                        0 <= k < self.holdings().len()
                                            && self.holdings()[k].stock_id@ == id;
                                    if k < self.holdings().len() - 1 {
                                        assert(pre_holdings[k].stock_id@ == id);
                                    }
                                }
                                if holding_has_id(pre_holdings, id) {
                                    let k = choose|k: int|
                                        0 <= k < pre_holdings.len() && pre_holdings[k].stock_id@
                                            == id;
                                    assert(self.holdings()[k].stock_id@ == id);
                                }
                                if info_has_id(appended, id) && entry.stock_id@ == id {
                                    assert(self.holdings().last().stock_id@ == id);
                                }
                            }
                            assert forall|k: int|
                                0 <= k < self.holdings().len() implies (holding_in(
                                old_holdings,
                                #[trigger] self.holdings()[k],
                            ) || (self.holdings()[k].hold_date == assess_date && info_has_id(
                                appended,
                                self.holdings()[k].stock_id@,
                            ))) by {
                                if k < self.holdings().len() - 1 {
                                    assert(self.holdings()[k] == pre_holdings[k]);
                                }
                            }
                            assert forall|a: int, b: int|
                                0 <= a < b < self.holdings().len() implies (
                            #[trigger] self.holdings()[a]).stock_id@ != (
                            #[trigger] self.holdings()[b]).stock_id@ by {
                                if b < self.holdings().len() - 1 {
                                    assert(self.holdings()[a] == pre_holdings[a]);
                                    assert(self.holdings()[b] == pre_holdings[b]);
                                } else {
                                    assert(self.holdings()[b] == new_holding);
                                    if a < self.holdings().len() - 1 {
                                        assert(self.holdings()[a] == pre_holdings[a]);
                                        assert(!holding_has_id(pre_holdings, new_holding.stock_id@));
                                    }
                                }
                            }
                        }
                    }
                }
                i = i + 1;
            }
        }
        proof {
            let appended = portfolio.stocks_selected@.skip(old(portfolio).stocks_selected@.len() as int);
            assert(appended.len() == stocks_selected@.len());
            assert(appended.map_values(|x: StockInfo| x.stock_id@) =~= stocks_selected@.map_values(
                |s: String| s@,
            ));
            let universe = (*old(self).crawler).universe();
            if forall|a: int, b: int|
                0 <= a < b < universe.len() ==> #[trigger] universe[a] != #[trigger] universe[b] {
                assert forall|k: int, l: int| 0 <= k < l < appended.len() implies (
                #[trigger] appended[k]).stock_id@ != (#[trigger] appended[l]).stock_id@ by {
                    assert(stocks_selected@[k]@ != stocks_selected@[l]@);
                }
            }
        }
        portfolio.liquidity = self.liquidity;
        Ok(())
    }

    /// One simulation step: settle, mark to market, then select.
    ///
    /// Returns `Ok(None)` - and leaves the state untouched - exactly when
    /// some held symbol has no record at `assess_date` (a non-trading day).
    /// When a snapshot is produced:
    /// - liquidity changes by exactly the settled value minus the bought
    ///   value, and the snapshot records that liquidity;
    /// - the settled lines carry exactly the held symbols whose strategy
    ///   exit answer fires, each matching its held position, priced at the
    ///   day's record midpoint;
    /// - the selected lines are exactly the walk over the ranking of the
    ///   crawler's universe under the strategy's scores, against the
    ///   held-after-settle symbols and the capacity;
    /// - every bought line follows the even split: the liquidity freed by
    ///   the settle phase is divided once over the picks, and each buys
    ///   whole shares of its record-midpoint price;
    /// - no symbol appears in both the held and the selected lines;
    /// - held plus selected lines never exceed the position capacity;
    /// - a symbol is held afterwards exactly when it was held and not
    ///   settled, or was selected, and every surviving position is
    ///   unchanged while selected ones are entered at `assess_date` with
    ///   the bought share count.
    pub fn calc_portfolio(&mut self, assess_date: Date) -> (r: Result<Option<Portfolio>, Error>)
        requires
            assess_date.valid(),
            old(self).wf(),
        ensures
            final(self).wf(),
            final(self).same_collaborators(old(self)),
            r matches Ok(po) ==> (po is Some <==> (forall|i: int|
                0 <= i < old(self).holdings().len() ==> old(self).store().contains_key(
                    ((#[trigger] old(self).holdings()[i]).stock_id@, assess_date),
                ))),
            r matches Ok(None::<Portfolio>) ==> *final(self) == *old(self),
            r matches Ok(Some(p)) ==> ({
                &&& p.date == assess_date
                &&& p.liquidity == final(self).liquidity
                &&& final(self).liquidity == old(self).liquidity + stocks_value(p.stocks_settled@)
                    - stocks_value(p.stocks_selected@)
                &&& stocks_value(p.stocks_selected@) <= old(self).liquidity + stocks_value(
                    p.stocks_settled@,
                )
                &&& forall|a: int, b: int|
                    0 <= a < p.stocks_hold@.len() && 0 <= b < p.stocks_selected@.len() ==> (
                    #[trigger] p.stocks_hold@[a]).stock_id@ != (
                    #[trigger] p.stocks_selected@[b]).stock_id@
                &&& p.stocks_hold@.len() + p.stocks_selected@.len() <= old(self).stocks_hold_num
                &&& p.stocks_hold@.len() + p.stocks_settled@.len() == old(self).holdings().len()
                &&& forall|k: int|
                    0 <= k < p.stocks_settled@.len() ==> settled_from(
                        old(self).holdings(),
                        old(self).store(),
                        assess_date,
                        #[trigger] p.stocks_settled@[k],
                    )
                &&& forall|k: int, l: int|
                    0 <= k < l < p.stocks_settled@.len() ==> (
                    #[trigger] p.stocks_settled@[k]).stock_id@ != (
                    #[trigger] p.stocks_settled@[l]).stock_id@
                &&& settled_lines_exactly(
                    *old(self).strategy,
                    old(self).holdings(),
                    assess_date,
                    p.stocks_settled@,
                )
                &&& forall|k: int|
                    0 <= k < final(self).holdings().len() && info_has_id(
                        p.stocks_selected@,
                        (#[trigger] final(self).holdings()[k]).stock_id@,
                    ) ==> final(self).holdings()[k].hold_date == assess_date
                &&& forall|k: int|
                    0 <= k < p.stocks_hold@.len() ==> ((#[trigger] p.stocks_hold@[k]).price
                        == marked_price(
                        old(self).store(),
                        p.stocks_hold@[k].stock_id@,
                        assess_date,
                    ) && holding_has_id(old(self).holdings(), p.stocks_hold@[k].stock_id@)
                        && !info_has_id(p.stocks_settled@, p.stocks_hold@[k].stock_id@))
                &&& forall|k: int|
                    0 <= k < p.stocks_selected@.len() ==> ((#[trigger] p.stocks_selected@[k]).price
                        > 0 && old(self).store().contains_key(
                        (p.stocks_selected@[k].stock_id@, assess_date),
                    ) && p.stocks_selected@[k].price == (old(self).store()[
                    (p.stocks_selected@[k].stock_id@, assess_date)].high + old(self).store()[
                    (p.stocks_selected@[k].stock_id@, assess_date)].low) / 2)
                &&& forall|k: int|
                    0 <= k < p.stocks_selected@.len() ==> (#[trigger] p.stocks_selected@[k]).num
                        as int == (((old(self).liquidity + stocks_value(p.stocks_settled@)) / (
                    p.stocks_selected@.len() as int)) / (p.stocks_selected@[k].price as int))
                &&& forall|k: int|
                    0 <= k < final(self).holdings().len() && info_has_id(
                        p.stocks_selected@,
                        (#[trigger] final(self).holdings()[k]).stock_id@,
                    ) ==> exists|l: int|
                        0 <= l < p.stocks_selected@.len() && (
                        #[trigger] p.stocks_selected@[l]).stock_id@ == final(self).holdings()[k].stock_id@ && p.stocks_selected@[l].num == final(self).holdings()[k].num
                &&& exists|mid: Seq<Holding>|
                    ({
                        &&& mid.len() == p.stocks_hold@.len()
                        &&& forall|k: int|
                            0 <= k < mid.len() ==> (#[trigger] mid[k]).stock_id@
                                == p.stocks_hold@[k].stock_id@
                        &&& p.stocks_selected@.map_values(|x: StockInfo| x.stock_id@)
                            == #[trigger] full_selection(
                            &*old(self).crawler,
                            &*old(self).strategy,
                            mid,
                            old(self).stocks_hold_num as int,
                            assess_date,
                        )
                    })
                &&& (forall|a: int, b: int|
                    0 <= a < b < (*old(self).crawler).universe().len() ==> #[trigger] (
                    *old(self).crawler).universe()[a] != #[trigger] (
                    *old(self).crawler).universe()[b]) ==> (forall|k: int, l: int|
                    0 <= k < l < p.stocks_selected@.len() ==> (
                    #[trigger] p.stocks_selected@[k]).stock_id@ != (
                    #[trigger] p.stocks_selected@[l]).stock_id@)
                &&& forall|id: Seq<char>|
                    #![trigger holding_has_id(final(self).holdings(), id)]
                    holding_has_id(final(self).holdings(), id) <==> ((holding_has_id(
                        old(self).holdings(),
                        id,
                    ) && !info_has_id(p.stocks_settled@, id)) || info_has_id(
                        p.stocks_selected@,
                        id,
                    ))
                &&& forall|k: int|
                    0 <= k < final(self).holdings().len() ==> ((holding_in(
                        old(self).holdings(),
                        #[trigger] final(self).holdings()[k],
                    ) && !info_has_id(
                        p.stocks_settled@,
                        final(self).holdings()[k].stock_id@,
                    )) || (final(self).holdings()[k].hold_date == assess_date && info_has_id(
                        p.stocks_selected@,
                        final(self).holdings()[k].stock_id@,
                    )))
            }),
    {
        let tradable = match self.has_trading_data(assess_date) {
            Ok(b) => b,
            Err(e) => {
                return Err(e);
            }
        };
        if !tradable {
            return Ok(None);
        }
        let mut portfolio = Portfolio {
            date: assess_date,
            stocks_selected: Vec::new(),
            stocks_hold: Vec::new(),
            stocks_settled: Vec::new(),
            liquidity: 0,
        };
        let ghost s0 = *self;
        match self.handle_settle_stocks(assess_date, &mut portfolio) {
            Ok(()) => {}
            Err(e) => {
                return Err(e);
            }
        }
        let ghost s1 = *self;
        let ghost p1 = portfolio;
        proof {
            assert(p1.stocks_settled@.skip(0) =~= p1.stocks_settled@);
        }
        match self.handle_hold_stocks(assess_date, &mut portfolio) {
            Ok(()) => {}
            Err(e) => {
                return Err(e);
            }
        }
        let ghost p2 = portfolio;
        proof {
            assert(p2.stocks_hold@.skip(0) =~= p2.stocks_hold@);
        }
        match self.handle_selected_stocks(assess_date, &mut portfolio) {
            Ok(()) => {}
            Err(e) => {
                return Err(e);
            }
        }
        proof {
            let p = portfolio;
            let settled = p.stocks_settled@;
            let selected = p.stocks_selected@;
            let hold = p.stocks_hold@;
            assert(selected.skip(0) =~= selected);
            assert(hold == p2.stocks_hold@);
            assert(settled == p1.stocks_settled@);
            assert(s1.store() == s0.store());
            assert((*s1.backend_op).records() == (*s0.backend_op).records());
            assert forall|a: int, b: int|
                0 <= a < hold.len() && 0 <= b < selected.len() implies (
            #[trigger] hold[a]).stock_id@ != (#[trigger] selected[b]).stock_id@ by {
                assert(hold[a].stock_id@ == s1.holdings()[a].stock_id@);
                assert(holding_has_id(s1.holdings(), s1.holdings()[a].stock_id@));
                assert(!holding_has_id(s1.holdings(), selected[b].stock_id@));
            }
            assert forall|k: int| 0 <= k < hold.len() implies (holding_has_id(
                s0.holdings(),
                (#[trigger] hold[k]).stock_id@,
            ) && !info_has_id(settled, hold[k].stock_id@)) by {
                assert(hold[k].stock_id@ == s1.holdings()[k].stock_id@);
                assert(holding_has_id(s1.holdings(), s1.holdings()[k].stock_id@));
            }
            let mid = s1.holdings();
            assert(mid.len() == p.stocks_hold@.len());
            assert forall|k: int| 0 <= k < mid.len() implies (#[trigger] mid[k]).stock_id@
                == p.stocks_hold@[k].stock_id@ by {
                assert(p.stocks_hold@[k].stock_id@ == s1.holdings()[k].stock_id@);
            }
            assert(p.stocks_selected@.map_values(|x: StockInfo| x.stock_id@) == full_selection(
                &*old(self).crawler,
                &*old(self).strategy,
                mid,
                old(self).stocks_hold_num as int,
                assess_date,
            ));
            assert forall|k: int| 0 <= k < self.holdings().len() implies ((holding_in(
                s0.holdings(),
                #[trigger] self.holdings()[k],
            ) && !info_has_id(settled, self.holdings()[k].stock_id@)) || (self.holdings()[k].hold_date
                == assess_date && info_has_id(
                selected,
                self.holdings()[k].stock_id@,
            ))) by {
                let x = self.holdings()[k];
                if holding_in(s1.holdings(), x) && !(x.hold_date == assess_date && info_has_id(
                    selected,
                    x.stock_id@,
                )) {
                    let j = choose|j: int|
                        0 <= j < s1.holdings().len() && (#[trigger] s1.holdings()[j]).stock_id@
                            == x.stock_id@ && s1.holdings()[j].hold_date == x.hold_date
                            && s1.holdings()[j].num == x.num;
                    assert(holding_in(s0.holdings(), s1.holdings()[j]));
                    assert(holding_has_id(s1.holdings(), x.stock_id@));
                }
            }
        }
        Ok(Some(portfolio))
    }
}

/// A well-formed snapshot: no symbol both held and selected, and the held
/// plus selected lines stay within the position capacity.
pub open spec fn snapshot_wf(p: Portfolio, capacity: int) -> bool {
    &&& forall|a: int, b: int|
        0 <= a < p.stocks_hold@.len() && 0 <= b < p.stocks_selected@.len() ==> (
        #[trigger] p.stocks_hold@[a]).stock_id@ != (#[trigger] p.stocks_selected@[b]).stock_id@
    &&& p.stocks_hold@.len() + p.stocks_selected@.len() <= capacity
}

/// Liquidity conservation for one snapshot: its liquidity is the previous
/// liquidity plus the settled value minus the bought value, exactly.
pub open spec fn snapshot_chain(prev_liquidity: int, p: Portfolio) -> bool {
    p.liquidity == prev_liquidity + stocks_value(p.stocks_settled@) - stocks_value(
        p.stocks_selected@,
    )
}

/// A settled symbol cannot settle again without a selection in between:
/// settling requires the symbol to be held, and a step that settles a
/// symbol without re-selecting it leaves it un-held.  So if one step
/// settles `id` and a later step settles it again, the first step must
/// have re-selected it.
pub proof fn lemma_no_resettle(
    h0: Seq<Holding>,
    h1: Seq<Holding>,
    settled1: Seq<StockInfo>,
    selected1: Seq<StockInfo>,
    settled2: Seq<StockInfo>,
    id: Seq<char>,
)
    requires
        forall|x: Seq<char>|
            #![trigger holding_has_id(h1, x)]
            holding_has_id(h1, x) <==> ((holding_has_id(h0, x) && !info_has_id(settled1, x))
                || info_has_id(selected1, x)),
        forall|k: int|
            0 <= k < settled2.len() ==> holding_has_id(h1, (#[trigger] settled2[k]).stock_id@),
        info_has_id(settled1, id),
        info_has_id(settled2, id),
    ensures
        info_has_id(selected1, id),
{
    let k = choose|k: int| 0 <= k < settled2.len() && (#[trigger] settled2[k]).stock_id@ == id;
    assert(holding_has_id(h1, settled2[k].stock_id@));
}

} // verus!
