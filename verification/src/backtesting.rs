//! The backtest runner: drives the decision engine over a calendar range.
//!
//! One `calc_portfolio` call per calendar day; non-trading days skip
//! themselves through the engine's own precondition.  The runner keeps a
//! ledger of when each held symbol was entered and turns every settle event
//! into a `(hold_date, settle_date)` interval.

use vstd::prelude::*;
use std::rc::Rc;
use crate::backend;
use crate::backend::BackendOp;
use crate::config::Config;
use crate::crawler::Crawler;
use crate::date::Date;
use crate::decision;
use crate::decision::{
    holding_has_id, info_has_id, snapshot_chain, snapshot_wf, Decision, Holding, Portfolio,
    StockInfo,
};
use crate::schema::RawData;
use crate::strategy;
use crate::strategy::{Strategies, StrategyFactory};

verus! {

/// Everything needed to report one symbol's trades: its records over the
/// simulated range and its holding intervals.
pub struct StockTradeInfo {
    pub data_series: Vec<RawData>,
    pub trade_series: Vec<(Date, Date)>,
}

pub open spec fn ledger_has_id(s: Seq<(String, Date)>, id: Seq<char>) -> bool {
    exists|i: int| 0 <= i < s.len() && (#[trigger] s[i]).0@ == id
}

pub open spec fn ledger_unique(s: Seq<(String, Date)>) -> bool {
    forall|i: int, j: int| 0 <= i < j < s.len() ==> (#[trigger] s[i]).0@ != (#[trigger] s[j]).0@
}

/// The runner's entry ledger mirrors the engine's holdings symbol for
/// symbol.
pub open spec fn ledger_synced(s: Seq<(String, Date)>, h: Seq<Holding>) -> bool {
    &&& ledger_unique(s)
    &&& forall|id: Seq<char>|
        #![trigger ledger_has_id(s, id)]
        #![trigger holding_has_id(h, id)]
        ledger_has_id(s, id) <==> holding_has_id(h, id)
}

/// All recorded intervals close after they open, on valid dates.
pub open spec fn intervals_wf(trades: Seq<(String, Vec<(Date, Date)>)>) -> bool {
    forall|e: int, t: int|
        0 <= e < trades.len() && 0 <= t < trades[e].1@.len() ==> {
            &&& ((#[trigger] trades[e].1@[t]).0).valid()
            &&& trades[e].1@[t].1.valid()
            &&& trades[e].1@[t].0.spec_lt(trades[e].1@[t].1)
        }
}

/// Each symbol owns one interval series.
pub open spec fn trades_keys_unique(trades: Seq<(String, Vec<(Date, Date)>)>) -> bool {
    forall|e: int, f: int|
        0 <= e < f < trades.len() ==> (#[trigger] trades[e]).0@ != (#[trigger] trades[f]).0@
}

/// Every listed symbol has at least one interval.
pub open spec fn trades_nonempty(trades: Seq<(String, Vec<(Date, Date)>)>) -> bool {
    forall|e: int| 0 <= e < trades.len() ==> (#[trigger] trades[e]).1@.len() > 0
}

/// Per symbol, each interval starts at or after the previous one settled:
/// a symbol settles again only after an intervening selection.
pub open spec fn trades_chronological(trades: Seq<(String, Vec<(Date, Date)>)>) -> bool {
    forall|e: int, t: int|
        0 <= e < trades.len() && 0 <= t < trades[e].1@.len() - 1 ==> (
        #[trigger] trades[e].1@[t]).1.spec_le(trades[e].1@[t + 1].0)
}

/// A well-formed trade report: one nonempty series per symbol, every
/// interval properly ordered within itself and against its predecessor.
pub open spec fn trades_wf(trades: Seq<(String, Vec<(Date, Date)>)>) -> bool {
    &&& trades_keys_unique(trades)
    &&& trades_nonempty(trades)
    &&& intervals_wf(trades)
    &&& trades_chronological(trades)
}

/// Every recorded settle lies at or before `date`.
pub open spec fn trades_settled_by(trades: Seq<(String, Vec<(Date, Date)>)>, date: Date) -> bool {
    forall|e: int|
        0 <= e < trades.len() && (#[trigger] trades[e]).1@.len() > 0
            ==> trades[e].1@.last().1.spec_le(date)
}

/// A held symbol was entered at or after its last recorded settle.
pub open spec fn trades_before_ledger(
    trades: Seq<(String, Vec<(Date, Date)>)>,
    ledger: Seq<(String, Date)>,
) -> bool {
    forall|e: int, k: int|
        0 <= e < trades.len() && 0 <= k < ledger.len() && (#[trigger] trades[e]).0@ == (
        #[trigger] ledger[k]).0@ && trades[e].1@.len() > 0 ==> trades[e].1@.last().1.spec_le(
            ledger[k].1,
        )
}

proof fn lemma_ledger_remove(s: Seq<(String, Date)>, idx: int)
    requires
        0 <= idx < s.len(),
        ledger_unique(s),
    ensures
        ledger_unique(s.remove(idx)),
        forall|id: Seq<char>|
            #![trigger ledger_has_id(s.remove(idx), id)]
            ledger_has_id(s.remove(idx), id) <==> (ledger_has_id(s, id) && id != s[idx].0@),
{
    let r = s.remove(idx);
    assert forall|id: Seq<char>|
        #![trigger ledger_has_id(r, id)]
        ledger_has_id(r, id) <==> (ledger_has_id(s, id) && id != s[idx].0@) by {
        if ledger_has_id(r, id) {
            let k = choose|k: int| 0 <= k < r.len() && r[k].0@ == id;
            if k < idx {
                assert(r[k] == s[k]);
            } else {
                assert(r[k] == s[k + 1]);
            }
        }
        if ledger_has_id(s, id) && id != s[idx].0@ {
            let j = choose|j: int| 0 <= j < s.len() && s[j].0@ == id;
            if j < idx {
                assert(r[j] == s[j]);
            } else {
                assert(j > idx);
                assert(r[j - 1] == s[j]);
            }
        }
    }
    assert forall|i: int, j: int|
        0 <= i < j < r.len() implies (#[trigger] r[i]).0@ != (#[trigger] r[j]).0@ by {
        let i2: int = if i < idx {
            i
        } else {
            i + 1
        };
        let j2: int = if j < idx {
            j
        } else {
            j + 1
        };
        assert(r[i] == s[i2]);
        assert(r[j] == s[j2]);
    }
}

proof fn lemma_info_take_step(s: Seq<StockInfo>, t: int)
    requires
        0 <= t < s.len(),
    ensures
        forall|id: Seq<char>|
            #![trigger info_has_id(s.take(t + 1), id)]
            info_has_id(s.take(t + 1), id) <==> (info_has_id(s.take(t), id) || s[t].stock_id@
                == id),
{
    assert forall|id: Seq<char>|
        #![trigger info_has_id(s.take(t + 1), id)]
        info_has_id(s.take(t + 1), id) <==> (info_has_id(s.take(t), id) || s[t].stock_id@ == id) by {
        if info_has_id(s.take(t + 1), id) {
            let k = choose|k: int| 0 <= k < t + 1 && (#[trigger] s.take(t + 1)[k]).stock_id@ == id;
            if k < t {
                assert(s.take(t)[k] == s.take(t + 1)[k]);
            } else {
                assert(s.take(t + 1)[k] == s[t]);
            }
        }
        if info_has_id(s.take(t), id) {
            let k = choose|k: int| 0 <= k < t && s.take(t)[k].stock_id@ == id;
            assert(s.take(t + 1)[k] == s.take(t)[k]);
        }
        if s[t].stock_id@ == id {
            assert(s.take(t + 1)[t] == s[t]);
        }
    }
}

fn ledger_find(s: &Vec<(String, Date)>, id: &String) -> (r: Option<usize>)
    ensures
        match r {
            Some(i) => i < s@.len() && s@[i as int].0@ == id@,
            None => !ledger_has_id(s@, id@),
        },
{
    let n = s.len();
    let mut i: usize = 0;
    while i < n
        invariant
            0 <= i <= n,
            n == s@.len(),
            forall|j: int| 0 <= j < i ==> (#[trigger] s@[j]).0@ != id@,
        decreases n - i,
    {
        let e = &s[i];
        if e.0.eq(id) {
            return Some(i);
        }
        i = i + 1;
    }
    None
}

fn trades_find(s: &Vec<(String, Vec<(Date, Date)>)>, id: &String) -> (r: Option<usize>)
    ensures
        match r {
            Some(i) => i < s@.len() && s@[i as int].0@ == id@,
            None => forall|j: int| 0 <= j < s@.len() ==> (#[trigger] s@[j]).0@ != id@,
        },
{
    let n = s.len();
    let mut i: usize = 0;
    while i < n
        invariant
            0 <= i <= n,
            n == s@.len(),
            forall|j: int| 0 <= j < i ==> (#[trigger] s@[j]).0@ != id@,
        decreases n - i,
    {
        let e = &s[i];
        if e.0.eq(id) {
            return Some(i);
        }
        i = i + 1;
    }
    None
}

/// Applies one day's settle events to the runner's ledger: each settled
/// symbol leaves the ledger and its `(entry, settle)` interval is recorded.
fn apply_settles(
    ledger: &mut Vec<(String, Date)>,
    trades: &mut Vec<(String, Vec<(Date, Date)>)>,
    settled: &Vec<StockInfo>,
    date: Date,
)
    requires
        date.valid(),
        ledger_unique(old(ledger)@),
        forall|k: int, l: int|
            0 <= k < l < settled@.len() ==> (#[trigger] settled@[k]).stock_id@ != (
            #[trigger] settled@[l]).stock_id@,
        forall|k: int|
            0 <= k < settled@.len() ==> ledger_has_id(
                old(ledger)@,
                (#[trigger] settled@[k]).stock_id@,
            ),
        forall|k: int|
            0 <= k < old(ledger)@.len() ==> ((#[trigger] old(ledger)@[k]).1.valid() && old(ledger)@[k].1.spec_lt(date)),
        trades_wf(old(trades)@),
        trades_settled_by(old(trades)@, date),
        trades_before_ledger(old(trades)@, old(ledger)@),
    ensures
        ledger_unique(final(ledger)@),
        forall|id: Seq<char>|
            #![trigger ledger_has_id(final(ledger)@, id)]
            ledger_has_id(final(ledger)@, id) <==> (ledger_has_id(old(ledger)@, id)
                && !info_has_id(settled@, id)),
        forall|k: int|
            0 <= k < final(ledger)@.len() ==> ((#[trigger] final(ledger)@[k]).1.valid() && final(ledger)@[k].1.spec_lt(date)),
        trades_wf(final(trades)@),
        trades_settled_by(final(trades)@, date),
        trades_before_ledger(final(trades)@, final(ledger)@),
{
    let ghost ledger0 = ledger@;
    let m = settled.len();
    let mut t: usize = 0;
    proof {
        assert(settled@.take(0) =~= Seq::<StockInfo>::empty());
    }
    while t < m
        invariant
            0 <= t <= m,
            m == settled@.len(),
            date.valid(),
            ledger_unique(ledger@),
            forall|k: int, l: int|
                0 <= k < l < settled@.len() ==> (#[trigger] settled@[k]).stock_id@ != (
                #[trigger] settled@[l]).stock_id@,
            forall|k: int|
                0 <= k < settled@.len() ==> ledger_has_id(
                    ledger0,
                    (#[trigger] settled@[k]).stock_id@,
                ),
            forall|id: Seq<char>|
                #![trigger ledger_has_id(ledger@, id)]
                ledger_has_id(ledger@, id) <==> (ledger_has_id(ledger0, id) && !info_has_id(
                    settled@.take(t as int),
                    id,
                )),
            forall|k: int|
                0 <= k < ledger@.len() ==> ((#[trigger] ledger@[k]).1.valid()
                    && ledger@[k].1.spec_lt(date)),
            trades_wf(trades@),
            trades_settled_by(trades@, date),
            trades_before_ledger(trades@, ledger@),
        decreases m - t,
    {
        let info = &settled[t];
        proof {
            assert(ledger_has_id(ledger0, info.stock_id@));
            assert(!info_has_id(settled@.take(t as int), info.stock_id@)) by {
                if info_has_id(settled@.take(t as int), info.stock_id@) {
                    let k = choose|k: int|
                        0 <= k < t && (#[trigger] settled@.take(t as int)[k]).stock_id@
                            == info.stock_id@;
                    assert(settled@[k].stock_id@ == settled@[t as int].stock_id@);
                }
            }
        }
        let at = match ledger_find(ledger, &info.stock_id) {
            Some(j) => j,
            None => {
                proof {
                    assert(ledger_has_id(ledger@, info.stock_id@));
                }
                unreached()
            }
        };
        let hold_date = ledger[at].1;
        let interval = (hold_date, date);
        proof {
            assert forall|e: int|
                0 <= e < trades@.len() && (#[trigger] trades@[e]).0@ == info.stock_id@
                    && trades@[e].1@.len() > 0 implies trades@[e].1@.last().1.spec_le(
                interval.0,
            ) by {
                assert(ledger@[at as int].0@ == info.stock_id@);
                assert(trades@[e].1@.last().1.spec_le(ledger@[at as int].1));
            }
        }
        let ghost pre_trades = trades@;
        record_interval(trades, &info.stock_id, interval);
        let ghost pre_ledger = ledger@;
        ledger.remove(at);
        proof {
            lemma_ledger_remove(pre_ledger, at as int);
            lemma_info_take_step(settled@, t as int);
            assert forall|k: int| 0 <= k < ledger@.len() implies ((#[trigger] ledger@[k]).1.valid()
                && ledger@[k].1.spec_lt(date)) by {
                if k < at {
                    assert(ledger@[k] == pre_ledger[k]);
                } else {
                    assert(ledger@[k] == pre_ledger[k + 1]);
                }
            }
            assert forall|e: int|
                0 <= e < trades@.len() && (#[trigger] trades@[e]).1@.len() > 0
                    implies trades@[e].1@.last().1.spec_le(date) by {
                if trades@[e].0@ == info.stock_id@ {
                    assert(trades@[e].1@.last() == interval);
                } else {
                    assert(trades@[e] == pre_trades[e]);
                }
            }
            assert forall|e: int, k: int|
                0 <= e < trades@.len() && 0 <= k < ledger@.len() && (#[trigger] trades@[e]).0@ == (
                #[trigger] ledger@[k]).0@ && trades@[e].1@.len() > 0
                    implies trades@[e].1@.last().1.spec_le(ledger@[k].1) by {
                let k2: int = if k < at {
                    k
                } else {
                    k + 1
                };
                assert(ledger@[k] == pre_ledger[k2]);
                assert(pre_ledger[k2].0@ != info.stock_id@);
                assert(trades@[e] == pre_trades[e]);
            }
        }
        t = t + 1;
    }
    proof {
        assert(settled@.take(m as int) =~= settled@);
    }
}

/// Appends one holding interval to the symbol's series, creating the
/// series on first use.
fn record_interval(
    trades: &mut Vec<(String, Vec<(Date, Date)>)>,
    stock_id: &String,
    interval: (Date, Date),
)
    requires
        trades_wf(old(trades)@),
        interval.0.valid(),
        interval.1.valid(),
        interval.0.spec_lt(interval.1),
        forall|e: int|
            0 <= e < old(trades)@.len() && (#[trigger] old(trades)@[e]).0@ == stock_id@ && old(
                trades,
            )@[e].1@.len() > 0 ==> old(trades)@[e].1@.last().1.spec_le(interval.0),
    ensures
        trades_wf(final(trades)@),
        old(trades)@.len() <= final(trades)@.len() <= old(trades)@.len() + 1,
        forall|e: int|
            0 <= e < old(trades)@.len() ==> (#[trigger] final(trades)@[e]).0 == old(trades)@[e].0,
        forall|e: int|
            0 <= e < final(trades)@.len() && (#[trigger] final(trades)@[e]).0@ != stock_id@ ==> (e
                < old(trades)@.len() && final(trades)@[e] == old(trades)@[e]),
        forall|e: int|
            0 <= e < final(trades)@.len() && (#[trigger] final(trades)@[e]).0@ == stock_id@ ==> (
            final(trades)@[e].1@.len() > 0 && final(trades)@[e].1@.last() == interval),
{
    let slot = trades_find(trades, stock_id);
    match slot {
        Some(j) => {
            let ghost pre = trades@;
            trades[j].1.push(interval);
            proof {
                assert forall|e: int|
                    0 <= e < trades@.len() && (#[trigger] trades@[e]).0@ != stock_id@ implies (e
                    < pre.len() && trades@[e] == pre[e]) by {
                    assert(e != j);
                }
                assert forall|e: int, tt: int|
                    0 <= e < trades@.len() && 0 <= tt < trades@[e].1@.len() implies {
                    &&& ((#[trigger] trades@[e].1@[tt]).0).valid()
                    &&& trades@[e].1@[tt].1.valid()
                    &&& trades@[e].1@[tt].0.spec_lt(trades@[e].1@[tt].1)
                } by {
                    if e == j && tt == trades@[e].1@.len() - 1 {
                        assert(trades@[e].1@[tt] == interval);
                    } else {
                        assert(trades@[e].1@[tt] == pre[e].1@[tt]);
                    }
                }
                assert forall|e: int, tt: int|
                    0 <= e < trades@.len() && 0 <= tt < trades@[e].1@.len() - 1 implies (
                #[trigger] trades@[e].1@[tt]).1.spec_le(trades@[e].1@[tt + 1].0) by {
                    if e == j {
                        assert(trades@[e].1@.len() == pre[e].1@.len() + 1);
                        if tt + 1 < trades@[e].1@.len() - 1 {
                            assert(trades@[e].1@[tt] == pre[e].1@[tt]);
                            assert(trades@[e].1@[tt + 1] == pre[e].1@[tt + 1]);
                        } else {
                            assert(trades@[e].1@[tt] == pre[e].1@[tt]);
                            assert(pre[e].1@[tt] == pre[e].1@.last());
                            assert(trades@[e].1@[tt + 1] == interval);
                        }
                    } else {
                        assert(trades@[e].1@[tt] == pre[e].1@[tt]);
                        assert(trades@[e].1@[tt + 1] == pre[e].1@[tt + 1]);
                    }
                }
            }
        }
        None => {
            let mut ivs: Vec<(Date, Date)> = Vec::new();
            ivs.push(interval);
            let ghost pre = trades@;
            trades.push((stock_id.clone(), ivs));
            proof {
                assert(trades@.drop_last() =~= pre);
                assert forall|e: int|
                    0 <= e < trades@.len() && (#[trigger] trades@[e]).0@ != stock_id@ implies (e
                    < pre.len() && trades@[e] == pre[e]) by {}
                assert forall|e: int, tt: int|
                    0 <= e < trades@.len() && 0 <= tt < trades@[e].1@.len() implies {
                    &&& ((#[trigger] trades@[e].1@[tt]).0).valid()
                    &&& trades@[e].1@[tt].1.valid()
                    &&& trades@[e].1@[tt].0.spec_lt(trades@[e].1@[tt].1)
                } by {
                    if e < trades@.len() - 1 {
                        assert(trades@[e] == pre[e]);
                    } else {
                        assert(trades@[e].1@[tt] == interval);
                    }
                }
                assert forall|e: int, tt: int|
                    0 <= e < trades@.len() && 0 <= tt < trades@[e].1@.len() - 1 implies (
                #[trigger] trades@[e].1@[tt]).1.spec_le(trades@[e].1@[tt + 1].0) by {
                    if e < trades@.len() - 1 {
                        assert(trades@[e] == pre[e]);
                    }
                }
                assert forall|e: int, f: int|
                    0 <= e < f < trades@.len() implies (#[trigger] trades@[e]).0@ != (
                #[trigger] trades@[f]).0@ by {
                    if f < trades@.len() - 1 {
                        assert(trades@[e] == pre[e]);
                        assert(trades@[f] == pre[f]);
                    } else {
                        assert(trades@[e] == pre[e]);
                        assert(trades@[f].0@ == stock_id@);
                    }
                }
            }
        }
    }
}

/// Applies one day's selections to the runner's ledger: each selected
/// symbol is entered (or re-entered) at `date`.
fn apply_selections(ledger: &mut Vec<(String, Date)>, selected: &Vec<StockInfo>, date: Date)
    requires
        date.valid(),
        ledger_unique(old(ledger)@),
        forall|k: int|
            0 <= k < old(ledger)@.len() ==> ((#[trigger] old(ledger)@[k]).1.valid() && old(ledger)@[k].1.spec_lt(date)),
    ensures
        ledger_unique(final(ledger)@),
        forall|id: Seq<char>|
            #![trigger ledger_has_id(final(ledger)@, id)]
            ledger_has_id(final(ledger)@, id) <==> (ledger_has_id(old(ledger)@, id)
                || info_has_id(selected@, id)),
        forall|k: int|
            0 <= k < final(ledger)@.len() ==> ((#[trigger] final(ledger)@[k]).1.valid() && final(ledger)@[k].1.spec_le(date)),
        forall|k: int|
            0 <= k < final(ledger)@.len() ==> ((exists|j: int|
                0 <= j < old(ledger)@.len() && (#[trigger] old(ledger)@[j]).0@ == final(ledger)@[k].0@
                    && old(ledger)@[j].1 == final(ledger)@[k].1) || (
            #[trigger] final(ledger)@[k]).1 == date),
{
    let ghost ledger0 = ledger@;
    let n2 = selected.len();
    let mut u: usize = 0;
    proof {
        assert(selected@.take(0) =~= Seq::<StockInfo>::empty());
    }
    while u < n2
        invariant
            0 <= u <= n2,
            n2 == selected@.len(),
            date.valid(),
            ledger_unique(ledger@),
            forall|id: Seq<char>|
                #![trigger ledger_has_id(ledger@, id)]
                ledger_has_id(ledger@, id) <==> (ledger_has_id(ledger0, id) || info_has_id(
                    selected@.take(u as int),
                    id,
                )),
            forall|k: int|
                0 <= k < ledger@.len() ==> ((#[trigger] ledger@[k]).1.valid()
                    && ledger@[k].1.spec_le(date)),
            forall|k: int|
                0 <= k < ledger@.len() ==> ((exists|j: int|
                    0 <= j < ledger0.len() && (#[trigger] ledger0[j]).0@ == ledger@[k].0@
                        && ledger0[j].1 == ledger@[k].1) || (#[trigger] ledger@[k]).1 == date),
        decreases n2 - u,
    {
        let info = &selected[u];
        let ghost pre_ledger = ledger@;
        let at = ledger_find(ledger, &info.stock_id);
        match at {
            Some(j) => {
                ledger[j] = (info.stock_id.clone(), date);
                proof {
                    lemma_info_take_step(selected@, u as int);
                    assert forall|k: int, l: int|
                        0 <= k < l < ledger@.len() implies (#[trigger] ledger@[k]).0@ != (
                    #[trigger] ledger@[l]).0@ by {
                        assert(ledger@[k] == if k == j {
                            ledger@[j as int]
                        } else {
                            pre_ledger[k]
                        });
                        assert(ledger@[l] == if l == j {
                            ledger@[j as int]
                        } else {
                            pre_ledger[l]
                        });
                        assert(ledger@[j as int].0@ == pre_ledger[j as int].0@);
                    }
                    assert forall|id: Seq<char>|
                        #![trigger ledger_has_id(ledger@, id)]
                        ledger_has_id(ledger@, id) <==> ledger_has_id(pre_ledger, id) by {
                        if ledger_has_id(ledger@, id) {
                            let k = choose|k: int| 0 <= k < ledger@.len() && (#[trigger] ledger@[k]).0@ == id;
                            if k != j {
                                assert(pre_ledger[k].0@ == id);
                            } else {
                                assert(pre_ledger[j as int].0@ == id);
                            }
                        }
                        if ledger_has_id(pre_ledger, id) {
                            let k = choose|k: int|
                                0 <= k < pre_ledger.len() && (#[trigger] pre_ledger[k]).0@ == id;
                            if k != j {
                                assert(ledger@[k].0@ == id);
                            } else {
                                assert(ledger@[j as int].0@ == id);
                            }
                        }
                    }
                    assert forall|k: int| 0 <= k < ledger@.len() implies ((
                    #[trigger] ledger@[k]).1.valid() && ledger@[k].1.spec_le(date)) by {
                        if k != j {
                            assert(ledger@[k] == pre_ledger[k]);
                        }
                    }
                    assert forall|k: int| 0 <= k < ledger@.len() implies ((exists|jj: int|
                        0 <= jj < ledger0.len() && (#[trigger] ledger0[jj]).0@ == ledger@[k].0@
                            && ledger0[jj].1 == ledger@[k].1) || (#[trigger] ledger@[k]).1
                        == date) by {
                        if k != j {
                            assert(ledger@[k] == pre_ledger[k]);
                        } else {
                            assert(ledger@[k].1 == date);
                        }
                    }
                }
            }
            None => {
                ledger.push((info.stock_id.clone(), date));
                proof {
                    lemma_info_take_step(selected@, u as int);
                    assert(ledger@.drop_last() =~= pre_ledger);
                    assert forall|id: Seq<char>|
                        #![trigger ledger_has_id(ledger@, id)]
                        ledger_has_id(ledger@, id) <==> (ledger_has_id(pre_ledger, id)
                            || info.stock_id@ == id) by {
                        if ledger_has_id(ledger@, id) {
                            let k = choose|k: int| 0 <= k < ledger@.len() && (#[trigger] ledger@[k]).0@ == id;
                            if k < ledger@.len() - 1 {
                                assert(pre_ledger[k].0@ == id);
                            }
                        }
                        if ledger_has_id(pre_ledger, id) {
                            let k = choose|k: int|
                                0 <= k < pre_ledger.len() && (#[trigger] pre_ledger[k]).0@ == id;
                            assert(ledger@[k].0@ == id);
                        }
                        if info.stock_id@ == id {
                            assert(ledger@.last().0@ == id);
                        }
                    }
                    assert forall|k: int, l: int|
                        0 <= k < l < ledger@.len() implies (#[trigger] ledger@[k]).0@ != (
                    #[trigger] ledger@[l]).0@ by {
                        if l < ledger@.len() - 1 {
                            assert(ledger@[k] == pre_ledger[k]);
                            assert(ledger@[l] == pre_ledger[l]);
                        } else {
                            assert(ledger@[l].0@ == info.stock_id@);
                            if k < ledger@.len() - 1 {
                                assert(ledger@[k] == pre_ledger[k]);
                            }
                        }
                    }
                    assert forall|k: int| 0 <= k < ledger@.len() implies ((
                    #[trigger] ledger@[k]).1.valid() && ledger@[k].1.spec_le(date)) by {
                        if k < ledger@.len() - 1 {
                            assert(ledger@[k] == pre_ledger[k]);
                        }
                    }
                    assert forall|k: int| 0 <= k < ledger@.len() implies ((exists|jj: int|
                        0 <= jj < ledger0.len() && (#[trigger] ledger0[jj]).0@ == ledger@[k].0@
                            && ledger0[jj].1 == ledger@[k].1) || (#[trigger] ledger@[k]).1
                        == date) by {
                        if k < ledger@.len() - 1 {
                            assert(ledger@[k] == pre_ledger[k]);
                        } else {
                            assert(ledger@[k].1 == date);
                        }
                    }
                }
            }
        }
        u = u + 1;
    }
    proof {
        assert(selected@.take(n2 as int) =~= selected@);
    }
}

/// The runner's configuration and collected snapshots.
pub struct Backtesting<C: Crawler, B: BackendOp> {
    pub config: Config,
    pub crawler: Rc<C>,
    pub backend_op: Rc<B>,
    pub strategy: Strategies,
    pub start_date: Date,
    pub end_date: Date,
    pub liquidity: u32,
    pub stocks_hold_num: usize,
    pub portfolios: Vec<Portfolio>,
}

impl<C: Crawler, B: BackendOp> Backtesting<C, B> {
    pub fn new(config: Config, crawler: Rc<C>, backend_op: Rc<B>, strategy: Strategies) -> (r:
        Self)
        ensures
            r.crawler == crawler,
            r.backend_op == backend_op,
            r.start_date == (Date { year: 1970u32, month: 1u32, day: 1u32 }),
            r.end_date == (Date { year: 1970u32, month: 1u32, day: 1u32 }),
            r.liquidity == 200000,
            r.stocks_hold_num == 5,
            r.portfolios@.len() == 0,
    {
        Backtesting {
            config,
            crawler,
            backend_op,
            strategy,
            start_date: Date { year: 1970, month: 1, day: 1 },
            end_date: Date { year: 1970, month: 1, day: 1 },
            liquidity: 200000,
            stocks_hold_num: 5,
            portfolios: Vec::new(),
        }
    }

    /// Runs the simulation once per calendar day from `start_date` to
    /// `end_date` inclusive, appending every produced snapshot and
    /// returning the per-symbol holding intervals.
    ///
    /// Every appended snapshot is well formed (no symbol both held and
    /// selected, held plus selected within capacity) and its liquidity
    /// continues the previous snapshot's exactly by settled value minus
    /// bought value; every returned interval closes strictly after it
    /// opened.
    #[verifier::rlimit(100)]
    pub fn run(&mut self, start_date: Date, end_date: Date) -> (r: Result<
        Vec<(String, Vec<(Date, Date)>)>,
        decision::Error,
    >)
        requires
            start_date.valid(),
            end_date.valid(),
        ensures
            final(self).start_date == start_date,
            final(self).end_date == end_date,
            final(self).portfolios@.len() >= old(self).portfolios@.len(),
            final(self).portfolios@.take(old(self).portfolios@.len() as int) == old(self).portfolios@,
            r matches Ok(trades) ==> ({
                let base = old(self).portfolios@.len() as int;
                let ps = final(self).portfolios@;
                &&& forall|k: int|
                    base <= k < ps.len() ==> snapshot_wf(
                        #[trigger] ps[k],
                        old(self).stocks_hold_num as int,
                    )
                &&& forall|k: int|
                    base <= k < ps.len() ==> snapshot_chain(
                        if k == base {
                            old(self).liquidity as int
                        } else {
                            ps[k - 1].liquidity as int
                        },
                        #[trigger] ps[k],
                    )
                &&& forall|k: int|
                    base <= k < ps.len() ==> ((#[trigger] ps[k]).date.valid()
                        && start_date.spec_le(ps[k].date) && ps[k].date.spec_le(end_date))
                &&& forall|k: int|
                    base < k < ps.len() ==> ps[k - 1].date.spec_lt((#[trigger] ps[k]).date)
                &&& trades_wf(trades@)
            }),
            !start_date.spec_le(end_date) ==> r is Ok,
            r is Ok && start_date.spec_le(end_date) ==> final(self).portfolios@.len() > old(
                self,
            ).portfolios@.len(),
    {
        self.start_date = start_date;
        self.end_date = end_date;
        let strategy_impl = Rc::new(
            StrategyFactory::get(self.strategy.clone(), self.backend_op.clone()),
        );
        let mut engine: Decision<C, B, strategy::Strategy<B>> = Decision::new(
            self.crawler.clone(),
            self.backend_op.clone(),
            strategy_impl,
        );
        engine.liquidity = self.liquidity;
        engine.stocks_hold_num = self.stocks_hold_num;
        let mut stocks_hold: Vec<(String, Date)> = Vec::new();
        let mut trade_stocks: Vec<(String, Vec<(Date, Date)>)> = Vec::new();
        let ghost base = self.portfolios@.len() as int;
        let ghost cap = self.stocks_hold_num as int;
        let ghost start_liq = self.liquidity as int;
        proof {
            assert(self.portfolios@.take(base) =~= self.portfolios@);
        }
        if start_date.le(&end_date) {
            let mut date = start_date;
            loop
                invariant_except_break
                    forall|k: int|
                        0 <= k < stocks_hold@.len() ==> ((#[trigger] stocks_hold@[k]).1.valid()
                            && stocks_hold@[k].1.spec_lt(date)),
                    self.portfolios@.len() > base ==> self.portfolios@.last().date.spec_lt(date),
                invariant
                    date.valid(),
                    end_date.valid(),
                    start_date.spec_le(date),
                    date.spec_le(end_date),
                    self.portfolios@.len() > base || (date == start_date
                        && engine.holdings().len() == 0),
                    engine.wf(),
                    engine.stocks_hold_num == cap,
                    base == old(self).portfolios@.len() as int,
                    self.portfolios@.len() >= base,
                    self.portfolios@.take(base) == old(self).portfolios@,
                    self.start_date == start_date,
                    self.end_date == end_date,
                    ledger_synced(stocks_hold@, engine.holdings()),
                    trades_wf(trade_stocks@),
                    trades_settled_by(trade_stocks@, date),
                    trades_before_ledger(trade_stocks@, stocks_hold@),
                    forall|k: int|
                        base <= k < self.portfolios@.len() ==> snapshot_wf(
                            #[trigger] self.portfolios@[k],
                            cap,
                        ),
                    forall|k: int|
                        base <= k < self.portfolios@.len() ==> snapshot_chain(
                            if k == base {
                                start_liq
                            } else {
                                self.portfolios@[k - 1].liquidity as int
                            },
                            #[trigger] self.portfolios@[k],
                        ),
                    engine.liquidity as int == if self.portfolios@.len() == base {
                        start_liq
                    } else {
                        self.portfolios@.last().liquidity as int
                    },
                    forall|k: int|
                        base <= k < self.portfolios@.len() ==> ((
                        #[trigger] self.portfolios@[k]).date.valid() && start_date.spec_le(
                            self.portfolios@[k].date,
                        ) && self.portfolios@[k].date.spec_le(end_date)),
                    forall|k: int|
                        base < k < self.portfolios@.len() ==> self.portfolios@[k - 1].date.spec_lt(
                            (#[trigger] self.portfolios@[k]).date,
                        ),
                ensures
                    self.portfolios@.len() > base,
                decreases end_date.ymd_num() - date.ymd_num(),
            {
                let ghost h_pre = engine.holdings();
                let ghost liq_pre = engine.liquidity;
                let step = match engine.calc_portfolio(date) {
                    Ok(s) => s,
                    Err(e) => {
                        return Err(e);
                    }
                };
                match step {
                    None => {
                        proof {
                            if self.portfolios@.len() <= base {
                                assert(h_pre.len() == 0);
                                assert(false);
                            }
                        }
                    }
                    Some(portfolio) => {
                        let ghost ledger_pre = stocks_hold@;
                        proof {
                            assert forall|k: int|
                                0 <= k < portfolio.stocks_settled@.len() implies ledger_has_id(
                                stocks_hold@,
                                (#[trigger] portfolio.stocks_settled@[k]).stock_id@,
                            ) by {
                                let s = portfolio.stocks_settled@[k];
                                assert(decision::settled_from(
                                    h_pre,
                                    engine.store(),
                                    date,
                                    portfolio.stocks_settled@[k],
                                ));
                                let j = choose|j: int|
                                    0 <= j < h_pre.len() && (#[trigger] h_pre[j]).stock_id@
                                        == s.stock_id@ && h_pre[j].num == s.num;
                                assert(holding_has_id(h_pre, s.stock_id@));
                            }
                        }
                        apply_settles(
                            &mut stocks_hold,
                            &mut trade_stocks,
                            &portfolio.stocks_settled,
                            date,
                        );
                        let ghost ledger_mid = stocks_hold@;
                        apply_selections(&mut stocks_hold, &portfolio.stocks_selected, date);
                        proof {
                            assert forall|e: int, k: int|
                                0 <= e < trade_stocks@.len() && 0 <= k < stocks_hold@.len() && (
                            #[trigger] trade_stocks@[e]).0@ == (#[trigger] stocks_hold@[k]).0@
                                && trade_stocks@[e].1@.len() > 0
                                implies trade_stocks@[e].1@.last().1.spec_le(
                                stocks_hold@[k].1,
                            ) by {
                                if stocks_hold@[k].1 == date {
                                } else {
                                    let jj = choose|jj: int|
                                        0 <= jj < ledger_mid.len() && (
                                        #[trigger] ledger_mid[jj]).0@ == stocks_hold@[k].0@
                                            && ledger_mid[jj].1 == stocks_hold@[k].1;
                                    assert(trade_stocks@[e].1@.last().1.spec_le(ledger_mid[jj].1));
                                }
                            }
                            assert forall|id: Seq<char>|
                                #![trigger ledger_has_id(stocks_hold@, id)]
                                #![trigger holding_has_id(engine.holdings(), id)]
                                ledger_has_id(stocks_hold@, id) <==> holding_has_id(
                                engine.holdings(),
                                id,
                            ) by {
                                assert(ledger_has_id(ledger_mid, id) <==> (ledger_has_id(
                                    ledger_pre,
                                    id,
                                ) && !info_has_id(portfolio.stocks_settled@, id)));
                                assert(ledger_has_id(ledger_pre, id) <==> holding_has_id(
                                    h_pre,
                                    id,
                                ));
                            }
                        }
                        let ghost pre_ps = self.portfolios@;
                        let ghost snap = portfolio;
                        self.portfolios.push(portfolio);
                        proof {
                            assert(self.portfolios@.take(base) =~= pre_ps.take(base));
                            assert(snapshot_wf(snap, cap));
                            assert(snapshot_chain(liq_pre as int, snap));
                            assert forall|k: int|
                                base <= k < self.portfolios@.len() implies snapshot_wf(
                                #[trigger] self.portfolios@[k],
                                cap,
                            ) by {
                                if k < self.portfolios@.len() - 1 {
                                    assert(self.portfolios@[k] == pre_ps[k]);
                                } else {
                                    assert(self.portfolios@[k] == snap);
                                }
                            }
                            assert forall|k: int|
                                base <= k < self.portfolios@.len() implies snapshot_chain(
                                if k == base {
                                    start_liq
                                } else {
                                    self.portfolios@[k - 1].liquidity as int
                                },
                                #[trigger] self.portfolios@[k],
                            ) by {
                                if k < self.portfolios@.len() - 1 {
                                    assert(self.portfolios@[k] == pre_ps[k]);
                                    if k > base {
                                        assert(self.portfolios@[k - 1] == pre_ps[k - 1]);
                                    }
                                } else {
                                    assert(self.portfolios@[k] == snap);
                                    if k > base {
                                        assert(self.portfolios@[k - 1] == pre_ps[k - 1]);
                                        assert(pre_ps[k - 1] == pre_ps.last());
                                    }
                                }
                            }
                        }
                    }
                }
                if date == end_date {
                    break ;
                }
                match date.next_day() {
                    Some(d) => {
                        proof {
                            crate::date::lemma_lt_ymd_num(date, end_date);
                            crate::date::lemma_next_increases(date);
                            crate::date::lemma_lt_ymd_num(date, d);
                            assert forall|e: int|
                                0 <= e < trade_stocks@.len() && (
                            #[trigger] trade_stocks@[e]).1@.len() > 0
                                implies trade_stocks@[e].1@.last().1.spec_le(d) by {
                                assert(trade_stocks@[e].1@.last().1.spec_le(date));
                            }
                        }
                        if !d.le(&end_date) {
                            break ;
                        }
                        date = d;
                    }
                    None => {
                        break ;
                    }
                }
            }
        }
        Ok(trade_stocks)
    }

    /// One symbol's records over the simulated range, paired with its
    /// holding intervals, for export and drawing.
    pub fn get_stock_trade_info(
        &self,
        stock_id: &str,
        trade_series: &Vec<(Date, Date)>,
    ) -> (r: Result<StockTradeInfo, backend::Error>)
        ensures
            r matches Ok(info) ==> ({
                &&& info.trade_series@ == trade_series@
                &&& backend::range_records_match(
                    (*self.backend_op).records(),
                    stock_id@,
                    self.start_date,
                    self.end_date,
                    info.data_series@,
                )
            }),
    {
        let records = match self.backend_op.query_by_range(
            stock_id,
            self.start_date,
            self.end_date,
        ) {
            Ok(rs) => rs,
            Err(e) => {
                return Err(e);
            }
        };
        let n = trade_series.len();
        let mut series: Vec<(Date, Date)> = Vec::new();
        let mut i: usize = 0;
        while i < n
            invariant
                0 <= i <= n,
                n == trade_series@.len(),
                series@ == trade_series@.take(i as int),
            decreases n - i,
        {
            let pair = trade_series[i];
            series.push(pair);
            proof {
                assert(series@ =~= trade_series@.take(i + 1));
            }
            i = i + 1;
        }
        proof {
            assert(trade_series@.take(n as int) =~= trade_series@);
        }
        Ok(StockTradeInfo { data_series: records, trade_series: series })
    }
}

} // verus!
