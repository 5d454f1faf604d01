//! Scoring strategies and their common interface.

use vstd::prelude::*;
use std::rc::Rc;
use crate::backend;
use crate::backend::BackendOp;
use crate::bollinger_band;
use crate::date::Date;
use crate::view;

verus! {

/// The closed set of strategies the library ships.
#[derive(Clone, Copy)]
pub enum Strategies {
    BollingerBand,
}

/// An entry signal: a score with its tie-breaking traded volume.
/// Greater is better; `point <= 0` means "do not buy".
#[derive(Debug, Clone, Copy, Eq, Ord)]
pub struct Score {
    pub point: i64,
    pub trading_volume: u64,
}

/// The total order on scores: by `point`, then by `trading_volume`.
pub open spec fn spec_score_le(a: Score, b: Score) -> bool {
    ||| a.point < b.point
    ||| (a.point == b.point && a.trading_volume <= b.trading_volume)
}

/// Exact comparison backing the ranking; mirrors `spec_score_le`.
pub fn score_le(a: &Score, b: &Score) -> (r: bool)
    ensures
        r == spec_score_le(*a, *b),
{
    if a.point != b.point {
        a.point < b.point
    } else {
        a.trading_volume <= b.trading_volume
    }
}

impl core::default::Default for Score {
    fn default() -> (r: Score)
        ensures
            r == (Score { point: 0i64, trading_volume: 0u64 }),
    {
        Score { point: 0, trading_volume: 0 }
    }
}

impl core::cmp::PartialEq for Score {
    fn eq(&self, other: &Self) -> (r: bool) {
        self.point == other.point && self.trading_volume == other.trading_volume
    }
}

impl vstd::std_specs::cmp::PartialEqSpecImpl for Score {
    open spec fn obeys_eq_spec() -> bool {
        true
    }

    open spec fn eq_spec(&self, other: &Self) -> bool {
        self.point == other.point && self.trading_volume == other.trading_volume
    }
}

impl core::cmp::PartialOrd for Score {
    fn partial_cmp(&self, other: &Self) -> (r: Option<core::cmp::Ordering>) {
        if self.point != other.point {
            if self.point < other.point {
                Some(core::cmp::Ordering::Less)
            } else {
                Some(core::cmp::Ordering::Greater)
            }
        } else if self.trading_volume < other.trading_volume {
            Some(core::cmp::Ordering::Less)
        } else if self.trading_volume == other.trading_volume {
            Some(core::cmp::Ordering::Equal)
        } else {
            Some(core::cmp::Ordering::Greater)
        }
    }
}

impl vstd::std_specs::cmp::PartialOrdSpecImpl for Score {
    open spec fn obeys_partial_cmp_spec() -> bool {
        true
    }

    open spec fn partial_cmp_spec(&self, other: &Self) -> Option<core::cmp::Ordering> {
        if self.point != other.point {
            if self.point < other.point {
                Some(core::cmp::Ordering::Less)
            } else {
                Some(core::cmp::Ordering::Greater)
            }
        } else if self.trading_volume < other.trading_volume {
            Some(core::cmp::Ordering::Less)
        } else if self.trading_volume == other.trading_volume {
            Some(core::cmp::Ordering::Equal)
        } else {
            Some(core::cmp::Ordering::Greater)
        }
    }
}

/// Failures of a strategy, tagged with the originating subsystem.
#[derive(Clone, Debug)]
pub enum Error {
    Backend(backend::Error),
    Dataview(view::Error),
    BadOperation,
    RecordNotFound,
}

impl core::convert::From<backend::Error> for Error {
    fn from(err: backend::Error) -> (r: Error) {
        Error::Backend(err)
    }
}

impl vstd::std_specs::convert::FromSpecImpl<backend::Error> for Error {
    open spec fn obeys_from_spec() -> bool {
        true
    }

    open spec fn from_spec(err: backend::Error) -> Error {
        Error::Backend(err)
    }
}

impl core::convert::From<view::Error> for Error {
    fn from(err: view::Error) -> (r: Error) {
        Error::Dataview(err)
    }
}

impl vstd::std_specs::convert::FromSpecImpl<view::Error> for Error {
    open spec fn obeys_from_spec() -> bool {
        true
    }

    open spec fn from_spec(err: view::Error) -> Error {
        Error::Dataview(err)
    }
}

/// The closed tagged union over the shipped strategy implementations.
pub enum Strategy<B: BackendOp> {
    BollingerBand(bollinger_band::Strategy<B>),
}

/// The uniform capability set of a strategy: an entry score for a symbol at
/// a date, and an exit decision for an open position.  Implementations are
/// free in what they answer; the decision engine is verified for every
/// answer.
pub trait StrategyAPI {
    /// The entry score the implementation stands for; left unspecified
    /// unless an implementation states its own.  A successful `analyze`
    /// reports exactly this score.
    open spec fn score_of(&self, stock_id: Seq<char>, assess_date: Date) -> Score {
        vstd::pervasive::arbitrary()
    }

    /// The exit answer the implementation stands for; left unspecified
    /// unless an implementation states its own.  A successful
    /// `settle_check` reports exactly this answer.
    open spec fn settle_firing(&self, stock_id: Seq<char>, hold_date: Date, assess_date: Date) -> bool {
        vstd::pervasive::arbitrary()
    }

    fn analyze(&self, stock_id: &str, assess_date: Date) -> (r: Result<Score, Error>)
        requires
            assess_date.valid(),
        ensures
            r matches Ok(s) ==> s == self.score_of(stock_id@, assess_date),
    ;

    fn settle_check(&self, stock_id: &str, hold_date: Date, assess_date: Date) -> (r: Result<
        bool,
        Error,
    >)
        requires
            hold_date.valid(),
            assess_date.valid(),
        ensures
            r matches Ok(b) ==> b == self.settle_firing(stock_id@, hold_date, assess_date),
    ;
}

impl<B: BackendOp> StrategyAPI for Strategy<B> {
    open spec fn score_of(&self, stock_id: Seq<char>, assess_date: Date) -> Score {
        match self {
            Strategy::BollingerBand(band) => crate::bollinger_band::spec_score_answer(
                band,
                stock_id,
                assess_date,
            ),
        }
    }

    open spec fn settle_firing(&self, stock_id: Seq<char>, hold_date: Date, assess_date: Date) -> bool {
        match self {
            Strategy::BollingerBand(band) => crate::bollinger_band::spec_settle_answer(
                band,
                stock_id,
                hold_date,
                assess_date,
            ),
        }
    }

    fn analyze(&self, stock_id: &str, assess_date: Date) -> (r: Result<Score, Error>) {
        match *self {
            Strategy::BollingerBand(ref band) => {
                let answer = band.analyze(stock_id, assess_date);
                proof {
                    match answer {
                        Ok(s) => {
                            crate::bollinger_band::lemma_score_answer(
                                band,
                                stock_id@,
                                assess_date,
                                s,
                            );
                        }
                        _ => {}
                    }
                }
                answer
            }
        }
    }

    fn settle_check(&self, stock_id: &str, hold_date: Date, assess_date: Date) -> (r: Result<
        bool,
        Error,
    >) {
        match *self {
            Strategy::BollingerBand(ref band) => {
                let answer = band.settle_check(stock_id, hold_date, assess_date);
                proof {
                    match answer {
                        Ok(b) => {
                            crate::bollinger_band::lemma_settle_answer(
                                band,
                                stock_id@,
                                hold_date,
                                assess_date,
                                b,
                            );
                        }
                        _ => {}
                    }
                }
                answer
            }
        }
    }
}

pub struct StrategyFactory {}

impl StrategyFactory {
    /// Builds the strategy variant chosen by `strategy` over the given store.
    pub fn get<B: BackendOp>(strategy: Strategies, backend_op: Rc<B>) -> (r: Strategy<B>)
        ensures
            r == (Strategy::BollingerBand(bollinger_band::Strategy::<B> { backend_op })),
    {
        match strategy {
            Strategies::BollingerBand => Strategy::BollingerBand(
                bollinger_band::Strategy { backend_op },
            ),
        }
    }
}

} // verus!
