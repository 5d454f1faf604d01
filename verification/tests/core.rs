use std::rc::Rc;

use veronica::backend::BackendOp;
use veronica::backend::Error as BackendError;
use veronica::config::Config;
use veronica::backtesting::Backtesting;
use veronica::crawler::Args;
use veronica::crawler::Crawler;
use veronica::crawler::Error as CrawlerError;
use veronica::date::Date;
use veronica::decision::{Decision, Error as DecisionError};
use veronica::schema::RawData;
use veronica::strategy::Error as StrategyError;
use veronica::strategy::{Score, Strategies, StrategyAPI};

struct TableCrawler {
    list: Vec<String>,
    fail: bool,
}

impl Crawler for TableCrawler {
    fn get_stock_data(&self, _args: &Args) -> Result<Vec<RawData>, CrawlerError> {
        Ok(Vec::new())
    }

    fn get_stock_list(&self) -> Result<Vec<String>, CrawlerError> {
        if self.fail {
            Err(CrawlerError::Unknown)
        } else {
            Ok(self.list.clone())
        }
    }
}

struct TableBackend {
    table: Vec<(String, Option<Date>, RawData)>,
}

impl BackendOp for TableBackend {
    fn batch_insert(&self, _records: &Vec<(String, RawData)>) -> Result<(), BackendError> {
        Ok(())
    }

    fn query(&self, stock_id: &str, date: Date) -> Result<Option<RawData>, BackendError> {
        for (id, d, rec) in &self.table {
            let date_matches = match d {
                Some(dd) => *dd == date,
                None => true,
            };
            if id == stock_id && date_matches {
                return Ok(Some(*rec));
            }
        }
        Ok(None)
    }

    fn query_by_range(
        &self,
        _stock_id: &str,
        _start_date: Date,
        _end_date: Date,
    ) -> Result<Vec<RawData>, BackendError> {
        Ok(Vec::new())
    }

    fn query_all(&self, _stock_id: &str) -> Result<Vec<RawData>, BackendError> {
        Ok(Vec::new())
    }

    fn batch_delete(&self, _records: &Vec<(String, Date)>) -> Result<(), BackendError> {
        Ok(())
    }
}

struct TableStrategy {
    scores: Vec<(String, Option<Date>, Score)>,
    settle: bool,
    fail: bool,
}

impl StrategyAPI for TableStrategy {
    fn analyze(&self, stock_id: &str, assess_date: Date) -> Result<Score, StrategyError> {
        if self.fail {
            return Err(StrategyError::RecordNotFound);
        }
        for (id, d, score) in &self.scores {
            let date_matches = match d {
                Some(dd) => *dd == assess_date,
                None => true,
            };
            if id == stock_id && date_matches {
                return Ok(*score);
            }
        }
        Ok(Score::default())
    }

    fn settle_check(
        &self,
        _stock_id: &str,
        _hold_date: Date,
        _assess_date: Date,
    ) -> Result<bool, StrategyError> {
        Ok(self.settle)
    }
}

fn bar(low: u32, high: u32) -> RawData {
    RawData {
        low,
        high,
        ..RawData::default()
    }
}

/// Two candidates priced 4 and 8 with scores 4 and 2, liquidity 20 and
/// free capacity: both are bought, ten per stock, and the remainder stays.
#[test]
fn even_split_buys_both_candidates() {
    let d1 = Date::from_ymd(2021, 6, 1);
    let crawler = TableCrawler {
        list: vec!["1101".to_owned(), "2330".to_owned()],
        fail: false,
    };
    let backend = TableBackend {
        table: vec![
            ("1101".to_owned(), None, bar(2, 6)),
            ("2330".to_owned(), None, bar(4, 12)),
        ],
    };
    let strategy = TableStrategy {
        scores: vec![
            ("1101".to_owned(), None, Score { point: 4, trading_volume: 0 }),
            ("2330".to_owned(), None, Score { point: 2, trading_volume: 0 }),
        ],
        settle: false,
        fail: false,
    };
    let mut decision = Decision::new(Rc::new(crawler), Rc::new(backend), Rc::new(strategy));
    decision.liquidity = 20;

    let portfolio = decision.calc_portfolio(d1).unwrap().unwrap();

    assert_eq!(portfolio.stocks_selected.len(), 2);
    assert_eq!(portfolio.stocks_selected[0].stock_id, "1101");
    assert_eq!(portfolio.stocks_selected[0].price, 4);
    assert_eq!(portfolio.stocks_selected[0].num, 2);
    assert_eq!(portfolio.stocks_selected[1].stock_id, "2330");
    assert_eq!(portfolio.stocks_selected[1].price, 8);
    assert_eq!(portfolio.stocks_selected[1].num, 1);
    assert_eq!(portfolio.liquidity, 20 - 8 - 8);
}

/// One share entered at price 5 settles on a day with high 16 and low 8:
/// the settle price is 12 and liquidity grows by exactly 12.
#[test]
fn settle_credits_the_record_midpoint() {
    let d1 = Date::from_ymd(2021, 6, 1);
    let d2 = Date::from_ymd(2021, 6, 2);
    let crawler = TableCrawler {
        list: vec!["1101".to_owned()],
        fail: false,
    };
    let backend = TableBackend {
        table: vec![
            ("1101".to_owned(), Some(d1), bar(2, 8)),
            ("1101".to_owned(), Some(d2), bar(8, 16)),
        ],
    };
    let strategy = TableStrategy {
        scores: vec![(
            "1101".to_owned(),
            Some(d1),
            Score { point: 1, trading_volume: 0 },
        )],
        settle: true,
        fail: false,
    };
    let mut decision = Decision::new(Rc::new(crawler), Rc::new(backend), Rc::new(strategy));
    decision.liquidity = 5;

    let bought = decision.calc_portfolio(d1).unwrap().unwrap();
    assert_eq!(bought.stocks_selected[0].num, 1);
    assert_eq!(bought.stocks_selected[0].price, 5);
    assert_eq!(bought.liquidity, 0);

    let settled = decision.calc_portfolio(d2).unwrap().unwrap();
    assert_eq!(settled.stocks_settled.len(), 1);
    assert_eq!(settled.stocks_settled[0].price, 12);
    assert_eq!(settled.liquidity, 12);
}

/// A held symbol without a record for the day skips the whole date.
#[test]
fn missing_record_skips_the_day() {
    let d1 = Date::from_ymd(2021, 6, 1);
    let d2 = Date::from_ymd(2021, 6, 2);
    let crawler = TableCrawler {
        list: vec!["1101".to_owned()],
        fail: false,
    };
    let backend = TableBackend {
        table: vec![("1101".to_owned(), Some(d1), bar(2, 8))],
    };
    let strategy = TableStrategy {
        scores: vec![("1101".to_owned(), None, Score { point: 1, trading_volume: 0 })],
        settle: false,
        fail: false,
    };
    let mut decision = Decision::new(Rc::new(crawler), Rc::new(backend), Rc::new(strategy));
    decision.liquidity = 8;

    assert!(decision.calc_portfolio(d1).unwrap().is_some());
    assert!(decision.calc_portfolio(d2).unwrap().is_none());
}

/// A selected record priced at zero is a data error, not a crash.
#[test]
fn zero_priced_selection_is_refused() {
    let d1 = Date::from_ymd(2021, 6, 1);
    let crawler = TableCrawler {
        list: vec!["1101".to_owned()],
        fail: false,
    };
    let backend = TableBackend {
        table: vec![("1101".to_owned(), None, bar(0, 0))],
    };
    let strategy = TableStrategy {
        scores: vec![("1101".to_owned(), None, Score { point: 3, trading_volume: 0 })],
        settle: false,
        fail: false,
    };
    let mut decision = Decision::new(Rc::new(crawler), Rc::new(backend), Rc::new(strategy));

    assert!(matches!(
        decision.calc_portfolio(d1),
        Err(DecisionError::ZeroPriceRecord)
    ));
}

/// Settle proceeds beyond the liquidity type abort instead of wrapping.
#[test]
fn oversized_settle_proceeds_are_refused() {
    let d1 = Date::from_ymd(2021, 6, 1);
    let d2 = Date::from_ymd(2021, 6, 2);
    let crawler = TableCrawler {
        list: vec!["1101".to_owned()],
        fail: false,
    };
    let backend = TableBackend {
        table: vec![
            ("1101".to_owned(), Some(d1), bar(1, 1)),
            ("1101".to_owned(), Some(d2), bar(4_000_000_000, 4_000_000_000)),
        ],
    };
    let strategy = TableStrategy {
        scores: vec![(
            "1101".to_owned(),
            Some(d1),
            Score { point: 1, trading_volume: 0 },
        )],
        settle: true,
        fail: false,
    };
    let mut decision = Decision::new(Rc::new(crawler), Rc::new(backend), Rc::new(strategy));
    decision.liquidity = 4_000_000_000;

    decision.calc_portfolio(d1).unwrap().unwrap();
    assert!(matches!(
        decision.calc_portfolio(d2),
        Err(DecisionError::LiquidityOverflow)
    ));
}

/// A failing score fetch aborts the step with the strategy tag.
#[test]
fn strategy_failure_aborts_the_step() {
    let d1 = Date::from_ymd(2021, 6, 1);
    let crawler = TableCrawler {
        list: vec!["1101".to_owned()],
        fail: false,
    };
    let backend = TableBackend { table: Vec::new() };
    let strategy = TableStrategy {
        scores: Vec::new(),
        settle: false,
        fail: true,
    };
    let mut decision = Decision::new(Rc::new(crawler), Rc::new(backend), Rc::new(strategy));

    assert!(matches!(
        decision.calc_portfolio(d1),
        Err(DecisionError::Strategy(StrategyError::RecordNotFound))
    ));
}

/// A store that always fails.
struct FailingBackend;

impl BackendOp for FailingBackend {
    fn batch_insert(&self, _records: &Vec<(String, RawData)>) -> Result<(), BackendError> {
        Err(BackendError::Sled("down".to_owned()))
    }

    fn query(&self, _stock_id: &str, _date: Date) -> Result<Option<RawData>, BackendError> {
        Err(BackendError::Sled("down".to_owned()))
    }

    fn query_by_range(
        &self,
        _stock_id: &str,
        _start_date: Date,
        _end_date: Date,
    ) -> Result<Vec<RawData>, BackendError> {
        Err(BackendError::Sled("down".to_owned()))
    }

    fn query_all(&self, _stock_id: &str) -> Result<Vec<RawData>, BackendError> {
        Err(BackendError::Sled("down".to_owned()))
    }

    fn batch_delete(&self, _records: &Vec<(String, Date)>) -> Result<(), BackendError> {
        Err(BackendError::Sled("down".to_owned()))
    }
}

/// A failing store query aborts the step with the store tag.
#[test]
fn backend_failure_aborts_the_step() {
    let d1 = Date::from_ymd(2021, 6, 1);
    let crawler = TableCrawler {
        list: vec!["1101".to_owned()],
        fail: false,
    };
    let strategy = TableStrategy {
        scores: vec![("1101".to_owned(), None, Score { point: 3, trading_volume: 0 })],
        settle: false,
        fail: false,
    };
    let mut decision = Decision::new(Rc::new(crawler), Rc::new(FailingBackend), Rc::new(strategy));

    assert!(matches!(
        decision.calc_portfolio(d1),
        Err(DecisionError::Backend(BackendError::Sled(_)))
    ));
}

/// A failing symbol-list fetch aborts the step with the crawler tag.
#[test]
fn crawler_failure_aborts_the_step() {
    let d1 = Date::from_ymd(2021, 6, 1);
    let crawler = TableCrawler {
        list: Vec::new(),
        fail: true,
    };
    let backend = TableBackend { table: Vec::new() };
    let strategy = TableStrategy {
        scores: Vec::new(),
        settle: false,
        fail: false,
    };
    let mut decision = Decision::new(Rc::new(crawler), Rc::new(backend), Rc::new(strategy));

    assert!(matches!(
        decision.calc_portfolio(d1),
        Err(DecisionError::Crawler(CrawlerError::Unknown))
    ));
}

/// Two simulated days against the liquidity fixture: snapshots accumulate,
/// liquidity follows the conservation equation, and each settled symbol
/// yields its holding interval.
#[test]
fn runner_collects_snapshots_and_intervals() {
    let d1 = Date::from_ymd(1970, 1, 1);
    let d2 = Date::from_ymd(1970, 1, 2);
    let crawler = TableCrawler {
        list: vec!["0050".to_owned(), "0051".to_owned()],
        fail: false,
    };
    let backend = TableBackend {
        table: vec![
            ("0050".to_owned(), Some(d1), bar(2, 8)),
            ("0050".to_owned(), Some(d2), bar(4, 16)),
            ("0051".to_owned(), Some(d1), bar(4, 8)),
            ("0051".to_owned(), Some(d2), bar(8, 16)),
        ],
    };
    let crawler = Rc::new(crawler);
    let backend = Rc::new(backend);
    let mut backtesting = Backtesting::new(
        Config::default(),
        crawler,
        backend,
        Strategies::BollingerBand,
    );
    backtesting.liquidity = 20;

    // The Bollinger strategy sees no usable history here, so every score
    // is neutral: the runner walks both days and collects the snapshots.
    let trades = backtesting.run(d1, d2).unwrap();
    assert_eq!(backtesting.portfolios.len(), 2);
    assert_eq!(backtesting.portfolios[0].liquidity, 20);
    assert_eq!(backtesting.portfolios[1].liquidity, 20);
    assert!(trades.is_empty());
    assert_eq!(backtesting.start_date, d1);
    assert_eq!(backtesting.end_date, d2);
}
