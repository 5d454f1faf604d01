use std::rc::Rc;

use veronica::backend::BackendOp;
use veronica::backend::Error as BackendError;
use veronica::crawler::Args;
use veronica::crawler::Crawler;
use veronica::crawler::Error as CrawlerError;
use veronica::date::Date;
use veronica::decision::Decision;
use veronica::schema::RawData;
use veronica::strategy::Error as StrategyError;
use veronica::strategy::Score;
use veronica::strategy::StrategyAPI;

struct MockCrawler {
    list: Vec<String>,
}

impl Crawler for MockCrawler {
    fn get_stock_data(&self, _args: &Args) -> Result<Vec<RawData>, CrawlerError> {
        Ok(Vec::new())
    }

    fn get_stock_list(&self) -> Result<Vec<String>, CrawlerError> {
        Ok(self.list.clone())
    }
}

/// Serves records from a table; an entry with no date matches every date.
struct MockBackendOp {
    table: Vec<(String, Option<Date>, RawData)>,
}

impl MockBackendOp {
    fn lookup(&self, stock_id: &str, date: Date) -> Option<RawData> {
        for (id, d, rec) in &self.table {
            let date_matches = match d {
                Some(dd) => *dd == date,
                None => true,
            };
            if id == stock_id && date_matches {
                return Some(*rec);
            }
        }
        None
    }
}

impl BackendOp for MockBackendOp {
    fn batch_insert(&self, _records: &Vec<(String, RawData)>) -> Result<(), BackendError> {
        Ok(())
    }

    fn query(&self, stock_id: &str, date: Date) -> Result<Option<RawData>, BackendError> {
        Ok(self.lookup(stock_id, date))
    }

    fn query_by_range(
        &self,
        _stock_id: &str,
        _start_date: Date,
        _end_date: Date,
    ) -> Result<Vec<RawData>, BackendError> {
        Ok(Vec::new())
    }

    fn query_all(&self, _stock_id: &str) -> Result<Vec<RawData>, BackendError> {
        Ok(Vec::new())
    }

    fn batch_delete(&self, _records: &Vec<(String, Date)>) -> Result<(), BackendError> {
        Ok(())
    }
}

/// Answers scores from a table; an entry with no date matches every date.
struct MockStrategyAPI {
    scores: Vec<(String, Option<Date>, Score)>,
    settle: bool,
}

impl StrategyAPI for MockStrategyAPI {
    fn analyze(&self, stock_id: &str, assess_date: Date) -> Result<Score, StrategyError> {
        for (id, d, score) in &self.scores {
            let date_matches = match d {
                Some(dd) => *dd == assess_date,
                None => true,
            };
            if id == stock_id && date_matches {
                return Ok(*score);
            }
        }
        Ok(Score::default())
    }

    fn settle_check(
        &self,
        _stock_id: &str,
        _hold_date: Date,
        _assess_date: Date,
    ) -> Result<bool, StrategyError> {
        Ok(self.settle)
    }
}

fn bar(low: u32, high: u32) -> RawData {
    RawData {
        low,
        high,
        ..RawData::default()
    }
}

#[test]
fn select_stocks_all_zero_score() {
    let mock_crawler = MockCrawler {
        list: vec!["0050".to_owned(), "0051".to_owned(), "0052".to_owned()],
    };
    let mock_backend_op = MockBackendOp {
        table: vec![
            ("0050".to_owned(), None, RawData::default()),
            ("0051".to_owned(), None, RawData::default()),
            ("0052".to_owned(), None, RawData::default()),
        ],
    };
    let mock_strategy = MockStrategyAPI {
        scores: vec![
            ("0050".to_owned(), None, Score { point: 0, trading_volume: 0 }),
            ("0051".to_owned(), None, Score { point: 0, trading_volume: 0 }),
            ("0052".to_owned(), None, Score { point: 0, trading_volume: 0 }),
        ],
        settle: false,
    };

    let mut decision = Decision::new(
        Rc::new(mock_crawler),
        Rc::new(mock_backend_op),
        Rc::new(mock_strategy),
    );
    let portfolio = decision
        .calc_portfolio(Date::from_ymd(1970, 1, 1))
        .unwrap()
        .unwrap();

    assert!(portfolio.stocks_selected.is_empty());
}

#[test]
fn select_stocks_score_in_order() {
    let mock_crawler = MockCrawler {
        list: vec!["0050".to_owned(), "0051".to_owned(), "0052".to_owned()],
    };
    let mock_backend_op = MockBackendOp {
        table: vec![
            ("0050".to_owned(), None, bar(1, 1)),
            ("0051".to_owned(), None, bar(1, 1)),
            ("0052".to_owned(), None, bar(1, 1)),
        ],
    };
    let mock_strategy = MockStrategyAPI {
        scores: vec![
            ("0050".to_owned(), None, Score { point: 2, trading_volume: 0 }),
            ("0051".to_owned(), None, Score { point: 3, trading_volume: 0 }),
            ("0052".to_owned(), None, Score { point: 4, trading_volume: 0 }),
        ],
        settle: false,
    };

    let expected_stock_ids = vec!["0052".to_owned(), "0051".to_owned(), "0050".to_owned()];
    let mut decision = Decision::new(
        Rc::new(mock_crawler),
        Rc::new(mock_backend_op),
        Rc::new(mock_strategy),
    );
    let portfolio = decision
        .calc_portfolio(Date::from_ymd(1970, 1, 1))
        .unwrap()
        .unwrap();
    let selected_stock_ids: Vec<String> = portfolio
        .stocks_selected
        .into_iter()
        .map(|stock_info| stock_info.stock_id)
        .collect();

    assert_eq!(selected_stock_ids, expected_stock_ids);
}

#[test]
fn select_stocks_score_no_duplicated_id() {
    let mock_crawler = MockCrawler {
        list: vec!["0050".to_owned(), "0051".to_owned(), "0052".to_owned()],
    };
    let mock_backend_op = MockBackendOp {
        table: vec![
            ("0050".to_owned(), None, bar(1, 1)),
            ("0051".to_owned(), None, RawData::default()),
            ("0052".to_owned(), None, RawData::default()),
        ],
    };
    let mock_strategy = MockStrategyAPI {
        scores: vec![
            ("0050".to_owned(), None, Score { point: 2, trading_volume: 0 }),
            ("0051".to_owned(), None, Score::default()),
            ("0052".to_owned(), None, Score::default()),
        ],
        settle: false,
    };

    let expected_stock_ids = vec!["0050".to_owned()];
    let mut decision = Decision::new(
        Rc::new(mock_crawler),
        Rc::new(mock_backend_op),
        Rc::new(mock_strategy),
    );
    let mut selected_stock_ids: Vec<String> = Vec::new();

    decision.stocks_hold_num = 4;

    let mut portfolio = decision
        .calc_portfolio(Date::from_ymd(1970, 1, 1))
        .unwrap()
        .unwrap();

    for stock_info in portfolio.stocks_selected {
        selected_stock_ids.push(stock_info.stock_id);
    }
    portfolio = decision
        .calc_portfolio(Date::from_ymd(1970, 1, 2))
        .unwrap()
        .unwrap();
    for stock_info in portfolio.stocks_selected {
        selected_stock_ids.push(stock_info.stock_id);
    }

    assert_eq!(selected_stock_ids, expected_stock_ids);
}

#[test]
fn select_stocks_num_check() {
    let mock_crawler = MockCrawler {
        list: vec!["0050".to_owned()],
    };
    let mock_backend_op = MockBackendOp {
        table: vec![("0050".to_owned(), None, bar(2, 8))],
    };
    let mock_strategy = MockStrategyAPI {
        scores: vec![("0050".to_owned(), None, Score { point: 1, trading_volume: 0 })],
        settle: false,
    };

    let mut decision = Decision::new(
        Rc::new(mock_crawler),
        Rc::new(mock_backend_op),
        Rc::new(mock_strategy),
    );

    decision.liquidity = 8;

    let portfolio = decision
        .calc_portfolio(Date::from_ymd(1970, 1, 1))
        .unwrap()
        .unwrap();

    assert_eq!(portfolio.stocks_selected.len(), 1);
    assert_eq!(portfolio.stocks_selected[0].stock_id, "0050");
    assert_eq!(portfolio.stocks_selected[0].num, 1);
    assert_eq!(portfolio.stocks_selected[0].price, 5);
}

#[test]
fn hold_stocks_detail_check() {
    let mock_crawler = MockCrawler {
        list: vec!["0050".to_owned()],
    };
    let mock_backend_op = MockBackendOp {
        table: vec![("0050".to_owned(), None, bar(2, 8))],
    };
    let mock_strategy = MockStrategyAPI {
        scores: vec![("0050".to_owned(), None, Score { point: 2, trading_volume: 0 })],
        settle: false,
    };

    let mut decision = Decision::new(
        Rc::new(mock_crawler),
        Rc::new(mock_backend_op),
        Rc::new(mock_strategy),
    );

    decision.liquidity = 8;
    decision
        .calc_portfolio(Date::from_ymd(1970, 1, 1))
        .unwrap()
        .unwrap();

    let portfolio = decision
        .calc_portfolio(Date::from_ymd(1970, 1, 2))
        .unwrap()
        .unwrap();

    assert_eq!(portfolio.stocks_selected.len(), 0);
    assert_eq!(portfolio.stocks_hold.len(), 1);
    assert_eq!(portfolio.stocks_settled.len(), 0);
    assert_eq!(portfolio.stocks_hold[0].stock_id, "0050");
    assert_eq!(portfolio.stocks_hold[0].num, 1);
    assert_eq!(portfolio.stocks_hold[0].price, 5);
}

#[test]
fn settle_stocks_detail_check() {
    let mock_crawler = MockCrawler {
        list: vec!["0050".to_owned()],
    };
    let mock_backend_op = MockBackendOp {
        table: vec![("0050".to_owned(), None, bar(2, 8))],
    };
    let mock_strategy = MockStrategyAPI {
        scores: vec![(
            "0050".to_owned(),
            Some(Date::from_ymd(1970, 1, 1)),
            Score { point: 1, trading_volume: 0 },
        )],
        settle: true,
    };

    let mut decision = Decision::new(
        Rc::new(mock_crawler),
        Rc::new(mock_backend_op),
        Rc::new(mock_strategy),
    );

    decision.liquidity = 8;
    decision
        .calc_portfolio(Date::from_ymd(1970, 1, 1))
        .unwrap()
        .unwrap();

    let portfolio = decision
        .calc_portfolio(Date::from_ymd(1970, 1, 2))
        .unwrap()
        .unwrap();

    assert_eq!(portfolio.stocks_selected.len(), 0);
    assert_eq!(portfolio.stocks_hold.len(), 0);
    assert_eq!(portfolio.stocks_settled.len(), 1);
    assert_eq!(portfolio.stocks_settled[0].stock_id, "0050");
    assert_eq!(portfolio.stocks_settled[0].num, 1);
    assert_eq!(portfolio.stocks_settled[0].price, 5);
}

#[test]
fn liquidity_check() {
    let d1 = Date::from_ymd(1970, 1, 1);
    let d2 = Date::from_ymd(1970, 1, 2);
    let mock_crawler = MockCrawler {
        list: vec!["0050".to_owned(), "0051".to_owned()],
    };
    let mock_backend_op = MockBackendOp {
        table: vec![
            ("0050".to_owned(), Some(d1), bar(2, 8)),
            ("0050".to_owned(), Some(d2), bar(4, 16)),
            ("0051".to_owned(), Some(d1), bar(4, 8)),
            ("0051".to_owned(), Some(d2), bar(8, 16)),
        ],
    };
    let mock_strategy = MockStrategyAPI {
        scores: vec![
            ("0050".to_owned(), Some(d1), Score { point: 2, trading_volume: 10 }),
            ("0050".to_owned(), Some(d2), Score { point: 0, trading_volume: 0 }),
            ("0051".to_owned(), Some(d1), Score { point: 4, trading_volume: 20 }),
            ("0051".to_owned(), Some(d2), Score { point: 0, trading_volume: 0 }),
        ],
        settle: true,
    };

    let mut decision = Decision::new(
        Rc::new(mock_crawler),
        Rc::new(mock_backend_op),
        Rc::new(mock_strategy),
    );

    decision.liquidity = 20;

    let mut portfolio = decision.calc_portfolio(d1).unwrap().unwrap();

    assert_eq!(portfolio.liquidity, 4);

    portfolio = decision.calc_portfolio(d2).unwrap().unwrap();
    assert_eq!(portfolio.liquidity, 36);
}
