use std::rc::Rc;

use veronica::backend::BackendOp;
use veronica::backend::Error as BackendError;
use veronica::backtesting::Backtesting;
use veronica::config::Config;
use veronica::crawler::Args;
use veronica::crawler::Crawler;
use veronica::crawler::Error as CrawlerError;
use veronica::date::Date;
use veronica::schema::RawData;
use veronica::strategy::Strategies;

struct OneStockCrawler;

impl Crawler for OneStockCrawler {
    fn get_stock_data(&self, _args: &Args) -> Result<Vec<RawData>, CrawlerError> {
        Ok(Vec::new())
    }

    fn get_stock_list(&self) -> Result<Vec<String>, CrawlerError> {
        Ok(vec!["9999".to_owned()])
    }
}

/// A store over one symbol with genuine inclusive range queries.
struct SeriesBackend {
    stock_id: String,
    records: Vec<RawData>,
}

impl BackendOp for SeriesBackend {
    fn batch_insert(&self, _records: &Vec<(String, RawData)>) -> Result<(), BackendError> {
        Ok(())
    }

    fn query(&self, stock_id: &str, date: Date) -> Result<Option<RawData>, BackendError> {
        if stock_id != self.stock_id {
            return Ok(None);
        }
        Ok(self.records.iter().find(|r| r.date == date).copied())
    }

    fn query_by_range(
        &self,
        stock_id: &str,
        start_date: Date,
        end_date: Date,
    ) -> Result<Vec<RawData>, BackendError> {
        if stock_id != self.stock_id {
            return Ok(Vec::new());
        }
        Ok(self
            .records
            .iter()
            .filter(|r| start_date.le(&r.date) && r.date.le(&end_date))
            .copied()
            .collect())
    }

    fn query_all(&self, stock_id: &str) -> Result<Vec<RawData>, BackendError> {
        if stock_id != self.stock_id {
            return Ok(Vec::new());
        }
        Ok(self.records.clone())
    }

    fn batch_delete(&self, _records: &Vec<(String, Date)>) -> Result<(), BackendError> {
        Ok(())
    }
}

fn flat_bar(date: Date, price: u32) -> RawData {
    RawData {
        open: price,
        high: price,
        low: price,
        close: price,
        spread: 0,
        date,
        trading_volume: 1,
        trading_money: 0,
    }
}

/// Daily closes: 100 for forty days, then rising by one per day through
/// the buy date, then collapsing to 50.  The band score fires on the buy
/// date and the fallen mean settles the position the day after.
fn price_series() -> (Vec<RawData>, Date, Date) {
    let mut records = Vec::new();
    let mut date = Date::from_ymd(2021, 1, 1);
    let mut buy_date = date;
    let mut settle_date = date;
    for t in 0..=80u32 {
        let price = if t < 40 {
            100
        } else if t <= 79 {
            100 + (t - 40 + 1)
        } else {
            50
        };
        records.push(flat_bar(date, price));
        if t == 79 {
            buy_date = date;
        }
        if t == 80 {
            settle_date = date;
        }
        date = date.next_day().unwrap();
    }
    (records, buy_date, settle_date)
}

/// The full pipeline on real data: the indicator engine scores a rising
/// band, the engine buys, the fallen mean settles, and the runner records
/// the holding interval.
#[test]
fn band_signals_drive_a_full_round_trip() {
    let (records, buy_date, settle_date) = price_series();
    assert_eq!(buy_date, Date::from_ymd(2021, 3, 21));
    assert_eq!(settle_date, Date::from_ymd(2021, 3, 22));

    let backend = Rc::new(SeriesBackend {
        stock_id: "9999".to_owned(),
        records,
    });
    let mut backtesting = Backtesting::new(
        Config::default(),
        Rc::new(OneStockCrawler),
        backend,
        Strategies::BollingerBand,
    );
    backtesting.liquidity = 1000;

    let trades = backtesting.run(buy_date, settle_date).unwrap();

    assert_eq!(backtesting.portfolios.len(), 2);
    let bought = &backtesting.portfolios[0];
    assert_eq!(bought.stocks_selected.len(), 1);
    assert_eq!(bought.stocks_selected[0].stock_id, "9999");
    assert_eq!(bought.stocks_selected[0].price, 140);
    assert_eq!(bought.stocks_selected[0].num, 7);
    assert_eq!(bought.liquidity, 1000 - 7 * 140);

    // The next day the fallen mean settles the position for 7 * 50, and
    // the still-rising window immediately re-selects the symbol, spending
    // the whole freed liquidity again: 370 in, 7 shares at 50 out.
    let settled = &backtesting.portfolios[1];
    assert_eq!(settled.stocks_settled.len(), 1);
    assert_eq!(settled.stocks_settled[0].price, 50);
    assert_eq!(settled.stocks_settled[0].num, 7);
    assert_eq!(settled.stocks_selected.len(), 1);
    assert_eq!(settled.stocks_selected[0].price, 50);
    assert_eq!(settled.stocks_selected[0].num, 7);
    assert_eq!(settled.liquidity, 20);

    assert_eq!(trades.len(), 1);
    assert_eq!(trades[0].0, "9999");
    assert_eq!(trades[0].1, vec![(buy_date, settle_date)]);
}
