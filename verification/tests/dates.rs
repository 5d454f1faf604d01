use veronica::backend::{make_key, make_range_end_key};
use veronica::config::Config;
use veronica::crawler::{parse_stock_list, Error as CrawlerError};
use veronica::date::{days_in_month, is_leap_year, Date};
use veronica::decision::{select_ranked, sort_scored_desc, Holding, Portfolio};
use veronica::finmind::{classify_response_status, Finmind};
use veronica::schema::RawData;
use veronica::strategy::{score_le, Score};
use veronica::utils::{fetch_directive, FetchDirective};

#[test]
fn leap_years_and_month_lengths() {
    assert!(is_leap_year(2020));
    assert!(!is_leap_year(2021));
    assert!(!is_leap_year(1900));
    assert!(is_leap_year(2000));
    assert_eq!(days_in_month(2020, 2), 29);
    assert_eq!(days_in_month(2021, 2), 28);
    assert_eq!(days_in_month(2021, 4), 30);
    assert_eq!(days_in_month(2021, 12), 31);
}

#[test]
fn next_day_handles_rollovers() {
    assert_eq!(
        Date::from_ymd(2021, 6, 1).next_day(),
        Some(Date::from_ymd(2021, 6, 2))
    );
    assert_eq!(
        Date::from_ymd(2020, 2, 28).next_day(),
        Some(Date::from_ymd(2020, 2, 29))
    );
    assert_eq!(
        Date::from_ymd(2021, 2, 28).next_day(),
        Some(Date::from_ymd(2021, 3, 1))
    );
    assert_eq!(
        Date::from_ymd(2021, 12, 31).next_day(),
        Some(Date::from_ymd(2022, 1, 1))
    );
    assert_eq!(Date::from_ymd(9999, 12, 31).next_day(), None);
}

#[test]
fn sub_days_walks_backward() {
    assert_eq!(
        Date::from_ymd(2021, 6, 9).sub_days(16),
        Some(Date::from_ymd(2021, 5, 24))
    );
    assert_eq!(
        Date::from_ymd(2021, 3, 1).sub_days(60),
        Some(Date::from_ymd(2020, 12, 31))
    );
    assert_eq!(Date::from_ymd(1, 1, 2).sub_days(2), None);
}

#[test]
fn date_order_is_chronological() {
    let a = Date::from_ymd(2021, 6, 9);
    let b = Date::from_ymd(2021, 7, 1);
    let c = Date::from_ymd(2022, 1, 1);
    assert!(a.lt(&b));
    assert!(b.lt(&c));
    assert!(a.le(&a));
    assert!(!b.le(&a));
}

#[test]
fn iso_rendering_pads_fields() {
    assert_eq!(Date::from_ymd(2021, 6, 1).to_iso_string(), "2021-06-01");
    assert_eq!(Date::from_ymd(987, 12, 31).to_iso_string(), "0987-12-31");
}

#[test]
fn store_keys_embed_symbol_and_date() {
    assert_eq!(
        make_key("0050", &Date::from_ymd(1970, 1, 1)),
        "0050_1970-01-01"
    );
    assert_eq!(
        make_range_end_key("0050", &Date::from_ymd(1970, 1, 31)),
        Some("0050_1970-02-01".to_owned())
    );
    assert_eq!(make_range_end_key("0050", &Date::from_ymd(9999, 12, 31)), None);
}

#[test]
fn score_order_is_by_point_then_volume() {
    let low = Score { point: 1, trading_volume: 50 };
    let high = Score { point: 2, trading_volume: 0 };
    let tie_low = Score { point: 2, trading_volume: 10 };
    assert!(score_le(&low, &high));
    assert!(!score_le(&high, &low));
    assert!(score_le(&tie_low, &high) == false);
    assert!(score_le(&high, &tie_low));
    assert!(low < high);
    assert!(high > tie_low || high < tie_low || high == tie_low);
    assert_eq!(Score::default(), Score { point: 0, trading_volume: 0 });
}

#[test]
fn ranking_sorts_scores_descending() {
    let mut scored = vec![
        (0usize, Score { point: 2, trading_volume: 10 }),
        (1usize, Score { point: 4, trading_volume: 20 }),
        (2usize, Score { point: 4, trading_volume: 30 }),
        (3usize, Score { point: -1, trading_volume: 99 }),
    ];
    sort_scored_desc(&mut scored);
    let order: Vec<usize> = scored.iter().map(|p| p.0).collect();
    assert_eq!(order, vec![2, 1, 0, 3]);
}

#[test]
fn selection_respects_capacity_and_holdings() {
    let stock_list = vec!["a".to_owned(), "b".to_owned(), "c".to_owned(), "d".to_owned()];
    let ranked = vec![
        (0usize, Score { point: 9, trading_volume: 0 }),
        (1usize, Score { point: 8, trading_volume: 0 }),
        (2usize, Score { point: 7, trading_volume: 0 }),
        (3usize, Score { point: 0, trading_volume: 0 }),
    ];
    let held = vec![Holding {
        stock_id: "b".to_owned(),
        hold_date: Date::from_ymd(2021, 6, 1),
        num: 1,
    }];
    // Capacity 2 with one already held: only the best unheld symbol fits.
    let picked = select_ranked(&stock_list, &ranked, &held, 2);
    assert_eq!(picked, vec!["a".to_owned()]);
    // With room, the zero score still stops the walk.
    let picked = select_ranked(&stock_list, &ranked, &held, 5);
    assert_eq!(picked, vec!["a".to_owned(), "c".to_owned()]);
}

#[test]
fn csv_listing_yields_first_fields() {
    let buf = b"stock_id,name\n0050,alpha\n2330,beta\n".to_vec();
    let ids = parse_stock_list(&buf).unwrap();
    assert_eq!(ids, vec!["0050".to_owned(), "2330".to_owned()]);
}

#[test]
fn response_status_classification() {
    assert!(classify_response_status(200).is_ok());
    assert!(matches!(
        classify_response_status(400),
        Err(CrawlerError::BadRequest)
    ));
    assert!(matches!(
        classify_response_status(402),
        Err(CrawlerError::RateLimitReached)
    ));
    assert!(matches!(
        classify_response_status(500),
        Err(CrawlerError::Unknown)
    ));
}

#[test]
fn fetch_directives_follow_the_retry_policy() {
    assert_eq!(fetch_directive(&Ok(Vec::new())), FetchDirective::StoreRecords);
    assert_eq!(
        fetch_directive(&Err(CrawlerError::RateLimitReached)),
        FetchDirective::RetryAfterPause
    );
    assert_eq!(
        fetch_directive(&Err(CrawlerError::BadRequest)),
        FetchDirective::Abort
    );
}

#[test]
fn defaults_match_the_documented_values() {
    let config = Config::default();
    assert!(config.db_path.is_empty());
    assert!(config.portfolio_path.is_empty());
    assert!(config.finmind_token.is_empty());

    let portfolio = Portfolio::default();
    assert_eq!(portfolio.date, Date::from_ymd(1970, 1, 1));
    assert!(portfolio.stocks_selected.is_empty());
    assert!(portfolio.stocks_hold.is_empty());
    assert!(portfolio.stocks_settled.is_empty());
    assert_eq!(portfolio.liquidity, 0);

    let record = RawData::default();
    assert_eq!(record.date, Date::from_ymd(1970, 1, 1));
    assert_eq!(record.high, 0);

    let finmind = Finmind::new("SECRET-REDACTED");
    assert_eq!(finmind.token(), "SECRET-REDACTED");
}
