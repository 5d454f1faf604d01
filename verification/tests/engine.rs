use veronica::bollinger_band::{analyze_views, settle_check_views, suffix_from_date};
use veronica::date::Date;
use veronica::schema::RawData;
use veronica::view::{transform_with_period, BollingerBandView, Error as ViewError};

fn day(year: u32, month: u32, dayn: u32) -> Date {
    Date::from_ymd(year, month, dayn)
}

fn record(high: u32, low: u32, close: u32, date: Date, volume: u64) -> RawData {
    RawData {
        open: 0,
        high,
        low,
        close,
        spread: 0,
        date,
        trading_volume: volume,
        trading_money: 0,
    }
}

/// An indicator view whose window statistics are chosen directly.
fn view(
    high: u32,
    low: u32,
    close: u32,
    date: Date,
    volume: u64,
    price_sum: u64,
    price_square_sum: u128,
) -> BollingerBandView {
    BollingerBandView {
        open: 0,
        high,
        low,
        close,
        date,
        volume,
        price_sum,
        price_square_sum,
    }
}

#[test]
fn window_shorter_than_period_yields_no_views() {
    let mut records = Vec::new();
    for i in 0..19u32 {
        records.push(record(10, 5, 6, day(2021, 1, 1 + i % 28), 1));
    }
    let views = transform_with_period(&records, 20).unwrap();
    assert_eq!(views.len(), 0);

    records.push(record(10, 5, 6, day(2021, 2, 1), 1));
    let views = transform_with_period(&records, 20).unwrap();
    assert_eq!(views.len(), 1);
}

#[test]
fn zero_period_is_rejected() {
    let records = vec![record(10, 5, 6, day(2021, 1, 1), 1)];
    assert!(matches!(transform_with_period(&records, 0), Err(ViewError::BadPeriod)));
}

#[test]
fn rolling_sums_are_exact() {
    // Representative triples 12, 30, 60, 24 over a window of three.
    let records = vec![
        record(5, 4, 3, day(2021, 1, 4), 7),
        record(10, 12, 8, day(2021, 1, 5), 8),
        record(20, 30, 10, day(2021, 1, 6), 9),
        record(10, 8, 6, day(2021, 1, 7), 11),
    ];
    let views = transform_with_period(&records, 3).unwrap();
    assert_eq!(views.len(), 2);
    assert_eq!(views[0].price_sum, 12 + 30 + 60);
    assert_eq!(views[0].price_square_sum, 12 * 12 + 30 * 30 + 60 * 60);
    assert_eq!(views[0].date, day(2021, 1, 6));
    assert_eq!(views[0].high, 20);
    assert_eq!(views[0].volume, 9);
    assert_eq!(views[1].price_sum, 30 + 60 + 24);
    assert_eq!(views[1].price_square_sum, 30 * 30 + 60 * 60 + 24 * 24);
    assert_eq!(views[1].date, day(2021, 1, 7));
}

/// Eight views with zero window variance, every day on the band's lower
/// edge, and a 7 percent rise of the mean over the window: every day in
/// the zone, so the score is the full rise.
fn rising_views(assess: Date) -> Vec<BollingerBandView> {
    let mut views = Vec::new();
    for i in 0..8u32 {
        let rep3 = 100 + i;
        let sum = (3000 + 30 * i) as u64;
        let square_sum = (30 * (100 + i as u128) * (100 + i as u128)) as u128;
        let date = if i == 7 { assess } else { day(2021, 6, 1 + i) };
        views.push(view(50, 30, rep3 - 80, date, 40 + i as u64, sum, square_sum));
    }
    views
}

#[test]
fn analyze_scores_a_rising_band_window() {
    let assess = day(2021, 6, 9);
    let views = rising_views(assess);
    let score = analyze_views(&views, assess);
    assert_eq!(score.point, 7);
    assert_eq!(score.trading_volume, 47);
}

#[test]
fn analyze_is_neutral_without_enough_views() {
    let assess = day(2021, 6, 9);
    let mut views = rising_views(assess);
    views.remove(0);
    let score = analyze_views(&views, assess);
    assert_eq!(score.point, 0);
    assert_eq!(score.trading_volume, 0);
}

#[test]
fn analyze_is_neutral_when_dates_mismatch() {
    let assess = day(2021, 6, 9);
    let views = rising_views(assess);
    let score = analyze_views(&views, day(2021, 6, 10));
    assert_eq!(score.point, 0);
    assert_eq!(score.trading_volume, 0);
}

#[test]
fn analyze_is_neutral_when_volatility_rises() {
    let assess = day(2021, 6, 9);
    let mut views = rising_views(assess);
    // Give the oldest view a larger variance than its successors.
    views[0].price_square_sum += 1000;
    let score = analyze_views(&views, assess);
    assert_eq!(score.point, 0);
}

#[test]
fn analyze_is_neutral_without_a_rise() {
    let assess = day(2021, 6, 9);
    let mut views = rising_views(assess);
    for v in views.iter_mut() {
        v.price_sum = 3000;
        v.price_square_sum = 300000;
    }
    let score = analyze_views(&views, assess);
    assert_eq!(score.point, 0);
}

#[test]
fn settle_fires_on_trend_reversal() {
    let assess = day(2021, 6, 9);
    let mut views = rising_views(assess);
    // Window-start mean above the current mean.
    views[0].price_sum = 4000;
    views[0].price_square_sum = 30 * (4000u128 / 30) * (4000 / 30);
    assert!(settle_check_views(&views, assess));
}

#[test]
fn settle_fires_after_three_weak_days() {
    let assess = day(2021, 6, 9);
    let mut views = rising_views(assess);
    for v in views.iter_mut() {
        // Weighted price below the band: low + 3*high small against the mean.
        v.high = 20;
        v.low = 30;
        v.price_sum = 3000;
        v.price_square_sum = 300000;
    }
    assert!(settle_check_views(&views, assess));
}

#[test]
fn settle_stays_quiet_on_a_strong_day() {
    let assess = day(2021, 6, 9);
    let mut views = rising_views(assess);
    for v in views.iter_mut() {
        v.price_sum = 3000;
        v.price_square_sum = 300000;
    }
    // The most recent weighted price sits above the band: no settle.
    assert!(!settle_check_views(&views, assess));
}

#[test]
fn settle_needs_matching_assessment_date() {
    let assess = day(2021, 6, 9);
    let views = rising_views(assess);
    assert!(!settle_check_views(&views, day(2021, 6, 10)));
    assert!(!settle_check_views(&Vec::new(), assess));
}

#[test]
fn suffix_starts_at_first_date_at_or_after() {
    let assess = day(2021, 6, 9);
    let views = rising_views(assess);
    let tail = suffix_from_date(views, day(2021, 6, 3));
    assert_eq!(tail.len(), 6);
    assert_eq!(tail[0].date, day(2021, 6, 3));

    let all = rising_views(assess);
    let tail = suffix_from_date(all, day(2020, 1, 1));
    assert_eq!(tail.len(), 8);

    let none = suffix_from_date(rising_views(assess), day(2022, 1, 1));
    assert_eq!(none.len(), 0);
}
