//! Order-book construction, derived features and normalization.

use czero::errors::{IngestionError, NormalizationError};
use czero::features::FeatureCalculator;
use czero::fixed::{Fixed, SCALE};
use czero::normalization::{
    calculate_depth_imbalance, calculate_mid_price, calculate_spread, calculate_spread_pct,
    normalize_price, normalize_side, normalize_tick, normalize_timestamp, tick_to_doc,
};
use czero::orderbook::OrderBookBuilder;
use czero::types::{
    BookLevel, BookSnapshotDoc, FieldValue, OrderBook, Side, Symbol, Tick, TickDoc, Venue,
};

fn fx(m: i128) -> Fixed {
    Fixed::try_from_mantissa(m).unwrap()
}

fn level(price_units: i64, qty_units: i64) -> BookLevel {
    BookLevel {
        price: Fixed::from_units(price_units).unwrap(),
        quantity: Fixed::from_units(qty_units).unwrap(),
    }
}

fn sample_book() -> OrderBook {
    OrderBook {
        symbol: Symbol(String::from("BTC/USD")),
        venue: Venue(String::from("binance")),
        bids: vec![level(100, 1), level(99, 2)],
        asks: vec![level(101, 1), level(102, 2)],
        timestamp: 0,
        sequence: 1,
    }
}

#[test]
fn mid_spread_and_imbalance_of_the_sample_book() {
    let book = sample_book();
    assert_eq!(calculate_mid_price(&book).unwrap(), fx(100 * SCALE + SCALE / 2)); // 100.5
    assert_eq!(calculate_spread(&book).unwrap(), fx(SCALE)); // 1
    assert_eq!(
        calculate_spread_pct(&book).unwrap().unwrap(),
        fx(99_502_487_562_100) // 0.995024875621 percent
    );
    assert_eq!(calculate_depth_imbalance(&book).unwrap(), fx(0)); // (3-3)/6
}

#[test]
fn liquidity_contradiction_and_entropy_of_the_sample_book() {
    let book = sample_book();
    let calc = FeatureCalculator::new(1000);
    // (298 + 305) / 2 = 301.5
    assert_eq!(
        calc.calculate_cex_liquidity(&book).unwrap(),
        fx(301 * SCALE + SCALE / 2)
    );
    // |0 - 301.5| / 301.5 = 1
    assert_eq!(
        calc.calculate_contradiction_score(&book, fx(0)).unwrap(),
        fx(SCALE)
    );
    // imbalance is zero, so entropy equals the spread percentage
    assert_eq!(calc.calculate_entropy(&book).unwrap(), fx(99_502_487_562_100));
}

#[test]
fn volatility_of_a_small_history() {
    let mut calc = FeatureCalculator::new(1000);
    assert_eq!(
        calc.calculate_volatility(Fixed::from_units(100).unwrap()).unwrap(),
        fx(0)
    );
    // a single return has zero variance
    assert_eq!(
        calc.calculate_volatility(Fixed::from_units(110).unwrap()).unwrap(),
        fx(0)
    );
    // returns 0.1 and -10/110; population variance, annualized by 724
    let v = calc
        .calculate_volatility(Fixed::from_units(100).unwrap())
        .unwrap();
    assert_eq!(v, fx(6_910_909_090_907_248));
}

#[test]
fn rsi_of_a_short_series() {
    let calc = FeatureCalculator::new(1000);
    let prices = vec![
        Fixed::from_units(100).unwrap(),
        Fixed::from_units(110).unwrap(),
        Fixed::from_units(105).unwrap(),
        Fixed::from_units(115).unwrap(),
    ];
    assert_eq!(
        calc.calculate_rsi(&prices, 2).unwrap().unwrap(),
        fx(80 * SCALE)
    );
    assert!(calc.calculate_rsi(&prices, 4).unwrap().is_none());
    // all gains: pinned to one hundred
    let rising = vec![
        Fixed::from_units(1).unwrap(),
        Fixed::from_units(2).unwrap(),
        Fixed::from_units(3).unwrap(),
    ];
    assert_eq!(
        calc.calculate_rsi(&rising, 1).unwrap().unwrap(),
        fx(100 * SCALE)
    );
}

#[test]
fn snapshot_builds_a_sorted_book() {
    let mut builder = OrderBookBuilder::new(
        Symbol(String::from("BTC/USD")),
        Venue(String::from("binance")),
    );
    let doc = BookSnapshotDoc {
        bids: Some(vec![
            (FieldValue::Text(b"99".to_vec()), FieldValue::Text(b"2".to_vec())),
            (FieldValue::Text(b"100".to_vec()), FieldValue::Text(b"1".to_vec())),
            (FieldValue::Text(b"98".to_vec()), FieldValue::Text(b"0".to_vec())),
        ]),
        asks: Some(vec![
            (FieldValue::Text(b"102".to_vec()), FieldValue::Text(b"2".to_vec())),
            (FieldValue::Text(b"101".to_vec()), FieldValue::Text(b"1".to_vec())),
        ]),
    };
    let book = builder.from_snapshot(&doc, 7).unwrap();
    assert_eq!(book.sequence, 1);
    assert_eq!(book.timestamp, 7);
    assert_eq!(book.bids, vec![level(100, 1), level(99, 2)]); // zero-quantity level dropped
    assert_eq!(book.asks, vec![level(101, 1), level(102, 2)]);
    let book2 = builder.from_snapshot(&doc, 8).unwrap();
    assert_eq!(book2.sequence, 2); // strictly increasing
}

#[test]
fn crossed_and_duplicate_books_are_refused() {
    let mut builder = OrderBookBuilder::new(
        Symbol(String::from("BTC/USD")),
        Venue(String::from("binance")),
    );
    let crossed = BookSnapshotDoc {
        bids: Some(vec![(FieldValue::Text(b"102".to_vec()), FieldValue::Text(b"1".to_vec()))]),
        asks: Some(vec![(FieldValue::Text(b"101".to_vec()), FieldValue::Text(b"1".to_vec()))]),
    };
    assert!(matches!(
        builder.from_snapshot(&crossed, 0),
        Err(IngestionError::InvalidFormat(_))
    ));
    let duplicated = BookSnapshotDoc {
        bids: Some(vec![
            (FieldValue::Text(b"100".to_vec()), FieldValue::Text(b"1".to_vec())),
            (FieldValue::Text(b"100".to_vec()), FieldValue::Text(b"2".to_vec())),
        ]),
        asks: Some(vec![]),
    };
    assert!(matches!(
        builder.from_snapshot(&duplicated, 0),
        Err(IngestionError::InvalidFormat(_))
    ));
    assert_eq!(builder.sequence, 0); // failures advance nothing
}

#[test]
fn stale_updates_are_rejected() {
    let mut builder = OrderBookBuilder::new(
        Symbol(String::from("BTC/USD")),
        Venue(String::from("binance")),
    );
    let doc = BookSnapshotDoc {
        bids: Some(vec![(FieldValue::Text(b"100".to_vec()), FieldValue::Text(b"1".to_vec()))]),
        asks: Some(vec![(FieldValue::Text(b"101".to_vec()), FieldValue::Text(b"1".to_vec()))]),
    };
    let mut book = builder.from_snapshot(&doc, 0).unwrap();
    assert!(builder.apply_update(&mut book, 1, 5).is_err()); // not beyond 1
    assert_eq!(book.sequence, 1);
    assert!(builder.apply_update(&mut book, 2, 5).is_ok());
    assert_eq!(book.sequence, 2);
    assert!(builder.apply_update(&mut book, 2, 6).is_err());
    assert_eq!(book.sequence, 2);
    // the builder's own counter follows updates, so a later snapshot
    // still lands strictly beyond everything already applied
    assert!(builder.apply_update(&mut book, 10, 7).is_ok());
    let next = builder.from_snapshot(&doc, 9).unwrap();
    assert_eq!(next.sequence, 11);
}

#[test]
fn price_fields_normalize_exactly() {
    assert_eq!(
        normalize_price(&FieldValue::Text(b"50000".to_vec())).unwrap(),
        Fixed::from_units(50_000).unwrap()
    );
    assert_eq!(
        normalize_price(&FieldValue::Integer(3)).unwrap(),
        Fixed::from_units(3).unwrap()
    );
    assert!(matches!(
        normalize_price(&FieldValue::Text(b"abc".to_vec())),
        Err(NormalizationError::ParseError(_))
    ));
    assert!(matches!(
        normalize_price(&FieldValue::Integer(200_000)),
        Err(NormalizationError::ParseError(_))
    ));
    assert!(matches!(
        normalize_price(&FieldValue::Other),
        Err(NormalizationError::InvalidType(_))
    ));
}

#[test]
fn timestamps_accept_epoch_and_rfc3339() {
    assert_eq!(
        normalize_timestamp(&FieldValue::Integer(1_609_459_200_000)).unwrap(),
        1_609_459_200_000
    );
    assert_eq!(
        normalize_timestamp(&FieldValue::Text(b"2021-01-01T00:00:00Z".to_vec())).unwrap(),
        1_609_459_200_000
    );
    assert_eq!(
        normalize_timestamp(&FieldValue::Text(b"2021-01-01T01:00:00+01:00".to_vec())).unwrap(),
        1_609_459_200_000
    );
    assert!(normalize_timestamp(&FieldValue::Text(b"yesterday".to_vec())).is_err());
}

#[test]
fn sides_are_case_insensitive() {
    assert_eq!(normalize_side("BUY").unwrap(), Side::Buy);
    assert_eq!(normalize_side("buy").unwrap(), Side::Buy);
    assert_eq!(normalize_side("b").unwrap(), Side::Buy);
    assert_eq!(normalize_side("1").unwrap(), Side::Buy);
    assert_eq!(normalize_side("sell").unwrap(), Side::Sell);
    assert_eq!(normalize_side("S").unwrap(), Side::Sell);
    assert_eq!(normalize_side("2").unwrap(), Side::Sell);
    assert!(normalize_side("hold").is_err());
}

#[test]
fn tick_serialization_round_trips() {
    let tick = Tick {
        symbol: Symbol(String::from("ETH/USD")),
        venue: Venue(String::from("bybit")),
        price: fx(250_000_000_000_001), // 2.50000000000001
        quantity: fx(5_000_000_000_000), // 0.05
        timestamp: 1_700_000_000_123,
        side: Side::Sell,
    };
    let doc = tick_to_doc(&tick);
    let back = normalize_tick(&doc, &tick.venue).unwrap();
    assert_eq!(back.symbol.0, tick.symbol.0);
    assert_eq!(back.venue.0, tick.venue.0);
    assert_eq!(back.price, tick.price);
    assert_eq!(back.quantity, tick.quantity);
    assert_eq!(back.timestamp, tick.timestamp);
    assert_eq!(back.side, tick.side);
}

#[test]
fn tick_normalization_rejects_bad_documents() {
    let venue = Venue(String::from("binance"));
    let good = TickDoc {
        symbol: Some(String::from("BTC/USD")),
        price: FieldValue::Text(b"100".to_vec()),
        quantity: FieldValue::Text(b"1".to_vec()),
        timestamp: FieldValue::Integer(0),
        side: Some(String::from("BUY")),
    };
    assert!(normalize_tick(&good, &venue).is_ok());
    let mut missing = good.clone();
    missing.symbol = None;
    assert!(matches!(
        normalize_tick(&missing, &venue),
        Err(IngestionError::InvalidFormat(_))
    ));
    let mut negative = good.clone();
    negative.price = FieldValue::Text(b"-1".to_vec());
    assert!(matches!(
        normalize_tick(&negative, &venue),
        Err(IngestionError::InvalidFormat(_))
    ));
    let mut bad_qty = good.clone();
    bad_qty.quantity = FieldValue::Other;
    assert!(matches!(
        normalize_tick(&bad_qty, &venue),
        Err(IngestionError::Normalization(NormalizationError::InvalidType(_)))
    ));
}
