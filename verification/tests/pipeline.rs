//! Attestation, the safety gate, routing, monitoring and the whole
//! proposer/verifier pipeline.

use czero::alerts::{AlertManager, AlertReport};
use czero::fixed::{Fixed, SCALE};
use czero::monitoring::SystemMonitor;
use czero::routing::OrderRouter;
use czero::safety::{SafetyChecker, SafetyError};
use czero::signals::SignalGenerator;
use czero::signature::{canonical_order_bytes, CZeroSignature, SignatureError};
use czero::types::{
    BookLevel, CircuitBreakerState, OrderBook, OrderType, Portfolio, Side, Symbol, TradeSignal,
    Venue,
};
use czero::verification::Verifier;
use sha3::Digest;

fn fx(m: i128) -> Fixed {
    Fixed::try_from_mantissa(m).unwrap()
}

fn units(u: i64) -> Fixed {
    Fixed::from_units(u).unwrap()
}

fn flat_portfolio(equity_units: i64) -> Portfolio {
    Portfolio {
        equity: units(equity_units),
        positions: Vec::new(),
        total_exposure: fx(0),
        net_exposure: fx(0),
        leverage: fx(0),
        energy: fx(0),
        correlation_matrix: Vec::new(),
    }
}

fn verified_order() -> czero::types::VerifiedOrder {
    let p = flat_portfolio(10_000);
    let s = TradeSignal {
        symbol: Symbol(String::from("BTC/USD")),
        venue: Venue(String::from("binance")),
        side: Side::Buy,
        order_type: OrderType::Limit,
        quantity: fx(100_000_000_000), // 0.001
        limit_price: Some(units(50_000)),
        stop_price: None,
        timestamp: 1_700_000_000_000,
        contradiction_score: fx(6_000_000_000_000),
        entropy_count: fx(0),
    };
    Verifier::new().verify_signal(&s, &p, 1_700_000_000_500).unwrap()
}

fn signing_key() -> Vec<u8> {
    vec![7u8; 32]
}

#[test]
fn attestation_signs_and_verifies() {
    let order = verified_order();
    let att = CZeroSignature::sign(&order, &signing_key(), 99);
    assert_eq!(att.timestamp, 99);
    assert_eq!(att.verifying_key.len(), 32);
    assert_eq!(att.signature.len(), 64);
    assert_eq!(att.verify(&order), Ok(()));
    assert!(att.verify_accepts(&order));
}

#[test]
fn attestation_matches_the_primitives() {
    // the stored digest is SHA3-256 of the canonical bytes, in hex,
    // and the signature verifies under ed25519 for the exact message
    let order = verified_order();
    let att = CZeroSignature::sign(&order, &signing_key(), 0);
    let canon = canonical_order_bytes(&order);
    let digest = sha3::Sha3_256::digest(&canon);
    let mut expected = String::new();
    for b in digest.iter() {
        expected.push_str(&format!("{:02x}", b));
    }
    assert_eq!(att.order_hash, expected.as_bytes().to_vec());
    let mut message = att.order_hash.clone();
    message.push(b':');
    message.extend_from_slice(&order.proof_signature);
    message.push(b':');
    message.extend_from_slice(format!("{}", order.verified_at / 1000).as_bytes());
    let vk = ed25519_dalek::VerifyingKey::from_bytes(
        <&[u8; 32]>::try_from(att.verifying_key.as_slice()).unwrap(),
    )
    .unwrap();
    let sig = ed25519_dalek::Signature::from_bytes(
        <&[u8; 64]>::try_from(att.signature.as_slice()).unwrap(),
    );
    assert!(ed25519_dalek::Verifier::verify(&vk, &message, &sig).is_ok());
}

#[test]
fn any_drift_breaks_verification() {
    let order = verified_order();
    let att = CZeroSignature::sign(&order, &signing_key(), 0);
    // a flipped signature bit
    let mut bad_sig = att.clone();
    bad_sig.signature[0] ^= 1;
    assert_eq!(bad_sig.verify(&order), Err(SignatureError::VerificationFailed));
    // a drifted signal field
    let mut tampered = verified_order();
    tampered.signal.quantity = fx(200_000_000_000);
    assert_eq!(att.verify(&tampered), Err(SignatureError::VerificationFailed));
    // a drifted verification time
    let mut late = verified_order();
    late.verified_at += 1_000;
    assert_eq!(att.verify(&late), Err(SignatureError::VerificationFailed));
    // malformed key and signature material
    let mut bad_key = att.clone();
    bad_key.verifying_key.pop();
    assert_eq!(bad_key.verify(&order), Err(SignatureError::InvalidKey));
    let mut short_sig = att.clone();
    short_sig.signature.pop();
    assert_eq!(short_sig.verify(&order), Err(SignatureError::InvalidSignature));
}

#[test]
fn the_gate_checks_size_price_attestation_and_breaker() {
    let order = verified_order();
    let att = CZeroSignature::sign(&order, &signing_key(), 0);
    assert_eq!(
        SafetyChecker::check_order(&order, &att, CircuitBreakerState::Normal),
        Ok(())
    );
    assert_eq!(
        SafetyChecker::check_order(&order, &att, CircuitBreakerState::Tripped),
        Err(SafetyError::CircuitBreakerTripped)
    );
    let mut wrong = att.clone();
    wrong.signature[5] ^= 0xff;
    assert_eq!(
        SafetyChecker::check_order(&order, &wrong, CircuitBreakerState::Normal),
        Err(SafetyError::VerificationFailed)
    );
    let mut big = verified_order();
    big.signal.quantity = units(2); // over the 1 BTC order cap
    assert_eq!(
        SafetyChecker::check_order_size(&big.signal),
        Err(SafetyError::OrderSizeExceeded { size: units(2), max: units(1) })
    );
    let mut zero = verified_order();
    zero.signal.quantity = fx(0);
    assert_eq!(
        SafetyChecker::check_order_size(&zero.signal),
        Err(SafetyError::InvalidQuantity)
    );
    let mut alien = verified_order();
    alien.signal.symbol = Symbol(String::from("DOGE/USD"));
    assert_eq!(
        SafetyChecker::check_order_size(&alien.signal),
        Err(SafetyError::UnsupportedSymbol)
    );
    let mut cheap = verified_order();
    cheap.signal.limit_price = Some(fx(-1));
    assert_eq!(
        SafetyChecker::check_price(&cheap.signal),
        Err(SafetyError::InvalidPrice)
    );
    let mut offshore = verified_order();
    offshore.signal.venue = Venue(String::from("backalley"));
    assert_eq!(
        SafetyChecker::check_order(&offshore, &att, CircuitBreakerState::Normal),
        Err(SafetyError::UnsupportedVenue)
    );
}

#[test]
fn orders_route_to_their_venue() {
    let order = verified_order();
    let router = OrderRouter;
    let routes = router.route_order(order);
    assert_eq!(routes.len(), 1);
    assert_eq!(routes[0].0 .0, "binance");
    assert_eq!(routes[0].1.signal.venue.0, "binance");
}

#[test]
fn the_pipeline_rejects_what_it_cannot_prove() {
    // the sample book proposes (contradiction 1, spread ~1%), but the
    // entropy of any proposable book exceeds the stability threshold,
    // so verification rejects and the rejection is counted
    let mut generator = SignalGenerator::new();
    let book = OrderBook {
        symbol: Symbol(String::from("BTC/USD")),
        venue: Venue(String::from("binance")),
        bids: vec![BookLevel { price: units(100), quantity: units(1) }],
        asks: vec![BookLevel { price: units(101), quantity: units(1) }],
        timestamp: 0,
        sequence: 1,
    };
    let portfolio = flat_portfolio(10_000);
    let out = generator
        .generate_signal(
            &Symbol(String::from("BTC/USD")),
            &Venue(String::from("binance")),
            &book,
            &portfolio,
            5,
        )
        .unwrap();
    assert!(out.is_none());
    assert_eq!(generator.proposer.total_proposals, 1);
    assert_eq!(generator.proposer.hallucination_count, 1);
    assert_eq!(generator.hallucination_rate(), fx(SCALE)); // every proposal rejected
}

#[test]
fn quiet_books_propose_nothing() {
    let mut generator = SignalGenerator::new();
    let book = OrderBook {
        symbol: Symbol(String::from("BTC/USD")),
        venue: Venue(String::from("binance")),
        bids: Vec::new(),
        asks: Vec::new(),
        timestamp: 0,
        sequence: 1,
    };
    let portfolio = flat_portfolio(10_000);
    let out = generator
        .generate_signal(
            &Symbol(String::from("BTC/USD")),
            &Venue(String::from("binance")),
            &book,
            &portfolio,
            5,
        )
        .unwrap();
    assert!(out.is_none());
    assert_eq!(generator.proposer.hallucination_count, 0);
    assert_eq!(generator.hallucination_rate(), fx(0));
}

#[test]
fn latency_percentiles_by_sort_and_index() {
    let mut monitor = SystemMonitor::new(100);
    assert_eq!(monitor.latency_percentiles(), (0, 0, 0));
    for sample in [5u64, 1, 9, 3] {
        monitor.record_latency(sample);
    }
    assert_eq!(monitor.latency_percentiles(), (5, 9, 9));
}

#[test]
fn latency_ring_is_bounded() {
    let mut monitor = SystemMonitor::new(2);
    monitor.record_latency(1);
    monitor.record_latency(2);
    monitor.record_latency(3);
    assert_eq!(monitor.latency_samples.len(), 2);
    assert_eq!(monitor.latency_samples[0], 2);
}

#[test]
fn health_snapshots_carry_their_inputs() {
    let mut monitor = SystemMonitor::new(10);
    monitor.record_latency(150);
    let health = monitor.generate_health_snapshot(
        fx(0),
        fx(50),
        CircuitBreakerState::Normal,
        fx(0),
        77,
    );
    assert_eq!(health.timestamp, 77);
    assert_eq!(health.latency_p99, 150);
    assert_eq!(health.circuit_breaker, CircuitBreakerState::Normal);
    let current = monitor.current_health().unwrap();
    assert_eq!(current.timestamp, 77);
}

#[test]
fn alerts_are_derived_predicates() {
    let mut monitor = SystemMonitor::new(10);
    monitor.record_latency(150);
    let health = monitor.generate_health_snapshot(
        fx(1),
        fx(1_000),
        CircuitBreakerState::Tripped,
        fx(20_000_000_000), // 2e-4, over the 1e-4 cap
        0,
    );
    let report = AlertManager.check_anomalies(&health);
    assert_eq!(
        report,
        AlertReport {
            contradiction_detected: true,
            high_entropy: true,
            breaker_tripped: true,
            high_hallucination_rate: true,
            high_latency: true,
        }
    );
    let quiet = SystemMonitor::new(10).generate_health_snapshot(
        fx(0),
        fx(0),
        CircuitBreakerState::Normal,
        fx(0),
        0,
    );
    let report = AlertManager.check_anomalies(&quiet);
    assert!(!report.contradiction_detected && !report.high_entropy && !report.breaker_tripped);
}
