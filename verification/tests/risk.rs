//! Portfolio accounting, the Hamiltonian monitor, the circuit breaker
//! and position sizing.

use czero::circuit_breaker::CircuitBreaker;
use czero::fixed::{Fixed, SCALE};
use czero::hamiltonian::{calculate_correlation_penalty, calculate_hamiltonian_energy,
    check_lyapunov_stability};
use czero::portfolio::PortfolioManager;
use czero::position_sizing::calculate_position_size;
use czero::types::{CircuitBreakerState, OrderType, Side, Symbol, TradeSignal, Venue};

fn fx(m: i128) -> Fixed {
    Fixed::try_from_mantissa(m).unwrap()
}

fn units(u: i64) -> Fixed {
    Fixed::from_units(u).unwrap()
}

fn btc() -> Symbol {
    Symbol(String::from("BTC/USD"))
}

fn binance() -> Venue {
    Venue(String::from("binance"))
}

#[test]
fn fills_average_in_and_close_out() {
    let mut pm = PortfolioManager::new(units(10_000));
    pm.update_position(&btc(), &binance(), Side::Buy, units(1), units(100)).unwrap();
    pm.update_position(&btc(), &binance(), Side::Buy, units(1), units(120)).unwrap();
    {
        let pos = pm.get_position(&btc()).unwrap();
        assert_eq!(pos.quantity, units(2));
        assert_eq!(pos.entry_price, units(110)); // volume-weighted
        assert_eq!(pos.current_price, units(120));
    }
    pm.update_position(&btc(), &binance(), Side::Sell, units(2), units(115)).unwrap();
    assert!(pm.get_position(&btc()).is_none()); // closed and removed
    assert_eq!(pm.realized_pnl(), units(10)); // (115 - 110) * 2
    assert_eq!(pm.portfolio().equity, units(10_010));
    assert_eq!(pm.portfolio().total_exposure, fx(0));
}

#[test]
fn partial_reduction_books_profit_and_keeps_the_entry() {
    let mut pm = PortfolioManager::new(units(10_000));
    pm.update_position(&btc(), &binance(), Side::Buy, units(2), units(100)).unwrap();
    pm.update_position(&btc(), &binance(), Side::Sell, units(1), units(110)).unwrap();
    let pos = pm.get_position(&btc()).unwrap();
    assert_eq!(pos.quantity, units(1));
    assert_eq!(pos.entry_price, units(100));
    assert_eq!(pos.current_price, units(110));
    assert_eq!(pm.realized_pnl(), units(10)); // (110 - 100) * 1
}

#[test]
fn short_positions_use_the_opposite_sign() {
    let mut pm = PortfolioManager::new(units(10_000));
    pm.update_position(&btc(), &binance(), Side::Sell, units(1), units(100)).unwrap();
    pm.update_position(&btc(), &binance(), Side::Buy, units(1), units(90)).unwrap();
    assert!(pm.get_position(&btc()).is_none());
    assert_eq!(pm.realized_pnl(), units(10)); // entry 100, bought back at 90
}

#[test]
fn mark_to_market_recomputes_unrealized_profit_and_equity() {
    let mut pm = PortfolioManager::new(units(10_000));
    pm.update_position(&btc(), &binance(), Side::Buy, units(2), units(100)).unwrap();
    pm.update_prices(&vec![(btc(), units(105))]).unwrap();
    let pos = pm.get_position(&btc()).unwrap();
    assert_eq!(pos.current_price, units(105));
    assert_eq!(pos.unrealized_pnl, units(10)); // (105 - 100) * 2
    assert_eq!(pm.portfolio().equity, units(10_010));
    assert_eq!(pm.portfolio().total_exposure, units(210));
    // leverage = 210 / 10010
    assert_eq!(
        pm.portfolio().leverage,
        fx(210i128 * SCALE * SCALE / (10_010 * SCALE))
    );
}

#[test]
fn derived_fields_stay_consistent_across_mutations() {
    let mut pm = PortfolioManager::new(units(1_000));
    pm.update_position(&btc(), &binance(), Side::Buy, units(1), units(100)).unwrap();
    pm.update_position(
        &Symbol(String::from("ETH/USD")),
        &binance(),
        Side::Sell,
        units(2),
        units(50),
    ).unwrap();
    let p = pm.portfolio();
    assert_eq!(p.total_exposure, units(200));
    assert_eq!(p.net_exposure, fx(0)); // 100 long, 100 short
    assert!(p.positions.iter().all(|q| q.quantity.is_positive()));
}

#[test]
fn energy_counts_the_concentrated_side() {
    let mut pm = PortfolioManager::new(units(1_000));
    pm.update_position(&btc(), &binance(), Side::Buy, units(1), units(100)).unwrap();
    let p = pm.portfolio();
    let penalty = calculate_correlation_penalty(p).unwrap();
    assert_eq!(penalty, fx(10_000_000_000_000)); // one long: 0.1
    let energy = calculate_hamiltonian_energy(p).unwrap();
    // leverage 0.1: (0.01 + 0.1) / 2 = 0.055
    assert_eq!(energy, fx(5_500_000_000_000));
    assert_eq!(p.energy, energy);
    assert!(!check_lyapunov_stability(p)); // far above the 1e-12 threshold
    let flat = PortfolioManager::new(units(1_000));
    assert!(check_lyapunov_stability(flat.portfolio()));
}

#[test]
fn drawdown_trips_and_latches_the_breaker() {
    let mut breaker = CircuitBreaker::new(fx(3_000_000_000_000), 0); // 3%
    let healthy = PortfolioManager::new(units(10_000));
    breaker.record_snapshot(healthy.portfolio(), 0);
    assert_eq!(breaker.check(healthy.portfolio()), CircuitBreakerState::Normal);
    let drawn = PortfolioManager::new(units(9_690)); // drawdown -0.031
    assert_eq!(breaker.check(drawn.portfolio()), CircuitBreakerState::Tripped);
    // a later healthy check cannot untrip it
    assert_eq!(breaker.check(healthy.portfolio()), CircuitBreakerState::Tripped);
    assert_eq!(breaker.state(), CircuitBreakerState::Tripped);
    breaker.reset(1);
    assert_eq!(breaker.state(), CircuitBreakerState::Normal);
}

#[test]
fn leverage_and_energy_drive_warning_and_trip() {
    let mut breaker = CircuitBreaker::new(fx(3_000_000_000_000), 0);
    let mut pm = PortfolioManager::new(units(10_000));
    pm.update_position(&btc(), &binance(), Side::Buy, units(1), units(100)).unwrap();
    // energy above threshold, no trip condition: warning only
    assert_eq!(breaker.check(pm.portfolio()), CircuitBreakerState::Warning);
    // and back to normal on a flat portfolio
    let flat = PortfolioManager::new(units(10_000));
    assert_eq!(breaker.check(flat.portfolio()), CircuitBreakerState::Normal);
    // raw leverage above the cap trips
    let mut leveraged = flat.portfolio().clone();
    leveraged.leverage = fx(350_000_000_000_000);
    assert_eq!(breaker.check(&leveraged), CircuitBreakerState::Tripped);
}

#[test]
fn snapshots_purge_after_a_day() {
    let mut breaker = CircuitBreaker::new(fx(3_000_000_000_000), 0);
    let pm = PortfolioManager::new(units(10_000));
    breaker.record_snapshot(pm.portfolio(), 0);
    breaker.record_snapshot(pm.portfolio(), 1_000);
    assert_eq!(breaker.history.len(), 2);
    breaker.record_snapshot(pm.portfolio(), 86_400_500);
    assert_eq!(breaker.history.len(), 2); // the oldest fell out of the day window
    assert_eq!(breaker.history[0].0, 1_000);
}

#[test]
fn sizing_respects_budget_certainty_and_caps() {
    let pm = PortfolioManager::new(units(10_000));
    let signal = TradeSignal {
        symbol: btc(),
        venue: binance(),
        side: Side::Buy,
        order_type: OrderType::Limit,
        quantity: fx(0),
        limit_price: Some(units(50_000)),
        stop_price: None,
        timestamp: 0,
        contradiction_score: fx(0),
        entropy_count: fx(0),
    };
    // 10000 * 1% / 2% / 50000 = 0.1
    assert_eq!(
        calculate_position_size(&signal, pm.portfolio(), fx(SCALE)),
        fx(10_000_000_000_000)
    );
    // half certainty halves the size
    assert_eq!(
        calculate_position_size(&signal, pm.portfolio(), fx(SCALE / 2)),
        fx(5_000_000_000_000)
    );
    // a cheap limit price hits the per-symbol cap
    let mut cheap = signal.clone();
    cheap.limit_price = Some(fx(SCALE / 100)); // 0.01
    assert_eq!(
        calculate_position_size(&cheap, pm.portfolio(), fx(SCALE)),
        Fixed::from_units(10).unwrap()
    );
    // no limit price sizes to zero
    let mut unpriced = signal.clone();
    unpriced.limit_price = None;
    assert_eq!(calculate_position_size(&unpriced, pm.portfolio(), fx(SCALE)), fx(0));
}
