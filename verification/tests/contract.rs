//! The invariant contract and the verification gate on the
//! specification's concrete scenarios.

use czero::fixed::{Fixed, SCALE};
use czero::invariants::{InvariantViolation, L0InvariantContract};
use czero::types::{OrderType, Portfolio, Side, Symbol, TradeSignal, Venue};
use czero::verification::{resolve_outcome, SmtOutcome, Verifier};

fn fx(m: i128) -> Fixed {
    Fixed::try_from_mantissa(m).unwrap()
}

fn flat_portfolio(equity_units: i64) -> Portfolio {
    Portfolio {
        equity: Fixed::from_units(equity_units).unwrap(),
        positions: Vec::new(),
        total_exposure: fx(0),
        net_exposure: fx(0),
        leverage: fx(0),
        energy: fx(0),
        correlation_matrix: Vec::new(),
    }
}

fn signal(qty_m: i128, limit_units: i64) -> TradeSignal {
    TradeSignal {
        symbol: Symbol(String::from("BTC/USD")),
        venue: Venue(String::from("binance")),
        side: Side::Buy,
        order_type: OrderType::Limit,
        quantity: fx(qty_m),
        limit_price: Some(Fixed::from_units(limit_units).unwrap()),
        stop_price: None,
        timestamp: 1_700_000_000_000,
        contradiction_score: fx(6_000_000_000_000), // 0.06
        entropy_count: fx(0),
    }
}

#[test]
fn oversized_risk_budget_is_rejected() {
    // equity 10000, qty 0.1 at limit 50000: risk 0.5 over the 1% cap
    let p = flat_portfolio(10_000);
    let s = signal(10_000_000_000_000, 50_000);
    assert_eq!(
        L0InvariantContract::verify_signal(&s, &p),
        Err(InvariantViolation::RiskBudgetExceeded)
    );
    let gate = Verifier::new();
    assert_eq!(
        gate.verify_signal(&s, &p, 1).unwrap_err(),
        InvariantViolation::RiskBudgetExceeded
    );
}

#[test]
fn in_budget_signal_verifies() {
    // qty 0.001 at limit 50000: risk 0.005 inside [0.0025, 0.01]
    let p = flat_portfolio(10_000);
    let s = signal(100_000_000_000, 50_000);
    assert_eq!(L0InvariantContract::verify_signal(&s, &p), Ok(()));
    let gate = Verifier::new();
    let order = gate.verify_signal(&s, &p, 42).unwrap();
    assert!(order.proof.satisfiable);
    assert_eq!(order.proof.axioms_satisfied.len(), 4);
    assert_eq!(order.verified_at, 42);
    assert_eq!(order.proof_signature, b"C=0:".to_vec());
    assert_eq!(order.signal.quantity, s.quantity);
}

#[test]
fn excess_leverage_fails_before_the_solver() {
    let mut p = flat_portfolio(10_000);
    p.leverage = fx(350_000_000_000_000); // 3.5
    let s = signal(100_000_000_000, 50_000);
    assert_eq!(
        L0InvariantContract::verify_signal(&s, &p),
        Err(InvariantViolation::LeverageExceeded {
            current: fx(350_000_000_000_000),
            max: fx(300_000_000_000_000),
        })
    );
}

#[test]
fn negative_contradiction_is_checked_first() {
    let p = flat_portfolio(10_000);
    let mut s = signal(100_000_000_000, 50_000);
    s.contradiction_score = fx(-1);
    assert_eq!(
        L0InvariantContract::verify_signal(&s, &p),
        Err(InvariantViolation::NegativeContradiction)
    );
}

#[test]
fn unsupported_symbol_is_rejected() {
    let p = flat_portfolio(10_000);
    let mut s = signal(100_000_000_000, 50_000);
    s.symbol = Symbol(String::from("DOGE/USD"));
    assert_eq!(
        L0InvariantContract::verify_signal(&s, &p),
        Err(InvariantViolation::UnsupportedSymbol)
    );
}

#[test]
fn oversized_position_is_rejected() {
    let p = flat_portfolio(10_000);
    let mut s = signal(11 * SCALE, 50_000); // 11 BTC over the 10 cap
    s.quantity = fx(11 * SCALE);
    assert_eq!(
        L0InvariantContract::verify_signal(&s, &p),
        Err(InvariantViolation::PositionSizeExceeded {
            quantity: fx(11 * SCALE),
            max: fx(10 * SCALE),
        })
    );
}

#[test]
fn tiny_risk_budget_is_rejected() {
    let p = flat_portfolio(10_000);
    let s = signal(1, 1); // vanishing position value
    assert_eq!(
        L0InvariantContract::verify_signal(&s, &p),
        Err(InvariantViolation::RiskBudgetTooSmall)
    );
}

#[test]
fn excessive_entropy_is_rejected() {
    let p = flat_portfolio(10_000);
    let mut s = signal(100_000_000_000, 50_000);
    s.entropy_count = fx(10_000); // 1e-10, over the 1e-12 threshold
    assert_eq!(
        L0InvariantContract::verify_signal(&s, &p),
        Err(InvariantViolation::ExcessiveEntropy)
    );
}

#[test]
fn energy_divergence_is_reported() {
    let mut p = flat_portfolio(10_000);
    p.energy = fx(10_000); // 1e-10
    assert_eq!(
        L0InvariantContract::verify_hamiltonian_energy(&p),
        Err(InvariantViolation::EnergyDivergence {
            energy: fx(10_000),
            threshold: fx(100),
        })
    );
    assert_eq!(
        L0InvariantContract::verify_hamiltonian_energy(&flat_portfolio(10_000)),
        Ok(())
    );
    // the energy bound is part of the contract itself
    let s = signal(100_000_000_000, 50_000);
    assert_eq!(
        L0InvariantContract::verify_signal(&s, &p),
        Err(InvariantViolation::EnergyDivergence {
            energy: fx(10_000),
            threshold: fx(100),
        })
    );
}

#[test]
fn energy_is_checked_before_symbol_membership() {
    // divergent energy and an unsupported symbol together: the energy
    // bound comes earlier in the fixed order of the contract
    let mut p = flat_portfolio(10_000);
    p.energy = fx(10_000);
    let mut s = signal(100_000_000_000, 50_000);
    s.symbol = Symbol(String::from("DOGE/USD"));
    assert_eq!(
        L0InvariantContract::verify_signal(&s, &p),
        Err(InvariantViolation::EnergyDivergence {
            energy: fx(10_000),
            threshold: fx(100),
        })
    );
}

#[test]
fn unknown_solver_outcomes_fail_closed() {
    let p = flat_portfolio(10_000);
    let s = signal(100_000_000_000, 50_000);
    let max = Fixed::from_units(10).unwrap();
    let r = resolve_outcome(SmtOutcome::Unknown, &s, &p, max, 0);
    assert_eq!(r.unwrap_err(), InvariantViolation::ExcessiveEntropy);
    // an unsatisfiable verdict without an oversize reports the
    // leverage bound, the most specific one still applicable
    let r = resolve_outcome(SmtOutcome::Unsat, &s, &p, max, 0);
    assert_eq!(
        r.unwrap_err(),
        InvariantViolation::LeverageExceeded { current: fx(0), max: fx(300_000_000_000_000) }
    );
    let mut wide = s.clone();
    wide.quantity = Fixed::from_units(11).unwrap();
    let r = resolve_outcome(SmtOutcome::Unsat, &wide, &p, max, 0);
    assert_eq!(
        r.unwrap_err(),
        InvariantViolation::PositionSizeExceeded {
            quantity: Fixed::from_units(11).unwrap(),
            max,
        }
    );
}

#[test]
fn identical_inputs_verify_to_identical_bytes() {
    let p = flat_portfolio(10_000);
    let s = signal(100_000_000_000, 50_000);
    let gate = Verifier::new();
    let o1 = gate.verify_signal(&s, &p, 42).unwrap();
    let o2 = gate.verify_signal(&s, &p, 42).unwrap();
    assert_eq!(
        czero::signature::canonical_order_bytes(&o1),
        czero::signature::canonical_order_bytes(&o2)
    );
    let a1 = czero::signature::CZeroSignature::sign(&o1, &vec![9u8; 32], 7);
    let a2 = czero::signature::CZeroSignature::sign(&o2, &vec![9u8; 32], 7);
    assert_eq!(a1.signature, a2.signature);
    assert_eq!(a1.order_hash, a2.order_hash);
}
