//! The invariant contract: a pure predicate over a trade signal and a
//! portfolio snapshot. Every verified order must satisfy it; a failure
//! is reported as the first violated axiom, in a fixed order.

use vstd::prelude::*;
use crate::constants::{
    spec_max_position_size, spec_supported_symbol, max_position_size, is_supported_symbol,
    MAX_LEVERAGE_M, MIN_RISK_BUDGET_M, MAX_RISK_BUDGET_M, DELTA_U_MAX_SQ_M,
};
use crate::fixed::{spec_fixed, mul_val, div_val, Fixed};
use crate::fixed::{lemma_spec_fixed, lemma_fixed_eq};
use crate::types::{Portfolio, Symbol, TradeSignal};

verus! {

broadcast use lemma_spec_fixed;

/// The invariant contract itself; it carries no state.
#[derive(Clone, Debug)]
pub struct L0InvariantContract;

/// A violated axiom, with the offending values where they are bounded.
#[derive(Clone, Copy, Debug, PartialEq, Eq, Structural)]
pub enum InvariantViolation {
    NegativeContradiction,
    PositionSizeExceeded { quantity: Fixed, max: Fixed },
    LeverageExceeded { current: Fixed, max: Fixed },
    RiskBudgetExceeded,
    RiskBudgetTooSmall,
    ExcessiveEntropy,
    InvalidPrice,
    UnsupportedSymbol,
    EnergyDivergence { energy: Fixed, threshold: Fixed },
}

/// The signal's limit price mantissa, zero when absent.
pub open spec fn spec_limit_or_zero(signal: TradeSignal) -> int {
    match signal.limit_price {
        Some(p) => p@,
        None => 0,
    }
}

/// Mantissa of `quantity * limit_price` (zero without a limit price).
pub open spec fn spec_position_value(signal: TradeSignal) -> int {
    mul_val(signal.quantity@, spec_limit_or_zero(signal))
}

/// Mantissa of `position_value / equity`; zero on zero equity, so a
/// portfolio without equity always fails the minimum-risk bound.
pub open spec fn spec_risk_fraction(signal: TradeSignal, portfolio: Portfolio) -> int {
    div_val(spec_position_value(signal), portfolio.equity@)
}

/// Position-size axiom: the symbol is supported and the quantity is
/// within its cap.
pub open spec fn spec_check_position_size(symbol: Seq<char>, quantity: Fixed) -> Result<
    (),
    InvariantViolation,
> {
    match spec_max_position_size(symbol) {
        None => Err(InvariantViolation::UnsupportedSymbol),
        Some(mx) => if quantity@ > mx {
            Err(InvariantViolation::PositionSizeExceeded { quantity, max: spec_fixed(mx) })
        } else {
            Ok(())
        },
    }
}

/// Leverage axiom: gross leverage within the compiled-in maximum.
pub open spec fn spec_check_leverage(portfolio: Portfolio) -> Result<(), InvariantViolation> {
    if portfolio.leverage@ > MAX_LEVERAGE_M as int {
        Err(
            InvariantViolation::LeverageExceeded {
                current: portfolio.leverage,
                max: spec_fixed(MAX_LEVERAGE_M as int),
            },
        )
    } else {
        Ok(())
    }
}

/// Risk-budget axiom: the trade's fraction of equity lies inside the
/// configured band.
pub open spec fn spec_check_risk_budget(signal: TradeSignal, portfolio: Portfolio) -> Result<
    (),
    InvariantViolation,
> {
    let fraction = spec_risk_fraction(signal, portfolio);
    if fraction < MIN_RISK_BUDGET_M as int {
        Err(InvariantViolation::RiskBudgetTooSmall)
    } else if fraction > MAX_RISK_BUDGET_M as int {
        Err(InvariantViolation::RiskBudgetExceeded)
    } else {
        Ok(())
    }
}

/// The full contract: the first violated axiom, checked in order —
/// contradiction sign, position size, leverage, risk budget, entropy,
/// limit-price sign, energy, symbol support. A quantity cap exists
/// only for supported symbols, so an unsupported symbol skips the
/// size axiom and fails on the membership axiom at the end.
pub open spec fn spec_l0(signal: TradeSignal, portfolio: Portfolio) -> Result<
    (),
    InvariantViolation,
> {
    if signal.contradiction_score@ < 0 {
        Err(InvariantViolation::NegativeContradiction)
    } else if (match spec_max_position_size(signal.symbol@) {
        Some(mx) => signal.quantity@ > mx,
        None => false,
    }) {
        Err(
            InvariantViolation::PositionSizeExceeded {
                quantity: signal.quantity,
                max: spec_fixed(spec_max_position_size(signal.symbol@)->Some_0),
            },
        )
    } else if spec_check_leverage(portfolio) is Err {
        spec_check_leverage(portfolio)
    } else if spec_check_risk_budget(signal, portfolio) is Err {
        spec_check_risk_budget(signal, portfolio)
    } else if signal.entropy_count@ > DELTA_U_MAX_SQ_M as int {
        Err(InvariantViolation::ExcessiveEntropy)
    } else if match signal.limit_price {
        Some(p) => p@ <= 0,
        None => false,
    } {
        Err(InvariantViolation::InvalidPrice)
    } else if portfolio.energy@ > DELTA_U_MAX_SQ_M as int {
        Err(
            InvariantViolation::EnergyDivergence {
                energy: portfolio.energy,
                threshold: spec_fixed(DELTA_U_MAX_SQ_M as int),
            },
        )
    } else if !spec_supported_symbol(signal.symbol@) {
        Err(InvariantViolation::UnsupportedSymbol)
    } else {
        Ok(())
    }
}

/// Energy axiom: Hamiltonian energy within the stability threshold.
pub open spec fn spec_energy_check(portfolio: Portfolio) -> Result<(), InvariantViolation> {
    if portfolio.energy@ > DELTA_U_MAX_SQ_M as int {
        Err(
            InvariantViolation::EnergyDivergence {
                energy: portfolio.energy,
                threshold: spec_fixed(DELTA_U_MAX_SQ_M as int),
            },
        )
    } else {
        Ok(())
    }
}

impl L0InvariantContract {
    /// Checks every axiom of the contract against a signal and the
    /// portfolio snapshot it was proposed on; reports the first
    /// violated axiom.
    pub fn verify_signal(signal: &TradeSignal, portfolio: &Portfolio) -> (r: Result<
        (),
        InvariantViolation,
    >)
        ensures
            r == spec_l0(*signal, *portfolio),
    {
        if signal.contradiction_score.is_negative() {
            return Err(InvariantViolation::NegativeContradiction);
        }
        if let Some(mx) = max_position_size(&signal.symbol) {
            if signal.quantity.gt(mx) {
                proof {
                    use_type_invariant(mx);
                    lemma_fixed_eq(mx, spec_fixed(mx@));
                }
                return Err(
                    InvariantViolation::PositionSizeExceeded { quantity: signal.quantity, max: mx },
                );
            }
        }
        let leverage_check = Self::check_leverage(portfolio);
        if let Err(v) = leverage_check {
            return Err(v);
        }
        let risk_check = Self::check_risk_budget(signal, portfolio);
        if let Err(v) = risk_check {
            return Err(v);
        }
        let delta_u = Fixed::from_mantissa(DELTA_U_MAX_SQ_M);
        if signal.entropy_count.gt(delta_u) {
            return Err(InvariantViolation::ExcessiveEntropy);
        }
        if let Some(p) = signal.limit_price {
            if !p.is_positive() {
                return Err(InvariantViolation::InvalidPrice);
            }
        }
        if portfolio.energy.gt(delta_u) {
            proof {
                lemma_fixed_eq(delta_u, spec_fixed(DELTA_U_MAX_SQ_M as int));
            }
            return Err(
                InvariantViolation::EnergyDivergence {
                    energy: portfolio.energy,
                    threshold: delta_u,
                },
            );
        }
        if !is_supported_symbol(&signal.symbol) {
            return Err(InvariantViolation::UnsupportedSymbol);
        }
        Ok(())
    }

    /// Position-size axiom on its own: quantity within the symbol's cap.
    pub fn check_position_size(symbol: &Symbol, quantity: Fixed) -> (r: Result<
        (),
        InvariantViolation,
    >)
        ensures
            r == spec_check_position_size(symbol@, quantity),
    {
        let max = max_position_size(symbol);
        match max {
            None => Err(InvariantViolation::UnsupportedSymbol),
            Some(mx) => {
                if quantity.gt(mx) {
                    proof {
                        use_type_invariant(mx);
                        lemma_fixed_eq(mx, spec_fixed(mx@));
                    }
                    Err(InvariantViolation::PositionSizeExceeded { quantity, max: mx })
                } else {
                    Ok(())
                }
            },
        }
    }

    /// Leverage axiom on its own.
    pub fn check_leverage(portfolio: &Portfolio) -> (r: Result<(), InvariantViolation>)
        ensures
            r == spec_check_leverage(*portfolio),
    {
        let max = Fixed::from_mantissa(MAX_LEVERAGE_M);
        if portfolio.leverage.gt(max) {
            proof {
                lemma_fixed_eq(max, spec_fixed(MAX_LEVERAGE_M as int));
            }
            Err(InvariantViolation::LeverageExceeded { current: portfolio.leverage, max })
        } else {
            Ok(())
        }
    }

    /// Risk-budget axiom on its own.
    pub fn check_risk_budget(signal: &TradeSignal, portfolio: &Portfolio) -> (r: Result<
        (),
        InvariantViolation,
    >)
        ensures
            r == spec_check_risk_budget(*signal, *portfolio),
    {
        let limit = match signal.limit_price {
            Some(p) => p,
            None => Fixed::zero(),
        };
        let value_m: i128 = signal.quantity.wide_mul(limit);
        let fraction_m: i128 = Fixed::wide_div(value_m, portfolio.equity);
        if fraction_m < MIN_RISK_BUDGET_M {
            Err(InvariantViolation::RiskBudgetTooSmall)
        } else if fraction_m > MAX_RISK_BUDGET_M {
            Err(InvariantViolation::RiskBudgetExceeded)
        } else {
            Ok(())
        }
    }

    /// Energy axiom on its own: Lyapunov stability of the portfolio.
    pub fn verify_hamiltonian_energy(portfolio: &Portfolio) -> (r: Result<
        (),
        InvariantViolation,
    >)
        ensures
            r == spec_energy_check(*portfolio),
    {
        let threshold = Fixed::from_mantissa(DELTA_U_MAX_SQ_M);
        if portfolio.energy.gt(threshold) {
            proof {
                lemma_fixed_eq(threshold, spec_fixed(DELTA_U_MAX_SQ_M as int));
            }
            Err(InvariantViolation::EnergyDivergence { energy: portfolio.energy, threshold })
        } else {
            Ok(())
        }
    }
}

} // verus!
