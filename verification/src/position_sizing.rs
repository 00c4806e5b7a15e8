//! Position sizing: a risk-budget-based size, discounted by the
//! certainty score and capped by the symbol's position limit.

use vstd::prelude::*;
use crate::constants::{spec_max_position_size, max_position_size, MAX_RISK_BUDGET_M};
use crate::fixed::{
    div_val, mul_val, Fixed, BOUND, SCALE, lemma_div_val_bound, lemma_div_val_nonneg,
    lemma_mul_val_bound, lemma_mul_val_nonneg,
};
use crate::types::{Portfolio, TradeSignal};

verus! {

/// Assumed stop distance of the sizing rule: 2%.
pub const STOP_DISTANCE_M: i128 = 2_000_000_000_000;

/// The size the rule assigns: the equity's risk budget, discounted by
/// certainty, spread over the stop distance and the limit price, then
/// capped by the symbol's limit (one unit off the supported set);
/// zero without a positive limit price.
pub open spec fn spec_position_size(
    signal: TradeSignal,
    portfolio: Portfolio,
    certainty: int,
) -> int {
    let base_risk = mul_val(portfolio.equity@, MAX_RISK_BUDGET_M as int);
    let adjusted = mul_val(base_risk, certainty);
    let value = div_val(adjusted, STOP_DISTANCE_M as int);
    let price = match signal.limit_price {
        Some(p) => p@,
        None => 0,
    };
    if price == 0 {
        0
    } else {
        let size = div_val(value, price);
        let cap = match spec_max_position_size(signal.symbol@) {
            Some(m) => m,
            None => SCALE as int,
        };
        if size <= cap {
            size
        } else {
            cap
        }
    }
}

/// Sizes a trade from the portfolio's equity and the certainty score.
pub fn calculate_position_size(
    signal: &TradeSignal,
    portfolio: &Portfolio,
    certainty_score: Fixed,
) -> (r: Fixed)
    requires
        portfolio.equity@ >= 0,
        0 <= certainty_score@ <= SCALE as int,
        (match signal.limit_price {
            Some(p) => p@ >= 0,
            None => true,
        }),
    ensures
        r@ == spec_position_size(*signal, *portfolio, certainty_score@),
{
    let max_risk = Fixed::from_mantissa(MAX_RISK_BUDGET_M);
    proof {
        use_type_invariant(portfolio.equity);
        lemma_mul_val_bound(portfolio.equity@, MAX_RISK_BUDGET_M as int, BOUND as int, MAX_RISK_BUDGET_M as int);
        lemma_mul_val_nonneg(portfolio.equity@, MAX_RISK_BUDGET_M as int);
        assert((BOUND as int) * (MAX_RISK_BUDGET_M as int) / (SCALE as int)
            == 100_000_000_000_000_000int) by (nonlinear_arith);
    }
    let base_risk_m: i128 = portfolio.equity.wide_mul(max_risk);
    let base_risk = Fixed::from_mantissa(base_risk_m);
    proof {
        lemma_mul_val_bound(base_risk@, certainty_score@, 100_000_000_000_000_000int, SCALE as int);
        lemma_mul_val_nonneg(base_risk@, certainty_score@);
        assert(100_000_000_000_000_000int * (SCALE as int) / (SCALE as int)
            == 100_000_000_000_000_000int) by (nonlinear_arith);
        use_type_invariant(certainty_score);
    }
    let adjusted_m: i128 = base_risk.wide_mul(certainty_score);
    let stop = Fixed::from_mantissa(STOP_DISTANCE_M);
    proof {
        lemma_div_val_bound(
            adjusted_m as int,
            STOP_DISTANCE_M as int,
            100_000_000_000_000_000int,
            STOP_DISTANCE_M as int,
        );
        lemma_div_val_nonneg(adjusted_m as int, STOP_DISTANCE_M as int);
        assert(100_000_000_000_000_000int * (SCALE as int) / (STOP_DISTANCE_M as int)
            == 5_000_000_000_000_000_000int) by (nonlinear_arith);
    }
    let value_m: i128 = Fixed::wide_div(adjusted_m, stop);
    let price = match signal.limit_price {
        Some(p) => p,
        None => Fixed::zero(),
    };
    if price.is_zero() {
        return Fixed::zero();
    }
    proof {
        lemma_div_val_nonneg(value_m as int, price@);
    }
    let size_m: i128 = Fixed::wide_div(value_m, price);
    let cap: Fixed = match max_position_size(&signal.symbol) {
        Some(m) => m,
        None => Fixed::one(),
    };
    proof {
        use_type_invariant(cap);
    }
    if size_m <= cap.mantissa() {
        Fixed::from_mantissa(size_m)
    } else {
        cap
    }
}

} // verus!
