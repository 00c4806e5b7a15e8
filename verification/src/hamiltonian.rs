//! Hamiltonian risk containment: portfolio risk as a scalar energy,
//! `(leverage^2 + correlation_penalty) / 2`, with Lyapunov stability
//! meaning the energy stays within the compiled-in threshold.

use vstd::prelude::*;
use crate::constants::{CORRELATION_PENALTY_UNIT_M, DELTA_U_MAX_SQ_M};
use crate::fixed::{fits, mul_val, div_tz, ArithError, Fixed, WIDE_BOUND};
use crate::types::{Portfolio, Position, Side};

verus! {

/// How many positions of `s` lie on `side`.
pub open spec fn spec_count_side(s: Seq<Position>, side: Side) -> int
    decreases s.len(),
{
    if s.len() == 0 {
        0
    } else {
        spec_count_side(s.drop_last(), side) + if s.last().side == side {
            1int
        } else {
            0int
        }
    }
}

/// Correlation penalty mantissa: the larger directional position count
/// times 0.1; zero for an empty book of positions.
pub open spec fn spec_penalty(s: Seq<Position>) -> int {
    if s.len() == 0 {
        0
    } else {
        let longs = spec_count_side(s, Side::Buy);
        let shorts = spec_count_side(s, Side::Sell);
        (if longs >= shorts {
            longs
        } else {
            shorts
        }) * (CORRELATION_PENALTY_UNIT_M as int)
    }
}

/// Energy mantissa: `(leverage^2 + penalty) / 2`, truncated.
pub open spec fn spec_energy(leverage: int, penalty: int) -> int {
    div_tz(mul_val(leverage, leverage) + penalty, 2)
}

proof fn lemma_count_side_bounds(s: Seq<Position>, side: Side)
    ensures
        0 <= spec_count_side(s, side) <= s.len(),
    decreases s.len(),
{
    if s.len() > 0 {
        lemma_count_side_bounds(s.drop_last(), side);
    }
}

/// Exact penalty mantissa of a position set; wide, never fails.
pub(crate) fn penalty_m(positions: &Vec<Position>) -> (r: i128)
    ensures
        r as int == spec_penalty(positions@),
        0 <= r as int <= (usize::MAX as int) * (CORRELATION_PENALTY_UNIT_M as int),
{
    if positions.len() == 0 {
        assert(0 <= (usize::MAX as int) * (CORRELATION_PENALTY_UNIT_M as int))
            by (nonlinear_arith);
        return 0;
    }
    let mut longs: usize = 0;
    let mut shorts: usize = 0;
    let mut i: usize = 0;
    while i < positions.len()
        invariant
            i <= positions@.len(),
            longs as int == spec_count_side(positions@.take(i as int), Side::Buy),
            shorts as int == spec_count_side(positions@.take(i as int), Side::Sell),
            longs <= i,
            shorts <= i,
        decreases positions@.len() - i,
    {
        proof {
            assert(positions@.take(i as int + 1).drop_last() =~= positions@.take(i as int));
            assert(positions@.take(i as int + 1).last() == positions@[i as int]);
        }
        if positions[i].side == Side::Buy {
            longs = longs + 1;
        } else {
            shorts = shorts + 1;
        }
        i = i + 1;
    }
    proof {
        assert(positions@.take(positions@.len() as int) =~= positions@);
    }
    let mx: usize = if longs >= shorts {
        longs
    } else {
        shorts
    };
    assert(0 <= (mx as int) * (CORRELATION_PENALTY_UNIT_M as int) && (mx as int) * (
    CORRELATION_PENALTY_UNIT_M as int) <= (usize::MAX as int) * (CORRELATION_PENALTY_UNIT_M as int)
        && (usize::MAX as int) * (CORRELATION_PENALTY_UNIT_M as int) < i128::MAX as int)
        by (nonlinear_arith)
        requires
            0 <= mx as int <= usize::MAX as int,
    ;
    (mx as i128) * CORRELATION_PENALTY_UNIT_M
}

/// Energy mantissa of a portfolio, computed exactly as a wide value.
fn energy_m(portfolio: &Portfolio) -> (r: i128)
    ensures
        r as int == spec_energy(portfolio.leverage@, spec_penalty(portfolio.positions@)),
        0 <= r as int,
{
    let lev_sq: i128 = portfolio.leverage.wide_mul(portfolio.leverage);
    proof {
        use_type_invariant(portfolio.leverage);
        let x = portfolio.leverage@;
        assert(x * x >= 0) by (nonlinear_arith);
        assert(mul_val(x, x) >= 0);
    }
    let pen: i128 = penalty_m(&portfolio.positions);
    assert((usize::MAX as int) * (CORRELATION_PENALTY_UNIT_M as int) + (WIDE_BOUND as int)
        < i128::MAX as int) by (nonlinear_arith);
    let sum: i128 = lev_sq + pen;
    let half: u128 = (sum as u128) / 2;
    proof {
        assert(half as int == div_tz(sum as int, 2));
    }
    half as i128
}

/// Correlation penalty of a portfolio's positions, as a `Fixed`;
/// fails explicitly when the penalty leaves the representable range.
pub fn calculate_correlation_penalty(portfolio: &Portfolio) -> (r: Result<Fixed, ArithError>)
    ensures
        match r {
            Ok(v) => v@ == spec_penalty(portfolio.positions@) && fits(
                spec_penalty(portfolio.positions@),
            ),
            Err(e) => e == ArithError::Overflow && !fits(spec_penalty(portfolio.positions@)),
        },
{
    let pm: i128 = penalty_m(&portfolio.positions);
    match Fixed::try_from_mantissa(pm) {
        Some(v) => Ok(v),
        None => Err(ArithError::Overflow),
    }
}

/// Hamiltonian energy of a portfolio, from its stored leverage and its
/// positions; fails explicitly when the energy cannot be represented.
pub fn calculate_hamiltonian_energy(portfolio: &Portfolio) -> (r: Result<Fixed, ArithError>)
    ensures
        match r {
            Ok(v) => v@ == spec_energy(portfolio.leverage@, spec_penalty(portfolio.positions@))
                && fits(spec_energy(portfolio.leverage@, spec_penalty(portfolio.positions@))),
            Err(e) => e == ArithError::Overflow && !fits(
                spec_energy(portfolio.leverage@, spec_penalty(portfolio.positions@)),
            ),
        },
{
    let em: i128 = energy_m(portfolio);
    match Fixed::try_from_mantissa(em) {
        Some(v) => Ok(v),
        None => Err(ArithError::Overflow),
    }
}

/// Lyapunov stability: the energy lies within the threshold. Decided
/// exactly even where the energy itself would overflow a `Fixed`.
pub fn check_lyapunov_stability(portfolio: &Portfolio) -> (r: bool)
    ensures
        r == (spec_energy(portfolio.leverage@, spec_penalty(portfolio.positions@))
            <= DELTA_U_MAX_SQ_M as int),
{
    let em: i128 = energy_m(portfolio);
    em <= DELTA_U_MAX_SQ_M
}

} // verus!
