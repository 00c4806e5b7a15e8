//! The verification gate: the invariant contract is checked first,
//! then the position and leverage bounds are handed to an SMT solver
//! over integers scaled by one million, fail-closed: an
//! unknown solver verdict rejects the proposal.

use vstd::prelude::*;
use crate::constants::{max_position_size, MAX_LEVERAGE_M};
use crate::fixed::{div_tz, spec_fixed, Fixed, lemma_fixed_eq, lemma_spec_fixed, BOUND};
use crate::invariants::{spec_l0, InvariantViolation, L0InvariantContract};
use crate::types::{AxiomId, Portfolio, Proof, TradeSignal, VerifiedOrder};

verus! {

/// A verdict from the solver.
#[derive(Clone, Copy, Debug, PartialEq, Eq, Structural)]
pub enum SmtOutcome {
    Sat,
    Unsat,
    Unknown,
}

/// An invariant value scaled to integer micro-units, truncated.
pub open spec fn spec_scaled(m: int) -> int {
    div_tz(m, 100_000_000)
}

/// Relies on z3's `Solver`, `Int::from_i64` and `Int::le`: asserts the
/// two scaled comparisons and reports the solver's verdict. Nothing is
/// promised of the verdict; callers treat every outcome.
#[verifier::external_body]
fn smt_check_bounds(quantity: i64, max_quantity: i64, leverage: i64, max_leverage: i64) -> (r:
    SmtOutcome)
{
    let solver = z3::Solver::new();
    let q = z3::ast::Int::from_i64(quantity);
    let qm = z3::ast::Int::from_i64(max_quantity);
    let l = z3::ast::Int::from_i64(leverage);
    let lm = z3::ast::Int::from_i64(max_leverage);
    solver.assert(q.le(qm));
    solver.assert(l.le(lm));
    match solver.check() {
        z3::SatResult::Sat => SmtOutcome::Sat,
        z3::SatResult::Unsat => SmtOutcome::Unsat,
        z3::SatResult::Unknown => SmtOutcome::Unknown,
    }
}

/// The proof object a satisfiable verdict yields: satisfiable, an
/// empty model, and the four axioms in canonical order.
pub open spec fn spec_sat_proof(p: Proof) -> bool {
    &&& p.satisfiable == true
    &&& p.model@.len() == 0
    &&& p.axioms_satisfied@ == seq![
        AxiomId::PositionSizeLimit,
        AxiomId::LeverageLimit,
        AxiomId::RiskBudget,
        AxiomId::EnergyConstraint,
    ]
}

/// The order a satisfiable verdict yields, pinned field by field.
pub open spec fn spec_sat_order(o: VerifiedOrder, signal: TradeSignal, now_ms: i64) -> bool {
    &&& o.signal == signal
    &&& spec_sat_proof(o.proof)
    &&& o.proof_signature@ == seq![67u8, 61u8, 48u8, 58u8]
    &&& o.verified_at == now_ms
}

/// Determinism of the output: any two orders the checker yields for
/// the same signal and time agree on every field and serialize to the
/// same canonical bytes and signing message.
pub proof fn lemma_sat_order_deterministic(
    o1: VerifiedOrder,
    o2: VerifiedOrder,
    signal: TradeSignal,
    now_ms: i64,
)
    requires
        spec_sat_order(o1, signal, now_ms),
        spec_sat_order(o2, signal, now_ms),
    ensures
        o1.signal == o2.signal,
        o1.verified_at == o2.verified_at,
        crate::signature::spec_canonical_order_bytes(o1)
            == crate::signature::spec_canonical_order_bytes(o2),
        crate::signature::spec_message(o1) == crate::signature::spec_message(o2),
{
}

/// Resolution of a solver outcome. Satisfiability yields the
/// verified order; unsatisfiability yields the most specific violated
/// bound; an unknown outcome is rejected as excessive entropy,
/// fail-closed.
pub fn resolve_outcome(
    outcome: SmtOutcome,
    signal: &TradeSignal,
    portfolio: &Portfolio,
    max_position: Fixed,
    now_ms: i64,
) -> (r: Result<VerifiedOrder, InvariantViolation>)
    ensures
        match outcome {
            SmtOutcome::Sat => (match r {
                Ok(o) => spec_sat_order(o, *signal, now_ms),
                Err(_) => false,
            }),
            SmtOutcome::Unsat => r == Err::<VerifiedOrder, InvariantViolation>(
                if spec_scaled(signal.quantity@) > spec_scaled(max_position@) {
                    (InvariantViolation::PositionSizeExceeded {
                        quantity: signal.quantity,
                        max: max_position,
                    })
                } else {
                    (InvariantViolation::LeverageExceeded {
                        current: portfolio.leverage,
                        max: spec_fixed(MAX_LEVERAGE_M as int),
                    })
                },
            ),
            SmtOutcome::Unknown => r == Err::<VerifiedOrder, InvariantViolation>(
                InvariantViolation::ExcessiveEntropy,
            ),
        },
{
    match outcome {
        SmtOutcome::Sat => {
            let mut axioms: Vec<AxiomId> = Vec::new();
            axioms.push(AxiomId::PositionSizeLimit);
            axioms.push(AxiomId::LeverageLimit);
            axioms.push(AxiomId::RiskBudget);
            axioms.push(AxiomId::EnergyConstraint);
            let mut sig_bytes: Vec<u8> = Vec::new();
            sig_bytes.push(67);
            sig_bytes.push(61);
            sig_bytes.push(48);
            sig_bytes.push(58);
            proof {
                assert(axioms@ =~= seq![
                    AxiomId::PositionSizeLimit,
                    AxiomId::LeverageLimit,
                    AxiomId::RiskBudget,
                    AxiomId::EnergyConstraint,
                ]);
                assert(sig_bytes@ =~= seq![67u8, 61u8, 48u8, 58u8]);
            }
            Ok(
                VerifiedOrder {
                    signal: signal.clone(),
                    proof: Proof { satisfiable: true, model: Vec::new(), axioms_satisfied: axioms },
                    proof_signature: sig_bytes,
                    verified_at: now_ms,
                },
            )
        },
        SmtOutcome::Unsat => {
            proof {
                use_type_invariant(signal.quantity);
                use_type_invariant(max_position);
            }
            let q_s = Fixed::div_tz_wide(signal.quantity.mantissa(), 100_000_000);
            let m_s = Fixed::div_tz_wide(max_position.mantissa(), 100_000_000);
            if q_s > m_s {
                Err(
                    InvariantViolation::PositionSizeExceeded {
                        quantity: signal.quantity,
                        max: max_position,
                    },
                )
            } else {
                let max = Fixed::from_mantissa(MAX_LEVERAGE_M);
                proof {
                    lemma_spec_fixed(MAX_LEVERAGE_M as int);
                    lemma_fixed_eq(max, spec_fixed(MAX_LEVERAGE_M as int));
                }
                Err(
                    InvariantViolation::LeverageExceeded { current: portfolio.leverage, max },
                )
            }
        },
        SmtOutcome::Unknown => Err(InvariantViolation::ExcessiveEntropy),
    }
}

/// The SMT-backed verification gate. It holds no state; each call
/// creates a fresh solver.
pub struct Verifier {
}

impl Verifier {
    /// A fresh gate.
    pub fn new() -> (r: Verifier) {
        Verifier {  }
    }

    /// Verifies a proposal: the invariant contract first (energy
    /// included), then the solver on the scaled bounds. A rejection
    /// reports the contract's own violation verbatim; a verdict the
    /// solver cannot prove is rejected fail-closed.
    pub fn verify_signal(
        &self,
        signal: &TradeSignal,
        portfolio: &Portfolio,
        now_ms: i64,
    ) -> (r: Result<VerifiedOrder, InvariantViolation>)
        ensures
            match spec_l0(*signal, *portfolio) {
                Err(v) => r == Err::<VerifiedOrder, InvariantViolation>(v),
                Ok(()) => match r {
                    Ok(o) => spec_sat_order(o, *signal, now_ms),
                    Err(v) => v == InvariantViolation::ExcessiveEntropy || v matches
                        InvariantViolation::PositionSizeExceeded { .. } || v matches
                        InvariantViolation::LeverageExceeded { .. },
                },
            },
    {
        let l0 = L0InvariantContract::verify_signal(signal, portfolio);
        if let Err(v) = l0 {
            return Err(v);
        }
        let max_position = match max_position_size(&signal.symbol) {
            Some(m) => m,
            None => {
                // unreachable: the contract has already pinned the
                // symbol as supported
                proof {
                    assert(false);
                }
                return Err(InvariantViolation::UnsupportedSymbol);
            },
        };
        proof {
            use_type_invariant(signal.quantity);
            use_type_invariant(max_position);
            use_type_invariant(portfolio.leverage);
            vstd::arithmetic::div_mod::lemma_div_is_ordered(
                crate::fixed::abs_i(signal.quantity@),
                BOUND as int,
                100_000_000,
            );
            vstd::arithmetic::div_mod::lemma_div_is_ordered(
                crate::fixed::abs_i(max_position@),
                BOUND as int,
                100_000_000,
            );
            vstd::arithmetic::div_mod::lemma_div_is_ordered(
                crate::fixed::abs_i(portfolio.leverage@),
                BOUND as int,
                100_000_000,
            );
        }
        let q_s: i64 = Fixed::div_tz_wide(signal.quantity.mantissa(), 100_000_000) as i64;
        let m_s: i64 = Fixed::div_tz_wide(max_position.mantissa(), 100_000_000) as i64;
        let l_s: i64 = Fixed::div_tz_wide(portfolio.leverage.mantissa(), 100_000_000) as i64;
        let lm_s: i64 = Fixed::div_tz_wide(MAX_LEVERAGE_M, 100_000_000) as i64;
        let outcome = smt_check_bounds(q_s, m_s, l_s, lm_s);
        resolve_outcome(outcome, signal, portfolio, max_position, now_ms)
    }
}


impl Default for Verifier {
    /// Same as `new`.
    fn default() -> (r: Verifier) {
        Verifier::new()
    }
}

} // verus!
