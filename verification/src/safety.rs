//! Pre-flight safety gate: the last checks before an order leaves the
//! system. Any failure aborts the submission; nothing here mutates
//! portfolio state.

use vstd::prelude::*;
use crate::constants::{spec_max_order_size, spec_supported_venue, max_order_size, is_supported_venue};
use crate::fixed::{spec_fixed, Fixed, lemma_fixed_eq, lemma_spec_fixed};
use crate::signature::{CZeroSignature, spec_attestation_accepted};
use crate::types::{CircuitBreakerState, TradeSignal, VerifiedOrder};

verus! {

/// A failed pre-flight check.
#[derive(Clone, Copy, Debug, PartialEq, Eq, Structural)]
pub enum SafetyError {
    OrderSizeExceeded { size: Fixed, max: Fixed },
    InvalidQuantity,
    InvalidPrice,
    UnsupportedSymbol,
    UnsupportedVenue,
    VerificationFailed,
    CircuitBreakerTripped,
}

/// A failure while executing an order against a venue.
#[derive(Clone, Debug, PartialEq)]
pub enum ExecutionError {
    SafetyCheck(SafetyError),
    ExchangeApi(String),
    Network(String),
    Timeout(String),
}

impl From<SafetyError> for ExecutionError {
    fn from(v: SafetyError) -> (r: ExecutionError)
        ensures
            r == ExecutionError::SafetyCheck(v),
    {
        ExecutionError::SafetyCheck(v)
    }
}

impl vstd::std_specs::convert::FromSpecImpl<SafetyError> for ExecutionError {
    open spec fn obeys_from_spec() -> bool {
        true
    }

    open spec fn from_spec(v: SafetyError) -> Self {
        ExecutionError::SafetyCheck(v)
    }
}

/// Order-size rule: supported symbol, quantity in `(0, max]`.
pub open spec fn spec_check_order_size(signal: TradeSignal) -> Result<(), SafetyError> {
    match spec_max_order_size(signal.symbol@) {
        None => Err(SafetyError::UnsupportedSymbol),
        Some(mx) => if signal.quantity@ > mx {
            Err(SafetyError::OrderSizeExceeded { size: signal.quantity, max: spec_fixed(mx) })
        } else if signal.quantity@ <= 0 {
            Err(SafetyError::InvalidQuantity)
        } else {
            Ok(())
        },
    }
}

/// Price rule: a limit price, when present, is strictly positive.
pub open spec fn spec_check_price(signal: TradeSignal) -> Result<(), SafetyError> {
    match signal.limit_price {
        Some(p) => if p@ <= 0 {
            Err(SafetyError::InvalidPrice)
        } else {
            Ok(())
        },
        None => Ok(()),
    }
}

/// The whole gate: size rule, venue membership, price rule,
/// attestation, breaker state.
pub open spec fn spec_check_order(
    order: VerifiedOrder,
    attestation: CZeroSignature,
    breaker: CircuitBreakerState,
) -> Result<(), SafetyError> {
    if spec_check_order_size(order.signal) is Err {
        spec_check_order_size(order.signal)
    } else if !spec_supported_venue(order.signal.venue@) {
        Err(SafetyError::UnsupportedVenue)
    } else if spec_check_price(order.signal) is Err {
        spec_check_price(order.signal)
    } else if !spec_attestation_accepted(attestation, order) {
        Err(SafetyError::VerificationFailed)
    } else if breaker == CircuitBreakerState::Tripped {
        Err(SafetyError::CircuitBreakerTripped)
    } else {
        Ok(())
    }
}

/// The pre-flight safety gate.
pub struct SafetyChecker;

impl SafetyChecker {
    /// Runs every pre-flight rule against an order, its attestation
    /// and the breaker state; reports the first failure.
    pub fn check_order(
        order: &VerifiedOrder,
        attestation: &CZeroSignature,
        breaker: CircuitBreakerState,
    ) -> (r: Result<(), SafetyError>)
        requires
            order.verified_at >= 0,
        ensures
            r == spec_check_order(*order, *attestation, breaker),
    {
        let size_check = Self::check_order_size(&order.signal);
        if let Err(v) = size_check {
            return Err(v);
        }
        if !is_supported_venue(&order.signal.venue) {
            return Err(SafetyError::UnsupportedVenue);
        }
        let price_check = Self::check_price(&order.signal);
        if let Err(v) = price_check {
            return Err(v);
        }
        if !attestation.verify_accepts(order) {
            return Err(SafetyError::VerificationFailed);
        }
        if matches!(breaker, CircuitBreakerState::Tripped) {
            return Err(SafetyError::CircuitBreakerTripped);
        }
        Ok(())
    }

    /// The order-size rule on its own.
    pub fn check_order_size(signal: &TradeSignal) -> (r: Result<(), SafetyError>)
        ensures
            r == spec_check_order_size(*signal),
    {
        let max = max_order_size(&signal.symbol);
        match max {
            None => Err(SafetyError::UnsupportedSymbol),
            Some(mx) => {
                if signal.quantity.gt(mx) {
                    proof {
                        use_type_invariant(mx);
                        lemma_spec_fixed(mx@);
                        lemma_fixed_eq(mx, spec_fixed(mx@));
                    }
                    Err(SafetyError::OrderSizeExceeded { size: signal.quantity, max: mx })
                } else if !signal.quantity.is_positive() {
                    Err(SafetyError::InvalidQuantity)
                } else {
                    Ok(())
                }
            },
        }
    }

    /// The price rule on its own.
    pub fn check_price(signal: &TradeSignal) -> (r: Result<(), SafetyError>)
        ensures
            r == spec_check_price(*signal),
    {
        if let Some(p) = signal.limit_price {
            if !p.is_positive() {
                return Err(SafetyError::InvalidPrice);
            }
        }
        Ok(())
    }
}

} // verus!
