//! Anomaly detection over a health snapshot. Alerts are derived
//! predicates of the snapshot, not stored state.

use vstd::prelude::*;
use crate::constants::{
    DELTA_U_MAX_SQ_M, MAX_CONSISTENCY_ERROR_M, MAX_HALLUCINATION_RATE_M,
};
use crate::fixed::Fixed;
use crate::types::{CircuitBreakerState, SystemHealth};

verus! {

/// Latency level above which the p99 alert fires, in milliseconds.
pub const ALERT_LATENCY_P99_MS: u64 = 100;

/// The derived alerts of one snapshot.
#[derive(Clone, Copy, Debug, PartialEq, Eq, Structural)]
pub struct AlertReport {
    pub contradiction_detected: bool,
    pub high_entropy: bool,
    pub breaker_tripped: bool,
    pub high_hallucination_rate: bool,
    pub high_latency: bool,
}

/// The alert manager; it carries no state.
pub struct AlertManager;

impl AlertManager {
    /// Derives every alert from a snapshot, exactly.
    pub fn check_anomalies(&self, health: &SystemHealth) -> (r: AlertReport)
        ensures
            r.contradiction_detected == (health.consistency_error@ > MAX_CONSISTENCY_ERROR_M
                as int),
            r.high_entropy == (health.entropy_count@ > DELTA_U_MAX_SQ_M as int),
            r.breaker_tripped == (health.circuit_breaker == CircuitBreakerState::Tripped),
            r.high_hallucination_rate == (health.hallucination_rate@ > MAX_HALLUCINATION_RATE_M
                as int),
            r.high_latency == (health.latency_p99 > ALERT_LATENCY_P99_MS),
    {
        AlertReport {
            contradiction_detected: health.consistency_error.gt(
                Fixed::from_mantissa(MAX_CONSISTENCY_ERROR_M),
            ),
            high_entropy: health.entropy_count.gt(Fixed::from_mantissa(DELTA_U_MAX_SQ_M)),
            breaker_tripped: matches!(health.circuit_breaker, CircuitBreakerState::Tripped),
            high_hallucination_rate: health.hallucination_rate.gt(
                Fixed::from_mantissa(MAX_HALLUCINATION_RATE_M),
            ),
            high_latency: health.latency_p99 > ALERT_LATENCY_P99_MS,
        }
    }
}

} // verus!
