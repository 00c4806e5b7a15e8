//! Circuit breaker: a latching state machine over drawdown, leverage
//! and energy. Once `Tripped` it stays tripped through any sequence of
//! checks; only an explicit operator reset returns it to `Normal`.

use vstd::prelude::*;
use crate::constants::{DELTA_U_MAX_SQ_M, MAX_LEVERAGE_M};
use crate::fixed::{abs_i, div_val, Fixed};
use crate::hamiltonian::{spec_energy, spec_penalty};
use crate::types::{CircuitBreakerState, Portfolio};

verus! {

/// Daily drawdown mantissa: equity change since the oldest snapshot,
/// as a fraction of that snapshot; zero without history.
pub open spec fn spec_drawdown(history: Seq<(i64, Fixed)>, equity: int) -> int {
    if history.len() == 0 {
        0
    } else {
        div_val(equity - history[0].1@, history[0].1@)
    }
}

/// The transition a single check performs. `Tripped` latches;
/// excessive drawdown or leverage trips; excessive energy warns.
pub open spec fn spec_next_state(
    state: CircuitBreakerState,
    dd: int,
    max_dd: int,
    leverage: int,
    energy: int,
) -> CircuitBreakerState {
    if state == CircuitBreakerState::Tripped {
        CircuitBreakerState::Tripped
    } else if abs_i(dd) > max_dd {
        CircuitBreakerState::Tripped
    } else if leverage > MAX_LEVERAGE_M as int {
        CircuitBreakerState::Tripped
    } else if energy > DELTA_U_MAX_SQ_M as int {
        CircuitBreakerState::Warning
    } else {
        CircuitBreakerState::Normal
    }
}

/// The state after a whole sequence of checks.
pub open spec fn spec_run_checks(
    state: CircuitBreakerState,
    steps: Seq<(int, int, int, int)>,
) -> CircuitBreakerState
    decreases steps.len(),
{
    if steps.len() == 0 {
        state
    } else {
        let first = steps[0];
        spec_run_checks(
            spec_next_state(state, first.0, first.1, first.2, first.3),
            steps.subrange(1, steps.len() as int),
        )
    }
}

/// Latching: no sequence of checks leaves the tripped state. Only
/// `reset` does.
pub proof fn lemma_breaker_latches(steps: Seq<(int, int, int, int)>)
    ensures
        spec_run_checks(CircuitBreakerState::Tripped, steps) == CircuitBreakerState::Tripped,
    decreases steps.len(),
{
    if steps.len() > 0 {
        lemma_breaker_latches(steps.subrange(1, steps.len() as int));
    }
}

/// History entries older than this many milliseconds are purged.
pub const SNAPSHOT_WINDOW_MS: i64 = 86_400_000;

/// Drops leading history entries older than the cutoff.
pub open spec fn spec_purged(h: Seq<(i64, Fixed)>, cutoff: int) -> Seq<(i64, Fixed)>
    decreases h.len(),
{
    if h.len() == 0 {
        h
    } else if h[0].0 < cutoff {
        spec_purged(h.subrange(1, h.len() as int), cutoff)
    } else {
        h
    }
}

/// The latching breaker: current state, the equity snapshots of the
/// last day, the drawdown limit, and when it was last reset.
pub struct CircuitBreaker {
    pub state: CircuitBreakerState,
    pub history: Vec<(i64, Fixed)>,
    pub max_daily_drawdown: Fixed,
    pub last_reset: i64,
}

impl CircuitBreaker {
    /// A fresh breaker in the `Normal` state.
    pub fn new(max_daily_drawdown: Fixed, now_ms: i64) -> (r: CircuitBreaker)
        ensures
            r.state == CircuitBreakerState::Normal,
            r.history@.len() == 0,
            r.max_daily_drawdown == max_daily_drawdown,
            r.last_reset == now_ms,
    {
        CircuitBreaker {
            state: CircuitBreakerState::Normal,
            history: Vec::new(),
            max_daily_drawdown,
            last_reset: now_ms,
        }
    }

    /// Runs one check against a portfolio and returns the new state.
    /// Exactly the `spec_next_state` transition; nothing else changes.
    pub fn check(&mut self, portfolio: &Portfolio) -> (r: CircuitBreakerState)
        ensures
            final(self).state == spec_next_state(
                old(self).state,
                spec_drawdown(old(self).history@, portfolio.equity@),
                old(self).max_daily_drawdown@,
                portfolio.leverage@,
                spec_energy(portfolio.leverage@, spec_penalty(portfolio.positions@)),
            ),
            r == final(self).state,
            final(self).history == old(self).history,
            final(self).max_daily_drawdown == old(self).max_daily_drawdown,
            final(self).last_reset == old(self).last_reset,
    {
        if matches!(self.state, CircuitBreakerState::Tripped) {
            return CircuitBreakerState::Tripped;
        }
        let dd_m: i128 = self.daily_drawdown_m(portfolio);
        let dd_abs: i128 = if dd_m < 0 {
            -dd_m
        } else {
            dd_m
        };
        proof {
            use_type_invariant(self.max_daily_drawdown);
        }
        if dd_abs > self.max_daily_drawdown.mantissa() {
            self.state = CircuitBreakerState::Tripped;
            return self.state;
        }
        let max_leverage = Fixed::from_mantissa(MAX_LEVERAGE_M);
        if portfolio.leverage.gt(max_leverage) {
            self.state = CircuitBreakerState::Tripped;
            return self.state;
        }
        if !crate::hamiltonian::check_lyapunov_stability(portfolio) {
            self.state = CircuitBreakerState::Warning;
        } else {
            self.state = CircuitBreakerState::Normal;
        }
        self.state
    }

    /// Drawdown mantissa against the oldest snapshot, wide and exact.
    fn daily_drawdown_m(&self, portfolio: &Portfolio) -> (r: i128)
        ensures
            r as int == spec_drawdown(self.history@, portfolio.equity@),
            -(crate::fixed::WIDE_BOUND as int) * (crate::fixed::SCALE as int) <= r as int <= (
            crate::fixed::WIDE_BOUND as int) * (crate::fixed::SCALE as int),
    {
        proof {
            assert((crate::fixed::WIDE_BOUND as int) * (crate::fixed::SCALE as int) >= 0)
                by (nonlinear_arith);
        }
        if self.history.len() == 0 {
            return 0;
        }
        let start: Fixed = self.history[0].1;
        proof {
            use_type_invariant(start);
            use_type_invariant(portfolio.equity);
        }
        let diff_m: i128 = portfolio.equity.mantissa() - start.mantissa();
        Fixed::wide_div(diff_m, start)
    }

    /// Records an equity snapshot and purges entries older than a day.
    pub fn record_snapshot(&mut self, portfolio: &Portfolio, now_ms: i64)
        requires
            now_ms >= 0,
        ensures
            final(self).history@ == spec_purged(
                old(self).history@.push((now_ms, portfolio.equity)),
                now_ms - SNAPSHOT_WINDOW_MS,
            ),
            final(self).state == old(self).state,
            final(self).max_daily_drawdown == old(self).max_daily_drawdown,
            final(self).last_reset == old(self).last_reset,
    {
        self.history.push((now_ms, portfolio.equity));
        let cutoff: i64 = now_ms - SNAPSHOT_WINDOW_MS;
        let ghost orig = self.history@;
        while self.history.len() > 0 && self.history[0].0 < cutoff
            invariant
                self.state == old(self).state,
                self.max_daily_drawdown == old(self).max_daily_drawdown,
                self.last_reset == old(self).last_reset,
                spec_purged(self.history@, cutoff as int) == spec_purged(orig, cutoff as int),
            decreases self.history@.len(),
        {
            let ghost prev = self.history@;
            let _ = self.history.remove(0);
            proof {
                assert(self.history@ =~= prev.subrange(1, prev.len() as int));
            }
        }
        proof {
            assert(spec_purged(self.history@, cutoff as int) == self.history@);
        }
    }

    /// Returns the breaker to `Normal` and clears the history.
    pub fn reset(&mut self, now_ms: i64)
        ensures
            final(self).state == CircuitBreakerState::Normal,
            final(self).history@.len() == 0,
            final(self).max_daily_drawdown == old(self).max_daily_drawdown,
            final(self).last_reset == now_ms,
    {
        self.state = CircuitBreakerState::Normal;
        self.history.clear();
        self.last_reset = now_ms;
    }

    /// The current state.
    pub fn state(&self) -> (r: CircuitBreakerState)
        ensures
            r == self.state,
    {
        self.state
    }
}

} // verus!
