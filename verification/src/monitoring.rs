//! System monitoring: a bounded ring of latency samples, sort-and-index
//! percentiles, and assembled health snapshots.

use vstd::prelude::*;
use std::collections::VecDeque;
use vstd::multiset::Multiset;
use crate::fixed::Fixed;
use crate::types::{CircuitBreakerState, SystemHealth};

verus! {

/// Upper bound on the configurable history length; keeps index
/// arithmetic inside the machine word.
pub const MAX_MONITOR_HISTORY: usize = 1_000_000;

/// Non-decreasing order.
pub open spec fn spec_is_sorted(s: Seq<u64>) -> bool {
    forall|i: int, j: int| 0 <= i < j < s.len() ==> s[i] <= s[j]
}

/// The ring after recording one sample: append, then drop the oldest
/// once the ring exceeds its capacity.
pub open spec fn spec_ring_push<T>(h: Seq<T>, max: int, x: T) -> Seq<T> {
    let h2 = h.push(x);
    if h2.len() > max {
        h2.subrange(1, h2.len() as int)
    } else {
        h2
    }
}

/// Index of each percentile in a sorted sample of length `n`.
pub open spec fn spec_percentile_indices(n: int) -> (int, int, int) {
    (
        n / 2,
        n * 99 / 100,
        if n * 999 / 1000 < n - 1 {
            n * 999 / 1000
        } else {
            n - 1
        },
    )
}

/// What the three reported percentiles are: the entries of a sorted
/// permutation of the samples at the index of each percentile.
pub open spec fn spec_percentiles(samples: Seq<u64>, r: (u64, u64, u64)) -> bool {
    if samples.len() == 0 {
        r == (0u64, 0u64, 0u64)
    } else {
        exists|t: Seq<u64>|
            {
                let idx = spec_percentile_indices(samples.len() as int);
                &&& #[trigger] spec_is_sorted(t)
                &&& t.to_multiset() == samples.to_multiset()
                &&& t.len() == samples.len()
                &&& r.0 == t[idx.0]
                &&& r.1 == t[idx.1]
                &&& r.2 == t[idx.2]
            }
    }
}

/// Sorts a sample vector ascending, keeping its multiset of values.
fn sort_samples(input: &Vec<u64>) -> (r: Vec<u64>)
    ensures
        spec_is_sorted(r@),
        r@.to_multiset() == input@.to_multiset(),
        r@.len() == input@.len(),
{
    broadcast use vstd::seq_lib::group_to_multiset_ensures, vstd::multiset::group_multiset_axioms;

    let mut rest: Vec<u64> = input.clone();
    proof {
        assert forall|i: int| 0 <= i < input@.len() implies rest@[i] == input@[i] by {
            assert(cloned::<u64>(input@[i], rest@[i]));
        }
        assert(rest@ =~= input@);
    }
    let mut out: Vec<u64> = Vec::new();
    while rest.len() > 0
        invariant
            spec_is_sorted(out@),
            out@.to_multiset().add(rest@.to_multiset()) =~= input@.to_multiset(),
            out@.len() + rest@.len() == input@.len(),
            forall|a: int, b: int|
                0 <= a < out@.len() && 0 <= b < rest@.len() ==> out@[a] <= rest@[b],
        decreases rest@.len(),
    {
        let n = rest.len();
        let mut j: usize = 0;
        let mut k: usize = 1;
        while k < n
            invariant
                j < k <= n,
                n == rest@.len(),
                forall|t: int| 0 <= t < k ==> rest@[j as int] <= rest@[t],
            decreases n - k,
        {
            if rest[k] < rest[j] {
                j = k;
            }
            k = k + 1;
        }
        let ghost prev = rest@;
        let ghost prev_out = out@;
        let x = rest.remove(j);
        out.push(x);
        proof {
            broadcast use vstd::multiset::group_multiset_axioms;

            assert(prev[j as int] == x);
            assert(rest@ == prev.remove(j as int));
            vstd::seq_lib::to_multiset_remove(prev, j as int);
            assert(out@ == prev_out.push(x));
            vstd::seq_lib::to_multiset_build(prev_out, x);
            assert(prev.contains(x)) by {
                assert(0 <= j < prev.len() && prev[j as int] == x);
            }
            vstd::seq_lib::to_multiset_contains(prev, x);
            assert(prev.to_multiset().count(x) > 0);
            assert(out@.to_multiset().add(rest@.to_multiset()) =~= input@.to_multiset());
            assert forall|b: int| 0 <= b < rest@.len() implies x <= rest@[b] by {
                if b < j {
                    assert(rest@[b] == prev[b]);
                } else {
                    assert(rest@[b] == prev[b + 1]);
                }
            }
        }
    }
    proof {
        broadcast use vstd::multiset::group_multiset_axioms;

        vstd::seq_lib::to_multiset_len(rest@);
        assert(rest@.to_multiset() =~= Multiset::<u64>::empty());
        assert(out@.to_multiset() =~= input@.to_multiset());
    }
    out
}

/// The monitor: health and latency rings of a configured capacity.
pub struct SystemMonitor {
    pub health_history: VecDeque<SystemHealth>,
    pub latency_samples: VecDeque<u64>,
    pub max_history: usize,
}

impl SystemMonitor {
    /// Bounded rings of a configured capacity.
    pub open spec fn wf(self) -> bool {
        &&& self.latency_samples@.len() <= self.max_history as int
        &&& self.health_history@.len() <= self.max_history as int
        &&& 1 <= self.max_history <= MAX_MONITOR_HISTORY
    }

    /// A fresh monitor.
    pub fn new(max_history: usize) -> (r: SystemMonitor)
        requires
            1 <= max_history <= MAX_MONITOR_HISTORY,
        ensures
            r.wf(),
            r.latency_samples@.len() == 0,
            r.health_history@.len() == 0,
            r.max_history == max_history,
    {
        SystemMonitor {
            health_history: VecDeque::new(),
            latency_samples: VecDeque::new(),
            max_history,
        }
    }

    /// Records one latency sample into the bounded ring.
    pub fn record_latency(&mut self, latency_ms: u64)
        requires
            old(self).wf(),
        ensures
            final(self).wf(),
            final(self).latency_samples@ == spec_ring_push(
                old(self).latency_samples@,
                old(self).max_history as int,
                latency_ms,
            ),
            final(self).health_history == old(self).health_history,
            final(self).max_history == old(self).max_history,
    {
        self.latency_samples.push_back(latency_ms);
        if self.latency_samples.len() > self.max_history {
            let _ = self.latency_samples.pop_front();
        }
        proof {
            assert(self.latency_samples@ =~= spec_ring_push(
                old(self).latency_samples@,
                old(self).max_history as int,
                latency_ms,
            ));
        }
    }

    /// The p50, p99 and p999 latencies, by sort-and-index; zeros on an
    /// empty ring.
    pub fn latency_percentiles(&self) -> (r: (u64, u64, u64))
        requires
            self.wf(),
        ensures
            spec_percentiles(self.latency_samples@, r),
    {
        let n = self.latency_samples.len();
        if n == 0 {
            return (0, 0, 0);
        }
        let mut flat: Vec<u64> = Vec::new();
        let mut i: usize = 0;
        while i < n
            invariant
                i <= n,
                n == self.latency_samples@.len(),
                flat@ == self.latency_samples@.take(i as int),
            decreases n - i,
        {
            flat.push(self.latency_samples[i]);
            proof {
                assert(flat@ =~= self.latency_samples@.take(i as int + 1));
            }
            i = i + 1;
        }
        proof {
            assert(self.latency_samples@.take(n as int) =~= self.latency_samples@);
        }
        let sorted = sort_samples(&flat);
        let p50: usize = n / 2;
        let p99: usize = n * 99 / 100;
        let p999_raw: usize = n * 999 / 1000;
        let p999: usize = if p999_raw < n - 1 {
            p999_raw
        } else {
            n - 1
        };
        proof {
            vstd::arithmetic::div_mod::lemma_div_is_ordered(
                (n as int) * 99,
                (n as int) * 100,
                100,
            );
            vstd::arithmetic::div_mod::lemma_div_multiples_vanish(n as int, 100);
            assert((n as int) * 99 <= (n as int) * 100) by (nonlinear_arith)
                requires
                    n as int >= 0,
            ;
            assert((n as int) * 100 == 100 * (n as int)) by (nonlinear_arith);
        }
        let r = (sorted[p50], sorted[p99], sorted[p999]);
        proof {
            let idx = spec_percentile_indices(n as int);
            assert(spec_is_sorted(sorted@) && sorted@.to_multiset()
                == self.latency_samples@.to_multiset() && sorted@.len()
                == self.latency_samples@.len() && r.0 == sorted@[idx.0] && r.1 == sorted@[idx.1]
                && r.2 == sorted@[idx.2]);
        }
        r
    }

    /// Assembles and records a health snapshot from the given figures
    /// and the computed latency percentiles.
    pub fn generate_health_snapshot(
        &mut self,
        consistency_error: Fixed,
        entropy_count: Fixed,
        circuit_breaker: CircuitBreakerState,
        hallucination_rate: Fixed,
        now_ms: i64,
    ) -> (r: SystemHealth)
        requires
            old(self).wf(),
        ensures
            final(self).wf(),
            r.consistency_error == consistency_error,
            r.entropy_count == entropy_count,
            r.circuit_breaker == circuit_breaker,
            r.hallucination_rate == hallucination_rate,
            r.timestamp == now_ms,
            spec_percentiles(old(self).latency_samples@, (r.latency_p50, r.latency_p99, r.latency_p999)),
            final(self).health_history@ == spec_ring_push(
                old(self).health_history@,
                old(self).max_history as int,
                r,
            ),
            final(self).latency_samples == old(self).latency_samples,
            final(self).max_history == old(self).max_history,
    {
        let percentiles = self.latency_percentiles();
        let (p50, p99, p999) = percentiles;
        let health = SystemHealth {
            consistency_error,
            entropy_count,
            circuit_breaker,
            hallucination_rate,
            latency_p50: p50,
            latency_p99: p99,
            latency_p999: p999,
            timestamp: now_ms,
        };
        self.health_history.push_back(health);
        if self.health_history.len() > self.max_history {
            let _ = self.health_history.pop_front();
        }
        proof {
            assert(self.health_history@ =~= spec_ring_push(
                old(self).health_history@,
                old(self).max_history as int,
                health,
            ));
        }
        health
    }

    /// The most recent snapshot, if any.
    pub fn current_health(&self) -> (r: Option<&SystemHealth>)
        ensures
            match r {
                Some(h) => self.health_history@.len() > 0 && *h == self.health_history@.last(),
                None => self.health_history@.len() == 0,
            },
    {
        let n = self.health_history.len();
        if n == 0 {
            None
        } else {
            Some(&self.health_history[n - 1])
        }
    }
}

} // verus!
