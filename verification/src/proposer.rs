//! The proposer: the creative half of the pipeline. It derives
//! features from a book snapshot and emits a candidate trade intent
//! when contradiction and spread cross the policy thresholds; every
//! proposal is later checked by the verification gate.

use vstd::prelude::*;
use crate::features::{spec_contradiction, spec_entropy, spec_entropy_ok, FeatureCalculator};
use crate::fixed::{fits, div_tz, ArithError, Fixed, SCALE};
use crate::normalization::{
    spec_book_wf, spec_imbalance, spec_mid_price, spec_qty_sum, spec_spread_pct,
    calculate_depth_imbalance, calculate_mid_price, calculate_spread_pct,
};
use crate::normalization::spec_cex_liquidity;
use crate::types::{OrderBook, OrderType, Portfolio, Side, Symbol, TradeSignal, Venue};

verus! {

/// Contradiction threshold of the fallback policy: 0.05.
pub const PROPOSAL_CONTRADICTION_THRESHOLD_M: i128 = 5_000_000_000_000;

/// Spread-percentage threshold of the fallback policy: 0.001.
pub const PROPOSAL_SPREAD_THRESHOLD_M: i128 = 100_000_000_000;

/// Seed quantity of a proposal: 0.1 base units.
pub const PROPOSAL_SEED_QUANTITY_M: i128 = 10_000_000_000_000;

/// Whether the policy proposes on a book: both sides quoted, the
/// contradiction score above its threshold, and the spread percentage
/// above its own.
pub open spec fn spec_should_propose(book: OrderBook) -> bool {
    &&& (match spec_spread_pct(book) {
        Some(p) => p > PROPOSAL_SPREAD_THRESHOLD_M as int,
        None => false,
    })
    &&& spec_contradiction(book, 0) > PROPOSAL_CONTRADICTION_THRESHOLD_M as int
}

/// Every representability condition a proposal needs.
pub open spec fn spec_propose_ok(book: OrderBook) -> bool {
    &&& fits(spec_cex_liquidity(book))
    &&& fits(spec_contradiction(book, 0))
    &&& spec_entropy_ok(book)
}

/// The proposer: the feature calculator it owns and the two counters
/// behind the hallucination rate.
pub struct Proposer {
    pub feature_calc: FeatureCalculator,
    pub hallucination_count: u64,
    pub total_proposals: u64,
}

/// Hallucination rate mantissa: rejected over total, zero without
/// proposals.
pub open spec fn spec_hallucination_rate(count: int, total: int) -> int {
    if total == 0 {
        0
    } else {
        div_tz(count * SCALE as int, total)
    }
}

impl Proposer {
    /// A fresh proposer with a thousand-sample price ring.
    pub fn new() -> (r: Proposer)
        ensures
            r.feature_calc.wf(),
            r.feature_calc.price_history@.len() == 0,
            r.hallucination_count == 0,
            r.total_proposals == 0,
    {
        Proposer {
            feature_calc: FeatureCalculator::new(1000),
            hallucination_count: 0,
            total_proposals: 0,
        }
    }

    /// Runs the fallback policy on a book snapshot. Counts the
    /// attempt, then proposes exactly when the thresholds pass; the
    /// proposal carries the computed features verbatim, the mid price
    /// as its limit, and the fixed seed quantity.
    pub fn propose_trade(
        &mut self,
        symbol: &Symbol,
        venue: &Venue,
        book: &OrderBook,
        portfolio: &Portfolio,
        now_ms: i64,
    ) -> (r: Result<Option<TradeSignal>, ArithError>)
        requires
            spec_book_wf(*book),
            old(self).total_proposals < u64::MAX,
        ensures
            final(self).total_proposals == old(self).total_proposals + 1,
            final(self).hallucination_count == old(self).hallucination_count,
            final(self).feature_calc == old(self).feature_calc,
            match r {
                Ok(opt) => spec_propose_ok(*book) && (match opt {
                    Some(sig) => {
                        &&& spec_should_propose(*book)
                        &&& sig.symbol@ == symbol@
                        &&& sig.venue@ == venue@
                        &&& sig.side == (if spec_imbalance(
                            spec_qty_sum(book.bids@),
                            spec_qty_sum(book.asks@),
                        ) >= 0 {
                            Side::Buy
                        } else {
                            Side::Sell
                        })
                        &&& sig.order_type == OrderType::Limit
                        &&& sig.quantity@ == PROPOSAL_SEED_QUANTITY_M as int
                        &&& (match sig.limit_price {
                            Some(m) => spec_mid_price(*book) == Some(m@),
                            None => false,
                        })
                        &&& sig.stop_price is None
                        &&& sig.timestamp == now_ms
                        &&& sig.contradiction_score@ == spec_contradiction(*book, 0)
                        &&& sig.entropy_count@ == spec_entropy(*book)
                    },
                    None => !spec_should_propose(*book),
                }),
                Err(e) => e == ArithError::Overflow && !spec_propose_ok(*book),
            },
    {
        self.total_proposals = self.total_proposals + 1;
        let contradiction = match self.feature_calc.calculate_contradiction_score(
            book,
            Fixed::zero(),
        ) {
            Ok(v) => v,
            Err(e) => {
                return Err(e);
            },
        };
        let entropy = match self.feature_calc.calculate_entropy(book) {
            Ok(v) => v,
            Err(e) => {
                return Err(e);
            },
        };
        let mid = match calculate_mid_price(book) {
            Some(m) => m,
            None => {
                return Ok(None);
            },
        };
        let pct = match calculate_spread_pct(book) {
            Ok(Some(p)) => p,
            Ok(None) => {
                return Ok(None);
            },
            Err(_) => {
                // unreachable: the entropy call has already shown the
                // spread percentage representable
                proof {
                    assert(false);
                }
                return Err(ArithError::Overflow);
            },
        };
        let threshold = Fixed::from_mantissa(PROPOSAL_CONTRADICTION_THRESHOLD_M);
        let spread_threshold = Fixed::from_mantissa(PROPOSAL_SPREAD_THRESHOLD_M);
        if contradiction.gt(threshold) && pct.gt(spread_threshold) {
            let imb = match calculate_depth_imbalance(book) {
                Ok(v) => v,
                Err(_) => {
                    // unreachable: the entropy call has already shown
                    // the imbalance representable
                    proof {
                        assert(false);
                    }
                    return Err(ArithError::Overflow);
                },
            };
            let side = if !imb.is_negative() {
                Side::Buy
            } else {
                Side::Sell
            };
            let quantity = Fixed::from_mantissa(PROPOSAL_SEED_QUANTITY_M);
            Ok(
                Some(
                    TradeSignal {
                        symbol: symbol.clone(),
                        venue: venue.clone(),
                        side,
                        order_type: OrderType::Limit,
                        quantity,
                        limit_price: Some(mid),
                        stop_price: None,
                        timestamp: now_ms,
                        contradiction_score: contradiction,
                        entropy_count: entropy,
                    },
                ),
            )
        } else {
            Ok(None)
        }
    }

    /// The fraction of proposals the checker has rejected.
    pub fn hallucination_rate(&self) -> (r: Fixed)
        requires
            self.hallucination_count <= self.total_proposals,
        ensures
            r@ == spec_hallucination_rate(
                self.hallucination_count as int,
                self.total_proposals as int,
            ),
    {
        if self.total_proposals == 0 {
            return Fixed::zero();
        }
        let num: u128 = (self.hallucination_count as u128) * (SCALE as u128);
        let q: u128 = num / (self.total_proposals as u128);
        proof {
            assert((self.hallucination_count as int) * (SCALE as int) <= (
            self.total_proposals as int) * (SCALE as int) && (self.total_proposals as int) * (
            SCALE as int) <= u128::MAX as int) by (nonlinear_arith)
                requires
                    0 <= self.hallucination_count as int <= self.total_proposals as int,
                    self.total_proposals as int <= u64::MAX as int,
            ;
            vstd::arithmetic::div_mod::lemma_div_multiples_vanish(
                SCALE as int,
                self.total_proposals as int,
            );
            vstd::arithmetic::div_mod::lemma_div_is_ordered(
                (self.hallucination_count as int) * (SCALE as int),
                (self.total_proposals as int) * (SCALE as int),
                self.total_proposals as int,
            );
        }
        Fixed::from_mantissa(q as i128)
    }

    /// Records one verifier rejection.

    pub fn record_rejection(&mut self)
        requires
            old(self).hallucination_count < u64::MAX,
        ensures
            final(self).hallucination_count == old(self).hallucination_count + 1,
            final(self).total_proposals == old(self).total_proposals,
            final(self).feature_calc == old(self).feature_calc,
    {
        self.hallucination_count = self.hallucination_count + 1;
    }
}


impl Default for Proposer {
    /// Same as `new`.
    fn default() -> (r: Proposer)
        ensures
            r.feature_calc.wf(),
            r.hallucination_count == 0,
            r.total_proposals == 0,
    {
        Proposer::new()
    }
}

} // verus!
