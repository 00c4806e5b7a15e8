//! The proposer/verifier pipeline: a proposal is generated from a book
//! snapshot and verified against the same portfolio snapshot; a
//! rejection is recorded against the proposer's hallucination rate.

use vstd::prelude::*;
use crate::features::{spec_contradiction, spec_entropy};
use crate::fixed::{ArithError, Fixed};
use crate::invariants::{spec_energy_check, spec_l0};
use crate::proposer::{
    spec_should_propose, spec_propose_ok, Proposer, spec_hallucination_rate,
    PROPOSAL_SEED_QUANTITY_M,
};
use crate::normalization::{spec_book_wf, spec_imbalance, spec_mid_price, spec_qty_sum};
use crate::types::{OrderBook, OrderType, Portfolio, Side, Symbol, Venue, VerifiedOrder};
use crate::verification::{spec_sat_order, Verifier};

verus! {

/// The pipeline: one proposer and one verification gate.
pub struct SignalGenerator {
    pub proposer: Proposer,
    pub gate: Verifier,
}

impl SignalGenerator {
    /// A fresh pipeline.
    pub fn new() -> (r: SignalGenerator)
        ensures
            r.proposer.hallucination_count == 0,
            r.proposer.total_proposals == 0,
    {
        SignalGenerator { proposer: Proposer::new(), gate: Verifier::new() }
    }

    /// Runs one pipeline step on a book snapshot: propose, verify
    /// against the same portfolio snapshot, and count a rejection.
    /// The step fails exactly when a feature is unrepresentable; a
    /// non-proposable book yields nothing; an emitted order carries
    /// exactly the policy's signal for this book and time, satisfies
    /// the invariant contract on this snapshot, and has the fixed
    /// satisfiable shape — so everything but the solver's own verdict
    /// is a function of the inputs.
    pub fn generate_signal(
        &mut self,
        symbol: &Symbol,
        venue: &Venue,
        book: &OrderBook,
        portfolio: &Portfolio,
        now_ms: i64,
    ) -> (r: Result<Option<VerifiedOrder>, ArithError>)
        requires
            spec_book_wf(*book),
            old(self).proposer.total_proposals < u64::MAX,
            old(self).proposer.hallucination_count < u64::MAX,
        ensures
            final(self).proposer.total_proposals == old(self).proposer.total_proposals + 1,
            final(self).proposer.feature_calc == old(self).proposer.feature_calc,
            r is Err <==> !spec_propose_ok(*book),
            (spec_propose_ok(*book) && !spec_should_propose(*book)) ==> (r matches Ok(None)),
            match r {
                Ok(Some(order)) => {
                    &&& spec_should_propose(*book)
                    &&& order.signal.symbol@ == symbol@
                    &&& order.signal.venue@ == venue@
                    &&& order.signal.side == (if spec_imbalance(
                        spec_qty_sum(book.bids@),
                        spec_qty_sum(book.asks@),
                    ) >= 0 {
                        Side::Buy
                    } else {
                        Side::Sell
                    })
                    &&& order.signal.order_type == OrderType::Limit
                    &&& order.signal.quantity@ == PROPOSAL_SEED_QUANTITY_M as int
                    &&& (match order.signal.limit_price {
                        Some(m) => spec_mid_price(*book) == Some(m@),
                        None => false,
                    })
                    &&& order.signal.stop_price is None
                    &&& order.signal.timestamp == now_ms
                    &&& order.signal.contradiction_score@ == spec_contradiction(*book, 0)
                    &&& order.signal.entropy_count@ == spec_entropy(*book)
                    &&& spec_l0(order.signal, *portfolio) is Ok
                    &&& spec_energy_check(*portfolio) is Ok
                    &&& spec_sat_order(order, order.signal, now_ms)
                    &&& final(self).proposer.hallucination_count == old(
                        self,
                    ).proposer.hallucination_count
                },
                Ok(None) => {
                    &&& (!spec_should_propose(*book) ==> final(self).proposer.hallucination_count
                        == old(self).proposer.hallucination_count)
                    &&& (spec_should_propose(*book) ==> final(self).proposer.hallucination_count
                        == old(self).proposer.hallucination_count + 1)
                },
                Err(e) => e == ArithError::Overflow && final(self).proposer.hallucination_count
                    == old(self).proposer.hallucination_count,
            },
    {
        let proposal = match self.proposer.propose_trade(symbol, venue, book, portfolio, now_ms) {
            Ok(p) => p,
            Err(e) => {
                return Err(e);
            },
        };
        let signal = match proposal {
            Some(s) => s,
            None => {
                return Ok(None);
            },
        };
        match self.gate.verify_signal(&signal, portfolio, now_ms) {
            Ok(order) => Ok(Some(order)),
            Err(_) => {
                self.proposer.record_rejection();
                Ok(None)
            },
        }
    }

    /// The proposer's current hallucination rate.
    pub fn hallucination_rate(&self) -> (r: Fixed)
        requires
            self.proposer.hallucination_count <= self.proposer.total_proposals,
        ensures
            r@ == spec_hallucination_rate(
                self.proposer.hallucination_count as int,
                self.proposer.total_proposals as int,
            ),
    {
        self.proposer.hallucination_rate()
    }
}


impl Default for SignalGenerator {
    /// Same as `new`.
    fn default() -> (r: SignalGenerator)
        ensures
            r.proposer.hallucination_count == 0,
            r.proposer.total_proposals == 0,
    {
        SignalGenerator::new()
    }
}

} // verus!
