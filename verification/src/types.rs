//! Core data model: identifiers, market data, signals, proofs and
//! portfolio state. All numeric fields are fixed-point `Fixed` values
//! and all timestamps are UTC epoch milliseconds.

use vstd::prelude::*;
use crate::fixed::Fixed;

verus! {

/// Ticker identifier, e.g. `BTC/USD`. Opaque text; only membership in
/// the supported set matters to the rules.
#[derive(Debug)]
pub struct Symbol(pub String);

impl Clone for Symbol {
    fn clone(&self) -> (r: Symbol)
        ensures
            r == *self,
    {
        Symbol(self.0.clone())
    }
}

impl View for Symbol {
    type V = Seq<char>;

    open spec fn view(&self) -> Seq<char> {
        self.0@
    }
}

impl Symbol {
    /// Exact equality of the underlying text.
    pub fn same_as(&self, other: &Symbol) -> (r: bool)
        ensures
            r == (self@ == other@),
    {
        self.0 == other.0
    }
}

/// Venue identifier, e.g. `binance`.
#[derive(Debug)]
pub struct Venue(pub String);

impl Clone for Venue {
    fn clone(&self) -> (r: Venue)
        ensures
            r == *self,
    {
        Venue(self.0.clone())
    }
}

impl View for Venue {
    type V = Seq<char>;

    open spec fn view(&self) -> Seq<char> {
        self.0@
    }
}

impl Venue {
    /// Exact equality of the underlying text.
    pub fn same_as(&self, other: &Venue) -> (r: bool)
        ensures
            r == (self@ == other@),
    {
        self.0 == other.0
    }
}

/// Trade direction.
#[derive(Clone, Copy, Debug, PartialEq, Eq, Structural)]
pub enum Side {
    Buy,
    Sell,
}

/// Order flavor carried on a trade signal.
#[derive(Clone, Copy, Debug, PartialEq, Eq, Structural)]
pub enum OrderType {
    Market,
    Limit,
    Stop,
    StopLimit,
}

/// One normalized external trade print.
#[derive(Debug)]
pub struct Tick {
    pub symbol: Symbol,
    pub venue: Venue,
    pub price: Fixed,
    pub quantity: Fixed,
    pub timestamp: i64,
    pub side: Side,
}

impl Clone for Tick {
    fn clone(&self) -> (r: Tick)
        ensures
            r == *self,
    {
        Tick {
            symbol: self.symbol.clone(),
            venue: self.venue.clone(),
            price: self.price,
            quantity: self.quantity,
            timestamp: self.timestamp,
            side: self.side,
        }
    }
}

/// One price level of an order book.
#[derive(Clone, Copy, Debug, PartialEq, Eq, Structural)]
pub struct BookLevel {
    pub price: Fixed,
    pub quantity: Fixed,
}

/// A normalized order-book snapshot. Bids are sorted strictly
/// descending by price, asks strictly ascending, and the book is not
/// crossed; `sequence` increases strictly per `(symbol, venue)` stream.
#[derive(Clone, Debug)]
pub struct OrderBook {
    pub symbol: Symbol,
    pub venue: Venue,
    pub bids: Vec<BookLevel>,
    pub asks: Vec<BookLevel>,
    pub timestamp: i64,
    pub sequence: u64,
}

/// A candidate trade intent produced by the proposer.
#[derive(Debug)]
pub struct TradeSignal {
    pub symbol: Symbol,
    pub venue: Venue,
    pub side: Side,
    pub order_type: OrderType,
    pub quantity: Fixed,
    pub limit_price: Option<Fixed>,
    pub stop_price: Option<Fixed>,
    pub timestamp: i64,
    pub contradiction_score: Fixed,
    pub entropy_count: Fixed,
}

impl Clone for TradeSignal {
    fn clone(&self) -> (r: TradeSignal)
        ensures
            r == *self,
    {
        TradeSignal {
            symbol: self.symbol.clone(),
            venue: self.venue.clone(),
            side: self.side,
            order_type: self.order_type,
            quantity: self.quantity,
            limit_price: self.limit_price,
            stop_price: self.stop_price,
            timestamp: self.timestamp,
            contradiction_score: self.contradiction_score,
            entropy_count: self.entropy_count,
        }
    }
}

/// The axioms a proof can discharge.
#[derive(Clone, Copy, Debug, PartialEq, Eq, Structural)]
pub enum AxiomId {
    PositionSizeLimit,
    LeverageLimit,
    RiskBudget,
    EnergyConstraint,
}

/// Artifact emitted by the verifier: satisfiability verdict, the
/// solver's model as name/value byte strings, and the axioms shown.
#[derive(Clone, Debug)]
pub struct Proof {
    pub satisfiable: bool,
    pub model: Vec<(Vec<u8>, Vec<u8>)>,
    pub axioms_satisfied: Vec<AxiomId>,
}

/// A trade intent that passed verification, with its proof.
#[derive(Clone, Debug)]
pub struct VerifiedOrder {
    pub signal: TradeSignal,
    pub proof: Proof,
    pub proof_signature: Vec<u8>,
    pub verified_at: i64,
}

/// One open position; quantity is strictly positive while present.
#[derive(Debug)]
pub struct Position {
    pub symbol: Symbol,
    pub venue: Venue,
    pub side: Side,
    pub quantity: Fixed,
    pub entry_price: Fixed,
    pub current_price: Fixed,
    pub unrealized_pnl: Fixed,
    pub realized_pnl: Fixed,
}

impl Clone for Position {
    fn clone(&self) -> (r: Position)
        ensures
            r == *self,
    {
        Position {
            symbol: self.symbol.clone(),
            venue: self.venue.clone(),
            side: self.side,
            quantity: self.quantity,
            entry_price: self.entry_price,
            current_price: self.current_price,
            unrealized_pnl: self.unrealized_pnl,
            realized_pnl: self.realized_pnl,
        }
    }
}

/// Portfolio state. The derived fields (exposures, leverage, energy)
/// are recomputed after every mutation, never accepted from outside.
#[derive(Clone, Debug)]
pub struct Portfolio {
    pub equity: Fixed,
    pub positions: Vec<Position>,
    pub total_exposure: Fixed,
    pub net_exposure: Fixed,
    pub leverage: Fixed,
    pub energy: Fixed,
    pub correlation_matrix: Vec<Fixed>,
}

/// Circuit-breaker state; `Tripped` latches until an operator reset.
#[derive(Clone, Copy, Debug, PartialEq, Eq, Structural)]
pub enum CircuitBreakerState {
    Normal,
    Warning,
    Tripped,
}

/// One field of an untrusted key-value document, after the transport
/// layer has flattened it: text bytes, a whole number, or anything
/// else (which every normalizer rejects).
#[derive(Clone, Debug)]
pub enum FieldValue {
    Text(Vec<u8>),
    Integer(i64),
    Other,
}

/// An untrusted trade-print document, one field per tick component.
#[derive(Clone, Debug)]
pub struct TickDoc {
    pub symbol: Option<String>,
    pub price: FieldValue,
    pub quantity: FieldValue,
    pub timestamp: FieldValue,
    pub side: Option<String>,
}

/// An untrusted book snapshot: price/quantity pairs per side.
#[derive(Clone, Debug)]
pub struct BookSnapshotDoc {
    pub bids: Option<Vec<(FieldValue, FieldValue)>>,
    pub asks: Option<Vec<(FieldValue, FieldValue)>>,
}

/// Aggregated health snapshot exported by the monitor.
#[derive(Clone, Copy, Debug)]
pub struct SystemHealth {
    pub consistency_error: Fixed,
    pub entropy_count: Fixed,
    pub circuit_breaker: CircuitBreakerState,
    pub hallucination_rate: Fixed,
    pub latency_p50: u64,
    pub latency_p99: u64,
    pub latency_p999: u64,
    pub timestamp: i64,
}

} // verus!
