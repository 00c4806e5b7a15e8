//! Compiled-in operational constants. Values are raw `Fixed` mantissas
//! (scale 10^14) so that contracts can speak of them exactly.

use vstd::prelude::*;
use crate::fixed::Fixed;
use crate::types::{Symbol, Venue};

verus! {

/// Seed for any randomized component; fixed for reproducibility.
pub const DETERMINISTIC_SEED: u64 = 42;

/// Largest tolerated consistency error (mantissa): exactly zero.
pub const MAX_CONSISTENCY_ERROR_M: i128 = 0;

/// Largest position size per symbol, in base units (mantissas).
pub const MAX_POSITION_SIZE_BTC_M: i128 = 1_000_000_000_000_000;

pub const MAX_POSITION_SIZE_ETH_M: i128 = 10_000_000_000_000_000;

pub const MAX_POSITION_SIZE_SOL_M: i128 = 100_000_000_000_000_000;

/// Largest single order size per symbol, in base units (mantissas).
pub const MAX_ORDER_SIZE_BTC_M: i128 = 100_000_000_000_000;

pub const MAX_ORDER_SIZE_ETH_M: i128 = 1_000_000_000_000_000;

pub const MAX_ORDER_SIZE_SOL_M: i128 = 10_000_000_000_000_000;

/// Largest gross portfolio leverage: 3.0.
pub const MAX_LEVERAGE_M: i128 = 300_000_000_000_000;

/// Per-trade risk budget bounds as fraction of equity: 0.25% and 1%.
pub const MIN_RISK_BUDGET_M: i128 = 250_000_000_000;

pub const MAX_RISK_BUDGET_M: i128 = 1_000_000_000_000;

/// Daily drawdown that trips the circuit breaker: 3%.
pub const MAX_DAILY_DRAWDOWN_M: i128 = 3_000_000_000_000;

/// Numeric stability threshold for entropy and energy: 10^-12.
pub const DELTA_U_MAX_SQ_M: i128 = 100;

/// Correlation penalty per concentrated position: 0.1.
pub const CORRELATION_PENALTY_UNIT_M: i128 = 10_000_000_000_000;

/// Largest tolerated slippage as a fraction of mid price: 0.1%.
pub const MAX_SLIPPAGE_TOLERANCE_M: i128 = 100_000_000_000;

/// Smallest liquidity, in quote currency: 10 000.
pub const MIN_LIQUIDITY_USD_M: i128 = 1_000_000_000_000_000_000;

/// Hallucination-rate ceiling: 10^-4.
pub const MAX_HALLUCINATION_RATE_M: i128 = 10_000_000_000;

/// Ingestion latency targets, in milliseconds.
pub const TARGET_LATENCY_ORDERBOOK: u64 = 5;

pub const TARGET_LATENCY_ONCHAIN: u64 = 50;

pub const TARGET_LATENCY_ONTOLOGY: u64 = 200;

/// Whether a ticker belongs to the closed supported set.
pub open spec fn spec_supported_symbol(s: Seq<char>) -> bool {
    s == "BTC/USD"@ || s == "ETH/USD"@ || s == "SOL/USD"@
}

/// Whether a venue belongs to the closed supported set.
pub open spec fn spec_supported_venue(s: Seq<char>) -> bool {
    s == "binance"@ || s == "bybit"@ || s == "hyperliquid"@
}

/// Position-size cap for a ticker, or `None` outside the supported set.
pub open spec fn spec_max_position_size(s: Seq<char>) -> Option<int> {
    if s == "BTC/USD"@ {
        Some(MAX_POSITION_SIZE_BTC_M as int)
    } else if s == "ETH/USD"@ {
        Some(MAX_POSITION_SIZE_ETH_M as int)
    } else if s == "SOL/USD"@ {
        Some(MAX_POSITION_SIZE_SOL_M as int)
    } else {
        None
    }
}

/// Order-size cap for a ticker, or `None` outside the supported set.
pub open spec fn spec_max_order_size(s: Seq<char>) -> Option<int> {
    if s == "BTC/USD"@ {
        Some(MAX_ORDER_SIZE_BTC_M as int)
    } else if s == "ETH/USD"@ {
        Some(MAX_ORDER_SIZE_ETH_M as int)
    } else if s == "SOL/USD"@ {
        Some(MAX_ORDER_SIZE_SOL_M as int)
    } else {
        None
    }
}

/// Membership of a ticker in the supported set.
pub fn is_supported_symbol(symbol: &Symbol) -> (r: bool)
    ensures
        r == spec_supported_symbol(symbol@),
{
    symbol.0 == "BTC/USD".to_owned() || symbol.0 == "ETH/USD".to_owned() || symbol.0
        == "SOL/USD".to_owned()
}

/// Membership of a venue in the supported set.
pub fn is_supported_venue(venue: &Venue) -> (r: bool)
    ensures
        r == spec_supported_venue(venue@),
{
    venue.0 == "binance".to_owned() || venue.0 == "bybit".to_owned() || venue.0
        == "hyperliquid".to_owned()
}

/// Position-size cap for a ticker.
pub fn max_position_size(symbol: &Symbol) -> (r: Option<Fixed>)
    ensures
        match r {
            Some(v) => spec_max_position_size(symbol@) == Some(v@),
            None => spec_max_position_size(symbol@) is None,
        },
{
    if symbol.0 == "BTC/USD".to_owned() {
        Some(Fixed::from_mantissa(MAX_POSITION_SIZE_BTC_M))
    } else if symbol.0 == "ETH/USD".to_owned() {
        Some(Fixed::from_mantissa(MAX_POSITION_SIZE_ETH_M))
    } else if symbol.0 == "SOL/USD".to_owned() {
        Some(Fixed::from_mantissa(MAX_POSITION_SIZE_SOL_M))
    } else {
        None
    }
}

/// Order-size cap for a ticker.
pub fn max_order_size(symbol: &Symbol) -> (r: Option<Fixed>)
    ensures
        match r {
            Some(v) => spec_max_order_size(symbol@) == Some(v@),
            None => spec_max_order_size(symbol@) is None,
        },
{
    if symbol.0 == "BTC/USD".to_owned() {
        Some(Fixed::from_mantissa(MAX_ORDER_SIZE_BTC_M))
    } else if symbol.0 == "ETH/USD".to_owned() {
        Some(Fixed::from_mantissa(MAX_ORDER_SIZE_ETH_M))
    } else if symbol.0 == "SOL/USD".to_owned() {
        Some(Fixed::from_mantissa(MAX_ORDER_SIZE_SOL_M))
    } else {
        None
    }
}

} // verus!
