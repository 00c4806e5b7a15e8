//! A deterministic trading core: fixed-point accounting, an invariant
//! contract over trade signals and portfolio state, a proposer/verifier
//! signal pipeline with signed attestations, and latching risk controls.

pub mod alerts;
pub mod circuit_breaker;
pub mod codec;
pub mod constants;
pub mod errors;
pub mod features;
pub mod fixed;
pub mod hamiltonian;
pub mod invariants;
pub mod monitoring;
pub mod normalization;
pub mod onchain;
pub mod orderbook;
pub mod portfolio;
pub mod position_sizing;
pub mod proposer;
pub mod routing;
pub mod signals;
pub mod safety;
pub mod signature;
pub mod types;
pub mod verification;

pub use fixed::Fixed;
