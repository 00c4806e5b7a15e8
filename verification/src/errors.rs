//! Error algebra shared across the crate. Every failure is a typed
//! variant; no failure path unwinds.

use vstd::prelude::*;
use crate::invariants::InvariantViolation;
use crate::signature::SignatureError;

verus! {

/// Top-level error type.
#[derive(Clone, Debug, PartialEq)]
pub enum AxiomError {
    InvariantViolation(InvariantViolation),
    SignatureError(SignatureError),
    DataError(String),
    ExecutionError(String),
    RiskError(String),
    VerificationError(String),
}

impl From<InvariantViolation> for AxiomError {
    fn from(v: InvariantViolation) -> (r: AxiomError)
        ensures
            r == AxiomError::InvariantViolation(v),
    {
        AxiomError::InvariantViolation(v)
    }
}

impl vstd::std_specs::convert::FromSpecImpl<InvariantViolation> for AxiomError {
    open spec fn obeys_from_spec() -> bool {
        true
    }

    open spec fn from_spec(v: InvariantViolation) -> Self {
        AxiomError::InvariantViolation(v)
    }
}

impl From<SignatureError> for AxiomError {
    fn from(v: SignatureError) -> (r: AxiomError)
        ensures
            r == AxiomError::SignatureError(v),
    {
        AxiomError::SignatureError(v)
    }
}

impl vstd::std_specs::convert::FromSpecImpl<SignatureError> for AxiomError {
    open spec fn obeys_from_spec() -> bool {
        true
    }

    open spec fn from_spec(v: SignatureError) -> Self {
        AxiomError::SignatureError(v)
    }
}

/// A failure while normalizing one untrusted field.
#[derive(Clone, Debug, PartialEq)]
pub enum NormalizationError {
    ParseError(String),
    InvalidType(String),
}

/// A failure while ingesting one untrusted message.
#[derive(Clone, Debug, PartialEq)]
pub enum IngestionError {
    Normalization(NormalizationError),
    Network(String),
    ExchangeApi(String),
    Timeout(String),
    InvalidFormat(String),
}

impl From<NormalizationError> for IngestionError {
    fn from(v: NormalizationError) -> (r: IngestionError)
        ensures
            r == IngestionError::Normalization(v),
    {
        IngestionError::Normalization(v)
    }
}

impl vstd::std_specs::convert::FromSpecImpl<NormalizationError> for IngestionError {
    open spec fn obeys_from_spec() -> bool {
        true
    }

    open spec fn from_spec(v: NormalizationError) -> Self {
        IngestionError::Normalization(v)
    }
}

} // verus!
