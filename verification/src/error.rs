//! The caller-facing error taxonomy.  Individual malformed stream frames
//! are deliberately not represented here: they are dropped inside the
//! collector and never surface.

use vstd::prelude::*;

verus! {

/// What a completion or directory call can fail with.
#[derive(Debug, PartialEq, Eq)]
pub enum ProviderError {
    /// Network, URL or connection failure: fatal, surfaced once, carrying
    /// the cause text.
    RequestFailed(Vec<u8>),
    /// The vendor returned a structured error object: fatal, carrying the
    /// vendor's message verbatim.
    Authentication(Vec<u8>),
    /// A malformed response or usage structure: non-fatal, the caller
    /// recovers with a zero usage record.
    UsageError(Vec<u8>),
    /// An operation this vendor does not offer.
    ExecutionError(Vec<u8>),
}

impl ProviderError {
    /// The text the error carries.
    pub fn message(&self) -> (r: &Vec<u8>)
        ensures
            r@ == self.spec_message(),
    {
        match self {
            ProviderError::RequestFailed(m) => m,
            ProviderError::Authentication(m) => m,
            ProviderError::UsageError(m) => m,
            ProviderError::ExecutionError(m) => m,
        }
    }

    /// The text the error carries.
    pub open spec fn spec_message(&self) -> Seq<u8> {
        match self {
            ProviderError::RequestFailed(m) => m@,
            ProviderError::Authentication(m) => m@,
            ProviderError::UsageError(m) => m@,
            ProviderError::ExecutionError(m) => m@,
        }
    }
}

} // verus!
