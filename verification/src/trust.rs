//! Data trust level: verified (our own decode) or external and unverified,
//! the latter only with an explicit, reasoned opt-in.

use vstd::prelude::*;

verus! {

/// Why a caller opts into unverified external data.
#[derive(Debug, Clone, PartialEq, Eq)]
#[non_exhaustive]
pub enum ExternalDataAcknowledgement {
    /// The caller's own indexer/pipeline, trusted for a stated reason.
    TrustedExternalSource { description: String },
    /// Exploratory use where strict verification is not required.
    ExploratoryUse { description: String },
}

/// Token proving that a caller explicitly opted into unverified data; its
/// only constructor requires a reason.
#[derive(Debug, Clone)]
#[non_exhaustive]
pub struct ExternalDataOptIn {
    reason: ExternalDataAcknowledgement,
}

impl ExternalDataOptIn {
    /// The stated reason of this opt-in.
    pub closed spec fn stated_reason(&self) -> ExternalDataAcknowledgement {
        self.reason
    }

    /// The only way to construct the token.
    pub fn acknowledge(reason: ExternalDataAcknowledgement) -> (t: Self)
        ensures
            t.stated_reason() == reason,
    {
        ExternalDataOptIn { reason }
    }

    pub fn reason(&self) -> (r: &ExternalDataAcknowledgement)
        ensures
            *r == self.stated_reason(),
    {
        &self.reason
    }
}

/// Trust level of one piece of data: unverified data can only be
/// constructed together with an opt-in token.
#[derive(Debug, Clone)]
#[non_exhaustive]
pub enum TrustLevel {
    Verified,
    ExternalUnverified(ExternalDataOptIn),
}

impl TrustLevel {
    pub fn is_verified(&self) -> (b: bool)
        ensures
            b == (self is Verified),
    {
        match self {
            TrustLevel::Verified => true,
            TrustLevel::ExternalUnverified(_) => false,
        }
    }
}

} // verus!
