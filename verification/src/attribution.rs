//! Owner attribution: a typed result that never promotes a relayer,
//! router or first signer to the economic owner without evidence.

use vstd::prelude::*;

use crate::identity::WalletKey;

verus! {

/// Why an attribution could not reach `Confident`.
#[derive(Debug, Clone, Copy, PartialEq, Eq)]
pub enum AmbiguityReason {
    /// Only a relayer/router/bundler/fee-payer signal was available.
    OnlyRelayerSignal,
    /// More than one wallet is an equally plausible economic owner.
    MultipleCandidates,
}

/// Which signal justified a `Confident` classification.
#[derive(Debug, Clone, Copy, PartialEq, Eq)]
pub enum AttributionEvidence {
    /// The recipient token account's tracked owner matches, and no
    /// router/relayer pattern was detected for this protocol version.
    RecipientOwnerMatch,
    /// The sole signer is also the recipient, and the protocol version is
    /// known not to use a relayer pattern.
    SoleSignerNoRelayerPattern,
}

/// Owner attribution result for one action.
#[derive(Debug, PartialEq, Eq)]
pub enum AttributionStatus {
    Confident { owner: WalletKey, evidence: AttributionEvidence },
    Ambiguous { candidates: Vec<WalletKey>, reason: AmbiguityReason },
}

impl AttributionStatus {
    pub fn is_confident(&self) -> (b: bool)
        ensures
            b == (self is Confident),
    {
        match self {
            AttributionStatus::Confident { .. } => true,
            AttributionStatus::Ambiguous { .. } => false,
        }
    }

    /// The confidently attributed owner. An `Ambiguous` status never
    /// yields a wallet: there is no "pick the first candidate".
    pub fn confident_owner(&self) -> (r: Option<&WalletKey>)
        ensures
            self matches AttributionStatus::Confident { owner, .. } ==> r == Some(owner),
            self is Ambiguous ==> r is None,
    {
        match self {
            AttributionStatus::Confident { owner, .. } => Some(owner),
            AttributionStatus::Ambiguous { .. } => None,
        }
    }
}

} // verus!
