//! The lot model of the FIFO ledger.

use vstd::prelude::*;

use crate::amount::{Money, RawAmount};
use crate::identity::AssetKey;
use crate::trust::TrustLevel;

verus! {

/// Whether a lot's acquisition cost is known. Unknown basis is never
/// treated as zero.
#[derive(Debug, PartialEq, Eq)]
pub enum BasisStatus {
    Known,
    Unknown { reason: String },
}

impl Clone for BasisStatus {
    fn clone(&self) -> (r: Self)
        ensures
            r == *self,
    {
        match self {
            BasisStatus::Known => BasisStatus::Known,
            BasisStatus::Unknown { reason } => BasisStatus::Unknown { reason: reason.clone() },
        }
    }
}

/// The reason recorded for lots acquired through unverified data.
pub open spec fn unverified_reason() -> Seq<char> {
    "acquired via Tier 2 (ExternalUnverified) source"@
}

impl BasisStatus {
    /// The forced status of any lot acquired from unverified data: never
    /// `Known`.
    pub fn unverified() -> (s: BasisStatus)
        ensures
            s matches BasisStatus::Unknown { reason } && reason@ == unverified_reason(),
    {
        BasisStatus::Unknown {
            reason: String::from_str("acquired via Tier 2 (ExternalUnverified) source"),
        }
    }
}

/// Which acquisition path recorded a lot.
#[derive(Debug, Clone, Copy, PartialEq, Eq)]
pub enum LotProvenance {
    Verified,
    Unverified,
}

impl<'a> From<&'a TrustLevel> for LotProvenance {
    /// `Verified` exactly for verified data.
    fn from(trust: &'a TrustLevel) -> (p: LotProvenance) {
        if trust.is_verified() {
            LotProvenance::Verified
        } else {
            LotProvenance::Unverified
        }
    }
}

impl<'a> vstd::std_specs::convert::FromSpecImpl<&'a TrustLevel> for LotProvenance {
    open spec fn obeys_from_spec() -> bool {
        true
    }

    open spec fn from_spec(trust: &'a TrustLevel) -> LotProvenance {
        if trust is Verified {
            LotProvenance::Verified
        } else {
            LotProvenance::Unverified
        }
    }
}

/// One FIFO acquisition lot; remaining amount and basis shrink as it is
/// disposed of.
#[derive(Debug)]
pub struct Lot {
    pub asset: AssetKey,
    /// Monotonic acquisition sequence number: the FIFO order.
    pub acquisition_sequence: u64,
    pub original_amount: RawAmount,
    pub remaining_amount: RawAmount,
    /// Capitalized acquisition cost of the whole original lot.
    pub original_basis: Money,
    /// Portion of the original basis not yet consumed.
    pub remaining_basis: Money,
    pub basis_status: BasisStatus,
    pub provenance: LotProvenance,
}

impl Clone for Lot {
    fn clone(&self) -> (r: Self)
        ensures
            r == *self,
    {
        Lot {
            asset: self.asset.clone(),
            acquisition_sequence: self.acquisition_sequence,
            original_amount: self.original_amount,
            remaining_amount: self.remaining_amount,
            original_basis: self.original_basis,
            remaining_basis: self.remaining_basis,
            basis_status: self.basis_status.clone(),
            provenance: self.provenance,
        }
    }
}

impl Lot {
    pub fn is_exhausted(&self) -> (b: bool)
        ensures
            b == (self.remaining_amount@ == 0),
    {
        self.remaining_amount.is_zero()
    }
}

} // verus!
