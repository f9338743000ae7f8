//! Activity from a third-party normalized source. Such data is always
//! external and unverified: a claim carries no trust of its own, and the
//! only way to hold it as activity is with an explicit opt-in.

use vstd::prelude::*;

use crate::identity::{AssetKey, WalletKey};
use crate::trust::{ExternalDataOptIn, TrustLevel};

verus! {

/// One claim of activity from an external source; it has no trust field.
#[derive(Debug)]
pub struct ExternalActivityClaim {
    pub wallet: WalletKey,
    pub asset: AssetKey,
    pub description: String,
}

/// A claim together with its trust level.
#[derive(Debug)]
pub struct ExternalActivity {
    pub claim: ExternalActivityClaim,
    pub trust: TrustLevel,
}

impl ExternalActivity {
    /// Wraps a claim; the result is always external and unverified.
    pub fn from_claim(claim: ExternalActivityClaim, opt_in: ExternalDataOptIn) -> (a: Self)
        ensures
            a.claim == claim,
            a.trust == TrustLevel::ExternalUnverified(opt_in),
    {
        ExternalActivity { claim, trust: TrustLevel::ExternalUnverified(opt_in) }
    }

    pub fn is_verified(&self) -> (b: bool)
        ensures
            b == (self.trust is Verified),
    {
        self.trust.is_verified()
    }
}

/// A third-party source of normalized activity, implemented by users.
pub trait NormalizedActivitySource {
    fn fetch_activity(&self, wallet: &WalletKey) -> Vec<ExternalActivityClaim>;
}

} // verus!
