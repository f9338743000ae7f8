//! Output records of the command-line tools, one JSON object per line at
//! the edge, and the outcome of writing them.

use vstd::prelude::*;

use crate::identity::{AssetKey, WalletKey};

verus! {

/// Version of the JSONL envelope schema.
pub const SCHEMA_VERSION: u32 = 1;

/// One output record; every kind that names a wallet does so in a field
/// called `wallet`.
#[derive(Debug)]
pub enum JsonlRecord {
    RunMeta { run_id: String, window: Window, snapshot_manifest: String },
    WalletRef { wallet: WalletKey },
    BuyerMatch { wallet: WalletKey, hit_count: usize, matched_assets: Vec<AssetKey> },
    WalletExcluded { wallet: WalletKey, reason: String },
    RunSummary { run_id: String, status: RunStatus, records: usize },
}

/// The report window.
#[derive(Debug)]
pub struct Window {
    pub since: String,
    pub until: String,
}

/// How a run ended: a string status, never a bool.
#[derive(Debug, Clone, Copy, PartialEq, Eq, Structural)]
pub enum RunStatus {
    Complete,
    Partial,
}

/// Whether every line reached the output, or the reader went away.
#[derive(Debug, Clone, Copy, PartialEq, Eq, Structural)]
pub enum WriteOutcome {
    Complete,
    PipeClosed,
}

} // verus!
