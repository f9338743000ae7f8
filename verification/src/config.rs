//! The tool's configuration, as read from its TOML file at the edge.

use vstd::prelude::*;

use crate::sorted_map::SortedMap;

verus! {

/// Whole configuration.
pub struct ScoutConfig {
    pub analysis: AnalysisConfig,
    pub quality: QualityConfig,
    pub scan: ScanConfig,
    pub storage: StorageConfig,
    /// Chains by name.
    pub chains: SortedMap<String, ChainConfig>,
    /// Providers by port name.
    pub providers: SortedMap<String, ProviderConfig>,
    pub output: OutputConfig,
}

/// Report window and ranking.
#[derive(Debug)]
pub struct AnalysisConfig {
    pub period: String,
    pub finality: String,
    pub cost_basis: String,
    pub rank_by: String,
    pub profile: String,
    pub top: u32,
    pub quote_currency: String,
    pub max_backfill_days: u32,
    pub identity: String,
}

/// Quality gates a wallet must pass to be ranked.
#[derive(Debug)]
pub struct QualityConfig {
    pub min_closed_episodes: u32,
    pub min_active_days: u32,
    pub require_declared_scope_complete: bool,
    pub require_known_ranking_critical_basis: bool,
    pub require_verified_ranking_critical_ownership: bool,
    pub require_ranking_critical_prices: bool,
    pub require_resolved_open_exposure: bool,
}

/// Scanner limits.
#[derive(Debug)]
pub struct ScanConfig {
    pub backend: String,
    pub global_max_inflight: u32,
    pub default_endpoint_max_inflight: u32,
    pub request_timeout_ms: u64,
    pub max_attempts: u32,
    pub queue_max_batches: u32,
    pub queue_max_bytes: u64,
    pub max_response_bytes: u64,
    pub memory_budget_mib: u64,
    pub decode_workers: String,
    pub reorder_spill: bool,
}

/// Local storage.
#[derive(Debug)]
pub struct StorageConfig {
    pub backend: String,
    pub path: String,
    pub metadata: String,
    pub raw: String,
    pub writer_batch_rows: u32,
    pub writer_flush_ms: u64,
    pub busy_timeout_ms: u64,
}

/// One chain: EVM chains carry a chain id, Solana a network name.
#[derive(Debug)]
pub struct ChainConfig {
    pub enabled: bool,
    pub family: String,
    pub chain_id: Option<u64>,
    pub network: Option<String>,
    pub verify_genesis_identity: bool,
    pub rpc_url_env: String,
    pub fee_policy: Option<String>,
}

/// One provider port.
#[derive(Debug)]
pub struct ProviderConfig {
    pub adapter: String,
    pub api_key_env: String,
    pub quota_group: Option<String>,
}

/// Output settings.
#[derive(Debug)]
pub struct OutputConfig {
    pub format: String,
    pub progress: String,
    pub color: String,
    pub redact_secrets: bool,
}

} // verus!
