use trader_scout::api::{CapabilityStatus, ProviderError, RetryAfter, SourceCapabilities};
use trader_scout::decoder::{DecodeOutcome, DeploymentScope};
use trader_scout::error::ScoutError;
use trader_scout::identity::{AddressBytes, AssetKey, ChainFamily, ChainKey, GenesisIdentity, NetworkId, WalletKey};
use trader_scout::normalized_source::{ExternalActivity, ExternalActivityClaim, NormalizedActivitySource};
use trader_scout::providers::{Fixture, FixtureError, FixtureProvenance, FixtureProvider, UnconfiguredProvider};
use trader_scout::trust::{ExternalDataAcknowledgement, ExternalDataOptIn, TrustLevel};

fn evm_chain() -> ChainKey {
    ChainKey {
        family: ChainFamily::Evm,
        network_id: NetworkId::EvmChainId(8453),
        genesis_identity: GenesisIdentity::Unverified,
    }
}

fn test_scope(from: u64, until: Option<u64>) -> DeploymentScope {
    DeploymentScope {
        chain: evm_chain(),
        contract_addresses: vec![AddressBytes::Evm([0xAA; 20])],
        active_from: from,
        active_until: until,
    }
}

fn test_wallet() -> WalletKey {
    WalletKey { chain: evm_chain(), address: AddressBytes::Evm([0x11; 20]) }
}

fn test_asset() -> AssetKey {
    AssetKey::Token(evm_chain(), AddressBytes::Evm([0x22; 20]))
}

#[test]
fn scope_with_no_upper_bound_covers_any_position_at_or_after_start() {
    let scope = test_scope(100, None);
    assert!(!scope.covers_position(99));
    assert!(scope.covers_position(100));
    assert!(scope.covers_position(1_000_000));
}

#[test]
fn scope_with_upper_bound_excludes_positions_after_it() {
    let scope = test_scope(100, Some(200));
    assert!(scope.covers_position(100));
    assert!(scope.covers_position(200));
    assert!(!scope.covers_position(201));
}

#[test]
fn scope_only_covers_its_declared_addresses() {
    let scope = test_scope(0, None);
    assert!(scope.covers_address(&AddressBytes::Evm([0xAA; 20])));
    assert!(!scope.covers_address(&AddressBytes::Evm([0xBB; 20])));
}

#[test]
fn not_mine_and_malformed_are_distinct_outcomes() {
    let not_mine: DecodeOutcome<u32> = DecodeOutcome::NotMine;
    let malformed: DecodeOutcome<u32> = DecodeOutcome::Malformed("bad".to_string());
    assert!(not_mine.is_not_mine());
    assert!(!not_mine.is_malformed());
    assert!(malformed.is_malformed());
    assert!(!malformed.is_not_mine());
}

#[test]
fn decoded_yields_only_a_decoded_value() {
    assert_eq!(DecodeOutcome::Decoded(7u32).decoded(), Some(7));
    assert_eq!(DecodeOutcome::<u32>::NotMine.decoded(), None);
    assert_eq!(DecodeOutcome::<u32>::Malformed("x".to_string()).decoded(), None);
}

#[test]
fn configuration_required_accepts_runtime_strings_not_just_static() {
    let port_name = format!("{}-history", "custom");
    let err = ProviderError::ConfigurationRequired {
        port: port_name.clone(),
        detail: "set MY_CUSTOM_API_KEY".to_string(),
    };
    assert!(err.to_display_string().contains(&port_name));
}

#[test]
fn rate_limited_without_retry_after_still_displays() {
    let err = ProviderError::RateLimited { retry_after: None };
    assert!(err.to_display_string().contains("rate limited"));
}

#[test]
fn transport_error_preserves_source_chain() {
    let inner = std::io::Error::new(std::io::ErrorKind::TimedOut, "connection timed out");
    let err = ProviderError::Transport(inner.to_string());
    assert!(err.source_message().is_some());
}

#[test]
fn provider_error_messages_are_exact() {
    let err = ProviderError::ConfigurationRequired {
        port: "evm_history".to_string(),
        detail: "set KEY".to_string(),
    };
    assert_eq!(err.to_display_string(), "configuration required for port `evm_history`: set KEY");
    assert_eq!(
        ProviderError::Unsupported { capability: "raw_transactions".to_string() }.to_display_string(),
        "capability `raw_transactions` is not supported"
    );
    assert_eq!(
        ProviderError::Other("boom".to_string()).to_display_string(),
        "provider error: boom"
    );
    assert_eq!(
        ProviderError::Transport("down".to_string()).to_display_string(),
        "transport error: down"
    );
    let limited = ProviderError::RateLimited {
        retry_after: Some(RetryAfter::from_millis(1500)),
    };
    assert_eq!(limited.to_display_string(), "rate limited, retry after 1.5s");
    assert!(ProviderError::RateLimited { retry_after: None }.source_message().is_none());
}

#[test]
fn rate_limited_display_carries_the_duration() {
    let whole = ProviderError::RateLimited { retry_after: Some(RetryAfter::new(30, 0)) };
    assert_eq!(whole.to_display_string(), "rate limited, retry after 30s");
    let split = ProviderError::RateLimited { retry_after: Some(RetryAfter::new(1, 500_000_000)) };
    assert_eq!(split.to_display_string(), "rate limited, retry after 1.5s");
    let millis = RetryAfter::from_millis(2250);
    assert_eq!((millis.secs(), millis.subsec_nanos()), (2, 250_000_000));
}

#[test]
fn history_provider_missing_capability_reports_unknown_not_unsupported() {
    let caps = SourceCapabilities::empty();
    assert_eq!(caps.status_for("wallet_activity"), CapabilityStatus::Unknown);
}

#[test]
fn capability_missing_capability_reports_unknown_not_unsupported() {
    let caps = SourceCapabilities::empty();
    assert_eq!(caps.status_for("token_market_activity"), CapabilityStatus::Unknown);
}

#[test]
fn declared_capability_reports_its_status() {
    let mut caps = SourceCapabilities::empty();
    caps.by_capability.insert("wallet_activity".to_string(), CapabilityStatus::LiveVerified);
    assert_eq!(caps.status_for("wallet_activity"), CapabilityStatus::LiveVerified);
    assert_eq!(caps.status_for("historical_state"), CapabilityStatus::Unknown);
}

#[test]
fn claim_carries_no_trust_field() {
    let claim = ExternalActivityClaim {
        wallet: test_wallet(),
        asset: test_asset(),
        description: "external buy claim".to_string(),
    };
    assert_eq!(claim.description, "external buy claim");
}

#[test]
fn from_claim_always_produces_external_unverified() {
    let claim = ExternalActivityClaim {
        wallet: test_wallet(),
        asset: test_asset(),
        description: "external buy claim".to_string(),
    };
    let opt_in = ExternalDataOptIn::acknowledge(ExternalDataAcknowledgement::ExploratoryUse {
        description: "research pass".to_string(),
    });
    let activity = ExternalActivity::from_claim(claim, opt_in);
    assert!(!activity.is_verified());
    assert!(matches!(activity.trust, TrustLevel::ExternalUnverified(_)));
}

#[test]
fn verified_trust_level_reports_as_verified() {
    let trust = TrustLevel::Verified;
    assert!(trust.is_verified());
}

struct StubSource;

impl NormalizedActivitySource for StubSource {
    fn fetch_activity(&self, wallet: &WalletKey) -> Vec<ExternalActivityClaim> {
        vec![ExternalActivityClaim {
            wallet: wallet.clone(),
            asset: test_asset(),
            description: "stub".to_string(),
        }]
    }
}

#[test]
fn normalized_activity_source_is_object_safe() {
    let source: Box<dyn NormalizedActivitySource> = Box::new(StubSource);
    let claims = source.fetch_activity(&test_wallet());
    assert_eq!(claims.len(), 1);
    assert_eq!(claims[0].description, "stub");
}

fn mainnet_fixture(id: &str, chain: &str, tx: &str) -> Fixture {
    Fixture {
        id: id.to_string(),
        provenance: FixtureProvenance::Mainnet {
            chain: chain.to_string(),
            block_or_slot: "12345".to_string(),
            tx: tx.to_string(),
            captured_at: "2026-09-01T00:00:00Z".to_string(),
            source: "manual capture".to_string(),
        },
    }
}

#[test]
fn mainnet_provenance_with_blank_tx_is_rejected() {
    let fixture = mainnet_fixture("bad-fixture", "base", "");
    let result = fixture.validate();
    assert!(matches!(
        result,
        Err(FixtureError::IncompleteMainnetProvenance { field: "tx", .. })
    ));
}

#[test]
fn white_space_only_field_is_blank_and_the_first_blank_field_is_named() {
    let fixture = mainnet_fixture("ws", " \t\u{3000}", " ");
    match fixture.validate() {
        Err(e) => {
            assert_eq!(
                e,
                FixtureError::IncompleteMainnetProvenance { id: "ws".to_string(), field: "chain" }
            );
            assert_eq!(
                e.to_display_string(),
                "fixture `ws` claims mainnet provenance with an empty required field: chain"
            );
        }
        Ok(()) => panic!("expected a rejection"),
    }
    assert!(mainnet_fixture("ok", "base", "0xabc").validate().is_ok());
}

#[test]
fn synthetic_provenance_never_requires_mainnet_fields() {
    let fixture = Fixture {
        id: "synthetic-c02".to_string(),
        provenance: FixtureProvenance::Synthetic {
            source: "hand-constructed partial-disposal example".to_string(),
        },
    };
    assert!(fixture.validate().is_ok());
}

#[test]
fn provider_with_no_fixtures_reports_unknown_not_fixture_verified() {
    let provider = FixtureProvider::new();
    let caps = provider.capabilities();
    assert_eq!(caps.status_for("wallet_activity"), CapabilityStatus::Unknown);
}

#[test]
fn provider_with_a_fixture_reports_fixture_verified_and_scans_it() {
    let fixture = Fixture {
        id: "synthetic-c01".to_string(),
        provenance: FixtureProvenance::Synthetic {
            source: "hand-constructed full-disposal example".to_string(),
        },
    };
    let provider = FixtureProvider::new().with_fixture(fixture).unwrap();
    assert_eq!(
        provider.capabilities().status_for("wallet_activity"),
        CapabilityStatus::FixtureVerified
    );
    assert_eq!(
        provider.capabilities().status_for("token_market_activity"),
        CapabilityStatus::FixtureVerified
    );
    assert_eq!(provider.scan_descriptions(), vec!["synthetic-c01".to_string()]);
    assert_eq!(provider.fixture_count(), 1);
}

#[test]
fn rejecting_a_bad_fixture_does_not_insert_it() {
    let bad_fixture = mainnet_fixture("bad", "", "0xabc");
    let result = FixtureProvider::new().with_fixture(bad_fixture);
    assert!(result.is_err());
}

#[test]
fn fixtures_are_served_in_id_order_and_an_id_is_replaced_not_duplicated() {
    let synthetic = |id: &str, source: &str| Fixture {
        id: id.to_string(),
        provenance: FixtureProvenance::Synthetic { source: source.to_string() },
    };
    let provider = FixtureProvider::new()
        .with_fixture(synthetic("b", "1"))
        .unwrap()
        .with_fixture(synthetic("a", "2"))
        .unwrap()
        .with_fixture(synthetic("b", "3"))
        .unwrap();
    assert_eq!(provider.fixture_count(), 2);
    assert_eq!(provider.scan_descriptions(), vec!["a".to_string(), "b".to_string()]);
}

#[test]
fn plan_returns_configuration_required_not_empty_success() {
    let provider = UnconfiguredProvider::new("evm_history", "SCOUT_EVM_HISTORY_API_KEY");
    match provider.configuration_error() {
        ScoutError::ConfigurationRequired { port, env_var } => {
            assert_eq!(port, "evm_history");
            assert_eq!(env_var, "SCOUT_EVM_HISTORY_API_KEY");
        }
        other => panic!("expected ConfigurationRequired, got {other:?}"),
    }
}

#[test]
fn capabilities_are_all_unknown_never_unsupported() {
    let provider = UnconfiguredProvider::new("evm_history", "SCOUT_EVM_HISTORY_API_KEY");
    let caps = provider.capabilities();
    assert_eq!(caps.by_capability.len(), 4);
    for (_, status) in caps.by_capability.entries() {
        assert_eq!(*status, CapabilityStatus::Unknown);
    }
    assert_eq!(caps.status_for("raw_transactions"), CapabilityStatus::Unknown);
}

#[test]
fn fixture_count_grows_only_for_a_new_id() {
    let synthetic = |id: &str| Fixture {
        id: id.to_string(),
        provenance: FixtureProvenance::Synthetic { source: "example".to_string() },
    };
    let empty = FixtureProvider::new();
    assert_eq!(empty.fixture_count(), 0);
    let one = empty.with_fixture(synthetic("x")).unwrap();
    assert_eq!(one.fixture_count(), 1);
    let same = one.with_fixture(synthetic("x")).unwrap();
    assert_eq!(same.fixture_count(), 1);
    let two = same.with_fixture(synthetic("y")).unwrap();
    assert_eq!(two.fixture_count(), 2);
}
