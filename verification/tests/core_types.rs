use alloy_primitives::{I256, U256};
use trader_scout::amount::{Money, RawAmount, SignedAmount, MONEY_SCALE};
use trader_scout::error::ScoutError;
use trader_scout::identity::{
    AddressBytes, AssetKey, ChainFamily, ChainKey, ChainResolution, GenesisIdentity, NetworkId,
    SolanaCluster, WalletKey,
};
use trader_scout::trust::{ExternalDataAcknowledgement, ExternalDataOptIn, TrustLevel};

fn mainnet_chain() -> ChainKey {
    ChainKey {
        family: ChainFamily::Solana,
        network_id: NetworkId::SolanaCluster(SolanaCluster::Mainnet),
        genesis_identity: GenesisIdentity::Verified("mainnet-genesis-hash".to_string()),
    }
}

fn devnet_chain() -> ChainKey {
    ChainKey {
        family: ChainFamily::Solana,
        network_id: NetworkId::SolanaCluster(SolanaCluster::Devnet),
        genesis_identity: GenesisIdentity::Verified("devnet-genesis-hash".to_string()),
    }
}

#[test]
fn raw_amount_checked_sub_none_on_underflow() {
    let small = RawAmount::from_u128(1);
    let big = RawAmount::from_u128(2);
    assert_eq!(small.checked_sub(&big), None);
}

#[test]
fn money_checked_add_overflow_is_typed_error() {
    let max = Money::from_scaled_units(i128::MAX);
    let one = Money::from_scaled_units(1);
    let result = max.checked_add(&one);
    assert!(matches!(result, Err(ScoutError::ArithmeticOverflow { .. })));
}

#[test]
fn money_display_matches_worked_example_from_acceptance_c01() {
    let consideration = Money::from_scaled_units(1000 * 10i128.pow(MONEY_SCALE));
    assert_eq!(consideration.to_display_string(), "1000.00000000");
}

#[test]
fn money_display_is_correct_for_negative_values() {
    let half_negative = Money::from_scaled_units(-50_000_000);
    assert_eq!(half_negative.to_display_string(), "-0.50000000");

    let large_negative = Money::from_scaled_units(-100_000_000_001);
    assert_eq!(large_negative.to_display_string(), "-1000.00000001");
}

#[test]
fn money_display_of_extremes_and_zero() {
    assert_eq!(Money::zero().to_display_string(), "0.00000000");
    assert_eq!(
        Money::from_scaled_units(i128::MIN).to_display_string(),
        "-1701411834604692317316873037158.84105728"
    );
    assert_eq!(
        Money::from_scaled_units(i128::MAX).to_display_string(),
        "1701411834604692317316873037158.84105727"
    );
}

#[test]
fn money_checked_sub_underflow_names_its_context() {
    let min = Money::from_scaled_units(i128::MIN);
    match min.checked_sub(&Money::from_scaled_units(1)) {
        Err(ScoutError::ArithmeticOverflow { context }) => assert_eq!(context, "Money::checked_sub"),
        other => panic!("expected overflow, got {other:?}"),
    }
    let ok = Money::from_scaled_units(5).checked_sub(&Money::from_scaled_units(7)).unwrap();
    assert_eq!(ok.scaled_units(), -2);
}

#[test]
fn raw_amount_carries_across_the_halves() {
    let a = RawAmount::from_parts(0, u128::MAX);
    let sum = a.checked_add(&RawAmount::from_u128(1)).unwrap();
    assert_eq!(sum.parts(), (1, 0));
    assert_eq!(sum.checked_sub(&RawAmount::from_u128(1)), Some(a));
    let max = RawAmount::from_parts(u128::MAX, u128::MAX);
    assert_eq!(max.checked_add(&RawAmount::from_u128(1)), None);
    assert_eq!(max.to_u128(), None);
    assert_eq!(RawAmount::from_u128(42).to_u128(), Some(42));
}

#[test]
fn signed_amount_adds_across_zero() {
    let minus_one = SignedAmount::from_parts(-1, u128::MAX);
    assert!(minus_one.is_negative());
    let one = SignedAmount::from_parts(0, 1);
    let zero = minus_one.checked_add(&one).unwrap();
    assert!(zero.is_zero());
    assert!(!zero.is_negative());
}

#[test]
fn same_address_bytes_on_different_solana_clusters_are_different_wallet_keys() {
    let bytes = AddressBytes::Solana([7u8; 32]);
    let mainnet_wallet = WalletKey { chain: mainnet_chain(), address: bytes.clone() };
    let devnet_wallet = WalletKey { chain: devnet_chain(), address: bytes };
    assert_ne!(mainnet_wallet, devnet_wallet);
}

#[test]
fn same_ticker_different_chains_are_different_asset_keys() {
    let evm_chain_a = ChainKey {
        family: ChainFamily::Evm,
        network_id: NetworkId::EvmChainId(8453),
        genesis_identity: GenesisIdentity::Verified("base-genesis".to_string()),
    };
    let evm_chain_b = ChainKey {
        family: ChainFamily::Evm,
        network_id: NetworkId::EvmChainId(56),
        genesis_identity: GenesisIdentity::Verified("bsc-genesis".to_string()),
    };
    let same_bytes = AddressBytes::Evm([0xAA; 20]);
    let asset_a = AssetKey::Token(evm_chain_a, same_bytes.clone());
    let asset_b = AssetKey::Token(evm_chain_b, same_bytes);
    assert_ne!(asset_a, asset_b);
}

#[test]
fn evm_address_display_is_lowercase_canonical_form() {
    let addr = AddressBytes::Evm([0xAB; 20]);
    assert_eq!(addr.to_display_string(), format!("0x{}", "ab".repeat(20)));
}

#[test]
fn solana_address_display_is_base58() {
    let addr = AddressBytes::Solana([0u8; 32]);
    assert_eq!(addr.to_display_string(), "11111111111111111111111111111111");
}

#[test]
fn ambiguous_chain_resolution_lists_every_candidate() {
    let candidates = vec![mainnet_chain(), devnet_chain()];
    let resolution = ChainResolution::Ambiguous(candidates.clone());
    match resolution {
        ChainResolution::Ambiguous(found) => assert_eq!(found, candidates),
        _ => panic!("expected Ambiguous variant"),
    }
}

#[test]
fn opt_in_token_requires_a_stated_reason() {
    let token = ExternalDataOptIn::acknowledge(ExternalDataAcknowledgement::TrustedExternalSource {
        description: "our own indexer, cross-checked weekly".to_string(),
    });
    match token.reason() {
        ExternalDataAcknowledgement::TrustedExternalSource { description } => {
            assert!(description.contains("indexer"));
        }
        other => panic!("expected TrustedExternalSource, got {other:?}"),
    }
}

#[test]
fn external_unverified_is_never_reported_as_verified() {
    let opt_in = ExternalDataOptIn::acknowledge(ExternalDataAcknowledgement::ExploratoryUse {
        description: "research pass".to_string(),
    });
    let trust = TrustLevel::ExternalUnverified(opt_in);
    assert!(!trust.is_verified());
}

#[test]
fn verified_reports_as_verified() {
    assert!(TrustLevel::Verified.is_verified());
}

#[test]
fn scout_error_messages_are_exact() {
    assert_eq!(
        ScoutError::ConfigurationRequired { port: "evm_history", env_var: "KEY" }.to_display_string(),
        "configuration required for port `evm_history` (set KEY)"
    );
    assert_eq!(
        ScoutError::InvalidAddress { family: ChainFamily::Evm, reason: "bad".to_string() }
            .to_display_string(),
        "invalid address for Evm: bad"
    );
    assert_eq!(
        ScoutError::UnsupportedDecimals { decimals: Some(18) }.to_display_string(),
        "unsupported or unknown decimals for asset (decimals=Some(18))"
    );
    assert_eq!(
        ScoutError::UnsupportedDecimals { decimals: None }.to_display_string(),
        "unsupported or unknown decimals for asset (decimals=None)"
    );
    assert_eq!(
        ScoutError::ArithmeticOverflow { context: "Money::checked_add" }.to_display_string(),
        "arithmetic overflow: Money::checked_add"
    );
    let ambiguous = ScoutError::AmbiguousChain { candidates: vec![mainnet_chain()] }.to_display_string();
    assert!(ambiguous.starts_with("ambiguous chain: address matches ["));
    assert_eq!(ambiguous, format!("ambiguous chain: address matches {:?}", vec![mainnet_chain()]));
    assert!(ambiguous.contains("Mainnet"));
}

#[test]
fn money_add_then_sub_round_trips() {
    let a = Money::from_scaled_units(-250_000_000);
    let b = Money::from_scaled_units(1_234_567_890);
    assert_eq!(a.checked_add(&b).unwrap().checked_sub(&b).unwrap(), a);
    let edge = Money::from_scaled_units(i128::MAX - 5);
    let small = Money::from_scaled_units(5);
    assert_eq!(edge.checked_add(&small).unwrap().checked_sub(&small).unwrap(), edge);
}

#[test]
fn wide_amounts_render_as_plain_decimal() {
    assert_eq!(RawAmount::zero().to_display_string(), "0");
    assert_eq!(RawAmount::from_u128(1500).to_display_string(), "1500");
    assert_eq!(RawAmount::from_parts(1, 0).to_display_string(), "340282366920938463463374607431768211456");
    assert_eq!(
        RawAmount::from_parts(u128::MAX, u128::MAX).to_display_string(),
        "115792089237316195423570985008687907853269984665640564039457584007913129639935"
    );
    assert_eq!(SignedAmount::zero().to_display_string(), "0");
    assert_eq!(SignedAmount::from_parts(-1, u128::MAX).to_display_string(), "-1");
    assert_eq!(SignedAmount::from_parts(-1, 0).to_display_string(), "-340282366920938463463374607431768211456");
    assert_eq!(
        SignedAmount::from_parts(i128::MIN, 0).to_display_string(),
        "-57896044618658097711785492504343953926634992332820282019728792003956564819968"
    );
    assert_eq!(
        SignedAmount::from_parts(i128::MAX, u128::MAX).to_display_string(),
        "57896044618658097711785492504343953926634992332820282019728792003956564819967"
    );
}

#[test]
fn wide_amount_text_matches_u256_decimal() {
    let samples: [(u128, u128); 4] = [(0, 9), (7, 123_456_789), (u128::MAX / 3, 1 << 100), (12345, u128::MAX)];
    for (hi, lo) in samples {
        let wide = U256::from_limbs([lo as u64, (lo >> 64) as u64, hi as u64, (hi >> 64) as u64]);
        assert_eq!(RawAmount::from_parts(hi, lo).to_display_string(), wide.to_string());
        let signed = I256::from_raw(wide);
        assert_eq!(SignedAmount::from_parts(hi as i128, lo).to_display_string(), signed.to_string());
        let negated = I256::from_raw(wide.wrapping_neg());
        let [l0, l1, l2, l3] = wide.wrapping_neg().into_limbs();
        let nlo = (u128::from(l1) << 64) | u128::from(l0);
        let nhi = (u128::from(l3) << 64) | u128::from(l2);
        assert_eq!(SignedAmount::from_parts(nhi as i128, nlo).to_display_string(), negated.to_string());
    }
}

#[test]
fn ambiguous_chain_lists_candidates_as_debug_writes_them() {
    let evm = ChainKey {
        family: ChainFamily::Evm,
        network_id: NetworkId::EvmChainId(8453),
        genesis_identity: GenesisIdentity::Unverified,
    };
    let odd = ChainKey {
        family: ChainFamily::Solana,
        network_id: NetworkId::SolanaCluster(SolanaCluster::Testnet),
        genesis_identity: GenesisIdentity::Verified("a \"quoted\"\n\\ hash".to_string()),
    };
    let none: Vec<ChainKey> = Vec::new();
    assert_eq!(
        ScoutError::AmbiguousChain { candidates: none }.to_display_string(),
        "ambiguous chain: address matches []"
    );
    let one = vec![ChainKey {
        family: ChainFamily::Evm,
        network_id: NetworkId::EvmChainId(8453),
        genesis_identity: GenesisIdentity::Unverified,
    }];
    assert_eq!(
        ScoutError::AmbiguousChain { candidates: one }.to_display_string(),
        "ambiguous chain: address matches [ChainKey { family: Evm, network_id: EvmChainId(8453), genesis_identity: Unverified }]"
    );
    let expected = format!("ambiguous chain: address matches {:?}", vec![&evm, &odd, &mainnet_chain()]);
    let message = ScoutError::AmbiguousChain { candidates: vec![evm, odd, mainnet_chain()] }.to_display_string();
    assert_eq!(message, expected);
}
