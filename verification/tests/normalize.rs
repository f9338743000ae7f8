use trader_scout::amount::SignedAmount;
use trader_scout::attribution::{AmbiguityReason, AttributionEvidence, AttributionStatus};
use trader_scout::classify::{classify_buy, ActionKind, AssetFlow, NetDeltaInput};
use trader_scout::identity::{AddressBytes, AssetKey, ChainFamily, ChainKey, GenesisIdentity, NetworkId, WalletKey};

fn chain() -> ChainKey {
    ChainKey {
        family: ChainFamily::Evm,
        network_id: NetworkId::EvmChainId(8453),
        genesis_identity: GenesisIdentity::Unverified,
    }
}

fn wallet(byte: u8) -> WalletKey {
    WalletKey { chain: chain(), address: AddressBytes::Evm([byte; 20]) }
}

fn asset(byte: u8) -> AssetKey {
    AssetKey::Token(chain(), AddressBytes::Evm([byte; 20]))
}

fn positive_delta(units: i64) -> SignedAmount {
    SignedAmount::from_parts(0, units as u128)
}

fn single_flow(a: AssetKey, delta: SignedAmount, kinds: Vec<ActionKind>) -> NetDeltaInput {
    let mut input = NetDeltaInput::default();
    input.flows.insert(a.clone(), AssetFlow { asset: a, net_delta: delta, kinds_observed: kinds });
    input
}

#[test]
fn ambiguous_status_never_exposes_a_confident_owner() {
    let status = AttributionStatus::Ambiguous {
        candidates: vec![wallet(1), wallet(2)],
        reason: AmbiguityReason::OnlyRelayerSignal,
    };
    assert_eq!(status.confident_owner(), None);
    assert!(!status.is_confident());
}

#[test]
fn confident_status_exposes_its_owner_and_evidence() {
    let owner = wallet(3);
    let status = AttributionStatus::Confident {
        owner: owner.clone(),
        evidence: AttributionEvidence::RecipientOwnerMatch,
    };
    assert_eq!(status.confident_owner(), Some(&owner));
    assert!(status.is_confident());
}

#[test]
fn swap_with_positive_net_delta_qualifies_as_buy() {
    let input = single_flow(asset(1), positive_delta(100), vec![ActionKind::Swap]);
    let hits = classify_buy(&input);
    assert_eq!(hits, vec![asset(1)]);
}

#[test]
fn transfer_receipt_never_qualifies_as_buy() {
    let input = single_flow(asset(1), positive_delta(100), vec![ActionKind::Transfer]);
    assert!(classify_buy(&input).is_empty());
}

#[test]
fn airdrop_never_qualifies_as_buy() {
    let input = single_flow(asset(1), positive_delta(50), vec![ActionKind::Airdrop]);
    assert!(classify_buy(&input).is_empty());
}

#[test]
fn zero_net_delta_intermediate_route_token_does_not_qualify() {
    let input = single_flow(asset(2), SignedAmount::zero(), vec![ActionKind::Swap]);
    assert!(classify_buy(&input).is_empty());
}

#[test]
fn atomic_roundtrip_zero_net_end_state_does_not_qualify() {
    let input =
        single_flow(asset(1), SignedAmount::zero(), vec![ActionKind::Swap, ActionKind::Swap]);
    assert!(classify_buy(&input).is_empty());
}

#[test]
fn hundred_buys_of_one_token_yield_one_qualifying_asset_not_a_hundred() {
    let input = single_flow(asset(1), positive_delta(100_000), vec![ActionKind::Swap]);
    let hits = classify_buy(&input);
    assert_eq!(hits.len(), 1);
}

#[test]
fn bonding_curve_launch_buy_via_swap_kind_qualifies() {
    let input = single_flow(asset(1), positive_delta(1), vec![ActionKind::Swap]);
    assert_eq!(classify_buy(&input), vec![asset(1)]);
}

#[test]
fn liquidity_removal_never_qualifies_as_buy() {
    let input = single_flow(asset(1), positive_delta(10), vec![ActionKind::LiquidityRemove]);
    assert!(classify_buy(&input).is_empty());
}

#[test]
fn negative_delta_after_a_swap_is_a_sale_not_a_buy() {
    let input = single_flow(asset(1), SignedAmount::from_parts(-1, u128::MAX), vec![ActionKind::Swap]);
    assert!(classify_buy(&input).is_empty());
}

#[test]
fn buys_come_out_in_asset_order_and_a_later_flow_replaces_an_earlier_one() {
    let mut input = NetDeltaInput::default();
    for byte in [9u8, 3, 5] {
        input.flows.insert(
            asset(byte),
            AssetFlow {
                asset: asset(byte),
                net_delta: positive_delta(1),
                kinds_observed: vec![ActionKind::Fee, ActionKind::Swap],
            },
        );
    }
    input.flows.insert(
        asset(5),
        AssetFlow { asset: asset(5), net_delta: positive_delta(1), kinds_observed: vec![ActionKind::Fee] },
    );
    assert_eq!(classify_buy(&input), vec![asset(3), asset(9)]);
}
