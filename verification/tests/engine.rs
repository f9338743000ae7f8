use trader_scout::amount::SignedAmount;
use trader_scout::buyer_intersect::intersect_buyers;
use trader_scout::classify::{ActionKind, AssetFlow, NetDeltaInput};
use trader_scout::identity::{AddressBytes, AssetKey, ChainFamily, ChainKey, GenesisIdentity, NetworkId, WalletKey};
use trader_scout::sorted_map::SortedMap;

fn chain() -> ChainKey {
    ChainKey {
        family: ChainFamily::Evm,
        network_id: NetworkId::EvmChainId(8453),
        genesis_identity: GenesisIdentity::Unverified,
    }
}

fn wallet(byte: u8) -> WalletKey {
    WalletKey { chain: chain(), address: AddressBytes::Evm([byte; 20]) }
}

fn asset(byte: u8) -> AssetKey {
    AssetKey::Token(chain(), AddressBytes::Evm([byte; 20]))
}

fn flow(asset_key: AssetKey, units: i64, kind: ActionKind) -> NetDeltaInput {
    let mut input = NetDeltaInput::default();
    let delta = if units >= 0 {
        SignedAmount::from_parts(0, units as u128)
    } else {
        SignedAmount::from_parts(-1, (units as i128) as u128)
    };
    input.flows.insert(
        asset_key.clone(),
        AssetFlow { asset: asset_key, net_delta: delta, kinds_observed: vec![kind] },
    );
    input
}

fn buy_flow(asset_key: AssetKey, units: i64) -> NetDeltaInput {
    flow(asset_key, units, ActionKind::Swap)
}

type Flows = SortedMap<WalletKey, SortedMap<AssetKey, NetDeltaInput>>;

#[test]
fn wallet_meeting_min_hits_is_included_and_others_are_not() {
    let t1 = asset(1);
    let t2 = asset(2);
    let wallet_a = wallet(0xA1);
    let wallet_b = wallet(0xB1);

    let mut flows: Flows = SortedMap::new();
    let mut a_flows = SortedMap::new();
    a_flows.insert(t1.clone(), buy_flow(t1.clone(), 100));
    a_flows.insert(t2.clone(), buy_flow(t2.clone(), 50));
    flows.insert(wallet_a.clone(), a_flows);

    let mut b_flows = SortedMap::new();
    b_flows.insert(t1.clone(), buy_flow(t1.clone(), 200));
    flows.insert(wallet_b, b_flows);

    let report = intersect_buyers(&flows, &[t1, t2], 2);

    assert_eq!(report.matches.len(), 1);
    assert_eq!(report.matches[0].wallet, wallet_a);
    assert_eq!(report.matches[0].hit_count, 2);
    assert_eq!(report.input_token_count, 2);
}

#[test]
fn incidental_buy_outside_input_token_set_does_not_inflate_hit_count() {
    let t1 = asset(1);
    let unrelated = asset(99);
    let w = wallet(0xA1);

    let mut flows: Flows = SortedMap::new();
    let mut w_flows = SortedMap::new();
    w_flows.insert(t1.clone(), buy_flow(t1.clone(), 10));
    w_flows.insert(unrelated.clone(), buy_flow(unrelated, 10));
    flows.insert(w, w_flows);

    let report = intersect_buyers(&flows, &[t1], 1);

    assert_eq!(report.matches.len(), 1);
    assert_eq!(report.matches[0].hit_count, 1);
}

#[test]
fn results_are_sorted_by_hit_count_desc_then_wallet_key_asc() {
    let t1 = asset(1);
    let t2 = asset(2);
    let wallet_high = wallet(0xFF);
    let wallet_low_a = wallet(0x01);
    let wallet_low_b = wallet(0x02);

    let mut flows: Flows = SortedMap::new();

    let mut high_flows = SortedMap::new();
    high_flows.insert(t1.clone(), buy_flow(t1.clone(), 1));
    high_flows.insert(t2.clone(), buy_flow(t2.clone(), 1));
    flows.insert(wallet_high.clone(), high_flows);

    let mut low_a_flows = SortedMap::new();
    low_a_flows.insert(t1.clone(), buy_flow(t1.clone(), 1));
    flows.insert(wallet_low_a.clone(), low_a_flows);

    let mut low_b_flows = SortedMap::new();
    low_b_flows.insert(t1.clone(), buy_flow(t1.clone(), 1));
    flows.insert(wallet_low_b.clone(), low_b_flows);

    let report = intersect_buyers(&flows, &[t1, t2], 1);

    assert_eq!(report.matches.len(), 3);
    assert_eq!(report.matches[0].wallet, wallet_high);
    assert_eq!(report.matches[0].hit_count, 2);
    assert_eq!(report.matches[1].wallet, wallet_low_a);
    assert_eq!(report.matches[2].wallet, wallet_low_b);
}

#[test]
fn scan_failure_on_one_token_never_shrinks_declared_n() {
    let t1 = asset(1);
    let t2_never_scanned_successfully = asset(2);
    let w = wallet(0xA1);

    let mut flows: Flows = SortedMap::new();
    let mut w_flows = SortedMap::new();
    w_flows.insert(t1.clone(), buy_flow(t1.clone(), 1));
    flows.insert(w, w_flows);

    let report = intersect_buyers(&flows, &[t1, t2_never_scanned_successfully], 1);

    assert_eq!(report.input_token_count, 2);
}

#[test]
fn a_later_token_input_overrides_an_earlier_flow_of_the_same_asset() {
    // The wallet's input for token 2 reports a sale of asset 1 after the
    // buy reported under token 1: the combined view keeps the later flow.
    let t1 = asset(1);
    let t2 = asset(2);
    let w = wallet(0x10);

    let mut flows: Flows = SortedMap::new();
    let mut w_flows = SortedMap::new();
    w_flows.insert(t1.clone(), buy_flow(t1.clone(), 5));
    w_flows.insert(t2.clone(), flow(t1.clone(), -5, ActionKind::Swap));
    flows.insert(w, w_flows);

    let report = intersect_buyers(&flows, &[t1, t2], 1);
    assert!(report.matches.is_empty());
    assert_eq!(report.min_token_hits, 1);
}

#[test]
fn matched_assets_are_distinct_and_in_asset_order() {
    let t1 = asset(1);
    let t2 = asset(2);
    let t3 = asset(3);
    let w = wallet(0x42);

    let mut flows: Flows = SortedMap::new();
    let mut w_flows = SortedMap::new();
    w_flows.insert(t3.clone(), buy_flow(t3.clone(), 1));
    w_flows.insert(t1.clone(), buy_flow(t1.clone(), 1));
    w_flows.insert(t2.clone(), flow(t2.clone(), 1, ActionKind::Airdrop));
    flows.insert(w.clone(), w_flows);

    let report = intersect_buyers(&flows, &[t3.clone(), t1.clone(), t2, t1.clone()], 2);
    assert_eq!(report.matches.len(), 1);
    assert_eq!(report.matches[0].matched_assets, vec![t1, t3]);
    assert_eq!(report.matches[0].hit_count, 2);
    assert_eq!(report.input_token_count, 4);
}

#[test]
fn no_wallets_gives_an_empty_report_with_the_declared_scope() {
    let flows: Flows = SortedMap::new();
    let report = intersect_buyers(&flows, &[asset(1), asset(2)], 2);
    assert!(report.matches.is_empty());
    assert_eq!(report.input_token_count, 2);
    assert_eq!(report.min_token_hits, 2);
}

#[test]
fn table_line_shows_address_and_hit_count() {
    let m = trader_scout::buyer_intersect::BuyerMatch {
        wallet: wallet(0xAB),
        hit_count: 12,
        matched_assets: vec![],
    };
    assert_eq!(m.to_table_line(), format!("0x{} hit_count=12", "ab".repeat(20)));
}

#[test]
fn raising_the_threshold_only_removes_matches() {
    let t1 = asset(1);
    let t2 = asset(2);
    let mut flows: Flows = SortedMap::new();
    let mut two = SortedMap::new();
    two.insert(t1.clone(), buy_flow(t1.clone(), 1));
    two.insert(t2.clone(), buy_flow(t2.clone(), 1));
    flows.insert(wallet(0x01), two);
    let mut one = SortedMap::new();
    one.insert(t2.clone(), buy_flow(t2.clone(), 1));
    flows.insert(wallet(0x02), one);

    let low = intersect_buyers(&flows, &[t1.clone(), t2.clone()], 1);
    let high = intersect_buyers(&flows, &[t1, t2], 2);
    assert_eq!(low.matches.len(), 2);
    assert_eq!(high.matches.len(), 1);
    assert!(low.matches.iter().any(|m| m.wallet == high.matches[0].wallet));
}
