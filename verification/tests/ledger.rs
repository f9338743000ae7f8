use trader_scout::amount::{Money, RawAmount, MONEY_SCALE};
use trader_scout::fifo::Ledger;
use trader_scout::identity::{AddressBytes, AssetKey, ChainFamily, ChainKey, GenesisIdentity, NetworkId};
use trader_scout::lot::{BasisStatus, LotProvenance};
use trader_scout::trust::{ExternalDataAcknowledgement, ExternalDataOptIn, TrustLevel};

fn test_asset() -> AssetKey {
    AssetKey::Token(
        ChainKey {
            family: ChainFamily::Evm,
            network_id: NetworkId::EvmChainId(8453),
            genesis_identity: GenesisIdentity::Unverified,
        },
        AddressBytes::Evm([0x11; 20]),
    )
}

fn money(whole: i128) -> Money {
    Money::from_scaled_units(whole * 10i128.pow(MONEY_SCALE))
}

fn raw(units: u64) -> RawAmount {
    RawAmount::from_u128(units as u128)
}

#[test]
fn acceptance_c01_full_lot_disposal_matches_worked_example() {
    let mut ledger = Ledger::new();
    let basis = money(1000).checked_add(&money(10)).unwrap();
    ledger.acquire(test_asset(), raw(100), basis, BasisStatus::Known);

    let result = ledger.dispose(raw(100), money(1400), money(10)).unwrap();

    assert_eq!(result.consumed_acquisition_basis, money(1010));
    assert_eq!(result.net_sale_proceeds, money(1390));
    assert_eq!(result.realized_trade_pnl, Some(money(380)));
}

#[test]
fn acceptance_c02_partial_disposal_does_not_consume_full_basis() {
    let mut ledger = Ledger::new();
    let basis = money(1010);
    ledger.acquire(test_asset(), raw(100), basis, BasisStatus::Known);

    let result = ledger.dispose(raw(40), money(600), money(6)).unwrap();

    assert_eq!(result.consumed_acquisition_basis, money(404));
    assert_eq!(result.net_sale_proceeds, money(594));
    assert_eq!(result.realized_trade_pnl, Some(money(190)));

    let remaining: Money = ledger
        .lots_in_order()
        .iter()
        .map(|l| l.remaining_basis)
        .fold(Money::zero(), |acc, m| acc.checked_add(&m).unwrap());
    assert_eq!(remaining, money(606));
}

#[test]
fn fifo_order_consumes_oldest_lot_first() {
    let mut ledger = Ledger::new();
    ledger.acquire(test_asset(), raw(50), money(100), BasisStatus::Known);
    ledger.acquire(test_asset(), raw(50), money(500), BasisStatus::Known);

    let result = ledger.dispose(raw(50), money(200), Money::zero()).unwrap();
    assert_eq!(result.consumed_acquisition_basis, money(100));
}

#[test]
fn unknown_basis_lot_makes_pnl_unknown_not_zero_cost() {
    let mut ledger = Ledger::new();
    ledger.acquire(
        test_asset(),
        raw(100),
        Money::zero(),
        BasisStatus::Unknown { reason: "external transfer, no lineage".to_string() },
    );

    let result = ledger.dispose(raw(100), money(500), Money::zero()).unwrap();
    assert_eq!(result.realized_trade_pnl, None);
    assert!(!result.all_basis_known);
    assert_eq!(result.net_sale_proceeds, money(500));
}

#[test]
fn disposing_more_than_open_inventory_is_a_typed_error() {
    let mut ledger = Ledger::new();
    ledger.acquire(test_asset(), raw(10), money(100), BasisStatus::Known);
    let result = ledger.dispose(raw(20), money(50), Money::zero());
    assert!(result.is_err());
}

#[test]
fn apply_twice_is_idempotent_when_ledger_is_rebuilt_from_scratch() {
    let mut ledger_a = Ledger::new();
    ledger_a.acquire(test_asset(), raw(100), money(1000), BasisStatus::Known);
    ledger_a.dispose(raw(40), money(500), Money::zero()).unwrap();

    let mut ledger_b = Ledger::new();
    ledger_b.acquire(test_asset(), raw(100), money(1000), BasisStatus::Known);
    ledger_b.dispose(raw(40), money(500), Money::zero()).unwrap();

    assert_eq!(ledger_a.open_amount(), ledger_b.open_amount());
}

#[test]
fn fee_allocation_never_double_counts() {
    let mut ledger = Ledger::new();
    let acquisition_fee = money(10);
    let consideration = money(1000);
    let basis = consideration.checked_add(&acquisition_fee).unwrap();
    ledger.acquire(test_asset(), raw(100), basis, BasisStatus::Known);

    let sale_fee = money(10);
    let result = ledger.dispose(raw(100), money(1400), sale_fee).unwrap();

    assert_eq!(result.consumed_acquisition_basis, money(1010));
    assert_eq!(result.net_sale_proceeds, money(1390));
    assert_eq!(
        result.realized_trade_pnl,
        Some(money(1390).checked_sub(&money(1010)).unwrap())
    );
}

#[test]
fn disposal_spanning_two_lots_is_fifo_and_conserves_inventory_and_basis() {
    let mut ledger = Ledger::new();
    ledger.acquire(test_asset(), raw(50), money(100), BasisStatus::Known);
    ledger.acquire(test_asset(), raw(50), money(500), BasisStatus::Known);

    // 50 from the first lot (basis 100) and 25 of the second (basis 250).
    let result = ledger.dispose(raw(75), money(1000), Money::zero()).unwrap();
    assert_eq!(result.consumed_acquisition_basis, money(350));
    assert_eq!(result.realized_trade_pnl, Some(money(650)));
    assert_eq!(ledger.open_amount(), raw(25));

    let lots = ledger.lots_in_order();
    assert!(lots[0].is_exhausted());
    assert_eq!(lots[0].remaining_basis, Money::zero());
    assert_eq!(lots[1].remaining_amount, raw(25));
    assert_eq!(lots[1].remaining_basis, money(250));
    assert_eq!(lots[1].original_basis, money(500));
}

#[test]
fn acquisition_sequences_number_lots_in_order() {
    let mut ledger = Ledger::new();
    assert_eq!(ledger.acquire(test_asset(), raw(1), money(1), BasisStatus::Known), 0);
    assert_eq!(ledger.acquire(test_asset(), raw(2), money(2), BasisStatus::Known), 1);
    assert_eq!(ledger.open_amount(), raw(3));
    assert_eq!(ledger.lots_in_order()[1].acquisition_sequence, 1);
    assert_eq!(ledger.lots_in_order()[1].provenance, LotProvenance::Verified);
}

#[test]
fn unverified_basis_status_names_its_reason() {
    match BasisStatus::unverified() {
        BasisStatus::Unknown { reason } => {
            assert_eq!(reason, "acquired via Tier 2 (ExternalUnverified) source")
        }
        other => panic!("expected Unknown, got {other:?}"),
    }
}

#[test]
fn lot_provenance_follows_the_trust_level() {
    assert_eq!(LotProvenance::from(&TrustLevel::Verified), LotProvenance::Verified);
    let opt_in = ExternalDataOptIn::acknowledge(ExternalDataAcknowledgement::ExploratoryUse {
        description: "research".to_string(),
    });
    assert_eq!(
        LotProvenance::from(&TrustLevel::ExternalUnverified(opt_in)),
        LotProvenance::Unverified
    );
}

#[test]
fn a_failed_disposal_reports_nothing_realized() {
    let mut ledger = Ledger::new();
    let result = ledger.dispose(raw(1), money(1), Money::zero());
    assert!(result.is_err());
    assert_eq!(ledger.open_amount(), raw(0));
}

#[test]
fn every_exhausted_lot_keeps_no_basis() {
    let mut ledger = Ledger::new();
    let thirds = Money::from_scaled_units(1_000_000_001);
    ledger.acquire(test_asset(), raw(3), thirds, BasisStatus::Known);
    ledger.acquire(test_asset(), raw(7), money(70), BasisStatus::Known);
    ledger.acquire(test_asset(), raw(10), money(50), BasisStatus::Known);

    ledger.dispose(raw(1), money(5), Money::zero()).unwrap();
    ledger.dispose(raw(12), money(90), Money::zero()).unwrap();

    let lots = ledger.lots_in_order();
    assert!(lots[0].is_exhausted());
    assert_eq!(lots[0].remaining_basis, Money::zero());
    assert!(lots[1].is_exhausted());
    assert_eq!(lots[1].remaining_basis, Money::zero());
    assert!(!lots[2].is_exhausted());
    assert_eq!(lots[2].remaining_basis, money(35));
}

#[test]
fn disposal_never_grows_a_lot_and_splits_at_one_lot() {
    let mut ledger = Ledger::new();
    ledger.acquire(test_asset(), raw(5), money(50), BasisStatus::Known);
    ledger.acquire(test_asset(), raw(5), money(60), BasisStatus::Known);
    ledger.acquire(test_asset(), raw(5), money(70), BasisStatus::Known);
    let before: Vec<(bool, Money)> =
        ledger.lots_in_order().iter().map(|l| (l.is_exhausted(), l.remaining_basis)).collect();
    ledger.dispose(raw(7), money(100), Money::zero()).unwrap();
    let lots = ledger.lots_in_order();
    assert!(lots[0].is_exhausted());
    assert_eq!(lots[0].remaining_basis, Money::zero());
    assert!(!lots[1].is_exhausted());
    assert_eq!(lots[1].remaining_basis, money(36));
    assert_eq!((lots[2].is_exhausted(), lots[2].remaining_basis), before[2]);
}
