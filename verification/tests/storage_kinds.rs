use trader_scout::watermark::WatermarkKind;

#[test]
fn every_watermark_kind_round_trips_through_its_stored_name() {
    for kind in [
        WatermarkKind::Fetched,
        WatermarkKind::RawDurable,
        WatermarkKind::Decoded,
        WatermarkKind::LedgerApplied,
        WatermarkKind::Finalized,
    ] {
        assert_eq!(WatermarkKind::from_str(kind.as_str()), Some(kind));
    }
    assert_eq!(WatermarkKind::LedgerApplied.as_str(), "ledger_applied");
    assert_eq!(WatermarkKind::from_str("Fetched"), None);
    assert_eq!(WatermarkKind::from_str(""), None);
}
