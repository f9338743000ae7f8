use trader_scout::identity::{AddressBytes, ChainFamily, ChainKey, ChainResolution, GenesisIdentity, NetworkId};
use trader_scout::input::{
    parse_input, resolve_chain, solana_address_from_decoded, ChainTag, IdentityKind, InputError, InputFormat,
};

fn base_chain() -> ChainKey {
    ChainKey {
        family: ChainFamily::Evm,
        network_id: NetworkId::EvmChainId(8453),
        genesis_identity: GenesisIdentity::Verified("base-genesis".to_string()),
    }
}

fn bsc_chain() -> ChainKey {
    ChainKey {
        family: ChainFamily::Evm,
        network_id: NetworkId::EvmChainId(56),
        genesis_identity: GenesisIdentity::Verified("bsc-genesis".to_string()),
    }
}

#[test]
fn explicit_chain_prefix_resolves_unambiguously() {
    let input = "base:0x1111111111111111111111111111111111111111\n";
    let parsed = parse_input(input, InputFormat::Lines, None).unwrap();
    assert_eq!(parsed.records.len(), 1);
    assert_eq!(parsed.records[0].kind, IdentityKind::Explicit(ChainTag::Base));
}

#[test]
fn bare_evm_wallet_without_chain_stays_bare_not_auto_resolved() {
    let input = "0x1111111111111111111111111111111111111111\n";
    let parsed = parse_input(input, InputFormat::Lines, None).unwrap();
    assert_eq!(parsed.records[0].kind, IdentityKind::Bare);
}

#[test]
fn resolve_chain_returns_ambiguous_for_multiple_evm_candidates() {
    let addr = AddressBytes::Evm([0x11; 20]);
    let resolution = resolve_chain(&addr, &[base_chain(), bsc_chain()]);
    match resolution {
        ChainResolution::Ambiguous(candidates) => assert_eq!(candidates.len(), 2),
        other => panic!("expected Ambiguous, got {other:?}"),
    }
}

#[test]
fn resolve_chain_with_one_or_no_evm_chain() {
    let addr = AddressBytes::Evm([0x11; 20]);
    let solana = ChainKey {
        family: ChainFamily::Solana,
        network_id: NetworkId::SolanaCluster(trader_scout::identity::SolanaCluster::Mainnet),
        genesis_identity: GenesisIdentity::Unverified,
    };
    assert_eq!(resolve_chain(&addr, &[solana.clone()]), ChainResolution::NotFoundOrUnobserved);
    assert_eq!(
        resolve_chain(&addr, &[solana, bsc_chain()]),
        ChainResolution::Resolved(bsc_chain())
    );
}

#[test]
fn conflicting_per_line_chain_and_cli_chain_is_an_error() {
    let input = "bsc:0x1111111111111111111111111111111111111111\n";
    let result = parse_input(input, InputFormat::Lines, Some(ChainTag::Base));
    assert!(matches!(result, Err(InputError::ChainConflict { .. })));
}

#[test]
fn chain_conflict_names_both_chains() {
    let input = "bsc:0x1111111111111111111111111111111111111111\n";
    let err = parse_input(input, InputFormat::Lines, Some(ChainTag::Base)).unwrap_err();
    assert_eq!(
        err,
        InputError::ChainConflict {
            line: 1,
            line_chain: "bsc".to_string(),
            cli_chain: "Base".to_string()
        }
    );
    assert_eq!(
        err.to_display_string(),
        "line 1: chain conflict: line specifies `bsc`, but --chain is `Base`"
    );
    let same = parse_input(input, InputFormat::Lines, Some(ChainTag::Bsc)).unwrap();
    assert_eq!(same.records[0].kind, IdentityKind::Explicit(ChainTag::Bsc));
}

#[test]
fn duplicate_textual_forms_of_same_address_collapse_to_one_identity() {
    let input = "0xAAAAAAAAAAAAAAAAAAAAAAAAAAAAAAAAAAAAAAAA\n\
                  0xaaaaaaaaaaaaaaaaaaaaaaaaaaaaaaaaaaaaaaaa\n";
    let parsed = parse_input(input, InputFormat::Lines, None).unwrap();
    assert_eq!(parsed.records.len(), 1);
    assert_eq!(parsed.duplicate_count, 1);
}

#[test]
fn invalid_address_reports_line_number_before_any_scanning() {
    let input = "0x1111111111111111111111111111111111111111\n\
                  0xnotvalidhex\n";
    let result = parse_input(input, InputFormat::Lines, None);
    match result {
        Err(InputError::InvalidAddress { line, .. }) => assert_eq!(line, 2),
        other => panic!("expected InvalidAddress at line 2, got {other:?}"),
    }
}

#[test]
fn comments_and_blank_lines_are_skipped() {
    let input = "# comment\n\n0x1111111111111111111111111111111111111111\n";
    let parsed = parse_input(input, InputFormat::Lines, None).unwrap();
    assert_eq!(parsed.records.len(), 1);
}

#[test]
fn empty_input_is_an_explicit_error_not_silent_empty_success() {
    let result = parse_input("", InputFormat::Lines, None);
    assert!(matches!(result, Err(InputError::EmptyInput)));
    let only_comments = parse_input("# nothing\n\n   \n", InputFormat::Auto, None);
    assert!(matches!(only_comments, Err(InputError::EmptyInput)));
}

#[test]
fn lines_and_csv_give_same_canonical_identity_for_same_address() {
    let lines_input = "base:0x1111111111111111111111111111111111111111\n";
    let csv_input = "chain,address\nbase,0x1111111111111111111111111111111111111111\n";
    let from_lines = parse_input(lines_input, InputFormat::Lines, None).unwrap();
    let from_csv = parse_input(csv_input, InputFormat::Csv, None).unwrap();
    assert_eq!(from_lines.records[0].canonical, from_csv.records[0].canonical);
}

#[test]
fn solana_address_canonicalizes_via_base58() {
    let input = "solana:11111111111111111111111111111111\n";
    let parsed = parse_input(input, InputFormat::Lines, None).unwrap();
    assert_eq!(parsed.records.len(), 1);
    assert!(matches!(parsed.records[0].canonical, AddressBytes::Solana(_)));
    assert_eq!(parsed.records[0].canonical, AddressBytes::Solana([0u8; 32]));
}

#[test]
fn bare_base58_address_is_inferred_as_solana() {
    let parsed = parse_input("  11111111111111111111111111111111  \r\n", InputFormat::Lines, None).unwrap();
    assert_eq!(parsed.records[0].kind, IdentityKind::Bare);
    assert_eq!(parsed.records[0].canonical, AddressBytes::Solana([0u8; 32]));
    assert_eq!(parsed.records[0].address_text, "11111111111111111111111111111111");
    assert_eq!(parsed.records[0].line_number, 1);
}

#[test]
fn address_error_messages_are_exact() {
    let cases: [(&str, &str); 6] = [
        ("0x1234\n", "line 1: invalid address: EVM address must be 20 bytes, got 2"),
        ("0xabc\n", "line 1: invalid address: invalid hex in EVM address"),
        ("base:1234\n", "line 1: invalid address: EVM address must start with 0x"),
        ("solana:0OIl\n", "line 1: invalid address: invalid base58 in Solana address"),
        ("solana:2\n", "line 1: invalid address: Solana address must be 32 bytes, got 1"),
        ("\n\n!!\n", "line 3: invalid address: could not infer chain family from address shape"),
    ];
    for (text, message) in cases {
        let err = parse_input(text, InputFormat::Lines, None).unwrap_err();
        assert_eq!(err.to_display_string(), message);
    }
}

#[test]
fn unknown_chain_tag_is_an_error_with_the_tag() {
    let err = parse_input("eth:0x1111111111111111111111111111111111111111", InputFormat::Lines, None)
        .unwrap_err();
    assert_eq!(err, InputError::UnknownChainTag { line: 1, tag: "eth".to_string() });
    assert_eq!(err.to_display_string(), "line 1: unknown chain tag `eth`");
}

#[test]
fn csv_errors_report_csv_line_numbers() {
    let missing_header = parse_input("base,0x11\n", InputFormat::Csv, None).unwrap_err();
    assert_eq!(
        missing_header,
        InputError::InvalidAddress {
            line: 1,
            reason: "CSV must start with header `chain,address`".to_string()
        }
    );
    let no_comma = parse_input("chain,address\nbase 0x11\n", InputFormat::Csv, None).unwrap_err();
    assert_eq!(
        no_comma,
        InputError::InvalidAddress { line: 2, reason: "CSV row must be `chain,address`".to_string() }
    );
    let bad_address =
        parse_input("chain,address\nbase,0x1111111111111111111111111111111111111111\nbase,0x12\n", InputFormat::Csv, None)
            .unwrap_err();
    assert_eq!(
        bad_address,
        InputError::InvalidAddress {
            line: 3,
            reason: "EVM address must be 20 bytes, got 1".to_string()
        }
    );
    let empty = parse_input("chain,address\n\n", InputFormat::Csv, None).unwrap_err();
    assert_eq!(empty, InputError::EmptyInput);
}

#[test]
fn csv_blank_rows_count_toward_line_numbers() {
    let err = parse_input("chain,address\n\nbase,0xnotvalidhex\n", InputFormat::Csv, None).unwrap_err();
    assert!(matches!(err, InputError::InvalidAddress { line: 3, .. }));
    let late = parse_input(
        "chain,address\nbase,0x1111111111111111111111111111111111111111\n\n  \nbase,0x12\n",
        InputFormat::Csv,
        None,
    )
    .unwrap_err();
    assert!(matches!(late, InputError::InvalidAddress { line: 5, .. }));
}

#[test]
fn csv_row_without_comma_reports_its_own_line() {
    let err = parse_input(
        "chain,address\nbase0x1111111111111111111111111111111111111111\n",
        InputFormat::Csv,
        None,
    )
    .unwrap_err();
    assert_eq!(
        err,
        InputError::InvalidAddress { line: 2, reason: "CSV row must be `chain,address`".to_string() }
    );
    let later = parse_input(
        "chain,address\nbase,0x12\n\nno comma here\n",
        InputFormat::Csv,
        None,
    )
    .unwrap_err();
    assert_eq!(
        later,
        InputError::InvalidAddress { line: 4, reason: "CSV row must be `chain,address`".to_string() }
    );
}

#[test]
fn csv_records_keep_their_data_row_numbers() {
    let parsed = parse_input(
        "chain,address\n\nbase,0x1111111111111111111111111111111111111111\n",
        InputFormat::Csv,
        None,
    )
    .unwrap();
    assert_eq!(parsed.records.len(), 1);
    assert_eq!(parsed.records[0].line_number, 1);
}

#[test]
fn jsonl_input_is_not_available_yet() {
    let err = parse_input("{}", InputFormat::Jsonl, None).unwrap_err();
    assert_eq!(
        err,
        InputError::InvalidAddress {
            line: 0,
            reason: "jsonl input format not yet implemented".to_string()
        }
    );
}

#[test]
fn first_occurrence_is_kept_and_later_duplicates_counted() {
    let input = "base:0x2222222222222222222222222222222222222222\n\
                  0x1111111111111111111111111111111111111111\n\
                  bsc:0x2222222222222222222222222222222222222222\n\
                  0X2222222222222222222222222222222222222222\n";
    let parsed = parse_input(input, InputFormat::Lines, None).unwrap();
    assert_eq!(parsed.records.len(), 2);
    assert_eq!(parsed.duplicate_count, 2);
    assert_eq!(parsed.records[0].line_number, 1);
    assert_eq!(parsed.records[0].kind, IdentityKind::Explicit(ChainTag::Base));
    assert_eq!(parsed.records[1].line_number, 2);
}

#[test]
fn chain_tags_know_their_family() {
    assert_eq!(ChainTag::Solana.family(), ChainFamily::Solana);
    assert_eq!(ChainTag::Robinhood.family(), ChainFamily::Evm);
    assert_eq!(ChainTag::Bsc.debug_name(), "Bsc");
}

#[test]
fn evm_address_text_reads_back_as_its_bytes() {
    let mut bytes = [0u8; 20];
    for (i, b) in bytes.iter_mut().enumerate() {
        *b = (i as u8).wrapping_mul(37).wrapping_add(0x0f);
    }
    let original = AddressBytes::Evm(bytes);
    let text = original.to_display_string();
    let parsed = parse_input(&format!("base:{text}\n"), InputFormat::Lines, None).unwrap();
    assert_eq!(parsed.records[0].canonical, original);
    let upper = text.to_uppercase().replacen("0X", "0x", 1);
    let parsed_upper = parse_input(&format!("base:{upper}\n"), InputFormat::Lines, None).unwrap();
    assert_eq!(parsed_upper.records[0].canonical, original);
}

#[test]
fn solana_text_uses_only_the_base58_alphabet_and_reads_back() {
    let mut bytes = [0u8; 32];
    for (i, b) in bytes.iter_mut().enumerate() {
        *b = (i as u8).wrapping_mul(91).wrapping_add(3);
    }
    let original = AddressBytes::Solana(bytes);
    let text = original.to_display_string();
    let alphabet = "123456789ABCDEFGHJKLMNPQRSTUVWXYZabcdefghijkmnopqrstuvwxyz";
    assert!(text.chars().all(|c| alphabet.contains(c)));
    let parsed = parse_input(&format!("solana:{text}\n"), InputFormat::Lines, None).unwrap();
    assert_eq!(parsed.records[0].canonical, original);
}

#[test]
fn evm_address_hex_may_mix_cases() {
    let lower = parse_input("base:0xabcdef0123456789abcdef0123456789abcdef01\n", InputFormat::Lines, None).unwrap();
    let mixed = parse_input("base:0xAbCdEf0123456789aBcDeF0123456789ABCDEF01\n", InputFormat::Lines, None).unwrap();
    assert_eq!(lower.records[0].canonical, mixed.records[0].canonical);
    let odd = parse_input("base:0xabc\n", InputFormat::Lines, None).unwrap_err();
    assert_eq!(odd.to_display_string(), "line 1: invalid address: invalid hex in EVM address");
    let non_hex = parse_input("base:0xzz\n", InputFormat::Lines, None).unwrap_err();
    assert_eq!(non_hex.to_display_string(), "line 1: invalid address: invalid hex in EVM address");
}

#[test]
fn decoded_solana_bytes_must_be_32() {
    let ok = solana_address_from_decoded(Some(vec![7u8; 32]), 4).unwrap();
    assert_eq!(ok, AddressBytes::Solana([7u8; 32]));
    assert_eq!(
        solana_address_from_decoded(Some(vec![1u8; 31]), 4).unwrap_err(),
        InputError::InvalidAddress { line: 4, reason: "Solana address must be 32 bytes, got 31".to_string() }
    );
    assert_eq!(
        solana_address_from_decoded(None, 2).unwrap_err(),
        InputError::InvalidAddress { line: 2, reason: "invalid base58 in Solana address".to_string() }
    );
}
