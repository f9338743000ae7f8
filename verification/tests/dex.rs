use trader_scout::amount::RawAmount;
use trader_scout::bonding_curve_buy::{decode_bonding_curve_buy, BondingCurveBuyDecoder, BUY_INSTRUCTION_DISCRIMINATOR};
use trader_scout::decoder::{DecodeOutcome, DeploymentScope, TxDecoder};
use trader_scout::identity::{AddressBytes, ChainFamily, ChainKey, GenesisIdentity, NetworkId, SolanaCluster};
use trader_scout::raw_payload::{RawEvmLog, RawSolanaInstruction};
use trader_scout::v2_swap::{decode_v2_style_swap, V2SwapDecoder, V2_SWAP_EVENT_SIGNATURE};

fn address_topic(addr_bytes: [u8; 20]) -> [u8; 32] {
    let mut topic = [0u8; 32];
    topic[12..32].copy_from_slice(&addr_bytes);
    topic
}

fn synthetic_v2_swap_log(
    amount0_in: u64,
    amount1_in: u64,
    amount0_out: u64,
    amount1_out: u64,
) -> RawEvmLog {
    let mut data = Vec::with_capacity(128);
    for amount in [amount0_in, amount1_in, amount0_out, amount1_out] {
        let mut word = [0u8; 32];
        word[24..32].copy_from_slice(&amount.to_be_bytes());
        data.extend_from_slice(&word);
    }
    RawEvmLog {
        address: [0xAA; 20],
        topics: vec![V2_SWAP_EVENT_SIGNATURE, address_topic([0x11; 20]), address_topic([0x22; 20])],
        data,
        block_number: 12_345,
        transaction_index: 7,
        log_index: 2,
    }
}

#[test]
fn decodes_a_well_formed_v2_swap_log() {
    let log = synthetic_v2_swap_log(1_000, 0, 0, 950);
    let outcome = decode_v2_style_swap(&log);
    let decoded = outcome.decoded().unwrap();
    assert_eq!(decoded.amount0_in, RawAmount::from_u128(1_000));
    assert_eq!(decoded.amount1_out, RawAmount::from_u128(950));
    assert_eq!(decoded.pool_address, [0xAA; 20]);
    assert_eq!(decoded.sender, [0x11; 20]);
    assert_eq!(decoded.to, [0x22; 20]);
    assert_eq!(decoded.block_number, 12_345);
}

#[test]
fn wrong_signature_is_not_mine_not_an_error() {
    let mut log = synthetic_v2_swap_log(1, 0, 0, 1);
    log.topics[0] = [0u8; 32];
    let outcome = decode_v2_style_swap(&log);
    assert_eq!(outcome, DecodeOutcome::NotMine);
}

#[test]
fn matching_signature_with_wrong_topic_count_is_malformed_not_not_mine() {
    let mut log = synthetic_v2_swap_log(1, 0, 0, 1);
    log.topics.pop();
    let outcome = decode_v2_style_swap(&log);
    assert!(outcome.is_malformed());
    assert!(!outcome.is_not_mine());
}

#[test]
fn matching_signature_with_wrong_data_length_is_malformed() {
    let mut log = synthetic_v2_swap_log(1, 0, 0, 1);
    log.data = vec![0u8; 64];
    let outcome = decode_v2_style_swap(&log);
    assert!(outcome.is_malformed());
}

#[test]
fn preserves_canonical_ordering_fields_for_downstream_ledger_ordering() {
    let log = synthetic_v2_swap_log(1, 0, 0, 1);
    let decoded = decode_v2_style_swap(&log).decoded().unwrap();
    assert_eq!(decoded.block_number, 12_345);
    assert_eq!(decoded.transaction_index, 7);
    assert_eq!(decoded.log_index, 2);
}

#[test]
fn max_u256_amount_does_not_overflow_or_truncate() {
    let mut data = vec![0xFFu8; 32];
    data.extend_from_slice(&[0u8; 32]);
    data.extend_from_slice(&[0u8; 32]);
    data.extend_from_slice(&[0u8; 32]);
    let log = RawEvmLog {
        address: [0xAA; 20],
        topics: vec![V2_SWAP_EVENT_SIGNATURE, address_topic([0x11; 20]), address_topic([0x22; 20])],
        data,
        block_number: 1,
        transaction_index: 0,
        log_index: 0,
    };
    let decoded = decode_v2_style_swap(&log).decoded().unwrap();
    assert_eq!(decoded.amount0_in, RawAmount::from_parts(u128::MAX, u128::MAX));
}

#[test]
fn high_half_of_an_amount_word_is_kept() {
    let mut data = vec![0u8; 128];
    data[15] = 1; // amount0_in = 2^128
    data[127] = 3; // amount1_out = 3
    let log = RawEvmLog {
        address: [0xAA; 20],
        topics: vec![V2_SWAP_EVENT_SIGNATURE, address_topic([0x11; 20]), address_topic([0x22; 20])],
        data,
        block_number: 1,
        transaction_index: 0,
        log_index: 0,
    };
    let decoded = decode_v2_style_swap(&log).decoded().unwrap();
    assert_eq!(decoded.amount0_in, RawAmount::from_parts(1, 0));
    assert_eq!(decoded.amount1_out, RawAmount::from_u128(3));
}

#[test]
fn v2_swap_decoder_implements_tx_decoder_trait() {
    let scope = DeploymentScope {
        chain: ChainKey {
            family: ChainFamily::Evm,
            network_id: NetworkId::EvmChainId(8453),
            genesis_identity: GenesisIdentity::Unverified,
        },
        contract_addresses: vec![AddressBytes::Evm([0xAA; 20])],
        active_from: 0,
        active_until: None,
    };
    let decoder = V2SwapDecoder::new(scope);
    let log = synthetic_v2_swap_log(1, 0, 0, 1);
    let outcome = decoder.decode(&log);
    assert!(matches!(outcome, DecodeOutcome::Decoded(_)));
}

fn synthetic_buy_instruction(sol_in: u64, min_tokens_out: u64) -> RawSolanaInstruction {
    let mut data = Vec::with_capacity(24);
    data.extend_from_slice(&BUY_INSTRUCTION_DISCRIMINATOR);
    data.extend_from_slice(&sol_in.to_le_bytes());
    data.extend_from_slice(&min_tokens_out.to_le_bytes());
    RawSolanaInstruction {
        program_id: [0xAA; 32],
        accounts: vec![[0x11; 32], [0x22; 32], [0x33; 32], [0x44; 32]],
        data,
        instruction_index: 1,
    }
}

#[test]
fn decodes_a_well_formed_buy_instruction() {
    let instruction = synthetic_buy_instruction(1_000_000_000, 500_000);
    let decoded = decode_bonding_curve_buy(&instruction, 12_345, 3).decoded().unwrap();
    assert_eq!(decoded.sol_in, 1_000_000_000);
    assert_eq!(decoded.min_tokens_out, 500_000);
    assert_eq!(decoded.buyer, [0x11; 32]);
    assert_eq!(decoded.bonding_curve, [0x22; 32]);
    assert_eq!(decoded.mint, [0x33; 32]);
    assert_eq!(decoded.buyer_token_account, [0x44; 32]);
    assert_eq!(decoded.slot, 12_345);
    assert_eq!(decoded.transaction_index, 3);
    assert_eq!(decoded.instruction_index, 1);
}

#[test]
fn wrong_discriminator_is_not_mine_not_an_error() {
    let mut instruction = synthetic_buy_instruction(1, 1);
    instruction.data[0] = 0xFF;
    let outcome = decode_bonding_curve_buy(&instruction, 1, 0);
    assert_eq!(outcome, DecodeOutcome::NotMine);
}

#[test]
fn matching_discriminator_with_wrong_account_count_is_malformed() {
    let mut instruction = synthetic_buy_instruction(1, 1);
    instruction.accounts.pop();
    let outcome = decode_bonding_curve_buy(&instruction, 1, 0);
    assert!(outcome.is_malformed());
    assert!(!outcome.is_not_mine());
}

#[test]
fn matching_discriminator_with_wrong_data_length_is_malformed() {
    let mut instruction = synthetic_buy_instruction(1, 1);
    instruction.data.push(0x00);
    let outcome = decode_bonding_curve_buy(&instruction, 1, 0);
    assert!(outcome.is_malformed());
}

#[test]
fn preserves_canonical_ordering_fields() {
    let instruction = synthetic_buy_instruction(1, 1);
    let decoded = decode_bonding_curve_buy(&instruction, 999, 5).decoded().unwrap();
    assert_eq!(decoded.slot, 999);
    assert_eq!(decoded.transaction_index, 5);
    assert_eq!(decoded.instruction_index, 1);
}

#[test]
fn max_u64_amounts_do_not_overflow_or_truncate() {
    let instruction = synthetic_buy_instruction(u64::MAX, u64::MAX);
    let decoded = decode_bonding_curve_buy(&instruction, 1, 0).decoded().unwrap();
    assert_eq!(decoded.sol_in, u64::MAX);
    assert_eq!(decoded.min_tokens_out, u64::MAX);
}

#[test]
fn too_short_instruction_data_is_not_mine() {
    let instruction = RawSolanaInstruction {
        program_id: [0xAA; 32],
        accounts: vec![],
        data: vec![0x01, 0x02],
        instruction_index: 0,
    };
    let outcome = decode_bonding_curve_buy(&instruction, 1, 0);
    assert_eq!(outcome, DecodeOutcome::NotMine);
}

#[test]
fn bonding_curve_buy_decoder_implements_tx_decoder_trait() {
    let scope = DeploymentScope {
        chain: ChainKey {
            family: ChainFamily::Solana,
            network_id: NetworkId::SolanaCluster(SolanaCluster::Mainnet),
            genesis_identity: GenesisIdentity::Unverified,
        },
        contract_addresses: vec![AddressBytes::Solana([0xAA; 32])],
        active_from: 0,
        active_until: None,
    };
    let decoder = BondingCurveBuyDecoder::new(scope);
    let instruction = synthetic_buy_instruction(1, 1);
    let outcome = decoder.decode(&instruction);
    assert!(matches!(outcome, DecodeOutcome::Decoded(_)));
}

#[test]
fn malformed_messages_name_the_counts() {
    let mut log = synthetic_v2_swap_log(1, 0, 0, 1);
    log.topics.pop();
    assert_eq!(
        decode_v2_style_swap(&log),
        DecodeOutcome::Malformed(
            "log matches v2 Swap signature but has 2 topics, expected 3 (signature + sender + to)"
                .to_string()
        )
    );
    let mut log = synthetic_v2_swap_log(1, 0, 0, 1);
    log.data = vec![0u8; 64];
    assert_eq!(
        decode_v2_style_swap(&log),
        DecodeOutcome::Malformed(
            "log matches v2 Swap signature but data has 64 bytes, expected 128 (4x uint256)"
                .to_string()
        )
    );
    let mut instruction = synthetic_buy_instruction(1, 1);
    instruction.data.push(0);
    assert_eq!(
        decode_bonding_curve_buy(&instruction, 1, 0),
        DecodeOutcome::Malformed(
            "instruction matches buy discriminator but data has 25 bytes, expected 24 (8-byte discriminator + 2x u64)"
                .to_string()
        )
    );
    let mut instruction = synthetic_buy_instruction(1, 1);
    instruction.accounts.pop();
    assert_eq!(
        decode_bonding_curve_buy(&instruction, 1, 0),
        DecodeOutcome::Malformed(
            "instruction matches buy discriminator but has 3 accounts, expected 4 (buyer, bonding_curve, mint, buyer_token_account)"
                .to_string()
        )
    );
}

#[test]
fn an_empty_topic_list_is_not_mine() {
    let mut log = synthetic_v2_swap_log(1, 0, 0, 1);
    log.topics.clear();
    assert_eq!(decode_v2_style_swap(&log), DecodeOutcome::NotMine);
}
