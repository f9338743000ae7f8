//! Raw provider payload shapes, prior to any protocol-specific reading.
//! Addresses and hashes are held as plain byte arrays.

use vstd::prelude::*;

use crate::amount::RawAmount;

verus! {

/// A 32-byte Solana address (program id, mint or account).
pub type SolanaPubkey = [u8; 32];

/// One EVM log entry. `topics[0]` is the event signature hash when
/// present; the topic count is not fixed.
#[derive(Debug, Clone, PartialEq, Eq)]
pub struct RawEvmLog {
    pub address: [u8; 20],
    pub topics: Vec<[u8; 32]>,
    pub data: Vec<u8>,
    pub block_number: u64,
    pub transaction_index: u64,
    pub log_index: u64,
}

/// Minimal EVM transaction context: sender and canonical position.
#[derive(Debug, Clone, PartialEq, Eq)]
pub struct RawEvmTransaction {
    pub hash: [u8; 32],
    pub from: [u8; 20],
    pub to: Option<[u8; 20]>,
    pub block_number: u64,
    pub transaction_index: u64,
    pub value: RawAmount,
}

/// One Solana instruction with its accounts already resolved.
#[derive(Debug, Clone, PartialEq, Eq)]
pub struct RawSolanaInstruction {
    pub program_id: SolanaPubkey,
    /// Accounts in the order the instruction defines them.
    pub accounts: Vec<SolanaPubkey>,
    pub data: Vec<u8>,
    /// Position within the transaction's flattened instruction list.
    pub instruction_index: u32,
}

/// Minimal Solana transaction context: canonical position and the
/// instructions it contains.
#[derive(Debug, Clone, PartialEq, Eq)]
pub struct RawSolanaTransaction {
    pub signature: [u8; 64],
    pub slot: u64,
    pub transaction_index: u64,
    pub instructions: Vec<RawSolanaInstruction>,
}

/// Every raw payload shape a history provider may return.
#[derive(Debug, Clone, PartialEq, Eq)]
pub enum RawPayload {
    EvmLog(RawEvmLog),
    EvmTransaction(RawEvmTransaction),
    SolanaInstruction(RawSolanaInstruction),
    SolanaTransaction(RawSolanaTransaction),
}

} // verus!
