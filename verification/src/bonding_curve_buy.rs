//! Decoder for a bonding-curve "buy" instruction: an 8-byte discriminator,
//! then little-endian `u64` SOL in and minimum tokens out, with accounts
//! `[buyer, bonding_curve, mint, buyer_token_account]`.

use vstd::prelude::*;

use crate::bytes::{le_value, read_u64_le};
use crate::decoder::{DecodeOutcome, DeploymentScope, TxDecoder};
use crate::raw_payload::{RawSolanaInstruction, SolanaPubkey};
use crate::text::{decimal, text_with_number};

verus! {

/// The discriminator bytes, as a sequence.
pub open spec fn buy_discriminator() -> Seq<u8> {
    seq![0x66u8, 0x06, 0x3d, 0x12, 0x01, 0xda, 0xeb, 0xea]
}

/// The 8-byte discriminator of the buy instruction shape.
pub const BUY_INSTRUCTION_DISCRIMINATOR: [u8; 8] = [0x66, 0x06, 0x3d, 0x12, 0x01, 0xda, 0xeb, 0xea];

/// A decoded buy: SOL paid in, minimum tokens expected out, accounts and
/// canonical position.
#[derive(Debug, Clone, PartialEq, Eq)]
pub struct DecodedBondingCurveBuy {
    pub buyer: SolanaPubkey,
    pub bonding_curve: SolanaPubkey,
    pub mint: SolanaPubkey,
    pub buyer_token_account: SolanaPubkey,
    pub sol_in: u64,
    pub min_tokens_out: u64,
    pub slot: u64,
    pub transaction_index: u64,
    pub instruction_index: u32,
}

/// A decoder for the buy instruction shape, scoped to one deployment.
#[derive(Debug, Clone)]
pub struct BondingCurveBuyDecoder {
    scope: DeploymentScope,
}

impl BondingCurveBuyDecoder {
    pub closed spec fn scope_spec(&self) -> DeploymentScope {
        self.scope
    }

    pub fn new(scope: DeploymentScope) -> (d: Self)
        ensures
            d.scope_spec() == scope,
    {
        BondingCurveBuyDecoder { scope }
    }
}

impl TxDecoder<RawSolanaInstruction, DecodedBondingCurveBuy> for BondingCurveBuyDecoder {
    fn scope(&self) -> (s: &DeploymentScope)
        ensures
            *s == self.scope_spec(),
    {
        &self.scope
    }

    /// Decodes the shape only: slot and transaction index are not known to
    /// a decoder in isolation and are given as zero.
    fn decode(&self, instruction: &RawSolanaInstruction) -> (r: DecodeOutcome<
        DecodedBondingCurveBuy,
    >)
        ensures
            buy_outcome(*instruction, 0, 0, r),
    {
        decode_bonding_curve_buy(instruction, 0, 0)
    }
}

/// Message of a buy-shaped instruction with data of the wrong length.
pub open spec fn wrong_data_length_message(len: nat) -> Seq<char> {
    "instruction matches buy discriminator but data has "@ + decimal(len)
        + " bytes, expected 24 (8-byte discriminator + 2x u64)"@
}

/// Message of a buy-shaped instruction with the wrong number of accounts.
pub open spec fn wrong_account_count_message(len: nat) -> Seq<char> {
    "instruction matches buy discriminator but has "@ + decimal(len)
        + " accounts, expected 4 (buyer, bonding_curve, mint, buyer_token_account)"@
}

/// What decoding `ix` at the given position yields: `NotMine` unless the
/// data starts with the discriminator; `Malformed` for data other than 24
/// bytes, then for other than 4 accounts; otherwise the decoded buy.
pub open spec fn buy_outcome(
    ix: RawSolanaInstruction,
    slot: u64,
    transaction_index: u64,
    r: DecodeOutcome<DecodedBondingCurveBuy>,
) -> bool {
    let data = ix.data@;
    if data.len() < 8 || data.subrange(0, 8) != buy_discriminator() {
        r is NotMine
    } else if data.len() != 24 {
        r matches DecodeOutcome::Malformed(m) && m@ == wrong_data_length_message(data.len())
    } else if ix.accounts@.len() != 4 {
        r matches DecodeOutcome::Malformed(m) && m@ == wrong_account_count_message(
            ix.accounts@.len(),
        )
    } else {
        r == DecodeOutcome::Decoded(
            DecodedBondingCurveBuy {
                buyer: ix.accounts@[0],
                bonding_curve: ix.accounts@[1],
                mint: ix.accounts@[2],
                buyer_token_account: ix.accounts@[3],
                sol_in: le_value(data.subrange(8, 16)) as u64,
                min_tokens_out: le_value(data.subrange(16, 24)) as u64,
                slot,
                transaction_index,
                instruction_index: ix.instruction_index,
            },
        )
    }
}

/// Decodes a raw instruction as a bonding-curve buy.
pub fn decode_bonding_curve_buy(
    instruction: &RawSolanaInstruction,
    slot: u64,
    transaction_index: u64,
) -> (r: DecodeOutcome<DecodedBondingCurveBuy>)
    ensures
        buy_outcome(*instruction, slot, transaction_index, r),
{
    let data = &instruction.data;
    if data.len() < 8 {
        return DecodeOutcome::NotMine;
    }
    let disc = BUY_INSTRUCTION_DISCRIMINATOR;
    assert(disc@ =~= buy_discriminator());
    let mut k: usize = 0;
    while k < 8
        invariant
            k <= 8,
            8 <= data@.len(),
            data@ == instruction.data@,
            disc@ == buy_discriminator(),
            forall|j: int| 0 <= j < k ==> data@[j] == disc@[j],
        decreases 8 - k,
    {
        if data[k] != disc[k] {
            assert(data@.subrange(0, 8)[k as int] != buy_discriminator()[k as int]);
            assert(data@.subrange(0, 8) != buy_discriminator());
            return DecodeOutcome::NotMine;
        }
        k = k + 1;
    }
    assert(data@.subrange(0, 8) =~= buy_discriminator());
    if data.len() != 24 {
        return DecodeOutcome::Malformed(
            text_with_number(
                "instruction matches buy discriminator but data has ",
                data.len() as u128,
                " bytes, expected 24 (8-byte discriminator + 2x u64)",
            ),
        );
    }
    if instruction.accounts.len() != 4 {
        return DecodeOutcome::Malformed(
            text_with_number(
                "instruction matches buy discriminator but has ",
                instruction.accounts.len() as u128,
                " accounts, expected 4 (buyer, bonding_curve, mint, buyer_token_account)",
            ),
        );
    }
    let sol_in = match read_u64_le(data.as_slice(), 8) {
        Some(v) => v,
        None => {
            return DecodeOutcome::Malformed(
                String::from_str(
                    "instruction matches buy discriminator but sol_in field is unreadable",
                ),
            );
        },
    };
    let min_tokens_out = match read_u64_le(data.as_slice(), 16) {
        Some(v) => v,
        None => {
            return DecodeOutcome::Malformed(
                String::from_str(
                    "instruction matches buy discriminator but min_tokens_out field is unreadable",
                ),
            );
        },
    };
    DecodeOutcome::Decoded(
        DecodedBondingCurveBuy {
            buyer: instruction.accounts[0],
            bonding_curve: instruction.accounts[1],
            mint: instruction.accounts[2],
            buyer_token_account: instruction.accounts[3],
            sol_in,
            min_tokens_out,
            slot,
            transaction_index,
            instruction_index: instruction.instruction_index,
        },
    )
}

/// The little-endian `u64` in the eight bytes of `data` from `off`: the
/// first byte least significant.
pub open spec fn le_u64_field(data: Seq<u8>, off: int) -> int {
    data[off] + 0x100 * data[off + 1] + 0x1_0000 * data[off + 2] + 0x100_0000 * data[off + 3]
        + 0x1_0000_0000 * data[off + 4] + 0x100_0000_0000 * data[off + 5] + 0x1_0000_0000_0000
        * data[off + 6] + 0x100_0000_0000_0000 * data[off + 7]
}

proof fn lemma_le_value_eight(b: Seq<u8>)
    requires
        b.len() == 8,
    ensures
        le_value(b) == le_u64_field(b, 0),
{
    let b1 = b.drop_first();
    let b2 = b1.drop_first();
    let b3 = b2.drop_first();
    let b4 = b3.drop_first();
    let b5 = b4.drop_first();
    let b6 = b5.drop_first();
    let b7 = b6.drop_first();
    let b8 = b7.drop_first();
    assert(le_value(b8) == 0);
    assert(le_value(b7) == b[7] as int);
    assert(le_value(b6) == b[6] + 256 * b[7]);
    assert(le_value(b5) == b[5] + 256 * (b[6] + 256 * b[7]));
    assert(le_value(b4) == b[4] + 256 * le_value(b5));
    assert(le_value(b3) == b[3] + 256 * le_value(b4));
    assert(le_value(b2) == b[2] + 256 * le_value(b3));
    assert(le_value(b1) == b[1] + 256 * le_value(b2));
    assert(le_value(b) == b[0] + 256 * le_value(b1));
}

/// A decoded buy carries the instruction's fields where its layout puts
/// them: after the 8-byte discriminator, SOL in is the little-endian
/// `u64` of bytes 8 to 16 and the minimum tokens out that of bytes 16 to
/// 24; the accounts are, in order, buyer, bonding curve, mint and the
/// buyer's token account.
pub proof fn law_buy_fields_follow_instruction_layout(
    ix: RawSolanaInstruction,
    slot: u64,
    transaction_index: u64,
    d: DecodedBondingCurveBuy,
)
    requires
        buy_outcome(ix, slot, transaction_index, DecodeOutcome::Decoded(d)),
    ensures
        ix.data@.len() == 24,
        d.sol_in == le_u64_field(ix.data@, 8),
        d.min_tokens_out == le_u64_field(ix.data@, 16),
        d.buyer == ix.accounts@[0],
        d.bonding_curve == ix.accounts@[1],
        d.mint == ix.accounts@[2],
        d.buyer_token_account == ix.accounts@[3],
        d.slot == slot,
        d.transaction_index == transaction_index,
{
    let data = ix.data@;
    lemma_le_value_eight(data.subrange(8, 16));
    lemma_le_value_eight(data.subrange(16, 24));
    assert(le_u64_field(data.subrange(8, 16), 0) == le_u64_field(data, 8));
    assert(le_u64_field(data.subrange(16, 24), 0) == le_u64_field(data, 16));
}

} // verus!
