//! Decoder for the Uniswap-v2-shape
//! `Swap(address,uint256,uint256,uint256,uint256,address)` event.

use vstd::prelude::*;

use crate::amount::{two_pow_128, RawAmount};
use crate::bytes::{array20_at, be_u128_at, be_value, lemma_be_concat, lemma_pow256_16};
use crate::decoder::{DecodeOutcome, DeploymentScope, TxDecoder};
use crate::raw_payload::RawEvmLog;
use crate::text::{decimal, text_with_number};

verus! {

/// `keccak256("Swap(address,uint256,uint256,uint256,uint256,address)")`,
/// the event signature hash of the shape.
pub open spec fn v2_swap_signature() -> Seq<u8> {
    seq![
        0xd7u8, 0x8a, 0xd9, 0x5f, 0xa4, 0x6c, 0x99, 0x4b, 0x65, 0x51, 0xd0, 0xda, 0x85, 0xfc,
        0x27, 0x5f, 0xe6, 0x13, 0xce, 0x37, 0x65, 0x7f, 0xb8, 0xd5, 0xe4, 0x4f, 0x1f, 0xea,
        0x53, 0x9d, 0x93, 0x24,
    ]
}

/// The event signature hash of the v2 `Swap` shape.
pub const V2_SWAP_EVENT_SIGNATURE: [u8; 32] = [
    0xd7, 0x8a, 0xd9, 0x5f, 0xa4, 0x6c, 0x99, 0x4b, 0x65, 0x51, 0xd0, 0xda, 0x85, 0xfc, 0x27, 0x5f,
    0xe6, 0x13, 0xce, 0x37, 0x65, 0x7f, 0xb8, 0xd5, 0xe4, 0x4f, 0x1f, 0xea, 0x53, 0x9d, 0x93, 0x24,
];

/// A decoded v2-style swap: amounts in and out of each side, the
/// receiving address, and the canonical position.
#[derive(Debug, Clone, PartialEq, Eq)]
pub struct DecodedSwap {
    pub pool_address: [u8; 20],
    pub sender: [u8; 20],
    pub amount0_in: RawAmount,
    pub amount1_in: RawAmount,
    pub amount0_out: RawAmount,
    pub amount1_out: RawAmount,
    pub to: [u8; 20],
    pub block_number: u64,
    pub transaction_index: u64,
    pub log_index: u64,
}

/// A decoder for the v2 `Swap` shape, scoped to one deployment.
#[derive(Debug, Clone)]
pub struct V2SwapDecoder {
    scope: DeploymentScope,
}

impl V2SwapDecoder {
    pub closed spec fn scope_spec(&self) -> DeploymentScope {
        self.scope
    }

    pub fn new(scope: DeploymentScope) -> (d: Self)
        ensures
            d.scope_spec() == scope,
    {
        V2SwapDecoder { scope }
    }
}

impl TxDecoder<RawEvmLog, DecodedSwap> for V2SwapDecoder {
    fn scope(&self) -> (s: &DeploymentScope)
        ensures
            *s == self.scope_spec(),
    {
        &self.scope
    }

    fn decode(&self, log: &RawEvmLog) -> (r: DecodeOutcome<DecodedSwap>)
        ensures
            swap_outcome(*log, r),
    {
        decode_v2_style_swap(log)
    }
}

/// Message of a signature match with the wrong topic count.
pub open spec fn wrong_topic_count_message(len: nat) -> Seq<char> {
    "log matches v2 Swap signature but has "@ + decimal(len)
        + " topics, expected 3 (signature + sender + to)"@
}

/// Message of a signature match with data of the wrong length.
pub open spec fn wrong_swap_data_message(len: nat) -> Seq<char> {
    "log matches v2 Swap signature but data has "@ + decimal(len)
        + " bytes, expected 128 (4x uint256)"@
}

/// What decoding `log` yields: `NotMine` unless the first topic is the
/// signature; `Malformed` for other than 3 topics, then for data other
/// than 128 bytes; otherwise the swap, with the addresses taken from the
/// low 20 bytes of topics 1 and 2 and the four amounts read big-endian
/// from consecutive 32-byte words of the data.
pub open spec fn swap_outcome(log: RawEvmLog, r: DecodeOutcome<DecodedSwap>) -> bool {
    let topics = log.topics@;
    let data = log.data@;
    if topics.len() == 0 || topics[0]@ != v2_swap_signature() {
        r is NotMine
    } else if topics.len() != 3 {
        r matches DecodeOutcome::Malformed(m) && m@ == wrong_topic_count_message(topics.len())
    } else if data.len() != 128 {
        r matches DecodeOutcome::Malformed(m) && m@ == wrong_swap_data_message(data.len())
    } else {
        r matches DecodeOutcome::Decoded(d) && {
            &&& d.pool_address == log.address
            &&& d.sender@ == topics[1]@.subrange(12, 32)
            &&& d.to@ == topics[2]@.subrange(12, 32)
            &&& d.amount0_in@ == be_value(data.subrange(0, 32))
            &&& d.amount1_in@ == be_value(data.subrange(32, 64))
            &&& d.amount0_out@ == be_value(data.subrange(64, 96))
            &&& d.amount1_out@ == be_value(data.subrange(96, 128))
            &&& d.block_number == log.block_number
            &&& d.transaction_index == log.transaction_index
            &&& d.log_index == log.log_index
        }
    }
}

/// Decodes a raw log as a v2-shape `Swap` event.
pub fn decode_v2_style_swap(log: &RawEvmLog) -> (r: DecodeOutcome<DecodedSwap>)
    ensures
        swap_outcome(*log, r),
{
    if log.topics.len() == 0 {
        return DecodeOutcome::NotMine;
    }
    let sig = V2_SWAP_EVENT_SIGNATURE;
    assert(sig@ =~= v2_swap_signature());
    let first = &log.topics[0];
    let mut k: usize = 0;
    while k < 32
        invariant
            k <= 32,
            sig@ == v2_swap_signature(),
            first@.len() == 32,
            log.topics@.len() > 0,
            *first == log.topics@[0],
            forall|j: int| 0 <= j < k ==> first@[j] == sig@[j],
        decreases 32 - k,
    {
        if first[k] != sig[k] {
            assert(first@[k as int] != v2_swap_signature()[k as int]);
            assert(first@ != v2_swap_signature());
            return DecodeOutcome::NotMine;
        }
        k = k + 1;
    }
    assert(first@ =~= v2_swap_signature());
    if log.topics.len() != 3 {
        return DecodeOutcome::Malformed(
            text_with_number(
                "log matches v2 Swap signature but has ",
                log.topics.len() as u128,
                " topics, expected 3 (signature + sender + to)",
            ),
        );
    }
    if log.data.len() != 128 {
        return DecodeOutcome::Malformed(
            text_with_number(
                "log matches v2 Swap signature but data has ",
                log.data.len() as u128,
                " bytes, expected 128 (4x uint256)",
            ),
        );
    }
    let sender = address_from_topic(&log.topics[1]);
    let to = address_from_topic(&log.topics[2]);
    let data = log.data.as_slice();
    DecodeOutcome::Decoded(
        DecodedSwap {
            pool_address: log.address,
            sender,
            amount0_in: u256_from_data_slice(data, 0),
            amount1_in: u256_from_data_slice(data, 32),
            amount0_out: u256_from_data_slice(data, 64),
            amount1_out: u256_from_data_slice(data, 96),
            to,
            block_number: log.block_number,
            transaction_index: log.transaction_index,
            log_index: log.log_index,
        },
    )
}

/// An indexed `address` topic: the address is the low 20 of its 32 bytes.
fn address_from_topic(topic: &[u8; 32]) -> (a: [u8; 20])
    ensures
        a@ == topic@.subrange(12, 32),
{
    array20_at(topic.as_slice(), 12)
}

/// The big-endian 256-bit word of `data` at `offset`, or zero when the
/// word is not all present.
fn u256_from_data_slice(data: &[u8], offset: usize) -> (v: RawAmount)
    ensures
        offset + 32 <= data@.len() ==> v@ == be_value(data@.subrange(offset as int, offset + 32)),
        offset + 32 > data@.len() ==> v@ == 0,
{
    if offset > data.len() || data.len() - offset < 32 {
        return RawAmount::zero();
    }
    let hi = be_u128_at(data, offset);
    let lo = be_u128_at(data, offset + 16);
    proof {
        let a = data@.subrange(offset as int, offset + 16);
        let b = data@.subrange(offset + 16, offset + 32);
        assert(a + b =~= data@.subrange(offset as int, offset + 32));
        lemma_be_concat(a, b);
        lemma_pow256_16();
        assert(two_pow_128() == 0x1_0000_0000_0000_0000_0000_0000_0000_0000int);
    }
    RawAmount::from_parts(hi, lo)
}

/// The `i`-th 32-byte word of the event data, read big-endian: the
/// data of `Swap(address indexed sender, uint256 amount0In, uint256
/// amount1In, uint256 amount0Out, uint256 amount1Out, address indexed to)`
/// holds its four non-indexed amounts as words 0 to 3, in that order.
pub open spec fn data_word(data: Seq<u8>, i: int) -> nat {
    be_value(data.subrange(32 * i, 32 * i + 32))
}

/// A decoded swap carries the event's amounts in the order the event
/// declares them: `amount0In` is data word 0, `amount1In` word 1,
/// `amount0Out` word 2 and `amount1Out` word 3; the sender and recipient
/// are the indexed topics 1 and 2, in that order.
pub proof fn law_swap_fields_follow_event_declaration(log: RawEvmLog, d: DecodedSwap)
    requires
        swap_outcome(log, DecodeOutcome::Decoded(d)),
    ensures
        log.data@.len() == 128,
        d.amount0_in@ == data_word(log.data@, 0),
        d.amount1_in@ == data_word(log.data@, 1),
        d.amount0_out@ == data_word(log.data@, 2),
        d.amount1_out@ == data_word(log.data@, 3),
        d.sender@ == log.topics@[1]@.subrange(12, 32),
        d.to@ == log.topics@[2]@.subrange(12, 32),
{
}

} // verus!
