//! Protocol decoders: the outcome of decoding one raw payload, and the
//! deployment a decoder is scoped to.

use vstd::prelude::*;

use crate::identity::{AddressBytes, ChainKey};

verus! {

/// Result of decoding one raw payload against one protocol shape.
#[derive(Debug, Clone, PartialEq, Eq)]
pub enum DecodeOutcome<T> {
    /// Not this decoder's shape at all (normal when several decoders are
    /// tried against one payload).
    NotMine,
    /// Successfully decoded.
    Decoded(T),
    /// Matched this decoder's signature but the structure is broken;
    /// never to be treated like `NotMine`.
    Malformed(String),
}

impl<T> DecodeOutcome<T> {
    pub fn is_not_mine(&self) -> (b: bool)
        ensures
            b == (self is NotMine),
    {
        match self {
            DecodeOutcome::NotMine => true,
            _ => false,
        }
    }

    pub fn is_malformed(&self) -> (b: bool)
        ensures
            b == (self is Malformed),
    {
        match self {
            DecodeOutcome::Malformed(_) => true,
            _ => false,
        }
    }

    pub fn decoded(self) -> (r: Option<T>)
        ensures
            self matches DecodeOutcome::Decoded(v) ==> r == Some(v),
            !(self is Decoded) ==> r is None,
    {
        match self {
            DecodeOutcome::Decoded(value) => Some(value),
            DecodeOutcome::NotMine => None,
            DecodeOutcome::Malformed(_) => None,
        }
    }
}

/// An EVM block number or Solana slot.
pub type BlockOrSlot = u64;

/// The deployment a decoder is registered against: chain, contract or
/// program addresses, and activation range.
#[derive(Debug, Clone, PartialEq, Eq)]
pub struct DeploymentScope {
    pub chain: ChainKey,
    pub contract_addresses: Vec<AddressBytes>,
    pub active_from: BlockOrSlot,
    /// `None`: still active as of the last check, not "forever".
    pub active_until: Option<BlockOrSlot>,
}

impl DeploymentScope {
    /// Whether `position` falls within the activation range (both ends
    /// included).
    pub fn covers_position(&self, position: BlockOrSlot) -> (b: bool)
        ensures
            b == (position >= self.active_from && match self.active_until {
                Some(until) => position <= until,
                None => true,
            }),
    {
        position >= self.active_from && match self.active_until {
            Some(until) => position <= until,
            None => true,
        }
    }

    /// Whether `address` is one of the declared contract addresses.
    pub fn covers_address(&self, address: &AddressBytes) -> (b: bool)
        ensures
            b == (exists|i: int|
                0 <= i < self.contract_addresses@.len() && #[trigger] self.contract_addresses@[i].id()
                    == address.id()),
    {
        let mut i: usize = 0;
        while i < self.contract_addresses.len()
            invariant
                i <= self.contract_addresses@.len(),
                forall|j: int| 0 <= j < i ==> #[trigger] self.contract_addresses@[j].id() != address.id(),
            decreases self.contract_addresses@.len() - i,
        {
            if self.contract_addresses[i].same_as(address) {
                return true;
            }
            i = i + 1;
        }
        false
    }
}

/// A protocol decoder, scoped to one deployment.
pub trait TxDecoder<Raw, Decoded> {
    /// The deployment this decoder is scoped to.
    fn scope(&self) -> &DeploymentScope;

    /// Attempt to decode `raw`.
    fn decode(&self, raw: &Raw) -> DecodeOutcome<Decoded>;
}

} // verus!
