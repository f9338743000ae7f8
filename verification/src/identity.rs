//! Chain, wallet and asset identities. Network identity is part of every
//! key: the same address bytes on two chains are two different keys.
//!
//! Every key has an identity sequence (`key_id`): an encoding of its
//! fields in declaration order, each text ended by a zero and each byte
//! string of fixed length, so that lexicographic order on identity
//! sequences is the field-by-field order. Maps and comparisons of keys go
//! by these sequences.

use vstd::prelude::*;
use vstd::string::*;

use crate::sorted_map::KeyId;
use crate::text::{hex_lower_spec, push_char, push_hex_lower};

verus! {

/// Which blockchain family an address/chain belongs to.
#[derive(Debug, Clone, Copy, PartialEq, Eq, PartialOrd, Ord, Hash)]
pub enum ChainFamily {
    Solana,
    Evm,
}

/// Network identifier within a family.
#[derive(Debug, Clone, Copy, PartialEq, Eq, PartialOrd, Ord, Hash)]
pub enum NetworkId {
    EvmChainId(u64),
    SolanaCluster(SolanaCluster),
}

#[derive(Debug, Clone, Copy, PartialEq, Eq, PartialOrd, Ord, Hash)]
pub enum SolanaCluster {
    Mainnet,
    Devnet,
    Testnet,
}

/// Verified genesis fingerprint of a chain, or the marker that it has not
/// been verified.
#[derive(Debug, PartialEq, Eq, PartialOrd, Ord, Hash)]
pub enum GenesisIdentity {
    Unverified,
    Verified(String),
}

/// Full chain identity: family, network and genesis fingerprint.
#[derive(Debug, PartialEq, Eq, PartialOrd, Ord, Hash)]
pub struct ChainKey {
    pub family: ChainFamily,
    pub network_id: NetworkId,
    pub genesis_identity: GenesisIdentity,
}

/// Address bytes tagged by chain family.
#[derive(Debug, PartialEq, Eq, PartialOrd, Ord, Hash)]
pub enum AddressBytes {
    Evm([u8; 20]),
    Solana([u8; 32]),
}

/// A wallet's canonical identity: which chain, which address.
#[derive(Debug, PartialEq, Eq, PartialOrd, Ord, Hash)]
pub struct WalletKey {
    pub chain: ChainKey,
    pub address: AddressBytes,
}

/// An asset's canonical identity: a chain's native currency, or a token
/// contract/mint on that chain.
#[derive(Debug, PartialEq, Eq, PartialOrd, Ord, Hash)]
pub enum AssetKey {
    Native(ChainKey),
    Token(ChainKey, AddressBytes),
}

/// Result of resolving a bare address to a chain; never picks the first
/// responder.
#[derive(Debug, PartialEq, Eq)]
pub enum ChainResolution {
    Resolved(ChainKey),
    /// Valid candidate on more than one enabled chain.
    Ambiguous(Vec<ChainKey>),
    /// Not found in any available index; not proof of absence.
    NotFoundOrUnobserved,
}

impl Clone for GenesisIdentity {
    fn clone(&self) -> (r: Self)
        ensures
            r == *self,
    {
        match self {
            GenesisIdentity::Unverified => GenesisIdentity::Unverified,
            GenesisIdentity::Verified(s) => GenesisIdentity::Verified(s.clone()),
        }
    }
}

impl Clone for ChainKey {
    fn clone(&self) -> (r: Self)
        ensures
            r == *self,
    {
        ChainKey {
            family: self.family,
            network_id: self.network_id,
            genesis_identity: self.genesis_identity.clone(),
        }
    }
}

impl Clone for AddressBytes {
    fn clone(&self) -> (r: Self)
        ensures
            r == *self,
    {
        match self {
            AddressBytes::Evm(b) => AddressBytes::Evm(*b),
            AddressBytes::Solana(b) => AddressBytes::Solana(*b),
        }
    }
}

impl Clone for WalletKey {
    fn clone(&self) -> (r: Self)
        ensures
            r == *self,
    {
        WalletKey { chain: self.chain.clone(), address: self.address.clone() }
    }
}

impl Clone for AssetKey {
    fn clone(&self) -> (r: Self)
        ensures
            r == *self,
    {
        match self {
            AssetKey::Native(c) => AssetKey::Native(c.clone()),
            AssetKey::Token(c, a) => AssetKey::Token(c.clone(), a.clone()),
        }
    }
}

/// Identity sequence of a text: each character shifted by one, then a
/// terminating zero, so that a proper prefix orders first.
pub open spec fn text_id(s: Seq<char>) -> Seq<u64> {
    s.map_values(|c: char| (c as u64 + 1) as u64).push(0)
}

proof fn lemma_shifted_char_injective(x: char, y: char)
    requires
        (x as u64 + 1) as u64 == (y as u64 + 1) as u64,
    ensures
        x == y,
{
}

/// Different texts have different identity sequences.
pub proof fn lemma_text_id_injective(a: Seq<char>, b: Seq<char>)
    requires
        a != b,
    ensures
        text_id(a) != text_id(b),
{
    let f = |c: char| (c as u64 + 1) as u64;
    assert(text_id(a) == a.map_values(f).push(0));
    assert(text_id(b) == b.map_values(f).push(0));
    if text_id(a) == text_id(b) {
        assert(a.map_values(f).push(0).len() == a.len() + 1);
        assert(b.map_values(f).push(0).len() == b.len() + 1);
        assert(a.len() == b.len());
        assert forall|i: int| 0 <= i < a.len() implies a[i] == b[i] by {
            assert(text_id(a)[i] == a.map_values(f)[i]);
            assert(text_id(b)[i] == b.map_values(f)[i]);
            lemma_shifted_char_injective(a[i], b[i]);
        }
        assert(a =~= b);
    }
}

/// Identity sequence of a byte string of fixed length.
pub open spec fn bytes_id(b: Seq<u8>) -> Seq<u64> {
    b.map_values(|x: u8| x as u64)
}

impl ChainFamily {
    pub open spec fn id(self) -> u64 {
        match self {
            ChainFamily::Solana => 0,
            ChainFamily::Evm => 1,
        }
    }
}

impl SolanaCluster {
    pub open spec fn id(self) -> u64 {
        match self {
            SolanaCluster::Mainnet => 0,
            SolanaCluster::Devnet => 1,
            SolanaCluster::Testnet => 2,
        }
    }
}

impl NetworkId {
    pub open spec fn id(self) -> Seq<u64> {
        match self {
            NetworkId::EvmChainId(c) => seq![0u64, c],
            NetworkId::SolanaCluster(k) => seq![1u64, k.id()],
        }
    }
}

impl GenesisIdentity {
    pub open spec fn id(self) -> Seq<u64> {
        match self {
            GenesisIdentity::Unverified => seq![0u64],
            GenesisIdentity::Verified(s) => seq![1u64] + text_id(s@),
        }
    }
}

impl ChainKey {
    pub open spec fn id(self) -> Seq<u64> {
        seq![self.family.id()] + self.network_id.id() + self.genesis_identity.id()
    }
}

impl AddressBytes {
    pub open spec fn id(self) -> Seq<u64> {
        match self {
            AddressBytes::Evm(b) => seq![0u64] + bytes_id(b@),
            AddressBytes::Solana(b) => seq![1u64] + bytes_id(b@),
        }
    }
}

impl WalletKey {
    pub open spec fn id(self) -> Seq<u64> {
        self.chain.id() + self.address.id()
    }
}

impl AssetKey {
    pub open spec fn id(self) -> Seq<u64> {
        match self {
            AssetKey::Native(c) => seq![0u64] + c.id(),
            AssetKey::Token(c, a) => seq![1u64] + c.id() + a.id(),
        }
    }
}

/// Appends the identity sequence of a text.
pub fn push_text_id(out: &mut Vec<u64>, s: &str)
    ensures
        final(out)@ == old(out)@ + text_id(s@),
{
    let ghost start = out@;
    let n = s.unicode_len();
    let mut i: usize = 0;
    while i < n
        invariant
            n == s@.len(),
            i <= n,
            out@ == start + s@.subrange(0, i as int).map_values(|c: char| (c as u64 + 1) as u64),
        decreases n - i,
    {
        let c = s.get_char(i);
        out.push(c as u64 + 1);
        assert(s@.subrange(0, i + 1) =~= s@.subrange(0, i as int).push(c));
        assert(out@ =~= start + s@.subrange(0, i + 1).map_values(|c: char| (c as u64 + 1) as u64));
        i = i + 1;
    }
    assert(s@.subrange(0, n as int) =~= s@);
    out.push(0);
    assert(out@ =~= start + text_id(s@));
}

/// Appends the identity sequence of a byte string.
pub fn push_bytes_id(out: &mut Vec<u64>, b: &[u8])
    ensures
        final(out)@ == old(out)@ + bytes_id(b@),
{
    let ghost start = out@;
    let mut i: usize = 0;
    while i < b.len()
        invariant
            i <= b.len(),
            out@ == start + bytes_id(b@.subrange(0, i as int)),
        decreases b.len() - i,
    {
        out.push(b[i] as u64);
        assert(b@.subrange(0, i + 1) =~= b@.subrange(0, i as int).push(b@[i as int]));
        assert(out@ =~= start + bytes_id(b@.subrange(0, i + 1)));
        i = i + 1;
    }
    assert(b@.subrange(0, i as int) =~= b@);
}

impl ChainKey {
    /// Appends this chain key's identity sequence.
    pub fn push_id(&self, out: &mut Vec<u64>)
        ensures
            final(out)@ == old(out)@ + self.id(),
    {
        let ghost start = out@;
        match self.family {
            ChainFamily::Solana => out.push(0),
            ChainFamily::Evm => out.push(1),
        }
        match self.network_id {
            NetworkId::EvmChainId(c) => {
                out.push(0);
                out.push(c);
            },
            NetworkId::SolanaCluster(k) => {
                out.push(1);
                match k {
                    SolanaCluster::Mainnet => out.push(0),
                    SolanaCluster::Devnet => out.push(1),
                    SolanaCluster::Testnet => out.push(2),
                }
            },
        }
        match &self.genesis_identity {
            GenesisIdentity::Unverified => out.push(0),
            GenesisIdentity::Verified(s) => {
                out.push(1);
                push_text_id(out, s.as_str());
            },
        }
        assert(out@ =~= start + self.id());
    }
}

impl AddressBytes {
    /// Appends this address's identity sequence.
    pub fn push_id(&self, out: &mut Vec<u64>)
        ensures
            final(out)@ == old(out)@ + self.id(),
    {
        let ghost start = out@;
        match self {
            AddressBytes::Evm(b) => {
                out.push(0);
                push_bytes_id(out, b.as_slice());
            },
            AddressBytes::Solana(b) => {
                out.push(1);
                push_bytes_id(out, b.as_slice());
            },
        }
        assert(out@ =~= start + self.id());
    }

    /// Whether two addresses are the same address.
    pub fn same_as(&self, other: &AddressBytes) -> (r: bool)
        ensures
            r == (self.id() == other.id()),
    {
        let a = self.key_id_vec();
        let b = other.key_id_vec();
        crate::order::compare_ids(a.as_slice(), b.as_slice()) == crate::order::KeyOrder::Equal
    }

    /// Human-readable canonical form: `0x` plus lowercase hex for EVM,
    /// base58 for Solana.
    pub fn to_display_string(&self) -> (s: String)
        ensures
            s@ == address_text(*self),
            self is Solana ==> forall|i: int| 0 <= i < s@.len() ==> is_base58_char(#[trigger] s@[i]),
    {
        match self {
            AddressBytes::Evm(b) => {
                let mut s = String::new();
                push_char(&mut s, '0');
                push_char(&mut s, 'x');
                push_hex_lower(&mut s, b.as_slice());
                assert(s@ =~= seq!['0', 'x'] + hex_lower_spec(b@));
                s
            },
            AddressBytes::Solana(b) => base58_encode(b.as_slice()),
        }
    }
}

/// The canonical text of an address.
pub open spec fn address_text(a: AddressBytes) -> Seq<char> {
    match a {
        AddressBytes::Evm(b) => seq!['0', 'x'] + hex_lower_spec(b@),
        AddressBytes::Solana(b) => base58_encoding(b@),
    }
}

/// Base58 (Bitcoin alphabet) text of a byte string, as the `bs58` crate
/// encodes it.
pub uninterp spec fn base58_encoding(bytes: Seq<u8>) -> Seq<char>;

/// A character of the Bitcoin base58 alphabet: the digits but `0`, and
/// the letters but `O`, `I` and `l`.
pub open spec fn is_base58_char(c: char) -> bool {
    ||| '1' <= c <= '9'
    ||| 'A' <= c <= 'H'
    ||| 'J' <= c <= 'N'
    ||| 'P' <= c <= 'Z'
    ||| 'a' <= c <= 'k'
    ||| 'm' <= c <= 'z'
}

/// Trusted: `bs58::encode(bytes).into_string()`, a deterministic function
/// of the bytes alone, written with the default (Bitcoin) alphabet; the
/// contract names its result and claims only that every character is of
/// that alphabet.
#[verifier::external_body]
fn base58_encode(bytes: &[u8]) -> (s: String)
    ensures
        s@ == base58_encoding(bytes@),
        forall|i: int| 0 <= i < s@.len() ==> is_base58_char(#[trigger] s@[i]),
{
    bs58::encode(bytes).into_string()
}

impl KeyId for AddressBytes {
    open spec fn key_id(&self) -> Seq<u64> {
        self.id()
    }

    fn key_id_vec(&self) -> (r: Vec<u64>) {
        let mut out = Vec::new();
        self.push_id(&mut out);
        assert(out@ =~= self.id());
        out
    }
}

impl KeyId for WalletKey {
    open spec fn key_id(&self) -> Seq<u64> {
        self.id()
    }

    fn key_id_vec(&self) -> (r: Vec<u64>) {
        let mut out = Vec::new();
        self.chain.push_id(&mut out);
        self.address.push_id(&mut out);
        assert(out@ =~= self.id());
        out
    }
}

impl KeyId for AssetKey {
    open spec fn key_id(&self) -> Seq<u64> {
        self.id()
    }

    fn key_id_vec(&self) -> (r: Vec<u64>) {
        let mut out = Vec::new();
        match self {
            AssetKey::Native(c) => {
                out.push(0);
                c.push_id(&mut out);
            },
            AssetKey::Token(c, a) => {
                out.push(1);
                c.push_id(&mut out);
                a.push_id(&mut out);
            },
        }
        assert(out@ =~= self.id());
        out
    }
}

impl KeyId for String {
    open spec fn key_id(&self) -> Seq<u64> {
        text_id(self@)
    }

    fn key_id_vec(&self) -> (r: Vec<u64>) {
        let mut out = Vec::new();
        push_text_id(&mut out, self.as_str());
        assert(out@ =~= text_id(self@));
        out
    }
}

} // verus!
