//! The `Debug` text of chain identities, as the derived `Debug` writes it
//! without flags: `ChainKey { family: Evm, network_id: EvmChainId(8453),
//! genesis_identity: Unverified }`, and lists as `[a, b]`.

use vstd::prelude::*;
use vstd::string::*;

use crate::identity::{ChainFamily, ChainKey, GenesisIdentity, NetworkId, SolanaCluster};
use crate::text::{decimal, push_decimal};

verus! {

/// A family's name as `Debug` prints it.
pub open spec fn family_debug_name(f: ChainFamily) -> Seq<char> {
    match f {
        ChainFamily::Solana => "Solana"@,
        ChainFamily::Evm => "Evm"@,
    }
}

/// A cluster's name as `Debug` prints it.
pub open spec fn cluster_debug_name(c: SolanaCluster) -> Seq<char> {
    match c {
        SolanaCluster::Mainnet => "Mainnet"@,
        SolanaCluster::Devnet => "Devnet"@,
        SolanaCluster::Testnet => "Testnet"@,
    }
}

/// A network's `Debug` text: the variant and its field in parentheses.
pub open spec fn network_debug(n: NetworkId) -> Seq<char> {
    match n {
        NetworkId::EvmChainId(id) => "EvmChainId("@ + decimal(id as nat) + ")"@,
        NetworkId::SolanaCluster(c) => "SolanaCluster("@ + cluster_debug_name(c) + ")"@,
    }
}

/// The `Debug` text of a `str`: the text quoted, with std's escapes.
pub uninterp spec fn str_debug(text: Seq<char>) -> Seq<char>;

/// Trusted: `<str as Debug>::fmt` of std, through `format!`; the text is
/// claimed to be `str_debug` of the characters, a function of them alone.
/// Its form (quotes and escapes) is not stated.
#[verifier::external_body]
fn str_debug_text(text: &str) -> (s: String)
    ensures
        s@ == str_debug(text@),
{
    format!("{text:?}")
}

/// A genesis identity's `Debug` text; a fingerprint is shown as a quoted
/// string.
pub open spec fn genesis_debug(g: GenesisIdentity) -> Seq<char> {
    match g {
        GenesisIdentity::Unverified => "Unverified"@,
        GenesisIdentity::Verified(s) => "Verified("@ + str_debug(s@) + ")"@,
    }
}

/// A chain key's `Debug` text: the struct name, then each field by name.
pub open spec fn chain_key_debug(k: ChainKey) -> Seq<char> {
    "ChainKey { family: "@ + family_debug_name(k.family) + ", network_id: "@ + network_debug(
        k.network_id,
    ) + ", genesis_identity: "@ + genesis_debug(k.genesis_identity) + " }"@
}

/// The `Debug` texts of `keys`, in order, separated by `, `.
pub open spec fn chain_key_items(keys: Seq<ChainKey>) -> Seq<char>
    decreases keys.len(),
{
    if keys.len() == 0 {
        Seq::empty()
    } else if keys.len() == 1 {
        chain_key_debug(keys[0])
    } else {
        chain_key_items(keys.drop_last()) + ", "@ + chain_key_debug(keys.last())
    }
}

/// The `Debug` text of a list of chain keys: `[`, the items, `]`.
pub open spec fn chain_keys_debug(keys: Seq<ChainKey>) -> Seq<char> {
    "["@ + chain_key_items(keys) + "]"@
}

fn network_debug_text(n: &NetworkId) -> (s: String)
    ensures
        s@ == network_debug(*n),
{
    match n {
        NetworkId::EvmChainId(id) => {
            let mut s = String::from_str("EvmChainId(");
            push_decimal(&mut s, *id as u128);
            s.concat(")")
        },
        NetworkId::SolanaCluster(c) => {
            let name = match c {
                SolanaCluster::Mainnet => "Mainnet",
                SolanaCluster::Devnet => "Devnet",
                SolanaCluster::Testnet => "Testnet",
            };
            String::from_str("SolanaCluster(").concat(name).concat(")")
        },
    }
}

/// The `Debug` text of one chain key.
pub fn chain_key_debug_text(k: &ChainKey) -> (s: String)
    ensures
        s@ == chain_key_debug(*k),
{
    let family = match k.family {
        ChainFamily::Solana => "Solana",
        ChainFamily::Evm => "Evm",
    };
    let network = network_debug_text(&k.network_id);
    let genesis = match &k.genesis_identity {
        GenesisIdentity::Unverified => String::from_str("Unverified"),
        GenesisIdentity::Verified(f) => {
            let quoted = str_debug_text(f.as_str());
            String::from_str("Verified(").concat(quoted.as_str()).concat(")")
        },
    };
    String::from_str("ChainKey { family: ").concat(family).concat(", network_id: ").concat(
        network.as_str(),
    ).concat(", genesis_identity: ").concat(genesis.as_str()).concat(" }")
}

/// The `Debug` text of a list of chain keys.
pub fn chain_keys_debug_text(keys: &Vec<ChainKey>) -> (s: String)
    ensures
        s@ == chain_keys_debug(keys@),
{
    let mut items = String::new();
    let mut i: usize = 0;
    while i < keys.len()
        invariant
            i <= keys@.len(),
            items@ == chain_key_items(keys@.take(i as int)),
        decreases keys@.len() - i,
    {
        let t = chain_key_debug_text(&keys[i]);
        let ghost before = items@;
        assert(keys@.take(i + 1).drop_last() =~= keys@.take(i as int));
        assert(keys@.take(i + 1).last() == keys@[i as int]);
        if i > 0 {
            items = items.concat(", ");
        }
        items = items.concat(t.as_str());
        proof {
            if i == 0 {
                assert(before =~= Seq::<char>::empty());
                assert(items@ =~= chain_key_debug(keys@[0]));
                assert(keys@.take(1)[0] == keys@[0]);
            }
        }
        i += 1;
    }
    assert(keys@.take(i as int) =~= keys@);
    String::from_str("[").concat(items.as_str()).concat("]")
}

} // verus!
