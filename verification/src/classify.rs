//! Net-delta buy classification: which assets a confidently attributed
//! owner acquired through an exchange execution within one transaction.

use vstd::prelude::*;

use crate::amount::SignedAmount;
use crate::identity::AssetKey;
use crate::order::lex_less;
use crate::sorted_map::{ids_of, strictly_sorted, KeyId, SortedMap};

verus! {

/// The economic kind of one decoded action. These are never conflated.
#[derive(Debug, Clone, Copy, PartialEq, Eq, Structural)]
pub enum ActionKind {
    Swap,
    Transfer,
    Wrap,
    Unwrap,
    Bridge,
    Mint,
    Burn,
    Airdrop,
    Reward,
    LiquidityAdd,
    LiquidityRemove,
    Fee,
    Unknown,
}

/// One asset's net delta for the owner within a single transaction, and
/// the kinds of action that moved it.
#[derive(Debug)]
pub struct AssetFlow {
    pub asset: AssetKey,
    pub net_delta: SignedAmount,
    pub kinds_observed: Vec<ActionKind>,
}

impl Clone for AssetFlow {
    fn clone(&self) -> (r: Self)
        ensures
            r.asset == self.asset,
            r.net_delta == self.net_delta,
            r.kinds_observed@ == self.kinds_observed@,
    {
        AssetFlow {
            asset: self.asset.clone(),
            net_delta: self.net_delta,
            kinds_observed: self.kinds_observed.clone(),
        }
    }
}

/// The owner's net deltas per asset within one transaction, in asset
/// order.
pub struct NetDeltaInput {
    pub flows: SortedMap<AssetKey, AssetFlow>,
}

impl Default for NetDeltaInput {
    fn default() -> (r: Self)
        ensures
            r.flows.pairs().len() == 0,
    {
        NetDeltaInput { flows: SortedMap::new() }
    }
}

/// Asset keys in strictly increasing identity order: none occurs twice.
pub open spec fn distinct_assets(assets: Seq<AssetKey>) -> bool {
    forall|a: int, c: int|
        0 <= a < c < assets.len() ==> lex_less(#[trigger] assets[a].key_id(), #[trigger] assets[c].key_id())
}

/// A flow is a buy when a swap touched the asset and its net delta is
/// strictly positive.
pub open spec fn is_buy(flow: AssetFlow) -> bool {
    flow.kinds_observed@.contains(ActionKind::Swap) && flow.net_delta@ > 0
}

/// The assets of the buy flows, in the order of the entries.
pub open spec fn qualifying_assets(pairs: Seq<(AssetKey, AssetFlow)>) -> Seq<AssetKey> {
    pairs.filter(|p: (AssetKey, AssetFlow)| is_buy(p.1)).map_values(
        |p: (AssetKey, AssetFlow)| p.0,
    )
}

/// Whether one flow is a buy.
pub(crate) fn flow_is_buy(flow: &AssetFlow) -> (b: bool)
    ensures
        b == is_buy(*flow),
{
    let mut swap = false;
    let mut i: usize = 0;
    while i < flow.kinds_observed.len()
        invariant
            i <= flow.kinds_observed@.len(),
            swap == flow.kinds_observed@.take(i as int).contains(ActionKind::Swap),
        decreases flow.kinds_observed@.len() - i,
    {
        proof {
            let s = flow.kinds_observed@;
            assert(s.take(i + 1) =~= s.take(i as int).push(s[i as int]));
        }
        if flow.kinds_observed[i] == ActionKind::Swap {
            swap = true;
        }
        i += 1;
        proof {
            let s = flow.kinds_observed@;
            let t = s.take(i as int);
            if swap && !s.take(i - 1).contains(ActionKind::Swap) {
                assert(t[i - 1] == ActionKind::Swap);
            }
            if !swap && t.contains(ActionKind::Swap) {
                let w = choose|k: int| 0 <= k < t.len() && t[k] == ActionKind::Swap;
                if w < i - 1 {
                    assert(s.take(i - 1)[w] == t[w]);
                }
            }
        }
    }
    assert(flow.kinds_observed@.take(i as int) =~= flow.kinds_observed@);
    swap && !flow.net_delta.is_negative() && !flow.net_delta.is_zero()
}

/// The assets that qualify as a buy for the owner within one transaction:
/// a swap touched the asset, and its net delta is strictly positive.
/// Transfers, airdrops, rewards, wraps and liquidity removals alone never
/// qualify, and an asset that nets to zero (an intermediate route token,
/// an atomic roundtrip) does not either. Each asset appears once.
pub fn classify_buy(input: &NetDeltaInput) -> (r: Vec<AssetKey>)
    ensures
        r@ == qualifying_assets(input.flows.pairs()),
        distinct_assets(r@),
{
    let entries = input.flows.entries();
    let ghost pairs = input.flows.pairs();
    let ghost pred = |p: (AssetKey, AssetFlow)| is_buy(p.1);
    let ghost key = |p: (AssetKey, AssetFlow)| p.0;
    let mut r: Vec<AssetKey> = Vec::new();
    let mut i: usize = 0;
    while i < entries.len()
        invariant
            i <= entries.len(),
            entries@ == pairs,
            pred == (|p: (AssetKey, AssetFlow)| is_buy(p.1)),
            key == (|p: (AssetKey, AssetFlow)| p.0),
            r@ == pairs.take(i as int).filter(pred).map_values(key),
            strictly_sorted(ids_of(pairs)),
            distinct_assets(r@),
            forall|j: int, t: int|
                0 <= j < r@.len() && i <= t < pairs.len() ==> lex_less(
                    #[trigger] r@[j].key_id(),
                    #[trigger] pairs[t].0.key_id(),
                ),
        decreases entries.len() - i,
    {
        let entry = &entries[i];
        proof {
            assert(pairs.take(i + 1) =~= pairs.take(i as int).push(*entry));
            pairs.take(i as int).lemma_filter_push(*entry, pred);
            let f = pairs.take(i as int).filter(pred);
            assert(f.push(*entry).map_values(key) =~= f.map_values(key).push(entry.0));
        }
        let flow = &entry.1;
        let ghost before = r@;
        if flow_is_buy(flow) {
            r.push(entry.0.clone());
        }
        proof {
            let ids = ids_of(pairs);
            assert forall|j: int, t: int|
                0 <= j < r@.len() && i + 1 <= t < pairs.len() implies lex_less(
                #[trigger] r@[j].key_id(),
                #[trigger] pairs[t].0.key_id(),
            ) by {
                assert(ids[t] == pairs[t].0.key_id());
                assert(ids[i as int] == pairs[i as int].0.key_id());
                if j < before.len() {
                    assert(r@[j] == before[j]);
                } else {
                    assert(lex_less(ids[i as int], ids[t]));
                }
            }
            assert forall|a: int, c: int| 0 <= a < c < r@.len() implies lex_less(
                #[trigger] r@[a].key_id(),
                #[trigger] r@[c].key_id(),
            ) by {
                assert(r@[a] == before[a]);
                if c < before.len() {
                    assert(r@[c] == before[c]);
                } else {
                    assert(pairs[i as int].0 == entry.0);
                }
            }
        }
        i += 1;
    }
    assert(pairs.take(i as int) =~= pairs);
    r
}

} // verus!
