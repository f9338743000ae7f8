//! `buyer-intersect`: which wallets bought at least K of N input tokens,
//! ranked by hit count. Keys are compared by identity throughout.

use vstd::prelude::*;
use vstd::seq_lib::*;

use crate::classify::{distinct_assets, flow_is_buy, is_buy, AssetFlow, NetDeltaInput};
use crate::identity::{address_text, AssetKey, WalletKey};
use crate::text::{decimal, text_with_number};
use crate::order::{compare_ids, lex_less, KeyOrder};
use crate::sorted_map::{ids_of, inserted, strictly_sorted, KeyId, SortedMap};

verus! {

/// One wallet's qualifying hits against the input token set.
#[derive(Debug)]
pub struct BuyerMatch {
    pub wallet: WalletKey,
    pub hit_count: usize,
    pub matched_assets: Vec<AssetKey>,
}

impl BuyerMatch {
    /// The table form of a match: the wallet's address, then its hit count.
    pub fn to_table_line(&self) -> (s: String)
        ensures
            s@ == address_text(self.wallet.address) + " hit_count="@ + decimal(self.hit_count as nat),
    {
        let s = self.wallet.address.to_display_string();
        let t = text_with_number(" hit_count=", self.hit_count as u128, "");
        proof {
            reveal_strlit("");
        }
        s.concat(t.as_str())
    }
}

impl View for BuyerMatch {
    type V = (WalletKey, Seq<AssetKey>);

    open spec fn view(&self) -> (WalletKey, Seq<AssetKey>) {
        (self.wallet, self.matched_assets@)
    }
}

/// Result of a run: the matches meeting the threshold, and the declared
/// input scope, so that N is reported in full even when some tokens
/// produced no data.
#[derive(Debug)]
pub struct BuyerIntersectReport {
    pub matches: Vec<BuyerMatch>,
    pub input_token_count: usize,
    pub min_token_hits: usize,
}

/// Whether `a` is one of the input tokens.
pub open spec fn names_token(tokens: Seq<AssetKey>, a: AssetKey) -> bool {
    exists|j: int| 0 <= j < tokens.len() && #[trigger] tokens[j].key_id() == a.key_id()
}

/// Folds one transaction's flows into a per-asset buy flag; a later flow
/// of the same asset replaces an earlier one.
pub open spec fn buys_after(acc: Seq<(AssetKey, bool)>, flows: Seq<(AssetKey, AssetFlow)>) -> Seq<
    (AssetKey, bool),
>
    decreases flows.len(),
{
    if flows.len() == 0 {
        acc
    } else {
        inserted(buys_after(acc, flows.drop_last()), flows.last().0, is_buy(flows.last().1))
    }
}

/// The per-asset buy flags of one wallet, all its token inputs combined in
/// token order.
pub open spec fn combined_buys(token_flows: Seq<(AssetKey, NetDeltaInput)>) -> Seq<(AssetKey, bool)>
    decreases token_flows.len(),
{
    if token_flows.len() == 0 {
        Seq::empty()
    } else {
        buys_after(combined_buys(token_flows.drop_last()), token_flows.last().1.flows.pairs())
    }
}

/// A combined entry is a hit when it is a buy of an input token.
pub open spec fn is_hit(tokens: Seq<AssetKey>) -> spec_fn((AssetKey, bool)) -> bool {
    |p: (AssetKey, bool)| p.1 && names_token(tokens, p.0)
}

/// The input tokens a wallet bought, in asset order.
pub open spec fn wallet_hits(token_flows: Seq<(AssetKey, NetDeltaInput)>, tokens: Seq<AssetKey>) -> Seq<
    AssetKey,
> {
    combined_buys(token_flows).filter(is_hit(tokens)).map_values(|p: (AssetKey, bool)| p.0)
}

/// The wallets with at least `min` hits, each with its hits, in wallet
/// order.
pub open spec fn candidates(
    wallets: Seq<(WalletKey, SortedMap<AssetKey, NetDeltaInput>)>,
    tokens: Seq<AssetKey>,
    min: int,
) -> Seq<(WalletKey, Seq<AssetKey>)> {
    wallets.filter(
        |p: (WalletKey, SortedMap<AssetKey, NetDeltaInput>)|
            wallet_hits(p.1.pairs(), tokens).len() >= min,
    ).map_values(
        |p: (WalletKey, SortedMap<AssetKey, NetDeltaInput>)| (p.0, wallet_hits(p.1.pairs(), tokens)),
    )
}

/// Report order: more hits first; on equal hits, the smaller wallet key.
pub open spec fn ranks_before(a: (WalletKey, Seq<AssetKey>), b: (WalletKey, Seq<AssetKey>)) -> bool {
    a.1.len() > b.1.len() || (a.1.len() == b.1.len() && lex_less(a.0.key_id(), b.0.key_id()))
}

/// Strictly ranked: each match ranks before every later one.
pub open spec fn ranked(ms: Seq<(WalletKey, Seq<AssetKey>)>) -> bool {
    forall|i: int, j: int| 0 <= i < j < ms.len() ==> ranks_before(#[trigger] ms[i], #[trigger] ms[j])
}

fn token_named(tokens: &[AssetKey], a: &AssetKey) -> (b: bool)
    ensures
        b == names_token(tokens@, *a),
{
    let id = a.key_id_vec();
    let mut j: usize = 0;
    while j < tokens.len()
        invariant
            j <= tokens@.len(),
            id@ == a.key_id(),
            forall|k: int| 0 <= k < j ==> #[trigger] tokens@[k].key_id() != a.key_id(),
        decreases tokens@.len() - j,
    {
        let tid = tokens[j].key_id_vec();
        if compare_ids(tid.as_slice(), id.as_slice()) == KeyOrder::Equal {
            return true;
        }
        j += 1;
    }
    false
}

/// The input tokens one wallet bought, all its token inputs combined.
fn hits_of(token_flows: &SortedMap<AssetKey, NetDeltaInput>, tokens: &[AssetKey]) -> (r: Vec<AssetKey>)
    ensures
        r@ == wallet_hits(token_flows.pairs(), tokens@),
        distinct_assets(r@),
{
    let outer = token_flows.entries();
    let ghost tf = token_flows.pairs();
    let mut combined: SortedMap<AssetKey, bool> = SortedMap::new();
    let mut i: usize = 0;
    while i < outer.len()
        invariant
            i <= outer.len(),
            outer@ == tf,
            combined.pairs() == combined_buys(tf.take(i as int)),
        decreases outer.len() - i,
    {
        let flows = outer[i].1.flows.entries();
        let ghost fs = outer@[i as int].1.flows.pairs();
        let ghost start = combined.pairs();
        let mut j: usize = 0;
        while j < flows.len()
            invariant
                j <= flows.len(),
                flows@ == fs,
                combined.pairs() == buys_after(start, fs.take(j as int)),
            decreases flows.len() - j,
        {
            let entry = &flows[j];
            let b = flow_is_buy(&entry.1);
            combined.insert(entry.0.clone(), b);
            proof {
                assert(fs.take(j + 1).drop_last() =~= fs.take(j as int));
            }
            j += 1;
        }
        proof {
            assert(fs.take(j as int) =~= fs);
            assert(tf.take(i + 1).drop_last() =~= tf.take(i as int));
        }
        i += 1;
    }
    assert(tf.take(i as int) =~= tf);
    let cs = combined.entries();
    let ghost ids = ids_of(combined.pairs());
    let ghost pred = is_hit(tokens@);
    let ghost key = |p: (AssetKey, bool)| p.0;
    let ghost all = combined.pairs();
    let mut r: Vec<AssetKey> = Vec::new();
    let mut k: usize = 0;
    while k < cs.len()
        invariant
            k <= cs.len(),
            cs@ == all,
            pred == is_hit(tokens@),
            key == (|p: (AssetKey, bool)| p.0),
            r@ == all.take(k as int).filter(pred).map_values(key),
            ids == ids_of(all),
            strictly_sorted(ids),
            distinct_assets(r@),
            forall|j: int, t: int|
                0 <= j < r@.len() && k <= t < all.len() ==> lex_less(
                    #[trigger] r@[j].key_id(),
                    #[trigger] ids[t],
                ),
        decreases cs.len() - k,
    {
        let entry = &cs[k];
        proof {
            assert(all.take(k + 1) =~= all.take(k as int).push(*entry));
            all.take(k as int).lemma_filter_push(*entry, pred);
            let f = all.take(k as int).filter(pred);
            assert(f.push(*entry).map_values(key) =~= f.map_values(key).push(entry.0));
        }
        let ghost before = r@;
        if entry.1 && token_named(tokens, &entry.0) {
            r.push(entry.0.clone());
        }
        proof {
            assert(ids[k as int] == entry.0.key_id());
            assert forall|j: int, t: int|
                0 <= j < r@.len() && k + 1 <= t < all.len() implies lex_less(
                #[trigger] r@[j].key_id(),
                #[trigger] ids[t],
            ) by {
                if j < before.len() {
                    assert(r@[j] == before[j]);
                } else {
                    assert(lex_less(ids[k as int], ids[t]));
                }
            }
            assert forall|a: int, c: int| 0 <= a < c < r@.len() implies lex_less(
                #[trigger] r@[a].key_id(),
                #[trigger] r@[c].key_id(),
            ) by {
                assert(r@[a] == before[a]);
                if c < before.len() {
                    assert(r@[c] == before[c]);
                }
            }
        }
        k += 1;
    }
    assert(all.take(k as int) =~= all);
    r
}

/// The matches of a report, as `(wallet, matched assets)` pairs.
pub open spec fn match_views(ms: Seq<BuyerMatch>) -> Seq<(WalletKey, Seq<AssetKey>)> {
    ms.map_values(|m: BuyerMatch| m@)
}

/// The `buyer-intersect` computation: for each wallet, its token inputs
/// are combined, classified, and kept to the input tokens; a wallet with
/// at least `min_token_hits` hits is a match. The matches are exactly the
/// candidates, ranked by hit count (descending), then wallet key
/// (ascending): a deterministic order. `input_token_count` is the full
/// declared N, whatever the hits.
pub fn intersect_buyers(
    wallet_token_flows: &SortedMap<WalletKey, SortedMap<AssetKey, NetDeltaInput>>,
    input_tokens: &[AssetKey],
    min_token_hits: usize,
) -> (r: BuyerIntersectReport)
    ensures
        r.input_token_count == input_tokens@.len(),
        r.min_token_hits == min_token_hits,
        forall|i: int|
            0 <= i < r.matches@.len() ==> #[trigger] r.matches@[i].hit_count
                == r.matches@[i].matched_assets@.len(),
        match_views(r.matches@).to_multiset() == candidates(
            wallet_token_flows.pairs(),
            input_tokens@,
            min_token_hits as int,
        ).to_multiset(),
        ranked(match_views(r.matches@)),
        forall|i: int| 0 <= i < r.matches@.len() ==> distinct_assets(#[trigger] r.matches@[i].matched_assets@),
{
    broadcast use group_to_multiset_ensures;

    let wallets = wallet_token_flows.entries();
    let ghost ws = wallet_token_flows.pairs();
    let ghost tokens = input_tokens@;
    let ghost min = min_token_hits as int;
    let ghost pred = |p: (WalletKey, SortedMap<AssetKey, NetDeltaInput>)|
        wallet_hits(p.1.pairs(), tokens).len() >= min;
    let ghost f = |p: (WalletKey, SortedMap<AssetKey, NetDeltaInput>)|
        (p.0, wallet_hits(p.1.pairs(), tokens));
    let mut matches: Vec<BuyerMatch> = Vec::new();
    let mut i: usize = 0;
    while i < wallets.len()
        invariant
            i <= wallets.len(),
            wallets@ == ws,
            strictly_sorted(ids_of(ws)),
            tokens == input_tokens@,
            min == min_token_hits as int,
            pred == (|p: (WalletKey, SortedMap<AssetKey, NetDeltaInput>)|
                wallet_hits(p.1.pairs(), tokens).len() >= min),
            f == (|p: (WalletKey, SortedMap<AssetKey, NetDeltaInput>)|
                (p.0, wallet_hits(p.1.pairs(), tokens))),
            forall|k: int|
                0 <= k < matches@.len() ==> #[trigger] matches@[k].hit_count
                    == matches@[k].matched_assets@.len(),
            match_views(matches@).to_multiset() == ws.take(i as int).filter(pred).map_values(
                f,
            ).to_multiset(),
            ranked(match_views(matches@)),
            forall|k: int| 0 <= k < matches@.len() ==> distinct_assets(#[trigger] matches@[k].matched_assets@),
            forall|k: int, t: int|
                0 <= k < matches@.len() && i <= t < ws.len() ==> lex_less(
                    #[trigger] matches@[k].wallet.key_id(),
                    #[trigger] ws[t].0.key_id(),
                ),
        decreases wallets.len() - i,
    {
        let entry = &wallets[i];
        let ghost e = ws[i as int];
        proof {
            assert(ws.take(i + 1) =~= ws.take(i as int).push(e));
            ws.take(i as int).lemma_filter_push(e, pred);
        }
        let hits = hits_of(&entry.1, input_tokens);
        if hits.len() >= min_token_hits {
            let hc = hits.len();
            assert(distinct_assets(hits@));
            let m = BuyerMatch { wallet: entry.0.clone(), hit_count: hc, matched_assets: hits };
            let ghost old_views = match_views(matches@);
            let mut p: usize = 0;
            while p < matches.len() && matches[p].hit_count >= hc
                invariant
                    p <= matches@.len(),
                    forall|k: int| 0 <= k < p ==> #[trigger] matches@[k].hit_count >= hc,
                decreases matches@.len() - p,
            {
                p += 1;
            }
            proof {
                assert forall|k: int| p <= k < matches@.len() implies #[trigger] matches@[k].hit_count
                    < hc by {
                    if k > p {
                        assert(ranks_before(old_views[p as int], old_views[k]));
                    }
                }
            }
            let ghost old_ms = matches@;
            matches.insert(p, m);
            proof {
                let nv = match_views(matches@);
                assert(nv =~= old_views.insert(p as int, m@));
                to_multiset_insert(old_views, p as int, m@);
                let fl = ws.take(i as int).filter(pred);
                assert(fl.push(e).map_values(f) =~= fl.map_values(f).push(f(e)));
                to_multiset_build(fl.map_values(f), f(e));
                assert forall|a: int, b: int| 0 <= a < b < nv.len() implies ranks_before(
                    #[trigger] nv[a],
                    #[trigger] nv[b],
                ) by {
                    let pi = p as int;
                    if b < pi {
                        assert(nv[a] == old_views[a]);
                        assert(nv[b] == old_views[b]);
                    } else if a < pi && b == pi {
                        assert(nv[a] == old_views[a]);
                        assert(nv[b] == m@);
                        assert(old_ms[a].hit_count >= hc);
                        assert(old_views[a].1.len() == old_ms[a].hit_count);
                        assert(lex_less(old_ms[a].wallet.key_id(), ws[i as int].0.key_id()));
                        assert(m@.0 == ws[i as int].0);
                    } else if a < pi && b > pi {
                        assert(nv[a] == old_views[a]);
                        assert(nv[b] == old_views[b - 1]);
                    } else if a == pi {
                        assert(nv[a] == m@);
                        assert(nv[b] == old_views[b - 1]);
                        assert(old_ms[b - 1].hit_count < hc);
                        assert(old_views[b - 1].1.len() == old_ms[b - 1].hit_count);
                    } else {
                        assert(nv[a] == old_views[a - 1]);
                        assert(nv[b] == old_views[b - 1]);
                    }
                }
                assert forall|k: int, t: int|
                    0 <= k < matches@.len() && i + 1 <= t < ws.len() implies lex_less(
                    #[trigger] matches@[k].wallet.key_id(),
                    #[trigger] ws[t].0.key_id(),
                ) by {
                    let ids = ids_of(ws);
                    assert(ids[i as int] == ws[i as int].0.key_id());
                    assert(ids[t] == ws[t].0.key_id());
                    if k < p {
                        assert(matches@[k] == old_ms[k]);
                    } else if k > p {
                        assert(matches@[k] == old_ms[k - 1]);
                    }
                }
                assert forall|k: int| 0 <= k < matches@.len() implies distinct_assets(
                    #[trigger] matches@[k].matched_assets@,
                ) by {
                    if k < p {
                        assert(matches@[k] == old_ms[k]);
                        assert(distinct_assets(old_ms[k].matched_assets@));
                    } else if k > p {
                        assert(matches@[k] == old_ms[k - 1]);
                        assert(distinct_assets(old_ms[k - 1].matched_assets@));
                    } else {
                        assert(matches@[k] == m);
                        assert(distinct_assets(m.matched_assets@));
                    }
                }
            }
        } else {
            proof {
                assert forall|k: int, t: int|
                    0 <= k < matches@.len() && i + 1 <= t < ws.len() implies lex_less(
                    #[trigger] matches@[k].wallet.key_id(),
                    #[trigger] ws[t].0.key_id(),
                ) by {
                }
            }
        }
        i += 1;
    }
    assert(ws.take(i as int) =~= ws);
    BuyerIntersectReport {
        matches,
        input_token_count: input_tokens.len(),
        min_token_hits,
    }
}

} // verus!
