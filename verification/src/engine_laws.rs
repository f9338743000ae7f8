//! Properties of the `buyer-intersect` ranking that hold for every input.

use vstd::prelude::*;
use vstd::seq_lib::*;

use crate::buyer_intersect::{buys_after, candidates, combined_buys, is_hit, names_token, ranked, ranks_before, wallet_hits};
use crate::classify::{distinct_assets, is_buy, AssetFlow};
use crate::classify::NetDeltaInput;
use crate::identity::{AssetKey, WalletKey};
use crate::order::{lemma_lex_asymmetric, lemma_lex_irreflexive, lex_less};
use crate::sorted_map::{
    ids_of, law_lookup_after_insert, lemma_inserted_sorted, lemma_lookup_at, lemma_lookup_none, lookup, strictly_sorted, KeyId,
    SortedMap,
};

verus! {

proof fn lemma_ranks_before_asymmetric(x: (WalletKey, Seq<AssetKey>), y: (WalletKey, Seq<AssetKey>))
    requires
        ranks_before(x, y),
    ensures
        !ranks_before(y, x),
{
    if x.1.len() == y.1.len() {
        lemma_lex_asymmetric(x.0.key_id(), y.0.key_id());
    }
}

/// The report order is determined by the matches alone: two ranked
/// sequences that hold the same matches are the same sequence, whatever
/// order the wallets were scanned in.
pub proof fn law_ranked_order_is_unique(
    a: Seq<(WalletKey, Seq<AssetKey>)>,
    b: Seq<(WalletKey, Seq<AssetKey>)>,
)
    requires
        ranked(a),
        ranked(b),
        a.to_multiset() == b.to_multiset(),
    ensures
        a == b,
    decreases a.len(),
{
    broadcast use group_to_multiset_ensures;

    to_multiset_len(a);
    to_multiset_len(b);
    if a.len() == 0 {
        assert(a =~= b);
    } else {
        let x = a[0];
        let y = b[0];
        to_multiset_contains(a, y);
        to_multiset_contains(b, x);
        assert(b.contains(y));
        assert(a.contains(x));
        if x != y {
            let k = choose|k: int| 0 <= k < a.len() && a[k] == y;
            let j = choose|j: int| 0 <= j < b.len() && b[j] == x;
            assert(k != 0);
            assert(j != 0);
            assert(ranks_before(a[0], a[k]));
            assert(ranks_before(b[0], b[j]));
            lemma_ranks_before_asymmetric(x, y);
        }
        let ra = a.drop_first();
        let rb = b.drop_first();
        assert(ra =~= a.remove(0));
        assert(rb =~= b.remove(0));
        to_multiset_remove(a, 0);
        to_multiset_remove(b, 0);
        assert(ranked(ra)) by {
            assert forall|i: int, j: int| 0 <= i < j < ra.len() implies ranks_before(
                #[trigger] ra[i],
                #[trigger] ra[j],
            ) by {
                assert(ra[i] == a[i + 1]);
                assert(ra[j] == a[j + 1]);
            }
        }
        assert(ranked(rb)) by {
            assert forall|i: int, j: int| 0 <= i < j < rb.len() implies ranks_before(
                #[trigger] rb[i],
                #[trigger] rb[j],
            ) by {
                assert(rb[i] == b[i + 1]);
                assert(rb[j] == b[j + 1]);
            }
        }
        law_ranked_order_is_unique(ra, rb);
        assert(a =~= seq![x] + ra);
        assert(b =~= seq![y] + rb);
    }
}

/// Every candidate has at least `min` hits, and each hit is one of the
/// input tokens: an incidental buy of another token never counts.
pub proof fn law_candidates_meet_threshold_with_input_tokens(
    wallets: Seq<(WalletKey, SortedMap<AssetKey, NetDeltaInput>)>,
    tokens: Seq<AssetKey>,
    min: int,
    i: int,
)
    requires
        0 <= i < candidates(wallets, tokens, min).len(),
    ensures
        candidates(wallets, tokens, min)[i].1.len() >= min,
        forall|j: int|
            0 <= j < candidates(wallets, tokens, min)[i].1.len() ==> names_token(
                tokens,
                #[trigger] candidates(wallets, tokens, min)[i].1[j],
            ),
{
    broadcast use group_filter_ensures;

    let pred = |p: (WalletKey, SortedMap<AssetKey, NetDeltaInput>)|
        wallet_hits(p.1.pairs(), tokens).len() >= min;
    let fl = wallets.filter(pred);
    let c = fl[i];
    assert(pred(c));
    let hits = wallet_hits(c.1.pairs(), tokens);
    assert(candidates(wallets, tokens, min)[i] == (c.0, hits));
    let cb = crate::buyer_intersect::combined_buys(c.1.pairs());
    let hp = is_hit(tokens);
    assert forall|j: int| 0 <= j < hits.len() implies names_token(tokens, #[trigger] hits[j]) by {
        assert(hp(cb.filter(hp)[j]));
    }
}

/// Raising the threshold never adds a match: the candidates at a higher
/// threshold are among those at a lower one.
pub proof fn law_higher_threshold_reports_fewer(
    wallets: Seq<(WalletKey, SortedMap<AssetKey, NetDeltaInput>)>,
    tokens: Seq<AssetKey>,
    low: int,
    high: int,
)
    requires
        low <= high,
    ensures
        candidates(wallets, tokens, high).to_multiset().subset_of(
            candidates(wallets, tokens, low).to_multiset(),
        ),
    decreases wallets.len(),
{
    broadcast use group_to_multiset_ensures;

    if wallets.len() == 0 {
        assert(candidates(wallets, tokens, high) =~= Seq::empty());
        assert(candidates(wallets, tokens, low) =~= Seq::empty());
    } else {
        let rest = wallets.drop_last();
        let e = wallets.last();
        law_higher_threshold_reports_fewer(rest, tokens, low, high);
        assert(wallets =~= rest.push(e));
        let f = |p: (WalletKey, SortedMap<AssetKey, NetDeltaInput>)|
            (p.0, wallet_hits(p.1.pairs(), tokens));
        let ph = |p: (WalletKey, SortedMap<AssetKey, NetDeltaInput>)|
            wallet_hits(p.1.pairs(), tokens).len() >= high;
        let pl = |p: (WalletKey, SortedMap<AssetKey, NetDeltaInput>)|
            wallet_hits(p.1.pairs(), tokens).len() >= low;
        rest.lemma_filter_push(e, ph);
        rest.lemma_filter_push(e, pl);
        let fh = rest.filter(ph);
        let fl = rest.filter(pl);
        assert(fh.push(e).map_values(f) =~= fh.map_values(f).push(f(e)));
        assert(fl.push(e).map_values(f) =~= fl.map_values(f).push(f(e)));
        to_multiset_build(fh.map_values(f), f(e));
        to_multiset_build(fl.map_values(f), f(e));
        let mh = fh.map_values(f).to_multiset();
        let ml = fl.map_values(f).to_multiset();
        assert(mh.subset_of(ml));
        if ph(e) {
            assert(mh.insert(f(e)).subset_of(ml.insert(f(e))));
        } else if pl(e) {
            assert(mh.subset_of(ml.insert(f(e))));
        }
    }
}

proof fn lemma_buys_after_sorted(acc: Seq<(AssetKey, bool)>, flows: Seq<(AssetKey, AssetFlow)>)
    requires
        strictly_sorted(ids_of(acc)),
    ensures
        strictly_sorted(ids_of(buys_after(acc, flows))),
    decreases flows.len(),
{
    if flows.len() > 0 {
        lemma_buys_after_sorted(acc, flows.drop_last());
        lemma_inserted_sorted(buys_after(acc, flows.drop_last()), flows.last().0, is_buy(flows.last().1));
    }
}

proof fn lemma_combined_sorted(token_flows: Seq<(AssetKey, NetDeltaInput)>)
    ensures
        strictly_sorted(ids_of(combined_buys(token_flows))),
    decreases token_flows.len(),
{
    if token_flows.len() > 0 {
        lemma_combined_sorted(token_flows.drop_last());
        lemma_buys_after_sorted(
            combined_buys(token_flows.drop_last()),
            token_flows.last().1.flows.pairs(),
        );
    } else {
        assert(ids_of(combined_buys(token_flows)) =~= Seq::<Seq<u64>>::empty());
    }
}

proof fn lemma_selected_keys_distinct(pairs: Seq<(AssetKey, bool)>, tokens: Seq<AssetKey>)
    requires
        strictly_sorted(ids_of(pairs)),
    ensures
        distinct_assets(pairs.filter(is_hit(tokens)).map_values(|p: (AssetKey, bool)| p.0)),
        forall|j: int|
            0 <= j < pairs.filter(is_hit(tokens)).len() ==> exists|i: int|
                0 <= i < pairs.len() && #[trigger] pairs.filter(is_hit(tokens))[j] == pairs[i],
    decreases pairs.len(),
{
    let pred = is_hit(tokens);
    let key = |p: (AssetKey, bool)| p.0;
    if pairs.len() == 0 {
        assert(pairs.filter(pred) =~= Seq::<(AssetKey, bool)>::empty()) by {
            reveal(Seq::filter);
        }
    } else {
        let rest = pairs.drop_last();
        let e = pairs.last();
        let ids = ids_of(pairs);
        assert(strictly_sorted(ids_of(rest))) by {
            assert forall|a: int, c: int| 0 <= a < c < ids_of(rest).len() implies lex_less(
                #[trigger] ids_of(rest)[a],
                #[trigger] ids_of(rest)[c],
            ) by {
                assert(ids_of(rest)[a] == ids[a]);
                assert(ids_of(rest)[c] == ids[c]);
            }
        }
        lemma_selected_keys_distinct(rest, tokens);
        assert(pairs =~= rest.push(e));
        rest.lemma_filter_push(e, pred);
        let fr = rest.filter(pred);
        if pred(e) {
            let f = fr.push(e);
            assert(f.map_values(key) =~= fr.map_values(key).push(e.0));
            assert forall|a: int, c: int| 0 <= a < c < f.len() implies lex_less(
                #[trigger] f.map_values(key)[a].key_id(),
                #[trigger] f.map_values(key)[c].key_id(),
            ) by {
                assert(f.map_values(key)[a] == fr.map_values(key)[a]);
                if c < fr.len() {
                    assert(f.map_values(key)[c] == fr.map_values(key)[c]);
                } else {
                    let i = choose|i: int| 0 <= i < rest.len() && fr[a] == rest[i];
                    assert(ids[i] == rest[i].0.key_id());
                    assert(ids[pairs.len() - 1] == e.0.key_id());
                    assert(lex_less(ids[i], ids[pairs.len() - 1]));
                }
            }
            assert forall|j: int| 0 <= j < f.len() implies exists|i: int|
                0 <= i < pairs.len() && #[trigger] f[j] == pairs[i] by {
                if j < fr.len() {
                    let i = choose|i: int| 0 <= i < rest.len() && fr[j] == rest[i];
                    assert(f[j] == pairs[i]);
                } else {
                    assert(f[j] == pairs[pairs.len() - 1]);
                }
            }
        } else {
            assert forall|j: int| 0 <= j < fr.len() implies exists|i: int|
                0 <= i < pairs.len() && #[trigger] fr[j] == pairs[i] by {
                let i = choose|i: int| 0 <= i < rest.len() && fr[j] == rest[i];
                assert(fr[j] == pairs[i]);
            }
        }
    }
}

/// A wallet's hit count is per distinct input token: it never exceeds the
/// number of distinct input tokens, however many buys of each it made.
pub proof fn law_hit_count_at_most_distinct_tokens(
    token_flows: Seq<(AssetKey, NetDeltaInput)>,
    tokens: Seq<AssetKey>,
)
    ensures
        wallet_hits(token_flows, tokens).len() <= tokens.map_values(|a: AssetKey| a.key_id()).to_set().len(),
        wallet_hits(token_flows, tokens).len() <= tokens.len(),
{
    broadcast use vstd::seq_lib::seq_to_set_is_finite;

    let cb = combined_buys(token_flows);
    let pred = is_hit(tokens);
    let hits = wallet_hits(token_flows, tokens);
    let id = |a: AssetKey| a.key_id();
    let hid = hits.map_values(id);
    let tid = tokens.map_values(id);
    lemma_combined_sorted(token_flows);
    lemma_selected_keys_distinct(cb, tokens);
    assert(hid.no_duplicates()) by {
        assert forall|a: int, c: int| 0 <= a < hid.len() && 0 <= c < hid.len() && a != c implies hid[a]
            != hid[c] by {
            if a < c {
                lemma_lex_irreflexive(hid[a]);
                assert(lex_less(hits[a].key_id(), hits[c].key_id()));
            } else {
                lemma_lex_irreflexive(hid[c]);
                assert(lex_less(hits[c].key_id(), hits[a].key_id()));
            }
        }
    }
    hid.unique_seq_to_set();
    assert(hid.to_set().subset_of(tid.to_set())) by {
        assert forall|x: Seq<u64>| hid.to_set().contains(x) implies tid.to_set().contains(x) by {
            let j = choose|j: int| 0 <= j < hid.len() && hid[j] == x;
            assert(pred(cb.filter(pred)[j])) by {
                cb.lemma_filter_pred(pred, j);
            }
            assert(hits[j] == cb.filter(pred)[j].0);
            let k = choose|k: int| 0 <= k < tokens.len() && #[trigger] tokens[k].key_id() == hits[j].key_id();
            assert(tid[k] == x);
        }
    }
    vstd::set_lib::lemma_len_subset(hid.to_set(), tid.to_set());
    tid.lemma_cardinality_of_set();
}

/// Every flow of a wallet, each token input's flows in turn, in token
/// order.
pub open spec fn all_flows(token_flows: Seq<(AssetKey, NetDeltaInput)>) -> Seq<(AssetKey, AssetFlow)>
    decreases token_flows.len(),
{
    if token_flows.len() == 0 {
        Seq::empty()
    } else {
        all_flows(token_flows.drop_last()) + token_flows.last().1.flows.pairs()
    }
}

/// Whether the last flow of the asset with identity `id` among `flows` is
/// a buy; none when no flow is of that asset.
pub open spec fn last_flow_is_buy(flows: Seq<(AssetKey, AssetFlow)>, id: Seq<u64>) -> Option<bool>
    decreases flows.len(),
{
    if flows.len() == 0 {
        None
    } else if flows.last().0.key_id() == id {
        Some(is_buy(flows.last().1))
    } else {
        last_flow_is_buy(flows.drop_last(), id)
    }
}

proof fn lemma_last_flow_concat(xs: Seq<(AssetKey, AssetFlow)>, ys: Seq<(AssetKey, AssetFlow)>, id: Seq<u64>)
    ensures
        last_flow_is_buy(xs + ys, id) == match last_flow_is_buy(ys, id) {
            Some(b) => Some(b),
            None => last_flow_is_buy(xs, id),
        },
    decreases ys.len(),
{
    if ys.len() == 0 {
        assert(xs + ys =~= xs);
    } else {
        assert((xs + ys).drop_last() =~= xs + ys.drop_last());
        assert((xs + ys).last() == ys.last());
        lemma_last_flow_concat(xs, ys.drop_last(), id);
    }
}

proof fn lemma_lookup_buys_after(acc: Seq<(AssetKey, bool)>, flows: Seq<(AssetKey, AssetFlow)>, id: Seq<u64>)
    requires
        strictly_sorted(ids_of(acc)),
    ensures
        lookup(buys_after(acc, flows), id) == match last_flow_is_buy(flows, id) {
            Some(b) => Some(b),
            None => lookup(acc, id),
        },
    decreases flows.len(),
{
    if flows.len() > 0 {
        lemma_lookup_buys_after(acc, flows.drop_last(), id);
        lemma_buys_after_sorted(acc, flows.drop_last());
        law_lookup_after_insert(
            buys_after(acc, flows.drop_last()),
            flows.last().0,
            is_buy(flows.last().1),
            id,
        );
    }
}

/// A wallet's combined buy flag of an asset is decided by the last flow of
/// that asset, across all its token inputs in token order, alone: a later
/// token input's flow replaces an earlier one, whatever the earlier one
/// was. An asset with no flow has no flag.
pub proof fn law_combined_flag_is_last_flow(token_flows: Seq<(AssetKey, NetDeltaInput)>, id: Seq<u64>)
    ensures
        lookup(combined_buys(token_flows), id) == last_flow_is_buy(all_flows(token_flows), id),
    decreases token_flows.len(),
{
    if token_flows.len() == 0 {
    } else {
        let prev = token_flows.drop_last();
        let fs = token_flows.last().1.flows.pairs();
        law_combined_flag_is_last_flow(prev, id);
        lemma_combined_sorted(prev);
        lemma_lookup_buys_after(combined_buys(prev), fs, id);
        lemma_last_flow_concat(all_flows(prev), fs, id);
    }
}

/// Adding a token input whose flows buy asset `a` marks `a` bought,
/// whatever the earlier token inputs did with it.
pub proof fn law_later_buy_marks_asset_bought(
    token_flows: Seq<(AssetKey, NetDeltaInput)>,
    next: (AssetKey, NetDeltaInput),
    a: AssetKey,
    f: AssetFlow,
)
    requires
        lookup(next.1.flows.pairs(), a.key_id()) == Some(f),
        is_buy(f),
        strictly_sorted(ids_of(next.1.flows.pairs())),
    ensures
        lookup(combined_buys(token_flows.push(next)), a.key_id()) == Some(true),
{
    let all = token_flows.push(next);
    assert(all.drop_last() =~= token_flows);
    law_combined_flag_is_last_flow(all, a.key_id());
    lemma_last_flow_concat(all_flows(token_flows), next.1.flows.pairs(), a.key_id());
    lemma_last_flow_of_sorted(next.1.flows.pairs(), a.key_id());
}

/// In flows with distinct assets, the last flow of an asset is its only
/// one, the one a lookup finds.
proof fn lemma_last_flow_of_sorted(flows: Seq<(AssetKey, AssetFlow)>, id: Seq<u64>)
    requires
        strictly_sorted(ids_of(flows)),
    ensures
        last_flow_is_buy(flows, id) == match lookup(flows, id) {
            Some(f) => Some(is_buy(f)),
            None => None,
        },
    decreases flows.len(),
{
    if flows.len() > 0 {
        let rest = flows.drop_last();
        assert(ids_of(rest) =~= ids_of(flows).drop_last());
        assert forall|i: int, j: int| 0 <= i < j < ids_of(rest).len() implies lex_less(
            #[trigger] ids_of(rest)[i],
            #[trigger] ids_of(rest)[j],
        ) by {
            assert(ids_of(rest)[i] == ids_of(flows)[i]);
            assert(ids_of(rest)[j] == ids_of(flows)[j]);
        }
        lemma_last_flow_of_sorted(rest, id);
        if flows.last().0.key_id() == id {
            lemma_lookup_at(flows, flows.len() - 1, id);
        } else if exists|i: int| 0 <= i < rest.len() && #[trigger] rest[i].0.key_id() == id {
            let i = choose|i: int| 0 <= i < rest.len() && #[trigger] rest[i].0.key_id() == id;
            assert(flows[i] == rest[i]);
            lemma_lookup_at(flows, i, id);
            lemma_lookup_at(rest, i, id);
        } else {
            assert forall|j: int| 0 <= j < flows.len() implies #[trigger] flows[j].0.key_id()
                != id by {
                if j < rest.len() {
                    assert(flows[j] == rest[j]);
                }
            }
            lemma_lookup_none(flows, id);
            lemma_lookup_none(rest, id);
        }
    }
}

} // verus!
