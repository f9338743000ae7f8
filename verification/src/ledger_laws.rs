//! Laws of the FIFO ledger, stated over the lot models that `Ledger`'s
//! contracts use.

use vstd::prelude::*;

use crate::amount::two_pow_256;
use crate::fifo::{dispose_spec, fifo_consume, open_amount_spec, proportional, FifoState, LotModel};

verus! {

/// Sum of the remaining amounts of `lots`.
pub open spec fn total_remaining(lots: Seq<LotModel>) -> nat
    decreases lots.len(),
{
    if lots.len() == 0 {
        0
    } else {
        total_remaining(lots.drop_last()) + lots.last().remaining
    }
}

/// Sum of the remaining bases of `lots`.
pub open spec fn total_basis(lots: Seq<LotModel>) -> int
    decreases lots.len(),
{
    if lots.len() == 0 {
        0
    } else {
        total_basis(lots.drop_last()) + lots.last().basis
    }
}

proof fn lemma_totals_update(lots: Seq<LotModel>, i: int, m: LotModel)
    requires
        0 <= i < lots.len(),
    ensures
        total_remaining(lots.update(i, m)) + lots[i].remaining == total_remaining(lots)
            + m.remaining,
        total_basis(lots.update(i, m)) + lots[i].basis == total_basis(lots) + m.basis,
    decreases lots.len(),
{
    let u = lots.update(i, m);
    if i == lots.len() - 1 {
        assert(u.drop_last() =~= lots.drop_last());
    } else {
        assert(u.drop_last() =~= lots.drop_last().update(i, m));
        lemma_totals_update(lots.drop_last(), i, m);
    }
}

/// What a consumption that ran to its end did: amounts and bases are
/// conserved, earlier lots are untouched, no lot grew, and the known-basis
/// flag records whether every lot that shrank had known basis.
proof fn lemma_fifo_running(lots: Seq<LotModel>, i: nat, rem: nat, c: int, k: bool)
    ensures
        fifo_consume(lots, i, rem, c, k) matches FifoState::Running(after, rest, c2, k2) ==> {
            &&& after.len() == lots.len()
            &&& rest <= rem
            &&& total_remaining(after) + (rem - rest) == total_remaining(lots)
            &&& total_basis(after) + (c2 - c) == total_basis(lots)
            &&& forall|j: int| 0 <= j < i && j < lots.len() ==> #[trigger] after[j] == lots[j]
            &&& forall|j: int|
                0 <= j < lots.len() ==> #[trigger] after[j].remaining <= lots[j].remaining
                    && after[j].known == lots[j].known
            &&& k2 == (k && forall|j: int|
                i <= j < lots.len() && #[trigger] after[j].remaining < lots[j].remaining
                    ==> lots[j].known)
            &&& rest > 0 ==> forall|j: int| i <= j < lots.len() ==> #[trigger] after[j].remaining
                == 0
            &&& rem == 0 ==> after == lots
            &&& forall|j: int|
                0 <= j < lots.len() && #[trigger] after[j].remaining == lots[j].remaining
                    ==> after[j] == lots[j]
            &&& forall|j: int, jj: int|
                i <= j < jj < lots.len() && #[trigger] after[jj].remaining < lots[jj].remaining
                    ==> #[trigger] after[j].remaining == 0
        },
    decreases lots.len() - i,
{
    if i >= lots.len() || rem == 0 {
    } else if lots[i as int].remaining == 0 {
        lemma_fifo_running(lots, i + 1, rem, c, k);
    } else {
        let lot = lots[i as int];
        let take = if lot.remaining <= rem {
            lot.remaining
        } else {
            rem
        };
        match proportional(lot.basis, take, lot.remaining) {
            Err(_) => {},
            Ok(b) => {
                if crate::fifo::fits_i128(c + b) && crate::fifo::fits_i128(lot.basis - b) {
                    let m = LotModel {
                        remaining: (lot.remaining - take) as nat,
                        basis: lot.basis - b,
                        known: lot.known,
                    };
                    let next = lots.update(i as int, m);
                    lemma_totals_update(lots, i as int, m);
                    lemma_fifo_running(next, i + 1, (rem - take) as nat, c + b, k && lot.known);
                    if let FifoState::Running(after, rest, c2, k2) = fifo_consume(
                        next,
                        i + 1,
                        (rem - take) as nat,
                        c + b,
                        k && lot.known,
                    ) {
                        assert(after[i as int] == m);
                        assert(forall|j: int| 0 <= j < lots.len() && j != i ==> next[j] == lots[j]);
                        if rem - take == 0 {
                            assert(after == next);
                        }
                    }
                }
            },
        }
    }
}

/// Disposal conserves inventory: a successful disposal of `amount` leaves
/// exactly `amount` less open inventory; one of more than the open
/// inventory always fails.
pub proof fn law_disposal_conserves_inventory(lots: Seq<LotModel>, amount: nat, gross: int, fee: int)
    ensures
        dispose_spec(lots, amount, gross, fee).1 is Ok ==> total_remaining(
            dispose_spec(lots, amount, gross, fee).0,
        ) + amount == total_remaining(lots),
        amount > total_remaining(lots) ==> dispose_spec(lots, amount, gross, fee).1 is Err,
{
    lemma_fifo_running(lots, 0, amount, 0, true);
}

/// Disposal conserves basis: the basis a successful disposal consumes is
/// exactly what the lots lose, with no loss and no duplication.
pub proof fn law_disposal_conserves_basis(lots: Seq<LotModel>, amount: nat, gross: int, fee: int)
    ensures
        dispose_spec(lots, amount, gross, fee).1 matches Ok(m) ==> total_basis(
            dispose_spec(lots, amount, gross, fee).0,
        ) + m.consumed == total_basis(lots),
{
    lemma_fifo_running(lots, 0, amount, 0, true);
}

/// Every lot before `k` is exhausted and every lot after `k` is as it was.
pub open spec fn split_at_lot(lots: Seq<LotModel>, after: Seq<LotModel>, k: int) -> bool {
    &&& 0 <= k <= lots.len()
    &&& forall|j: int| 0 <= j < k ==> #[trigger] after[j].remaining == 0
    &&& forall|j: int| k < j < lots.len() ==> #[trigger] after[j] == lots[j]
}

/// The last index below `n` whose lot a disposal reduced, or zero when it
/// reduced none of them.
pub open spec fn last_reduced(lots: Seq<LotModel>, after: Seq<LotModel>, n: int) -> int
    decreases n,
{
    if n <= 0 {
        0
    } else if after[n - 1].remaining < lots[n - 1].remaining {
        n - 1
    } else {
        last_reduced(lots, after, n - 1)
    }
}

proof fn lemma_last_reduced(lots: Seq<LotModel>, after: Seq<LotModel>, n: int)
    requires
        0 <= n,
    ensures
        0 <= last_reduced(lots, after, n) <= n,
        forall|j: int|
            last_reduced(lots, after, n) < j < n ==> !(#[trigger] after[j].remaining
                < lots[j].remaining),
        last_reduced(lots, after, n) == 0 || (last_reduced(lots, after, n) < n
            && after[last_reduced(lots, after, n)].remaining < lots[last_reduced(
            lots,
            after,
            n,
        )].remaining),
    decreases n,
{
    if n > 0 {
        lemma_last_reduced(lots, after, n - 1);
    }
}

/// Disposal consumes the oldest lots first: after a successful disposal
/// no lot grew and none changed its basis status; every lot older than a
/// lot it consumed from is exhausted; every lot whose remaining amount it
/// did not reduce is untouched. So there is one index `k` with every
/// older lot exhausted and every newer lot untouched: only lot `k` may be
/// partly consumed.
pub proof fn law_disposal_is_fifo(lots: Seq<LotModel>, amount: nat, gross: int, fee: int)
    ensures
        ({
            let (after, outcome) = dispose_spec(lots, amount, gross, fee);
            outcome is Ok ==> {
                &&& after.len() == lots.len()
                &&& forall|j: int|
                    0 <= j < lots.len() ==> #[trigger] after[j].remaining <= lots[j].remaining
                        && after[j].known == lots[j].known
                &&& forall|j: int, jj: int|
                    0 <= j < jj < lots.len() && #[trigger] after[jj].remaining < lots[jj].remaining
                        ==> #[trigger] after[j].remaining == 0
                &&& forall|j: int|
                    0 <= j < lots.len() && #[trigger] after[j].remaining == lots[j].remaining
                        ==> after[j] == lots[j]
                &&& exists|k: int| #[trigger] split_at_lot(lots, after, k)
            }
        }),
{
    lemma_fifo_running(lots, 0, amount, 0, true);
    let (after, outcome) = dispose_spec(lots, amount, gross, fee);
    if outcome is Ok {
        let n = lots.len() as int;
        let k = last_reduced(lots, after, n);
        lemma_last_reduced(lots, after, n);
        assert forall|j: int| 0 <= j < k implies #[trigger] after[j].remaining == 0 by {
            assert(after[k].remaining < lots[k].remaining);
        }
        assert forall|j: int| k < j < n implies #[trigger] after[j] == lots[j] by {
            assert(!(after[j].remaining < lots[j].remaining));
            assert(after[j].remaining <= lots[j].remaining);
        }
        assert(split_at_lot(lots, after, k));
    }
}

/// Unknown basis is never treated as zero cost: a successful disposal
/// reports a realized PnL, and reports all consumed basis known, exactly
/// when every lot it consumed from had known basis.
pub proof fn law_pnl_known_iff_consumed_basis_known(
    lots: Seq<LotModel>,
    amount: nat,
    gross: int,
    fee: int,
)
    ensures
        ({
            let (after, outcome) = dispose_spec(lots, amount, gross, fee);
            outcome matches Ok(m) ==> ((m.pnl is Some) <==> (forall|j: int|
                0 <= j < lots.len() && #[trigger] after[j].remaining < lots[j].remaining
                    ==> lots[j].known)) && m.all_known == (m.pnl is Some)
        }),
{
    lemma_fifo_running(lots, 0, amount, 0, true);
    if let FifoState::Running(after, rest, c2, k2) = fifo_consume(lots, 0, amount, 0, true) {
        let (a2, outcome) = dispose_spec(lots, amount, gross, fee);
        if crate::fifo::fits_i128(gross - fee) {
            assert(a2 == after);
        }
        if k2 {
            assert forall|j: int|
                0 <= j < lots.len() && #[trigger] after[j].remaining < lots[j].remaining implies lots[j].known by {
                assert(0 <= j);
            }
        } else {
            let w = choose|j: int|
                0 <= j < lots.len() && #[trigger] after[j].remaining < lots[j].remaining
                    && !lots[j].known;
            assert(after[w].remaining < lots[w].remaining);
        }
    }
}

/// A consumption that ran to its end left no basis on any lot it
/// exhausted from index `i` on.
proof fn lemma_exhausted_lots_basis(lots: Seq<LotModel>, i: nat, rem: nat, c: int, k: bool)
    ensures
        fifo_consume(lots, i, rem, c, k) matches FifoState::Running(after, _, _, _) ==> forall|
            j: int,
        |
            i <= j < lots.len() && lots[j].remaining > 0 && #[trigger] after[j].remaining == 0
                ==> after[j].basis == 0,
    decreases lots.len() - i,
{
    if i >= lots.len() || rem == 0 {
    } else if lots[i as int].remaining == 0 {
        lemma_exhausted_lots_basis(lots, i + 1, rem, c, k);
    } else {
        let lot = lots[i as int];
        let take = if lot.remaining <= rem {
            lot.remaining
        } else {
            rem
        };
        if let Ok(b) = proportional(lot.basis, take, lot.remaining) {
            if crate::fifo::fits_i128(c + b) && crate::fifo::fits_i128(lot.basis - b) {
                let next = lots.update(
                    i as int,
                    LotModel {
                        remaining: (lot.remaining - take) as nat,
                        basis: lot.basis - b,
                        known: lot.known,
                    },
                );
                let rem2 = (rem - take) as nat;
                lemma_exhausted_lots_basis(next, i + 1, rem2, c + b, k && lot.known);
                lemma_fifo_running(next, i + 1, rem2, c + b, k && lot.known);
                if let FifoState::Running(after, _, _, _) = fifo_consume(
                    next,
                    i + 1,
                    rem2,
                    c + b,
                    k && lot.known,
                ) {
                    assert(after[i as int] == next[i as int]);
                    assert forall|j: int|
                        i <= j < lots.len() && lots[j].remaining > 0 && #[trigger] after[j].remaining
                            == 0 implies after[j].basis == 0 by {
                        if j > i {
                            assert(next[j] == lots[j]);
                        }
                    }
                }
            }
        }
    }
}

/// Every lot that a successful disposal exhausts (inventory left before,
/// none after) ends with no remaining basis: its whole basis was consumed,
/// with no rounding left behind.
pub proof fn law_exhausted_lots_keep_no_basis(
    lots: Seq<LotModel>,
    amount: nat,
    gross: int,
    fee: int,
)
    ensures
        ({
            let (after, outcome) = dispose_spec(lots, amount, gross, fee);
            outcome is Ok ==> forall|j: int|
                0 <= j < lots.len() && lots[j].remaining > 0 && #[trigger] after[j].remaining == 0
                    ==> after[j].basis == 0
        }),
{
    lemma_exhausted_lots_basis(lots, 0, amount, 0, true);
}

/// Fully disposing a single lot consumes exactly its whole basis, with no
/// rounding, and exhausts it.
pub proof fn law_full_lot_disposal_consumes_whole_basis(lot: LotModel, gross: int, fee: int)
    requires
        lot.remaining > 0,
    ensures
        dispose_spec(seq![lot], lot.remaining, gross, fee).1 matches Ok(m) ==> m.consumed
            == lot.basis && dispose_spec(seq![lot], lot.remaining, gross, fee).0[0].remaining == 0
            && dispose_spec(seq![lot], lot.remaining, gross, fee).0[0].basis == 0,
{
    let lots = seq![lot];
    let next = lots.update(0, LotModel { remaining: 0, basis: 0, known: lot.known });
    assert(fifo_consume(next, 1, 0, lot.basis, lot.known) == FifoState::Running(
        next,
        0,
        lot.basis,
        lot.known,
    ));
}

/// The part of a lot's basis that a partial consumption takes never
/// exceeds that basis, and is never negative for a non-negative basis.
pub proof fn law_proportional_within_basis(total: int, numerator: nat, denominator: nat)
    requires
        0 <= total,
        numerator <= denominator,
    ensures
        proportional(total, numerator, denominator) matches Ok(v) ==> 0 <= v <= total,
{
    if denominator > 0 && numerator != denominator {
        let p = total * numerator;
        assert(p <= total * denominator) by (nonlinear_arith)
            requires
                0 <= total,
                numerator <= denominator,
                p == total * numerator,
        ;
        assert(p / (denominator as int) <= total) by (nonlinear_arith)
            requires
                0 <= p <= total * denominator,
                denominator > 0,
        ;
        assert(p / (denominator as int) >= 0) by (nonlinear_arith)
            requires
                0 <= p,
                denominator > 0,
        ;
    }
}

/// Open inventory is the plain sum of remaining amounts whenever that sum
/// fits in 256 bits.
pub proof fn law_open_amount_is_total_remaining(lots: Seq<LotModel>)
    requires
        total_remaining(lots) < two_pow_256(),
    ensures
        open_amount_spec(lots) == total_remaining(lots),
    decreases lots.len(),
{
    if lots.len() > 0 {
        law_open_amount_is_total_remaining(lots.drop_last());
    }
}

/// The part of a lot's basis that a partial consumption of `numerator`
/// out of `denominator` units takes is `total * numerator / denominator`
/// rounded toward zero, carrying the sign of `total`; a full consumption
/// takes the whole `total` with no rounding at all.
pub proof fn law_proportional_rounds_toward_zero(total: int, numerator: nat, denominator: nat)
    requires
        denominator > 0,
    ensures
        proportional(total, numerator, denominator) matches Ok(v) ==> {
            &&& numerator == denominator ==> v == total
            &&& (numerator != denominator && total >= 0) ==> 0 <= v && v * denominator <= total
                * numerator < (v + 1) * denominator
            &&& (numerator != denominator && total < 0) ==> v <= 0 && (-v) * denominator <= (
            -total) * numerator < (-v + 1) * denominator
        },
{
    if numerator != denominator {
        if let Ok(v) = proportional(total, numerator, denominator) {
            let a = if total < 0 {
                -total
            } else {
                total
            };
            let p = a * numerator;
            let q = p / (denominator as int);
            assert(0 <= p) by (nonlinear_arith)
                requires
                    a >= 0,
                    numerator >= 0,
                    p == a * numerator,
            ;
            assert(q * denominator <= p < (q + 1) * denominator && q >= 0) by (nonlinear_arith)
                requires
                    q == p / (denominator as int),
                    denominator > 0,
                    p >= 0,
            ;
        }
    }
}

} // verus!
