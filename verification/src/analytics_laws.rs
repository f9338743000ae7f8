//! Properties of the cohort ratios that hold for every cohort.

use vstd::prelude::*;

use crate::amount::money_unit;
use crate::episode::{censored_or_open, valid_closed, Episode};
use crate::ratio::{pf_sums, profit_factor_status, win_rate_units, winners, RatioStatus};

verus! {

/// A win rate, when defined, lies between zero and one whole unit.
pub proof fn law_win_rate_is_a_fraction(episodes: Seq<Episode>)
    ensures
        win_rate_units(episodes) matches Some(u) ==> 0 <= u <= money_unit(),
{
    let valid = valid_closed(episodes);
    if valid.len() > 0 {
        let w = winners(valid).len() as int;
        let n = valid.len() as int;
        valid.lemma_filter_len(|e: Episode| e.realized_pnl@ > 0);
        assert(0 <= w * money_unit() / n <= money_unit()) by (nonlinear_arith)
            requires
                0 <= w <= n,
                n > 0,
                money_unit() == 100_000_000,
        ;
    }
}

/// An episode that does not count for win rate (censored, still open, or
/// touched by an unresolved flow) changes neither ratio when it is added.
pub proof fn law_ineligible_episode_changes_no_ratio(episodes: Seq<Episode>, e: Episode)
    requires
        !e.counts_for_win_rate(),
    ensures
        win_rate_units(episodes.push(e)) == win_rate_units(episodes),
        profit_factor_status(episodes.push(e)) == profit_factor_status(episodes),
{
    episodes.lemma_filter_push(e, |x: Episode| x.counts_for_win_rate());
}

/// A breakeven episode that counts adds to the win-rate denominator only,
/// and leaves the profit factor unchanged.
pub proof fn law_breakeven_counts_only_in_denominator(episodes: Seq<Episode>, e: Episode)
    requires
        e.counts_for_win_rate(),
        e.realized_pnl@ == 0,
    ensures
        valid_closed(episodes.push(e)).len() == valid_closed(episodes).len() + 1,
        winners(valid_closed(episodes.push(e))) == winners(valid_closed(episodes)),
        profit_factor_status(episodes.push(e)) == profit_factor_status(episodes),
{
    let p = |x: Episode| x.counts_for_win_rate();
    episodes.lemma_filter_push(e, p);
    let v = valid_closed(episodes);
    v.lemma_filter_push(e, |x: Episode| x.realized_pnl@ > 0);
    assert(v.push(e).drop_last() =~= v);
}

/// With no negative result among the valid episodes, the profit factor is
/// never a number: it is `NoObservedLosses`, or `Undefined` when nothing
/// positive was observed either.
pub proof fn law_no_losses_is_never_a_value(episodes: Seq<Episode>)
    requires
        forall|i: int|
            0 <= i < valid_closed(episodes).len() ==> valid_closed(episodes)[i].realized_pnl@ >= 0,
    ensures
        !(profit_factor_status(episodes) is Value),
{
    lemma_no_negative_sum(valid_closed(episodes));
}

proof fn lemma_no_negative_sum(valid: Seq<Episode>)
    requires
        forall|i: int| 0 <= i < valid.len() ==> valid[i].realized_pnl@ >= 0,
    ensures
        crate::ratio::pf_sums(valid).1 == 0,
    decreases valid.len(),
{
    if valid.len() > 0 {
        lemma_no_negative_sum(valid.drop_last());
    }
}

/// The default-cohort episodes touched by an unresolved flow: in the
/// cohort, yet not counted for win rate.
pub open spec fn unresolved_in_cohort(episodes: Seq<Episode>) -> Seq<Episode> {
    episodes.filter(|e: Episode| e.in_default_cohort() && e.has_unresolved_flows)
}

/// Every episode is exactly one of: valid for win rate, censored or still
/// open, or in the default cohort with an unresolved flow. So the valid
/// and the censored-or-open counts together never exceed the cohort, and
/// reach it exactly when no default-cohort episode has an unresolved flow.
pub proof fn law_cohort_counts_partition(episodes: Seq<Episode>)
    ensures
        valid_closed(episodes).len() + censored_or_open(episodes).len() + unresolved_in_cohort(
            episodes,
        ).len() == episodes.len(),
        valid_closed(episodes).len() + censored_or_open(episodes).len() <= episodes.len(),
        (valid_closed(episodes).len() + censored_or_open(episodes).len() == episodes.len()) <==> (
        forall|i: int|
            0 <= i < episodes.len() && (#[trigger] episodes[i]).in_default_cohort()
                ==> !episodes[i].has_unresolved_flows),
    decreases episodes.len(),
{
    let valid = |e: Episode| e.counts_for_win_rate();
    let outside = |e: Episode| !e.in_default_cohort();
    let unresolved = |e: Episode| e.in_default_cohort() && e.has_unresolved_flows;
    if episodes.len() == 0 {
        episodes.lemma_filter_len(valid);
        episodes.lemma_filter_len(outside);
        episodes.lemma_filter_len(unresolved);
    } else {
        let rest = episodes.drop_last();
        let e = episodes.last();
        assert(rest.push(e) =~= episodes);
        law_cohort_counts_partition(rest);
        rest.lemma_filter_push(e, valid);
        rest.lemma_filter_push(e, outside);
        rest.lemma_filter_push(e, unresolved);
        unresolved_in_cohort(episodes).lemma_filter_len(unresolved);
        if valid_closed(episodes).len() + censored_or_open(episodes).len() == episodes.len() {
            assert(!(e.in_default_cohort() && e.has_unresolved_flows));
            assert forall|i: int|
                0 <= i < episodes.len() && (#[trigger] episodes[i]).in_default_cohort()
                    implies !episodes[i].has_unresolved_flows by {
                if i < rest.len() {
                    assert(episodes[i] == rest[i]);
                }
            }
        } else {
            let w = choose|i: int|
                0 <= i < rest.len() && (#[trigger] rest[i]).in_default_cohort()
                    && rest[i].has_unresolved_flows;
            if 0 <= w < rest.len() && rest[w].in_default_cohort() && rest[w].has_unresolved_flows {
                assert(episodes[w] == rest[w]);
            } else {
                assert(e.in_default_cohort() && e.has_unresolved_flows);
                assert(episodes[episodes.len() - 1] == e);
            }
        }
    }
}

/// Sum of the strictly positive results of `valid`.
pub open spec fn gains(valid: Seq<Episode>) -> int
    decreases valid.len(),
{
    if valid.len() == 0 {
        0
    } else if valid.last().realized_pnl@ > 0 {
        gains(valid.drop_last()) + valid.last().realized_pnl@
    } else {
        gains(valid.drop_last())
    }
}

/// Sum of the absolute values of the strictly negative results of `valid`.
pub open spec fn losses(valid: Seq<Episode>) -> int
    decreases valid.len(),
{
    if valid.len() == 0 {
        0
    } else if valid.last().realized_pnl@ < 0 {
        losses(valid.drop_last()) - valid.last().realized_pnl@
    } else {
        losses(valid.drop_last())
    }
}

proof fn lemma_sums_monotone(valid: Seq<Episode>)
    ensures
        0 <= gains(valid.drop_last()) <= gains(valid) || valid.len() == 0,
        0 <= losses(valid.drop_last()) <= losses(valid) || valid.len() == 0,
        0 <= gains(valid),
        0 <= losses(valid),
    decreases valid.len(),
{
    if valid.len() > 0 {
        lemma_sums_monotone(valid.drop_last());
    }
}

/// When neither sum leaves `i128`, the profit-factor sums are exactly the
/// sum of all gains and the sum of the magnitudes of all losses.
pub proof fn law_pf_sums_are_gains_and_losses(valid: Seq<Episode>)
    requires
        gains(valid) <= i128::MAX,
        losses(valid) <= i128::MAX,
    ensures
        pf_sums(valid) == (gains(valid), losses(valid)),
    decreases valid.len(),
{
    if valid.len() > 0 {
        lemma_sums_monotone(valid);
        law_pf_sums_are_gains_and_losses(valid.drop_last());
    }
}

/// The profit factor is the sum of gains over the sum of loss magnitudes
/// of the valid episodes, in money units (the scaled gains saturate at
/// `i128::MAX`): `NoObservedLosses` with gains and no loss, `Undefined`
/// with neither; whenever neither sum leaves `i128`.
pub proof fn law_profit_factor_is_gains_over_losses(episodes: Seq<Episode>)
    requires
        gains(valid_closed(episodes)) <= i128::MAX,
        losses(valid_closed(episodes)) <= i128::MAX,
    ensures
        ({
            let g = gains(valid_closed(episodes));
            let l = losses(valid_closed(episodes));
            profit_factor_status(episodes) == if g == 0 && l == 0 {
                RatioStatus::Undefined
            } else if l == 0 {
                RatioStatus::NoObservedLosses
            } else {
                RatioStatus::Value {
                    value: (if g * money_unit() > i128::MAX {
                        i128::MAX as int
                    } else {
                        g * money_unit()
                    }) / l,
                }
            }
        }),
{
    law_pf_sums_are_gains_and_losses(valid_closed(episodes));
}

/// One more valid losing episode strictly raises the loss sum, and with
/// it the profit factor's denominator.
pub proof fn law_added_loss_raises_denominator(valid: Seq<Episode>, e: Episode)
    requires
        e.realized_pnl@ < 0,
        gains(valid.push(e)) <= i128::MAX,
        losses(valid.push(e)) <= i128::MAX,
    ensures
        pf_sums(valid.push(e)).1 == pf_sums(valid).1 - e.realized_pnl@,
        pf_sums(valid.push(e)).1 > pf_sums(valid).1,
{
    assert(valid.push(e).drop_last() =~= valid);
    lemma_sums_monotone(valid.push(e));
    law_pf_sums_are_gains_and_losses(valid.push(e));
    law_pf_sums_are_gains_and_losses(valid);
}

} // verus!
