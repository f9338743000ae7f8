//! Win rate and profit factor. A ratio is a typed status, never a float
//! sentinel: no Infinity, no NaN, no magic surrogate number.

use vstd::prelude::*;

use crate::amount::{money_unit, Money};
use crate::episode::{valid_closed, Episode, EpisodeCohort};

verus! {

/// A ratio result: a value, or one of two well-defined non-value states.
#[derive(Debug, Clone, Copy, PartialEq, Eq)]
pub enum RatioStatus<T> {
    Value { value: T },
    /// No negative episodes observed: the profit factor is unbounded.
    NoObservedLosses,
    /// No positive and no negative episodes.
    Undefined,
}

/// The episodes among `valid` with a strictly positive result.
pub open spec fn winners(valid: Seq<Episode>) -> Seq<Episode> {
    valid.filter(|e: Episode| e.realized_pnl@ > 0)
}

/// Win rate over a cohort, in money units (`1.0` is every valid episode
/// positive): `floor(positive * 10^8 / valid)`, undefined with no valid
/// episode.
pub open spec fn win_rate_units(episodes: Seq<Episode>) -> Option<int> {
    let valid = valid_closed(episodes);
    if valid.len() == 0 {
        None
    } else {
        Some(winners(valid).len() * money_unit() / (valid.len() as int))
    }
}

/// One step of the profit-factor sums `(positive, |negative|)`: a zero
/// result is skipped, and an addition that would leave `i128` is dropped,
/// keeping the running sum as it was.
pub open spec fn pf_step(sums: (int, int), pnl: int) -> (int, int) {
    if pnl == 0 {
        sums
    } else if pnl < 0 {
        if -pnl > i128::MAX {
            sums
        } else if sums.1 - pnl > i128::MAX {
            sums
        } else {
            (sums.0, sums.1 - pnl)
        }
    } else if sums.0 + pnl > i128::MAX {
        sums
    } else {
        (sums.0 + pnl, sums.1)
    }
}

/// The profit-factor sums over a sequence of episodes, in order.
pub open spec fn pf_sums(valid: Seq<Episode>) -> (int, int)
    decreases valid.len(),
{
    if valid.len() == 0 {
        (0, 0)
    } else {
        pf_step(pf_sums(valid.drop_last()), valid.last().realized_pnl@)
    }
}

/// `x * 10^8`, saturated at `i128::MAX`.
pub open spec fn saturating_scale(x: int) -> int {
    if x * money_unit() > i128::MAX {
        i128::MAX as int
    } else {
        x * money_unit()
    }
}

/// What `profit_factor` gives, in money units.
pub open spec fn profit_factor_status(episodes: Seq<Episode>) -> RatioStatus<int> {
    let sums = pf_sums(valid_closed(episodes));
    if sums.0 == 0 && sums.1 == 0 {
        RatioStatus::Undefined
    } else if sums.1 == 0 {
        RatioStatus::NoObservedLosses
    } else {
        RatioStatus::Value { value: saturating_scale(sums.0) / sums.1 }
    }
}

/// The sums stay within `0 ..= i128::MAX`.
pub proof fn lemma_pf_sums_bounds(valid: Seq<Episode>)
    ensures
        0 <= pf_sums(valid).0 <= i128::MAX,
        0 <= pf_sums(valid).1 <= i128::MAX,
    decreases valid.len(),
{
    if valid.len() > 0 {
        lemma_pf_sums_bounds(valid.drop_last());
    }
}

/// Win rate: positive closed episodes over all valid closed episodes.
/// Breakeven episodes count in the denominator but are never positive.
pub fn win_rate(cohort: &EpisodeCohort) -> (r: RatioStatus<Money>)
    ensures
        win_rate_units(cohort.episodes@) is None ==> r is Undefined,
        win_rate_units(cohort.episodes@) matches Some(u) ==> r matches RatioStatus::Value {
            value,
        } && value@ == u,
{
    let valid = cohort.valid_closed_episodes();
    let ghost vs = valid_closed(cohort.episodes@);
    if valid.len() == 0 {
        return RatioStatus::Undefined;
    }
    let ghost pred = |e: Episode| e.realized_pnl@ > 0;
    let mut positive: usize = 0;
    let mut i: usize = 0;
    while i < valid.len()
        invariant
            i <= valid.len(),
            valid@.len() == vs.len(),
            forall|j: int| 0 <= j < valid@.len() ==> *valid@[j] == vs[j],
            pred == (|e: Episode| e.realized_pnl@ > 0),
            positive == vs.take(i as int).filter(pred).len(),
            positive <= i,
        decreases valid.len() - i,
    {
        let e: &Episode = valid[i];
        proof {
            assert(vs.take(i + 1) =~= vs.take(i as int).push(*e));
            vs.take(i as int).lemma_filter_push(*e, pred);
        }
        if e.realized_pnl.is_positive() {
            positive += 1;
        }
        i += 1;
    }
    assert(vs.take(i as int) =~= vs);
    let n: usize = valid.len();
    assert(positive * 100_000_000 <= n * 100_000_000) by (nonlinear_arith)
        requires
            positive <= n,
    ;
    let scaled: u128 = (positive as u128) * 100_000_000u128;
    let value: u128 = scaled / (n as u128);
    assert(value <= scaled) by (nonlinear_arith)
        requires
            value == scaled / (n as u128),
            n > 0,
    ;
    RatioStatus::Value { value: Money::from_scaled_units(value as i128) }
}

/// Profit factor: sum of positive results over the absolute sum of
/// negative ones. Breakeven episodes are in neither sum.
pub fn profit_factor(cohort: &EpisodeCohort) -> (r: RatioStatus<Money>)
    ensures
        match profit_factor_status(cohort.episodes@) {
            RatioStatus::Undefined => r is Undefined,
            RatioStatus::NoObservedLosses => r is NoObservedLosses,
            RatioStatus::Value { value: u } => r matches RatioStatus::Value { value } && value@
                == u,
        },
{
    let valid = cohort.valid_closed_episodes();
    let ghost vs = valid_closed(cohort.episodes@);
    let mut positive_sum = Money::zero();
    let mut negative_sum_abs = Money::zero();
    let mut i: usize = 0;
    while i < valid.len()
        invariant
            i <= valid.len(),
            valid@.len() == vs.len(),
            forall|j: int| 0 <= j < valid@.len() ==> *valid@[j] == vs[j],
            (positive_sum@, negative_sum_abs@) == pf_sums(vs.take(i as int)),
        decreases valid.len() - i,
    {
        let e: &Episode = valid[i];
        proof {
            assert(vs.take(i + 1).drop_last() =~= vs.take(i as int));
            lemma_pf_sums_bounds(vs.take(i as int));
        }
        if e.realized_pnl.is_zero() {
        } else if e.realized_pnl.is_negative() {
            if let Ok(abs) = Money::zero().checked_sub(&e.realized_pnl) {
                negative_sum_abs = match negative_sum_abs.checked_add(&abs) {
                    Ok(s) => s,
                    Err(_) => negative_sum_abs,
                };
            }
        } else if let Ok(sum) = positive_sum.checked_add(&e.realized_pnl) {
            positive_sum = sum;
        }
        i += 1;
    }
    assert(vs.take(i as int) =~= vs);
    proof {
        lemma_pf_sums_bounds(vs);
    }
    if negative_sum_abs.is_zero() && positive_sum.is_zero() {
        return RatioStatus::Undefined;
    }
    if negative_sum_abs.is_zero() {
        return RatioStatus::NoObservedLosses;
    }
    let numerator = positive_sum.scaled_units();
    let denominator = negative_sum_abs.scaled_units();
    let scaled: i128 = match numerator.checked_mul(100_000_000i128) {
        Some(v) => v,
        None => i128::MAX,
    };
    let value: u128 = (scaled as u128) / (denominator as u128);
    assert(value <= scaled) by (nonlinear_arith)
        requires
            value == (scaled as u128) / (denominator as u128),
            denominator > 0,
            scaled >= 0,
    ;
    RatioStatus::Value { value: Money::from_scaled_units(value as i128) }
}

} // verus!
