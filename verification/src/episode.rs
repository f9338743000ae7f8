//! Inventory episodes: a wallet/asset position from zero, through trades,
//! back to zero (or still open), and the cohort split used by the ratios.

use vstd::prelude::*;

use crate::amount::Money;
use crate::identity::AssetKey;

verus! {

/// A wallet/asset inventory episode. A partial sell does not create
/// several "won" trades: the episode spans the whole zero-to-zero cycle.
#[derive(Debug)]
pub struct Episode {
    pub asset: AssetKey,
    pub realized_pnl: Money,
    pub is_closed_within_window: bool,
    /// The episode opened before the report window (left-censored).
    pub opened_before_window: bool,
    /// A transfer or unknown-basis flow touched this episode's inventory.
    pub has_unresolved_flows: bool,
}

impl Clone for Episode {
    fn clone(&self) -> (r: Self)
        ensures
            r == *self,
    {
        Episode {
            asset: self.asset.clone(),
            realized_pnl: self.realized_pnl,
            is_closed_within_window: self.is_closed_within_window,
            opened_before_window: self.opened_before_window,
            has_unresolved_flows: self.has_unresolved_flows,
        }
    }
}

impl Episode {
    /// Fully observed: opened and closed within the report window.
    pub open spec fn in_default_cohort(self) -> bool {
        self.is_closed_within_window && !self.opened_before_window
    }

    /// Counts for win rate and profit factor.
    pub open spec fn counts_for_win_rate(self) -> bool {
        self.in_default_cohort() && !self.has_unresolved_flows
    }

    /// Whether this episode belongs to the default cohort. Left-censored
    /// and still-open episodes are counted separately, never merged in.
    pub fn is_default_cohort(&self) -> (b: bool)
        ensures
            b == self.in_default_cohort(),
    {
        self.is_closed_within_window && !self.opened_before_window
    }

    /// Default cohort and no unresolved flows.
    pub fn is_valid_for_win_rate(&self) -> (b: bool)
        ensures
            b == self.counts_for_win_rate(),
    {
        self.is_default_cohort() && !self.has_unresolved_flows
    }
}

/// The episodes of one wallet.
#[derive(Debug)]
pub struct EpisodeCohort {
    pub episodes: Vec<Episode>,
}

impl Default for EpisodeCohort {
    fn default() -> (c: Self)
        ensures
            c.episodes@.len() == 0,
    {
        EpisodeCohort { episodes: Vec::new() }
    }
}

impl Clone for EpisodeCohort {
    fn clone(&self) -> (r: Self)
        ensures
            r.episodes@ == self.episodes@,
    {
        let mut episodes: Vec<Episode> = Vec::new();
        let mut i: usize = 0;
        while i < self.episodes.len()
            invariant
                i <= self.episodes.len(),
                episodes@ == self.episodes@.take(i as int),
            decreases self.episodes.len() - i,
        {
            episodes.push(self.episodes[i].clone());
            assert(self.episodes@.take(i + 1) =~= self.episodes@.take(i as int).push(
                self.episodes@[i as int],
            ));
            i += 1;
        }
        assert(self.episodes@.take(i as int) =~= self.episodes@);
        EpisodeCohort { episodes }
    }
}

/// The episodes that count for win rate, in input order.
pub open spec fn valid_closed(episodes: Seq<Episode>) -> Seq<Episode> {
    episodes.filter(|e: Episode| e.counts_for_win_rate())
}

/// The episodes outside the default cohort (left-censored or still open).
pub open spec fn censored_or_open(episodes: Seq<Episode>) -> Seq<Episode> {
    episodes.filter(|e: Episode| !e.in_default_cohort())
}

impl EpisodeCohort {
    /// The episodes valid for win rate, in order.
    pub fn valid_closed_episodes(&self) -> (r: Vec<&Episode>)
        ensures
            r@.len() == valid_closed(self.episodes@).len(),
            forall|i: int| 0 <= i < r@.len() ==> *r@[i] == valid_closed(self.episodes@)[i],
    {
        let ghost pred = |e: Episode| e.counts_for_win_rate();
        let mut r: Vec<&Episode> = Vec::new();
        let mut i: usize = 0;
        while i < self.episodes.len()
            invariant
                i <= self.episodes.len(),
                pred == (|e: Episode| e.counts_for_win_rate()),
                r@.len() == self.episodes@.take(i as int).filter(pred).len(),
                forall|j: int|
                    0 <= j < r@.len() ==> *r@[j] == self.episodes@.take(i as int).filter(pred)[j],
            decreases self.episodes.len() - i,
        {
            let e = &self.episodes[i];
            proof {
                assert(self.episodes@.take(i + 1) =~= self.episodes@.take(i as int).push(*e));
                self.episodes@.take(i as int).lemma_filter_push(*e, pred);
            }
            if e.is_valid_for_win_rate() {
                r.push(e);
            }
            i += 1;
        }
        assert(self.episodes@.take(i as int) =~= self.episodes@);
        r
    }

    /// How many episodes lie outside the default cohort.
    pub fn censored_or_open_count(&self) -> (n: usize)
        ensures
            n == censored_or_open(self.episodes@).len(),
    {
        let ghost pred = |e: Episode| !e.in_default_cohort();
        let mut n: usize = 0;
        let mut i: usize = 0;
        while i < self.episodes.len()
            invariant
                i <= self.episodes.len(),
                pred == (|e: Episode| !e.in_default_cohort()),
                n == self.episodes@.take(i as int).filter(pred).len(),
                n <= i,
            decreases self.episodes.len() - i,
        {
            let e = &self.episodes[i];
            proof {
                assert(self.episodes@.take(i + 1) =~= self.episodes@.take(i as int).push(*e));
                self.episodes@.take(i as int).lemma_filter_push(*e, pred);
            }
            if !e.is_default_cohort() {
                n += 1;
            }
            i += 1;
        }
        assert(self.episodes@.take(i as int) =~= self.episodes@);
        n
    }
}

} // verus!
