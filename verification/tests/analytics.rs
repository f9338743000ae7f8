use trader_scout::amount::Money;
use trader_scout::episode::{Episode, EpisodeCohort};
use trader_scout::identity::{AssetKey, ChainFamily, ChainKey, GenesisIdentity, NetworkId};
use trader_scout::ratio::{profit_factor, win_rate, RatioStatus};

fn asset() -> AssetKey {
    AssetKey::Native(ChainKey {
        family: ChainFamily::Evm,
        network_id: NetworkId::EvmChainId(8453),
        genesis_identity: GenesisIdentity::Unverified,
    })
}

fn closed_episode(pnl_scaled: i128) -> Episode {
    Episode {
        asset: asset(),
        realized_pnl: Money::from_scaled_units(pnl_scaled),
        is_closed_within_window: true,
        opened_before_window: false,
        has_unresolved_flows: false,
    }
}

#[test]
fn left_censored_episode_is_excluded_from_default_cohort() {
    let episode = Episode {
        asset: asset(),
        realized_pnl: Money::zero(),
        is_closed_within_window: true,
        opened_before_window: true,
        has_unresolved_flows: false,
    };
    assert!(!episode.is_default_cohort());
}

#[test]
fn still_open_episode_is_excluded_from_default_cohort() {
    let episode = Episode {
        asset: asset(),
        realized_pnl: Money::zero(),
        is_closed_within_window: false,
        opened_before_window: false,
        has_unresolved_flows: false,
    };
    assert!(!episode.is_default_cohort());
}

#[test]
fn episode_with_unresolved_flows_excluded_from_win_rate_but_visible_in_cohort() {
    let episode = Episode {
        asset: asset(),
        realized_pnl: Money::zero(),
        is_closed_within_window: true,
        opened_before_window: false,
        has_unresolved_flows: true,
    };
    assert!(episode.is_default_cohort());
    assert!(!episode.is_valid_for_win_rate());
}

#[test]
fn cohort_separates_valid_closed_from_censored_and_open() {
    let cohort = EpisodeCohort {
        episodes: vec![
            Episode {
                asset: asset(),
                realized_pnl: Money::zero(),
                is_closed_within_window: true,
                opened_before_window: false,
                has_unresolved_flows: false,
            },
            Episode {
                asset: asset(),
                realized_pnl: Money::zero(),
                is_closed_within_window: false,
                opened_before_window: false,
                has_unresolved_flows: false,
            },
        ],
    };
    assert_eq!(cohort.valid_closed_episodes().len(), 1);
    assert_eq!(cohort.censored_or_open_count(), 1);
}

#[test]
fn no_negative_episodes_gives_no_observed_losses_status() {
    let cohort = EpisodeCohort { episodes: vec![closed_episode(100), closed_episode(200)] };
    assert_eq!(profit_factor(&cohort), RatioStatus::<Money>::NoObservedLosses);
}

#[test]
fn no_episodes_at_all_gives_undefined_status() {
    let cohort = EpisodeCohort { episodes: vec![] };
    assert_eq!(profit_factor(&cohort), RatioStatus::<Money>::Undefined);
}

#[test]
fn breakeven_episode_counts_in_win_rate_denominator_but_not_pf_sums() {
    let cohort = EpisodeCohort { episodes: vec![closed_episode(0), closed_episode(100)] };
    match win_rate(&cohort) {
        RatioStatus::Value { value } => {
            assert_eq!(value, Money::from_scaled_units(50_000_000));
        }
        other => panic!("expected Value, got {other:?}"),
    }
    assert_eq!(profit_factor(&cohort), RatioStatus::<Money>::NoObservedLosses);
}

#[test]
fn win_rate_and_pf_are_finite_values_when_both_positive_and_negative_exist() {
    let cohort = EpisodeCohort { episodes: vec![closed_episode(300), closed_episode(-100)] };
    match profit_factor(&cohort) {
        RatioStatus::Value { value } => {
            assert_eq!(value, Money::from_scaled_units(3 * 10i128.pow(8)));
        }
        other => panic!("expected Value, got {other:?}"),
    }
}

#[test]
fn episodes_with_unresolved_flows_are_excluded_from_win_rate_computation() {
    let mut unresolved = closed_episode(100);
    unresolved.has_unresolved_flows = true;
    let cohort = EpisodeCohort { episodes: vec![unresolved] };
    assert_eq!(win_rate(&cohort), RatioStatus::<Money>::Undefined);
}

#[test]
fn win_rate_floors_a_third() {
    let cohort = EpisodeCohort {
        episodes: vec![closed_episode(5), closed_episode(-5), closed_episode(0)],
    };
    assert_eq!(
        win_rate(&cohort),
        RatioStatus::Value { value: Money::from_scaled_units(33_333_333) }
    );
}

#[test]
fn win_rate_never_exceeds_one() {
    let cohort = EpisodeCohort { episodes: vec![closed_episode(1), closed_episode(2)] };
    assert_eq!(
        win_rate(&cohort),
        RatioStatus::Value { value: Money::from_scaled_units(100_000_000) }
    );
}

#[test]
fn profit_factor_floors_its_quotient() {
    // 100 / 300 = 0.33333333...
    let cohort = EpisodeCohort { episodes: vec![closed_episode(100), closed_episode(-300)] };
    assert_eq!(
        profit_factor(&cohort),
        RatioStatus::Value { value: Money::from_scaled_units(33_333_333) }
    );
}

#[test]
fn profit_factor_with_only_losses_is_zero() {
    let cohort = EpisodeCohort { episodes: vec![closed_episode(-7)] };
    assert_eq!(
        profit_factor(&cohort),
        RatioStatus::Value { value: Money::zero() }
    );
}

#[test]
fn profit_factor_saturates_a_huge_scaled_numerator() {
    let cohort = EpisodeCohort {
        episodes: vec![closed_episode(i128::MAX / 2), closed_episode(-1)],
    };
    assert_eq!(
        profit_factor(&cohort),
        RatioStatus::Value { value: Money::from_scaled_units(i128::MAX) }
    );
}

#[test]
fn censored_episode_changes_neither_ratio() {
    let base = EpisodeCohort { episodes: vec![closed_episode(300), closed_episode(-100)] };
    let mut censored = closed_episode(1_000_000);
    censored.opened_before_window = true;
    let with = EpisodeCohort {
        episodes: vec![closed_episode(300), closed_episode(-100), censored],
    };
    assert_eq!(win_rate(&base), win_rate(&with));
    assert_eq!(profit_factor(&base), profit_factor(&with));
    assert_eq!(with.censored_or_open_count(), 1);
}

#[test]
fn default_cohort_is_empty() {
    let cohort = EpisodeCohort::default();
    assert_eq!(cohort.episodes.len(), 0);
    assert_eq!(win_rate(&cohort), RatioStatus::<Money>::Undefined);
}

#[test]
fn cohort_counts_cover_every_episode_but_unresolved_ones() {
    let mut still_open = closed_episode(0);
    still_open.is_closed_within_window = false;
    let full = EpisodeCohort { episodes: vec![closed_episode(10), still_open] };
    assert_eq!(full.valid_closed_episodes().len(), 1);
    assert_eq!(full.censored_or_open_count(), 1);
    assert_eq!(full.valid_closed_episodes().len() + full.censored_or_open_count(), full.episodes.len());

    let mut unresolved = closed_episode(-5);
    unresolved.has_unresolved_flows = true;
    let mut censored = closed_episode(3);
    censored.opened_before_window = true;
    let partial = EpisodeCohort { episodes: vec![closed_episode(7), unresolved, censored] };
    assert_eq!(partial.valid_closed_episodes().len(), 1);
    assert_eq!(partial.censored_or_open_count(), 1);
    assert!(partial.valid_closed_episodes().len() + partial.censored_or_open_count() < partial.episodes.len());
}
