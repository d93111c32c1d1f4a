use simrard::run::{run_verdict, survival_regression, RunProfile, RunVerdict, HEADLESS_MIN_SURVIVORS};

#[test]
fn full_runs_stop_at_target_then_wall_time_then_extinction() {
    assert_eq!(run_verdict(RunProfile::Full, 10_000, 10_000, true, 0, false), RunVerdict::TickLimitReached);
    assert_eq!(run_verdict(RunProfile::Full, 9_999, 10_000, true, 0, false), RunVerdict::WallTimeLimitReached);
    assert_eq!(run_verdict(RunProfile::Full, 9_999, 10_000, false, 0, true), RunVerdict::AllPawnsDied);
    assert_eq!(run_verdict(RunProfile::Full, 1, 10_000, false, 8, true), RunVerdict::Continue);
}

#[test]
fn substrate_runs_stop_at_equilibrium_or_wall_time() {
    // The tick target and pawn count do not apply to substrate runs.
    assert_eq!(run_verdict(RunProfile::SubstrateOnly, 20_000, 10_000, false, 0, false), RunVerdict::Continue);
    assert_eq!(run_verdict(RunProfile::SubstrateOnly, 5, 10_000, false, 0, true), RunVerdict::SubstrateEquilibriumReached);
    assert_eq!(run_verdict(RunProfile::SubstrateOnly, 5, 10_000, true, 0, true), RunVerdict::WallTimeLimitReached);
}

#[test]
fn too_few_survivors_fail_a_completed_full_run() {
    assert_eq!(HEADLESS_MIN_SURVIVORS, 8);
    assert!(survival_regression(RunProfile::Full, RunVerdict::TickLimitReached, 7));
    assert!(!survival_regression(RunProfile::Full, RunVerdict::TickLimitReached, 8));
    assert!(survival_regression(RunProfile::Full, RunVerdict::WallTimeLimitReached, 0));
    assert!(!survival_regression(RunProfile::Full, RunVerdict::AllPawnsDied, 0));
    assert!(!survival_regression(RunProfile::SubstrateOnly, RunVerdict::TickLimitReached, 0));
}
