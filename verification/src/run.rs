use vstd::prelude::*;

verus! {

/// The living pawns a full headless run must end with.
pub const HEADLESS_MIN_SURVIVORS: usize = 8;

/// Which layers a headless run simulates.
#[derive(Clone, Copy, Debug, PartialEq, Eq, Structural)]
pub enum RunProfile {
    Full,
    SubstrateOnly,
}

/// Whether a headless run goes on after an update, and why it stops.
#[derive(Clone, Copy, Debug, PartialEq, Eq, Structural)]
pub enum RunVerdict {
    Continue,
    TickLimitReached,
    WallTimeLimitReached,
    SubstrateEquilibriumReached,
    AllPawnsDied,
}

/// The verdict after an update, checked in this order: a full run stops at the target
/// tick; any run stops when its wall time is up; a full run stops when no pawn lives;
/// a substrate run stops at equilibrium.
pub open spec fn verdict_spec(
    profile: RunProfile,
    tick: u64,
    target_ticks: u64,
    wall_time_up: bool,
    living: usize,
    equilibrium: bool,
) -> RunVerdict {
    if profile == RunProfile::Full && tick >= target_ticks {
        RunVerdict::TickLimitReached
    } else if wall_time_up {
        RunVerdict::WallTimeLimitReached
    } else if profile == RunProfile::Full && living == 0 {
        RunVerdict::AllPawnsDied
    } else if profile == RunProfile::SubstrateOnly && equilibrium {
        RunVerdict::SubstrateEquilibriumReached
    } else {
        RunVerdict::Continue
    }
}

/// Decides whether a headless run stops after an update (see `verdict_spec`).
pub fn run_verdict(
    profile: RunProfile,
    tick: u64,
    target_ticks: u64,
    wall_time_up: bool,
    living: usize,
    equilibrium: bool,
) -> (v: RunVerdict)
    ensures
        v == verdict_spec(profile, tick, target_ticks, wall_time_up, living, equilibrium),
{
    if profile == RunProfile::Full && tick >= target_ticks {
        RunVerdict::TickLimitReached
    } else if wall_time_up {
        RunVerdict::WallTimeLimitReached
    } else if profile == RunProfile::Full && living == 0 {
        RunVerdict::AllPawnsDied
    } else if profile == RunProfile::SubstrateOnly && equilibrium {
        RunVerdict::SubstrateEquilibriumReached
    } else {
        RunVerdict::Continue
    }
}

/// A full run below its tick target and wall-time limit stops for its pawns exactly
/// when none is left: with any pawn alive it goes on, whatever the substrate does.
pub proof fn lemma_full_run_stops_only_when_all_died(
    tick: u64,
    target_ticks: u64,
    living: usize,
    equilibrium: bool,
)
    requires
        tick < target_ticks,
    ensures
        (verdict_spec(RunProfile::Full, tick, target_ticks, false, living, equilibrium) == RunVerdict::AllPawnsDied)
            <==> living == 0,
        living > 0 ==> verdict_spec(RunProfile::Full, tick, target_ticks, false, living, equilibrium)
            == RunVerdict::Continue,
{
}

/// Limits come first: a full run at or past its target tick stops there, whatever else
/// holds; short of it, any run whose wall time is up stops for that.
pub proof fn lemma_limits_stop_a_run(
    profile: RunProfile,
    tick: u64,
    target_ticks: u64,
    living: usize,
    equilibrium: bool,
    wall_time_up: bool,
)
    ensures
        tick >= target_ticks ==> verdict_spec(RunProfile::Full, tick, target_ticks, wall_time_up, living, equilibrium)
            == RunVerdict::TickLimitReached,
        (profile == RunProfile::SubstrateOnly || tick < target_ticks) ==> verdict_spec(
            profile,
            tick,
            target_ticks,
            true,
            living,
            equilibrium,
        ) == RunVerdict::WallTimeLimitReached,
{
}

/// A substrate run ignores ticks and pawns: it stops only for its wall time or at
/// equilibrium, and otherwise goes on.
pub proof fn lemma_substrate_run_stops_at_equilibrium(
    tick: u64,
    target_ticks: u64,
    living: usize,
    equilibrium: bool,
)
    ensures
        verdict_spec(RunProfile::SubstrateOnly, tick, target_ticks, false, living, equilibrium) == if equilibrium {
            RunVerdict::SubstrateEquilibriumReached
        } else {
            RunVerdict::Continue
        },
{
}

/// Whether a full run that reached its tick or wall-time limit ended with too few
/// living pawns, which fails the run.
pub fn survival_regression(profile: RunProfile, verdict: RunVerdict, living: usize) -> (failed: bool)
    ensures
        failed == (profile == RunProfile::Full && (verdict == RunVerdict::TickLimitReached || verdict
            == RunVerdict::WallTimeLimitReached) && living < HEADLESS_MIN_SURVIVORS),
{
    profile == RunProfile::Full && (verdict == RunVerdict::TickLimitReached || verdict
        == RunVerdict::WallTimeLimitReached) && living < HEADLESS_MIN_SURVIVORS
}

} // verus!
