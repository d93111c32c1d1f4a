use vstd::prelude::*;
use crate::ai::DispatcherEvaluationState;
use crate::causal::chebyshev;
use crate::entity::EntityId;
use crate::lease::ChunkId;

verus! {

/// The largest chunk coordinate of the world grid (chunks run 0..=WORLD_CHUNK_EXTENT).
pub const WORLD_CHUNK_EXTENT: u32 = 255;

/// A utility-AI action's lifecycle state.
#[derive(Clone, Copy, Debug, PartialEq, Eq, Structural)]
pub enum ActionState {
    Init,
    Requested,
    Executing,
    Cancelled,
    Success,
    Failure,
}

/// `v` clamped into `lo..=hi`.
pub open spec fn clamp(v: int, lo: int, hi: int) -> int {
    if v < lo { lo } else if v > hi { hi } else { v }
}

/// The sign of `to - from`.
pub open spec fn signum(from: int, to: int) -> int {
    if to > from { 1 } else if to < from { -1 } else { 0 }
}

/// One step along one axis toward `to`, kept on the world grid.
pub open spec fn axis_step(from: int, to: int) -> int {
    clamp(from + signum(from, to), 0, WORLD_CHUNK_EXTENT as int)
}

/// One Chebyshev (king's move) step from `from` toward `to`, kept on the world grid.
pub open spec fn step_toward(from: ChunkId, to: ChunkId) -> ChunkId {
    ChunkId(axis_step(from.0 as int, to.0 as int) as u32, axis_step(from.1 as int, to.1 as int) as u32)
}

/// Both coordinates of `c` lie on the world grid.
pub open spec fn on_grid(c: ChunkId) -> bool {
    c.0 <= WORLD_CHUNK_EXTENT && c.1 <= WORLD_CHUNK_EXTENT
}

/// Coordinates the movement arithmetic handles as signed 32-bit values.
pub open spec fn signed_range(c: ChunkId) -> bool {
    c.0 <= i32::MAX && c.1 <= i32::MAX
}

fn axis_step_exec(from: u32, to: u32) -> (r: u32)
    requires
        from <= i32::MAX,
        to <= i32::MAX,
    ensures
        r == axis_step(from as int, to as int),
{
    let f = from as i64;
    let t = to as i64;
    let d: i64 = if t > f { 1 } else if t < f { -1 } else { 0 };
    let n = f + d;
    let c: i64 = if n < 0 { 0 } else if n > WORLD_CHUNK_EXTENT as i64 { WORLD_CHUNK_EXTENT as i64 } else { n };
    c as u32
}

/// One Chebyshev step from `from` toward `to`, clamped to the world grid.
pub fn chebyshev_step_toward(from: ChunkId, to: ChunkId) -> (r: ChunkId)
    requires
        signed_range(from),
        signed_range(to),
    ensures
        r == step_toward(from, to),
{
    ChunkId(axis_step_exec(from.0, to.0), axis_step_exec(from.1, to.1))
}

/// The outcome of one run of the move-to-chunk action for one actor.
#[derive(Clone, Copy, Debug, PartialEq, Eq, Structural)]
pub struct MoveOutcome {
    pub state: ActionState,
    /// The pawn's position after this run, when it moved.
    pub moved_to: Option<ChunkId>,
    /// Whether the pawn's movement target is to be removed (it has arrived).
    pub target_reached: bool,
}

/// One run of the move-to-chunk action for one actor. `pawn` holds the actor's
/// position and movement target, or is `None` when the actor lacks either.
/// Requested actions start executing; executing ones take one Chebyshev step toward
/// the target (marking the pawn dirty for re-evaluation) or, once on it, succeed and
/// drop the target; cancelled ones fail; others are left as they are.
pub fn move_to_chunk_action_step(
    actor: EntityId,
    state: ActionState,
    pawn: Option<(ChunkId, ChunkId)>,
    evaluation_state: &mut DispatcherEvaluationState,
) -> (r: MoveOutcome)
    requires
        pawn matches Some((pos, target)) ==> signed_range(pos) && signed_range(target),
    ensures
        match state {
            ActionState::Requested => r == MoveOutcome {
                state: if pawn is Some { ActionState::Executing } else { ActionState::Failure },
                moved_to: None,
                target_reached: false,
            },
            ActionState::Executing => match pawn {
                Some((pos, target)) => if pos == target {
                    r == MoveOutcome { state: ActionState::Success, moved_to: None, target_reached: true }
                } else {
                    r == MoveOutcome {
                        state: ActionState::Executing,
                        moved_to: Some(step_toward(pos, target)),
                        target_reached: false,
                    }
                },
                None => r == MoveOutcome { state: ActionState::Failure, moved_to: None, target_reached: false },
            },
            ActionState::Cancelled => r == MoveOutcome {
                state: ActionState::Failure,
                moved_to: None,
                target_reached: false,
            },
            _ => r == MoveOutcome { state, moved_to: None, target_reached: false },
        },
        final(evaluation_state).dirty_entities@ == if r.moved_to is Some {
            old(evaluation_state).dirty_entities@.insert(actor.0)
        } else {
            old(evaluation_state).dirty_entities@
        },
        final(evaluation_state).dirty_all == old(evaluation_state).dirty_all,
        final(evaluation_state).last_evaluation_tick == old(evaluation_state).last_evaluation_tick,
        final(evaluation_state).last_region_signature == old(evaluation_state).last_region_signature,
{
    match state {
        ActionState::Requested => {
            let next = if pawn.is_some() { ActionState::Executing } else { ActionState::Failure };
            MoveOutcome { state: next, moved_to: None, target_reached: false }
        },
        ActionState::Executing => match pawn {
            Some((pos, target)) => {
                if pos == target {
                    MoveOutcome { state: ActionState::Success, moved_to: None, target_reached: true }
                } else {
                    let next = chebyshev_step_toward(pos, target);
                    // Crossing a chunk boundary invalidates the prior local evaluation.
                    evaluation_state.mark_dirty(actor);
                    MoveOutcome { state: ActionState::Executing, moved_to: Some(next), target_reached: false }
                }
            },
            None => MoveOutcome { state: ActionState::Failure, moved_to: None, target_reached: false },
        },
        ActionState::Cancelled => MoveOutcome { state: ActionState::Failure, moved_to: None, target_reached: false },
        _ => MoveOutcome { state, moved_to: None, target_reached: false },
    }
}

/// On the grid, each step toward a distinct target shortens the Chebyshev distance
/// by exactly one.
pub proof fn lemma_step_shortens_distance(from: ChunkId, to: ChunkId)
    requires
        on_grid(from),
        on_grid(to),
        from != to,
    ensures
        on_grid(step_toward(from, to)),
        chebyshev(step_toward(from, to), to) == chebyshev(from, to) - 1,
{
}

/// The position after `n` steps toward `to`.
pub open spec fn steps_toward(from: ChunkId, to: ChunkId, n: nat) -> ChunkId
    decreases n,
{
    if n == 0 {
        from
    } else {
        steps_toward(step_toward(from, to), to, (n - 1) as nat)
    }
}

/// On the grid, stepping toward a target reaches it after exactly its Chebyshev
/// distance in steps, and not before.
pub proof fn lemma_arrives_after_distance(from: ChunkId, to: ChunkId)
    requires
        on_grid(from),
        on_grid(to),
    ensures
        steps_toward(from, to, chebyshev(from, to) as nat) == to,
        forall|n: nat| n < chebyshev(from, to) ==> #[trigger] steps_toward(from, to, n) != to,
    decreases chebyshev(from, to),
{
    if from == to {
        assert(chebyshev(from, to) == 0);
    } else {
        let next = step_toward(from, to);
        lemma_step_shortens_distance(from, to);
        lemma_arrives_after_distance(next, to);
        assert forall|n: nat| n < chebyshev(from, to) implies #[trigger] steps_toward(from, to, n) != to by {
            if n == 0 {
            } else {
                assert(steps_toward(from, to, n) == steps_toward(next, to, (n - 1) as nat));
            }
        }
    }
}

} // verus!
