use vstd::prelude::*;
use crate::ai::{complete_quest_for_action, first_in_progress_from, DispatcherEvaluationState};
use crate::causal::{due_count, CausalEvent, CausalEventKind, CausalEventQueue};
use crate::charter::{first_conflict, holds_handle, lemma_first_conflict_none_iff_unblocked, released, unblocked, ActiveModel, SpatialCharter};
use crate::entity::{
    ComponentId, EntityId, FOOD_RESERVATION_COMPONENT, REST_SPOT_COMPONENT, WATER_SOURCE_COMPONENT,
};
use crate::lease::{
    CharterFlashEvent, ChunkId, IntentModel, LeaseHandle, LeaseIntent, LeaseModel, SpatialLease,
};
use crate::movement::ActionState;
use crate::pawn::{Quest, QuestBoard, QuestStatus};
use crate::watchguard::{write_backed, writes_view, FrameWriteLog, FrameWriteModel};

verus! {

/// A consumable resource in the world: its entity, where it lies and what is left.
#[derive(Clone, Copy, Debug, PartialEq, Eq, Structural)]
pub struct ResourceSlot {
    pub entity: EntityId,
    pub chunk: ChunkId,
    pub portions: u32,
}

/// What one run of an eat, drink or rest action decided for one actor; the caller
/// applies it to the world.
#[derive(Clone, Copy, Debug, PartialEq, Eq, Structural)]
pub struct ActionEffects {
    /// The action's next state.
    pub state: ActionState,
    /// A movement target to give the pawn (the resource lies elsewhere).
    pub movement_target: Option<ChunkId>,
    /// A lease granted to the pawn, to be held as its active lease.
    pub granted: Option<LeaseHandle>,
    /// Whether the pawn's active lease was released and is to be dropped.
    pub lease_cleared: bool,
    /// A charter flash to show on a chunk.
    pub flash: Option<CharterFlashEvent>,
    /// The resource a portion was taken from.
    pub consumed_from: Option<EntityId>,
    /// A resource that ran out and is to be despawned.
    pub depleted: Option<EntityId>,
    /// Whether a quest the pawn was providing was completed.
    pub quest_completed: bool,
    /// Whether the lease request was denied.
    pub lease_denied: bool,
    /// Whether the pawn recovered fatigue this run (rest only).
    pub rested: bool,
}

/// Effects that change nothing but the state.
pub open spec fn only_state(state: ActionState) -> ActionEffects {
    ActionEffects {
        state,
        movement_target: None,
        granted: None,
        lease_cleared: false,
        flash: None,
        consumed_from: None,
        depleted: None,
        quest_completed: false,
        lease_denied: false,
        rested: false,
    }
}

/// The first stocked resource (portions > 0) from position `i` on, or the length when none is.
pub open spec fn first_stocked_from(s: Seq<ResourceSlot>, i: int) -> int
    decreases s.len() - i,
{
    if i < 0 || i >= s.len() || s[i].portions > 0 {
        i
    } else {
        first_stocked_from(s, i + 1)
    }
}

/// The first resource on chunk `c` from position `i` on, or the length when none is.
pub open spec fn first_on_chunk_from(s: Seq<ResourceSlot>, c: ChunkId, i: int) -> int
    decreases s.len() - i,
{
    if i < 0 || i >= s.len() || s[i].chunk == c {
        i
    } else {
        first_on_chunk_from(s, c, i + 1)
    }
}

proof fn lemma_first_stocked(s: Seq<ResourceSlot>, i: int)
    requires
        0 <= i <= s.len(),
    ensures
        i <= first_stocked_from(s, i) <= s.len(),
        first_stocked_from(s, i) < s.len() ==> s[first_stocked_from(s, i)].portions > 0,
    decreases s.len() - i,
{
    if i < s.len() && s[i].portions == 0 {
        lemma_first_stocked(s, i + 1);
    }
}

proof fn lemma_first_on_chunk(s: Seq<ResourceSlot>, c: ChunkId, i: int)
    requires
        0 <= i <= s.len(),
    ensures
        i <= first_on_chunk_from(s, c, i) <= s.len(),
        first_on_chunk_from(s, c, i) < s.len() ==> s[first_on_chunk_from(s, c, i)].chunk == c,
    decreases s.len() - i,
{
    if i < s.len() && s[i].chunk != c {
        lemma_first_on_chunk(s, c, i + 1);
    }
}

/// The single-chunk lease an action asks for: a write or a read of one component.
pub open spec fn action_lease(chunk: ChunkId, component: ComponentId, write: bool, seq: u64) -> LeaseModel {
    LeaseModel {
        primary: chunk,
        fringe: Seq::empty(),
        intent: if write {
            IntentModel { reads: Seq::empty(), writes: seq![component] }
        } else {
            IntentModel { reads: seq![component], writes: Seq::empty() }
        },
        granted_at_causal_seq: seq,
    }
}

/// The lease held under handle number `h`, if any.
pub open spec fn held_lease(active: Seq<ActiveModel>, h: u64) -> Option<LeaseModel> {
    if holds_handle(active, h) {
        Some(active[choose|k: int| 0 <= k < active.len() && #[trigger] active[k].handle == h].lease)
    } else {
        None
    }
}

/// The quest board after `provider` completes its quest for `need` at `chunk`, and
/// whether there was such a quest.
pub open spec fn board_after_completion(qs: Seq<Quest>, provider: EntityId, need: Seq<char>, chunk: ChunkId) -> (Seq<Quest>, bool) {
    let k = first_in_progress_from(qs, provider, need, chunk, 0);
    if k < qs.len() {
        (qs.update(k, Quest { status: QuestStatus::Completed, ..qs[k] }), true)
    } else {
        (qs, false)
    }
}

/// What asking for an action's lease on `chunk` does, given the charter before (`c0`,
/// `i0`) and after (`c1`, `i1`), the queue before and after, and the dirty set before
/// and after: granted leases start the action executing; denied ones flash the
/// contested chunk, mark the pawn dirty and queue a lease-denied event due now.
pub open spec fn lease_request_outcome(
    actor: EntityId,
    chunk: ChunkId,
    component: ComponentId,
    write: bool,
    seq: u64,
    c0: Seq<ActiveModel>,
    i0: u64,
    c1: Seq<ActiveModel>,
    i1: u64,
    q0: Seq<CausalEvent>,
    q1: Seq<CausalEvent>,
    d0: Set<u64>,
    d1: Set<u64>,
    r: ActionEffects,
) -> bool {
    let req = action_lease(chunk, component, write, seq);
    if unblocked(c0, req) {
        &&& r.granted matches Some(h) && h.raw() == i0
        &&& r == ActionEffects {
            state: ActionState::Executing,
            granted: r.granted,
            flash: Some(CharterFlashEvent { chunk, granted: true }),
            ..only_state(ActionState::Executing)
        }
        &&& c1 == c0.push(ActiveModel { handle: i0, lease: req })
        &&& i1 == i0 + 1
        &&& q1 == q0
        &&& d1 == d0
    } else {
        &&& r == ActionEffects {
            flash: Some(CharterFlashEvent { chunk: first_conflict(c0, req).unwrap().0, granted: false }),
            lease_denied: true,
            ..only_state(ActionState::Requested)
        }
        &&& c1 == c0
        &&& i1 == i0
        &&& q1 == q0.insert(
            due_count(q0, seq),
            CausalEvent {
                kind: CausalEventKind::LeaseDenied { entity: actor, chunk, component },
                origin: chunk,
                deliver_at_causal_seq: seq,
            },
        )
        &&& d1 == d0.insert(actor.0)
    }
}

fn request_action_lease(
    actor: EntityId,
    chunk: ChunkId,
    component: ComponentId,
    write: bool,
    charter: &mut SpatialCharter,
    event_queue: &mut CausalEventQueue,
    evaluation_state: &mut DispatcherEvaluationState,
    current_seq: u64,
) -> (r: ActionEffects)
    requires
        old(charter).wf(),
        old(charter).handles_issued() < u64::MAX,
        current_seq <= u64::MAX - 5,
        old(event_queue).wf(),
    ensures
        final(charter).wf(),
        final(event_queue).wf(),
        lease_request_outcome(
            actor,
            chunk,
            component,
            write,
            current_seq,
            old(charter)@,
            old(charter).handles_issued(),
            final(charter)@,
            final(charter).handles_issued(),
            old(event_queue)@,
            final(event_queue)@,
            old(evaluation_state).dirty_entities@,
            final(evaluation_state).dirty_entities@,
            r,
        ),
        final(evaluation_state).dirty_all == old(evaluation_state).dirty_all,
        final(evaluation_state).last_evaluation_tick == old(evaluation_state).last_evaluation_tick,
        final(evaluation_state).last_region_signature == old(evaluation_state).last_region_signature,
{
    let mut reads: Vec<ComponentId> = Vec::new();
    let mut writes: Vec<ComponentId> = Vec::new();
    if write {
        writes.push(component);
    } else {
        reads.push(component);
    }
    let request = SpatialLease {
        primary: chunk,
        fringe: Vec::new(),
        intent: LeaseIntent { reads, writes },
        granted_at_causal_seq: current_seq,
    };
    assert(request@ == action_lease(chunk, component, write, current_seq)) by {
        assert(request@.fringe =~= Seq::<ChunkId>::empty());
        assert(request@.intent.reads =~= action_lease(chunk, component, write, current_seq).intent.reads);
        assert(request@.intent.writes =~= action_lease(chunk, component, write, current_seq).intent.writes);
    }
    let ghost req = request@;
    match charter.request_lease(request, current_seq) {
        Ok(handle) => {
            ActionEffects {
                state: ActionState::Executing,
                granted: Some(handle),
                flash: Some(CharterFlashEvent { chunk, granted: true }),
                movement_target: None,
                lease_cleared: false,
                consumed_from: None,
                depleted: None,
                quest_completed: false,
                lease_denied: false,
                rested: false,
            }
        },
        Err(denial) => {
            match denial {
                crate::lease::CharterDenial::ChunkConflict { contested, .. } => {
                    let flash = if contested.len() > 0 {
                        Some(CharterFlashEvent { chunk: contested[0], granted: false })
                    } else {
                        None
                    };
                    evaluation_state.mark_dirty(actor);
                    event_queue.push_at(
                        CausalEventKind::LeaseDenied { entity: actor, chunk, component },
                        chunk,
                        current_seq,
                    );
                    ActionEffects {
                        state: ActionState::Requested,
                        granted: None,
                        flash,
                        movement_target: None,
                        lease_cleared: false,
                        consumed_from: None,
                        depleted: None,
                        quest_completed: false,
                        lease_denied: true,
                        rested: false,
                    }
                },
                crate::lease::CharterDenial::IntentConflict { .. } => only_state_exec(ActionState::Requested),
            }
        },
    }
}

fn only_state_exec(state: ActionState) -> (r: ActionEffects)
    ensures
        r == only_state(state),
{
    ActionEffects {
        state,
        movement_target: None,
        granted: None,
        lease_cleared: false,
        flash: None,
        consumed_from: None,
        depleted: None,
        quest_completed: false,
        lease_denied: false,
        rested: false,
    }
}


/// What one run of an eat or drink action does for one actor, relating the resources,
/// charter (leases and handles issued), frame log, event queue, quest board and dirty
/// set before (`0`) and after (`1`) the run:
/// - Requested: the first stocked resource is the goal; with none the action fails;
///   off its chunk the pawn is sent there and the action fails (to be re-evaluated);
///   on it, a write lease on the resource's component is requested.
/// - Executing with a lease: the first resource on the pawn's chunk loses a portion
///   (if it has one), completing the pawn's quest for `need` there; the write is
///   logged with the lease snapshot, the lease is released and the action succeeds.
///   With no resource on the chunk the lease is released and the action fails.
/// - Executing without a lease fails; Cancelled releases any lease and fails;
///   other states are left as they are.
pub open spec fn consume_outcome(
    need: Seq<char>,
    component: ComponentId,
    actor: EntityId,
    state: ActionState,
    pawn_chunk: ChunkId,
    lease: Option<LeaseHandle>,
    seq: u64,
    f0: Seq<ResourceSlot>,
    f1: Seq<ResourceSlot>,
    c0: Seq<ActiveModel>,
    i0: u64,
    c1: Seq<ActiveModel>,
    i1: u64,
    l0: Seq<FrameWriteModel>,
    l1: Seq<FrameWriteModel>,
    q0: Seq<CausalEvent>,
    q1: Seq<CausalEvent>,
    b0: Seq<Quest>,
    b1: Seq<Quest>,
    d0: Set<u64>,
    d1: Set<u64>,
    r: ActionEffects,
) -> bool {
    match state {
        ActionState::Requested => {
            let k = first_stocked_from(f0, 0);
            &&& f1 == f0
            &&& l1 == l0
            &&& b1 == b0
            &&& if k >= f0.len() {
                r == only_state(ActionState::Failure) && c1 == c0 && i1 == i0 && q1 == q0 && d1 == d0
            } else if f0[k].chunk != pawn_chunk {
                &&& r == ActionEffects { movement_target: Some(f0[k].chunk), ..only_state(ActionState::Failure) }
                &&& c1 == c0 && i1 == i0 && q1 == q0 && d1 == d0
            } else {
                lease_request_outcome(actor, f0[k].chunk, component, true, seq, c0, i0, c1, i1, q0, q1, d0, d1, r)
            }
        },
        ActionState::Executing => {
            &&& q1 == q0
            &&& d1 == d0
            &&& i1 == i0
            &&& match lease {
                None => r == only_state(ActionState::Failure) && f1 == f0 && c1 == c0 && l1 == l0 && b1 == b0,
                Some(h) => {
                    let k = first_on_chunk_from(f0, pawn_chunk, 0);
                    &&& c1 == released(c0, h.raw())
                    &&& if k >= f0.len() {
                        &&& r == ActionEffects { lease_cleared: true, ..only_state(ActionState::Failure) }
                        &&& f1 == f0 && l1 == l0 && b1 == b0
                    } else {
                        let slot = f0[k];
                        &&& l1 == l0.push(
                            FrameWriteModel {
                                actor,
                                chunk: slot.chunk,
                                component,
                                lease_snapshot: held_lease(c0, h.raw()),
                            },
                        )
                        &&& if slot.portions > 0 {
                            let left = (slot.portions - 1) as u32;
                            let completion = board_after_completion(b0, actor, need, pawn_chunk);
                            &&& f1 == f0.update(k, ResourceSlot { portions: left, ..slot })
                            &&& b1 == completion.0
                            &&& r == ActionEffects {
                                lease_cleared: true,
                                consumed_from: Some(slot.entity),
                                depleted: if left == 0 { Some(slot.entity) } else { None },
                                quest_completed: completion.1,
                                ..only_state(ActionState::Success)
                            }
                        } else {
                            &&& f1 == f0 && b1 == b0
                            &&& r == ActionEffects { lease_cleared: true, ..only_state(ActionState::Success) }
                        }
                    }
                },
            }
        },
        ActionState::Cancelled => {
            &&& f1 == f0 && l1 == l0 && b1 == b0 && q1 == q0 && d1 == d0 && i1 == i0
            &&& match lease {
                None => c1 == c0 && r == only_state(ActionState::Failure),
                Some(h) => c1 == released(c0, h.raw()) && r == ActionEffects {
                    lease_cleared: true,
                    ..only_state(ActionState::Failure)
                },
            }
        },
        _ => {
            &&& r == only_state(state)
            &&& f1 == f0 && c1 == c0 && i1 == i0 && l1 == l0 && q1 == q0 && b1 == b0 && d1 == d0
        },
    }
}

fn first_stocked(resources: &Vec<ResourceSlot>) -> (k: usize)
    ensures
        k == first_stocked_from(resources@, 0),
{
    proof {
        lemma_first_stocked(resources@, 0);
    }
    let mut i: usize = 0;
    while i < resources.len() && resources[i].portions == 0
        invariant
            i <= resources@.len(),
            first_stocked_from(resources@, 0) == first_stocked_from(resources@, i as int),
        decreases resources.len() - i,
    {
        i += 1;
    }
    i
}

fn first_on_chunk(resources: &Vec<ResourceSlot>, chunk: ChunkId) -> (k: usize)
    ensures
        k == first_on_chunk_from(resources@, chunk, 0),
{
    let mut i: usize = 0;
    while i < resources.len() && resources[i].chunk != chunk
        invariant
            i <= resources@.len(),
            first_on_chunk_from(resources@, chunk, 0) == first_on_chunk_from(resources@, chunk, i as int),
        decreases resources.len() - i,
    {
        i += 1;
    }
    i
}

fn lease_snapshot(charter: &SpatialCharter, handle: LeaseHandle) -> (r: Option<SpatialLease>)
    requires
        charter.wf(),
    ensures
        match r {
            Some(l) => held_lease(charter@, handle.raw()) == Some(l@),
            None => held_lease(charter@, handle.raw()) is None,
        },
{
    proof {
        charter.lemma_handles_unique();
    }
    match charter.get_lease(handle) {
        Some(l) => {
            let copy = l.duplicate();
            proof {
                let k = choose|k: int| 0 <= k < charter@.len() && #[trigger] charter@[k].handle == handle.raw() && l@ == charter@[k].lease;
                assert(holds_handle(charter@, handle.raw()));
                let j = choose|j: int| 0 <= j < charter@.len() && #[trigger] charter@[j].handle == handle.raw();
                if j != k {
                    assert(charter@[j].handle != charter@[k].handle);
                }
            }
            Some(copy)
        },
        None => None,
    }
}

fn consume_action_step(
    need: &str,
    component: ComponentId,
    actor: EntityId,
    state: ActionState,
    pawn_chunk: ChunkId,
    lease: Option<LeaseHandle>,
    resources: &mut Vec<ResourceSlot>,
    charter: &mut SpatialCharter,
    frame_log: &mut FrameWriteLog,
    event_queue: &mut CausalEventQueue,
    quest_board: &mut QuestBoard,
    evaluation_state: &mut DispatcherEvaluationState,
    current_seq: u64,
) -> (r: ActionEffects)
    requires
        old(charter).wf(),
        old(charter).handles_issued() < u64::MAX,
        current_seq <= u64::MAX - 5,
        old(event_queue).wf(),
    ensures
        final(charter).wf(),
        final(event_queue).wf(),
        consume_outcome(
            need@,
            component,
            actor,
            state,
            pawn_chunk,
            lease,
            current_seq,
            old(resources)@,
            final(resources)@,
            old(charter)@,
            old(charter).handles_issued(),
            final(charter)@,
            final(charter).handles_issued(),
            writes_view(old(frame_log).entries@),
            writes_view(final(frame_log).entries@),
            old(event_queue)@,
            final(event_queue)@,
            old(quest_board).active_quests@,
            final(quest_board).active_quests@,
            old(evaluation_state).dirty_entities@,
            final(evaluation_state).dirty_entities@,
            r,
        ),
        final(evaluation_state).dirty_all == old(evaluation_state).dirty_all,
        final(evaluation_state).last_evaluation_tick == old(evaluation_state).last_evaluation_tick,
        final(evaluation_state).last_region_signature == old(evaluation_state).last_region_signature,
{
    match state {
        ActionState::Requested => {
            // Goal-directed: the first resource that still has portions.
            let k = first_stocked(resources);
            if k >= resources.len() {
                return only_state_exec(ActionState::Failure);
            }
            let target = resources[k].chunk;
            if target != pawn_chunk {
                // Not on the resource's chunk: move there and re-evaluate.
                let mut r = only_state_exec(ActionState::Failure);
                r.movement_target = Some(target);
                return r;
            }
            request_action_lease(actor, target, component, true, charter, event_queue, evaluation_state, current_seq)
        },
        ActionState::Executing => {
            match lease {
                None => only_state_exec(ActionState::Failure),
                Some(handle) => {
                    let k = first_on_chunk(resources, pawn_chunk);
                    if k >= resources.len() {
                        // The resource disappeared.
                        charter.release_lease(handle);
                        let mut r = only_state_exec(ActionState::Failure);
                        r.lease_cleared = true;
                        return r;
                    }
                    let slot = resources[k];
                    let mut r = only_state_exec(ActionState::Success);
                    r.lease_cleared = true;
                    let ghost b0 = quest_board.active_quests@;
                    if slot.portions > 0 {
                        let left = slot.portions - 1;
                        resources.set(k, ResourceSlot { entity: slot.entity, chunk: slot.chunk, portions: left });
                        r.consumed_from = Some(slot.entity);
                        r.quest_completed = complete_quest_for_action(quest_board, actor, need, pawn_chunk);
                        if left == 0 {
                            r.depleted = Some(slot.entity);
                        }
                    }
                    let snapshot = lease_snapshot(charter, handle);
                    let ghost l0 = frame_log.entries@;
                    frame_log.log(actor, slot.chunk, component, snapshot);
                    assert(writes_view(frame_log.entries@) =~= writes_view(l0).push(
                        frame_log.entries@[frame_log.entries@.len() - 1]@,
                    ));
                    charter.release_lease(handle);
                    r
                },
            }
        },
        ActionState::Cancelled => {
            let mut r = only_state_exec(ActionState::Failure);
            match lease {
                Some(handle) => {
                    charter.release_lease(handle);
                    r.lease_cleared = true;
                },
                None => {},
            }
            r
        },
        _ => only_state_exec(state),
    }
}

/// One run of the eat action for one actor over the food reservations
/// (see `consume_outcome`; need "food", writing the food-reservation component).
pub fn eat_action_step(
    actor: EntityId,
    state: ActionState,
    pawn_chunk: ChunkId,
    lease: Option<LeaseHandle>,
    food: &mut Vec<ResourceSlot>,
    charter: &mut SpatialCharter,
    frame_log: &mut FrameWriteLog,
    event_queue: &mut CausalEventQueue,
    quest_board: &mut QuestBoard,
    evaluation_state: &mut DispatcherEvaluationState,
    current_seq: u64,
) -> (r: ActionEffects)
    requires
        old(charter).wf(),
        old(charter).handles_issued() < u64::MAX,
        current_seq <= u64::MAX - 5,
        old(event_queue).wf(),
    ensures
        final(charter).wf(),
        final(event_queue).wf(),
        consume_outcome(
            "food"@,
            ComponentId(FOOD_RESERVATION_COMPONENT),
            actor,
            state,
            pawn_chunk,
            lease,
            current_seq,
            old(food)@,
            final(food)@,
            old(charter)@,
            old(charter).handles_issued(),
            final(charter)@,
            final(charter).handles_issued(),
            writes_view(old(frame_log).entries@),
            writes_view(final(frame_log).entries@),
            old(event_queue)@,
            final(event_queue)@,
            old(quest_board).active_quests@,
            final(quest_board).active_quests@,
            old(evaluation_state).dirty_entities@,
            final(evaluation_state).dirty_entities@,
            r,
        ),
        final(evaluation_state).dirty_all == old(evaluation_state).dirty_all,
        final(evaluation_state).last_evaluation_tick == old(evaluation_state).last_evaluation_tick,
        final(evaluation_state).last_region_signature == old(evaluation_state).last_region_signature,
{
    consume_action_step(
        "food",
        ComponentId(FOOD_RESERVATION_COMPONENT),
        actor,
        state,
        pawn_chunk,
        lease,
        food,
        charter,
        frame_log,
        event_queue,
        quest_board,
        evaluation_state,
        current_seq,
    )
}

/// One run of the drink action for one actor over the water sources
/// (see `consume_outcome`; need "water", writing the water-source component).
pub fn drink_action_step(
    actor: EntityId,
    state: ActionState,
    pawn_chunk: ChunkId,
    lease: Option<LeaseHandle>,
    water: &mut Vec<ResourceSlot>,
    charter: &mut SpatialCharter,
    frame_log: &mut FrameWriteLog,
    event_queue: &mut CausalEventQueue,
    quest_board: &mut QuestBoard,
    evaluation_state: &mut DispatcherEvaluationState,
    current_seq: u64,
) -> (r: ActionEffects)
    requires
        old(charter).wf(),
        old(charter).handles_issued() < u64::MAX,
        current_seq <= u64::MAX - 5,
        old(event_queue).wf(),
    ensures
        final(charter).wf(),
        final(event_queue).wf(),
        consume_outcome(
            "water"@,
            ComponentId(WATER_SOURCE_COMPONENT),
            actor,
            state,
            pawn_chunk,
            lease,
            current_seq,
            old(water)@,
            final(water)@,
            old(charter)@,
            old(charter).handles_issued(),
            final(charter)@,
            final(charter).handles_issued(),
            writes_view(old(frame_log).entries@),
            writes_view(final(frame_log).entries@),
            old(event_queue)@,
            final(event_queue)@,
            old(quest_board).active_quests@,
            final(quest_board).active_quests@,
            old(evaluation_state).dirty_entities@,
            final(evaluation_state).dirty_entities@,
            r,
        ),
        final(evaluation_state).dirty_all == old(evaluation_state).dirty_all,
        final(evaluation_state).last_evaluation_tick == old(evaluation_state).last_evaluation_tick,
        final(evaluation_state).last_region_signature == old(evaluation_state).last_region_signature,
{
    consume_action_step(
        "water",
        ComponentId(WATER_SOURCE_COMPONENT),
        actor,
        state,
        pawn_chunk,
        lease,
        water,
        charter,
        frame_log,
        event_queue,
        quest_board,
        evaluation_state,
        current_seq,
    )
}

/// What one run of the rest action does for one actor, relating charter, event queue,
/// quest board and dirty set before (`0`) and after (`1`) the run:
/// - Requested: the first rest spot is the goal; with none the action fails; off its
///   chunk the pawn is sent there and the action fails; on it, a read lease on the
///   rest-spot component is requested.
/// - Executing with a lease: the pawn recovers; once `rested_enough` (its fatigue,
///   after this run's recovery, reached the target) the pawn's rest quest on its chunk
///   is completed, the lease is released and the action succeeds.
/// - Executing without a lease fails; Cancelled releases any lease and fails;
///   other states are left as they are.
pub open spec fn rest_outcome(
    actor: EntityId,
    state: ActionState,
    pawn_chunk: ChunkId,
    lease: Option<LeaseHandle>,
    rested_enough: bool,
    seq: u64,
    spots: Seq<ChunkId>,
    c0: Seq<ActiveModel>,
    i0: u64,
    c1: Seq<ActiveModel>,
    i1: u64,
    q0: Seq<CausalEvent>,
    q1: Seq<CausalEvent>,
    b0: Seq<Quest>,
    b1: Seq<Quest>,
    d0: Set<u64>,
    d1: Set<u64>,
    r: ActionEffects,
) -> bool {
    match state {
        ActionState::Requested => {
            &&& b1 == b0
            &&& if spots.len() == 0 {
                r == only_state(ActionState::Failure) && c1 == c0 && i1 == i0 && q1 == q0 && d1 == d0
            } else if spots[0] != pawn_chunk {
                &&& r == ActionEffects { movement_target: Some(spots[0]), ..only_state(ActionState::Failure) }
                &&& c1 == c0 && i1 == i0 && q1 == q0 && d1 == d0
            } else {
                lease_request_outcome(actor, spots[0], ComponentId(REST_SPOT_COMPONENT), false, seq, c0, i0, c1, i1, q0, q1, d0, d1, r)
            }
        },
        ActionState::Executing => {
            &&& q1 == q0
            &&& d1 == d0
            &&& i1 == i0
            &&& match lease {
                None => r == only_state(ActionState::Failure) && c1 == c0 && b1 == b0,
                Some(h) => if rested_enough {
                    let completion = board_after_completion(b0, actor, "rest"@, pawn_chunk);
                    &&& c1 == released(c0, h.raw())
                    &&& b1 == completion.0
                    &&& r == ActionEffects {
                        rested: true,
                        lease_cleared: true,
                        quest_completed: completion.1,
                        ..only_state(ActionState::Success)
                    }
                } else {
                    &&& c1 == c0 && b1 == b0
                    &&& r == ActionEffects { rested: true, ..only_state(ActionState::Executing) }
                },
            }
        },
        ActionState::Cancelled => {
            &&& b1 == b0 && q1 == q0 && d1 == d0 && i1 == i0
            &&& match lease {
                None => c1 == c0 && r == only_state(ActionState::Failure),
                Some(h) => c1 == released(c0, h.raw()) && r == ActionEffects {
                    lease_cleared: true,
                    ..only_state(ActionState::Failure)
                },
            }
        },
        _ => {
            &&& r == only_state(state)
            &&& c1 == c0 && i1 == i0 && q1 == q0 && b1 == b0 && d1 == d0
        },
    }
}

/// One run of the rest action for one actor (see `rest_outcome`). `rest_spots` are
/// the chunks of the rest spots in the world; `rested_enough` says whether the pawn's
/// fatigue, after the recovery this run applies while executing, reached the target.
pub fn rest_action_step(
    actor: EntityId,
    state: ActionState,
    pawn_chunk: ChunkId,
    lease: Option<LeaseHandle>,
    rested_enough: bool,
    rest_spots: &Vec<ChunkId>,
    charter: &mut SpatialCharter,
    event_queue: &mut CausalEventQueue,
    quest_board: &mut QuestBoard,
    evaluation_state: &mut DispatcherEvaluationState,
    current_seq: u64,
) -> (r: ActionEffects)
    requires
        old(charter).wf(),
        old(charter).handles_issued() < u64::MAX,
        current_seq <= u64::MAX - 5,
        old(event_queue).wf(),
    ensures
        final(charter).wf(),
        final(event_queue).wf(),
        rest_outcome(
            actor,
            state,
            pawn_chunk,
            lease,
            rested_enough,
            current_seq,
            rest_spots@,
            old(charter)@,
            old(charter).handles_issued(),
            final(charter)@,
            final(charter).handles_issued(),
            old(event_queue)@,
            final(event_queue)@,
            old(quest_board).active_quests@,
            final(quest_board).active_quests@,
            old(evaluation_state).dirty_entities@,
            final(evaluation_state).dirty_entities@,
            r,
        ),
        final(evaluation_state).dirty_all == old(evaluation_state).dirty_all,
        final(evaluation_state).last_evaluation_tick == old(evaluation_state).last_evaluation_tick,
        final(evaluation_state).last_region_signature == old(evaluation_state).last_region_signature,
{
    match state {
        ActionState::Requested => {
            if rest_spots.len() == 0 {
                return only_state_exec(ActionState::Failure);
            }
            let spot = rest_spots[0];
            if spot != pawn_chunk {
                let mut r = only_state_exec(ActionState::Failure);
                r.movement_target = Some(spot);
                return r;
            }
            request_action_lease(
                actor,
                spot,
                ComponentId(REST_SPOT_COMPONENT),
                false,
                charter,
                event_queue,
                evaluation_state,
                current_seq,
            )
        },
        ActionState::Executing => {
            match lease {
                None => only_state_exec(ActionState::Failure),
                Some(handle) => {
                    let mut r = only_state_exec(ActionState::Executing);
                    r.rested = true;
                    if rested_enough {
                        r.quest_completed = complete_quest_for_action(quest_board, actor, "rest", pawn_chunk);
                        charter.release_lease(handle);
                        r.lease_cleared = true;
                        r.state = ActionState::Success;
                    }
                    r
                },
            }
        },
        ActionState::Cancelled => {
            let mut r = only_state_exec(ActionState::Failure);
            match lease {
                Some(handle) => {
                    charter.release_lease(handle);
                    r.lease_cleared = true;
                },
                None => {},
            }
            r
        },
        _ => only_state_exec(state),
    }
}


/// Writes done under an action's own lease pass the watchguard: a consumption logged
/// on the chunk a write lease was taken for, for that lease's component, with that
/// lease as its snapshot, is backed.
pub proof fn lemma_action_write_is_backed(actor: EntityId, chunk: ChunkId, component: ComponentId, seq: u64)
    ensures
        write_backed(
            FrameWriteModel {
                actor,
                chunk,
                component,
                lease_snapshot: Some(action_lease(chunk, component, true, seq)),
            },
        ),
{
    assert(action_lease(chunk, component, true, seq).intent.writes[0] == component);
}


/// No write without a lease: an eat or drink run takes a portion only while executing
/// with a lease, and it then releases that lease and logs the write under its snapshot.
pub proof fn lemma_consumption_needs_lease(
    need: Seq<char>,
    component: ComponentId,
    actor: EntityId,
    state: ActionState,
    pawn_chunk: ChunkId,
    lease: Option<LeaseHandle>,
    seq: u64,
    f0: Seq<ResourceSlot>,
    f1: Seq<ResourceSlot>,
    c0: Seq<ActiveModel>,
    i0: u64,
    c1: Seq<ActiveModel>,
    i1: u64,
    l0: Seq<FrameWriteModel>,
    l1: Seq<FrameWriteModel>,
    q0: Seq<CausalEvent>,
    q1: Seq<CausalEvent>,
    b0: Seq<Quest>,
    b1: Seq<Quest>,
    d0: Set<u64>,
    d1: Set<u64>,
    r: ActionEffects,
)
    requires
        consume_outcome(
            need, component, actor, state, pawn_chunk, lease, seq, f0, f1, c0, i0, c1, i1, l0, l1, q0, q1, b0, b1, d0, d1, r,
        ),
    ensures
        (r.consumed_from is Some || f1 != f0) ==> {
            &&& state == ActionState::Executing
            &&& lease matches Some(h) && c1 == released(c0, h.raw()) && l1.len() == l0.len() + 1
                && l1.last().lease_snapshot == held_lease(c0, h.raw()) && l1.last().component == component
            &&& r.lease_cleared
        },
{
}


/// No lease in transit: an eat or drink request by a pawn that is not on the chunk of
/// the first stocked resource sends the pawn there and fails, touching neither the
/// charter, the resources, the queue, the board nor the dirty marks.
pub proof fn lemma_transit_requests_no_lease(
    need: Seq<char>,
    component: ComponentId,
    actor: EntityId,
    pawn_chunk: ChunkId,
    lease: Option<LeaseHandle>,
    seq: u64,
    f0: Seq<ResourceSlot>,
    f1: Seq<ResourceSlot>,
    c0: Seq<ActiveModel>,
    i0: u64,
    c1: Seq<ActiveModel>,
    i1: u64,
    l0: Seq<FrameWriteModel>,
    l1: Seq<FrameWriteModel>,
    q0: Seq<CausalEvent>,
    q1: Seq<CausalEvent>,
    b0: Seq<Quest>,
    b1: Seq<Quest>,
    d0: Set<u64>,
    d1: Set<u64>,
    r: ActionEffects,
)
    requires
        consume_outcome(
            need, component, actor, ActionState::Requested, pawn_chunk, lease, seq, f0, f1, c0, i0, c1, i1, l0, l1, q0, q1, b0, b1, d0, d1, r,
        ),
        first_stocked_from(f0, 0) < f0.len(),
        f0[first_stocked_from(f0, 0)].chunk != pawn_chunk,
    ensures
        r == (ActionEffects {
            movement_target: Some(f0[first_stocked_from(f0, 0)].chunk),
            ..only_state(ActionState::Failure)
        }),
        c1 == c0,
        i1 == i0,
        f1 == f0,
        l1 == l0,
        q1 == q0,
        b1 == b0,
        d1 == d0,
{
}

/// A refused consumption takes nothing: when a pawn on the resource's chunk is denied
/// the write lease, the action stays requested with no lease and no portion taken; the
/// denial is flashed on that chunk, queued as a lease-denied event due now, and the
/// pawn is marked dirty.
pub proof fn lemma_refused_consumption_takes_nothing(
    need: Seq<char>,
    component: ComponentId,
    actor: EntityId,
    pawn_chunk: ChunkId,
    lease: Option<LeaseHandle>,
    seq: u64,
    f0: Seq<ResourceSlot>,
    f1: Seq<ResourceSlot>,
    c0: Seq<ActiveModel>,
    i0: u64,
    c1: Seq<ActiveModel>,
    i1: u64,
    l0: Seq<FrameWriteModel>,
    l1: Seq<FrameWriteModel>,
    q0: Seq<CausalEvent>,
    q1: Seq<CausalEvent>,
    b0: Seq<Quest>,
    b1: Seq<Quest>,
    d0: Set<u64>,
    d1: Set<u64>,
    r: ActionEffects,
)
    requires
        consume_outcome(
            need, component, actor, ActionState::Requested, pawn_chunk, lease, seq, f0, f1, c0, i0, c1, i1, l0, l1, q0, q1, b0, b1, d0, d1, r,
        ),
        first_stocked_from(f0, 0) < f0.len(),
        f0[first_stocked_from(f0, 0)].chunk == pawn_chunk,
        !unblocked(c0, action_lease(pawn_chunk, component, true, seq)),
    ensures
        r == (ActionEffects {
            flash: Some(CharterFlashEvent { chunk: pawn_chunk, granted: false }),
            lease_denied: true,
            ..only_state(ActionState::Requested)
        }),
        c1 == c0,
        i1 == i0,
        f1 == f0,
        l1 == l0,
        b1 == b0,
        q1 == q0.insert(
            due_count(q0, seq),
            CausalEvent {
                kind: CausalEventKind::LeaseDenied { entity: actor, chunk: pawn_chunk, component },
                origin: pawn_chunk,
                deliver_at_causal_seq: seq,
            },
        ),
        d1 == d0.insert(actor.0),
{
    let req = action_lease(pawn_chunk, component, true, seq);
    lemma_first_conflict_none_iff_unblocked(c0, req);
    let chunks = crate::lease::lease_chunks(req);
    assert(chunks =~= seq![pawn_chunk]);
    assert(crate::charter::first_conflict_from(c0, chunks, req.intent, 1) is None);
    assert(first_conflict(c0, req) == crate::charter::first_conflict_from(c0, chunks, req.intent, 0));
    assert(first_conflict(c0, req).unwrap().0 == pawn_chunk);
}

} // verus!
