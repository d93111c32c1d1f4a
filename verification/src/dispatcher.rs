use vstd::prelude::*;
use vstd::string::StringExecFns;
use crate::ai::DispatcherEvaluationState;
use crate::causal::{delivery_sorted, due_count, lemma_due_event_is_drained, lemma_due_prefix, propagation_delay, CausalEvent, CausalEventKind, CausalEventQueue, DriveType};
use crate::entity::EntityId;
use crate::actions::ResourceSlot;
use crate::lease::ChunkId;
use crate::pawn::{learn_recipe, KnownRecipes, Quest, QuestBoard, QuestStatus, RecipeId};

verus! {

/// Causal steps between heartbeat pulses (drive decay runs every this many ticks).
pub const HEARTBEAT_INTERVAL: u64 = 10;

/// Propagation speed constant: chunks per causal step.
pub const C: u64 = 8;

/// Whether the heartbeat pulses at causal step `seq`.
pub fn heartbeat_due(seq: u64) -> (r: bool)
    ensures
        r == (seq % HEARTBEAT_INTERVAL == 0),
{
    seq % HEARTBEAT_INTERVAL == 0
}

/// The event the heartbeat emits when `entity`'s `drive` falls below its threshold at
/// step `seq` in `chunk`: deliverable in that chunk after the propagation delay from
/// the chunk to itself, i.e. at once.
pub fn threshold_crossed_event(entity: EntityId, drive: DriveType, chunk: ChunkId, seq: u64) -> (e: CausalEvent)
    ensures
        e == (CausalEvent {
            kind: CausalEventKind::DriveThresholdCrossed { entity, drive },
            origin: chunk,
            deliver_at_causal_seq: seq,
        }),
{
    let delay = propagation_delay(&chunk, &chunk, C);
    assert(delay == 0);
    CausalEvent {
        kind: CausalEventKind::DriveThresholdCrossed { entity, drive },
        origin: chunk,
        deliver_at_causal_seq: seq + delay,
    }
}

/// The need a drive posts on the quest board when it crosses its threshold.
pub open spec fn drive_need(drive: DriveType) -> Option<Seq<char>> {
    match drive {
        DriveType::Hunger => Some("food"@),
        DriveType::Thirst => Some("water"@),
        DriveType::Fatigue => Some("rest"@),
        DriveType::Curiosity => None,
    }
}

fn drive_need_str(drive: DriveType) -> (r: Option<&'static str>)
    ensures
        match (r, drive_need(drive)) {
            (Some(s), Some(n)) => s@ == n,
            (None, None) => true,
            _ => false,
        },
{
    match drive {
        DriveType::Hunger => Some("food"),
        DriveType::Thirst => Some("water"),
        DriveType::Fatigue => Some("rest"),
        DriveType::Curiosity => None,
    }
}

/// What dispatching one causal event did.
#[derive(Clone, Copy, Debug, PartialEq, Eq, Structural)]
pub enum DispatchOutcome {
    /// A drive crossed its threshold: a need was posted for the pawn, whose drive is
    /// to be pulled down so it is re-scored soon.
    NeedPosted { entity: EntityId, drive: DriveType },
    /// A threshold event for a pawn that no longer exists, or for a drive that posts
    /// no need.
    Ignored,
    LeaseDenied { entity: EntityId, chunk: ChunkId },
    LeaseReleased { chunk: ChunkId },
    ResourceDepleted { chunk: ChunkId },
    /// Pawn `to` learned `recipe`, taught by `from`. A taught recipe that its pawn
    /// already knew, or that reached no listed pawn, is `Ignored`.
    RecipeLearned { recipe: RecipeId, from: EntityId, to: EntityId },
}

/// What the listed pawns know: each pawn with its recipes.
pub open spec fn learners_view(learners: Seq<(EntityId, KnownRecipes)>) -> Seq<(EntityId, Seq<RecipeId>)> {
    learners.map_values(|p: (EntityId, KnownRecipes)| (p.0, p.1@))
}

/// The position of the first entry for pawn `e`, from position `i` on.
pub open spec fn learner_index_from(ls: Seq<(EntityId, Seq<RecipeId>)>, e: EntityId, i: int) -> Option<int>
    decreases ls.len() - i,
{
    if i < 0 || i >= ls.len() {
        None
    } else if ls[i].0 == e {
        Some(i)
    } else {
        learner_index_from(ls, e, i + 1)
    }
}

/// Whether delivering `event` teaches a listed pawn a recipe it did not know.
pub open spec fn learns(ls: Seq<(EntityId, Seq<RecipeId>)>, event: CausalEvent) -> bool {
    &&& event.kind matches CausalEventKind::DiscoveryPropagated { recipe, to, .. }
    &&& learner_index_from(ls, to, 0) matches Some(i) && !ls[i].1.contains(recipe)
}

/// What the listed pawns know after `event` is delivered: a taught recipe is added to
/// what the first entry for its pawn knows.
pub open spec fn apply_discovery(ls: Seq<(EntityId, Seq<RecipeId>)>, event: CausalEvent) -> Seq<
    (EntityId, Seq<RecipeId>),
> {
    match event.kind {
        CausalEventKind::DiscoveryPropagated { recipe, to, .. } => match learner_index_from(ls, to, 0) {
            Some(i) => ls.update(i, (to, learn_recipe(ls[i].1, recipe))),
            None => ls,
        },
        _ => ls,
    }
}

/// What the listed pawns know after `evs` are delivered in order.
pub open spec fn learners_after(ls: Seq<(EntityId, Seq<RecipeId>)>, evs: Seq<CausalEvent>) -> Seq<
    (EntityId, Seq<RecipeId>),
>
    decreases evs.len(),
{
    if evs.len() == 0 {
        ls
    } else {
        apply_discovery(learners_after(ls, evs.drop_last()), evs.last())
    }
}

proof fn lemma_learner_index_found(ls: Seq<(EntityId, Seq<RecipeId>)>, e: EntityId, j: int)
    ensures
        learner_index_from(ls, e, j) matches Some(i) ==> j <= i < ls.len() && ls[i].0 == e,
    decreases ls.len() - j,
{
    if 0 <= j < ls.len() && ls[j].0 != e {
        lemma_learner_index_found(ls, e, j + 1);
    }
}

proof fn lemma_apply_discovery_grows(ls: Seq<(EntityId, Seq<RecipeId>)>, event: CausalEvent)
    ensures
        apply_discovery(ls, event).len() == ls.len(),
        forall|j: int| 0 <= j < ls.len() ==> #[trigger] apply_discovery(ls, event)[j].0 == ls[j].0,
        forall|j: int, r: RecipeId|
            0 <= j < ls.len() && ls[j].1.contains(r) ==> #[trigger] apply_discovery(ls, event)[j].1.contains(r),
{
    if let CausalEventKind::DiscoveryPropagated { recipe, to, .. } = event.kind {
        lemma_learner_index_found(ls, to, 0);
        if let Some(i) = learner_index_from(ls, to, 0) {
            let out = apply_discovery(ls, event);
            assert forall|j: int, r: RecipeId| 0 <= j < ls.len() && ls[j].1.contains(r) implies #[trigger] out[j].1.contains(
                r,
            ) by {
                if j == i && !ls[i].1.contains(recipe) {
                    let k = choose|k: int| 0 <= k < ls[j].1.len() && ls[j].1[k] == r;
                    assert(out[j].1[k] == r);
                }
            }
        }
    }
}

/// Delivering taught recipes keeps every listed pawn in its place and every recipe it
/// knew.
pub proof fn lemma_learners_after_grows(ls: Seq<(EntityId, Seq<RecipeId>)>, evs: Seq<CausalEvent>)
    ensures
        learners_after(ls, evs).len() == ls.len(),
        forall|j: int| 0 <= j < ls.len() ==> #[trigger] learners_after(ls, evs)[j].0 == ls[j].0,
        forall|j: int, r: RecipeId|
            0 <= j < ls.len() && ls[j].1.contains(r) ==> #[trigger] learners_after(ls, evs)[j].1.contains(r),
    decreases evs.len(),
{
    if evs.len() > 0 {
        let prev = learners_after(ls, evs.drop_last());
        lemma_learners_after_grows(ls, evs.drop_last());
        lemma_apply_discovery_grows(prev, evs.last());
        assert forall|j: int, r: RecipeId| 0 <= j < ls.len() && ls[j].1.contains(r) implies #[trigger] learners_after(
            ls,
            evs,
        )[j].1.contains(r) by {
            assert(prev[j].1.contains(r));
        }
    }
}

proof fn lemma_same_pawns_same_index(
    a: Seq<(EntityId, Seq<RecipeId>)>,
    b: Seq<(EntityId, Seq<RecipeId>)>,
    e: EntityId,
    j: int,
)
    requires
        a.len() == b.len(),
        forall|k: int| 0 <= k < a.len() ==> #[trigger] a[k].0 == b[k].0,
    ensures
        learner_index_from(a, e, j) == learner_index_from(b, e, j),
    decreases a.len() - j,
{
    if 0 <= j < a.len() {
        assert(a[j].0 == b[j].0);
        lemma_same_pawns_same_index(a, b, e, j + 1);
    }
}

/// A taught recipe sticks: once the teaching of `recipe` to a listed pawn is among the
/// delivered events, that pawn knows `recipe` afterwards, whatever else was delivered.
pub proof fn lemma_taught_recipe_known(ls: Seq<(EntityId, Seq<RecipeId>)>, evs: Seq<CausalEvent>, k: int)
    requires
        0 <= k < evs.len(),
    ensures
        evs[k].kind matches CausalEventKind::DiscoveryPropagated { recipe, to, .. } ==> (learner_index_from(
            ls,
            to,
            0,
        ) matches Some(l) ==> learners_after(ls, evs)[l].1.contains(recipe)),
    decreases evs.len(),
{
    if let CausalEventKind::DiscoveryPropagated { recipe, to, .. } = evs[k].kind {
        if let Some(l) = learner_index_from(ls, to, 0) {
            lemma_learner_index_found(ls, to, 0);
            let prev = learners_after(ls, evs.drop_last());
            lemma_learners_after_grows(ls, evs.drop_last());
            lemma_apply_discovery_grows(prev, evs.last());
            if k == evs.len() - 1 {
                lemma_same_pawns_same_index(ls, prev, to, 0);
                let out = apply_discovery(prev, evs.last());
                assert(out[l].1 == learn_recipe(prev[l].1, recipe));
                if !prev[l].1.contains(recipe) {
                    assert(out[l].1[prev[l].1.len() as int] == recipe);
                }
            } else {
                assert(evs.drop_last()[k] == evs[k]);
                lemma_taught_recipe_known(ls, evs.drop_last(), k);
            }
        }
    }
}

/// Whether `event` posts a need: a threshold crossing of a living pawn for a drive
/// that has a need.
pub open spec fn posts_need(event: CausalEvent, pawn_chunk: Option<ChunkId>) -> bool {
    &&& event.kind matches CausalEventKind::DriveThresholdCrossed { drive, .. }
    &&& pawn_chunk is Some
    &&& drive_need(drive) is Some
}

/// What dispatching `event` reports, given the chunk of the pawn it names (if that
/// pawn exists) and what the listed pawns know.
pub open spec fn event_outcome(
    event: CausalEvent,
    pawn_chunk: Option<ChunkId>,
    ls: Seq<(EntityId, Seq<RecipeId>)>,
) -> DispatchOutcome {
    match event.kind {
        CausalEventKind::DriveThresholdCrossed { entity, drive } => if pawn_chunk is Some && drive_need(drive) is Some {
            DispatchOutcome::NeedPosted { entity, drive }
        } else {
            DispatchOutcome::Ignored
        },
        CausalEventKind::LeaseDenied { entity, chunk, .. } => DispatchOutcome::LeaseDenied { entity, chunk },
        CausalEventKind::LeaseReleased { chunk, .. } => DispatchOutcome::LeaseReleased { chunk },
        CausalEventKind::ResourceDepleted { chunk } => DispatchOutcome::ResourceDepleted { chunk },
        CausalEventKind::DiscoveryPropagated { recipe, from, to } => if learns(ls, event) {
            DispatchOutcome::RecipeLearned { recipe, from, to }
        } else {
            DispatchOutcome::Ignored
        },
    }
}

fn learner_lookup(learners: &Vec<(EntityId, KnownRecipes)>, e: EntityId) -> (r: Option<usize>)
    ensures
        match r {
            Some(i) => learner_index_from(learners_view(learners@), e, 0) == Some(i as int),
            None => learner_index_from(learners_view(learners@), e, 0) is None,
        },
{
    let ghost lv = learners_view(learners@);
    let mut i: usize = 0;
    while i < learners.len()
        invariant
            i <= learners@.len(),
            lv == learners_view(learners@),
            lv.len() == learners@.len(),
            learner_index_from(lv, e, 0) == learner_index_from(lv, e, i as int),
        decreases learners.len() - i,
    {
        assert(lv[i as int].0 == learners@[i as int].0);
        if learners[i].0 == e {
            return Some(i);
        }
        i += 1;
    }
    None
}

/// Delivers a taught recipe to the first entry for its pawn; returns whether that pawn
/// learned something new.
fn deliver_discovery(learners: &mut Vec<(EntityId, KnownRecipes)>, recipe: RecipeId, to: EntityId) -> (fresh: bool)
    ensures
        ({
            let ls = learners_view(old(learners)@);
            &&& learners_view(final(learners)@) == match learner_index_from(ls, to, 0) {
                Some(i) => ls.update(i, (to, learn_recipe(ls[i].1, recipe))),
                None => ls,
            }
            &&& fresh == (learner_index_from(ls, to, 0) matches Some(i) && !ls[i].1.contains(recipe))
        }),
{
    let ghost ls = learners_view(learners@);
    proof {
        lemma_learner_index_found(ls, to, 0);
    }
    match learner_lookup(learners, to) {
        Some(i) => {
            let ghost before = learners@;
            let mut entry = learners.remove(i);
            assert(entry == before[i as int]);
            let fresh = entry.1.insert(recipe);
            learners.insert(i, entry);
            assert(learners@ =~= before.update(i as int, entry));
            assert(learners_view(learners@) =~= ls.update(i as int, (to, learn_recipe(ls[i as int].1, recipe))));
            fresh
        },
        None => false,
    }
}

/// Applies one delivered causal event. `pawn_chunk` is the chunk of the event's pawn
/// when the event names one that still exists.
/// A threshold crossing marks everything (and the pawn) dirty and, for a living pawn
/// and a drive with a need, posts an open quest for that need at the pawn's chunk;
/// a lease denial marks the pawn dirty; a taught recipe is added to what its pawn
/// (the first entry for it in `learners`) knows; the other events change nothing here.
pub fn dispatch_causal_event(
    event: CausalEvent,
    pawn_chunk: Option<ChunkId>,
    quest_board: &mut QuestBoard,
    evaluation_state: &mut DispatcherEvaluationState,
    learners: &mut Vec<(EntityId, KnownRecipes)>,
) -> (r: DispatchOutcome)
    ensures
        r == event_outcome(event, pawn_chunk, learners_view(old(learners)@)),
        learners_view(final(learners)@) == apply_discovery(learners_view(old(learners)@), event),
        final(evaluation_state).last_evaluation_tick == old(evaluation_state).last_evaluation_tick,
        final(evaluation_state).last_region_signature == old(evaluation_state).last_region_signature,
        match event.kind {
            CausalEventKind::DriveThresholdCrossed { entity, drive } => {
                &&& final(evaluation_state).dirty_all
                &&& final(evaluation_state).dirty_entities@ == old(evaluation_state).dirty_entities@.insert(entity.0)
                &&& match (pawn_chunk, drive_need(drive)) {
                    (Some(chunk), Some(need)) => {
                        &&& r == DispatchOutcome::NeedPosted { entity, drive }
                        &&& final(quest_board).active_quests@.len() == old(quest_board).active_quests@.len() + 1
                        &&& final(quest_board).active_quests@.drop_last() == old(quest_board).active_quests@
                        &&& final(quest_board).active_quests@.last().need@ == need
                        &&& final(quest_board).active_quests@.last().requester == entity
                        &&& final(quest_board).active_quests@.last().chunk == chunk
                        &&& final(quest_board).active_quests@.last().provider is None
                        &&& final(quest_board).active_quests@.last().status == QuestStatus::Open
                    },
                    _ => r == DispatchOutcome::Ignored && final(quest_board).active_quests@ == old(
                        quest_board,
                    ).active_quests@,
                }
            },
            CausalEventKind::LeaseDenied { entity, chunk, .. } => {
                &&& r == DispatchOutcome::LeaseDenied { entity, chunk }
                &&& final(evaluation_state).dirty_entities@ == old(evaluation_state).dirty_entities@.insert(entity.0)
                &&& final(evaluation_state).dirty_all == old(evaluation_state).dirty_all
                &&& final(quest_board).active_quests@ == old(quest_board).active_quests@
            },
            CausalEventKind::LeaseReleased { chunk, .. } => {
                &&& r == DispatchOutcome::LeaseReleased { chunk }
                &&& final(evaluation_state).dirty_entities == old(evaluation_state).dirty_entities
                &&& final(evaluation_state).dirty_all == old(evaluation_state).dirty_all
                &&& final(quest_board).active_quests@ == old(quest_board).active_quests@
            },
            CausalEventKind::ResourceDepleted { chunk } => {
                &&& r == DispatchOutcome::ResourceDepleted { chunk }
                &&& final(evaluation_state).dirty_entities == old(evaluation_state).dirty_entities
                &&& final(evaluation_state).dirty_all == old(evaluation_state).dirty_all
                &&& final(quest_board).active_quests@ == old(quest_board).active_quests@
            },
            CausalEventKind::DiscoveryPropagated { .. } => {
                &&& final(evaluation_state).dirty_entities == old(evaluation_state).dirty_entities
                &&& final(evaluation_state).dirty_all == old(evaluation_state).dirty_all
                &&& final(quest_board).active_quests@ == old(quest_board).active_quests@
            },
        },
{
    match event.kind {
        CausalEventKind::DriveThresholdCrossed { entity, drive } => {
            evaluation_state.mark_all_dirty();
            evaluation_state.mark_dirty(entity);
            match pawn_chunk {
                Some(chunk) => match drive_need_str(drive) {
                    Some(need) => {
                        let ghost before = quest_board.active_quests@;
                        quest_board.active_quests.push(
                            Quest {
                                need: String::from_str(need),
                                requester: entity,
                                chunk,
                                provider: None,
                                status: QuestStatus::Open,
                            },
                        );
                        assert(quest_board.active_quests@.drop_last() =~= before);
                        DispatchOutcome::NeedPosted { entity, drive }
                    },
                    None => DispatchOutcome::Ignored,
                },
                None => DispatchOutcome::Ignored,
            }
        },
        CausalEventKind::LeaseDenied { entity, chunk, .. } => {
            evaluation_state.mark_dirty(entity);
            DispatchOutcome::LeaseDenied { entity, chunk }
        },
        CausalEventKind::LeaseReleased { chunk, .. } => DispatchOutcome::LeaseReleased { chunk },
        CausalEventKind::ResourceDepleted { chunk } => DispatchOutcome::ResourceDepleted { chunk },
        CausalEventKind::DiscoveryPropagated { recipe, from, to } => {
            if deliver_discovery(learners, recipe, to) {
                DispatchOutcome::RecipeLearned { recipe, from, to }
            } else {
                DispatchOutcome::Ignored
            }
        },
    }
}


/// The portions of the resources lying on `chunk`, from position `i` on.
pub open spec fn portions_on(rs: Seq<ResourceSlot>, chunk: ChunkId, i: int) -> int
    decreases rs.len() - i,
{
    if i < 0 || i >= rs.len() {
        0
    } else {
        (if rs[i].chunk == chunk { rs[i].portions as int } else { 0 }) + portions_on(rs, chunk, i + 1)
    }
}

proof fn lemma_portions_on_bounded(rs: Seq<ResourceSlot>, chunk: ChunkId, i: int)
    requires
        0 <= i <= rs.len(),
    ensures
        0 <= portions_on(rs, chunk, i) <= (rs.len() - i) * (u32::MAX as int),
    decreases rs.len() - i,
{
    if i < rs.len() {
        lemma_portions_on_bounded(rs, chunk, i + 1);
    }
}

/// The total portions of the resources lying on `chunk`.
pub fn chunk_portions(resources: &Vec<ResourceSlot>, chunk: ChunkId) -> (total: u64)
    requires
        resources@.len() <= u32::MAX,
    ensures
        total == portions_on(resources@, chunk, 0),
{
    let mut total: u64 = 0;
    let mut i: usize = resources.len();
    proof {
        lemma_portions_on_bounded(resources@, chunk, 0);
    }
    while i > 0
        invariant
            i <= resources@.len(),
            resources@.len() <= u32::MAX,
            total == portions_on(resources@, chunk, i as int),
        decreases i,
    {
        i -= 1;
        proof {
            lemma_portions_on_bounded(resources@, chunk, i as int);
            assert((resources@.len() - i) * (u32::MAX as int) <= (u32::MAX as int) * (u32::MAX as int)) by (nonlinear_arith)
                requires
                    resources@.len() - i <= u32::MAX,
                    resources@.len() - i >= 0,
            ;
        }
        if resources[i].chunk == chunk {
            total = total + resources[i].portions as u64;
        }
    }
    total
}

/// A pawn's charter-region signature: its chunk, the food and water portions on it,
/// and the quantized hypergraph clustering and causal volume there, packed in bit
/// fields (x in bits 0..10, y from 10, food from 20, water from 30, clustering from
/// 40, causal volume from 51; each count keeps its low bits).
pub open spec fn region_signature_spec(chunk: ChunkId, food: u64, water: u64, clustering_q: u64, causal_q: u64) -> u64 {
    (chunk.0 as u64) | ((chunk.1 as u64) << 10u64) | ((food & 0x3ffu64) << 20u64) | ((water & 0x3ffu64)
        << 30u64) | ((clustering_q & 0x7ffu64) << 40u64) | ((causal_q & 0x1fffu64) << 51u64)
}

/// The region signature of a pawn standing on `chunk` (see `region_signature_spec`).
pub fn region_signature(chunk: ChunkId, food: u64, water: u64, clustering_q: u64, causal_q: u64) -> (s: u64)
    ensures
        s == region_signature_spec(chunk, food, water, clustering_q, causal_q),
{
    (chunk.0 as u64) | ((chunk.1 as u64) << 10u64) | ((food & 0x3ffu64) << 20u64) | ((water & 0x3ffu64)
        << 30u64) | ((clustering_q & 0x7ffu64) << 40u64) | ((causal_q & 0x1fffu64) << 51u64)
}

/// On the chunk grid a region signature tells the chunk apart: pawns on different
/// chunks never share a signature, so moving to another chunk always re-dirties a pawn.
pub proof fn lemma_signature_identifies_chunk(
    a: ChunkId,
    b: ChunkId,
    fa: u64,
    wa: u64,
    ca: u64,
    va: u64,
    fb: u64,
    wb: u64,
    cb: u64,
    vb: u64,
)
    requires
        a.0 < 1024,
        a.1 < 1024,
        b.0 < 1024,
        b.1 < 1024,
        region_signature_spec(a, fa, wa, ca, va) == region_signature_spec(b, fb, wb, cb, vb),
    ensures
        a == b,
{
    let (ax, ay, bx, by) = (a.0 as u64, a.1 as u64, b.0 as u64, b.1 as u64);
    let sa = region_signature_spec(a, fa, wa, ca, va);
    let sb = region_signature_spec(b, fb, wb, cb, vb);
    assert(sa & 0x3ffu64 == ax && (sa >> 10u64) & 0x3ffu64 == ay) by (bit_vector)
        requires
            ax < 1024,
            ay < 1024,
            sa == ax | (ay << 10u64) | ((fa & 0x3ffu64) << 20u64) | ((wa & 0x3ffu64) << 30u64) | ((ca
                & 0x7ffu64) << 40u64) | ((va & 0x1fffu64) << 51u64),
    ;
    assert(sb & 0x3ffu64 == bx && (sb >> 10u64) & 0x3ffu64 == by) by (bit_vector)
        requires
            bx < 1024,
            by < 1024,
            sb == bx | (by << 10u64) | ((fb & 0x3ffu64) << 20u64) | ((wb & 0x3ffu64) << 30u64) | ((cb
                & 0x7ffu64) << 40u64) | ((vb & 0x1fffu64) << 51u64),
    ;
}


/// The chunk of the first pawn numbered `e` in `pawns`, from position `i` on.
pub open spec fn chunk_of_from(pawns: Seq<(EntityId, ChunkId)>, e: EntityId, i: int) -> Option<ChunkId>
    decreases pawns.len() - i,
{
    if i < 0 || i >= pawns.len() {
        None
    } else if pawns[i].0 == e {
        Some(pawns[i].1)
    } else {
        chunk_of_from(pawns, e, i + 1)
    }
}

/// The chunk of the living pawn an event names, for threshold crossings.
pub open spec fn event_pawn_chunk(event: CausalEvent, pawns: Seq<(EntityId, ChunkId)>) -> Option<ChunkId> {
    match event.kind {
        CausalEventKind::DriveThresholdCrossed { entity, .. } => chunk_of_from(pawns, entity, 0),
        _ => None,
    }
}

/// The events, in order, that post a need on the board.
pub open spec fn posting_events(evs: Seq<CausalEvent>, pawns: Seq<(EntityId, ChunkId)>) -> Seq<CausalEvent>
    decreases evs.len(),
{
    if evs.len() == 0 {
        Seq::empty()
    } else {
        let rest = posting_events(evs.drop_last(), pawns);
        if posts_need(evs.last(), event_pawn_chunk(evs.last(), pawns)) {
            rest.push(evs.last())
        } else {
            rest
        }
    }
}

/// Whether `q` is the quest that posting event `ev` puts on the board: an open quest,
/// with no provider, for the drive's need, asked by the pawn at its chunk.
pub open spec fn quest_posted_by(q: Quest, ev: CausalEvent, pawns: Seq<(EntityId, ChunkId)>) -> bool {
    match ev.kind {
        CausalEventKind::DriveThresholdCrossed { entity, drive } => {
            &&& drive_need(drive) matches Some(need) && q.need@ == need
            &&& q.requester == entity
            &&& event_pawn_chunk(ev, pawns) == Some(q.chunk)
            &&& q.provider is None
            &&& q.status == QuestStatus::Open
        },
        _ => false,
    }
}

/// The pawns (by number) that dispatching `evs` marks dirty: those named by threshold
/// crossings and by lease denials.
pub open spec fn dirtied_by(evs: Seq<CausalEvent>) -> Set<u64>
    decreases evs.len(),
{
    if evs.len() == 0 {
        Set::empty()
    } else {
        let rest = dirtied_by(evs.drop_last());
        match evs.last().kind {
            CausalEventKind::DriveThresholdCrossed { entity, .. } => rest.insert(entity.0),
            CausalEventKind::LeaseDenied { entity, .. } => rest.insert(entity.0),
            _ => rest,
        }
    }
}

/// Whether some event of `evs` is a threshold crossing (which marks every pawn dirty).
pub open spec fn crosses_threshold(evs: Seq<CausalEvent>) -> bool {
    exists|i: int| 0 <= i < evs.len() && #[trigger] evs[i].kind is DriveThresholdCrossed
}

fn pawn_chunk_lookup(pawns: &Vec<(EntityId, ChunkId)>, e: EntityId) -> (r: Option<ChunkId>)
    ensures
        r == chunk_of_from(pawns@, e, 0),
{
    let mut i: usize = 0;
    while i < pawns.len()
        invariant
            i <= pawns@.len(),
            chunk_of_from(pawns@, e, 0) == chunk_of_from(pawns@, e, i as int),
        decreases pawns.len() - i,
    {
        if pawns[i].0 == e {
            return Some(pawns[i].1);
        }
        i += 1;
    }
    None
}

/// Delivers every event due at `current_seq`, earliest first, and dispatches each
/// (`pawns` lists the living pawns with their chunks): returns one outcome per
/// delivered event, in delivery order; the needs they post are appended to the board
/// in that order; the pawns they name are marked dirty, and every pawn is when a
/// threshold was crossed; taught recipes are added, in delivery order, to what their
/// pawns (listed in `learners`) know. No event due at `current_seq` stays queued, every
/// due threshold crossing of a living pawn leaves its need, at that pawn's chunk, on
/// the board, and every due teaching of a listed pawn leaves it knowing the recipe.
pub fn dispatch_ready_events(
    current_seq: u64,
    event_queue: &mut CausalEventQueue,
    quest_board: &mut QuestBoard,
    pawns: &Vec<(EntityId, ChunkId)>,
    evaluation_state: &mut DispatcherEvaluationState,
    learners: &mut Vec<(EntityId, KnownRecipes)>,
) -> (outcomes: Vec<DispatchOutcome>)
    requires
        old(event_queue).wf(),
    ensures
        ({
            let ready = old(event_queue)@.take(due_count(old(event_queue)@, current_seq));
            let posts = posting_events(ready, pawns@);
            let b0 = old(quest_board).active_quests@;
            let b1 = final(quest_board).active_quests@;
            let ls0 = learners_view(old(learners)@);
            let ls1 = learners_view(final(learners)@);
            &&& final(event_queue).wf()
            &&& final(event_queue)@ == old(event_queue)@.skip(due_count(old(event_queue)@, current_seq))
            &&& forall|k: int|
                0 <= k < final(event_queue)@.len() ==> #[trigger] final(event_queue)@[k].deliver_at_causal_seq
                    > current_seq
            &&& forall|k: int| 0 <= k < ready.len() ==> #[trigger] ready[k].deliver_at_causal_seq <= current_seq
            &&& delivery_sorted(ready)
            &&& outcomes@.len() == ready.len()
            &&& forall|i: int|
                0 <= i < ready.len() ==> #[trigger] outcomes@[i] == event_outcome(
                    ready[i],
                    event_pawn_chunk(ready[i], pawns@),
                    learners_after(ls0, ready.take(i)),
                )
            &&& ls1 == learners_after(ls0, ready)
            &&& b1.len() == b0.len() + posts.len()
            &&& b1.subrange(0, b0.len() as int) == b0
            &&& forall|j: int| 0 <= j < posts.len() ==> quest_posted_by(#[trigger] b1[b0.len() + j], posts[j], pawns@)
            &&& forall|k: int|
                0 <= k < old(event_queue)@.len() && old(event_queue)@[k].deliver_at_causal_seq <= current_seq
                    && #[trigger] posts_need(old(event_queue)@[k], event_pawn_chunk(old(event_queue)@[k], pawns@))
                    ==> exists|j: int|
                    b0.len() <= j < b1.len() && quest_posted_by(#[trigger] b1[j], old(event_queue)@[k], pawns@)
            &&& forall|k: int|
                0 <= k < old(event_queue)@.len() && old(event_queue)@[k].deliver_at_causal_seq <= current_seq
                    ==> (#[trigger] old(event_queue)@[k].kind matches CausalEventKind::DiscoveryPropagated { recipe, to, .. }
                    ==> (learner_index_from(ls0, to, 0) matches Some(l) ==> ls1[l].1.contains(recipe)))
            &&& final(evaluation_state).dirty_entities@ == old(evaluation_state).dirty_entities@.union(dirtied_by(ready))
            &&& final(evaluation_state).dirty_all == (old(evaluation_state).dirty_all || crosses_threshold(ready))
            &&& final(evaluation_state).last_evaluation_tick == old(evaluation_state).last_evaluation_tick
            &&& final(evaluation_state).last_region_signature == old(evaluation_state).last_region_signature
        }),
{
    let ready = event_queue.drain_ready(current_seq);
    let ghost b0 = quest_board.active_quests@;
    let ghost d0 = evaluation_state.dirty_entities@;
    let ghost a0 = evaluation_state.dirty_all;
    let ghost ls0 = learners_view(learners@);
    let mut outcomes: Vec<DispatchOutcome> = Vec::new();
    let mut i: usize = 0;
    assert(ready@.take(0) =~= Seq::<CausalEvent>::empty());
    while i < ready.len()
        invariant
            i <= ready@.len(),
            b0 == old(quest_board).active_quests@,
            d0 == old(evaluation_state).dirty_entities@,
            a0 == old(evaluation_state).dirty_all,
            outcomes@.len() == i,
            ls0 == learners_view(old(learners)@),
            learners_view(learners@) == learners_after(ls0, ready@.take(i as int)),
            forall|k: int|
                0 <= k < i ==> #[trigger] outcomes@[k] == event_outcome(
                    ready@[k],
                    event_pawn_chunk(ready@[k], pawns@),
                    learners_after(ls0, ready@.take(k)),
                ),
            quest_board.active_quests@.len() == b0.len() + posting_events(ready@.take(i as int), pawns@).len(),
            quest_board.active_quests@.subrange(0, b0.len() as int) == b0,
            forall|j: int|
                0 <= j < posting_events(ready@.take(i as int), pawns@).len() ==> quest_posted_by(
                    #[trigger] quest_board.active_quests@[b0.len() + j],
                    posting_events(ready@.take(i as int), pawns@)[j],
                    pawns@,
                ),
            evaluation_state.dirty_entities@ == d0.union(dirtied_by(ready@.take(i as int))),
            evaluation_state.dirty_all == (a0 || crosses_threshold(ready@.take(i as int))),
            evaluation_state.last_evaluation_tick == old(evaluation_state).last_evaluation_tick,
            evaluation_state.last_region_signature == old(evaluation_state).last_region_signature,
        decreases ready.len() - i,
    {
        let event = ready[i];
        let pawn_chunk = match event.kind {
            CausalEventKind::DriveThresholdCrossed { entity, .. } => pawn_chunk_lookup(pawns, entity),
            _ => None,
        };
        assert(pawn_chunk == event_pawn_chunk(event, pawns@));
        let ghost pre = ready@.take(i as int);
        let ghost post = ready@.take(i + 1);
        let ghost board_before = quest_board.active_quests@;
        let ghost dirty_before = evaluation_state.dirty_entities@;
        assert(post.drop_last() =~= pre);
        assert(post.last() == event);
        let outcome = dispatch_causal_event(event, pawn_chunk, quest_board, evaluation_state, learners);
        outcomes.push(outcome);
        proof {
            assert(learners_view(learners@) == learners_after(ls0, post));
            let posts_pre = posting_events(pre, pawns@);
            let posts_post = posting_events(post, pawns@);
            let b1 = quest_board.active_quests@;
            if posts_need(event, pawn_chunk) {
                assert(posts_post == posts_pre.push(event));
                assert(b1.drop_last() == board_before);
                assert(b1.subrange(0, b0.len() as int) =~= board_before.subrange(0, b0.len() as int));
                assert forall|j: int| 0 <= j < posts_post.len() implies quest_posted_by(
                    #[trigger] b1[b0.len() + j],
                    posts_post[j],
                    pawns@,
                ) by {
                    if j < posts_pre.len() {
                        assert(b1[b0.len() + j] == board_before[b0.len() + j]);
                    }
                }
            } else {
                assert(posts_post == posts_pre);
            }
            assert forall|k: u64| #![auto] evaluation_state.dirty_entities@.contains(k) == d0.union(dirtied_by(post)).contains(k) by {}
            assert(evaluation_state.dirty_entities@ =~= d0.union(dirtied_by(post)));
            if event.kind is DriveThresholdCrossed {
                assert(post[i as int] == event);
                assert(crosses_threshold(post));
            } else {
                assert(crosses_threshold(post) == crosses_threshold(pre)) by {
                    if crosses_threshold(post) {
                        let k = choose|k: int| 0 <= k < post.len() && #[trigger] post[k].kind is DriveThresholdCrossed;
                        assert(k < i);
                        assert(pre[k] == post[k]);
                    }
                    if crosses_threshold(pre) {
                        let k = choose|k: int| 0 <= k < pre.len() && #[trigger] pre[k].kind is DriveThresholdCrossed;
                        assert(post[k] == pre[k]);
                    }
                }
            }
        }
        i += 1;
    }
    assert(ready@.take(ready@.len() as int) =~= ready@);
    proof {
        let q0 = old(event_queue)@;
        let b1 = quest_board.active_quests@;
        let posts = posting_events(ready@, pawns@);
        old(event_queue).lemma_sorted();
        lemma_due_prefix(q0, current_seq);
        assert forall|k: int|
            0 <= k < q0.len() && q0[k].deliver_at_causal_seq <= current_seq
                && #[trigger] posts_need(q0[k], event_pawn_chunk(q0[k], pawns@)) implies exists|j: int|
                b0.len() <= j < b1.len() && quest_posted_by(#[trigger] b1[j], q0[k], pawns@) by {
            lemma_due_event_is_drained(q0, k, current_seq);
            assert(ready@[k] == q0[k]);
            lemma_posting_event_listed(ready@, pawns@, k);
            let j = choose|j: int| 0 <= j < posts.len() && posts[j] == ready@[k];
            assert(quest_posted_by(b1[b0.len() + j], posts[j], pawns@));
        }
        assert forall|k: int|
            0 <= k < q0.len() && q0[k].deliver_at_causal_seq <= current_seq implies (
            #[trigger] q0[k].kind matches CausalEventKind::DiscoveryPropagated { recipe, to, .. } ==> (learner_index_from(
                ls0,
                to,
                0,
            ) matches Some(l) ==> learners_view(learners@)[l].1.contains(recipe))) by {
            lemma_due_event_is_drained(q0, k, current_seq);
            assert(ready@[k] == q0[k]);
            lemma_taught_recipe_known(ls0, ready@, k);
        }
    }
    outcomes
}


/// Every delivered event that posts a need is among the posting events, so (by
/// `dispatch_ready_events`) its quest is on the board: a due threshold crossing of a
/// living pawn posts the drive's need at that pawn's chunk.
pub proof fn lemma_posting_event_listed(evs: Seq<CausalEvent>, pawns: Seq<(EntityId, ChunkId)>, i: int)
    requires
        0 <= i < evs.len(),
        posts_need(evs[i], event_pawn_chunk(evs[i], pawns)),
    ensures
        exists|j: int| 0 <= j < posting_events(evs, pawns).len() && posting_events(evs, pawns)[j] == evs[i],
    decreases evs.len(),
{
    let rest = posting_events(evs.drop_last(), pawns);
    if i == evs.len() - 1 {
        assert(posting_events(evs, pawns) == rest.push(evs.last()));
        assert(posting_events(evs, pawns)[rest.len() as int] == evs[i]);
    } else {
        assert(evs.drop_last()[i] == evs[i]);
        lemma_posting_event_listed(evs.drop_last(), pawns, i);
        let j = choose|j: int| 0 <= j < rest.len() && rest[j] == evs[i];
        if posts_need(evs.last(), event_pawn_chunk(evs.last(), pawns)) {
            assert(posting_events(evs, pawns) == rest.push(evs.last()));
            assert(posting_events(evs, pawns)[j] == rest[j]);
        } else {
            assert(posting_events(evs, pawns) == rest);
        }
        assert(0 <= j < posting_events(evs, pawns).len() && posting_events(evs, pawns)[j] == evs[i]);
    }
}

} // verus!
