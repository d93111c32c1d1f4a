use simrard::actions::{drink_action_step, eat_action_step, rest_action_step, ResourceSlot};
use simrard::ai::{
    complete_quest_for_action, has_open_quest, need_capability, prune_completed_quests, providers_in_progress,
    ActivityLog, DispatcherEvaluationState,
};
use simrard::causal::{CausalEventKind, CausalEventQueue, DriveType};
use simrard::charter::SpatialCharter;
use simrard::dispatcher::{chunk_portions, region_signature, dispatch_ready_events, dispatch_causal_event, heartbeat_due, threshold_crossed_event, DispatchOutcome};
use simrard::entity::{ComponentId, EntityId, FOOD_RESERVATION_COMPONENT};
use simrard::lease::{ChunkId, LeaseIntent, SpatialLease};
use simrard::movement::{move_to_chunk_action_step, ActionState};
use simrard::pawn::{KnownRecipes, Quest, QuestBoard, QuestStatus, RecipeId};
use simrard::watchguard::FrameWriteLog;

#[test]
fn move_to_chunk_action_advances_one_chebyshev_step_per_run() {
    let pawn = EntityId(1);
    let mut eval = DispatcherEvaluationState::new();
    let mut position = ChunkId(0, 0);
    let mut target = Some(ChunkId(3, 0));
    let mut state = ActionState::Requested;

    let mut run = |state: &mut ActionState, position: &mut ChunkId, target: &mut Option<ChunkId>, eval: &mut DispatcherEvaluationState| {
        let pawn_view = target.map(|t| (*position, t));
        let out = move_to_chunk_action_step(pawn, *state, pawn_view, eval);
        *state = out.state;
        if let Some(p) = out.moved_to {
            *position = p;
        }
        if out.target_reached {
            *target = None;
        }
    };

    run(&mut state, &mut position, &mut target, &mut eval);
    assert_eq!(position, ChunkId(0, 0));
    assert_eq!(state, ActionState::Executing);

    run(&mut state, &mut position, &mut target, &mut eval);
    assert_eq!(position, ChunkId(1, 0));
    run(&mut state, &mut position, &mut target, &mut eval);
    assert_eq!(position, ChunkId(2, 0));
    run(&mut state, &mut position, &mut target, &mut eval);
    assert_eq!(position, ChunkId(3, 0));
    assert!(target.is_some());

    run(&mut state, &mut position, &mut target, &mut eval);
    assert!(target.is_none());
    assert_eq!(state, ActionState::Success);
    assert!(eval.dirty_entities.contains(&1));
}

#[test]
fn movement_steps_diagonally_and_stays_on_grid() {
    let mut eval = DispatcherEvaluationState::new();
    let out = move_to_chunk_action_step(EntityId(2), ActionState::Executing, Some((ChunkId(10, 10), ChunkId(7, 12))), &mut eval);
    assert_eq!(out.moved_to, Some(ChunkId(9, 11)));
    // A target beyond the grid is approached only up to its edge.
    let out = move_to_chunk_action_step(EntityId(2), ActionState::Executing, Some((ChunkId(255, 0), ChunkId(400, 0))), &mut eval);
    assert_eq!(out.moved_to, Some(ChunkId(255, 0)));
    let out = move_to_chunk_action_step(EntityId(2), ActionState::Cancelled, None, &mut eval);
    assert_eq!(out.state, ActionState::Failure);
    let out = move_to_chunk_action_step(EntityId(2), ActionState::Executing, None, &mut eval);
    assert_eq!(out.state, ActionState::Failure);
}

fn in_progress(need: &str, requester: u64, provider: u64, chunk: ChunkId) -> Quest {
    let mut q = Quest::new(need, EntityId(requester), chunk);
    q.provider = Some(EntityId(provider));
    q.status = QuestStatus::InProgress { provider: EntityId(provider) };
    q
}

#[test]
fn complete_quest_marks_first_matching_quest_only() {
    let mut board = QuestBoard::default();
    board.active_quests.push(in_progress("water", 1, 9, ChunkId(0, 0)));
    board.active_quests.push(in_progress("food", 2, 9, ChunkId(0, 0)));
    board.active_quests.push(in_progress("food", 3, 9, ChunkId(0, 0)));
    assert!(complete_quest_for_action(&mut board, EntityId(9), "food", ChunkId(0, 0)));
    assert_eq!(board.active_quests[0].status, QuestStatus::InProgress { provider: EntityId(9) });
    assert_eq!(board.active_quests[1].status, QuestStatus::Completed);
    assert_eq!(board.active_quests[2].status, QuestStatus::InProgress { provider: EntityId(9) });
    assert!(!complete_quest_for_action(&mut board, EntityId(8), "food", ChunkId(0, 0)));
    assert!(!complete_quest_for_action(&mut board, EntityId(9), "food", ChunkId(1, 0)));
}

#[test]
fn pruning_drops_completed_quests() {
    let mut board = QuestBoard::default();
    board.active_quests.push(Quest::new("food", EntityId(1), ChunkId(0, 0)));
    let mut done = in_progress("water", 2, 3, ChunkId(0, 0));
    done.status = QuestStatus::Completed;
    board.active_quests.push(done);
    board.active_quests.push(in_progress("rest", 4, 5, ChunkId(2, 2)));
    assert_eq!(prune_completed_quests(&mut board), 1);
    assert_eq!(board.active_quests.len(), 2);
    assert_eq!(board.active_quests[0].need, "food");
    assert_eq!(board.active_quests[1].need, "rest");
    assert!(has_open_quest(&board));
    assert_eq!(providers_in_progress(&board), vec![EntityId(5)]);
}

#[test]
fn needs_map_to_capabilities() {
    assert_eq!(need_capability("food"), Some("Eat"));
    assert_eq!(need_capability("water"), Some("Drink"));
    assert_eq!(need_capability("rest"), Some("Rest"));
    assert_eq!(need_capability("fire"), None);
}

#[test]
fn activity_log_keeps_last_32_lines() {
    let mut log = ActivityLog::default();
    for i in 0..40 {
        log.push(format!("line {}", i));
    }
    assert_eq!(log.0.len(), 32);
    assert_eq!(log.0.front().unwrap(), "line 8");
    assert_eq!(log.0.back().unwrap(), "line 39");
}

#[test]
fn region_signature_change_marks_dirty() {
    let mut eval = DispatcherEvaluationState::default();
    eval.observe_region_signature(EntityId(4), 77);
    assert!(eval.dirty_entities.contains(&4));
    eval.dirty_entities.clear();
    eval.observe_region_signature(EntityId(4), 77);
    assert!(!eval.dirty_entities.contains(&4));
    eval.observe_region_signature(EntityId(4), 78);
    assert!(eval.dirty_entities.contains(&4));
    eval.mark_all_dirty();
    assert!(eval.dirty_all);
}

struct World {
    charter: SpatialCharter,
    log: FrameWriteLog,
    queue: CausalEventQueue,
    board: QuestBoard,
    eval: DispatcherEvaluationState,
}

fn world() -> World {
    World {
        charter: SpatialCharter::new(),
        log: FrameWriteLog::new(),
        queue: CausalEventQueue::new(),
        board: QuestBoard::new(),
        eval: DispatcherEvaluationState::new(),
    }
}

#[test]
fn eat_action_moves_then_leases_then_consumes() {
    let mut w = world();
    let pawn = EntityId(1);
    let mut food = vec![
        ResourceSlot { entity: EntityId(50), chunk: ChunkId(3, 3), portions: 0 },
        ResourceSlot { entity: EntityId(51), chunk: ChunkId(4, 4), portions: 1 },
    ];
    // Off the food chunk: sent toward the first stocked food.
    let r = eat_action_step(pawn, ActionState::Requested, ChunkId(0, 0), None, &mut food, &mut w.charter, &mut w.log, &mut w.queue, &mut w.board, &mut w.eval, 10);
    assert_eq!(r.state, ActionState::Failure);
    assert_eq!(r.movement_target, Some(ChunkId(4, 4)));
    // On the chunk: a write lease is granted.
    let r = eat_action_step(pawn, ActionState::Requested, ChunkId(4, 4), None, &mut food, &mut w.charter, &mut w.log, &mut w.queue, &mut w.board, &mut w.eval, 10);
    assert_eq!(r.state, ActionState::Executing);
    let handle = r.granted.expect("lease granted");
    assert_eq!(w.charter.get_lease(handle).unwrap().intent.writes, vec![ComponentId(FOOD_RESERVATION_COMPONENT)]);
    // A second pawn on the chunk is denied and told so through the queue.
    let r2 = eat_action_step(EntityId(2), ActionState::Requested, ChunkId(4, 4), None, &mut food, &mut w.charter, &mut w.log, &mut w.queue, &mut w.board, &mut w.eval, 10);
    assert_eq!(r2.state, ActionState::Requested);
    assert!(r2.lease_denied);
    assert!(w.eval.dirty_entities.contains(&2));
    let denied = w.queue.drain_ready(10);
    assert_eq!(denied.len(), 1);
    assert!(matches!(denied[0].kind, CausalEventKind::LeaseDenied { entity: EntityId(2), .. }));
    // Executing: one portion eaten, the quest completed, the food depleted, the lease released.
    w.board.active_quests.push(in_progress("food", 7, 1, ChunkId(4, 4)));
    let r = eat_action_step(pawn, ActionState::Executing, ChunkId(4, 4), Some(handle), &mut food, &mut w.charter, &mut w.log, &mut w.queue, &mut w.board, &mut w.eval, 11);
    assert_eq!(r.state, ActionState::Success);
    assert_eq!(r.consumed_from, Some(EntityId(51)));
    assert_eq!(r.depleted, Some(EntityId(51)));
    assert!(r.quest_completed);
    assert!(r.lease_cleared);
    assert_eq!(food[1].portions, 0);
    assert_eq!(w.board.active_quests[0].status, QuestStatus::Completed);
    assert!(w.charter.get_lease(handle).is_none());
    assert_eq!(w.log.entries.len(), 1);
    assert!(w.log.entries[0].lease_snapshot.is_some());
}

#[test]
fn drink_action_fails_without_water_and_cancel_releases() {
    let mut w = world();
    let mut water: Vec<ResourceSlot> = vec![];
    let r = drink_action_step(EntityId(1), ActionState::Requested, ChunkId(0, 0), None, &mut water, &mut w.charter, &mut w.log, &mut w.queue, &mut w.board, &mut w.eval, 1);
    assert_eq!(r.state, ActionState::Failure);
    assert_eq!(r.movement_target, None);
    let handle = w
        .charter
        .request_lease(SpatialLease { primary: ChunkId(0, 0), fringe: vec![], intent: LeaseIntent { reads: vec![], writes: vec![ComponentId(2)] }, granted_at_causal_seq: 0 }, 0)
        .unwrap();
    let r = drink_action_step(EntityId(1), ActionState::Cancelled, ChunkId(0, 0), Some(handle), &mut water, &mut w.charter, &mut w.log, &mut w.queue, &mut w.board, &mut w.eval, 1);
    assert_eq!(r.state, ActionState::Failure);
    assert!(r.lease_cleared);
    assert_eq!(w.charter.active_count(), 0);
}

#[test]
fn rest_action_reads_the_spot_and_finishes_when_rested() {
    let mut w = world();
    let spots = vec![ChunkId(6, 6)];
    let a = rest_action_step(EntityId(1), ActionState::Requested, ChunkId(6, 6), None, false, &spots, &mut w.charter, &mut w.queue, &mut w.board, &mut w.eval, 3);
    let b = rest_action_step(EntityId(2), ActionState::Requested, ChunkId(6, 6), None, false, &spots, &mut w.charter, &mut w.queue, &mut w.board, &mut w.eval, 3);
    // Two readers share the spot.
    assert_eq!(a.state, ActionState::Executing);
    assert_eq!(b.state, ActionState::Executing);
    let h = a.granted.unwrap();
    let r = rest_action_step(EntityId(1), ActionState::Executing, ChunkId(6, 6), Some(h), false, &spots, &mut w.charter, &mut w.queue, &mut w.board, &mut w.eval, 4);
    assert_eq!(r.state, ActionState::Executing);
    assert!(r.rested);
    w.board.active_quests.push(in_progress("rest", 3, 1, ChunkId(6, 6)));
    let r = rest_action_step(EntityId(1), ActionState::Executing, ChunkId(6, 6), Some(h), true, &spots, &mut w.charter, &mut w.queue, &mut w.board, &mut w.eval, 5);
    assert_eq!(r.state, ActionState::Success);
    assert!(r.quest_completed);
    assert_eq!(w.charter.active_count(), 1);
}

#[test]
fn threshold_event_posts_need_at_pawn_chunk() {
    let mut board = QuestBoard::default();
    let mut eval = DispatcherEvaluationState::default();
    let mut learners: Vec<(EntityId, KnownRecipes)> = Vec::new();
    assert!(heartbeat_due(20));
    assert!(!heartbeat_due(21));
    let e = threshold_crossed_event(EntityId(3), DriveType::Thirst, ChunkId(2, 9), 40);
    assert_eq!(e.deliver_at_causal_seq, 40);
    let out = dispatch_causal_event(e, Some(ChunkId(2, 9)), &mut board, &mut eval, &mut learners);
    assert_eq!(out, DispatchOutcome::NeedPosted { entity: EntityId(3), drive: DriveType::Thirst });
    assert_eq!(board.active_quests.len(), 1);
    assert_eq!(board.active_quests[0].need, "water");
    assert_eq!(board.active_quests[0].chunk, ChunkId(2, 9));
    assert_eq!(board.active_quests[0].status, QuestStatus::Open);
    assert!(eval.dirty_all);
    // A dead pawn or a curiosity drive posts nothing.
    let out = dispatch_causal_event(threshold_crossed_event(EntityId(4), DriveType::Hunger, ChunkId(0, 0), 40), None, &mut board, &mut eval, &mut learners);
    assert_eq!(out, DispatchOutcome::Ignored);
    let out = dispatch_causal_event(threshold_crossed_event(EntityId(3), DriveType::Curiosity, ChunkId(0, 0), 40), Some(ChunkId(0, 0)), &mut board, &mut eval, &mut learners);
    assert_eq!(out, DispatchOutcome::Ignored);
    assert_eq!(board.active_quests.len(), 1);
}

#[test]
fn region_signature_packs_chunk_and_local_stock() {
    let food = vec![
        ResourceSlot { entity: EntityId(10), chunk: ChunkId(3, 4), portions: 5 },
        ResourceSlot { entity: EntityId(11), chunk: ChunkId(9, 9), portions: 7 },
        ResourceSlot { entity: EntityId(12), chunk: ChunkId(3, 4), portions: 2 },
    ];
    assert_eq!(chunk_portions(&food, ChunkId(3, 4)), 7);
    assert_eq!(chunk_portions(&food, ChunkId(0, 0)), 0);
    let s = region_signature(ChunkId(3, 4), 7, 1, 1024, 2);
    assert_eq!(s, 3 | (4 << 10) | (7 << 20) | (1 << 30) | (1024 << 40) | (2 << 51));
    // Counts keep their low bits only.
    assert_eq!(region_signature(ChunkId(0, 0), 0x400, 0, 0x800, 0), 0);
    assert_ne!(region_signature(ChunkId(1, 0), 0, 0, 0, 0), region_signature(ChunkId(0, 1), 0, 0, 0, 0));
}

#[test]
fn ready_events_are_dispatched_in_delivery_order() {
    let mut queue = CausalEventQueue::new();
    let mut board = QuestBoard::new();
    let mut eval = DispatcherEvaluationState::new();
    let mut learners: Vec<(EntityId, KnownRecipes)> = Vec::new();
    queue.push(threshold_crossed_event(EntityId(1), DriveType::Hunger, ChunkId(4, 4), 12));
    queue.push_at(
        CausalEventKind::LeaseDenied { entity: EntityId(2), chunk: ChunkId(7, 7), component: ComponentId(FOOD_RESERVATION_COMPONENT) },
        ChunkId(7, 7),
        10,
    );
    // Pawn 9 no longer lives: its crossing posts nothing.
    queue.push(threshold_crossed_event(EntityId(9), DriveType::Thirst, ChunkId(0, 0), 11));
    queue.push(threshold_crossed_event(EntityId(1), DriveType::Fatigue, ChunkId(4, 4), 30));
    let pawns = vec![(EntityId(1), ChunkId(5, 5)), (EntityId(2), ChunkId(7, 7))];

    let out = dispatch_ready_events(12, &mut queue, &mut board, &pawns, &mut eval, &mut learners);
    assert_eq!(
        out,
        vec![
            DispatchOutcome::LeaseDenied { entity: EntityId(2), chunk: ChunkId(7, 7) },
            DispatchOutcome::Ignored,
            DispatchOutcome::NeedPosted { entity: EntityId(1), drive: DriveType::Hunger },
        ]
    );
    // The need is posted at the pawn's current chunk.
    assert_eq!(board.active_quests.len(), 1);
    assert_eq!(board.active_quests[0].need, "food");
    assert_eq!(board.active_quests[0].requester, EntityId(1));
    assert_eq!(board.active_quests[0].chunk, ChunkId(5, 5));
    assert!(eval.dirty_all);
    assert!(eval.dirty_entities.contains(&1) && eval.dirty_entities.contains(&2) && eval.dirty_entities.contains(&9));
    assert_eq!(queue.len(), 1);
    assert!(dispatch_ready_events(29, &mut queue, &mut board, &pawns, &mut eval, &mut learners).is_empty());
    assert_eq!(dispatch_ready_events(30, &mut queue, &mut board, &pawns, &mut eval, &mut learners).len(), 1);
    assert_eq!(board.active_quests[1].need, "rest");
}

#[test]
fn taught_recipe_reaches_its_learner_once() {
    let fire = RecipeId(1);
    let mut queue = CausalEventQueue::new();
    let mut board = QuestBoard::new();
    let mut eval = DispatcherEvaluationState::new();
    let mut learners = vec![(EntityId(1), KnownRecipes::new()), (EntityId(2), KnownRecipes::new())];
    let teach = |to: u64| CausalEventKind::DiscoveryPropagated { recipe: fire, from: EntityId(1), to: EntityId(to) };
    queue.push_at(teach(2), ChunkId(0, 0), 5);
    // Taught twice: the second delivery finds the recipe known.
    queue.push_at(teach(2), ChunkId(0, 0), 6);
    // Pawn 7 is not listed: nobody learns.
    queue.push_at(teach(7), ChunkId(0, 0), 6);
    queue.push_at(teach(1), ChunkId(0, 0), 9);
    let out = dispatch_ready_events(6, &mut queue, &mut board, &vec![], &mut eval, &mut learners);
    assert_eq!(
        out,
        vec![
            DispatchOutcome::RecipeLearned { recipe: fire, from: EntityId(1), to: EntityId(2) },
            DispatchOutcome::Ignored,
            DispatchOutcome::Ignored,
        ]
    );
    assert!(learners[1].1.contains(fire));
    assert_eq!(learners[1].1.recipes, vec![fire]);
    assert!(!learners[0].1.contains(fire));
    // Teaching changes neither the board nor what is marked dirty.
    assert!(board.active_quests.is_empty());
    assert!(!eval.dirty_all && eval.dirty_entities.is_empty());
    assert_eq!(queue.len(), 1);
    let out = dispatch_causal_event(queue.drain_ready(9)[0], None, &mut board, &mut eval, &mut learners);
    assert_eq!(out, DispatchOutcome::RecipeLearned { recipe: fire, from: EntityId(1), to: EntityId(1) });
    assert!(learners[0].1.contains(fire));
}

#[test]
fn known_recipes_learn_each_recipe_once() {
    let mut known = KnownRecipes::default();
    assert!(known.insert(RecipeId(3)));
    assert!(!known.insert(RecipeId(3)));
    assert!(known.insert(RecipeId(4)));
    assert_eq!(known.recipes, vec![RecipeId(3), RecipeId(4)]);
    assert!(known.contains(RecipeId(4)) && !known.contains(RecipeId(5)));
}
