use simrard::ai::DispatcherEvaluationState;
use simrard::entity::EntityId;
use simrard::lease::ChunkId;
use simrard::pawn::{Capabilities, Quest, QuestBoard, QuestStatus};
use simrard::quests::{drop_quests_of_dead, assign_quest_providers, open_evaluation_round, EvaluationRound, ProviderCandidate};

fn quest(need: &str, requester: u64, chunk: ChunkId, status: QuestStatus) -> Quest {
    Quest { need: need.to_string(), requester: EntityId(requester), chunk, provider: None, status }
}

fn eater(e: u64) -> ProviderCandidate {
    ProviderCandidate { entity: EntityId(e), capabilities: Some(Capabilities { can_do: vec!["Eat".to_string()] }) }
}

#[test]
fn quest_acceptance_sets_in_progress_provider() {
    let requester = EntityId(1);
    let provider = EntityId(2);
    let mut board = QuestBoard::new();
    board.active_quests.push(quest("food", 1, ChunkId(0, 0), QuestStatus::Open));
    let mut eval = DispatcherEvaluationState::new();
    eval.mark_all_dirty();

    let round = open_evaluation_round(1, &mut board, &vec![requester, provider], &mut eval);
    let evaluated = match round {
        EvaluationRound::Candidates(v) => v,
        other => panic!("expected candidates, got {:?}", other),
    };
    assert_eq!(evaluated, vec![requester, provider]);

    // The requester's food drive (1 - 0.8) is under the acceptance minimum; only the
    // provider (1 - 0.1) ranks.
    let candidates = vec![eater(1), eater(2)];
    let rankings = vec![vec![provider]];
    let handed = assign_quest_providers(&mut board, &candidates, &rankings, &mut eval);

    assert_eq!(handed, vec![0]);
    assert_eq!(board.active_quests.len(), 1);
    let q = &board.active_quests[0];
    assert_eq!(q.provider, Some(provider));
    assert!(matches!(q.status, QuestStatus::InProgress { provider: p } if p == provider));
    assert!(!eval.dirty_all);
    assert!(eval.dirty_entities.is_empty());
}

#[test]
fn evaluation_round_reports_why_nobody_is_evaluated() {
    let mut board = QuestBoard::new();
    let mut eval = DispatcherEvaluationState::new();
    // Only a completed quest: it is pruned and nothing is open.
    board.active_quests.push(quest("food", 1, ChunkId(0, 0), QuestStatus::Completed));
    assert!(matches!(open_evaluation_round(5, &mut board, &vec![EntityId(1)], &mut eval), EvaluationRound::NoOpenQuest));
    assert!(board.active_quests.is_empty());

    // An open quest but nobody dirty.
    board.active_quests.push(quest("food", 1, ChunkId(0, 0), QuestStatus::Open));
    assert!(matches!(open_evaluation_round(5, &mut board, &vec![EntityId(1)], &mut eval), EvaluationRound::Clean));

    // Dirty, but already evaluated at this tick.
    eval.mark_dirty(EntityId(1));
    eval.last_evaluation_tick.insert(1, 5);
    assert!(matches!(open_evaluation_round(5, &mut board, &vec![EntityId(1)], &mut eval), EvaluationRound::NoCandidates));
    assert!(eval.dirty_entities.is_empty());

    // Dirty again at a later tick: evaluated and stamped.
    eval.mark_dirty(EntityId(1));
    match open_evaluation_round(6, &mut board, &vec![EntityId(1), EntityId(2)], &mut eval) {
        EvaluationRound::Candidates(v) => assert_eq!(v, vec![EntityId(1)]),
        other => panic!("expected candidates, got {:?}", other),
    }
    assert_eq!(eval.last_evaluation_tick.get(&1), Some(&6));
    assert_eq!(eval.last_evaluation_tick.get(&2), None);
}

#[test]
fn providers_are_never_requesters_busy_or_incapable() {
    let mut board = QuestBoard::new();
    // Pawn 3 already provides a quest in progress.
    let mut busy = quest("water", 9, ChunkId(4, 4), QuestStatus::InProgress { provider: EntityId(3) });
    busy.provider = Some(EntityId(3));
    board.active_quests.push(busy);
    board.active_quests.push(quest("food", 1, ChunkId(0, 0), QuestStatus::Open));
    board.active_quests.push(quest("food", 4, ChunkId(1, 1), QuestStatus::Open));
    board.active_quests.push(quest("music", 5, ChunkId(1, 1), QuestStatus::Open));
    let candidates = vec![
        eater(1),
        eater(3),
        ProviderCandidate { entity: EntityId(6), capabilities: Some(Capabilities { can_do: vec!["Rest".to_string()] }) },
        ProviderCandidate { entity: EntityId(7), capabilities: None },
        eater(8),
    ];
    // Every quest ranks the same pawns in the same order.
    let ranking = vec![EntityId(1), EntityId(3), EntityId(6), EntityId(7), EntityId(8)];
    let rankings = vec![ranking.clone(), ranking.clone(), ranking.clone(), ranking];
    let mut eval = DispatcherEvaluationState::new();
    let handed = assign_quest_providers(&mut board, &candidates, &rankings, &mut eval);

    // Quest 1 (asked by 1): 1 is the requester, 3 is busy, 6 cannot eat, 7 has no
    // capabilities, so 8 provides. Quest 2: 1 can now provide. Quest 3 has no known need.
    assert_eq!(handed, vec![1, 2]);
    assert!(matches!(board.active_quests[1].status, QuestStatus::InProgress { provider } if provider == EntityId(8)));
    assert!(matches!(board.active_quests[2].status, QuestStatus::InProgress { provider } if provider == EntityId(1)));
    assert_eq!(board.active_quests[3].status, QuestStatus::Open);
    assert_eq!(board.active_quests[0].provider, Some(EntityId(3)));
}

#[test]
fn missing_rankings_leave_quests_open() {
    let mut board = QuestBoard::new();
    board.active_quests.push(quest("rest", 1, ChunkId(0, 0), QuestStatus::Open));
    let mut eval = DispatcherEvaluationState::new();
    eval.mark_all_dirty();
    let handed = assign_quest_providers(&mut board, &vec![], &vec![], &mut eval);
    assert!(handed.is_empty());
    assert_eq!(board.active_quests[0].status, QuestStatus::Open);
    assert!(!eval.dirty_all);
}

#[test]
fn quests_of_dead_requesters_are_dropped_in_order() {
    let mut board = QuestBoard::new();
    board.active_quests.push(quest("food", 1, ChunkId(0, 0), QuestStatus::Open));
    board.active_quests.push(quest("water", 2, ChunkId(1, 0), QuestStatus::Open));
    board.active_quests.push(quest("rest", 1, ChunkId(2, 0), QuestStatus::Completed));
    board.active_quests.push(quest("rest", 3, ChunkId(3, 0), QuestStatus::Open));
    drop_quests_of_dead(&mut board, &vec![EntityId(1), EntityId(9)]);
    let left: Vec<(String, u64)> = board.active_quests.iter().map(|q| (q.need.clone(), q.requester.0)).collect();
    assert_eq!(left, vec![("water".to_string(), 2), ("rest".to_string(), 3)]);
    drop_quests_of_dead(&mut board, &vec![]);
    assert_eq!(board.active_quests.len(), 2);
}
