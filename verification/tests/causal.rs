use simrard::causal::{
    chebyshev_distance, propagation_delay, CausalEvent, CausalEventKind, CausalEventQueue, CausalPropagationClock,
};
use simrard::lease::ChunkId;

fn depleted_at(deliver_at: u64) -> CausalEvent {
    CausalEvent {
        kind: CausalEventKind::ResourceDepleted { chunk: ChunkId(0, 0) },
        origin: ChunkId(0, 0),
        deliver_at_causal_seq: deliver_at,
    }
}

#[test]
fn test_propagation_delay_cardinal() {
    assert_eq!(propagation_delay(&ChunkId(0, 0), &ChunkId(8, 0), 8), 1);
}

#[test]
fn test_propagation_delay_two_units() {
    assert_eq!(propagation_delay(&ChunkId(0, 0), &ChunkId(16, 0), 8), 2);
}

#[test]
fn test_propagation_delay_chebyshev_diagonal() {
    assert_eq!(propagation_delay(&ChunkId(0, 0), &ChunkId(1, 1), 8), 1);
}

#[test]
fn test_propagation_delay_same_chunk() {
    assert_eq!(propagation_delay(&ChunkId(5, 5), &ChunkId(5, 5), 8), 0);
}

#[test]
fn test_propagation_delay_partial_unit() {
    assert_eq!(propagation_delay(&ChunkId(0, 0), &ChunkId(3, 0), 8), 1);
}

#[test]
fn test_drain_ready_boundary_condition() {
    let mut queue = CausalEventQueue::default();
    queue.push(depleted_at(15));
    let early = queue.drain_ready(14);
    assert_eq!(early.len(), 0, "Event should not be delivered before its scheduled seq");
    let on_time = queue.drain_ready(15);
    assert_eq!(on_time.len(), 1, "Event must be delivered at exactly its scheduled seq");
}

#[test]
fn test_drain_ready_multiple_events() {
    let mut queue = CausalEventQueue::default();
    for deliver_at in [10u64, 15, 20] {
        queue.push(depleted_at(deliver_at));
    }
    let ready = queue.drain_ready(15);
    assert_eq!(ready.len(), 2, "Events at seq=10 and seq=15 should be ready at current_seq=15");
    assert_eq!(queue.len(), 1, "Event at seq=20 should still be pending");
}

#[test]
fn test_distant_pawn_no_cross_interaction() {
    let pawn_a_chunk = ChunkId(0, 0);
    let pawn_b_chunk = ChunkId(100, 100);
    let c = 8u64;
    let delay = propagation_delay(&pawn_a_chunk, &pawn_b_chunk, c);
    assert_eq!(delay, 13);
    let mut queue = CausalEventQueue::default();
    queue.push(CausalEvent {
        kind: CausalEventKind::ResourceDepleted { chunk: pawn_a_chunk },
        origin: pawn_a_chunk,
        deliver_at_causal_seq: 0 + delay,
    });
    assert_eq!(queue.drain_ready(12).len(), 0, "Pawn B must not see the event before propagation reaches its chunk");
    assert_eq!(queue.drain_ready(13).len(), 1, "Pawn B must see the event exactly after propagation delay");
}

#[test]
fn drain_returns_events_earliest_first_and_keeps_push_order_on_ties() {
    let mut queue = CausalEventQueue::new();
    queue.push(depleted_at(20));
    queue.push(CausalEvent { origin: ChunkId(1, 1), ..depleted_at(5) });
    queue.push(CausalEvent { origin: ChunkId(2, 2), ..depleted_at(5) });
    queue.push(depleted_at(1));
    let ready = queue.drain_ready(10);
    let steps: Vec<u64> = ready.iter().map(|e| e.deliver_at_causal_seq).collect();
    assert_eq!(steps, vec![1, 5, 5]);
    assert_eq!(ready[1].origin, ChunkId(1, 1));
    assert_eq!(ready[2].origin, ChunkId(2, 2));
    assert!(queue.drain_ready(10).is_empty());
    assert_eq!(queue.drain_ready(20).len(), 1);
    assert!(queue.is_empty());
}

#[test]
fn chebyshev_distance_is_symmetric_and_max_of_axes() {
    assert_eq!(chebyshev_distance(&ChunkId(3, 10), &ChunkId(7, 2)), 8);
    assert_eq!(chebyshev_distance(&ChunkId(7, 2), &ChunkId(3, 10)), 8);
    assert_eq!(chebyshev_distance(&ChunkId(0, 0), &ChunkId(0, 0)), 0);
}

#[test]
fn horizon_matches_c_times_steps() {
    // 17 chunks at C = 8 need 3 steps: more than 2 steps since 17 > 8 * 2.
    assert_eq!(propagation_delay(&ChunkId(0, 0), &ChunkId(0, 17), 8), 3);
    assert_eq!(propagation_delay(&ChunkId(0, 0), &ChunkId(0, 16), 8), 2);
}

#[test]
fn propagation_clock_defaults_to_c_eight() {
    let mut clock = CausalPropagationClock::default();
    assert_eq!(clock.seq, 0);
    assert_eq!(clock.c, 8);
    clock.increment();
    assert_eq!(clock.seq, 1);
    assert_eq!(clock.propagation_delay(&ChunkId(0, 0), &ChunkId(9, 0)), 2);
}
