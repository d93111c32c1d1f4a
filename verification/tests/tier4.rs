use std::collections::HashMap;
use simrard::charter::SpatialCharter;
use simrard::entity::{ComponentId, TIER4_DECOMP_COMPONENT, TIER4_GRASS_CONSUME_COMPONENT, TIER4_REPRODUCE_COMPONENT};
use simrard::lease::{ChunkId, LeaseIntent, SpatialLease};
use simrard::world::chunk_key;
use simrard::tier4::{
    tier4_eat_step, transient_write_lease, Tier4Eat,
    grass_consumption, insect_walk_step, isqrt, offspring_chunk, push_capped, repro_budget, seed_step,
    seed_tier4_positions, summary_sample_indices, tier4_update_due, T4_INITIAL_SEEDS, T4_MAX_POPULATION,
    T4_UPDATE_INTERVAL_TICKS,
};

#[test]
fn test_seed_produces_initial_population() {
    let positions = seed_tier4_positions();
    assert!(
        positions.len() >= T4_INITIAL_SEEDS / 2,
        "seed should produce close to T4_INITIAL_SEEDS insects, got {}",
        positions.len()
    );
    assert_eq!(positions.len(), T4_INITIAL_SEEDS);
    assert_eq!(positions[0], ChunkId(5, 5));
    assert_eq!(positions[23], ChunkId(16, 5));
    assert_eq!(positions[499], ChunkId(5 + 21 * 11, 5 + 16 * 11));
}

#[test]
fn update_throttled_before_interval() {
    assert!(!tier4_update_due(1, 0), "advance at tick=1 should be throttled");
}

#[test]
fn update_runs_at_interval() {
    assert!(tier4_update_due(T4_UPDATE_INTERVAL_TICKS, 0));
    assert!(!tier4_update_due(150, 100));
    assert!(!tier4_update_due(100, 100));
    assert!(tier4_update_due(200, 100));
}

#[test]
fn seed_spacing_uses_whole_square_root() {
    assert_eq!(isqrt(500), 22);
    assert_eq!(isqrt(484), 22);
    assert_eq!(isqrt(483), 21);
    assert_eq!(seed_step(), 11);
}

#[test]
fn walk_stays_on_grid_and_moves_one_cell() {
    for age in 0..50u64 {
        let from = ChunkId(128, 128);
        let to = insect_walk_step(from, age);
        let dx = (to.0 as i64 - 128).abs();
        let dy = (to.1 as i64 - 128).abs();
        assert_eq!(dx + dy, 1);
    }
    for age in 0..50u64 {
        let to = insect_walk_step(ChunkId(0, 255), age);
        assert!(to.0 <= 255 && to.1 <= 255);
    }
}

#[test]
fn offspring_and_budget_respect_limits() {
    assert_eq!(offspring_chunk(ChunkId(10, 3)), ChunkId(11, 3));
    assert_eq!(offspring_chunk(ChunkId(255, 3)), ChunkId(255, 3));
    assert_eq!(repro_budget(9_990), 10);
    assert_eq!(repro_budget(T4_MAX_POPULATION), 0);
    assert_eq!(repro_budget(T4_MAX_POPULATION + 5), 0);
}

#[test]
fn grass_consumption_takes_a_quarter_at_least_one() {
    assert_eq!(grass_consumption(1), 1);
    assert_eq!(grass_consumption(3), 1);
    assert_eq!(grass_consumption(10), 2);
    assert_eq!(grass_consumption(5), 1);
}

#[test]
fn metrics_history_is_capped() {
    let mut history: Vec<u32> = Vec::new();
    for i in 0..605 {
        push_capped(&mut history, i, 600);
    }
    assert_eq!(history.len(), 600);
    assert_eq!(history[0], 5);
    assert_eq!(summary_sample_indices(600), vec![0, 60, 150, 300, 450, 599]);
    assert_eq!(summary_sample_indices(1), vec![0, 0, 0, 0, 0, 0]);
}

fn write_lease(chunk: ChunkId, component: u64, seq: u64) -> SpatialLease {
    SpatialLease {
        primary: chunk,
        fringe: vec![],
        intent: LeaseIntent { reads: vec![], writes: vec![ComponentId(component)] },
        granted_at_causal_seq: seq,
    }
}

#[test]
fn grass_eating_denied_while_chunk_is_held() {
    let mut grass: HashMap<u64, u32> = HashMap::new();
    grass.insert(chunk_key(ChunkId(5, 5)), 10);
    let mut charter = SpatialCharter::default();
    let handle = charter
        .request_lease(write_lease(ChunkId(5, 5), TIER4_GRASS_CONSUME_COMPONENT, 0), 0)
        .expect("blocker lease must be granted");

    let mut eat_grants = 0;
    let mut eat_denials = 0;
    match tier4_eat_step(ChunkId(5, 5), T4_UPDATE_INTERVAL_TICKS, &mut grass, &mut charter) {
        Tier4Eat::Ate(_) => eat_grants += 1,
        Tier4Eat::Denied => eat_denials += 1,
        Tier4Eat::NoGrass => {}
    }
    assert_eq!(eat_grants, 0, "eat should be denied when chunk is held");
    assert_eq!(eat_denials, 1, "eat_denials should record one denial");
    assert_eq!(grass.get(&chunk_key(ChunkId(5, 5))), Some(&10));
    assert_eq!(charter.active_count(), 1);

    charter.release_lease(handle);
}

#[test]
fn eating_takes_a_quarter_and_empties_small_patches() {
    let mut grass: HashMap<u64, u32> = HashMap::new();
    grass.insert(chunk_key(ChunkId(5, 5)), 10);
    grass.insert(chunk_key(ChunkId(6, 5)), 1);
    let mut charter = SpatialCharter::new();
    assert_eq!(tier4_eat_step(ChunkId(5, 5), 100, &mut grass, &mut charter), Tier4Eat::Ate(2));
    assert_eq!(grass.get(&chunk_key(ChunkId(5, 5))), Some(&8));
    assert_eq!(tier4_eat_step(ChunkId(6, 5), 100, &mut grass, &mut charter), Tier4Eat::Ate(1));
    assert_eq!(grass.get(&chunk_key(ChunkId(6, 5))), None);
    assert_eq!(tier4_eat_step(ChunkId(6, 5), 100, &mut grass, &mut charter), Tier4Eat::NoGrass);
    assert_eq!(tier4_eat_step(ChunkId(9, 9), 100, &mut grass, &mut charter), Tier4Eat::NoGrass);
    // Every eat lease was released again.
    assert_eq!(charter.active_count(), 0);
}

#[test]
fn transient_leases_leave_the_charter_as_it_was() {
    let mut charter = SpatialCharter::new();
    assert!(transient_write_lease(ChunkId(3, 3), ComponentId(TIER4_REPRODUCE_COMPONENT), 7, &mut charter));
    assert_eq!(charter.active_count(), 0);
    let holder = charter.request_lease(write_lease(ChunkId(3, 3), TIER4_DECOMP_COMPONENT, 7), 7).unwrap();
    // A write on another component of the same chunk passes; the held one is refused.
    assert!(transient_write_lease(ChunkId(3, 3), ComponentId(TIER4_REPRODUCE_COMPONENT), 8, &mut charter));
    assert!(!transient_write_lease(ChunkId(3, 3), ComponentId(TIER4_DECOMP_COMPONENT), 8, &mut charter));
    assert_eq!(charter.active_count(), 1);
    charter.release_lease(holder);
    assert!(transient_write_lease(ChunkId(3, 3), ComponentId(TIER4_DECOMP_COMPONENT), 9, &mut charter));
}
