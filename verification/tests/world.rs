use simrard::lease::ChunkId;
use simrard::world::{
    chunk_key, food_portions_from_grass, gs_neighbor_coords, resource_respawn_plan, select_empty_chunk,
    substrate_seed_centers, RespawnState,
};
use std::collections::HashSet;

#[test]
fn food_portions_increase_with_grass_signal() {
    let low = food_portions_from_grass(0);
    let high = food_portions_from_grass(8);
    assert!(high > low);
}

#[test]
fn food_portions_are_capped() {
    assert_eq!(food_portions_from_grass(0), 8);
    assert_eq!(food_portions_from_grass(5), 10);
    assert_eq!(food_portions_from_grass(10), 12);
    assert_eq!(food_portions_from_grass(u32::MAX), 12);
}

#[test]
fn select_empty_chunk_scans_from_seed_and_wraps() {
    let mut occupied = HashSet::new();
    assert_eq!(select_empty_chunk(0, &occupied), Some(ChunkId(0, 0)));
    assert_eq!(select_empty_chunk(257, &occupied), Some(ChunkId(1, 1)));
    occupied.insert(chunk_key(ChunkId(1, 1)));
    occupied.insert(chunk_key(ChunkId(1, 2)));
    assert_eq!(select_empty_chunk(257, &occupied), Some(ChunkId(1, 3)));
    // The last cell wraps around to the first.
    occupied.insert(chunk_key(ChunkId(255, 255)));
    assert_eq!(select_empty_chunk(65535, &occupied), Some(ChunkId(0, 0)));
}

#[test]
fn respawn_prefers_preferred_chunks_and_runs_once_per_tick() {
    let mut state = RespawnState::new();
    let plan = resource_respawn_plan(5, &mut state, &vec![], &vec![]);
    assert_eq!(plan.food, Some(ChunkId(0, 0)));
    assert_eq!(plan.water, Some(ChunkId(1, 0)));
    let again = resource_respawn_plan(5, &mut state, &vec![], &vec![]);
    assert_eq!(again.food, None);
    assert_eq!(again.water, None);
    // Preferred chunks taken: an empty chunk picked from the tick, water never on the new food.
    let food = vec![ChunkId(0, 0), ChunkId(254, 254)];
    let water = vec![ChunkId(1, 0), ChunkId(253, 254)];
    let plan = resource_respawn_plan(6, &mut state, &food, &water);
    assert_eq!(plan.food, Some(ChunkId(0, 6)));
    assert_eq!(plan.water, Some(ChunkId(0, 7)));
    // Enough food and water: nothing respawns.
    let food: Vec<ChunkId> = (0..6).map(|i| ChunkId(10, i)).collect();
    let water: Vec<ChunkId> = (0..4).map(|i| ChunkId(20, i)).collect();
    let plan = resource_respawn_plan(7, &mut state, &food, &water);
    assert_eq!((plan.food, plan.water), (None, None));
}

#[test]
fn respawn_counts_distinct_chunks() {
    let mut state = RespawnState::new();
    // Six food sources on one chunk still count as one chunk.
    let food = vec![ChunkId(10, 10); 6];
    let water: Vec<ChunkId> = (0..4).map(|i| ChunkId(20, i)).collect();
    let plan = resource_respawn_plan(1, &mut state, &food, &water);
    assert_eq!(plan.food, Some(ChunkId(0, 0)));
    assert_eq!(plan.water, None);
}

#[test]
fn neighbours_respect_grid_edges() {
    assert_eq!(gs_neighbor_coords(0, 0), vec![(1, 0), (0, 1)]);
    assert_eq!(gs_neighbor_coords(5, 7), vec![(4, 7), (6, 7), (5, 6), (5, 8)]);
    assert_eq!(gs_neighbor_coords(255, 255), vec![(254, 255), (255, 254)]);
}

#[test]
fn substrate_seeds_at_four_corners() {
    assert_eq!(substrate_seed_centers(), vec![(32, 32), (32, 223), (223, 32), (223, 223)]);
}
