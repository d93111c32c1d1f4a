use simrard::causal::{CausalEvent, CausalEventKind};
use simrard::discovery::{discovery_site, teaching_events, TeachingCandidate};
use simrard::entity::EntityId;
use simrard::lease::ChunkId;
use simrard::pawn::RecipeId;

fn pawn(e: u64, chunk: ChunkId, teaches: bool, knows: bool) -> TeachingCandidate {
    TeachingCandidate { entity: EntityId(e), chunk, teaches, knows }
}

fn taught(from: u64, to: u64, origin: ChunkId, at: u64) -> CausalEvent {
    CausalEvent {
        kind: CausalEventKind::DiscoveryPropagated { recipe: RecipeId(0), from: EntityId(from), to: EntityId(to) },
        origin,
        deliver_at_causal_seq: at,
    }
}

#[test]
fn teachers_reach_unclaimed_neighbours_only() {
    let snapshot = vec![
        pawn(1, ChunkId(0, 0), true, true),
        // Too far from pawn 1, which still claims it for this tick.
        pawn(2, ChunkId(5, 5), false, false),
        pawn(3, ChunkId(1, 1), false, false),
        // Next to pawn 2, but pawn 2 was claimed already.
        pawn(4, ChunkId(5, 4), true, true),
        // Knows the recipe without teaching it: never taught.
        pawn(5, ChunkId(0, 0), false, true),
        pawn(6, ChunkId(0, 0), false, false),
    ];
    let events = teaching_events(&snapshot, RecipeId(0), 40);
    assert_eq!(events, vec![taught(1, 3, ChunkId(0, 0), 41), taught(1, 6, ChunkId(0, 0), 40)]);
}

#[test]
fn nobody_teaches_without_a_teacher() {
    let snapshot = vec![pawn(1, ChunkId(0, 0), false, true), pawn(2, ChunkId(0, 0), false, false)];
    assert!(teaching_events(&snapshot, RecipeId(0), 7).is_empty());
    assert!(teaching_events(&Vec::new(), RecipeId(0), 7).is_empty());
}

#[test]
fn discovery_needs_food_and_rest_on_the_chunk() {
    let food = vec![ChunkId(1, 1), ChunkId(2, 2)];
    let rest = vec![ChunkId(2, 2), ChunkId(3, 3)];
    assert!(discovery_site(&food, &rest, ChunkId(2, 2)));
    assert!(!discovery_site(&food, &rest, ChunkId(1, 1)));
    assert!(!discovery_site(&food, &rest, ChunkId(3, 3)));
}
