use rand::rngs::SmallRng;
use rand::SeedableRng;
use simrard::hypergraph::{
    apply_rewrite, clamp_interval_ticks, patch_for_chunk, patch_index, patch_primary_chunk, rng_seed, step_due,
    ArityBias, PatchCoord, PatchGraph, Replacement, StepStats,
};

#[test]
fn seeded_patch_has_four_nodes_and_a_triangle() {
    let p = PatchGraph::seeded(PatchCoord { x: 200, y: 100 });
    assert_eq!(p.nodes.len(), 4);
    assert_eq!(p.edges.len(), 1);
    assert_eq!(p.edges[0].arity, 3);
    // (200 + 100) mod 256 = 44, plus the node index.
    let ages: Vec<u8> = p.nodes.iter().map(|n| n.age).collect();
    assert_eq!(ages, vec![44, 45, 46, 47]);
    let saturated = PatchGraph::seeded(PatchCoord { x: 127, y: 127 });
    assert_eq!(saturated.nodes[3].age, 255);
}

#[test]
fn merge_removes_one_node_and_its_edges() {
    let mut p = PatchGraph::seeded(PatchCoord { x: 0, y: 0 });
    let mut rng = SmallRng::seed_from_u64(7);
    assert!(apply_rewrite(&mut p, Replacement::Merge, ArityBias::Neutral, 0, 16, &mut rng));
    assert_eq!(p.nodes.len(), 3);
    let ids: Vec<u16> = p.nodes.iter().map(|n| n.id).collect();
    let removed = (0u16..4).find(|i| !ids.contains(i)).expect("one id removed");
    for e in &p.edges {
        assert!(!e.nodes[..e.arity as usize].contains(&removed));
    }
    // Two nodes are never merged away.
    let mut q = PatchGraph::seeded(PatchCoord { x: 0, y: 0 });
    q.nodes.truncate(2);
    assert!(!apply_rewrite(&mut q, Replacement::Merge, ArityBias::Neutral, 0, 16, &mut rng));
}

#[test]
fn add_node_respects_cap_and_draws_edge_from_existing_nodes() {
    let mut p = PatchGraph::seeded(PatchCoord { x: 0, y: 0 });
    let mut rng = SmallRng::seed_from_u64(11);
    assert!(apply_rewrite(&mut p, Replacement::AddNodeWithEdges { arity: 9 }, ArityBias::High, 6, 5, &mut rng));
    assert_eq!(p.nodes.len(), 5);
    assert_eq!(p.nodes[4].id, 4);
    assert_eq!(p.nodes[4].pos.x, (4 + 6 % 4) % 4);
    assert_eq!(p.next_node_id, 5);
    let e = p.edges.last().unwrap();
    assert_eq!(e.arity, 4);
    for slot in e.nodes.iter() {
        assert!(p.nodes.iter().any(|n| n.id == *slot));
    }
    // At the cap nothing is added.
    assert!(!apply_rewrite(&mut p, Replacement::AddNodeWithEdges { arity: 2 }, ArityBias::Low, 0, 5, &mut rng));
    assert_eq!(p.nodes.len(), 5);
}

#[test]
fn split_shortens_an_edge_and_adds_a_pair() {
    let mut p = PatchGraph::seeded(PatchCoord { x: 0, y: 0 });
    let mut rng = SmallRng::seed_from_u64(3);
    assert!(apply_rewrite(&mut p, Replacement::Split, ArityBias::Neutral, 0, 16, &mut rng));
    assert_eq!(p.edges.len(), 2);
    assert_eq!(p.edges[0].arity, 2);
    assert_eq!(p.edges[1].arity, 2);
    // Edges of arity two do not split further.
    let mut q = p.clone();
    q.edges.truncate(1);
    assert!(!apply_rewrite(&mut q, Replacement::Split, ArityBias::Neutral, 0, 16, &mut rng));
}

#[test]
fn patch_grid_arithmetic() {
    assert_eq!(patch_index(PatchCoord { x: 2, y: 3 }, 4, 4), Some(14));
    assert_eq!(patch_index(PatchCoord { x: 4, y: 0 }, 4, 4), None);
    assert_eq!(patch_primary_chunk(PatchCoord { x: 3, y: 5 }, 8), (24, 40));
    assert_eq!(patch_primary_chunk(PatchCoord { x: u32::MAX, y: 1 }, 8), (u32::MAX, 8));
    assert_eq!(patch_for_chunk(17, 63, 8), PatchCoord { x: 2, y: 7 });
    assert!(step_due(20, 10));
    assert!(!step_due(21, 10));
    assert!(!step_due(0, 0));
    assert_eq!(clamp_interval_ticks(0), 1);
    assert_eq!(StepStats::default(), StepStats { considered: 0, denied: 0, rewritten: 0 });
}

#[test]
fn rng_seed_wraps() {
    let s = rng_seed(0, PatchCoord { x: 0, y: 0 }, 0);
    assert_eq!(s, 0x517c_c1b7_2722_0a95);
    let expected = 3u64
        .wrapping_mul(0x9e37_79b9_7f4a_7c15)
        .wrapping_add(5u64 << 32)
        .wrapping_add(7)
        .wrapping_add(0x517c_c1b7_2722_0a95)
        .wrapping_add(150_000u64.wrapping_mul(131));
    assert_eq!(rng_seed(3, PatchCoord { x: 5, y: 7 }, 150_000), expected);
}
