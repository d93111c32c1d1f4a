use vstd::prelude::*;
use rand::rngs::SmallRng;

verus! {

#[verifier::external_type_specification]
#[verifier::external_body]
pub struct ExSmallRng(SmallRng);

/// A uniformly drawn index below `n` from `rng` (rand's `Rng::gen_range(0..n)`).
#[verifier::external_body]
fn rng_index_below(rng: &mut SmallRng, n: usize) -> (r: usize)
    requires
        n > 0,
    ensures
        r < n,
{
    rand::Rng::gen_range(rng, 0..n)
}

pub const MIX64: u64 = 0x9e37_79b9_7f4a_7c15;
pub const SUBSYSTEM_SALT: u64 = 0x517c_c1b7_2722_0a95;

#[derive(Clone, Copy, Debug, PartialEq, Eq, Hash, Structural)]
pub struct PatchCoord {
    pub x: u32,
    pub y: u32,
}

#[derive(Clone, Copy, Debug, PartialEq, Eq, Structural)]
pub enum Pattern {
    Triangle,
    Line,
    Star,
    RandomPair,
    Cycle,
}

#[derive(Clone, Copy, Debug, PartialEq, Eq, Structural)]
pub enum Replacement {
    AddNodeWithEdges { arity: u8 },
    Merge,
    Split,
}

#[derive(Clone, Copy, Debug, PartialEq, Eq, Structural)]
pub enum ArityBias {
    Low,
    High,
    Neutral,
}

/// Per-step counts: patches considered, denied by the charter, and rewritten.
#[derive(Clone, Copy, Debug, Default, PartialEq, Eq, Structural)]
pub struct StepStats {
    pub considered: u32,
    pub denied: u32,
    pub rewritten: u32,
}

/// A node's cell within its patch.
#[derive(Clone, Copy, Debug, PartialEq, Eq, Structural)]
pub struct NodePos {
    pub x: u32,
    pub y: u32,
}

#[derive(Clone, Copy, Debug, PartialEq, Eq, Structural)]
pub struct Node {
    pub id: u16,
    pub pos: NodePos,
    pub age: u8,
}

#[derive(Clone, Copy, Debug, PartialEq, Eq)]
pub struct Hyperedge {
    /// The first `arity` slots are the edge's nodes.
    pub nodes: [u16; 4],
    pub arity: u8,
}

/// The hypergraph held by one patch of the substrate.
#[derive(Clone, Debug)]
pub struct PatchGraph {
    pub coord: PatchCoord,
    pub next_node_id: u16,
    pub nodes: Vec<Node>,
    pub edges: Vec<Hyperedge>,
}

/// Every edge joins between two and four of its slots.
pub open spec fn edges_wf(edges: Seq<Hyperedge>) -> bool {
    forall|i: int| 0 <= i < edges.len() ==> 2 <= #[trigger] edges[i].arity <= 4
}

/// Whether `id` is among the first `arity` slots of `e`.
pub open spec fn edge_touches(e: Hyperedge, id: u16) -> bool {
    exists|k: int| 0 <= k < e.arity && #[trigger] e.nodes@[k] == id
}

/// The age seeded into node `i` of the patch at `coord`:
/// `(x + y) mod 256`, plus `i`, saturating at 255.
pub open spec fn seeded_age(coord: PatchCoord, i: nat) -> u8 {
    let base = ((coord.x as int + coord.y as int) % 256) as int;
    if base + i > 255 { 255 } else { (base + i) as u8 }
}

impl PatchGraph {
    pub open spec fn wf(&self) -> bool {
        edges_wf(self.edges@)
    }

    /// A patch seeded with four nodes on a 2x2 grid and one triangle edge over
    /// nodes 0, 1, 2.
    pub fn seeded(coord: PatchCoord) -> (p: PatchGraph)
        ensures
            p.wf(),
            p.coord == coord,
            p.next_node_id == 4,
            p.nodes@.len() == 4,
            forall|i: int|
                0 <= i < 4 ==> #[trigger] p.nodes@[i] == (Node {
                    id: i as u16,
                    pos: NodePos { x: (i % 2) as u32, y: (i / 2) as u32 },
                    age: seeded_age(coord, i as nat),
                }),
            p.edges@ == seq![Hyperedge { nodes: [0u16, 1, 2, 0], arity: 3 }],
    {
        let base = (coord.x.wrapping_add(coord.y) % 256) as u8;
        assert(base == (coord.x as int + coord.y as int) % 256) by {
            assert(coord.x.wrapping_add(coord.y) == (coord.x as int + coord.y as int) % 0x1_0000_0000);
            assert((((coord.x as int + coord.y as int) % 0x1_0000_0000) % 256) == (coord.x as int + coord.y as int) % 256) by (nonlinear_arith);
        }
        let mut nodes: Vec<Node> = Vec::new();
        let mut i: u16 = 0;
        while i < 4
            invariant
                i <= 4,
                base == (coord.x as int + coord.y as int) % 256,
                nodes@.len() == i,
                forall|k: int|
                    0 <= k < i ==> #[trigger] nodes@[k] == (Node {
                        id: k as u16,
                        pos: NodePos { x: (k % 2) as u32, y: (k / 2) as u32 },
                        age: seeded_age(coord, k as nat),
                    }),
            decreases 4 - i,
        {
            let age = base.saturating_add(i as u8);
            nodes.push(Node { id: i, pos: NodePos { x: (i as u32) % 2, y: (i as u32) / 2 }, age });
            i += 1;
        }
        let mut edges: Vec<Hyperedge> = Vec::new();
        edges.push(Hyperedge { nodes: [0, 1, 2, 0], arity: 3 });
        assert(edges@ =~= seq![Hyperedge { nodes: [0u16, 1, 2, 0], arity: 3 }]);
        PatchGraph { coord, next_node_id: 4, nodes, edges }
    }
}

/// The index of the patch at `coord` in row-major order, or `None` off the grid.
pub fn patch_index(coord: PatchCoord, patch_cols: u32, patch_rows: u32) -> (r: Option<usize>)
    requires
        patch_cols as int * patch_rows as int <= u32::MAX,
    ensures
        r == if coord.x < patch_cols && coord.y < patch_rows {
            Some((coord.y * patch_cols + coord.x) as usize)
        } else {
            None::<usize>
        },
{
    if coord.x >= patch_cols || coord.y >= patch_rows {
        return None;
    }
    assert((coord.y as int) * (patch_cols as int) + (coord.x as int) < (patch_cols as int) * (patch_rows as int)) by (nonlinear_arith)
        requires
            coord.x < patch_cols,
            coord.y < patch_rows,
    ;
    Some((coord.y * patch_cols + coord.x) as usize)
}

/// The chunk at the corner of a patch, saturating at the grid's numeric limit.
pub fn patch_primary_chunk(coord: PatchCoord, patch_chunk_size: u32) -> (r: (u32, u32))
    ensures
        r.0 == if coord.x * patch_chunk_size > u32::MAX { u32::MAX as int } else { coord.x * patch_chunk_size },
        r.1 == if coord.y * patch_chunk_size > u32::MAX { u32::MAX as int } else { coord.y * patch_chunk_size },
{
    (saturating_mul_u32(coord.x, patch_chunk_size), saturating_mul_u32(coord.y, patch_chunk_size))
}

/// `a * b`, saturating at `u32::MAX`.
pub fn saturating_mul_u32(a: u32, b: u32) -> (r: u32)
    ensures
        r == if a * b > u32::MAX { u32::MAX as int } else { a * b },
{
    assert((a as int) * (b as int) <= (u32::MAX as int) * (u32::MAX as int)) by (nonlinear_arith)
        requires
            a <= u32::MAX,
            b <= u32::MAX,
    ;
    let p = (a as u64) * (b as u64);
    if p > u32::MAX as u64 { u32::MAX } else { p as u32 }
}

/// The patch a chunk belongs to.
pub fn patch_for_chunk(chunk_x: u32, chunk_y: u32, patch_chunk_size: u32) -> (r: PatchCoord)
    requires
        patch_chunk_size > 0,
    ensures
        r == (PatchCoord { x: chunk_x / patch_chunk_size, y: chunk_y / patch_chunk_size }),
{
    PatchCoord { x: chunk_x / patch_chunk_size, y: chunk_y / patch_chunk_size }
}

/// Whether the substrate steps at causal step `seq` (never when the interval is 0).
pub fn step_due(seq: u64, interval_ticks: u64) -> (r: bool)
    ensures
        r == (interval_ticks != 0 && seq % interval_ticks == 0),
{
    interval_ticks != 0 && seq % interval_ticks == 0
}

/// The update interval a configuration keeps: at least 1.
pub fn clamp_interval_ticks(interval_ticks: u64) -> (r: u64)
    ensures
        r == if interval_ticks < 1 { 1 } else { interval_ticks },
{
    if interval_ticks < 1 { 1 } else { interval_ticks }
}

/// `a + b` wrapped to 64 bits.
pub open spec fn wrap_add(a: u64, b: u64) -> u64 {
    ((a as int + b as int) % 0x1_0000_0000_0000_0000) as u64
}

/// `a * b` wrapped to 64 bits.
pub open spec fn wrap_mul(a: u64, b: u64) -> u64 {
    ((a as int * b as int) % 0x1_0000_0000_0000_0000) as u64
}

/// The seed of a patch's random stream at a causal step:
/// `seq * MIX64 + (x << 32) + y + SUBSYSTEM_SALT + chaos_bits * 131`, wrapping at 2^64.
pub open spec fn rng_seed_spec(causal_seq: u64, coord: PatchCoord, chaos_bits: u64) -> u64 {
    wrap_add(
        wrap_add(
            wrap_add(wrap_add(wrap_mul(causal_seq, MIX64), (coord.x as int * 0x1_0000_0000) as u64), coord.y as u64),
            SUBSYSTEM_SALT,
        ),
        wrap_mul(chaos_bits, 131),
    )
}

fn wrapping_add_u64(a: u64, b: u64) -> (r: u64)
    ensures
        r == wrap_add(a, b),
{
    if a as u128 + b as u128 > u64::MAX as u128 {
        (a as u128 + b as u128 - 0x1_0000_0000_0000_0000u128) as u64
    } else {
        a + b
    }
}

pub(crate) fn wrapping_mul_u64(a: u64, b: u64) -> (r: u64)
    ensures
        r == wrap_mul(a, b),
{
    assert((a as int) * (b as int) <= (u64::MAX as int) * (u64::MAX as int)) by (nonlinear_arith)
        requires
            a <= u64::MAX,
            b <= u64::MAX,
    ;
    let p: u128 = (a as u128) * (b as u128);
    assert(p == a as int * b as int);
    (p % 0x1_0000_0000_0000_0000u128) as u64
}

/// The seed of a patch's random stream at a causal step, mixing in the chaos level
/// (`chaos_bits` is chaos in millionths).
pub fn rng_seed(causal_seq: u64, coord: PatchCoord, chaos_bits: u64) -> (s: u64)
    ensures
        s == rng_seed_spec(causal_seq, coord, chaos_bits),
{
    assert((coord.x as int) * 0x1_0000_0000 <= u64::MAX) by (nonlinear_arith)
        requires
            coord.x <= u32::MAX,
    ;
    let shifted: u64 = (coord.x as u64) * 0x1_0000_0000;
    let a = wrapping_mul_u64(causal_seq, MIX64);
    let b = wrapping_add_u64(a, shifted);
    let c = wrapping_add_u64(b, coord.y as u64);
    let d = wrapping_add_u64(c, SUBSYSTEM_SALT);
    wrapping_add_u64(d, wrapping_mul_u64(chaos_bits, 131))
}


/// `v` clamped into `lo..=hi`.
pub open spec fn clamp_u8(v: u8, lo: u8, hi: u8) -> u8 {
    if v < lo { lo } else if v > hi { hi } else { v }
}

/// Whether every one of the first `arity` slots of `e` names a node of `nodes`,
/// and every later slot holds `fill`.
pub open spec fn edge_over(e: Hyperedge, nodes: Seq<Node>, fill: u16) -> bool {
    &&& forall|k: int| #![trigger e.nodes@[k]] 0 <= k < e.arity ==> exists|p: int| 0 <= p < nodes.len() && #[trigger] nodes[p].id == e.nodes@[k]
    &&& forall|k: int| #![trigger e.nodes@[k]] e.arity <= k < 4 ==> e.nodes@[k] == fill
}

fn pick_node_id(nodes: &Vec<Node>, rng: &mut SmallRng) -> (id: u16)
    requires
        nodes@.len() > 0,
    ensures
        exists|p: int| 0 <= p < nodes@.len() && #[trigger] nodes@[p].id == id,
{
    let pick = rng_index_below(rng, nodes.len());
    let id = nodes[pick].id;
    assert(nodes@[pick as int].id == id);
    id
}

fn touches_exec(e: &Hyperedge, id: u16) -> (r: bool)
    requires
        e.arity <= 4,
    ensures
        r == edge_touches(*e, id),
{
    let mut k: usize = 0;
    while k < e.arity as usize
        invariant
            e.arity <= 4,
            k <= e.arity,
            forall|m: int| 0 <= m < k ==> e.nodes@[m] != id,
        decreases e.arity - k,
    {
        if e.nodes[k] == id {
            assert(e.nodes@[k as int] == id);
            return true;
        }
        k += 1;
    }
    false
}

/// Applies one rewrite rule's replacement to a patch, drawing the random choices it
/// needs from `rng`; returns whether the patch changed.
/// - AddNodeWithEdges: below the node cap, adds a node with the next id (placed on
///   the 4x4 cell grid, shifted by the neighbourhood's node count under high-arity
///   bias) and, when the patch then has more than one node, an edge over
///   `arity` (clamped to 2..=4) randomly chosen nodes.
/// - Merge: with more than two nodes, removes a random node and every edge over it.
/// - Split: picks a random edge; one of arity three or more loses a slot and a
///   two-node copy of it is added.
pub fn apply_rewrite(
    patch: &mut PatchGraph,
    replacement: Replacement,
    bias: ArityBias,
    neighbor_node_count: usize,
    max_nodes_per_patch: usize,
    rng: &mut SmallRng,
) -> (rewritten: bool)
    requires
        old(patch).wf(),
    ensures
        final(patch).wf(),
        final(patch).coord == old(patch).coord,
        !rewritten ==> final(patch).nodes@ == old(patch).nodes@ && final(patch).edges@ == old(patch).edges@
            && final(patch).next_node_id == old(patch).next_node_id,
        old(patch).nodes@.len() <= max_nodes_per_patch ==> final(patch).nodes@.len() <= max_nodes_per_patch,
        match replacement {
            Replacement::AddNodeWithEdges { arity } => {
                let id = old(patch).next_node_id;
                let x_bias: u32 = if bias == ArityBias::High { (neighbor_node_count as u32) % 4 } else { 0 };
                let node = Node {
                    id,
                    pos: NodePos { x: ((id as u32 + x_bias) % 4) as u32, y: ((id as u32 / 4) % 4) as u32 },
                    age: 0,
                };
                let nodes = old(patch).nodes@.push(node);
                if old(patch).nodes@.len() >= max_nodes_per_patch {
                    !rewritten
                } else {
                    &&& rewritten
                    &&& final(patch).nodes@ == nodes
                    &&& final(patch).next_node_id == if id == u16::MAX { id } else { (id + 1) as u16 }
                    &&& if nodes.len() > 1 {
                        &&& final(patch).edges@.len() == old(patch).edges@.len() + 1
                        &&& final(patch).edges@.drop_last() == old(patch).edges@
                        &&& final(patch).edges@.last().arity == clamp_u8(arity, 2, 4)
                        &&& edge_over(final(patch).edges@.last(), nodes, id)
                    } else {
                        final(patch).edges@ == old(patch).edges@
                    }
                }
            },
            Replacement::Merge => {
                if old(patch).nodes@.len() <= 2 {
                    !rewritten
                } else {
                    &&& rewritten
                    &&& final(patch).next_node_id == old(patch).next_node_id
                    &&& exists|k: int|
                        0 <= k < old(patch).nodes@.len() && final(patch).nodes@ == old(patch).nodes@.remove(k)
                            && final(patch).edges@ == old(patch).edges@.filter(
                            |e: Hyperedge| !edge_touches(e, old(patch).nodes@[k].id),
                        )
                }
            },
            Replacement::Split => {
                &&& final(patch).nodes@ == old(patch).nodes@
                &&& final(patch).next_node_id == old(patch).next_node_id
                &&& if old(patch).edges@.len() == 0 {
                    !rewritten
                } else {
                    exists|k: int|
                        0 <= k < old(patch).edges@.len() && #[trigger] old(patch).edges@[k] == old(patch).edges@[k]
                            && if old(patch).edges@[k].arity < 3 {
                            !rewritten
                        } else {
                            &&& rewritten
                            &&& final(patch).edges@ == old(patch).edges@.update(
                                k,
                                Hyperedge { arity: (old(patch).edges@[k].arity - 1) as u8, ..old(patch).edges@[k] },
                            ).push(Hyperedge { arity: 2, ..old(patch).edges@[k] })
                        }
                }
            },
        },
{
    match replacement {
        Replacement::AddNodeWithEdges { arity } => {
            if patch.nodes.len() >= max_nodes_per_patch {
                return false;
            }
            let id = patch.next_node_id;
            patch.next_node_id = if id == u16::MAX { id } else { id + 1 };
            let x_bias: u32 = if bias == ArityBias::High { (neighbor_node_count as u32) % 4 } else { 0 };
            patch.nodes.push(
                Node { id, pos: NodePos { x: (id as u32 + x_bias) % 4, y: (id as u32 / 4) % 4 }, age: 0 },
            );
            if patch.nodes.len() > 1 {
                let arity = if arity < 2 { 2 } else if arity > 4 { 4 } else { arity };
                let s0 = pick_node_id(&patch.nodes, rng);
                let s1 = pick_node_id(&patch.nodes, rng);
                assert(patch.nodes@[patch.nodes@.len() - 1].id == id);
                let s2 = if arity >= 3 { pick_node_id(&patch.nodes, rng) } else { id };
                let s3 = if arity >= 4 { pick_node_id(&patch.nodes, rng) } else { id };
                assert(exists|p: int| 0 <= p < patch.nodes@.len() && #[trigger] patch.nodes@[p].id == s2);
                assert(exists|p: int| 0 <= p < patch.nodes@.len() && #[trigger] patch.nodes@[p].id == s3);
                let slots: [u16; 4] = [s0, s1, s2, s3];
                assert(slots@ =~= seq![s0, s1, s2, s3]);
                let edge = Hyperedge { nodes: slots, arity };
                let ghost old_edges = patch.edges@;
                patch.edges.push(edge);
                proof {
                    assert(patch.edges@.drop_last() =~= old_edges);
                    assert forall|k: int| #![trigger edge.nodes@[k]] 0 <= k < edge.arity implies exists|p: int|
                        0 <= p < patch.nodes@.len() && #[trigger] patch.nodes@[p].id == edge.nodes@[k] by {
                        let v = edge.nodes@[k];
                        assert(v == s0 || v == s1 || v == s2 || v == s3);
                        assert(exists|p: int| 0 <= p < patch.nodes@.len() && #[trigger] patch.nodes@[p].id == v) by {
                            if v == s0 {
                                let p = choose|p: int| 0 <= p < patch.nodes@.len() && #[trigger] patch.nodes@[p].id == s0;
                                assert(patch.nodes@[p].id == v);
                            } else if v == s1 {
                                let p = choose|p: int| 0 <= p < patch.nodes@.len() && #[trigger] patch.nodes@[p].id == s1;
                                assert(patch.nodes@[p].id == v);
                            } else if v == s2 {
                                let p = choose|p: int| 0 <= p < patch.nodes@.len() && #[trigger] patch.nodes@[p].id == s2;
                                assert(patch.nodes@[p].id == v);
                            } else {
                                let p = choose|p: int| 0 <= p < patch.nodes@.len() && #[trigger] patch.nodes@[p].id == s3;
                                assert(patch.nodes@[p].id == v);
                            }
                        }
                    }
                    assert(edges_wf(patch.edges@)) by {
                        assert forall|i: int| 0 <= i < patch.edges@.len() implies 2 <= #[trigger] patch.edges@[i].arity <= 4 by {
                            if i < old_edges.len() {
                                assert(patch.edges@[i] == old_edges[i]);
                            }
                        }
                    }
                }
            }
            true
        },
        Replacement::Merge => {
            if patch.nodes.len() <= 2 {
                return false;
            }
            let remove_idx = rng_index_below(rng, patch.nodes.len());
            let ghost old_nodes = patch.nodes@;
            let removed = patch.nodes.remove(remove_idx).id;
            let ghost pred = |e: Hyperedge| !edge_touches(e, removed);
            let ghost es = patch.edges@;
            let mut kept: Vec<Hyperedge> = Vec::new();
            let mut i: usize = 0;
            while i < patch.edges.len()
                invariant
                    es == patch.edges@,
                    edges_wf(es),
                    pred == (|e: Hyperedge| !edge_touches(e, removed)),
                    i <= es.len(),
                    kept@ == es.take(i as int).filter(pred),
                    edges_wf(kept@),
                decreases es.len() - i,
            {
                let e = patch.edges[i];
                proof {
                    assert(es.take(i + 1) =~= es.take(i as int).push(e));
                    es.take(i as int).lemma_filter_push(e, pred);
                }
                if !touches_exec(&e, removed) {
                    let ghost before = kept@;
                    kept.push(e);
                    assert forall|j: int| 0 <= j < kept@.len() implies 2 <= #[trigger] kept@[j].arity <= 4 by {
                        if j < before.len() {
                            assert(kept@[j] == before[j]);
                        }
                    }
                }
                i += 1;
            }
            assert(es.take(es.len() as int) =~= es);
            patch.edges = kept;
            true
        },
        Replacement::Split => {
            if patch.edges.len() == 0 {
                return false;
            }
            let edge_idx = rng_index_below(rng, patch.edges.len());
            let edge = patch.edges[edge_idx];
            if edge.arity < 3 {
                assert(patch.edges@[edge_idx as int] == patch.edges@[edge_idx as int]);
                return false;
            }
            let ghost es = patch.edges@;
            patch.edges.set(edge_idx, Hyperedge { nodes: edge.nodes, arity: edge.arity - 1 });
            patch.edges.push(Hyperedge { nodes: edge.nodes, arity: 2 });
            proof {
                assert(patch.edges@ =~= es.update(
                    edge_idx as int,
                    Hyperedge { arity: (es[edge_idx as int].arity - 1) as u8, ..es[edge_idx as int] },
                ).push(Hyperedge { arity: 2, ..es[edge_idx as int] }));
                assert forall|i: int| 0 <= i < patch.edges@.len() implies 2 <= #[trigger] patch.edges@[i].arity <= 4 by {
                    if i < es.len() && i != edge_idx {
                        assert(patch.edges@[i] == es[i]);
                    }
                }
            }
            true
        },
    }
}

} // verus!
