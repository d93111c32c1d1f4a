use vstd::prelude::*;
use std::collections::HashMap;
use crate::charter::{lemma_release_undoes_grant, unblocked, SpatialCharter};
use crate::entity::{ComponentId, TIER4_GRASS_CONSUME_COMPONENT};
use crate::hypergraph::{wrap_mul, wrapping_mul_u64, MIX64};
use crate::lease::{ChunkId, IntentModel, LeaseIntent, LeaseModel, SpatialLease};
use crate::movement::{axis_step, clamp};
use crate::world::{chunk_key, chunk_key_spec};

verus! {

broadcast use vstd::std_specs::hash::group_hash_axioms;

/// Maximum live insect population.
pub const T4_MAX_POPULATION: usize = 10_000;
/// Initial sparse seed count when the layer is first activated.
pub const T4_INITIAL_SEEDS: usize = 500;
/// Ticks between Tier-4 updates.
pub const T4_UPDATE_INTERVAL_TICKS: u64 = 100;
/// The largest chunk coordinate insects live on.
pub const T4_CHUNK_EXTENT: u32 = 255;
/// How many metrics entries the rolling history keeps.
pub const T4_METRICS_CAP: usize = 600;

/// Whether the Tier-4 layer updates at `current`, having last updated at `last_tick`:
/// only strictly later, and at least one update interval later.
pub fn tier4_update_due(current: u64, last_tick: u64) -> (r: bool)
    ensures
        r == (current > last_tick && current - last_tick >= T4_UPDATE_INTERVAL_TICKS),
{
    current > last_tick && current - last_tick >= T4_UPDATE_INTERVAL_TICKS
}

/// The integer square root: the largest `r` with `r * r <= n`.
pub fn isqrt(n: u64) -> (r: u64)
    requires
        n <= u32::MAX,
    ensures
        r * r <= n < (r + 1) * (r + 1),
{
    let mut r: u64 = 0;
    loop
        invariant
            r * r <= n,
            n <= u32::MAX,
            r < 0x1_0000,
        ensures
            r * r <= n < (r + 1) * (r + 1),
        decreases 0x1_0000 - r,
    {
        let next = r + 1;
        assert(next * next <= 0x1_0000 * 0x1_0000) by (nonlinear_arith)
            requires
                next <= 0x1_0000,
        ;
        if next * next > n {
            break;
        }
        assert(next < 0x1_0000) by (nonlinear_arith)
            requires
                next * next <= n,
                n <= u32::MAX,
        ;
        r = next;
    }
    r
}

/// The spacing of the initial insect seeding grid: the world extent divided by the
/// whole square root of the seed count, at least 4.
pub open spec fn seed_step_spec() -> u32 {
    if T4_CHUNK_EXTENT / 22 < 4 { 4 } else { T4_CHUNK_EXTENT / 22 }
}

/// The spacing of the initial insect seeding grid.
pub fn seed_step() -> (step: u32)
    ensures
        step == seed_step_spec(),
        step == 11,
{
    let root = isqrt(T4_INITIAL_SEEDS as u64);
    assert(root == 22) by (nonlinear_arith)
        requires
            root * root <= 500,
            500 < (root + 1) * (root + 1),
    ;
    let r32: u32 = root as u32;
    assert(r32 == 22);
    let s = T4_CHUNK_EXTENT / r32;
    assert(s == 255u32 / 22u32);
    assert(255u32 / 22u32 == 11) by (nonlinear_arith);
    if s < 4 { 4 } else { s }
}

/// Where the `i`-th seeded insect is placed: a grid with spacing 11 starting at
/// (5, 5), filled column by column, 23 cells per column.
pub open spec fn seed_position(i: int) -> ChunkId {
    ChunkId((5 + (i / 23) * 11) as u32, (5 + (i % 23) * 11) as u32)
}

/// The positions of the initial insect population: a sparse grid over the world,
/// column by column, stopping at `T4_INITIAL_SEEDS` insects.
pub fn seed_tier4_positions() -> (ps: Vec<ChunkId>)
    ensures
        ps@.len() == T4_INITIAL_SEEDS,
        forall|i: int| 0 <= i < ps@.len() ==> #[trigger] ps@[i] == seed_position(i),
{
    let step = seed_step();
    let mut ps: Vec<ChunkId> = Vec::new();
    let mut x: u32 = step / 2;
    while x < T4_CHUNK_EXTENT && ps.len() < T4_INITIAL_SEEDS
        invariant
            step == 11,
            ps@.len() <= T4_INITIAL_SEEDS,
            ps@.len() < T4_INITIAL_SEEDS ==> ps@.len() % 23 == 0 && x == 5 + (ps@.len() / 23) * 11,
            x <= T4_CHUNK_EXTENT + 11,
            forall|i: int| 0 <= i < ps@.len() ==> #[trigger] ps@[i] == seed_position(i),
        decreases T4_INITIAL_SEEDS - ps@.len(),
    {
        let mut y: u32 = step / 2;
        let ghost base = ps@.len();
        while y < T4_CHUNK_EXTENT && ps.len() < T4_INITIAL_SEEDS
            invariant
                step == 11,
                base % 23 == 0,
                x == 5 + (base / 23) * 11,
                x < T4_CHUNK_EXTENT,
                base <= ps@.len() <= base + 23,
                y == 5 + (ps@.len() - base) * 11,
                ps@.len() <= T4_INITIAL_SEEDS,
                forall|i: int| 0 <= i < ps@.len() ==> #[trigger] ps@[i] == seed_position(i),
            decreases T4_INITIAL_SEEDS - ps@.len(),
        {
            proof {
                let i = ps@.len() as int;
                assert(i / 23 == base / 23 && i % 23 == i - base) by (nonlinear_arith)
                    requires
                        base % 23 == 0,
                        base <= i < base + 23,
                ;
            }
            ps.push(ChunkId(x, y));
            y += step;
        }
        proof {
            let n = ps@.len() as int;
            if n < T4_INITIAL_SEEDS {
                assert(n == base + 23);
                assert(n % 23 == 0 && n / 23 == base / 23 + 1) by (nonlinear_arith)
                    requires
                        base % 23 == 0,
                        n == base + 23,
                ;
            }
        }
        x += step;
    }
    assert(ps@.len() == T4_INITIAL_SEEDS) by {
        if ps@.len() < T4_INITIAL_SEEDS {
            assert(x >= T4_CHUNK_EXTENT);
            assert(ps@.len() / 23 >= 23) by (nonlinear_arith)
                requires
                    5 + (ps@.len() / 23) * 11 >= 255,
            ;
            assert(ps@.len() >= 529) by (nonlinear_arith)
                requires
                    ps@.len() / 23 >= 23,
            ;
        }
    }
    ps
}

/// The walk direction (0..=3) an insect takes from its position and age.
pub open spec fn walk_direction(chunk: ChunkId, age: u64) -> u64 {
    (wrap_mul((chunk.0 as u64) ^ ((chunk.1 as u64) << 8u64) ^ age, MIX64) >> 60u64) & 3u64
}

/// The chunk an insect walks to: one cell east, west, north or south by its walk
/// direction, kept on the grid.
pub open spec fn walk_target(chunk: ChunkId, age: u64) -> ChunkId {
    let d = walk_direction(chunk, age);
    let (dx, dy) = if d == 0 { (1int, 0int) } else if d == 1 { (-1int, 0int) } else if d == 2 { (0int, 1int) } else { (0int, -1int) };
    ChunkId(
        clamp(chunk.0 + dx, 0, T4_CHUNK_EXTENT as int) as u32,
        clamp(chunk.1 + dy, 0, T4_CHUNK_EXTENT as int) as u32,
    )
}

/// One step of an insect's deterministic walk.
pub fn insect_walk_step(chunk: ChunkId, age: u64) -> (r: ChunkId)
    requires
        chunk.0 <= i32::MAX,
        chunk.1 <= i32::MAX,
    ensures
        r == walk_target(chunk, age),
{
    let hash = wrapping_mul_u64((chunk.0 as u64) ^ ((chunk.1 as u64) << 8u64) ^ age, MIX64);
    let dir = (hash >> 60u64) & 3u64;
    let (dx, dy): (i64, i64) = if dir == 0 {
        (1, 0)
    } else if dir == 1 {
        (-1, 0)
    } else if dir == 2 {
        (0, 1)
    } else {
        (0, -1)
    };
    let nx = chunk.0 as i64 + dx;
    let ny = chunk.1 as i64 + dy;
    let cx: i64 = if nx < 0 { 0 } else if nx > T4_CHUNK_EXTENT as i64 { T4_CHUNK_EXTENT as i64 } else { nx };
    let cy: i64 = if ny < 0 { 0 } else if ny > T4_CHUNK_EXTENT as i64 { T4_CHUNK_EXTENT as i64 } else { ny };
    ChunkId(cx as u32, cy as u32)
}

/// Where an insect's offspring spawns: the adjacent cell to the east, kept on the grid.
pub fn offspring_chunk(parent: ChunkId) -> (r: ChunkId)
    requires
        parent.0 < u32::MAX,
    ensures
        r == ChunkId(if parent.0 + 1 > T4_CHUNK_EXTENT { T4_CHUNK_EXTENT } else { (parent.0 + 1) as u32 }, parent.1),
{
    let x = parent.0 + 1;
    ChunkId(if x > T4_CHUNK_EXTENT { T4_CHUNK_EXTENT } else { x }, parent.1)
}

/// How many offspring may be born this update: the room left under the population cap.
pub fn repro_budget(population: usize) -> (r: usize)
    ensures
        r == if population > T4_MAX_POPULATION { 0 } else { T4_MAX_POPULATION - population },
{
    if population > T4_MAX_POPULATION { 0 } else { T4_MAX_POPULATION - population }
}

/// Grass an insect eats from a chunk holding `grass`: a quarter of it, at least one
/// unit and at most all of it.
pub fn grass_consumption(grass: u32) -> (r: u32)
    requires
        0 < grass <= 0x100_0000,
    ensures
        r == if grass / 4 < 1 { 1 } else { grass / 4 },
        1 <= r <= grass,
{
    let q = grass / 4;
    if q < 1 { 1 } else { q }
}

/// Appends `item` to a rolling history, dropping the oldest entry once it holds more
/// than `cap` entries.
pub fn push_capped<T>(history: &mut Vec<T>, item: T, cap: usize)
    ensures
        old(history)@.len() + 1 > cap && old(history)@.len() + 1 > 0 ==> final(history)@ == old(history)@.push(item).drop_first(),
        old(history)@.len() + 1 <= cap ==> final(history)@ == old(history)@.push(item),
{
    history.push(item);
    if history.len() > cap {
        history.remove(0);
        assert(history@ =~= old(history)@.push(item).drop_first());
    }
}

/// The metrics entries the growth summary samples from a history of `n` entries:
/// the first, at 10%, 25%, 50%, 75%, and the last.
pub fn summary_sample_indices(n: usize) -> (r: Vec<usize>)
    requires
        n > 0,
        n <= usize::MAX / 3,
    ensures
        r@ == seq![0usize, (n / 10) as usize, (n / 4) as usize, (n / 2) as usize, (3 * n / 4) as usize, (n - 1) as usize],
        forall|i: int| 0 <= i < r@.len() ==> #[trigger] r@[i] < n,
{
    let mut r: Vec<usize> = Vec::new();
    r.push(0);
    r.push(n / 10);
    r.push(n / 4);
    r.push(n / 2);
    r.push(3 * n / 4);
    r.push(n - 1);
    assert(r@ =~= seq![0usize, (n / 10) as usize, (n / 4) as usize, (n / 2) as usize, (3 * n / 4) as usize, (n - 1) as usize]);
    r
}


/// The single-chunk write lease the reflex layer takes for one component.
pub open spec fn write_lease_model(chunk: ChunkId, component: ComponentId, seq: u64) -> LeaseModel {
    LeaseModel {
        primary: chunk,
        fringe: Seq::empty(),
        intent: IntentModel { reads: Seq::empty(), writes: seq![component] },
        granted_at_causal_seq: seq,
    }
}

/// Takes a write lease on `chunk` for `component` and releases it at once: the write
/// it guards may proceed exactly when no granted lease blocks it, and the lease table
/// is left as it was either way.
pub fn transient_write_lease(
    chunk: ChunkId,
    component: ComponentId,
    seq: u64,
    charter: &mut SpatialCharter,
) -> (granted: bool)
    requires
        old(charter).wf(),
        old(charter).handles_issued() < u64::MAX,
        seq <= u64::MAX - 5,
    ensures
        final(charter).wf(),
        granted == unblocked(old(charter)@, write_lease_model(chunk, component, seq)),
        final(charter)@ == old(charter)@,
        granted ==> final(charter).handles_issued() == old(charter).handles_issued() + 1,
        !granted ==> final(charter).handles_issued() == old(charter).handles_issued(),
{
    let mut writes: Vec<ComponentId> = Vec::new();
    writes.push(component);
    let lease = SpatialLease {
        primary: chunk,
        fringe: Vec::new(),
        intent: LeaseIntent { reads: Vec::new(), writes },
        granted_at_causal_seq: seq,
    };
    assert(lease@.intent.writes =~= seq![component]);
    assert(lease@ =~= write_lease_model(chunk, component, seq));
    let ghost before = *charter;
    match charter.request_lease(lease, seq) {
        Ok(handle) => {
            proof {
                lemma_release_undoes_grant(&before, write_lease_model(chunk, component, seq));
            }
            charter.release_lease(handle);
            true
        },
        Err(_) => false,
    }
}

/// What an insect's attempt to eat came to.
#[derive(Clone, Copy, Debug, PartialEq, Eq, Structural)]
pub enum Tier4Eat {
    /// The chunk holds no grass.
    NoGrass,
    /// The charter refused the grass write.
    Denied,
    /// The insect ate this much grass.
    Ate(u32),
}

/// The grass a chunk holds in a sparse grass map (absent means none).
pub open spec fn grass_at(grass: Map<u64, u32>, chunk: ChunkId) -> u32 {
    if grass.contains_key(chunk_key_spec(chunk)) {
        grass[chunk_key_spec(chunk)]
    } else {
        0
    }
}

/// How much an insect eats from `avail` units of grass.
pub open spec fn consumption(avail: u32) -> u32 {
    if avail / 4 < 1 { 1 } else { (avail / 4) as u32 }
}

/// The grass map after `eaten` units are taken from `chunk`; an emptied chunk leaves
/// the map.
pub open spec fn grass_after(grass: Map<u64, u32>, chunk: ChunkId, eaten: u32) -> Map<u64, u32> {
    let left = grass_at(grass, chunk) - eaten;
    if left == 0 {
        grass.remove(chunk_key_spec(chunk))
    } else {
        grass.insert(chunk_key_spec(chunk), left as u32)
    }
}

/// An insect on `chunk` tries to eat: when the chunk holds grass it takes a grass write
/// lease, eats a quarter of the grass (at least one unit), and releases the lease.
pub fn tier4_eat_step(
    chunk: ChunkId,
    seq: u64,
    grass: &mut HashMap<u64, u32>,
    charter: &mut SpatialCharter,
) -> (r: Tier4Eat)
    requires
        old(charter).wf(),
        old(charter).handles_issued() < u64::MAX,
        seq <= u64::MAX - 5,
        grass_at(old(grass)@, chunk) <= 0x100_0000,
    ensures
        final(charter).wf(),
        final(charter)@ == old(charter)@,
        grass_at(old(grass)@, chunk) == 0 ==> r == Tier4Eat::NoGrass,
        grass_at(old(grass)@, chunk) > 0 ==> (r == Tier4Eat::Denied <==> !unblocked(
            old(charter)@,
            write_lease_model(chunk, ComponentId(TIER4_GRASS_CONSUME_COMPONENT), seq),
        )),
        grass_at(old(grass)@, chunk) > 0 && unblocked(
            old(charter)@,
            write_lease_model(chunk, ComponentId(TIER4_GRASS_CONSUME_COMPONENT), seq),
        ) ==> r == Tier4Eat::Ate(consumption(grass_at(old(grass)@, chunk))),
        r matches Tier4Eat::Ate(eaten) ==> final(grass)@ == grass_after(old(grass)@, chunk, eaten),
        !(r is Ate) ==> final(grass)@ == old(grass)@,
        r is Ate ==> final(charter).handles_issued() == old(charter).handles_issued() + 1,
        !(r is Ate) ==> final(charter).handles_issued() == old(charter).handles_issued(),
{
    let key = chunk_key(chunk);
    let avail: u32 = match grass.get(&key) {
        Some(g) => *g,
        None => 0,
    };
    if avail == 0 {
        return Tier4Eat::NoGrass;
    }
    let ghost before = *charter;
    if !transient_write_lease(chunk, ComponentId(TIER4_GRASS_CONSUME_COMPONENT), seq, charter) {
        return Tier4Eat::Denied;
    }
    let eaten = grass_consumption(avail);
    let left = avail - eaten;
    if left == 0 {
        grass.remove(&key);
    } else {
        grass.insert(key, left);
    }
    Tier4Eat::Ate(eaten)
}


/// The reflex population never grows past its cap: when at most `population` insects
/// survive an update and at most the budget's offspring are born, the new population
/// is within the cap (or within the old population, if that already exceeded it).
pub proof fn lemma_population_stays_capped(population: usize, survivors: int, births: int)
    requires
        0 <= survivors <= population,
        0 <= births <= (if population > T4_MAX_POPULATION { 0 } else { T4_MAX_POPULATION - population }),
    ensures
        survivors + births <= if population > T4_MAX_POPULATION { population as int } else { T4_MAX_POPULATION as int },
{
}

} // verus!
