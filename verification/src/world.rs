use vstd::prelude::*;
use std::collections::HashSet;
use crate::lease::ChunkId;
use crate::movement::WORLD_CHUNK_EXTENT;

verus! {

broadcast use vstd::std_specs::hash::group_hash_axioms;

/// Food sources the world keeps stocked.
pub const TARGET_FOOD_COUNT: usize = 6;
/// Water sources the world keeps stocked.
pub const TARGET_WATER_COUNT: usize = 4;
/// Grass pressure per chunk runs 0..=SIMLIFE_GRASS_MAX.
pub const SIMLIFE_GRASS_MAX: u32 = 10;
pub const SIMLIFE_BASE_FOOD_PORTIONS: u32 = 8;
pub const SIMLIFE_GRASS_TO_FOOD_DIVISOR: u32 = 2;
pub const SIMLIFE_MAX_FOOD_PORTIONS: u32 = 12;
/// Portions a respawned water source holds.
pub const RESPAWN_WATER_PORTIONS: u32 = 12;

/// Portions of a food source spawned on a chunk with `grass` pressure:
/// a base amount plus half the grass, capped.
pub fn food_portions_from_grass(grass: u32) -> (p: u32)
    ensures
        p == if SIMLIFE_BASE_FOOD_PORTIONS + grass / SIMLIFE_GRASS_TO_FOOD_DIVISOR > SIMLIFE_MAX_FOOD_PORTIONS {
            SIMLIFE_MAX_FOOD_PORTIONS as int
        } else {
            SIMLIFE_BASE_FOOD_PORTIONS + grass / SIMLIFE_GRASS_TO_FOOD_DIVISOR
        },
{
    let p = SIMLIFE_BASE_FOOD_PORTIONS + grass / SIMLIFE_GRASS_TO_FOOD_DIVISOR;
    if p > SIMLIFE_MAX_FOOD_PORTIONS { SIMLIFE_MAX_FOOD_PORTIONS } else { p }
}

/// The chunks food prefers to respawn on, in order.
pub fn preferred_food_chunks() -> (r: [ChunkId; 2])
    ensures
        r@ == seq![ChunkId(0, 0), ChunkId((WORLD_CHUNK_EXTENT - 1) as u32, (WORLD_CHUNK_EXTENT - 1) as u32)],
{
    let r = [ChunkId(0, 0), ChunkId(WORLD_CHUNK_EXTENT - 1, WORLD_CHUNK_EXTENT - 1)];
    assert(r@ =~= seq![ChunkId(0, 0), ChunkId((WORLD_CHUNK_EXTENT - 1) as u32, (WORLD_CHUNK_EXTENT - 1) as u32)]);
    r
}

/// The chunks water prefers to respawn on, in order.
pub fn preferred_water_chunks() -> (r: [ChunkId; 2])
    ensures
        r@ == seq![ChunkId(1, 0), ChunkId((WORLD_CHUNK_EXTENT - 2) as u32, (WORLD_CHUNK_EXTENT - 1) as u32)],
{
    let r = [ChunkId(1, 0), ChunkId(WORLD_CHUNK_EXTENT - 2, WORLD_CHUNK_EXTENT - 1)];
    assert(r@ =~= seq![ChunkId(1, 0), ChunkId((WORLD_CHUNK_EXTENT - 2) as u32, (WORLD_CHUNK_EXTENT - 1) as u32)]);
    r
}

/// The number a chunk is stored under in occupancy sets: `x * 2^32 + y`.
pub open spec fn chunk_key_spec(c: ChunkId) -> u64 {
    (c.0 as int * 0x1_0000_0000 + c.1 as int) as u64
}

/// The number a chunk is stored under in occupancy sets.
pub fn chunk_key(c: ChunkId) -> (k: u64)
    ensures
        k == chunk_key_spec(c),
{
    assert((c.0 as int) * 0x1_0000_0000 + (c.1 as int) <= u64::MAX) by (nonlinear_arith)
        requires
            c.0 <= u32::MAX,
            c.1 <= u32::MAX,
    ;
    (c.0 as u64) * 0x1_0000_0000 + (c.1 as u64)
}

/// Distinct chunks have distinct keys.
pub proof fn lemma_chunk_key_injective(a: ChunkId, b: ChunkId)
    ensures
        chunk_key_spec(a) == chunk_key_spec(b) ==> a == b,
{
    if chunk_key_spec(a) == chunk_key_spec(b) {
        let ka = a.0 as int * 0x1_0000_0000 + a.1 as int;
        let kb = b.0 as int * 0x1_0000_0000 + b.1 as int;
        assert(ka == kb) by (nonlinear_arith)
            requires
                ka == a.0 as int * 0x1_0000_0000 + a.1 as int,
                kb == b.0 as int * 0x1_0000_0000 + b.1 as int,
                0 <= a.0 <= u32::MAX,
                0 <= b.0 <= u32::MAX,
                0 <= a.1 <= u32::MAX,
                0 <= b.1 <= u32::MAX,
                (ka as u64) == (kb as u64),
        ;
        assert(a.0 == b.0 && a.1 == b.1) by (nonlinear_arith)
            requires
                a.0 as int * 0x1_0000_0000 + a.1 as int == b.0 as int * 0x1_0000_0000 + b.1 as int,
                0 <= a.1 < 0x1_0000_0000,
                0 <= b.1 < 0x1_0000_0000,
        ;
    }
}

/// The cells on each side of the world grid.
pub open spec fn grid_side() -> int {
    WORLD_CHUNK_EXTENT as int + 1
}

/// The grid cell at scan index `idx` (column-major: x = idx / side, y = idx % side).
pub open spec fn grid_cell(idx: int) -> ChunkId {
    ChunkId((idx / grid_side()) as u32, (idx % grid_side()) as u32)
}

/// Whether the cell at scan index `idx` is free.
pub open spec fn cell_free(occupied: Set<u64>, idx: int) -> bool {
    !occupied.contains(chunk_key_spec(grid_cell(idx)))
}

/// The first free cell scanning `offset` steps from `start`, wrapping around the grid;
/// `None` when none is free from `offset` on.
pub open spec fn scan_free_from(occupied: Set<u64>, start: int, offset: int) -> Option<ChunkId>
    decreases grid_side() * grid_side() - offset,
{
    let total = grid_side() * grid_side();
    if offset < 0 || offset >= total {
        None
    } else if cell_free(occupied, (start + offset) % total) {
        Some(grid_cell((start + offset) % total))
    } else {
        scan_free_from(occupied, start, offset + 1)
    }
}

/// Picks an empty chunk deterministically from `seed`: scanning the grid from cell
/// `seed mod cells`, wrapping around, the first chunk whose key is not in `occupied`.
/// `None` when `occupied` holds as many keys as the grid has cells, or no cell is free.
pub fn select_empty_chunk(seed: u64, occupied: &HashSet<u64>) -> (r: Option<ChunkId>)
    ensures
        r == if occupied@.len() >= grid_side() * grid_side() {
            None::<ChunkId>
        } else {
            scan_free_from(occupied@, (seed % (grid_side() * grid_side()) as u64) as int, 0)
        },
{
    let side: u64 = WORLD_CHUNK_EXTENT as u64 + 1;
    let total: u64 = side * side;
    if occupied.len() as u64 >= total {
        return None;
    }
    let start = seed % total;
    let mut offset: u64 = 0;
    while offset < total
        invariant
            side == grid_side(),
            total == grid_side() * grid_side(),
            start < total,
            start == seed % total,
            occupied@.len() < grid_side() * grid_side(),
            offset <= total,
            scan_free_from(occupied@, start as int, 0) == scan_free_from(occupied@, start as int, offset as int),
        decreases total - offset,
    {
        let idx = (start + offset) % total;
        let x = (idx / side) as u32;
        let y = (idx % side) as u32;
        let chunk = ChunkId(x, y);
        assert(chunk == grid_cell(idx as int));
        assert(idx as int == (start as int + offset as int) % (total as int));
        let key = chunk_key(chunk);
        if !occupied.contains(&key) {
            assert(cell_free(occupied@, (start as int + offset as int) % (total as int)));
            assert(scan_free_from(occupied@, start as int, offset as int) == Some(chunk));
            return Some(chunk);
        }
        offset += 1;
    }
    None
}

/// Tracks the last tick at which the respawn ran, so it runs once per tick.
#[derive(Debug)]
pub struct RespawnState {
    pub last_tick: u64,
}

impl RespawnState {
    pub fn new() -> (s: RespawnState)
        ensures
            s.last_tick == 0,
    {
        RespawnState { last_tick: 0 }
    }
}

/// Where the respawn puts new food and water this tick.
#[derive(Clone, Copy, Debug, PartialEq, Eq, Structural)]
pub struct RespawnPlan {
    pub food: Option<ChunkId>,
    pub water: Option<ChunkId>,
}

/// The first of two preferred chunks whose key is not in `occupied`, if any.
pub open spec fn first_unoccupied(prefs: Seq<ChunkId>, occupied: Set<u64>) -> Option<ChunkId> {
    if !occupied.contains(chunk_key_spec(prefs[0])) {
        Some(prefs[0])
    } else if !occupied.contains(chunk_key_spec(prefs[1])) {
        Some(prefs[1])
    } else {
        None
    }
}

/// Where new food goes: a preferred free chunk, else an empty chunk picked from `seed`.
pub open spec fn food_spot(occupied: Set<u64>, seed: u64) -> Option<ChunkId> {
    match first_unoccupied(
        seq![ChunkId(0, 0), ChunkId((WORLD_CHUNK_EXTENT - 1) as u32, (WORLD_CHUNK_EXTENT - 1) as u32)],
        occupied,
    ) {
        Some(c) => Some(c),
        None => if occupied.len() >= grid_side() * grid_side() {
            None
        } else {
            scan_free_from(occupied, (seed % (grid_side() * grid_side()) as u64) as int, 0)
        },
    }
}

/// Where new water goes: a preferred free chunk, else an empty chunk picked from `seed`.
pub open spec fn water_spot(occupied: Set<u64>, seed: u64) -> Option<ChunkId> {
    match first_unoccupied(
        seq![ChunkId(1, 0), ChunkId((WORLD_CHUNK_EXTENT - 2) as u32, (WORLD_CHUNK_EXTENT - 1) as u32)],
        occupied,
    ) {
        Some(c) => Some(c),
        None => if occupied.len() >= grid_side() * grid_side() {
            None
        } else {
            scan_free_from(occupied, (seed % (grid_side() * grid_side()) as u64) as int, 0)
        },
    }
}

fn pick_spot(prefs: [ChunkId; 2], occupied: &HashSet<u64>, seed: u64) -> (r: Option<ChunkId>)
    ensures
        r == match first_unoccupied(prefs@, occupied@) {
            Some(c) => Some(c),
            None => if occupied@.len() >= grid_side() * grid_side() {
                None
            } else {
                scan_free_from(occupied@, (seed % (grid_side() * grid_side()) as u64) as int, 0)
            },
        },
{
    if !occupied.contains(&chunk_key(prefs[0])) {
        Some(prefs[0])
    } else if !occupied.contains(&chunk_key(prefs[1])) {
        Some(prefs[1])
    } else {
        select_empty_chunk(seed, occupied)
    }
}

/// The keys of a list of chunks, as a set.
pub open spec fn key_set(s: Seq<ChunkId>) -> Set<u64> {
    s.map_values(|c: ChunkId| chunk_key_spec(c)).to_set()
}

proof fn lemma_key_set_push(s: Seq<ChunkId>, c: ChunkId)
    ensures
        key_set(s.push(c)) == key_set(s).insert(chunk_key_spec(c)),
{
    let f = |c: ChunkId| chunk_key_spec(c);
    let a = s.push(c).map_values(f);
    let b = s.map_values(f);
    assert(a =~= b.push(f(c)));
    assert forall|k: u64| a.to_set().contains(k) <==> b.to_set().insert(f(c)).contains(k) by {
        if a.contains(k) {
            let i = choose|i: int| 0 <= i < a.len() && a[i] == k;
            if i < b.len() {
                assert(b[i] == k);
            }
        }
        if b.contains(k) {
            let i = choose|i: int| 0 <= i < b.len() && b[i] == k;
            assert(a[i] == k);
        }
        if k == f(c) {
            assert(a[b.len() as int] == k);
        }
    }
    assert(a.to_set() =~= b.to_set().insert(f(c)));
}

/// Adds the keys of `chunks` to `set`.
fn insert_keys(set: &mut HashSet<u64>, chunks: &Vec<ChunkId>)
    ensures
        final(set)@ == old(set)@.union(key_set(chunks@)),
{
    let mut i: usize = 0;
    while i < chunks.len()
        invariant
            i <= chunks@.len(),
            set@ == old(set)@.union(key_set(chunks@.take(i as int))),
        decreases chunks.len() - i,
    {
        proof {
            assert(chunks@.take(i + 1) =~= chunks@.take(i as int).push(chunks@[i as int]));
            lemma_key_set_push(chunks@.take(i as int), chunks@[i as int]);
        }
        set.insert(chunk_key(chunks[i]));
        proof {
            assert(set@ =~= old(set)@.union(key_set(chunks@.take(i + 1))));
        }
        i += 1;
    }
    assert(chunks@.take(chunks@.len() as int) =~= chunks@);
}

/// Plans the respawn for tick `current`, given the chunks holding food and water (a
/// chunk may be listed more than once). It runs once per tick: at the same or an
/// earlier tick than the last run it plans nothing. With fewer distinct food chunks
/// than the target, food goes to a free preferred chunk or to an empty chunk picked
/// from `current`; with fewer distinct water chunks than the target, water goes
/// likewise (picked from `current + 1`, wrapping), never onto the chunk just chosen
/// for food.
pub fn resource_respawn_plan(
    current: u64,
    state: &mut RespawnState,
    food_chunks: &Vec<ChunkId>,
    water_chunks: &Vec<ChunkId>,
) -> (plan: RespawnPlan)
    ensures
        current <= old(state).last_tick ==> plan == (RespawnPlan { food: None, water: None })
            && final(state).last_tick == old(state).last_tick,
        current > old(state).last_tick ==> {
            let occupied = key_set(food_chunks@).union(key_set(water_chunks@));
            let food = if key_set(food_chunks@).len() < TARGET_FOOD_COUNT {
                food_spot(occupied, current)
            } else {
                None
            };
            let occupied_after = match food {
                Some(c) => occupied.insert(chunk_key_spec(c)),
                None => occupied,
            };
            &&& final(state).last_tick == current
            &&& plan.food == food
            &&& plan.water == if key_set(water_chunks@).len() < TARGET_WATER_COUNT {
                water_spot(occupied_after, if current == u64::MAX { 0 } else { (current + 1) as u64 })
            } else {
                None
            }
        },
{
    if current <= state.last_tick {
        return RespawnPlan { food: None, water: None };
    }
    state.last_tick = current;
    let mut food_set: HashSet<u64> = HashSet::new();
    insert_keys(&mut food_set, food_chunks);
    let mut water_set: HashSet<u64> = HashSet::new();
    insert_keys(&mut water_set, water_chunks);
    assert(food_set@ =~= key_set(food_chunks@));
    assert(water_set@ =~= key_set(water_chunks@));
    let mut occupied: HashSet<u64> = HashSet::new();
    insert_keys(&mut occupied, food_chunks);
    insert_keys(&mut occupied, water_chunks);
    assert(occupied@ =~= key_set(food_chunks@).union(key_set(water_chunks@)));
    let need_food = food_set.len() < TARGET_FOOD_COUNT;
    let need_water = water_set.len() < TARGET_WATER_COUNT;
    let food = if need_food { pick_spot(preferred_food_chunks(), &occupied, current) } else { None };
    match food {
        Some(c) => {
            occupied.insert(chunk_key(c));
        },
        None => {},
    }
    let water = if need_water {
        let seed = if current == u64::MAX { 0 } else { current + 1 };
        pick_spot(preferred_water_chunks(), &occupied, seed)
    } else {
        None
    };
    RespawnPlan { food, water }
}


/// The in-grid 4-neighbours of a cell, in the order left, right, down, up.
pub open spec fn neighbor_coords_spec(cx: u32, cy: u32) -> Seq<(u32, u32)> {
    (if cx > 0 { seq![((cx - 1) as u32, cy)] } else { Seq::empty() })
        + (if cx < WORLD_CHUNK_EXTENT { seq![((cx + 1) as u32, cy)] } else { Seq::empty() })
        + (if cy > 0 { seq![(cx, (cy - 1) as u32)] } else { Seq::empty() })
        + (if cy < WORLD_CHUNK_EXTENT { seq![(cx, (cy + 1) as u32)] } else { Seq::empty() })
}

/// The in-grid 4-neighbours of a cell (zero-flux boundary: off-grid sides are left out),
/// in the order left, right, down, up.
pub fn gs_neighbor_coords(cx: u32, cy: u32) -> (out: Vec<(u32, u32)>)
    ensures
        out@ == neighbor_coords_spec(cx, cy),
{
    let mut out: Vec<(u32, u32)> = Vec::new();
    if cx > 0 {
        out.push((cx - 1, cy));
    }
    let ghost a = out@;
    if cx < WORLD_CHUNK_EXTENT {
        out.push((cx + 1, cy));
    }
    let ghost b = out@;
    if cy > 0 {
        out.push((cx, cy - 1));
    }
    let ghost c = out@;
    if cy < WORLD_CHUNK_EXTENT {
        out.push((cx, cy + 1));
    }
    assert(out@ =~= neighbor_coords_spec(cx, cy));
    out
}

/// The eight substrate hotspot centres.
pub fn substrate_hotspot_centers() -> (r: [(u32, u32); 8])
    ensures
        r@ == seq![
            (32u32, 32u32),
            (32u32, 223u32),
            (223u32, 32u32),
            (223u32, 223u32),
            (127u32, 127u32),
            (127u32, 40u32),
            (40u32, 127u32),
            (215u32, 127u32),
        ],
{
    let e = WORLD_CHUNK_EXTENT;
    let r = [
        (32, 32),
        (32, e - 32),
        (e - 32, 32),
        (e - 32, e - 32),
        (e / 2, e / 2),
        (e / 2, 40),
        (40, e / 2),
        (e - 40, e / 2),
    ];
    assert(r@ =~= seq![
        (32u32, 32u32),
        (32u32, 223u32),
        (223u32, 32u32),
        (223u32, 223u32),
        (127u32, 127u32),
        (127u32, 40u32),
        (40u32, 127u32),
        (215u32, 127u32),
    ]);
    r
}

/// The centres the substrate is seeded at: the first four hotspot centres.
pub fn substrate_seed_centers() -> (r: Vec<(u32, u32)>)
    ensures
        r@ == seq![(32u32, 32u32), (32u32, 223u32), (223u32, 32u32), (223u32, 223u32)],
{
    let centers = substrate_hotspot_centers();
    let mut r: Vec<(u32, u32)> = Vec::new();
    r.push(centers[0]);
    r.push(centers[1]);
    r.push(centers[2]);
    r.push(centers[3]);
    assert(r@ =~= seq![(32u32, 32u32), (32u32, 223u32), (223u32, 32u32), (223u32, 223u32)]);
    r
}


proof fn lemma_scan_free(occupied: Set<u64>, start: int, offset: int)
    requires
        0 <= start,
    ensures
        scan_free_from(occupied, start, offset) matches Some(c) ==> !occupied.contains(chunk_key_spec(c))
            && c.0 <= WORLD_CHUNK_EXTENT && c.1 <= WORLD_CHUNK_EXTENT,
    decreases grid_side() * grid_side() - offset,
{
    let total = grid_side() * grid_side();
    if 0 <= offset < total {
        let idx = (start + offset) % total;
        if !cell_free(occupied, idx) {
            lemma_scan_free(occupied, start, offset + 1);
        } else {
            assert(0 <= idx < total);
            assert(idx / grid_side() < grid_side()) by (nonlinear_arith)
                requires
                    0 <= idx < grid_side() * grid_side(),
                    grid_side() == 256,
            ;
        }
    }
}

/// An empty chunk picked for a respawn is on the grid and not occupied.
pub proof fn lemma_picked_chunk_is_free(occupied: Set<u64>, seed: u64)
    ensures
        scan_free_from(occupied, (seed % (grid_side() * grid_side()) as u64) as int, 0) matches Some(c)
            ==> !occupied.contains(chunk_key_spec(c)) && c.0 <= WORLD_CHUNK_EXTENT && c.1 <= WORLD_CHUNK_EXTENT,
{
    lemma_scan_free(occupied, (seed % (grid_side() * grid_side()) as u64) as int, 0);
}

/// Respawned resources land on free chunks: new food is not on a chunk holding food
/// or water, and new water is on none of those nor on the chunk just chosen for food.
pub proof fn lemma_respawn_lands_on_free_chunks(occupied: Set<u64>, current: u64, water_seed: u64)
    ensures
        food_spot(occupied, current) matches Some(f) ==> !occupied.contains(chunk_key_spec(f)),
        ({
            let after = match food_spot(occupied, current) {
                Some(f) => occupied.insert(chunk_key_spec(f)),
                None => occupied,
            };
            water_spot(after, water_seed) matches Some(w) ==> {
                &&& !occupied.contains(chunk_key_spec(w))
                &&& food_spot(occupied, current) matches Some(f) ==> w != f
            }
        }),
{
    lemma_picked_chunk_is_free(occupied, current);
    let after = match food_spot(occupied, current) {
        Some(f) => occupied.insert(chunk_key_spec(f)),
        None => occupied,
    };
    lemma_picked_chunk_is_free(after, water_seed);
}

/// More grass never yields fewer food portions, and portions stay within the base
/// amount and the cap.
pub proof fn lemma_food_portions_monotone(g1: u32, g2: u32)
    requires
        g1 <= g2,
    ensures
        ({
            let p1 = if SIMLIFE_BASE_FOOD_PORTIONS + g1 / SIMLIFE_GRASS_TO_FOOD_DIVISOR > SIMLIFE_MAX_FOOD_PORTIONS {
                SIMLIFE_MAX_FOOD_PORTIONS as int
            } else {
                SIMLIFE_BASE_FOOD_PORTIONS + g1 / SIMLIFE_GRASS_TO_FOOD_DIVISOR
            };
            let p2 = if SIMLIFE_BASE_FOOD_PORTIONS + g2 / SIMLIFE_GRASS_TO_FOOD_DIVISOR > SIMLIFE_MAX_FOOD_PORTIONS {
                SIMLIFE_MAX_FOOD_PORTIONS as int
            } else {
                SIMLIFE_BASE_FOOD_PORTIONS + g2 / SIMLIFE_GRASS_TO_FOOD_DIVISOR
            };
            &&& p1 <= p2
            &&& SIMLIFE_BASE_FOOD_PORTIONS <= p1 <= SIMLIFE_MAX_FOOD_PORTIONS
        }),
{
    assert(g1 / 2 <= g2 / 2) by (nonlinear_arith)
        requires
            g1 <= g2,
    ;
}

} // verus!
