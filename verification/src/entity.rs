use vstd::prelude::*;

verus! {

/// Stable identity of a simulated entity (pawn, resource, item holder).
#[derive(Clone, Copy, Debug, PartialEq, Eq, Hash, Structural)]
pub struct EntityId(pub u64);

/// Identity of a component kind named in a lease intent.
#[derive(Clone, Copy, Debug, PartialEq, Eq, Hash, Structural)]
pub struct ComponentId(pub u64);

/// Component kind: a food reservation's portions.
pub const FOOD_RESERVATION_COMPONENT: u64 = 1;
/// Component kind: a water source's portions.
pub const WATER_SOURCE_COMPONENT: u64 = 2;
/// Component kind: a rest spot.
pub const REST_SPOT_COMPONENT: u64 = 3;
/// Component kind: a chunk's grass biomass, written when an insect eats.
pub const TIER4_GRASS_CONSUME_COMPONENT: u64 = 4;
/// Component kind: a chunk's chemistry noise floor, written on decomposition.
pub const TIER4_DECOMP_COMPONENT: u64 = 5;
/// Component kind: a chunk's insect roster, written when an insect reproduces.
pub const TIER4_REPRODUCE_COMPONENT: u64 = 6;
/// Component kind: a chunk's Gray-Scott substrate and biomass fields.
pub const SIMLIFE_GRAY_SCOTT_COMPONENT: u64 = 7;
/// Component kind: a chunk's chemistry receptor noise floor.
pub const CHEMISTRY_NOISE_FLOOR_COMPONENT: u64 = 8;
/// Component kind: a chunk's local temperature.
pub const THERMAL_FIELD_COMPONENT: u64 = 9;
/// Component kind: a region's hypergraph outputs.
pub const HYPERGRAPH_OUTPUT_COMPONENT: u64 = 10;

/// Whether `xs` holds `x`.
pub fn contains_component(xs: &Vec<ComponentId>, x: ComponentId) -> (found: bool)
    ensures
        found == xs@.contains(x),
{
    let mut i: usize = 0;
    while i < xs.len()
        invariant
            i <= xs.len(),
            forall|j: int| 0 <= j < i ==> xs@[j] != x,
        decreases xs.len() - i,
    {
        if xs[i] == x {
            assert(xs@[i as int] == x);
            return true;
        }
        i += 1;
    }
    false
}

} // verus!
