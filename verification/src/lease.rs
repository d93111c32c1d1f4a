use vstd::prelude::*;
use crate::entity::ComponentId;

verus! {

/// Opaque lease handle. Only the charter creates these, so systems cannot forge one.
#[derive(Clone, Copy, Debug, PartialEq, Eq, Hash, Structural)]
pub struct LeaseHandle(pub(crate) u64);

impl LeaseHandle {
    /// The charter-assigned number of this handle.
    pub closed spec fn raw(self) -> u64 {
        self.0
    }

    /// Builds the handle with the given number (charter use only).
    pub(crate) fn from_raw(n: u64) -> (h: LeaseHandle)
        ensures
            h.raw() == n,
    {
        LeaseHandle(n)
    }

    /// The charter-assigned number of this handle.
    pub fn id(&self) -> (r: u64)
        ensures
            r == self.raw(),
    {
        self.0
    }
}

/// Two handles are equal exactly when their numbers are.
pub proof fn lemma_handle_raw_injective(a: LeaseHandle, b: LeaseHandle)
    ensures
        (a == b) <==> (a.raw() == b.raw()),
{
}

/// A cell of the world grid.
#[derive(Clone, Copy, Debug, PartialEq, Eq, Hash, Structural)]
pub struct ChunkId(pub u32, pub u32);

#[derive(Clone, Copy, Debug, PartialEq, Eq, Structural)]
pub enum IntentType {
    Read,
    Write,
}

/// The component kinds a lease reads and writes.
#[derive(Clone, Debug)]
pub struct LeaseIntent {
    pub reads: Vec<ComponentId>,
    pub writes: Vec<ComponentId>,
}

/// Mathematical view of a lease intent.
pub ghost struct IntentModel {
    pub reads: Seq<ComponentId>,
    pub writes: Seq<ComponentId>,
}

impl View for LeaseIntent {
    type V = IntentModel;

    open spec fn view(&self) -> IntentModel {
        IntentModel { reads: self.reads@, writes: self.writes@ }
    }
}

/// A spatial lease request: a primary chunk plus a fringe margin, with an intent.
#[derive(Clone, Debug)]
pub struct SpatialLease {
    pub primary: ChunkId,
    pub fringe: Vec<ChunkId>,
    pub intent: LeaseIntent,
    pub granted_at_causal_seq: u64,
}

/// Mathematical view of a spatial lease.
pub ghost struct LeaseModel {
    pub primary: ChunkId,
    pub fringe: Seq<ChunkId>,
    pub intent: IntentModel,
    pub granted_at_causal_seq: u64,
}

impl View for SpatialLease {
    type V = LeaseModel;

    open spec fn view(&self) -> LeaseModel {
        LeaseModel {
            primary: self.primary,
            fringe: self.fringe@,
            intent: self.intent@,
            granted_at_causal_seq: self.granted_at_causal_seq,
        }
    }
}

/// The chunks a lease covers, in the order the charter examines them:
/// the fringe first, then the primary chunk.
pub open spec fn lease_chunks(l: LeaseModel) -> Seq<ChunkId> {
    l.fringe.push(l.primary)
}

/// Whether a lease covers `c`.
pub open spec fn covers(l: LeaseModel, c: ChunkId) -> bool {
    l.primary == c || l.fringe.contains(c)
}

/// Whether a requested intent is incompatible with an existing one:
/// write/write, requested write over an existing read, or requested read
/// over an existing write on a shared component. Read/read never conflicts.
pub open spec fn intents_conflict(existing: IntentModel, requested: IntentModel) -> bool {
    (exists|w: ComponentId| requested.writes.contains(w) && existing.writes.contains(w))
    || (exists|w: ComponentId| requested.writes.contains(w) && existing.reads.contains(w))
    || (exists|r: ComponentId| requested.reads.contains(r) && existing.writes.contains(r))
}

/// Why the charter refused a lease.
#[derive(Clone, Debug)]
pub enum CharterDenial {
    ChunkConflict {
        contested: Vec<ChunkId>,
        held_by: LeaseHandle,
        /// The earliest causal step at which the conflicting lease might be gone.
        retry_after_causal_seq: u64,
    },
    IntentConflict {
        component: ComponentId,
        existing_intent: IntentType,
        requested_intent: IntentType,
    },
}

/// Emitted when a lease is granted or denied on a chunk.
#[derive(Clone, Copy, Debug, PartialEq, Eq, Structural)]
pub struct CharterFlashEvent {
    pub chunk: ChunkId,
    pub granted: bool,
}

/// A copy of a chunk list.
pub fn copy_chunks(v: &Vec<ChunkId>) -> (r: Vec<ChunkId>)
    ensures
        r@ == v@,
{
    let mut r: Vec<ChunkId> = Vec::new();
    let mut i: usize = 0;
    while i < v.len()
        invariant
            i <= v.len(),
            r@ == v@.subrange(0, i as int),
        decreases v.len() - i,
    {
        r.push(v[i]);
        i += 1;
        assert(r@ =~= v@.subrange(0, i as int));
    }
    assert(r@ =~= v@);
    r
}

/// A copy of a component list.
pub fn copy_components(v: &Vec<ComponentId>) -> (r: Vec<ComponentId>)
    ensures
        r@ == v@,
{
    let mut r: Vec<ComponentId> = Vec::new();
    let mut i: usize = 0;
    while i < v.len()
        invariant
            i <= v.len(),
            r@ == v@.subrange(0, i as int),
        decreases v.len() - i,
    {
        r.push(v[i]);
        i += 1;
        assert(r@ =~= v@.subrange(0, i as int));
    }
    assert(r@ =~= v@);
    r
}

impl LeaseIntent {
    /// A copy of this intent.
    pub fn duplicate(&self) -> (r: LeaseIntent)
        ensures
            r@ == self@,
    {
        LeaseIntent { reads: copy_components(&self.reads), writes: copy_components(&self.writes) }
    }
}

impl SpatialLease {
    /// A copy of this lease.
    pub fn duplicate(&self) -> (r: SpatialLease)
        ensures
            r@ == self@,
    {
        SpatialLease {
            primary: self.primary,
            fringe: copy_chunks(&self.fringe),
            intent: self.intent.duplicate(),
            granted_at_causal_seq: self.granted_at_causal_seq,
        }
    }

    /// Whether this lease covers `chunk`.
    pub fn covers_chunk(&self, chunk: ChunkId) -> (r: bool)
        ensures
            r == covers(self@, chunk),
    {
        if self.primary == chunk {
            return true;
        }
        let mut i: usize = 0;
        while i < self.fringe.len()
            invariant
                i <= self.fringe.len(),
                forall|j: int| 0 <= j < i ==> self.fringe@[j] != chunk,
            decreases self.fringe.len() - i,
        {
            if self.fringe[i] == chunk {
                assert(self.fringe@[i as int] == chunk);
                return true;
            }
            i += 1;
        }
        false
    }
}

} // verus!
