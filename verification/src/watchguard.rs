use vstd::prelude::*;
use crate::entity::{contains_component, ComponentId, EntityId};
use crate::lease::{covers, ChunkId, LeaseModel, SpatialLease};

verus! {

/// One write performed under a lease this frame, with a snapshot of the lease
/// taken before it was released.
#[derive(Clone, Debug)]
pub struct FrameWrite {
    pub actor: EntityId,
    pub chunk: ChunkId,
    pub component: ComponentId,
    pub lease_snapshot: Option<SpatialLease>,
}

/// Mathematical view of a logged write.
pub ghost struct FrameWriteModel {
    pub actor: EntityId,
    pub chunk: ChunkId,
    pub component: ComponentId,
    pub lease_snapshot: Option<LeaseModel>,
}

impl View for FrameWrite {
    type V = FrameWriteModel;

    open spec fn view(&self) -> FrameWriteModel {
        FrameWriteModel {
            actor: self.actor,
            chunk: self.chunk,
            component: self.component,
            lease_snapshot: match self.lease_snapshot {
                Some(l) => Some(l@),
                None => None,
            },
        }
    }
}

/// A write is backed by its lease when the lease covers the written chunk and
/// declares the written component among its writes.
pub open spec fn write_backed(w: FrameWriteModel) -> bool {
    match w.lease_snapshot {
        Some(l) => covers(l, w.chunk) && l.intent.writes.contains(w.component),
        None => false,
    }
}

/// The logged writes, in order.
pub open spec fn writes_view(s: Seq<FrameWrite>) -> Seq<FrameWriteModel> {
    s.map_values(|w: FrameWrite| w@)
}

/// Writes performed under lease this frame. Action systems log; the watchguard checks and clears.
#[derive(Debug)]
pub struct FrameWriteLog {
    pub entries: Vec<FrameWrite>,
}

impl FrameWrite {
    /// A copy of this logged write.
    pub fn duplicate(&self) -> (r: FrameWrite)
        ensures
            r@ == self@,
    {
        let lease_snapshot = match &self.lease_snapshot {
            Some(l) => Some(l.duplicate()),
            None => None,
        };
        FrameWrite { actor: self.actor, chunk: self.chunk, component: self.component, lease_snapshot }
    }

    /// Whether this write is backed by its lease snapshot.
    pub fn is_backed(&self) -> (r: bool)
        ensures
            r == write_backed(self@),
    {
        match &self.lease_snapshot {
            Some(lease) => {
                let chunk_ok = lease.covers_chunk(self.chunk);
                let intent_ok = contains_component(&lease.intent.writes, self.component);
                chunk_ok && intent_ok
            },
            None => false,
        }
    }
}

impl FrameWriteLog {
    /// An empty log.
    pub fn new() -> (l: FrameWriteLog)
        ensures
            l.entries@.len() == 0,
    {
        FrameWriteLog { entries: Vec::new() }
    }

    /// Records one write.
    pub fn log(
        &mut self,
        actor: EntityId,
        chunk: ChunkId,
        component: ComponentId,
        lease_snapshot: Option<SpatialLease>,
    )
        ensures
            final(self).entries@ == old(self).entries@.push(
                FrameWrite { actor, chunk, component, lease_snapshot },
            ),
    {
        self.entries.push(FrameWrite { actor, chunk, component, lease_snapshot });
    }
}

impl Default for FrameWriteLog {
    fn default() -> (l: FrameWriteLog)
        ensures
            l.entries@.len() == 0,
    {
        FrameWriteLog::new()
    }
}

/// Checks every logged write against its lease snapshot, returns the writes that were
/// not backed by their lease (in log order), and clears the log.
pub fn charter_watchguard_system(log: &mut FrameWriteLog) -> (violations: Vec<FrameWrite>)
    ensures
        final(log).entries@.len() == 0,
        writes_view(violations@) == writes_view(old(log).entries@).filter(
            |w: FrameWriteModel| !write_backed(w),
        ),
{
    let ghost all = writes_view(log.entries@);
    let ghost pred = |w: FrameWriteModel| !write_backed(w);
    let mut violations: Vec<FrameWrite> = Vec::new();
    let mut i: usize = 0;
    while i < log.entries.len()
        invariant
            i <= log.entries.len(),
            all == writes_view(log.entries@),
            pred == |w: FrameWriteModel| !write_backed(w),
            writes_view(violations@) == all.take(i as int).filter(pred),
        decreases log.entries.len() - i,
    {
        let entry = &log.entries[i];
        proof {
            assert(all.take(i + 1) =~= all.take(i as int).push(all[i as int]));
            all.take(i as int).lemma_filter_push(all[i as int], pred);
        }
        if !entry.is_backed() {
            let copy = entry.duplicate();
            let ghost before = violations@;
            violations.push(copy);
            assert(writes_view(violations@) =~= writes_view(before).push(copy@));
        }
        i += 1;
    }
    assert(all.take(all.len() as int) =~= all);
    log.entries.clear();
    violations
}

} // verus!
