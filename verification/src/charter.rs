use vstd::prelude::*;
use crate::entity::{contains_component, ComponentId};
use crate::lease::{lemma_handle_raw_injective, covers, intents_conflict, lease_chunks, copy_chunks, CharterDenial, ChunkId, IntentModel, LeaseHandle, LeaseIntent, LeaseModel, SpatialLease};

verus! {

/// A granted lease together with its handle.
#[derive(Clone, Debug)]
pub struct ActiveLease {
    pub handle: LeaseHandle,
    pub lease: SpatialLease,
}

/// Mathematical view of a granted lease.
pub ghost struct ActiveModel {
    pub handle: u64,
    pub lease: LeaseModel,
}

impl View for ActiveLease {
    type V = ActiveModel;

    open spec fn view(&self) -> ActiveModel {
        ActiveModel { handle: self.handle.raw(), lease: self.lease@ }
    }
}

/// Whether the granted lease `a` blocks a request with intent `req` on chunk `c`.
pub open spec fn lease_blocks(a: ActiveModel, c: ChunkId, req: IntentModel) -> bool {
    covers(a.lease, c) && intents_conflict(a.lease.intent, req)
}

/// The handle of the first granted lease, from position `i` on, that blocks `req` on `c`.
pub open spec fn first_blocker_from(
    active: Seq<ActiveModel>,
    c: ChunkId,
    req: IntentModel,
    i: int,
) -> Option<u64>
    decreases active.len() - i,
{
    if i < 0 || i >= active.len() {
        None
    } else if lease_blocks(active[i], c, req) {
        Some(active[i].handle)
    } else {
        first_blocker_from(active, c, req, i + 1)
    }
}

/// The first (chunk, holder) pair, from chunk position `j` on, at which `req` is blocked.
pub open spec fn first_conflict_from(
    active: Seq<ActiveModel>,
    chunks: Seq<ChunkId>,
    req: IntentModel,
    j: int,
) -> Option<(ChunkId, u64)>
    decreases chunks.len() - j,
{
    if j < 0 || j >= chunks.len() {
        None
    } else {
        match first_blocker_from(active, chunks[j], req, 0) {
            Some(h) => Some((chunks[j], h)),
            None => first_conflict_from(active, chunks, req, j + 1),
        }
    }
}

/// The conflict the charter reports for a request: the first chunk of the request
/// (fringe first, then primary) on which some granted lease blocks it, and the first
/// such lease in grant order.
pub open spec fn first_conflict(active: Seq<ActiveModel>, req: LeaseModel) -> Option<(ChunkId, u64)> {
    first_conflict_from(active, lease_chunks(req), req.intent, 0)
}

/// No granted lease blocks the request on any chunk it covers.
pub open spec fn unblocked(active: Seq<ActiveModel>, req: LeaseModel) -> bool {
    forall|k: int, c: ChunkId|
        #![trigger active[k], covers(req, c)]
        0 <= k < active.len() && covers(req, c) ==> !lease_blocks(active[k], c, req.intent)
}

/// Mutual exclusion: no two granted leases that share a chunk hold incompatible intents.
pub open spec fn exclusive(active: Seq<ActiveModel>) -> bool {
    forall|i: int, j: int, c: ChunkId|
        #![trigger active[i], active[j], covers(active[i].lease, c)]
        0 <= i < j < active.len() && covers(active[i].lease, c) && covers(active[j].lease, c)
            ==> !intents_conflict(active[i].lease.intent, active[j].lease.intent)
}

/// Handles grow strictly with grant order and stay below the next handle to issue.
pub open spec fn handles_ordered(active: Seq<ActiveModel>, issued: u64) -> bool {
    &&& forall|i: int| #![trigger active[i]] 0 <= i < active.len() ==> active[i].handle < issued
    &&& forall|i: int, j: int|
        #![trigger active[i], active[j]]
        0 <= i < j < active.len() ==> active[i].handle < active[j].handle
}

/// Whether some granted lease is held under handle number `h`.
pub open spec fn holds_handle(active: Seq<ActiveModel>, h: u64) -> bool {
    exists|k: int| 0 <= k < active.len() && #[trigger] active[k].handle == h
}

/// The lease table after releasing handle number `h`: the lease held under it is
/// removed; nothing changes when no lease is held under it.
pub open spec fn released(active: Seq<ActiveModel>, h: u64) -> Seq<ActiveModel> {
    if holds_handle(active, h) {
        active.remove(choose|k: int| 0 <= k < active.len() && #[trigger] active[k].handle == h)
    } else {
        active
    }
}

/// The active leases, held in grant order.
#[derive(Debug)]
pub struct SpatialCharter {
    next_handle_id: u64,
    leases: Vec<ActiveLease>,
}

impl View for SpatialCharter {
    type V = Seq<ActiveModel>;

    closed spec fn view(&self) -> Seq<ActiveModel> {
        self.leases@.map_values(|a: ActiveLease| a@)
    }
}

proof fn lemma_blocker_none(active: Seq<ActiveModel>, c: ChunkId, req: IntentModel, i: int)
    requires
        0 <= i <= active.len(),
    ensures
        first_blocker_from(active, c, req, i) is None <==> (forall|k: int|
            i <= k < active.len() ==> !lease_blocks(#[trigger] active[k], c, req)),
        first_blocker_from(active, c, req, i) matches Some(h) ==> exists|k: int|
            i <= k < active.len() && lease_blocks(#[trigger] active[k], c, req) && active[k].handle
                == h,
    decreases active.len() - i,
{
    if i < active.len() {
        lemma_blocker_none(active, c, req, i + 1);
    }
}

proof fn lemma_conflict_none(active: Seq<ActiveModel>, chunks: Seq<ChunkId>, req: IntentModel, j: int)
    requires
        0 <= j <= chunks.len(),
    ensures
        first_conflict_from(active, chunks, req, j) is None <==> (forall|m: int, k: int|
            j <= m < chunks.len() && 0 <= k < active.len() ==> !lease_blocks(
                #[trigger] active[k],
                #[trigger] chunks[m],
                req,
            )),
    decreases chunks.len() - j,
{
    lemma_blocker_none(active, chunks[j], req, 0);
    if j < chunks.len() {
        lemma_conflict_none(active, chunks, req, j + 1);
        lemma_blocker_none(active, chunks[j], req, 0);
        if first_blocker_from(active, chunks[j], req, 0) is None {
            assert forall|m: int, k: int|
                j <= m < chunks.len() && 0 <= k < active.len()
                    && first_conflict_from(active, chunks, req, j) is None implies !lease_blocks(
                #[trigger] active[k],
                #[trigger] chunks[m],
                req,
            ) by {
                if m > j {
                } else {
                }
            }
        }
    }
}

/// The charter grants a request exactly when no granted lease blocks it on any chunk it covers.
pub proof fn lemma_first_conflict_none_iff_unblocked(active: Seq<ActiveModel>, req: LeaseModel)
    ensures
        first_conflict(active, req) is None <==> unblocked(active, req),
{
    let chunks = lease_chunks(req);
    lemma_conflict_none(active, chunks, req.intent, 0);
    assert forall|c: ChunkId| covers(req, c) <==> chunks.contains(c) by {
        if covers(req, c) {
            if req.primary == c {
                assert(chunks[chunks.len() - 1] == c);
            } else {
                let k = choose|k: int| 0 <= k < req.fringe.len() && req.fringe[k] == c;
                assert(chunks[k] == c);
            }
        }
        if chunks.contains(c) {
            let k = choose|k: int| 0 <= k < chunks.len() && chunks[k] == c;
            if k < req.fringe.len() {
                assert(req.fringe[k] == c);
            }
        }
    }
    if first_conflict(active, req) is None {
        assert forall|k: int, c: ChunkId|
            #![trigger active[k], covers(req, c)]
            0 <= k < active.len() && covers(req, c) implies !lease_blocks(
            active[k],
            c,
            req.intent,
        ) by {
            let m = choose|m: int| 0 <= m < chunks.len() && chunks[m] == c;
            assert(!lease_blocks(active[k], chunks[m], req.intent));
        }
    }
    if unblocked(active, req) {
        assert forall|m: int, k: int|
            0 <= m < chunks.len() && 0 <= k < active.len() implies !lease_blocks(
            #[trigger] active[k],
            #[trigger] chunks[m],
            req.intent,
        ) by {
            assert(chunks.contains(chunks[m]));
            assert(covers(req, chunks[m]));
        }
    }
}

impl SpatialCharter {
    /// The number of handles issued so far; the next grant receives this number.
    pub closed spec fn handles_issued(&self) -> u64 {
        self.next_handle_id
    }

    /// The charter's internal consistency: exclusive, with ordered handles.
    pub closed spec fn wf(&self) -> bool {
        &&& exclusive(self@)
        &&& handles_ordered(self@, self.next_handle_id)
    }

    /// In a consistent charter no two granted leases share a handle.
    pub proof fn lemma_handles_unique(&self)
        requires
            self.wf(),
        ensures
            forall|i: int, j: int|
                0 <= i < self@.len() && 0 <= j < self@.len() && i != j ==> #[trigger] self@[i].handle
                    != #[trigger] self@[j].handle,
    {
        assert forall|i: int, j: int|
            0 <= i < self@.len() && 0 <= j < self@.len() && i != j implies #[trigger] self@[i].handle
                != #[trigger] self@[j].handle by {
            if i < j {
                assert(self@[i].handle < self@[j].handle);
            } else {
                assert(self@[j].handle < self@[i].handle);
            }
        }
    }

    /// An empty charter.
    pub fn new() -> (c: SpatialCharter)
        ensures
            c.wf(),
            c@ == Seq::<ActiveModel>::empty(),
            c.handles_issued() == 0,
    {
        let c = SpatialCharter { next_handle_id: 0, leases: Vec::new() };
        assert(c@ =~= Seq::<ActiveModel>::empty());
        c
    }

    /// Whether the requested intent is incompatible with the existing one.
    fn check_intent_conflict(&self, existing: &LeaseIntent, requested: &LeaseIntent) -> (r: Option<()>)
        ensures
            r is Some <==> intents_conflict(existing@, requested@),
    {
        // Write vs Write
        let mut i: usize = 0;
        while i < requested.writes.len()
            invariant
                i <= requested.writes.len(),
                forall|k: int|
                    0 <= k < i ==> !existing.writes@.contains(#[trigger] requested.writes@[k]),
            decreases requested.writes.len() - i,
        {
            if contains_component(&existing.writes, requested.writes[i]) {
                let ghost w = requested.writes@[i as int];
                assert(requested@.writes.contains(w) && existing@.writes.contains(w));
                return Some(());
            }
            i += 1;
        }
        // Requested Write vs Existing Read
        let mut i: usize = 0;
        while i < requested.writes.len()
            invariant
                i <= requested.writes.len(),
                forall|k: int|
                    0 <= k < i ==> !existing.reads@.contains(#[trigger] requested.writes@[k]),
            decreases requested.writes.len() - i,
        {
            if contains_component(&existing.reads, requested.writes[i]) {
                let ghost w = requested.writes@[i as int];
                assert(requested@.writes.contains(w) && existing@.reads.contains(w));
                return Some(());
            }
            i += 1;
        }
        // Requested Read vs Existing Write
        let mut i: usize = 0;
        while i < requested.reads.len()
            invariant
                i <= requested.reads.len(),
                forall|k: int|
                    0 <= k < i ==> !existing.writes@.contains(#[trigger] requested.reads@[k]),
            decreases requested.reads.len() - i,
        {
            if contains_component(&existing.writes, requested.reads[i]) {
                let ghost w = requested.reads@[i as int];
                assert(requested@.reads.contains(w) && existing@.writes.contains(w));
                return Some(());
            }
            i += 1;
        }
        // Read vs Read represents no conflict.
        None
    }

    /// Requests a lease. It is granted, under the next handle, exactly when no granted
    /// lease blocks it; otherwise the first blocking chunk and its holder are reported.
    pub fn request_lease(&mut self, request: SpatialLease, current_causal_seq: u64) -> (r: Result<
        LeaseHandle,
        CharterDenial,
    >)
        requires
            old(self).wf(),
            old(self).handles_issued() < u64::MAX,
            current_causal_seq <= u64::MAX - 5,
        ensures
            final(self).wf(),
            r is Ok <==> first_conflict(old(self)@, request@) is None,
            r is Ok <==> unblocked(old(self)@, request@),
            r matches Ok(h) ==> {
                &&& h.raw() == old(self).handles_issued()
                &&& !holds_handle(old(self)@, h.raw())
                &&& final(self)@ == old(self)@.push(ActiveModel { handle: h.raw(), lease: request@ })
                &&& final(self).handles_issued() == old(self).handles_issued() + 1
            },
            r matches Err(d) ==> {
                &&& final(self)@ == old(self)@
                &&& final(self).handles_issued() == old(self).handles_issued()
                &&& first_conflict(old(self)@, request@) matches Some((chunk, holder))
                    && d matches CharterDenial::ChunkConflict {
                    contested,
                    held_by,
                    retry_after_causal_seq,
                } && contested@ == seq![chunk] && held_by.raw() == holder
                    && retry_after_causal_seq == current_causal_seq + 5
            },
    {
        proof {
            lemma_first_conflict_none_iff_unblocked(self@, request@);
        }
        let mut all_chunks = copy_chunks(&request.fringe);
        all_chunks.push(request.primary);
        assert(all_chunks@ == lease_chunks(request@));
        let ghost active = self@;
        let ghost req = request.intent@;
        let mut j: usize = 0;
        while j < all_chunks.len()
            invariant
                j <= all_chunks.len(),
                active == self@,
                active == old(self)@,
                self.wf(),
                self.next_handle_id == old(self).next_handle_id,
                req == request.intent@,
                all_chunks@ == lease_chunks(request@),
                first_conflict_from(active, all_chunks@, req, 0) == first_conflict_from(
                    active,
                    all_chunks@,
                    req,
                    j as int,
                ),
                current_causal_seq <= u64::MAX - 5,
            decreases all_chunks.len() - j,
        {
            let chunk = all_chunks[j];
            let mut i: usize = 0;
            while i < self.leases.len()
                invariant
                    i <= self.leases.len(),
                    active == self@,
                    active == old(self)@,
                    self.wf(),
                    self.next_handle_id == old(self).next_handle_id,
                    req == request.intent@,
                    all_chunks@ == lease_chunks(request@),
                    first_conflict_from(active, all_chunks@, req, 0) == first_conflict_from(
                        active,
                        all_chunks@,
                        req,
                        j as int,
                    ),
                    chunk == all_chunks@[j as int],
                    j < all_chunks.len(),
                    first_blocker_from(active, chunk, req, 0) == first_blocker_from(
                        active,
                        chunk,
                        req,
                        i as int,
                    ),
                    current_causal_seq <= u64::MAX - 5,
                decreases self.leases.len() - i,
            {
                let active_lease = &self.leases[i];
                assert(active[i as int] == active_lease@);
                if active_lease.lease.covers_chunk(chunk) {
                    if self.check_intent_conflict(&active_lease.lease.intent, &request.intent).is_some() {
                        let held_by = active_lease.handle;
                        let contested = vec![chunk];
                        assert(contested@ =~= seq![chunk]);
                        assert(lease_blocks(active[i as int], chunk, req));
                        assert(first_blocker_from(active, chunk, req, i as int) == Some(held_by.raw()));
                        proof {
                            lemma_first_conflict_none_iff_unblocked(active, request@);
                        }
                        return Err(
                            CharterDenial::ChunkConflict {
                                contested,
                                held_by,
                                retry_after_causal_seq: current_causal_seq + 5,
                            },
                        );
                    }
                }
                i += 1;
            }
            j += 1;
        }
        let new_handle = LeaseHandle::from_raw(self.next_handle_id);
        self.next_handle_id = self.next_handle_id + 1;
        let entry = ActiveLease { handle: new_handle, lease: request };
        self.leases.push(entry);
        proof {
            let s = self@;
            assert(s =~= active.push(ActiveModel { handle: new_handle.raw(), lease: request@ }));
            assert forall|i: int, j: int, c: ChunkId|
                #![trigger s[i], s[j], covers(s[i].lease, c)]
                0 <= i < j < s.len() && covers(s[i].lease, c) && covers(s[j].lease, c)
                    implies !intents_conflict(s[i].lease.intent, s[j].lease.intent) by {
                if j == s.len() - 1 {
                    assert(active[i] == s[i]);
                    assert(!lease_blocks(active[i], c, request@.intent));
                } else {
                    assert(active[i] == s[i] && active[j] == s[j]);
                }
            }
        }
        Ok(new_handle)
    }

    /// Releases the lease held under `handle`; unknown handles leave the charter unchanged.
    pub fn release_lease(&mut self, handle: LeaseHandle)
        requires
            old(self).wf(),
        ensures
            final(self).wf(),
            final(self).handles_issued() == old(self).handles_issued(),
            forall|k: int|
                0 <= k < old(self)@.len() && #[trigger] old(self)@[k].handle == handle.raw()
                    ==> final(self)@ == old(self)@.remove(k),
            (forall|k: int| 0 <= k < old(self)@.len() ==> #[trigger] old(self)@[k].handle != handle.raw())
                ==> final(self)@ == old(self)@,
            final(self)@ == released(old(self)@, handle.raw()),
    {
        let ghost active = self@;
        let mut i: usize = 0;
        while i < self.leases.len()
            invariant
                i <= self.leases.len(),
                active == self@,
                self.next_handle_id == old(self).next_handle_id,
                active == old(self)@,
                exclusive(active),
                handles_ordered(active, self.next_handle_id),
                forall|k: int| 0 <= k < i ==> #[trigger] active[k].handle != handle.raw(),
            decreases self.leases.len() - i,
        {
            assert(active[i as int] == self.leases@[i as int]@);
            proof {
                lemma_handle_raw_injective(self.leases@[i as int].handle, handle);
            }
            if self.leases[i].handle == handle {
                self.leases.remove(i);
                proof {
                    let s = self@;
                    assert(s =~= active.remove(i as int));
                    assert(holds_handle(active, handle.raw()));
                    let kk = choose|k: int| 0 <= k < active.len() && #[trigger] active[k].handle == handle.raw();
                    if kk != i {
                        if kk < i {
                            assert(active[kk].handle < active[i as int].handle);
                        } else {
                            assert(active[i as int].handle < active[kk].handle);
                        }
                    }
                    assert forall|k: int|
                        0 <= k < active.len() && #[trigger] active[k].handle == handle.raw()
                            implies s == active.remove(k) by {
                        if k != i {
                            if k < i {
                            } else {
                                assert(active[k].handle > active[i as int].handle);
                            }
                        }
                    }
                    assert forall|a: int, b: int, c: ChunkId|
                        #![trigger s[a], s[b], covers(s[a].lease, c)]
                        0 <= a < b < s.len() && covers(s[a].lease, c) && covers(s[b].lease, c)
                            implies !intents_conflict(s[a].lease.intent, s[b].lease.intent) by {
                        let a0 = if a < i { a } else { a + 1 };
                        let b0 = if b < i { b } else { b + 1 };
                        assert(s[a] == active[a0] && s[b] == active[b0]);
                    }
                    assert forall|a: int, b: int|
                        #![trigger s[a], s[b]]
                        0 <= a < b < s.len() implies s[a].handle < s[b].handle by {
                        let a0 = if a < i { a } else { a + 1 };
                        let b0 = if b < i { b } else { b + 1 };
                        assert(s[a] == active[a0] && s[b] == active[b0]);
                    }
                    assert forall|a: int| #![trigger s[a]] 0 <= a < s.len() implies s[a].handle
                        < self.next_handle_id by {
                        let a0 = if a < i { a } else { a + 1 };
                        assert(s[a] == active[a0]);
                    }
                }
                return;
            }
            i += 1;
        }
    }

    /// The lease held under `handle`, or `None` once it has been released.
    pub fn get_lease(&self, handle: LeaseHandle) -> (r: Option<&SpatialLease>)
        requires
            self.wf(),
        ensures
            r matches Some(l) ==> exists|k: int|
                0 <= k < self@.len() && #[trigger] self@[k].handle == handle.raw() && l@
                    == self@[k].lease,
            r is None ==> forall|k: int|
                0 <= k < self@.len() ==> #[trigger] self@[k].handle != handle.raw(),
    {
        let mut i: usize = 0;
        while i < self.leases.len()
            invariant
                i <= self.leases.len(),
                forall|k: int| 0 <= k < i ==> #[trigger] self@[k].handle != handle.raw(),
            decreases self.leases.len() - i,
        {
            assert(self@[i as int] == self.leases@[i as int]@);
            proof {
                lemma_handle_raw_injective(self.leases@[i as int].handle, handle);
            }
            if self.leases[i].handle == handle {
                assert(self@[i as int].handle == handle.raw());
                return Some(&self.leases[i].lease);
            }
            i += 1;
        }
        None
    }

    /// The number of handles issued so far.
    pub fn issued_count(&self) -> (n: u64)
        ensures
            n == self.handles_issued(),
    {
        self.next_handle_id
    }

    /// The number of active leases.
    pub fn active_count(&self) -> (n: usize)
        ensures
            n == self@.len(),
    {
        self.leases.len()
    }
}

impl Default for SpatialCharter {
    fn default() -> (c: SpatialCharter)
        ensures
            c.wf(),
            c@ == Seq::<ActiveModel>::empty(),
            c.handles_issued() == 0,
    {
        SpatialCharter::new()
    }
}


/// Conflict between intents does not depend on which lease came first.
pub proof fn lemma_intents_conflict_symmetric(a: IntentModel, b: IntentModel)
    ensures
        intents_conflict(a, b) <==> intents_conflict(b, a),
{
}

/// Leases that only read never conflict with one another.
pub proof fn lemma_reads_never_conflict(existing: IntentModel, requested: IntentModel)
    requires
        existing.writes.len() == 0,
        requested.writes.len() == 0,
    ensures
        !intents_conflict(existing, requested),
{
}

/// Mutual exclusion: in a consistent charter, two different granted leases that
/// cover a common chunk never hold conflicting intents, in either order.
pub proof fn lemma_active_leases_exclusive(charter: &SpatialCharter, i: int, j: int, c: ChunkId)
    requires
        charter.wf(),
        0 <= i < charter@.len(),
        0 <= j < charter@.len(),
        i != j,
        covers(charter@[i].lease, c),
        covers(charter@[j].lease, c),
    ensures
        !intents_conflict(charter@[i].lease.intent, charter@[j].lease.intent),
        !intents_conflict(charter@[j].lease.intent, charter@[i].lease.intent),
{
    let s = charter@;
    if i < j {
        assert(!intents_conflict(s[i].lease.intent, s[j].lease.intent));
    } else {
        assert(!intents_conflict(s[j].lease.intent, s[i].lease.intent));
    }
    lemma_intents_conflict_symmetric(s[i].lease.intent, s[j].lease.intent);
}

/// An empty charter grants any request.
pub proof fn lemma_empty_charter_grants(req: LeaseModel)
    ensures
        unblocked(Seq::<ActiveModel>::empty(), req),
        first_conflict(Seq::<ActiveModel>::empty(), req) is None,
{
    lemma_first_conflict_none_iff_unblocked(Seq::<ActiveModel>::empty(), req);
}

/// Releasing the handle a grant just issued restores the lease table as it was
/// before the grant.
pub proof fn lemma_release_undoes_grant(charter: &SpatialCharter, lease: LeaseModel)
    requires
        charter.wf(),
    ensures
        released(charter@.push(ActiveModel { handle: charter.handles_issued(), lease }), charter.handles_issued())
            == charter@,
{
    let active = charter@;
    let issued = charter.handles_issued();
    let s = active.push(ActiveModel { handle: issued, lease });
    assert(s[s.len() - 1].handle == issued);
    assert(holds_handle(s, issued));
    let k = choose|k: int| 0 <= k < s.len() && #[trigger] s[k].handle == issued;
    if k < active.len() {
        assert(s[k] == active[k]);
        assert(active[k].handle < issued);
    }
    assert(s.remove(k) =~= active);
}

/// After a grant, the charter holds the granted lease under the issued handle.
pub proof fn lemma_granted_lease_is_held(charter: &SpatialCharter, lease: LeaseModel)
    requires
        charter.wf(),
    ensures
        ({
            let s = charter@.push(ActiveModel { handle: charter.handles_issued(), lease });
            &&& holds_handle(s, charter.handles_issued())
            &&& forall|k: int|
                0 <= k < s.len() && #[trigger] s[k].handle == charter.handles_issued() ==> s[k].lease == lease
        }),
{
    let active = charter@;
    let issued = charter.handles_issued();
    let s = active.push(ActiveModel { handle: issued, lease });
    assert(s[s.len() - 1].handle == issued);
    assert forall|k: int| 0 <= k < active.len() + 1 && #[trigger] s[k].handle == issued implies s[k].lease == lease by {
        if k < active.len() {
            assert(s[k] == active[k]);
        }
    }
}


/// Contested writes are exclusive: while a granted lease writes component `w` on chunk
/// `c`, every further request to write `w` on `c` is refused (and the refusal names a
/// conflict), so at most one contender holds the write at a time.
pub proof fn lemma_contested_write_refused(
    active: Seq<ActiveModel>,
    k: int,
    req: LeaseModel,
    c: ChunkId,
    w: ComponentId,
)
    requires
        0 <= k < active.len(),
        covers(active[k].lease, c),
        active[k].lease.intent.writes.contains(w),
        covers(req, c),
        req.intent.writes.contains(w),
    ensures
        !unblocked(active, req),
        first_conflict(active, req) is Some,
{
    assert(intents_conflict(active[k].lease.intent, req.intent));
    assert(lease_blocks(active[k], c, req.intent));
    lemma_first_conflict_none_iff_unblocked(active, req);
}

/// Leases over disjoint chunks never conflict: a request covering no chunk that any
/// granted lease covers is granted whatever the intents.
pub proof fn lemma_disjoint_request_granted(active: Seq<ActiveModel>, req: LeaseModel)
    requires
        forall|k: int, c: ChunkId|
            #![trigger active[k], covers(req, c)]
            0 <= k < active.len() && covers(req, c) ==> !covers(active[k].lease, c),
    ensures
        unblocked(active, req),
        first_conflict(active, req) is None,
{
    lemma_first_conflict_none_iff_unblocked(active, req);
}


/// Causal independence: when two requests have no chunk on which their intents
/// conflict, granting one first changes nothing about whether the other is granted,
/// so the two may be granted in either order.
pub proof fn lemma_independent_requests_commute(active: Seq<ActiveModel>, handle: u64, a: LeaseModel, b: LeaseModel)
    requires
        forall|c: ChunkId| #[trigger] covers(a, c) && covers(b, c) ==> !intents_conflict(a.intent, b.intent),
    ensures
        unblocked(active.push(ActiveModel { handle, lease: a }), b) == unblocked(active, b),
        unblocked(active.push(ActiveModel { handle, lease: b }), a) == unblocked(active, a),
{
    lemma_intents_conflict_symmetric(a.intent, b.intent);
    let sa = active.push(ActiveModel { handle, lease: a });
    let sb = active.push(ActiveModel { handle, lease: b });
    assert(unblocked(sa, b) == unblocked(active, b)) by {
        if unblocked(active, b) {
            assert forall|k: int, c: ChunkId|
                #![trigger sa[k], covers(b, c)]
                0 <= k < sa.len() && covers(b, c) implies !lease_blocks(sa[k], c, b.intent) by {
                if k < active.len() {
                    assert(sa[k] == active[k]);
                }
            }
        }
        if unblocked(sa, b) {
            assert forall|k: int, c: ChunkId|
                #![trigger active[k], covers(b, c)]
                0 <= k < active.len() && covers(b, c) implies !lease_blocks(active[k], c, b.intent) by {
                assert(sa[k] == active[k]);
            }
        }
    }
    assert(unblocked(sb, a) == unblocked(active, a)) by {
        if unblocked(active, a) {
            assert forall|k: int, c: ChunkId|
                #![trigger sb[k], covers(a, c)]
                0 <= k < sb.len() && covers(a, c) implies !lease_blocks(sb[k], c, a.intent) by {
                if k < active.len() {
                    assert(sb[k] == active[k]);
                }
            }
        }
        if unblocked(sb, a) {
            assert forall|k: int, c: ChunkId|
                #![trigger active[k], covers(a, c)]
                0 <= k < active.len() && covers(a, c) implies !lease_blocks(active[k], c, a.intent) by {
                assert(sb[k] == active[k]);
            }
        }
    }
}

} // verus!
