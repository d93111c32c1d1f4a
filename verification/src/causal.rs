use vstd::prelude::*;
use crate::entity::{ComponentId, EntityId};
use crate::lease::ChunkId;
use crate::pawn::RecipeId;
use crate::time::{wall_clock_secs, CausalClock};

verus! {

#[derive(Clone, Copy, Debug, PartialEq, Eq, Structural)]
pub enum DriveType {
    Hunger,
    Thirst,
    Fatigue,
    Curiosity,
}

/// The events the causal queue carries. The queue orders by delivery step, not by kind.
#[derive(Clone, Copy, Debug, PartialEq, Eq, Structural)]
pub enum CausalEventKind {
    DriveThresholdCrossed { entity: EntityId, drive: DriveType },
    LeaseReleased { chunk: ChunkId, component: ComponentId },
    LeaseDenied { entity: EntityId, chunk: ChunkId, component: ComponentId },
    ResourceDepleted { chunk: ChunkId },
    /// Pawn `from` taught `recipe` to pawn `to`; it reaches `to` after the propagation delay.
    DiscoveryPropagated { recipe: RecipeId, from: EntityId, to: EntityId },
}

#[derive(Clone, Copy, Debug, PartialEq, Eq, Structural)]
pub struct CausalEvent {
    /// What happened.
    pub kind: CausalEventKind,
    /// Where it happened (source chunk for propagation).
    pub origin: ChunkId,
    /// The causal step at which this event becomes deliverable at its destination.
    pub deliver_at_causal_seq: u64,
}

/// Delivery steps never decrease along the sequence.
pub open spec fn delivery_sorted(q: Seq<CausalEvent>) -> bool {
    forall|i: int, j: int|
        #![trigger q[i], q[j]]
        0 <= i < j < q.len() ==> q[i].deliver_at_causal_seq <= q[j].deliver_at_causal_seq
}

/// The end of the run of events, from position `i` on, that are due at step `t`.
pub open spec fn due_from(q: Seq<CausalEvent>, t: u64, i: int) -> int
    decreases q.len() - i,
{
    if i < 0 || i >= q.len() || q[i].deliver_at_causal_seq > t {
        i
    } else {
        due_from(q, t, i + 1)
    }
}

/// How many leading events of `q` are due at step `t`.
pub open spec fn due_count(q: Seq<CausalEvent>, t: u64) -> int {
    due_from(q, t, 0)
}

proof fn lemma_due_from(q: Seq<CausalEvent>, t: u64, i: int)
    requires
        0 <= i <= q.len(),
        delivery_sorted(q),
    ensures
        i <= due_from(q, t, i) <= q.len(),
        forall|k: int| i <= k < due_from(q, t, i) ==> #[trigger] q[k].deliver_at_causal_seq <= t,
        forall|k: int|
            due_from(q, t, i) <= k < q.len() ==> #[trigger] q[k].deliver_at_causal_seq > t,
    decreases q.len() - i,
{
    if i < q.len() && q[i].deliver_at_causal_seq <= t {
        lemma_due_from(q, t, i + 1);
    } else if i < q.len() {
        assert forall|k: int| i <= k < q.len() implies #[trigger] q[k].deliver_at_causal_seq > t by {
            if k > i {
                assert(q[i].deliver_at_causal_seq <= q[k].deliver_at_causal_seq);
            }
        }
    }
}

/// In a sorted queue the events due at `t` are exactly the leading `due_count(q, t)` ones.
pub proof fn lemma_due_prefix(q: Seq<CausalEvent>, t: u64)
    requires
        delivery_sorted(q),
    ensures
        0 <= due_count(q, t) <= q.len(),
        forall|k: int| 0 <= k < due_count(q, t) ==> #[trigger] q[k].deliver_at_causal_seq <= t,
        forall|k: int|
            due_count(q, t) <= k < q.len() ==> #[trigger] q[k].deliver_at_causal_seq > t,
{
    lemma_due_from(q, t, 0);
}

/// In a sorted queue every event due at `t` lies in the leading due run, so a drain at
/// `t` delivers it.
pub proof fn lemma_due_event_is_drained(q: Seq<CausalEvent>, k: int, t: u64)
    requires
        delivery_sorted(q),
        0 <= k < q.len(),
        q[k].deliver_at_causal_seq <= t,
    ensures
        k < due_count(q, t),
        q.take(due_count(q, t))[k] == q[k],
{
    lemma_due_prefix(q, t);
}

/// Pending causal events ordered by delivery step; events due at the same step keep
/// the order in which they were pushed.
#[derive(Debug)]
pub struct CausalEventQueue {
    events: Vec<CausalEvent>,
}

impl View for CausalEventQueue {
    type V = Seq<CausalEvent>;

    closed spec fn view(&self) -> Seq<CausalEvent> {
        self.events@
    }
}

impl CausalEventQueue {
    /// The queue keeps its events sorted by delivery step.
    pub closed spec fn wf(&self) -> bool {
        delivery_sorted(self.events@)
    }

    /// A consistent queue holds its events in nondecreasing delivery order.
    pub proof fn lemma_sorted(&self)
        requires
            self.wf(),
        ensures
            delivery_sorted(self@),
    {
    }

    /// An empty queue.
    pub fn new() -> (q: CausalEventQueue)
        ensures
            q.wf(),
            q@ == Seq::<CausalEvent>::empty(),
    {
        CausalEventQueue { events: Vec::new() }
    }

    /// Enqueues an event; it is placed after every event due no later than it.
    pub fn push(&mut self, event: CausalEvent)
        requires
            old(self).wf(),
        ensures
            final(self).wf(),
            final(self)@ == old(self)@.insert(due_count(old(self)@, event.deliver_at_causal_seq), event),
    {
        let ghost q = self.events@;
        proof {
            lemma_due_prefix(q, event.deliver_at_causal_seq);
        }
        let mut i: usize = 0;
        while i < self.events.len() && self.events[i].deliver_at_causal_seq <= event.deliver_at_causal_seq
            invariant
                i <= self.events.len(),
                q == self.events@,
                delivery_sorted(q),
                due_from(q, event.deliver_at_causal_seq, 0) == due_from(
                    q,
                    event.deliver_at_causal_seq,
                    i as int,
                ),
            decreases self.events.len() - i,
        {
            i += 1;
        }
        assert(due_from(q, event.deliver_at_causal_seq, i as int) == i);
        self.events.insert(i, event);
        proof {
            let s = self.events@;
            lemma_due_prefix(q, event.deliver_at_causal_seq);
            assert forall|a: int, b: int|
                #![trigger s[a], s[b]]
                0 <= a < b < s.len() implies s[a].deliver_at_causal_seq
                <= s[b].deliver_at_causal_seq by {
                if a < i && b > i {
                    assert(s[a] == q[a] && s[b] == q[b - 1]);
                } else if a < i && b == i {
                    assert(s[a] == q[a]);
                } else if a == i {
                    assert(s[b] == q[b - 1]);
                } else if b < i {
                    assert(s[a] == q[a] && s[b] == q[b]);
                } else {
                    assert(s[a] == q[a - 1] && s[b] == q[b - 1]);
                }
            }
        }
    }

    /// Enqueues an event of the given kind from `origin`, deliverable at `deliver_at`.
    pub fn push_at(&mut self, kind: CausalEventKind, origin: ChunkId, deliver_at: u64)
        requires
            old(self).wf(),
        ensures
            final(self).wf(),
            final(self)@ == old(self)@.insert(
                due_count(old(self)@, deliver_at),
                CausalEvent { kind, origin, deliver_at_causal_seq: deliver_at },
            ),
    {
        self.push(CausalEvent { kind, origin, deliver_at_causal_seq: deliver_at });
    }

    /// Removes and returns every event due at `current_seq` (delivery step `<= current_seq`;
    /// events scheduled exactly at `current_seq` are included), earliest first.
    pub fn drain_ready(&mut self, current_seq: u64) -> (ready: Vec<CausalEvent>)
        requires
            old(self).wf(),
        ensures
            final(self).wf(),
            ready@ == old(self)@.take(due_count(old(self)@, current_seq)),
            final(self)@ == old(self)@.skip(due_count(old(self)@, current_seq)),
            ready@ + final(self)@ == old(self)@,
            forall|k: int|
                0 <= k < ready@.len() ==> #[trigger] ready@[k].deliver_at_causal_seq <= current_seq,
            forall|k: int|
                0 <= k < final(self)@.len() ==> #[trigger] final(self)@[k].deliver_at_causal_seq
                    > current_seq,
            delivery_sorted(ready@),
            delivery_sorted(final(self)@),
    {
        let ghost q = self.events@;
        proof {
            lemma_due_prefix(q, current_seq);
        }
        let mut i: usize = 0;
        while i < self.events.len() && self.events[i].deliver_at_causal_seq <= current_seq
            invariant
                i <= self.events.len(),
                q == self.events@,
                due_from(q, current_seq, 0) == due_from(q, current_seq, i as int),
            decreases self.events.len() - i,
        {
            i += 1;
        }
        assert(due_from(q, current_seq, i as int) == i);
        let rest = self.events.split_off(i);
        let mut ready = rest;
        std::mem::swap(&mut ready, &mut self.events);
        proof {
            assert(ready@ + self.events@ =~= q);
            assert forall|a: int, b: int|
                #![trigger self.events@[a], self.events@[b]]
                0 <= a < b < self.events@.len() implies self.events@[a].deliver_at_causal_seq
                <= self.events@[b].deliver_at_causal_seq by {
                assert(self.events@[a] == q[a + i] && self.events@[b] == q[b + i]);
            }
            assert forall|k: int| 0 <= k < self.events@.len() implies #[trigger] self.events@[k].deliver_at_causal_seq
                > current_seq by {
                assert(self.events@[k] == q[k + i]);
            }
            assert forall|a: int, b: int|
                #![trigger ready@[a], ready@[b]]
                0 <= a < b < ready@.len() implies ready@[a].deliver_at_causal_seq
                <= ready@[b].deliver_at_causal_seq by {
                assert(ready@[a] == q[a] && ready@[b] == q[b]);
            }
        }
        ready
    }

    pub fn len(&self) -> (n: usize)
        ensures
            n == self@.len(),
    {
        self.events.len()
    }

    pub fn is_empty(&self) -> (b: bool)
        ensures
            b == (self@.len() == 0),
    {
        self.events.len() == 0
    }
}

impl Default for CausalEventQueue {
    fn default() -> (q: CausalEventQueue)
        ensures
            q.wf(),
            q@ == Seq::<CausalEvent>::empty(),
    {
        CausalEventQueue::new()
    }
}

/// |a - b| on naturals.
pub open spec fn abs_diff(a: int, b: int) -> int {
    if a >= b { a - b } else { b - a }
}

/// Chebyshev (chessboard) distance: diagonal steps cost the same as cardinal ones.
pub open spec fn chebyshev(a: ChunkId, b: ChunkId) -> int {
    let dx = abs_diff(a.0 as int, b.0 as int);
    let dy = abs_diff(a.1 as int, b.1 as int);
    if dx >= dy { dx } else { dy }
}

/// ceil(a / b) for b > 0.
pub open spec fn ceil_div(a: int, b: int) -> int {
    (a + b - 1) / b
}

/// Chebyshev (chessboard) distance between two chunks.
pub fn chebyshev_distance(a: &ChunkId, b: &ChunkId) -> (d: u32)
    ensures
        d == chebyshev(*a, *b),
{
    let dx: u32 = if a.0 >= b.0 { a.0 - b.0 } else { b.0 - a.0 };
    let dy: u32 = if a.1 >= b.1 { a.1 - b.1 } else { b.1 - a.1 };
    if dx >= dy { dx } else { dy }
}

/// How many causal steps until an event at `origin` reaches `target` when it travels
/// `c` chunks per step. Same-chunk events arrive in 0 steps.
pub fn propagation_delay(origin: &ChunkId, target: &ChunkId, c: u64) -> (steps: u64)
    requires
        c > 0,
    ensures
        steps == ceil_div(chebyshev(*origin, *target), c as int),
{
    let dist = chebyshev_distance(origin, target) as u64;
    let q = dist / c;
    let steps = if dist % c == 0 { q } else { q + 1 };
    proof {
        let d = dist as int;
        let ci = c as int;
        assert(ceil_div(d, ci) == (if d % ci == 0 { d / ci } else { d / ci + 1 })) by (nonlinear_arith)
            requires
                ci > 0,
                d >= 0,
        {
            let qq = d / ci;
            let rr = d % ci;
            assert(d == qq * ci + rr);
            assert(0 <= rr < ci);
            if rr == 0 {
                assert(d + ci - 1 == qq * ci + (ci - 1));
            } else {
                assert(d + ci - 1 == (qq + 1) * ci + (rr - 1));
            }
        }
    }
    steps
}

/// The propagating clock: the causal step counter plus the propagation speed C
/// (chunks per causal step).
#[derive(Debug)]
pub struct CausalPropagationClock {
    pub seq: u64,
    /// Propagation constant: chunks per causal step.
    pub c: u64,
}

impl CausalPropagationClock {
    /// A clock at step 0 with C = 8.
    pub fn new() -> (clock: CausalPropagationClock)
        ensures
            clock.seq == 0,
            clock.c == 8,
    {
        CausalPropagationClock { seq: 0, c: 8 }
    }

    pub fn increment(&mut self)
        requires
            old(self).seq < u64::MAX,
        ensures
            final(self).seq == old(self).seq + 1,
            final(self).c == old(self).c,
    {
        self.seq = self.seq + 1;
    }

    /// Steps from `origin` to `target` at this clock's propagation speed.
    pub fn propagation_delay(&self, origin: &ChunkId, target: &ChunkId) -> (steps: u64)
        requires
            self.c > 0,
        ensures
            steps == ceil_div(chebyshev(*origin, *target), self.c as int),
    {
        propagation_delay(origin, target, self.c)
    }
}

impl Default for CausalPropagationClock {
    fn default() -> (clock: CausalPropagationClock)
        ensures
            clock.seq == 0,
            clock.c == 8,
    {
        CausalPropagationClock::new()
    }
}

impl CausalClock for CausalPropagationClock {
    fn wall_epoch(&self) -> (r: Option<u64>) {
        wall_clock_secs()
    }

    fn causal_seq(&self) -> (r: u64)
        ensures
            r == self.seq,
    {
        self.seq
    }
}


/// A pushed event is delivered by the first drain at or after its delivery step, and
/// never by a drain before it.
pub proof fn lemma_pushed_event_delivered_when_due(q: Seq<CausalEvent>, e: CausalEvent, t: u64)
    requires
        delivery_sorted(q),
    ensures
        ({
            let p = due_count(q, e.deliver_at_causal_seq);
            let q2 = q.insert(p, e);
            &&& e.deliver_at_causal_seq <= t ==> q2.take(due_count(q2, t)).contains(e)
            &&& e.deliver_at_causal_seq > t ==> p >= due_count(q2, t)
        }),
{
    let p = due_count(q, e.deliver_at_causal_seq);
    lemma_due_prefix(q, e.deliver_at_causal_seq);
    let q2 = q.insert(p, e);
    assert(q2[p] == e);
    assert(delivery_sorted(q2)) by {
        assert forall|a: int, b: int|
            #![trigger q2[a], q2[b]]
            0 <= a < b < q2.len() implies q2[a].deliver_at_causal_seq <= q2[b].deliver_at_causal_seq by {
            if a < p && b > p {
                assert(q2[a] == q[a] && q2[b] == q[b - 1]);
            } else if a < p && b == p {
                assert(q2[a] == q[a]);
            } else if a == p {
                assert(q2[b] == q[b - 1]);
            } else if b < p {
                assert(q2[a] == q[a] && q2[b] == q[b]);
            } else {
                assert(q2[a] == q[a - 1] && q2[b] == q[b - 1]);
            }
        }
    }
    lemma_due_prefix(q2, t);
    if e.deliver_at_causal_seq <= t {
        assert(p < due_count(q2, t));
        assert(q2.take(due_count(q2, t))[p] == e);
    }
}

/// Same-chunk events arrive at once, and only they do (for any speed `c > 0`).
pub proof fn lemma_zero_delay_iff_same_chunk(a: ChunkId, b: ChunkId, c: int)
    requires
        c > 0,
    ensures
        ceil_div(chebyshev(a, b), c) == 0 <==> a == b,
{
    let d = chebyshev(a, b);
    if d > 0 {
        assert((d + c - 1) / c >= 1) by (nonlinear_arith)
            requires
                d >= 1,
                c > 0,
        ;
    }
    if d == 0 {
        assert(a.0 == b.0 && a.1 == b.1);
        assert((c - 1) / c == 0) by (nonlinear_arith)
            requires
                c > 0,
        ;
    }
}

/// Propagation is symmetric: the delay from `a` to `b` equals the delay from `b` to `a`.
pub proof fn lemma_delay_symmetric(a: ChunkId, b: ChunkId, c: int)
    ensures
        ceil_div(chebyshev(a, b), c) == ceil_div(chebyshev(b, a), c),
{
}

/// Causal horizon: an event needs more than `t` steps to travel between two chunks
/// exactly when they are more than `c * t` chunks apart.
pub proof fn lemma_delay_exceeds_iff_beyond_horizon(a: ChunkId, b: ChunkId, c: int, t: int)
    requires
        c > 0,
        t >= 0,
    ensures
        ceil_div(chebyshev(a, b), c) > t <==> chebyshev(a, b) > c * t,
{
    let d = chebyshev(a, b);
    if d > c * t {
        assert((d + c - 1) / c > t) by (nonlinear_arith)
            requires
                d > c * t,
                c > 0,
                t >= 0,
        {
            assert(d + c - 1 >= c * (t + 1));
            vstd::arithmetic::div_mod::lemma_div_is_ordered(c * (t + 1), d + c - 1, c);
            vstd::arithmetic::div_mod::lemma_div_multiples_vanish(t + 1, c);
        }
    } else {
        assert((d + c - 1) / c <= t) by (nonlinear_arith)
            requires
                d <= c * t,
                d >= 0,
                c > 0,
                t >= 0,
        {
            assert(d + c - 1 < c * (t + 1));
            vstd::arithmetic::div_mod::lemma_div_is_ordered(d + c - 1, c * (t + 1) - 1, c);
            assert((c * (t + 1) - 1) / c == t) by {
                vstd::arithmetic::div_mod::lemma_fundamental_div_mod_converse(c * (t + 1) - 1, c, t, c - 1);
            }
        }
    }
}

} // verus!
