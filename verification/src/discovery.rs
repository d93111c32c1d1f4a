use vstd::prelude::*;
use crate::causal::{ceil_div, chebyshev, propagation_delay, CausalEvent, CausalEventKind};
use crate::dispatcher::C;
use crate::entity::EntityId;
use crate::lease::ChunkId;
use crate::pawn::RecipeId;

verus! {

/// A pawn as the teaching step sees it, after this tick's discoveries.
#[derive(Clone, Copy, Debug, PartialEq, Eq, Structural)]
pub struct TeachingCandidate {
    pub entity: EntityId,
    pub chunk: ChunkId,
    /// Knows the recipe and is sociable enough to teach it.
    pub teaches: bool,
    /// Knows the recipe.
    pub knows: bool,
}

/// Whether some entry of `chunks` is `chunk`.
pub open spec fn lists_chunk(chunks: Seq<ChunkId>, chunk: ChunkId) -> bool {
    exists|i: int| 0 <= i < chunks.len() && chunks[i] == chunk
}

fn has_chunk(chunks: &Vec<ChunkId>, chunk: ChunkId) -> (r: bool)
    ensures
        r == lists_chunk(chunks@, chunk),
{
    let mut i: usize = 0;
    while i < chunks.len()
        invariant
            i <= chunks@.len(),
            forall|k: int| 0 <= k < i ==> chunks@[k] != chunk,
        decreases chunks.len() - i,
    {
        if chunks[i] == chunk {
            return true;
        }
        i += 1;
    }
    false
}

/// Whether a recipe can be discovered on `chunk`: some food and some rest spot lie there.
pub fn discovery_site(food_chunks: &Vec<ChunkId>, rest_chunks: &Vec<ChunkId>, chunk: ChunkId) -> (r: bool)
    ensures
        r == (lists_chunk(food_chunks@, chunk) && lists_chunk(rest_chunks@, chunk)),
{
    has_chunk(food_chunks, chunk) && has_chunk(rest_chunks, chunk)
}

/// The pawns already taught this tick, and the teaching events so far.
pub ghost struct TeachingState {
    pub taught: Set<EntityId>,
    pub events: Seq<CausalEvent>,
}

/// The event by which `teacher` teaches `recipe` to `learner` at step `seq`: it leaves
/// the teacher's chunk and reaches the learner after the propagation delay.
pub open spec fn teaching_event(
    teacher: TeachingCandidate,
    learner: TeachingCandidate,
    recipe: RecipeId,
    seq: u64,
) -> CausalEvent {
    CausalEvent {
        kind: CausalEventKind::DiscoveryPropagated { recipe, from: teacher.entity, to: learner.entity },
        origin: teacher.chunk,
        deliver_at_causal_seq: (seq + ceil_div(chebyshev(teacher.chunk, learner.chunk), C as int)) as u64,
    }
}

/// One teacher and learner considered: a teacher teaches a pawn other than itself that
/// does not know the recipe and was not yet claimed this tick; the pawn is claimed
/// even when it stands too far off (more than one chunk away) to be taught.
pub open spec fn teach_pair(
    st: TeachingState,
    teacher: TeachingCandidate,
    learner: TeachingCandidate,
    recipe: RecipeId,
    seq: u64,
) -> TeachingState {
    if !teacher.teaches || learner.entity == teacher.entity || learner.knows || st.taught.contains(learner.entity) {
        st
    } else if chebyshev(teacher.chunk, learner.chunk) > 1 {
        TeachingState { taught: st.taught.insert(learner.entity), events: st.events }
    } else {
        TeachingState {
            taught: st.taught.insert(learner.entity),
            events: st.events.push(teaching_event(teacher, learner, recipe, seq)),
        }
    }
}

/// The teaching state before the pair (teacher `t`, learner `l`), pairs taken teacher by
/// teacher and, for each, learner by learner in snapshot order.
pub open spec fn teaching_upto(snap: Seq<TeachingCandidate>, recipe: RecipeId, seq: u64, t: int, l: int) -> TeachingState
    decreases t, l,
{
    if t < 0 || l < 0 || (t == 0 && l == 0) || t > snap.len() || l > snap.len() {
        TeachingState { taught: Set::empty(), events: Seq::empty() }
    } else if l > 0 {
        if t < snap.len() {
            teach_pair(teaching_upto(snap, recipe, seq, t, l - 1), snap[t], snap[l - 1], recipe, seq)
        } else {
            TeachingState { taught: Set::empty(), events: Seq::empty() }
        }
    } else {
        teaching_upto(snap, recipe, seq, t - 1, snap.len() as int)
    }
}

/// Whether event `ev` is `snap[a]` teaching `recipe` to `snap[b]` at step `seq`: a
/// teacher and a learner of the snapshot, the learner another pawn that does not know
/// the recipe and stands within one chunk of the teacher; the event leaves the
/// teacher's chunk and arrives one step later per chunk of distance.
pub open spec fn teaches_neighbour(
    snap: Seq<TeachingCandidate>,
    recipe: RecipeId,
    seq: u64,
    ev: CausalEvent,
    a: int,
    b: int,
) -> bool {
    &&& 0 <= a < snap.len()
    &&& 0 <= b < snap.len()
    &&& snap[a].teaches
    &&& !snap[b].knows
    &&& snap[b].entity != snap[a].entity
    &&& chebyshev(snap[a].chunk, snap[b].chunk) <= 1
    &&& ev.kind == (CausalEventKind::DiscoveryPropagated { recipe, from: snap[a].entity, to: snap[b].entity })
    &&& ev.origin == snap[a].chunk
    &&& ev.deliver_at_causal_seq == seq + chebyshev(snap[a].chunk, snap[b].chunk)
}

proof fn lemma_teaching_upto_sources(snap: Seq<TeachingCandidate>, recipe: RecipeId, seq: u64, t: int, l: int) -> (srcs: Seq<(int, int)>)
    requires
        seq < u64::MAX,
    ensures
        srcs.len() == teaching_upto(snap, recipe, seq, t, l).events.len(),
        forall|j: int|
            0 <= j < srcs.len() ==> teaches_neighbour(
                snap,
                recipe,
                seq,
                teaching_upto(snap, recipe, seq, t, l).events[j],
                (#[trigger] srcs[j]).0,
                srcs[j].1,
            ),
        forall|j: int|
            0 <= j < srcs.len() ==> teaching_upto(snap, recipe, seq, t, l).taught.contains(
                snap[(#[trigger] srcs[j]).1].entity,
            ),
        forall|j: int, k: int|
            0 <= j < k < srcs.len() ==> snap[(#[trigger] srcs[j]).1].entity != snap[(#[trigger] srcs[k]).1].entity,
    decreases t, l,
{
    if t < 0 || l < 0 || (t == 0 && l == 0) || t > snap.len() || l > snap.len() {
        Seq::empty()
    } else if l > 0 {
        if t < snap.len() {
            let prev = lemma_teaching_upto_sources(snap, recipe, seq, t, l - 1);
            let st = teaching_upto(snap, recipe, seq, t, l - 1);
            let teacher = snap[t];
            let learner = snap[l - 1];
            let next = teaching_upto(snap, recipe, seq, t, l);
            assert(next == teach_pair(st, teacher, learner, recipe, seq));
            if !teacher.teaches || learner.entity == teacher.entity || learner.knows || st.taught.contains(learner.entity) {
                prev
            } else if chebyshev(teacher.chunk, learner.chunk) > 1 {
                assert forall|j: int| 0 <= j < prev.len() implies next.taught.contains(snap[(#[trigger] prev[j]).1].entity) by {
                    assert(st.taught.contains(snap[prev[j].1].entity));
                }
                prev
            } else {
                let srcs = prev.push((t, l - 1));
                assert(ceil_div(0, 8) == 0);
                assert(ceil_div(1, 8) == 1);
                assert(next.events == st.events.push(teaching_event(teacher, learner, recipe, seq)));
                assert forall|j: int| 0 <= j < srcs.len() implies teaches_neighbour(
                    snap,
                    recipe,
                    seq,
                    next.events[j],
                    (#[trigger] srcs[j]).0,
                    srcs[j].1,
                ) by {
                    if j < prev.len() {
                        assert(srcs[j] == prev[j]);
                        assert(next.events[j] == st.events[j]);
                    }
                }
                assert forall|j: int| 0 <= j < srcs.len() implies next.taught.contains(snap[(#[trigger] srcs[j]).1].entity) by {
                    if j < prev.len() {
                        assert(srcs[j] == prev[j]);
                    }
                }
                assert forall|j: int, k: int|
                    0 <= j < k < srcs.len() implies snap[(#[trigger] srcs[j]).1].entity != snap[(#[trigger] srcs[k]).1].entity by {
                    assert(srcs[j] == prev[j]);
                    if k < prev.len() {
                        assert(srcs[k] == prev[k]);
                    } else {
                        assert(st.taught.contains(snap[prev[j].1].entity));
                    }
                }
                srcs
            }
        } else {
            Seq::empty()
        }
    } else {
        lemma_teaching_upto_sources(snap, recipe, seq, t - 1, snap.len() as int)
    }
}

/// Teaching reaches only near, ignorant, unclaimed pawns: the result gives, for each
/// teaching event of a tick, the teacher and learner it joins. The teacher teaches;
/// the learner is another pawn that does not know the recipe and stands within one
/// chunk of the teacher; the event carries the recipe from the teacher's chunk and
/// arrives one step later per chunk of distance; and no pawn is taught twice in a tick.
pub proof fn lemma_teaching_reaches_near_learners(snap: Seq<TeachingCandidate>, recipe: RecipeId, seq: u64) -> (srcs: Seq<(int, int)>)
    requires
        seq < u64::MAX,
    ensures
        srcs.len() == teaching_upto(snap, recipe, seq, snap.len() as int, 0).events.len(),
        forall|j: int|
            0 <= j < srcs.len() ==> teaches_neighbour(
                snap,
                recipe,
                seq,
                teaching_upto(snap, recipe, seq, snap.len() as int, 0).events[j],
                (#[trigger] srcs[j]).0,
                srcs[j].1,
            ),
        forall|j: int, k: int|
            0 <= j < k < srcs.len() ==> snap[(#[trigger] srcs[j]).1].entity != snap[(#[trigger] srcs[k]).1].entity,
{
    lemma_teaching_upto_sources(snap, recipe, seq, snap.len() as int, 0)
}

/// The first snapshot position from `a` on of a pawn that teaches and is not pawn `b`
/// itself: the teacher that claims `b` in a tick.
pub open spec fn first_teacher_from(snap: Seq<TeachingCandidate>, b: int, a: int) -> Option<int>
    decreases snap.len() - a,
{
    if a < 0 || a >= snap.len() {
        None
    } else if snap[a].teaches && snap[a].entity != snap[b].entity {
        Some(a)
    } else {
        first_teacher_from(snap, b, a + 1)
    }
}

/// Whether `ev` is a teaching by pawn `f`.
pub open spec fn taught_by(ev: CausalEvent, f: EntityId) -> bool {
    ev.kind matches CausalEventKind::DiscoveryPropagated { from, .. } && from == f
}

/// Whether `ev` teaches something to pawn `e`.
pub open spec fn teaches_to(ev: CausalEvent, e: EntityId) -> bool {
    ev.kind matches CausalEventKind::DiscoveryPropagated { to, .. } && to == e
}

proof fn lemma_first_teacher(snap: Seq<TeachingCandidate>, b: int, a: int)
    requires
        0 <= a,
    ensures
        first_teacher_from(snap, b, a) matches Some(f) ==> a <= f < snap.len() && snap[f].teaches && snap[f].entity
            != snap[b].entity && forall|i: int|
            a <= i < f ==> !(#[trigger] snap[i].teaches && snap[i].entity != snap[b].entity),
        first_teacher_from(snap, b, a) is None ==> forall|i: int|
            a <= i < snap.len() ==> !(#[trigger] snap[i].teaches && snap[i].entity != snap[b].entity),
    decreases snap.len() - a,
{
    if a < snap.len() {
        lemma_first_teacher(snap, b, a + 1);
    }
}

/// Whether pawn `b` was claimed before the pair (teacher `t`, learner `l`): its first
/// teacher comes earlier in the scan.
pub open spec fn claimed_before(snap: Seq<TeachingCandidate>, b: int, t: int, l: int) -> bool {
    first_teacher_from(snap, b, 0) matches Some(f) && (f < t || (f == t && b < l))
}

proof fn lemma_teaching_upto_claims(snap: Seq<TeachingCandidate>, recipe: RecipeId, seq: u64, b: int, t: int, l: int)
    requires
        0 <= b < snap.len(),
        !snap[b].knows,
        forall|i: int, j: int| 0 <= i < snap.len() && 0 <= j < snap.len() && i != j ==> #[trigger] snap[i].entity != #[trigger] snap[j].entity,
        0 <= t <= snap.len(),
        0 <= l <= snap.len(),
        t < snap.len() || l == 0,
    ensures
        ({
            let st = teaching_upto(snap, recipe, seq, t, l);
            let e = snap[b].entity;
            &&& st.taught.contains(e) <==> claimed_before(snap, b, t, l)
            &&& (exists|j: int| 0 <= j < st.events.len() && #[trigger] teaches_to(st.events[j], e)) <==> (claimed_before(
                snap,
                b,
                t,
                l,
            ) && chebyshev(snap[first_teacher_from(snap, b, 0)->0].chunk, snap[b].chunk) <= 1)
            &&& forall|j: int|
                0 <= j < st.events.len() && #[trigger] teaches_to(st.events[j], e) ==> taught_by(st.events[j], snap[first_teacher_from(snap, b, 0)->0].entity)
        }),
    decreases t, l,
{
    lemma_first_teacher(snap, b, 0);
    let e = snap[b].entity;
    if t == 0 && l == 0 {
    } else if l > 0 {
        lemma_teaching_upto_claims(snap, recipe, seq, b, t, l - 1);
        let st = teaching_upto(snap, recipe, seq, t, l - 1);
        let teacher = snap[t];
        let learner = snap[l - 1];
        let next = teaching_upto(snap, recipe, seq, t, l);
        assert(next == teach_pair(st, teacher, learner, recipe, seq));
        if !teacher.teaches || learner.entity == teacher.entity || learner.knows || st.taught.contains(learner.entity) {
            if l - 1 == b && first_teacher_from(snap, b, 0) == Some(t) {
                assert(false);
            }
        } else {
            if l - 1 != b {
                assert(learner.entity != e);
            } else {
                // Pawn `t` teaches and is not `b`, so `b`'s first teacher is no later than `t`.
                let f = first_teacher_from(snap, b, 0)->0;
                assert(first_teacher_from(snap, b, 0) is Some);
                assert(f == t);
            }
            if chebyshev(teacher.chunk, learner.chunk) > 1 {
                assert(next.events == st.events);
            } else {
                let ev = teaching_event(teacher, learner, recipe, seq);
                assert(next.events == st.events.push(ev));
                assert forall|j: int| 0 <= j < next.events.len() && #[trigger] teaches_to(next.events[j], e) implies taught_by(next.events[j], snap[first_teacher_from(snap, b, 0)->0].entity) by {
                    if j < st.events.len() {
                        assert(next.events[j] == st.events[j]);
                    }
                }
                if l - 1 == b {
                    assert(teaches_to(next.events[st.events.len() as int], e));
                } else {
                    assert((exists|j: int| 0 <= j < next.events.len() && #[trigger] teaches_to(next.events[j], e)) ==> (exists|j: int|
                        0 <= j < st.events.len() && #[trigger] teaches_to(st.events[j], e))) by {
                        if exists|j: int| 0 <= j < next.events.len() && #[trigger] teaches_to(next.events[j], e) {
                            let j = choose|j: int| 0 <= j < next.events.len() && #[trigger] teaches_to(next.events[j], e);
                            assert(j < st.events.len());
                            assert(next.events[j] == st.events[j]);
                        }
                    }
                    assert((exists|j: int| 0 <= j < st.events.len() && #[trigger] teaches_to(st.events[j], e)) ==> (exists|j: int|
                        0 <= j < next.events.len() && #[trigger] teaches_to(next.events[j], e))) by {
                        if exists|j: int| 0 <= j < st.events.len() && #[trigger] teaches_to(st.events[j], e) {
                            let j = choose|j: int| 0 <= j < st.events.len() && #[trigger] teaches_to(st.events[j], e);
                            assert(next.events[j] == st.events[j]);
                        }
                    }
                }
            }
        }
    } else {
        lemma_teaching_upto_claims(snap, recipe, seq, b, t - 1, snap.len() as int);
    }
}

/// Each pawn that does not know the recipe is claimed, in a tick, by its first teacher
/// in snapshot order (the first pawn other than itself that teaches); it is taught
/// exactly when that teacher stands within one chunk of it, and then by that teacher
/// alone. A pawn with no teacher is not taught (pawns appear once in the snapshot).
pub proof fn lemma_first_teacher_claims_learner(snap: Seq<TeachingCandidate>, recipe: RecipeId, seq: u64, b: int)
    requires
        0 <= b < snap.len(),
        !snap[b].knows,
        forall|i: int, j: int| 0 <= i < snap.len() && 0 <= j < snap.len() && i != j ==> #[trigger] snap[i].entity != #[trigger] snap[j].entity,
    ensures
        ({
            let evs = teaching_upto(snap, recipe, seq, snap.len() as int, 0).events;
            let e = snap[b].entity;
            match first_teacher_from(snap, b, 0) {
                None => forall|j: int| 0 <= j < evs.len() ==> !#[trigger] teaches_to(evs[j], e),
                Some(f) => {
                    &&& snap[f].teaches
                    &&& snap[f].entity != e
                    &&& forall|i: int| 0 <= i < f ==> !(#[trigger] snap[i].teaches && snap[i].entity != e)
                    &&& (exists|j: int| 0 <= j < evs.len() && #[trigger] teaches_to(evs[j], e)) <==> chebyshev(
                        snap[f].chunk,
                        snap[b].chunk,
                    ) <= 1
                    &&& forall|j: int|
                        0 <= j < evs.len() && #[trigger] teaches_to(evs[j], e) ==> taught_by(evs[j], snap[f].entity)
                },
            }
        }),
{
    lemma_first_teacher(snap, b, 0);
    lemma_teaching_upto_claims(snap, recipe, seq, b, snap.len() as int, 0);
}

fn claimed(taught: &Vec<EntityId>, e: EntityId) -> (r: bool)
    ensures
        r == taught@.contains(e),
{
    let mut i: usize = 0;
    while i < taught.len()
        invariant
            i <= taught@.len(),
            forall|k: int| 0 <= k < i ==> taught@[k] != e,
        decreases taught.len() - i,
    {
        if taught[i] == e {
            return true;
        }
        i += 1;
    }
    false
}

/// The teaching events of one tick: every teacher, in snapshot order, teaches `recipe`
/// to each pawn within one chunk that does not know it, unless an earlier teacher
/// already claimed that pawn this tick (a teacher claims every pawn it considers,
/// near or far).
pub fn teaching_events(snapshot: &Vec<TeachingCandidate>, recipe: RecipeId, seq: u64) -> (events: Vec<CausalEvent>)
    requires
        seq < u64::MAX,
    ensures
        events@ == teaching_upto(snapshot@, recipe, seq, snapshot@.len() as int, 0).events,
{
    let ghost snap = snapshot@;
    let n = snapshot.len();
    let mut taught: Vec<EntityId> = Vec::new();
    let mut events: Vec<CausalEvent> = Vec::new();
    let mut t: usize = 0;
    while t < n
        invariant
            n == snap.len(),
            snap == snapshot@,
            seq < u64::MAX,
            t <= n,
            taught@.to_set() == teaching_upto(snap, recipe, seq, t as int, 0).taught,
            events@ == teaching_upto(snap, recipe, seq, t as int, 0).events,
        decreases n - t,
    {
        let teacher = snapshot[t];
        let mut l: usize = 0;
        while l < n
            invariant
                n == snap.len(),
                snap == snapshot@,
                seq < u64::MAX,
                t < n,
                l <= n,
                teacher == snap[t as int],
                taught@.to_set() == teaching_upto(snap, recipe, seq, t as int, l as int).taught,
                events@ == teaching_upto(snap, recipe, seq, t as int, l as int).events,
            decreases n - l,
        {
            let learner = snapshot[l];
            if teacher.teaches && learner.entity != teacher.entity && !learner.knows && !claimed(&taught, learner.entity) {
                let ghost before = taught@;
                taught.push(learner.entity);
                proof {
                    before.lemma_push_to_set_commute(learner.entity);
                }
                let dist = crate::causal::chebyshev_distance(&teacher.chunk, &learner.chunk);
                if dist <= 1 {
                    let delay = propagation_delay(&teacher.chunk, &learner.chunk, C);
                    assert(delay <= 1) by {
                        assert(ceil_div(0, 8) == 0);
                        assert(ceil_div(1, 8) == 1);
                    }
                    events.push(
                        CausalEvent {
                            kind: CausalEventKind::DiscoveryPropagated { recipe, from: teacher.entity, to: learner.entity },
                            origin: teacher.chunk,
                            deliver_at_causal_seq: seq + delay,
                        },
                    );
                }
            }
            l += 1;
        }
        t += 1;
    }
    events
}

} // verus!
