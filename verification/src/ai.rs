use vstd::prelude::*;
use vstd::string::StringExecFns;
use std::collections::{HashMap, HashSet, VecDeque};
use crate::entity::EntityId;
use crate::lease::ChunkId;
use crate::pawn::{Quest, QuestBoard, QuestStatus};

verus! {

broadcast use vstd::std_specs::hash::group_hash_axioms;

/// How many activity lines the log keeps.
pub const ACTIVITY_LOG_MAX: usize = 32;

/// Short activity lines for the observer UI, oldest first.
#[derive(Debug)]
pub struct ActivityLog(pub VecDeque<String>);

/// The last `n` elements of `s` (all of `s` when it is shorter).
pub open spec fn keep_last<A>(s: Seq<A>, n: nat) -> Seq<A> {
    if s.len() <= n {
        s
    } else {
        s.subrange(s.len() - n, s.len() as int)
    }
}

impl ActivityLog {
    pub fn new() -> (l: ActivityLog)
        ensures
            l.0@.len() == 0,
    {
        ActivityLog(VecDeque::new())
    }

    /// Appends a line, dropping the oldest lines beyond `ACTIVITY_LOG_MAX`.
    pub fn push(&mut self, s: String)
        ensures
            final(self).0@ == keep_last(old(self).0@.push(s), ACTIVITY_LOG_MAX as nat),
    {
        let ghost full = self.0@.push(s);
        self.0.push_back(s);
        while self.0.len() > ACTIVITY_LOG_MAX
            invariant
                full.len() >= self.0@.len(),
                self.0@ == full.subrange(full.len() - self.0@.len(), full.len() as int),
                self.0@.len() >= ACTIVITY_LOG_MAX || self.0@ == full,
            decreases self.0@.len(),
        {
            self.0.pop_front();
        }
        assert(self.0@ =~= keep_last(full, ACTIVITY_LOG_MAX as nat));
    }
}

impl Default for ActivityLog {
    fn default() -> (l: ActivityLog)
        ensures
            l.0@.len() == 0,
    {
        ActivityLog::new()
    }
}

/// Which pawns the dispatcher must re-evaluate, keyed by entity number.
#[derive(Debug)]
pub struct DispatcherEvaluationState {
    pub dirty_all: bool,
    pub dirty_entities: HashSet<u64>,
    pub last_evaluation_tick: HashMap<u64, u64>,
    pub last_region_signature: HashMap<u64, u64>,
}

impl DispatcherEvaluationState {
    pub fn new() -> (s: DispatcherEvaluationState)
        ensures
            !s.dirty_all,
            s.dirty_entities@ == Set::<u64>::empty(),
            s.last_evaluation_tick@ == Map::<u64, u64>::empty(),
            s.last_region_signature@ == Map::<u64, u64>::empty(),
    {
        DispatcherEvaluationState {
            dirty_all: false,
            dirty_entities: HashSet::new(),
            last_evaluation_tick: HashMap::new(),
            last_region_signature: HashMap::new(),
        }
    }

    pub fn mark_dirty(&mut self, entity: EntityId)
        ensures
            final(self).dirty_entities@ == old(self).dirty_entities@.insert(entity.0),
            final(self).dirty_all == old(self).dirty_all,
            final(self).last_evaluation_tick == old(self).last_evaluation_tick,
            final(self).last_region_signature == old(self).last_region_signature,
    {
        self.dirty_entities.insert(entity.0);
    }

    pub fn mark_all_dirty(&mut self)
        ensures
            final(self).dirty_all,
            final(self).dirty_entities == old(self).dirty_entities,
            final(self).last_evaluation_tick == old(self).last_evaluation_tick,
            final(self).last_region_signature == old(self).last_region_signature,
    {
        self.dirty_all = true;
    }

    /// Records the charter-region signature a pawn is in; a pawn whose signature is new
    /// or changed is marked dirty.
    pub fn observe_region_signature(&mut self, entity: EntityId, signature: u64)
        ensures
            final(self).last_region_signature@ == old(self).last_region_signature@.insert(
                entity.0,
                signature,
            ),
            final(self).dirty_entities@ == if old(self).last_region_signature@.contains_key(entity.0)
                && old(self).last_region_signature@[entity.0] == signature {
                old(self).dirty_entities@
            } else {
                old(self).dirty_entities@.insert(entity.0)
            },
            final(self).dirty_all == old(self).dirty_all,
            final(self).last_evaluation_tick == old(self).last_evaluation_tick,
    {
        let prev = self.last_region_signature.insert(entity.0, signature);
        match prev {
            Some(old_signature) => {
                if old_signature != signature {
                    self.mark_dirty(entity);
                }
            },
            None => self.mark_dirty(entity),
        }
    }
}

impl Default for DispatcherEvaluationState {
    fn default() -> (s: DispatcherEvaluationState)
        ensures
            !s.dirty_all,
            s.dirty_entities@ == Set::<u64>::empty(),
            s.last_evaluation_tick@ == Map::<u64, u64>::empty(),
            s.last_region_signature@ == Map::<u64, u64>::empty(),
    {
        DispatcherEvaluationState::new()
    }
}

/// A quest that `provider` has taken on for `need` at `chunk`.
pub open spec fn quest_in_progress_for(q: Quest, provider: EntityId, need: Seq<char>, chunk: ChunkId) -> bool {
    q.status == (QuestStatus::InProgress { provider }) && q.need@ == need && q.chunk == chunk
}

/// The first quest, from position `i` on, that `provider` is working on for `need` at `chunk`.
pub open spec fn first_in_progress_from(
    qs: Seq<Quest>,
    provider: EntityId,
    need: Seq<char>,
    chunk: ChunkId,
    i: int,
) -> int
    decreases qs.len() - i,
{
    if i < 0 || i >= qs.len() || quest_in_progress_for(qs[i], provider, need, chunk) {
        i
    } else {
        first_in_progress_from(qs, provider, need, chunk, i + 1)
    }
}

proof fn lemma_first_in_progress(qs: Seq<Quest>, provider: EntityId, need: Seq<char>, chunk: ChunkId, i: int)
    requires
        0 <= i <= qs.len(),
    ensures
        i <= first_in_progress_from(qs, provider, need, chunk, i) <= qs.len(),
        forall|k: int|
            i <= k < first_in_progress_from(qs, provider, need, chunk, i) ==> !quest_in_progress_for(
                #[trigger] qs[k],
                provider,
                need,
                chunk,
            ),
        first_in_progress_from(qs, provider, need, chunk, i) < qs.len() ==> quest_in_progress_for(
            qs[first_in_progress_from(qs, provider, need, chunk, i)],
            provider,
            need,
            chunk,
        ),
    decreases qs.len() - i,
{
    if i < qs.len() && !quest_in_progress_for(qs[i], provider, need, chunk) {
        lemma_first_in_progress(qs, provider, need, chunk, i + 1);
    }
}

/// Marks completed the first quest that `provider` is working on for `need` at `chunk`;
/// returns whether there was one.
pub fn complete_quest_for_action(
    quest_board: &mut QuestBoard,
    provider: EntityId,
    need: &str,
    chunk: ChunkId,
) -> (done: bool)
    ensures
        ({
            let qs = old(quest_board).active_quests@;
            let k = first_in_progress_from(qs, provider, need@, chunk, 0);
            &&& done == (k < qs.len())
            &&& done ==> final(quest_board).active_quests@ == qs.update(
                k,
                Quest { status: QuestStatus::Completed, ..qs[k] },
            )
            &&& !done ==> final(quest_board).active_quests@ == qs
        }),
{
    let ghost qs = quest_board.active_quests@;
    proof {
        lemma_first_in_progress(qs, provider, need@, chunk, 0);
    }
    let wanted = String::from_str(need);
    let mut i: usize = 0;
    while i < quest_board.active_quests.len()
        invariant
            qs == quest_board.active_quests@,
            qs == old(quest_board).active_quests@,
            wanted@ == need@,
            i <= qs.len(),
            first_in_progress_from(qs, provider, need@, chunk, 0) == first_in_progress_from(
                qs,
                provider,
                need@,
                chunk,
                i as int,
            ),
        decreases qs.len() - i,
    {
        let matches = match quest_board.active_quests[i].status {
            QuestStatus::InProgress { provider: quest_provider } => quest_provider == provider
                && quest_board.active_quests[i].need == wanted && quest_board.active_quests[i].chunk
                == chunk,
            _ => false,
        };
        if matches {
            assert(quest_in_progress_for(qs[i as int], provider, need@, chunk));
            assert(first_in_progress_from(qs, provider, need@, chunk, i as int) == i);
            let mut quest = quest_board.active_quests.remove(i);
            quest.status = QuestStatus::Completed;
            quest_board.active_quests.insert(i, quest);
            assert(quest_board.active_quests@ =~= qs.update(
                i as int,
                Quest { status: QuestStatus::Completed, ..qs[i as int] },
            ));
            return true;
        }
        i += 1;
    }
    false
}

/// Whether a quest is completed.
pub open spec fn quest_completed(q: Quest) -> bool {
    q.status == QuestStatus::Completed
}

/// Drops completed quests (they stay visible for one tick, then are cleared) and
/// returns how many were dropped.
pub fn prune_completed_quests(quest_board: &mut QuestBoard) -> (dropped: usize)
    ensures
        final(quest_board).active_quests@ == unfinished_quests(old(quest_board).active_quests@),
        dropped == old(quest_board).active_quests@.len() - final(quest_board).active_quests@.len(),
{
    let ghost qs = quest_board.active_quests@;
    let ghost keep = |q: Quest| !quest_completed(q);
    let mut old_quests: Vec<Quest> = Vec::new();
    std::mem::swap(&mut old_quests, &mut quest_board.active_quests);
    let total = old_quests.len();
    let mut kept: Vec<Quest> = Vec::new();
    let mut reversed: Vec<Quest> = Vec::new();
    // Reverse once so the quests can be taken back out in their original order.
    while old_quests.len() > 0
        invariant
            reversed@ + old_quests@.reverse() == qs.reverse(),
        decreases old_quests.len(),
    {
        let q = old_quests.pop().unwrap();
        let ghost before = old_quests@;
        reversed.push(q);
        proof {
            assert(reversed@ + old_quests@.reverse() =~= qs.reverse()) by {
                assert(old_quests@.push(q).reverse() =~= seq![q] + old_quests@.reverse());
            }
        }
    }
    assert(reversed@ =~= qs.reverse());
    let mut dropped: usize = 0;
    while reversed.len() > 0
        invariant
            keep == (|q: Quest| !quest_completed(q)),
            total == qs.len(),
            reversed@.len() <= qs.len(),
            reversed@ == qs.subrange(qs.len() - reversed@.len(), qs.len() as int).reverse(),
            kept@ == qs.subrange(0, qs.len() - reversed@.len()).filter(keep),
            dropped == (qs.len() - reversed@.len()) - kept@.len(),
        decreases reversed.len(),
    {
        let ghost done = qs.len() - reversed@.len();
        let q = reversed.pop().unwrap();
        proof {
            assert(q == qs[done]);
            assert(qs.subrange(0, done + 1) =~= qs.subrange(0, done).push(q));
            qs.subrange(0, done).lemma_filter_push(q, keep);
            assert(reversed@ =~= qs.subrange(qs.len() - reversed@.len(), qs.len() as int).reverse());
            lemma_filter_len_le(qs.subrange(0, done), keep);
        }
        if q.status == QuestStatus::Completed {
            dropped = dropped + 1;
        } else {
            kept.push(q);
        }
    }
    assert(qs.subrange(0, qs.len() as int) =~= qs);
    quest_board.active_quests = kept;
    dropped
}

proof fn lemma_filter_len_le(s: Seq<Quest>, p: spec_fn(Quest) -> bool)
    ensures
        s.filter(p).len() <= s.len(),
    decreases s.len(),
{
    reveal(Seq::filter);
    if s.len() > 0 {
        lemma_filter_len_le(s.drop_last(), p);
    }
}

/// Whether any quest is open.
pub fn has_open_quest(quest_board: &QuestBoard) -> (r: bool)
    ensures
        r == exists|k: int|
            0 <= k < quest_board.active_quests@.len() && #[trigger] quest_board.active_quests@[k].status
                == QuestStatus::Open,
{
    let mut i: usize = 0;
    while i < quest_board.active_quests.len()
        invariant
            i <= quest_board.active_quests@.len(),
            forall|k: int| 0 <= k < i ==> #[trigger] quest_board.active_quests@[k].status != QuestStatus::Open,
        decreases quest_board.active_quests.len() - i,
    {
        if quest_board.active_quests[i].status == QuestStatus::Open {
            return true;
        }
        i += 1;
    }
    false
}

/// Whether `e` is the provider of some quest in progress.
pub open spec fn is_busy_provider(qs: Seq<Quest>, e: EntityId) -> bool {
    exists|k: int| 0 <= k < qs.len() && #[trigger] qs[k].status == (QuestStatus::InProgress { provider: e })
}

/// The providers of quests in progress, in board order.
pub fn providers_in_progress(quest_board: &QuestBoard) -> (r: Vec<EntityId>)
    ensures
        forall|e: EntityId| r@.contains(e) <==> is_busy_provider(quest_board.active_quests@, e),
{
    let ghost qs = quest_board.active_quests@;
    let mut r: Vec<EntityId> = Vec::new();
    let mut i: usize = 0;
    while i < quest_board.active_quests.len()
        invariant
            qs == quest_board.active_quests@,
            i <= qs.len(),
            forall|e: EntityId| r@.contains(e) <==> is_busy_provider(qs.subrange(0, i as int), e),
        decreases qs.len() - i,
    {
        let ghost before = r@;
        match quest_board.active_quests[i].status {
            QuestStatus::InProgress { provider } => {
                r.push(provider);
            },
            _ => {},
        }
        proof {
            let pre = qs.subrange(0, i as int);
            let post = qs.subrange(0, i + 1);
            assert forall|e: EntityId| r@.contains(e) <==> is_busy_provider(post, e) by {
                if is_busy_provider(post, e) {
                    let k = choose|k: int| 0 <= k < post.len() && #[trigger] post[k].status == (QuestStatus::InProgress { provider: e });
                    if k < i {
                        assert(pre[k] == post[k]);
                        assert(is_busy_provider(pre, e));
                        assert(before.contains(e));
                        let m = choose|m: int| 0 <= m < before.len() && before[m] == e;
                        assert(r@[m] == e);
                    } else {
                        assert(r@[r@.len() - 1] == e);
                    }
                }
                if r@.contains(e) {
                    let m = choose|m: int| 0 <= m < r@.len() && r@[m] == e;
                    if m < before.len() {
                        assert(before.contains(e));
                        assert(is_busy_provider(pre, e));
                        let k = choose|k: int| 0 <= k < pre.len() && #[trigger] pre[k].status == (QuestStatus::InProgress { provider: e });
                        assert(post[k] == pre[k]);
                    } else {
                        assert(post[i as int].status == (QuestStatus::InProgress { provider: e }));
                    }
                }
            }
        }
        i += 1;
    }
    assert(qs.subrange(0, qs.len() as int) =~= qs);
    r
}

/// The capability a provider needs to fulfil `need`.
pub open spec fn required_capability(need: Seq<char>) -> Option<Seq<char>> {
    if need == "food"@ {
        Some("Eat"@)
    } else if need == "water"@ {
        Some("Drink"@)
    } else if need == "rest"@ {
        Some("Rest"@)
    } else {
        None
    }
}

/// The capability a provider needs to fulfil `need`, if the need is known.
pub fn need_capability(need: &str) -> (r: Option<&'static str>)
    ensures
        match (r, required_capability(need@)) {
            (Some(c), Some(s)) => c@ == s,
            (None, None) => true,
            _ => false,
        },
{
    let n = String::from_str(need);
    if n == String::from_str("food") {
        Some("Eat")
    } else if n == String::from_str("water") {
        Some("Drink")
    } else if n == String::from_str("rest") {
        Some("Rest")
    } else {
        None
    }
}

/// Hands an open quest to `provider`.
pub fn accept_quest(quest: &mut Quest, provider: EntityId)
    ensures
        final(quest).provider == Some(provider),
        final(quest).status == (QuestStatus::InProgress { provider }),
        final(quest).need == old(quest).need,
        final(quest).requester == old(quest).requester,
        final(quest).chunk == old(quest).chunk,
{
    quest.provider = Some(provider);
    quest.status = QuestStatus::InProgress { provider };
}


/// The activity log never holds more than `ACTIVITY_LOG_MAX` lines, and keeps the newest.
pub proof fn lemma_activity_log_bounded(lines: Seq<String>, s: String)
    ensures
        keep_last(lines.push(s), ACTIVITY_LOG_MAX as nat).len() <= ACTIVITY_LOG_MAX,
        keep_last(lines.push(s), ACTIVITY_LOG_MAX as nat).last() == s,
{
}

/// The quests that are not completed, in board order.
pub open spec fn unfinished_quests(qs: Seq<Quest>) -> Seq<Quest> {
    qs.filter(|q: Quest| !quest_completed(q))
}

/// Pruning leaves no completed quest and keeps every other quest.
pub proof fn lemma_prune_keeps_unfinished(qs: Seq<Quest>)
    ensures
        forall|k: int| 0 <= k < unfinished_quests(qs).len() ==> !quest_completed(#[trigger] unfinished_quests(qs)[k]),
        forall|q: Quest| #[trigger] qs.contains(q) && !quest_completed(q) ==> unfinished_quests(qs).contains(q),
{
    broadcast use vstd::seq_lib::group_filter_ensures;
    let f = |q: Quest| !quest_completed(q);
    assert forall|k: int| 0 <= k < unfinished_quests(qs).len() implies !quest_completed(#[trigger] unfinished_quests(qs)[k]) by {
        assert(unfinished_quests(qs) == qs.filter(f));
        assert(qs.filter(f).contains(qs.filter(f)[k]));
    }
    assert forall|q: Quest| #[trigger] qs.contains(q) && !quest_completed(q) implies unfinished_quests(qs).contains(q) by {
        assert(unfinished_quests(qs) == qs.filter(f));
    }
}

} // verus!
