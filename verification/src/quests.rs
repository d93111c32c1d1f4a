use vstd::prelude::*;
use crate::ai::{
    accept_quest, has_open_quest, is_busy_provider, need_capability, providers_in_progress,
    prune_completed_quests, required_capability, unfinished_quests, DispatcherEvaluationState,
};
use crate::entity::EntityId;
use crate::pawn::{has_capability, Capabilities, Quest, QuestBoard, QuestStatus};

verus! {

broadcast use vstd::std_specs::hash::group_hash_axioms;

/// What a round of quest acceptance found to do before any provider is ranked.
#[derive(Debug)]
pub enum EvaluationRound {
    /// No quest is open: nothing to hand out.
    NoOpenQuest,
    /// Nothing changed since the last evaluation.
    Clean,
    /// Every dirty pawn was already evaluated at this tick.
    NoCandidates,
    /// The pawns evaluated this round, in the order they were given.
    Candidates(Vec<EntityId>),
}

/// Whether pawn `e` is due for evaluation at `seq`: it is dirty (or all are) and was
/// not already evaluated at this tick.
pub open spec fn due_for_evaluation(
    dirty_all: bool,
    dirty: Set<u64>,
    last: Map<u64, u64>,
    seq: u64,
    e: EntityId,
) -> bool {
    (dirty_all || dirty.contains(e.0)) && !(last.contains_key(e.0) && last[e.0] == seq)
}

/// The pawns due for evaluation, in order.
pub open spec fn due_pawns(
    pawns: Seq<EntityId>,
    dirty_all: bool,
    dirty: Set<u64>,
    last: Map<u64, u64>,
    seq: u64,
) -> Seq<EntityId>
    decreases pawns.len(),
{
    if pawns.len() == 0 {
        Seq::empty()
    } else {
        let rest = due_pawns(pawns.drop_last(), dirty_all, dirty, last, seq);
        if due_for_evaluation(dirty_all, dirty, last, seq, pawns.last()) {
            rest.push(pawns.last())
        } else {
            rest
        }
    }
}

/// The evaluation ticks after stamping every pawn of `ev` with `seq`.
pub open spec fn stamped(last: Map<u64, u64>, ev: Seq<EntityId>, seq: u64) -> Map<u64, u64>
    decreases ev.len(),
{
    if ev.len() == 0 {
        last
    } else {
        stamped(last, ev.drop_last(), seq).insert(ev.last().0, seq)
    }
}

proof fn lemma_stamped_other(last: Map<u64, u64>, ev: Seq<EntityId>, seq: u64, e: EntityId)
    requires
        !ev.contains(e),
    ensures
        stamped(last, ev, seq).contains_key(e.0) == last.contains_key(e.0),
        last.contains_key(e.0) ==> stamped(last, ev, seq)[e.0] == last[e.0],
    decreases ev.len(),
{
    if ev.len() > 0 {
        assert(ev.drop_last().contains(e) ==> ev.contains(e)) by {
            if ev.drop_last().contains(e) {
                let i = choose|i: int| 0 <= i < ev.drop_last().len() && ev.drop_last()[i] == e;
                assert(ev[i] == e);
            }
        }
        assert(ev.last() != e) by {
            assert(ev[ev.len() - 1] == ev.last());
        }
        lemma_stamped_other(last, ev.drop_last(), seq, e);
    }
}

proof fn lemma_due_pawns_within(
    pawns: Seq<EntityId>,
    dirty_all: bool,
    dirty: Set<u64>,
    last: Map<u64, u64>,
    seq: u64,
    e: EntityId,
)
    ensures
        due_pawns(pawns, dirty_all, dirty, last, seq).contains(e) ==> pawns.contains(e),
    decreases pawns.len(),
{
    if pawns.len() > 0 {
        let rest = due_pawns(pawns.drop_last(), dirty_all, dirty, last, seq);
        lemma_due_pawns_within(pawns.drop_last(), dirty_all, dirty, last, seq, e);
        if due_pawns(pawns, dirty_all, dirty, last, seq).contains(e) {
            if rest.contains(e) {
                let i = choose|i: int| 0 <= i < pawns.drop_last().len() && pawns.drop_last()[i] == e;
                assert(pawns[i] == e);
            } else {
                let s = due_pawns(pawns, dirty_all, dirty, last, seq);
                let i = choose|i: int| 0 <= i < s.len() && s[i] == e;
                if i < rest.len() {
                    assert(s[i] == rest[i]);
                }
                assert(pawns[pawns.len() - 1] == e);
            }
        }
    }
}

/// Opens a round of quest acceptance at `current_seq`: completed quests are cleared
/// from the board; with no open quest, or no dirty pawn, nothing is evaluated; otherwise
/// the dirty pawns not yet evaluated at this tick are stamped with it and returned.
/// With none left the dirty marks are cleared.
pub fn open_evaluation_round(
    current_seq: u64,
    quest_board: &mut QuestBoard,
    pawns: &Vec<EntityId>,
    evaluation_state: &mut DispatcherEvaluationState,
) -> (r: EvaluationRound)
    requires
        pawns@.no_duplicates(),
    ensures
        final(quest_board).active_quests@ == unfinished_quests(old(quest_board).active_quests@),
        final(evaluation_state).last_region_signature == old(evaluation_state).last_region_signature,
        ({
            let qs = final(quest_board).active_quests@;
            let open = exists|k: int| 0 <= k < qs.len() && #[trigger] qs[k].status == QuestStatus::Open;
            let dirty = old(evaluation_state).dirty_all || !old(evaluation_state).dirty_entities@.is_empty();
            let ev = due_pawns(
                pawns@,
                old(evaluation_state).dirty_all,
                old(evaluation_state).dirty_entities@,
                old(evaluation_state).last_evaluation_tick@,
                current_seq,
            );
            &&& !open ==> r is NoOpenQuest
            &&& open && !dirty ==> r is Clean
            &&& (!open || !dirty) ==> {
                &&& final(evaluation_state).dirty_all == old(evaluation_state).dirty_all
                &&& final(evaluation_state).dirty_entities@ == old(evaluation_state).dirty_entities@
                &&& final(evaluation_state).last_evaluation_tick@ == old(evaluation_state).last_evaluation_tick@
            }
            &&& open && dirty ==> {
                &&& final(evaluation_state).last_evaluation_tick@ == stamped(
                    old(evaluation_state).last_evaluation_tick@,
                    ev,
                    current_seq,
                )
                &&& ev.len() == 0 ==> {
                    &&& r is NoCandidates
                    &&& !final(evaluation_state).dirty_all
                    &&& final(evaluation_state).dirty_entities@ == Set::<u64>::empty()
                }
                &&& ev.len() > 0 ==> {
                    &&& r matches EvaluationRound::Candidates(v) && v@ == ev
                    &&& final(evaluation_state).dirty_all == old(evaluation_state).dirty_all
                    &&& final(evaluation_state).dirty_entities@ == old(evaluation_state).dirty_entities@
                }
            }
        }),
{
    // Keep completed quests visible until the next tick, then clear them.
    prune_completed_quests(quest_board);
    if !has_open_quest(quest_board) {
        return EvaluationRound::NoOpenQuest;
    }
    let dirty_all = evaluation_state.dirty_all;
    if !dirty_all && evaluation_state.dirty_entities.is_empty() {
        return EvaluationRound::Clean;
    }
    let ghost dirty0 = evaluation_state.dirty_entities@;
    let ghost last0 = evaluation_state.last_evaluation_tick@;
    let mut evaluated: Vec<EntityId> = Vec::new();
    let mut i: usize = 0;
    while i < pawns.len()
        invariant
            i <= pawns@.len(),
            pawns@.no_duplicates(),
            dirty_all == old(evaluation_state).dirty_all,
            dirty0 == old(evaluation_state).dirty_entities@,
            last0 == old(evaluation_state).last_evaluation_tick@,
            evaluation_state.dirty_all == dirty_all,
            evaluation_state.dirty_entities@ == dirty0,
            evaluation_state.last_region_signature == old(evaluation_state).last_region_signature,
            evaluated@ == due_pawns(pawns@.subrange(0, i as int), dirty_all, dirty0, last0, current_seq),
            evaluation_state.last_evaluation_tick@ == stamped(last0, evaluated@, current_seq),
        decreases pawns.len() - i,
    {
        let e = pawns[i];
        let ghost pre = pawns@.subrange(0, i as int);
        assert(pawns@.subrange(0, i + 1) =~= pre.push(e));
        assert(pawns@.subrange(0, i + 1).drop_last() =~= pre);
        proof {
            lemma_due_pawns_within(pre, dirty_all, dirty0, last0, current_seq, e);
            if pre.contains(e) {
                let j = choose|j: int| 0 <= j < pre.len() && pre[j] == e;
                assert(pawns@[j] == pawns@[i as int]);
            }
            lemma_stamped_other(last0, evaluated@, current_seq, e);
        }
        let is_dirty = dirty_all || evaluation_state.dirty_entities.contains(&e.0);
        let seen_now = match evaluation_state.last_evaluation_tick.get(&e.0) {
            Some(last) => *last == current_seq,
            None => false,
        };
        if is_dirty && !seen_now {
            let ghost before = evaluated@;
            evaluated.push(e);
            evaluation_state.last_evaluation_tick.insert(e.0, current_seq);
            assert(evaluated@.drop_last() =~= before);
        }
        i += 1;
    }
    assert(pawns@.subrange(0, pawns@.len() as int) =~= pawns@);
    if evaluated.len() == 0 {
        evaluation_state.dirty_entities.clear();
        evaluation_state.dirty_all = false;
        return EvaluationRound::NoCandidates;
    }
    EvaluationRound::Candidates(evaluated)
}

/// A pawn that may take on quests, with what it can do.
#[derive(Clone, Debug)]
pub struct ProviderCandidate {
    pub entity: EntityId,
    pub capabilities: Option<Capabilities>,
}

/// Whether some candidate entry for `e` can do `cap`.
pub open spec fn can_provide(cands: Seq<ProviderCandidate>, e: EntityId, cap: Seq<char>) -> bool {
    exists|i: int|
        0 <= i < cands.len() && #[trigger] cands[i].entity == e && (cands[i].capabilities matches Some(
            c,
        ) && has_capability(c.can_do@, cap))
}

/// Whether `e` may provide quest `q`: it is not the requester, provides no other quest,
/// and can do what the quest's need calls for.
pub open spec fn eligible_provider(
    q: Quest,
    cands: Seq<ProviderCandidate>,
    busy: Set<EntityId>,
    e: EntityId,
) -> bool {
    &&& e != q.requester
    &&& !busy.contains(e)
    &&& required_capability(q.need@) matches Some(cap) && can_provide(cands, e, cap)
}

/// The best-ranked eligible provider for `q`, from position `j` of its ranking on.
pub open spec fn first_eligible(
    ranking: Seq<EntityId>,
    q: Quest,
    cands: Seq<ProviderCandidate>,
    busy: Set<EntityId>,
    j: int,
) -> Option<EntityId>
    decreases ranking.len() - j,
{
    if j < 0 || j >= ranking.len() {
        None
    } else if eligible_provider(q, cands, busy, ranking[j]) {
        Some(ranking[j])
    } else {
        first_eligible(ranking, q, cands, busy, j + 1)
    }
}

/// Quest `q` handed to `provider`.
pub open spec fn accepted(q: Quest, provider: EntityId) -> Quest {
    Quest { provider: Some(provider), status: QuestStatus::InProgress { provider }, ..q }
}

/// The board after handing out the open quests from position `k` on, in board order:
/// each goes to its best-ranked eligible provider (`rankings[k]` ranks the pawns for
/// quest `k`), who then counts as busy.
pub open spec fn assign_from(
    qs: Seq<Quest>,
    cands: Seq<ProviderCandidate>,
    rankings: Seq<Seq<EntityId>>,
    busy: Set<EntityId>,
    k: int,
) -> Seq<Quest>
    decreases qs.len() - k,
{
    if k < 0 || k >= qs.len() {
        qs
    } else if qs[k].status == QuestStatus::Open && k < rankings.len() {
        match first_eligible(rankings[k], qs[k], cands, busy, 0) {
            Some(p) => assign_from(qs.update(k, accepted(qs[k], p)), cands, rankings, busy.insert(p), k + 1),
            None => assign_from(qs, cands, rankings, busy, k + 1),
        }
    } else {
        assign_from(qs, cands, rankings, busy, k + 1)
    }
}

/// The providers of quests in progress.
pub open spec fn busy_providers(qs: Seq<Quest>) -> Set<EntityId> {
    Set::new(|e: EntityId| is_busy_provider(qs, e))
}

fn candidate_can_provide(cands: &Vec<ProviderCandidate>, e: EntityId, cap: &str) -> (r: bool)
    ensures
        r == can_provide(cands@, e, cap@),
{
    let mut i: usize = 0;
    while i < cands.len()
        invariant
            i <= cands@.len(),
            forall|k: int|
                0 <= k < i ==> !(#[trigger] cands@[k].entity == e && (cands@[k].capabilities matches Some(
                    c,
                ) && has_capability(c.can_do@, cap@))),
        decreases cands.len() - i,
    {
        if cands[i].entity == e {
            match &cands[i].capabilities {
                Some(c) => {
                    if c.has(cap) {
                        return true;
                    }
                },
                None => {},
            }
        }
        i += 1;
    }
    false
}

fn contains_entity(v: &Vec<EntityId>, e: EntityId) -> (r: bool)
    ensures
        r == v@.contains(e),
{
    let mut i: usize = 0;
    while i < v.len()
        invariant
            i <= v@.len(),
            forall|k: int| 0 <= k < i ==> v@[k] != e,
        decreases v.len() - i,
    {
        if v[i] == e {
            return true;
        }
        i += 1;
    }
    false
}

fn pick_provider(
    ranking: &Vec<EntityId>,
    quest: &Quest,
    cands: &Vec<ProviderCandidate>,
    busy: &Vec<EntityId>,
    cap: &str,
) -> (r: Option<EntityId>)
    requires
        required_capability(quest.need@) == Some(cap@),
    ensures
        r == first_eligible(ranking@, *quest, cands@, busy@.to_set(), 0),
{
    let mut j: usize = 0;
    while j < ranking.len()
        invariant
            j <= ranking@.len(),
            required_capability(quest.need@) == Some(cap@),
            first_eligible(ranking@, *quest, cands@, busy@.to_set(), 0) == first_eligible(
                ranking@,
                *quest,
                cands@,
                busy@.to_set(),
                j as int,
            ),
        decreases ranking.len() - j,
    {
        let e = ranking[j];
        if e != quest.requester && !contains_entity(busy, e) && candidate_can_provide(cands, e, cap) {
            return Some(e);
        }
        j += 1;
    }
    None
}

/// Hands each open quest, in board order, to its best-ranked eligible provider:
/// `rankings[k]` ranks the pawns for the quest at position `k`; a provider must not be
/// the requester, must not provide another quest, and must be able to do what the
/// need calls for. Returns the positions of the quests handed out, in order, and
/// clears the dirty marks.
pub fn assign_quest_providers(
    quest_board: &mut QuestBoard,
    candidates: &Vec<ProviderCandidate>,
    rankings: &Vec<Vec<EntityId>>,
    evaluation_state: &mut DispatcherEvaluationState,
) -> (handed: Vec<usize>)
    ensures
        final(quest_board).active_quests@ == assign_from(
            old(quest_board).active_quests@,
            candidates@,
            rankings@.map_values(|r: Vec<EntityId>| r@),
            busy_providers(old(quest_board).active_quests@),
            0,
        ),
        final(quest_board).active_quests@.len() == old(quest_board).active_quests@.len(),
        forall|i: int|
            0 <= i < handed@.len() ==> #[trigger] handed@[i] < old(quest_board).active_quests@.len()
                && old(quest_board).active_quests@[handed@[i] as int].status == QuestStatus::Open
                && final(quest_board).active_quests@[handed@[i] as int].status is InProgress,
        forall|i: int, j: int| 0 <= i < j < handed@.len() ==> #[trigger] handed@[i] < #[trigger] handed@[j],
        forall|k: int|
            0 <= k < old(quest_board).active_quests@.len() && old(quest_board).active_quests@[k].status
                == QuestStatus::Open && final(quest_board).active_quests@[k].status is InProgress
                ==> #[trigger] handed@.contains(k as usize),
        !final(evaluation_state).dirty_all,
        final(evaluation_state).dirty_entities@ == Set::<u64>::empty(),
        final(evaluation_state).last_evaluation_tick == old(evaluation_state).last_evaluation_tick,
        final(evaluation_state).last_region_signature == old(evaluation_state).last_region_signature,
{
    let ghost qs0 = quest_board.active_quests@;
    let ghost ranks = rankings@.map_values(|r: Vec<EntityId>| r@);
    let mut busy = providers_in_progress(quest_board);
    assert(busy@.to_set() =~= busy_providers(qs0)) by {
        assert forall|e: EntityId| busy@.to_set().contains(e) == busy_providers(qs0).contains(e) by {
            assert(busy@.to_set().contains(e) == busy@.contains(e));
        }
    }
    let mut handed: Vec<usize> = Vec::new();
    let mut k: usize = 0;
    while k < quest_board.active_quests.len()
        invariant
            k <= quest_board.active_quests@.len(),
            quest_board.active_quests@.len() == qs0.len(),
            ranks == rankings@.map_values(|r: Vec<EntityId>| r@),
            assign_from(qs0, candidates@, ranks, busy_providers(qs0), 0) == assign_from(
                quest_board.active_quests@,
                candidates@,
                ranks,
                busy@.to_set(),
                k as int,
            ),
            forall|j: int| k <= j < qs0.len() ==> #[trigger] quest_board.active_quests@[j] == qs0[j],
            forall|j: int|
                0 <= j < k ==> (quest_board.active_quests@[j].status is InProgress
                    && qs0[j].status == QuestStatus::Open) == #[trigger] handed@.contains(j as usize),
            forall|i: int| 0 <= i < handed@.len() ==> #[trigger] handed@[i] < k,
            forall|i: int, j: int| 0 <= i < j < handed@.len() ==> #[trigger] handed@[i] < #[trigger] handed@[j],
            forall|j: int|
                0 <= j < k ==> #[trigger] quest_board.active_quests@[j].status == QuestStatus::Open
                    ==> qs0[j].status == QuestStatus::Open,
            forall|j: int|
                0 <= j < k ==> qs0[j].status != QuestStatus::Open ==> #[trigger] quest_board.active_quests@[j]
                    == qs0[j],
        decreases qs0.len() - k,
    {
        let ghost cur = quest_board.active_quests@;
        let ghost bset = busy@.to_set();
        let is_open = quest_board.active_quests[k].status == QuestStatus::Open;
        if is_open && k < rankings.len() {
            assert(ranks[k as int] == rankings@[k as int]@);
            let cap = need_capability(quest_board.active_quests[k].need.as_str());
            let pick = match cap {
                Some(c) => pick_provider(&rankings[k], &quest_board.active_quests[k], candidates, &busy, c),
                None => {
                    proof {
                        lemma_first_eligible_none(ranks[k as int], cur[k as int], candidates@, bset, 0);
                    }
                    None
                },
            };
            match pick {
                Some(p) => {
                    let mut q = quest_board.active_quests.remove(k);
                    accept_quest(&mut q, p);
                    quest_board.active_quests.insert(k, q);
                    assert(quest_board.active_quests@ =~= cur.update(k as int, accepted(cur[k as int], p)));
                    let ghost old_busy = busy@;
                    busy.push(p);
                    proof {
                        old_busy.lemma_push_to_set_commute(p);
                    }
                    let ghost before = handed@;
                    handed.push(k);
                    proof {
                        assert forall|j: int|
                            0 <= j < k + 1 implies (quest_board.active_quests@[j].status is InProgress
                                && qs0[j].status == QuestStatus::Open) == #[trigger] handed@.contains(
                                j as usize,
                            ) by {
                            if j < k {
                                assert(handed@.contains(j as usize) == before.contains(j as usize)) by {
                                    if handed@.contains(j as usize) {
                                        let i = choose|i: int| 0 <= i < handed@.len() && handed@[i] == j as usize;
                                        if i < before.len() {
                                            assert(before[i] == handed@[i]);
                                        }
                                    }
                                    if before.contains(j as usize) {
                                        let i = choose|i: int| 0 <= i < before.len() && before[i] == j as usize;
                                        assert(handed@[i] == before[i]);
                                    }
                                }
                            } else {
                                assert(handed@[handed@.len() - 1] == k);
                            }
                        }
                    }
                },
                None => {
                    proof {
                        assert forall|j: int|
                            0 <= j < k + 1 implies (quest_board.active_quests@[j].status is InProgress
                                && qs0[j].status == QuestStatus::Open) == #[trigger] handed@.contains(
                                j as usize,
                            ) by {
                            if j == k {
                                if handed@.contains(j as usize) {
                                    let i = choose|i: int| 0 <= i < handed@.len() && handed@[i] == j as usize;
                                }
                            }
                        }
                    }
                },
            }
        } else {
            proof {
                assert forall|j: int|
                    0 <= j < k + 1 implies (quest_board.active_quests@[j].status is InProgress
                        && qs0[j].status == QuestStatus::Open) == #[trigger] handed@.contains(j as usize) by {
                    if j == k {
                        if handed@.contains(j as usize) {
                            let i = choose|i: int| 0 <= i < handed@.len() && handed@[i] == j as usize;
                        }
                    }
                }
            }
        }
        k += 1;
    }
    assert forall|i: int| 0 <= i < handed@.len() implies #[trigger] handed@[i] < qs0.len()
        && qs0[handed@[i] as int].status == QuestStatus::Open
        && quest_board.active_quests@[handed@[i] as int].status is InProgress by {
        let j = handed@[i] as int;
        assert(handed@[i] == j as usize);
        assert(handed@.contains(j as usize));
    }
    evaluation_state.dirty_entities.clear();
    evaluation_state.dirty_all = false;
    handed
}

proof fn lemma_first_eligible_none(
    ranking: Seq<EntityId>,
    q: Quest,
    cands: Seq<ProviderCandidate>,
    busy: Set<EntityId>,
    j: int,
)
    requires
        required_capability(q.need@) is None,
        0 <= j <= ranking.len(),
    ensures
        first_eligible(ranking, q, cands, busy, j) is None,
    decreases ranking.len() - j,
{
    if j < ranking.len() {
        lemma_first_eligible_none(ranking, q, cands, busy, j + 1);
    }
}


/// No pawn provides two quests in progress.
pub open spec fn providers_distinct(qs: Seq<Quest>) -> bool {
    forall|i: int, j: int|
        #![trigger qs[i], qs[j]]
        0 <= i < qs.len() && 0 <= j < qs.len() && i != j && qs[i].status is InProgress
            && qs[j].status is InProgress ==> qs[i].status != qs[j].status
}

/// No quest in progress is provided by the pawn that asked for it.
pub open spec fn never_self_provided(qs: Seq<Quest>) -> bool {
    forall|k: int|
        0 <= k < qs.len() ==> (#[trigger] qs[k].status matches QuestStatus::InProgress { provider }
            ==> provider != qs[k].requester)
}

proof fn lemma_first_eligible_is_eligible(
    ranking: Seq<EntityId>,
    q: Quest,
    cands: Seq<ProviderCandidate>,
    busy: Set<EntityId>,
    j: int,
)
    ensures
        first_eligible(ranking, q, cands, busy, j) matches Some(p) ==> eligible_provider(q, cands, busy, p),
    decreases ranking.len() - j,
{
    if 0 <= j < ranking.len() && !eligible_provider(q, cands, busy, ranking[j]) {
        lemma_first_eligible_is_eligible(ranking, q, cands, busy, j + 1);
    }
}

/// The skill a need calls for: food is eaten, water drunk, rest taken.
pub open spec fn skill_for(need: Seq<char>) -> Option<Seq<char>> {
    if need == "food"@ {
        Some("Eat"@)
    } else if need == "water"@ {
        Some("Drink"@)
    } else if need == "rest"@ {
        Some("Rest"@)
    } else {
        None
    }
}

/// Whether pawn `e` may take on quest `q`: it did not ask for it, provides no quest
/// yet, and some candidate entry for it lists the skill the quest's need calls for.
pub open spec fn may_take(q: Quest, cands: Seq<ProviderCandidate>, busy: Set<EntityId>, e: EntityId) -> bool {
    &&& e != q.requester
    &&& !busy.contains(e)
    &&& skill_for(q.need@) matches Some(skill) && exists|c: int, m: int|
        0 <= c < cands.len() && #[trigger] cands[c].entity == e && cands[c].capabilities is Some
            && 0 <= m < cands[c].capabilities->0.can_do.len() && #[trigger] cands[c].capabilities->0.can_do[m]@ == skill
}

proof fn lemma_may_take_is_eligible(q: Quest, cands: Seq<ProviderCandidate>, busy: Set<EntityId>, e: EntityId)
    ensures
        may_take(q, cands, busy, e) == eligible_provider(q, cands, busy, e),
{
    if let Some(skill) = skill_for(q.need@) {
        assert(required_capability(q.need@) == Some(skill));
        if may_take(q, cands, busy, e) {
            let (c, m) = choose|c: int, m: int|
                0 <= c < cands.len() && #[trigger] cands[c].entity == e && cands[c].capabilities is Some
                    && 0 <= m < cands[c].capabilities->0.can_do.len() && #[trigger] cands[c].capabilities->0.can_do[m]@
                    == skill;
            assert(has_capability(cands[c].capabilities->0.can_do@, skill));
            assert(cands[c].entity == e);
        }
        if eligible_provider(q, cands, busy, e) {
            let c = choose|c: int|
                0 <= c < cands.len() && #[trigger] cands[c].entity == e && (cands[c].capabilities matches Some(
                    k,
                ) && has_capability(k.can_do@, skill));
            let k = cands[c].capabilities->0;
            let m = choose|m: int| 0 <= m < k.can_do@.len() && #[trigger] k.can_do@[m]@ == skill;
            assert(cands[c].capabilities->0.can_do[m]@ == skill);
        }
    } else {
        assert(required_capability(q.need@) is None);
    }
}

/// The provider picked for a quest is its best-ranked pawn that may take it: it stands
/// in the ranking, may take the quest, and no pawn ranked ahead of it may; when none
/// is picked, no ranked pawn may take the quest.
pub proof fn lemma_pick_is_best_ranked_eligible(
    ranking: Seq<EntityId>,
    q: Quest,
    cands: Seq<ProviderCandidate>,
    busy: Set<EntityId>,
)
    ensures
        first_eligible(ranking, q, cands, busy, 0) matches Some(p) ==> exists|idx: int|
            0 <= idx < ranking.len() && ranking[idx] == p && may_take(q, cands, busy, p) && forall|i: int|
                0 <= i < idx ==> !may_take(q, cands, busy, #[trigger] ranking[i]),
        first_eligible(ranking, q, cands, busy, 0) is None ==> forall|i: int|
            0 <= i < ranking.len() ==> !may_take(q, cands, busy, #[trigger] ranking[i]),
{
    lemma_first_eligible_from(ranking, q, cands, busy, 0);
    assert forall|e: EntityId| #[trigger] may_take(q, cands, busy, e) == eligible_provider(q, cands, busy, e) by {
        lemma_may_take_is_eligible(q, cands, busy, e);
    }
}

proof fn lemma_first_eligible_from(
    ranking: Seq<EntityId>,
    q: Quest,
    cands: Seq<ProviderCandidate>,
    busy: Set<EntityId>,
    j: int,
)
    requires
        0 <= j <= ranking.len(),
    ensures
        first_eligible(ranking, q, cands, busy, j) matches Some(p) ==> exists|idx: int|
            j <= idx < ranking.len() && ranking[idx] == p && eligible_provider(q, cands, busy, p)
                && forall|i: int| j <= i < idx ==> !eligible_provider(q, cands, busy, #[trigger] ranking[i]),
        first_eligible(ranking, q, cands, busy, j) is None ==> forall|i: int|
            j <= i < ranking.len() ==> !eligible_provider(q, cands, busy, #[trigger] ranking[i]),
    decreases ranking.len() - j,
{
    if j < ranking.len() {
        lemma_first_eligible_from(ranking, q, cands, busy, j + 1);
        if !eligible_provider(q, cands, busy, ranking[j]) {
            if let Some(p) = first_eligible(ranking, q, cands, busy, j + 1) {
                let idx = choose|idx: int|
                    j + 1 <= idx < ranking.len() && ranking[idx] == p && eligible_provider(q, cands, busy, p)
                        && forall|i: int| j + 1 <= i < idx ==> !eligible_provider(q, cands, busy, #[trigger] ranking[i]);
                assert(forall|i: int| j <= i < idx ==> !eligible_provider(q, cands, busy, #[trigger] ranking[i]));
            }
        } else {
            assert(forall|i: int| j <= i < j ==> !eligible_provider(q, cands, busy, #[trigger] ranking[i]));
        }
    }
}

proof fn lemma_assign_from_keeps_providers_apart(
    qs: Seq<Quest>,
    cands: Seq<ProviderCandidate>,
    rankings: Seq<Seq<EntityId>>,
    busy: Set<EntityId>,
    k: int,
)
    requires
        0 <= k <= qs.len(),
        providers_distinct(qs),
        forall|e: EntityId| is_busy_provider(qs, e) ==> busy.contains(e),
    ensures
        providers_distinct(assign_from(qs, cands, rankings, busy, k)),
    decreases qs.len() - k,
{
    if k < qs.len() {
        if qs[k].status == QuestStatus::Open && k < rankings.len() {
            lemma_first_eligible_is_eligible(rankings[k], qs[k], cands, busy, 0);
            match first_eligible(rankings[k], qs[k], cands, busy, 0) {
                Some(p) => {
                    let qs1 = qs.update(k, accepted(qs[k], p));
                    assert forall|i: int, j: int|
                        #![trigger qs1[i], qs1[j]]
                        0 <= i < qs1.len() && 0 <= j < qs1.len() && i != j && qs1[i].status is InProgress
                            && qs1[j].status is InProgress implies qs1[i].status != qs1[j].status by {
                        if i == k {
                            assert(qs1[j] == qs[j]);
                            if qs[j].status == (QuestStatus::InProgress { provider: p }) {
                                assert(is_busy_provider(qs, p));
                            }
                        } else if j == k {
                            assert(qs1[i] == qs[i]);
                            if qs[i].status == (QuestStatus::InProgress { provider: p }) {
                                assert(is_busy_provider(qs, p));
                            }
                        } else {
                            assert(qs1[i] == qs[i] && qs1[j] == qs[j]);
                        }
                    }
                    assert forall|e: EntityId| is_busy_provider(qs1, e) implies busy.insert(p).contains(e) by {
                        let i = choose|i: int| 0 <= i < qs1.len() && #[trigger] qs1[i].status == (QuestStatus::InProgress { provider: e });
                        if i != k {
                            assert(qs1[i] == qs[i]);
                            assert(is_busy_provider(qs, e));
                        }
                    }
                    lemma_assign_from_keeps_providers_apart(qs1, cands, rankings, busy.insert(p), k + 1);
                },
                None => {
                    lemma_assign_from_keeps_providers_apart(qs, cands, rankings, busy, k + 1);
                },
            }
        } else {
            lemma_assign_from_keeps_providers_apart(qs, cands, rankings, busy, k + 1);
        }
    }
}

/// Handing out quests never gives a pawn a second quest in progress.
pub proof fn lemma_assignment_keeps_one_quest_per_provider(
    qs: Seq<Quest>,
    cands: Seq<ProviderCandidate>,
    rankings: Seq<Seq<EntityId>>,
)
    requires
        providers_distinct(qs),
    ensures
        providers_distinct(assign_from(qs, cands, rankings, busy_providers(qs), 0)),
{
    lemma_assign_from_keeps_providers_apart(qs, cands, rankings, busy_providers(qs), 0);
}

/// Whether pawn `p` may take on quest `q` whatever else it does: it is not the
/// requester and can do what the quest's need calls for.
pub open spec fn able_provider(q: Quest, cands: Seq<ProviderCandidate>, p: EntityId) -> bool {
    &&& p != q.requester
    &&& required_capability(q.need@) matches Some(cap) && can_provide(cands, p, cap)
}

/// Whether `after` is open quest `before` handed to an able provider.
pub open spec fn newly_accepted(before: Quest, after: Quest, cands: Seq<ProviderCandidate>) -> bool {
    &&& before.status == QuestStatus::Open
    &&& after.status matches QuestStatus::InProgress { provider: p } && after == accepted(before, p)
        && able_provider(before, cands, p)
}

proof fn lemma_assign_from_changes(
    qs: Seq<Quest>,
    cands: Seq<ProviderCandidate>,
    rankings: Seq<Seq<EntityId>>,
    busy: Set<EntityId>,
    k: int,
)
    requires
        0 <= k <= qs.len(),
    ensures
        assign_from(qs, cands, rankings, busy, k).len() == qs.len(),
        forall|j: int|
            0 <= j < qs.len() ==> #[trigger] assign_from(qs, cands, rankings, busy, k)[j] == qs[j] || newly_accepted(
                qs[j],
                assign_from(qs, cands, rankings, busy, k)[j],
                cands,
            ),
    decreases qs.len() - k,
{
    if k < qs.len() {
        if qs[k].status == QuestStatus::Open && k < rankings.len() {
            lemma_first_eligible_is_eligible(rankings[k], qs[k], cands, busy, 0);
            match first_eligible(rankings[k], qs[k], cands, busy, 0) {
                Some(p) => {
                    let qs1 = qs.update(k, accepted(qs[k], p));
                    lemma_assign_from_changes(qs1, cands, rankings, busy.insert(p), k + 1);
                    let out = assign_from(qs1, cands, rankings, busy.insert(p), k + 1);
                    assert forall|j: int| 0 <= j < qs.len() implies #[trigger] out[j] == qs[j] || newly_accepted(
                        qs[j],
                        out[j],
                        cands,
                    ) by {
                        if j == k {
                            // The quest is now in progress, so the later steps leave it alone.
                            assert(qs1[j].status != QuestStatus::Open);
                            assert(out[j] == qs1[j]);
                        } else {
                            assert(qs1[j] == qs[j]);
                        }
                    }
                },
                None => {
                    lemma_assign_from_changes(qs, cands, rankings, busy, k + 1);
                },
            }
        } else {
            lemma_assign_from_changes(qs, cands, rankings, busy, k + 1);
        }
    }
}

/// Handing out quests changes only open quests, each into that quest in progress with
/// a provider that is not its requester and can do what its need calls for; no quest
/// is removed, added or completed.
pub proof fn lemma_assignment_hands_open_quests_to_able_providers(
    qs: Seq<Quest>,
    cands: Seq<ProviderCandidate>,
    rankings: Seq<Seq<EntityId>>,
)
    ensures
        assign_from(qs, cands, rankings, busy_providers(qs), 0).len() == qs.len(),
        forall|j: int|
            0 <= j < qs.len() ==> #[trigger] assign_from(qs, cands, rankings, busy_providers(qs), 0)[j] == qs[j]
                || newly_accepted(qs[j], assign_from(qs, cands, rankings, busy_providers(qs), 0)[j], cands),
        never_self_provided(qs) ==> never_self_provided(assign_from(qs, cands, rankings, busy_providers(qs), 0)),
{
    lemma_assign_from_changes(qs, cands, rankings, busy_providers(qs), 0);
    let out = assign_from(qs, cands, rankings, busy_providers(qs), 0);
    if never_self_provided(qs) {
        assert forall|k: int| 0 <= k < out.len() implies (#[trigger] out[k].status matches QuestStatus::InProgress {
            provider,
        } ==> provider != out[k].requester) by {
            if out[k] == qs[k] {
                assert(qs[k].status == out[k].status);
            }
        }
    }
}


/// The quests not asked for by any of `dead`, in board order.
pub open spec fn quests_of_living(qs: Seq<Quest>, dead: Seq<EntityId>) -> Seq<Quest>
    decreases qs.len(),
{
    if qs.len() == 0 {
        Seq::empty()
    } else {
        let rest = quests_of_living(qs.drop_last(), dead);
        if dead.contains(qs.last().requester) {
            rest
        } else {
            rest.push(qs.last())
        }
    }
}

/// Drops the quests whose requester died.
pub fn drop_quests_of_dead(quest_board: &mut QuestBoard, dead: &Vec<EntityId>)
    ensures
        final(quest_board).active_quests@ == quests_of_living(old(quest_board).active_quests@, dead@),
{
    let ghost qs = quest_board.active_quests@;
    let mut pending: Vec<Quest> = Vec::new();
    std::mem::swap(&mut pending, &mut quest_board.active_quests);
    // Reverse once so the quests can be taken back out in their original order.
    let mut reversed: Vec<Quest> = Vec::new();
    while pending.len() > 0
        invariant
            reversed@ + pending@.reverse() == qs.reverse(),
        decreases pending.len(),
    {
        let q = pending.pop().unwrap();
        reversed.push(q);
        proof {
            assert(reversed@ + pending@.reverse() =~= qs.reverse()) by {
                assert(pending@.push(q).reverse() =~= seq![q] + pending@.reverse());
            }
        }
    }
    assert(reversed@ =~= qs.reverse());
    let mut kept: Vec<Quest> = Vec::new();
    while reversed.len() > 0
        invariant
            reversed@.len() <= qs.len(),
            reversed@ == qs.subrange(qs.len() - reversed@.len(), qs.len() as int).reverse(),
            kept@ == quests_of_living(qs.subrange(0, qs.len() - reversed@.len()), dead@),
        decreases reversed.len(),
    {
        let ghost done = qs.len() - reversed@.len();
        let q = reversed.pop().unwrap();
        proof {
            assert(q == qs[done]);
            assert(qs.subrange(0, done + 1).drop_last() =~= qs.subrange(0, done));
            assert(qs.subrange(0, done + 1).last() == q);
            assert(reversed@ =~= qs.subrange(qs.len() - reversed@.len(), qs.len() as int).reverse());
        }
        if !contains_entity(dead, q.requester) {
            kept.push(q);
        }
    }
    assert(qs.subrange(0, qs.len() as int) =~= qs);
    quest_board.active_quests = kept;
}

} // verus!
