use vstd::prelude::*;
use vstd::string::StringExecFns;
use crate::entity::EntityId;
use crate::lease::{ChunkId, LeaseHandle};
use crate::table::PathTable;

verus! {

/// Stable identity for items across the simulation. Used for history and trade.
#[derive(Clone, Copy, Debug, PartialEq, Eq, Hash, Structural)]
pub struct ItemId(pub u64);

/// Hands out item IDs in increasing order.
#[derive(Debug)]
pub struct ItemIdAllocator {
    next: u64,
}

impl ItemIdAllocator {
    /// The next ID this allocator will hand out.
    pub closed spec fn next_id(&self) -> u64 {
        self.next
    }

    pub fn new() -> (a: ItemIdAllocator)
        ensures
            a.next_id() == 0,
    {
        ItemIdAllocator { next: 0 }
    }

    /// Returns a fresh ID: each call returns the previous one plus one.
    pub fn allocate(&mut self) -> (id: ItemId)
        requires
            old(self).next_id() < u64::MAX,
        ensures
            id.0 == old(self).next_id(),
            final(self).next_id() == old(self).next_id() + 1,
    {
        let id = ItemId(self.next);
        self.next = self.next + 1;
        id
    }
}

impl Default for ItemIdAllocator {
    fn default() -> (a: ItemIdAllocator)
        ensures
            a.next_id() == 0,
    {
        ItemIdAllocator::new()
    }
}

/// Attached to any entity that represents a distinct item (food, water, tool, ...).
#[derive(Clone, Copy, Debug, PartialEq, Eq, Structural)]
pub struct ItemIdentity {
    pub item_id: ItemId,
    pub created_at_causal_seq: u64,
}

/// Who interacted with an item: (actor, action label, causal step), oldest first.
#[derive(Clone, Debug)]
pub struct ItemHistory {
    pub entries: Vec<(EntityId, String, u64)>,
}

impl ItemHistory {
    pub fn new() -> (h: ItemHistory)
        ensures
            h.entries@.len() == 0,
    {
        ItemHistory { entries: Vec::new() }
    }

    /// Appends one interaction.
    pub fn record(&mut self, actor: EntityId, action: &str, causal_seq: u64)
        ensures
            final(self).entries@.len() == old(self).entries@.len() + 1,
            final(self).entries@.subrange(0, old(self).entries@.len() as int) == old(self).entries@,
            final(self).entries@.last().0 == actor,
            final(self).entries@.last().1@ == action@,
            final(self).entries@.last().2 == causal_seq,
    {
        self.entries.push((actor, String::from_str(action), causal_seq));
        assert(self.entries@.subrange(0, old(self).entries@.len() as int) =~= old(self).entries@);
    }
}

impl Default for ItemHistory {
    fn default() -> (h: ItemHistory)
        ensures
            h.entries@.len() == 0,
    {
        ItemHistory::new()
    }
}

#[derive(Clone, Copy, Debug, PartialEq, Eq, Structural)]
pub struct Position {
    pub chunk: ChunkId,
}

/// When present, the pawn is trying to reach this chunk.
#[derive(Clone, Copy, Debug, PartialEq, Eq, Structural)]
pub struct MovementTarget(pub ChunkId);

#[derive(Clone, Copy, Debug, PartialEq, Eq, Structural)]
pub struct FoodReservation {
    pub portions: u32,
}

/// Water source (well, pond). One portion satisfies thirst.
#[derive(Clone, Copy, Debug, PartialEq, Eq, Structural)]
pub struct WaterSource {
    pub portions: u32,
}

/// Rest spot (bed, bench). A pawn holding a lease can recover fatigue here.
#[derive(Clone, Copy, Debug, PartialEq, Eq, Structural)]
pub struct RestSpot;

#[derive(Clone, Copy, Debug, PartialEq, Eq, Structural)]
pub struct ActiveLeaseHandle(pub LeaseHandle);

#[derive(Clone, Copy, Debug, PartialEq, Eq, Structural)]
pub enum QuestStatus {
    Open,
    InProgress { provider: EntityId },
    Completed,
}

#[derive(Clone, Debug)]
pub struct Quest {
    pub need: String,
    pub requester: EntityId,
    pub chunk: ChunkId,
    pub provider: Option<EntityId>,
    pub status: QuestStatus,
}

impl Quest {
    /// An open quest with no provider yet.
    pub fn new(need: &str, requester: EntityId, chunk: ChunkId) -> (q: Quest)
        ensures
            q.need@ == need@,
            q.requester == requester,
            q.chunk == chunk,
            q.provider is None,
            q.status == QuestStatus::Open,
    {
        Quest { need: String::from_str(need), requester, chunk, provider: None, status: QuestStatus::Open }
    }
}

/// The emergent quest board: every posted need, in posting order.
#[derive(Debug)]
pub struct QuestBoard {
    pub active_quests: Vec<Quest>,
}

impl QuestBoard {
    pub fn new() -> (b: QuestBoard)
        ensures
            b.active_quests@.len() == 0,
    {
        QuestBoard { active_quests: Vec::new() }
    }
}

impl Default for QuestBoard {
    fn default() -> (b: QuestBoard)
        ensures
            b.active_quests@.len() == 0,
    {
        QuestBoard::new()
    }
}

/// What this pawn can do (fulfil).
#[derive(Clone, Debug)]
pub struct Capabilities {
    pub can_do: Vec<String>,
}

/// Whether a list of capability names holds `c`.
pub open spec fn has_capability(can_do: Seq<String>, c: Seq<char>) -> bool {
    exists|i: int| 0 <= i < can_do.len() && #[trigger] can_do[i]@ == c
}

impl Capabilities {
    pub fn has(&self, capability: &str) -> (r: bool)
        ensures
            r == has_capability(self.can_do@, capability@),
    {
        let wanted = String::from_str(capability);
        let mut i: usize = 0;
        while i < self.can_do.len()
            invariant
                wanted@ == capability@,
                i <= self.can_do.len(),
                forall|j: int| 0 <= j < i ==> #[trigger] self.can_do@[j]@ != capability@,
            decreases self.can_do.len() - i,
        {
            if self.can_do[i] == wanted {
                return true;
            }
            i += 1;
        }
        false
    }
}

/// Whether simulation systems print per-event lines.
/// A recipe a pawn can know, by number.
#[derive(Clone, Copy, Debug, PartialEq, Eq, Hash, Structural)]
pub struct RecipeId(pub u64);

/// `known` after learning `recipe`: unchanged when it was already known, else with
/// `recipe` added at the end.
pub open spec fn learn_recipe(known: Seq<RecipeId>, recipe: RecipeId) -> Seq<RecipeId> {
    if known.contains(recipe) {
        known
    } else {
        known.push(recipe)
    }
}

/// The recipes a pawn knows, in the order it learned them.
#[derive(Clone, Debug)]
pub struct KnownRecipes {
    pub recipes: Vec<RecipeId>,
}

impl View for KnownRecipes {
    type V = Seq<RecipeId>;

    open spec fn view(&self) -> Seq<RecipeId> {
        self.recipes@
    }
}

impl KnownRecipes {
    /// No recipe known.
    pub fn new() -> (k: KnownRecipes)
        ensures
            k@ == Seq::<RecipeId>::empty(),
    {
        KnownRecipes { recipes: Vec::new() }
    }

    /// Whether `recipe` is known.
    pub fn contains(&self, recipe: RecipeId) -> (r: bool)
        ensures
            r == self@.contains(recipe),
    {
        let mut i: usize = 0;
        while i < self.recipes.len()
            invariant
                i <= self@.len(),
                forall|k: int| 0 <= k < i ==> self@[k] != recipe,
            decreases self.recipes.len() - i,
        {
            if self.recipes[i] == recipe {
                return true;
            }
            i += 1;
        }
        false
    }

    /// Learns `recipe`; returns whether it was new.
    pub fn insert(&mut self, recipe: RecipeId) -> (fresh: bool)
        ensures
            fresh == !old(self)@.contains(recipe),
            final(self)@ == learn_recipe(old(self)@, recipe),
    {
        if self.contains(recipe) {
            false
        } else {
            self.recipes.push(recipe);
            true
        }
    }
}

impl Default for KnownRecipes {
    fn default() -> (k: KnownRecipes)
        ensures
            k@ == Seq::<RecipeId>::empty(),
    {
        KnownRecipes::new()
    }
}

#[derive(Clone, Copy, Debug, PartialEq, Eq, Structural)]
pub struct SimulationLogSettings {
    pub stdout_enabled: bool,
}

impl Default for SimulationLogSettings {
    fn default() -> (s: SimulationLogSettings)
        ensures
            s.stdout_enabled,
    {
        SimulationLogSettings { stdout_enabled: true }
    }
}

/// How many notable events a report keeps.
pub const MAX_NOTABLE_EVENTS: usize = 24;

/// Aggregated telemetry for headless runs.
#[derive(Debug)]
pub struct SimulationReport {
    pub initial_pawn_count: usize,
    pub counters: PathTable<u64>,
    pub notable_events: Vec<String>,
}

impl SimulationReport {
    pub fn new() -> (r: SimulationReport)
        ensures
            r.initial_pawn_count == 0,
            r.counters.wf(),
            r.counters.map() == Map::<Seq<char>, u64>::empty(),
            r.notable_events@.len() == 0,
    {
        SimulationReport { initial_pawn_count: 0, counters: PathTable::new(), notable_events: Vec::new() }
    }

    pub fn set_initial_pawn_count(&mut self, count: usize)
        ensures
            final(self).initial_pawn_count == count,
            final(self).counters == old(self).counters,
            final(self).notable_events == old(self).notable_events,
    {
        self.initial_pawn_count = count;
    }

    /// Adds one to the counter `key`, starting it at 1 when absent.
    pub fn bump(&mut self, key: &str)
        requires
            old(self).counters.wf(),
            old(self).counters.map().contains_key(key@) ==> old(self).counters.map()[key@] < u64::MAX,
        ensures
            final(self).counters.wf(),
            final(self).counters.map() == old(self).counters.map().insert(
                key@,
                if old(self).counters.map().contains_key(key@) {
                    (old(self).counters.map()[key@] + 1) as u64
                } else {
                    1
                },
            ),
            final(self).initial_pawn_count == old(self).initial_pawn_count,
            final(self).notable_events == old(self).notable_events,
    {
        let k = String::from_str(key);
        let next: u64 = match self.counters.get(&k) {
            Some(v) => *v + 1,
            None => 1,
        };
        self.counters.insert(k, next);
    }

    /// Adds `amount` to the counter `key`, starting it at `amount` when absent.
    pub fn add_counter(&mut self, key: &str, amount: u64)
        requires
            old(self).counters.wf(),
            old(self).counters.map().contains_key(key@) ==> old(self).counters.map()[key@] + amount
                <= u64::MAX,
        ensures
            final(self).counters.wf(),
            final(self).counters.map() == old(self).counters.map().insert(
                key@,
                if old(self).counters.map().contains_key(key@) {
                    (old(self).counters.map()[key@] + amount) as u64
                } else {
                    amount
                },
            ),
            final(self).initial_pawn_count == old(self).initial_pawn_count,
            final(self).notable_events == old(self).notable_events,
    {
        let k = String::from_str(key);
        let next: u64 = match self.counters.get(&k) {
            Some(v) => *v + amount,
            None => amount,
        };
        self.counters.insert(k, next);
    }

    /// Keeps `message` if fewer than `MAX_NOTABLE_EVENTS` are kept already.
    pub fn note(&mut self, message: String)
        ensures
            old(self).notable_events@.len() < MAX_NOTABLE_EVENTS ==> final(self).notable_events@
                == old(self).notable_events@.push(message),
            old(self).notable_events@.len() >= MAX_NOTABLE_EVENTS ==> final(self).notable_events@
                == old(self).notable_events@,
            final(self).initial_pawn_count == old(self).initial_pawn_count,
            final(self).counters == old(self).counters,
    {
        if self.notable_events.len() < MAX_NOTABLE_EVENTS {
            self.notable_events.push(message);
        }
    }
}

impl Default for SimulationReport {
    fn default() -> (r: SimulationReport)
        ensures
            r.initial_pawn_count == 0,
            r.counters.wf(),
            r.counters.map() == Map::<Seq<char>, u64>::empty(),
            r.notable_events@.len() == 0,
    {
        SimulationReport::new()
    }
}

} // verus!
