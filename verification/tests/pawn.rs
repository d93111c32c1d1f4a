use simrard::entity::EntityId;
use simrard::lease::ChunkId;
use simrard::pawn::{Capabilities, ItemHistory, ItemIdAllocator, Quest, QuestStatus, SimulationReport};
use simrard::time::{CausalClock, GlobalTickClock};

#[test]
fn allocator_hands_out_increasing_ids() {
    let mut a = ItemIdAllocator::default();
    assert_eq!(a.allocate().0, 0);
    assert_eq!(a.allocate().0, 1);
    assert_eq!(a.allocate().0, 2);
}

#[test]
fn history_records_in_order() {
    let mut h = ItemHistory::default();
    h.record(EntityId(1), "ate", 5);
    h.record(EntityId(2), "drank", 6);
    assert_eq!(h.entries, vec![(EntityId(1), "ate".to_string(), 5), (EntityId(2), "drank".to_string(), 6)]);
}

#[test]
fn capabilities_lookup() {
    let caps = Capabilities { can_do: vec!["Eat".to_string(), "Rest".to_string()] };
    assert!(caps.has("Eat"));
    assert!(caps.has("Rest"));
    assert!(!caps.has("Drink"));
    assert!(!caps.has("eat"));
}

#[test]
fn new_quest_is_open_without_provider() {
    let q = Quest::new("food", EntityId(3), ChunkId(1, 2));
    assert_eq!(q.need, "food");
    assert_eq!(q.provider, None);
    assert_eq!(q.status, QuestStatus::Open);
}

#[test]
fn report_counts_and_caps_notes() {
    let mut r = SimulationReport::default();
    r.set_initial_pawn_count(8);
    r.bump("pawn_deaths");
    r.bump("pawn_deaths");
    r.bump("eat_action_completed");
    assert_eq!(r.counters.get(&"pawn_deaths".to_string()), Some(&2));
    assert_eq!(r.counters.get(&"eat_action_completed".to_string()), Some(&1));
    assert_eq!(r.counters.len(), 2);
    for i in 0..30 {
        r.note(format!("event {}", i));
    }
    assert_eq!(r.notable_events.len(), 24);
    assert_eq!(r.notable_events[23], "event 23");
    assert_eq!(r.initial_pawn_count, 8);
}

#[test]
fn tick_clock_counts_and_reads_wall_time() {
    let mut clock = GlobalTickClock::default();
    clock.increment();
    clock.increment();
    assert_eq!(clock.causal_seq(), 2);
    // Any real machine clock reads well after 2020-01-01.
    assert!(clock.wall_epoch().expect("time went backwards") > 1_577_836_800);
}

#[test]
fn counters_accumulate_amounts() {
    let mut report = SimulationReport::new();
    report.add_counter("lease_us", 40);
    report.add_counter("lease_us", 2);
    report.bump("lease_us");
    assert_eq!(report.counters.get(&"lease_us".to_string()), Some(&43));
    report.add_counter("idle", 0);
    assert_eq!(report.counters.get(&"idle".to_string()), Some(&0));
    assert_eq!(report.counters.len(), 2);
}
