use simrard::charter::SpatialCharter;
use simrard::entity::{ComponentId, EntityId};
use simrard::lease::{CharterDenial, ChunkId, LeaseIntent, SpatialLease};
use simrard::watchguard::{charter_watchguard_system, FrameWriteLog};

const TEST_COMPONENT_A: ComponentId = ComponentId(100);
const TEST_COMPONENT_B: ComponentId = ComponentId(101);

fn lease(primary: ChunkId, fringe: Vec<ChunkId>, reads: Vec<ComponentId>, writes: Vec<ComponentId>, seq: u64) -> SpatialLease {
    SpatialLease { primary, fringe, intent: LeaseIntent { reads, writes }, granted_at_causal_seq: seq }
}

#[test]
fn test_charter_non_overlapping_chunks() {
    let mut charter = SpatialCharter::default();
    let req1 = lease(ChunkId(0, 0), vec![], vec![], vec![TEST_COMPONENT_A], 0);
    assert!(charter.request_lease(req1, 1).is_ok());
    let req2 = lease(ChunkId(10, 10), vec![], vec![], vec![TEST_COMPONENT_A], 0);
    assert!(charter.request_lease(req2, 1).is_ok(), "Geometrically distant leases should not conflict");
}

#[test]
fn test_charter_read_read_overlap() {
    let mut charter = SpatialCharter::default();
    let req1 = lease(ChunkId(5, 5), vec![], vec![TEST_COMPONENT_A], vec![], 0);
    assert!(charter.request_lease(req1, 1).is_ok());
    let req2 = lease(ChunkId(5, 5), vec![], vec![TEST_COMPONENT_A], vec![], 0);
    assert!(charter.request_lease(req2, 1).is_ok(), "Two pawns reading the same chunk/component should not conflict");
}

#[test]
fn test_charter_write_write_conflict() {
    let mut charter = SpatialCharter::default();
    let req1 = lease(ChunkId(5, 5), vec![], vec![], vec![TEST_COMPONENT_A], 0);
    assert!(charter.request_lease(req1, 1).is_ok());
    let req2 = lease(ChunkId(5, 5), vec![], vec![], vec![TEST_COMPONENT_A], 0);
    let res = charter.request_lease(req2, 1);
    assert!(res.is_err(), "Write vs Write on the same chunk must conflict");
    if let Err(CharterDenial::ChunkConflict { contested, retry_after_causal_seq, .. }) = res {
        assert_eq!(contested[0], ChunkId(5, 5));
        assert_eq!(retry_after_causal_seq, 6);
    } else {
        panic!("Wrong denial type");
    }
}

#[test]
fn test_exactly_one_pawn_gets_contested_food() {
    let mut charter = SpatialCharter::default();
    let food_chunk = ChunkId(5, 5);
    let causal_seq: u64 = 10;
    let num_pawns = 10;
    let mut granted = 0;
    let mut denied = 0;
    for pawn_id in 0..num_pawns {
        let request = lease(food_chunk, vec![], vec![], vec![TEST_COMPONENT_A], causal_seq);
        match charter.request_lease(request, causal_seq) {
            Ok(_handle) => {
                granted += 1;
                println!("[causal:{}] Pawn_{} - GRANTED lease on {:?}", causal_seq, pawn_id, food_chunk);
            }
            Err(CharterDenial::ChunkConflict { retry_after_causal_seq, .. }) => {
                denied += 1;
                println!("[causal:{}] Pawn_{} - DENIED (ChunkConflict, retry after causal:{})", causal_seq, pawn_id, retry_after_causal_seq);
            }
            Err(_) => denied += 1,
        }
    }
    println!("--- Concurrent: {} granted, {} denied out of {} pawns ---", granted, denied, num_pawns);
    assert_eq!(granted, 1, "Exactly one pawn must acquire the contested food lease");
    assert_eq!(denied, num_pawns - 1, "All remaining pawns must be denied");

    println!("\n=== Serialized Turn-Based Access ===");
    let mut charter2 = SpatialCharter::default();
    let mut serialized_total = 0;
    for pawn_id in 0..num_pawns {
        let request = lease(food_chunk, vec![], vec![], vec![TEST_COMPONENT_A], causal_seq);
        match charter2.request_lease(request, causal_seq) {
            Ok(handle) => {
                serialized_total += 1;
                println!("[serialized] Pawn_{} - GRANTED, eating, releasing", pawn_id);
                charter2.release_lease(handle);
            }
            Err(_) => panic!("Pawn_{} should never be denied in serialized mode because the previous pawn released the slot", pawn_id),
        }
    }
    println!("--- Serialized: all {} pawns took turns ---", serialized_total);
    assert_eq!(serialized_total, num_pawns, "All pawns must thread through in serialized mode");
}

#[test]
fn fringe_conflict_is_reported_on_the_fringe_chunk_first() {
    let mut charter = SpatialCharter::new();
    let holder = charter.request_lease(lease(ChunkId(2, 2), vec![], vec![TEST_COMPONENT_A], vec![], 0), 0).unwrap();
    // Requesting a write over a read on the fringe chunk conflicts there.
    let res = charter.request_lease(lease(ChunkId(3, 3), vec![ChunkId(2, 2)], vec![], vec![TEST_COMPONENT_A], 0), 7);
    match res {
        Err(CharterDenial::ChunkConflict { contested, held_by, retry_after_causal_seq }) => {
            assert_eq!(contested, vec![ChunkId(2, 2)]);
            assert_eq!(held_by, holder);
            assert_eq!(retry_after_causal_seq, 12);
        }
        _ => panic!("expected a chunk conflict"),
    }
    assert_eq!(charter.active_count(), 1);
}

#[test]
fn different_components_do_not_conflict_and_read_blocks_write() {
    let mut charter = SpatialCharter::new();
    assert!(charter.request_lease(lease(ChunkId(1, 1), vec![], vec![], vec![TEST_COMPONENT_A], 0), 0).is_ok());
    assert!(charter.request_lease(lease(ChunkId(1, 1), vec![], vec![], vec![TEST_COMPONENT_B], 0), 0).is_ok());
    // A requested read over an existing write conflicts.
    assert!(charter.request_lease(lease(ChunkId(1, 1), vec![], vec![TEST_COMPONENT_B], vec![], 0), 0).is_err());
}

#[test]
fn handles_are_issued_in_order_and_released_leases_are_gone() {
    let mut charter = SpatialCharter::new();
    let h0 = charter.request_lease(lease(ChunkId(0, 0), vec![], vec![], vec![TEST_COMPONENT_A], 3), 3).unwrap();
    let h1 = charter.request_lease(lease(ChunkId(9, 9), vec![], vec![], vec![TEST_COMPONENT_A], 4), 4).unwrap();
    assert_eq!(h0.id(), 0);
    assert_eq!(h1.id(), 1);
    assert_eq!(charter.get_lease(h0).unwrap().granted_at_causal_seq, 3);
    charter.release_lease(h0);
    assert!(charter.get_lease(h0).is_none());
    assert_eq!(charter.get_lease(h1).unwrap().primary, ChunkId(9, 9));
    // Releasing again changes nothing.
    charter.release_lease(h0);
    assert_eq!(charter.active_count(), 1);
    let h2 = charter.request_lease(lease(ChunkId(0, 0), vec![], vec![], vec![TEST_COMPONENT_A], 5), 5).unwrap();
    assert_eq!(h2.id(), 2);
}

#[test]
fn watchguard_reports_unbacked_writes_and_clears_the_log() {
    let mut log = FrameWriteLog::default();
    let backed = lease(ChunkId(4, 4), vec![ChunkId(4, 5)], vec![], vec![TEST_COMPONENT_A], 0);
    log.log(EntityId(1), ChunkId(4, 5), TEST_COMPONENT_A, Some(backed.clone()));
    log.log(EntityId(2), ChunkId(8, 8), TEST_COMPONENT_A, Some(backed.clone()));
    log.log(EntityId(3), ChunkId(4, 4), TEST_COMPONENT_B, Some(backed));
    log.log(EntityId(4), ChunkId(4, 4), TEST_COMPONENT_A, None);
    let violations = charter_watchguard_system(&mut log);
    let actors: Vec<EntityId> = violations.iter().map(|v| v.actor).collect();
    assert_eq!(actors, vec![EntityId(2), EntityId(3), EntityId(4)]);
    assert!(log.entries.is_empty());
}

#[test]
fn independent_requests_are_granted_in_either_order() {
    // A blocker writes A on (1, 1); the two requests below are independent of each
    // other (different components on the shared chunk (2, 2)).
    let blocker = || lease(ChunkId(1, 1), vec![], vec![], vec![TEST_COMPONENT_A], 0);
    let first = || lease(ChunkId(2, 2), vec![ChunkId(1, 1)], vec![TEST_COMPONENT_B], vec![], 0);
    let second = || lease(ChunkId(2, 2), vec![], vec![], vec![TEST_COMPONENT_A], 0);

    let mut one = SpatialCharter::new();
    one.request_lease(blocker(), 0).unwrap();
    let one_first = one.request_lease(first(), 1).is_ok();
    let one_second = one.request_lease(second(), 1).is_ok();

    let mut two = SpatialCharter::new();
    two.request_lease(blocker(), 0).unwrap();
    let two_second = two.request_lease(second(), 1).is_ok();
    let two_first = two.request_lease(first(), 1).is_ok();

    assert_eq!((one_first, one_second), (two_first, two_second));
    assert_eq!((one_first, one_second), (true, true));
}
