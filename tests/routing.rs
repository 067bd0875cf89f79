use das_overlay::routing::{InsertOutcome, RoutingTable};

fn id(first: u8, last: u8) -> [u8; 32] {
    let mut a = [0u8; 32];
    a[0] = first;
    a[31] = last;
    a
}

#[test]
fn insert_reports_what_it_did() {
    let mut table = RoutingTable::new(id(0, 0), 2, 3);
    assert_eq!(table.insert(id(0, 0)), InsertOutcome::LocalNode);
    assert_eq!(table.insert(id(1, 0)), InsertOutcome::Inserted);
    assert_eq!(table.insert(id(1, 0)), InsertOutcome::AlreadyPresent);
    assert_eq!(table.insert(id(2, 0)), InsertOutcome::Inserted);
    assert_eq!(table.insert(id(3, 0)), InsertOutcome::TableFull);
    assert_eq!(table.len(), 2);
}

#[test]
fn repeated_failures_drop_a_peer() {
    let mut table = RoutingTable::new(id(0, 0), 8, 3);
    table.insert(id(1, 0));
    assert!(!table.record_failure(&id(1, 0)));
    assert!(!table.record_failure(&id(1, 0)));
    assert!(table.record_failure(&id(1, 0)));
    assert!(!table.contains(&id(1, 0)));
    assert!(!table.record_failure(&id(1, 0)));
}

#[test]
fn success_resets_the_failure_count() {
    let mut table = RoutingTable::new(id(0, 0), 8, 2);
    table.insert(id(1, 0));
    assert!(!table.record_failure(&id(1, 0)));
    table.record_success(&id(1, 0));
    assert!(!table.record_failure(&id(1, 0)));
    assert!(table.contains(&id(1, 0)));
    assert!(table.record_failure(&id(1, 0)));
}

#[test]
fn closest_lists_nearest_first() {
    let mut table = RoutingTable::new(id(0, 0), 8, 3);
    for first in [0x40u8, 0x01, 0x80, 0x10] {
        table.insert(id(first, 0));
    }
    let target = id(0x11, 0);
    assert_eq!(table.closest(&target, 3), vec![id(0x10, 0), id(0x01, 0), id(0x40, 0)]);
    assert_eq!(table.closest(&target, 10).len(), 4);
    assert!(table.closest(&target, 0).is_empty());
}

#[test]
fn nodes_at_distances_filters_by_log_distance() {
    let mut table = RoutingTable::new(id(0, 0), 8, 3);
    table.insert(id(0, 1));
    table.insert(id(0, 3));
    table.insert(id(0x80, 0));
    table.insert(id(0, 2));
    assert_eq!(table.nodes_at_distances(&[2], 10), vec![id(0, 3), id(0, 2)]);
    assert_eq!(table.nodes_at_distances(&[2], 1), vec![id(0, 3)]);
    assert_eq!(table.nodes_at_distances(&[256, 1], 10), vec![id(0, 1), id(0x80, 0)]);
    assert!(table.nodes_at_distances(&[3], 10).is_empty());
}

#[test]
fn insert_all_and_failures_in_turn() {
    let mut table = RoutingTable::new(id(0, 0), 8, 1);
    table.insert_all(&vec![id(1, 0), id(0, 0), id(2, 0), id(1, 0)]);
    assert_eq!(table.peer_ids(), vec![id(1, 0), id(2, 0)]);
    table.record_failures(&vec![id(1, 0)]);
    assert_eq!(table.peer_ids(), vec![id(2, 0)]);
}
