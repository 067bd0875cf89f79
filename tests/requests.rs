use das_overlay::messages::Request;
use das_overlay::requests::{RequestState, RequestTable};

fn ping() -> Request {
    Request::Ping { enr_seq: 1, data_radius: [0xffu8; 32] }
}

#[test]
fn ids_are_handed_out_in_order() {
    let mut table: RequestTable<u8> = RequestTable::new();
    assert_eq!(table.register([1u8; 32], ping(), None, 0, 10), Some(0));
    assert_eq!(table.register([2u8; 32], ping(), Some(7), 0, 10), Some(1));
    assert_eq!(table.len(), 2);
    assert!(table.contains(1));
}

#[test]
fn resolve_happens_once() {
    let mut table: RequestTable<u8> = RequestTable::new();
    let id = table.register([1u8; 32], ping(), Some(9), 5, 10).unwrap();
    let first = table.resolve(id).unwrap();
    assert_eq!(first.id, id);
    assert_eq!(first.responder, Some(9));
    assert_eq!(first.deadline, 15);
    assert!(table.resolve(id).is_none());
    assert!(!table.contains(id));
}

#[test]
fn resolve_of_unknown_id_changes_nothing() {
    let mut table: RequestTable<u8> = RequestTable::new();
    table.register([1u8; 32], ping(), None, 0, 10).unwrap();
    assert!(table.resolve(42).is_none());
    assert_eq!(table.len(), 1);
}

#[test]
fn sweep_resolves_only_due_queries() {
    let mut table: RequestTable<u8> = RequestTable::new();
    let early = table.register([1u8; 32], ping(), None, 0, 100).unwrap();
    let late = table.register([2u8; 32], ping(), None, 50, 100).unwrap();
    assert!(table.sweep_expired(99).is_empty());
    let expired = table.sweep_expired(100);
    assert_eq!(expired.len(), 1);
    assert_eq!(expired[0].id, early);
    assert!(table.contains(late));
    assert!(!table.contains(early));
    let expired = table.sweep_expired(150);
    assert_eq!(expired.len(), 1);
    assert_eq!(expired[0].id, late);
    assert_eq!(table.len(), 0);
}

#[test]
fn deadline_saturates() {
    let mut table: RequestTable<u8> = RequestTable::new();
    let id = table.register([1u8; 32], ping(), None, u64::MAX - 1, 10).unwrap();
    assert!(table.sweep_expired(u64::MAX - 1).is_empty());
    let expired = table.sweep_expired(u64::MAX);
    assert_eq!(expired[0].id, id);
    assert_eq!(expired[0].deadline, u64::MAX);
}

#[test]
fn retry_moves_the_deadline_and_counts_attempts() {
    let mut table: RequestTable<u8> = RequestTable::new();
    let id = table.register([1u8; 32], ping(), None, 0, 10).unwrap();
    assert!(table.retry(id, 8, 10));
    assert!(!table.retry(id + 1, 8, 10));
    assert!(table.sweep_expired(10).is_empty());
    let expired = table.sweep_expired(18);
    assert_eq!(expired[0].attempts, 2);
    assert_eq!(expired[0].issued_at, 8);
    assert_eq!(expired[0].state, RequestState::AwaitingResponse);
}

#[test]
fn restore_puts_an_entry_back() {
    let mut table: RequestTable<u8> = RequestTable::new();
    let id = table.register([1u8; 32], ping(), None, 0, 10).unwrap();
    let mut e = table.resolve(id).unwrap();
    e.state = RequestState::AwaitingTransfer(3);
    table.restore(e);
    assert_eq!(table.state_of(id), Some(RequestState::AwaitingTransfer(3)));
    assert_eq!(table.state_of(id + 1), None);
}
