use das_overlay::lookup::{CandidateState, Lookup};

fn id(first: u8) -> [u8; 32] {
    let mut a = [0u8; 32];
    a[0] = first;
    a
}

fn ids(l: &Lookup) -> Vec<[u8; 32]> {
    l.candidates.iter().map(|c| c.id).collect()
}

#[test]
fn candidates_are_kept_nearest_first_and_bounded() {
    let l = Lookup::new(id(0x10), id(0), 3, 2, 100, &vec![id(0x80), id(0x11), id(0x40), id(0x18), id(0)]);
    assert_eq!(ids(&l), vec![id(0x11), id(0x18), id(0x40)]);
}

#[test]
fn queries_respect_parallelism() {
    let mut l = Lookup::new(id(0x10), id(0), 4, 2, 100, &vec![id(0x80), id(0x11), id(0x40)]);
    assert_eq!(l.next_queries(), vec![id(0x11), id(0x40)]);
    assert_eq!(l.waiting(), 2);
    assert!(l.next_queries().is_empty());
    l.on_failure(&id(0x40));
    assert_eq!(l.next_queries(), vec![id(0x80)]);
}

#[test]
fn answers_bring_nearer_candidates() {
    let mut l = Lookup::new(id(0x10), id(0), 3, 3, 100, &vec![id(0x80)]);
    assert_eq!(l.next_queries(), vec![id(0x80)]);
    l.on_response(&id(0x80), &vec![id(0x12), id(0x30)]);
    assert_eq!(ids(&l), vec![id(0x12), id(0x30), id(0x80)]);
    assert_eq!(l.candidates[2].state, CandidateState::Succeeded);
    assert!(!l.is_finished(50));
    assert_eq!(l.next_queries(), vec![id(0x12), id(0x30)]);
    l.on_response(&id(0x12), &vec![]);
    l.on_response(&id(0x30), &vec![id(0xf0)]);
    assert_eq!(ids(&l), vec![id(0x12), id(0x30), id(0x80)]);
    assert!(l.is_finished(50));
    assert_eq!(l.result(), vec![id(0x12), id(0x30), id(0x80)]);
}

#[test]
fn lookup_ends_at_its_deadline() {
    let mut l = Lookup::new(id(0x10), id(0), 3, 1, 100, &vec![id(0x80), id(0x20)]);
    l.next_queries();
    assert!(!l.is_finished(99));
    assert!(l.is_finished(100));
}

#[test]
fn lookup_ends_when_enough_peers_answered() {
    let mut l = Lookup::new(id(0x10), id(0), 1, 1, 100, &vec![id(0x11)]);
    l.next_queries();
    l.on_response(&id(0x11), &vec![]);
    assert!(l.is_finished(0));
    assert_eq!(l.result(), vec![id(0x11)]);
}

#[test]
fn lookup_ends_after_a_round_without_progress() {
    let mut l = Lookup::new(id(0x10), id(0), 8, 1, 100, &vec![id(0x11), id(0x40), id(0x80)]);
    assert_eq!(l.next_queries(), vec![id(0x11)]);
    assert_eq!(l.round_best, Some(id(0x11)));
    l.on_response(&id(0x11), &vec![id(0x90)]);
    assert!(l.stalled);
    assert_eq!(l.round_best, None);
    assert!(l.is_finished(0));
}

#[test]
fn a_round_with_progress_keeps_the_lookup_going() {
    let mut l = Lookup::new(id(0x10), id(0), 8, 2, 100, &vec![id(0x40), id(0x80)]);
    assert_eq!(l.next_queries(), vec![id(0x40), id(0x80)]);
    l.on_response(&id(0x40), &vec![id(0x12)]);
    assert_eq!(l.round_best, Some(id(0x40)));
    l.on_failure(&id(0x80));
    assert!(!l.stalled);
    assert_eq!(l.round_best, None);
    assert!(!l.is_finished(0));
}
