use das_overlay::node::{
    run_nodes, start_lookup, DASNode, PeerSeeding, NUMBER_OF_NODES, PEERS_PER_NODE, QUERY_PARALLELISM,
    QUERY_TIMEOUT_MS,
};

#[test]
fn nodes_get_both_subnetworks() {
    let ids: Vec<[u8; 32]> = (0..NUMBER_OF_NODES as u8).map(|i| [i; 32]).collect();
    let nodes: Vec<DASNode<u32>> = run_nodes(&ids);
    assert_eq!(nodes.len(), NUMBER_OF_NODES);
    for (i, node) in nodes.iter().enumerate() {
        assert_eq!(node.node_id, [i as u8; 32]);
        assert_eq!(node.overlays.find(b"DAS"), Some(0));
        assert_eq!(node.overlays.find(b"SECURE_DAS"), Some(1));
        assert_eq!(node.handled_ids, 0);
    }
}

#[test]
fn seeding_picks_distinct_other_nodes() {
    let mut seeding = PeerSeeding::new(2, NUMBER_OF_NODES, PEERS_PER_NODE);
    assert!(!seeding.accepts(2));
    assert!(!seeding.accepts(NUMBER_OF_NODES));
    assert!(seeding.accepts(4));
    seeding.record(4, true);
    assert!(!seeding.accepts(4));
    seeding.record(5, false);
    assert!(seeding.accepts(5));
    seeding.record(5, true);
    seeding.record(7, true);
    assert!(seeding.is_done());
    assert_eq!(seeding.used, vec![4, 5, 7]);
}

#[test]
fn seeding_draws_in_range() {
    let seeding = PeerSeeding::new(0, 3, 1);
    for _ in 0..100 {
        assert!(seeding.draw_candidate() < 3);
    }
}

#[test]
fn new_node_starts_empty() {
    let node: DASNode<u32> = DASNode::new([3u8; 32], 1);
    assert_eq!(node.samples, [0u8; 8]);
    for session in node.overlays.sessions.iter() {
        assert_eq!(session.store.radius(), [0xffu8; 32]);
        assert_eq!(session.next_connection_id, 0);
        assert!(session.uploads.is_empty());
        assert_eq!(session.requests.next_id, 0);
    }
}

#[test]
fn lookups_end_after_the_query_timeout() {
    let l = start_lookup([1u8; 32], [0u8; 32], &vec![[2u8; 32]], 500);
    assert_eq!(l.deadline, 500 + QUERY_TIMEOUT_MS);
    assert_eq!(l.parallelism, QUERY_PARALLELISM);
    assert!(!l.is_finished(500 + QUERY_TIMEOUT_MS - 1));
    assert!(l.is_finished(500 + QUERY_TIMEOUT_MS));
}
