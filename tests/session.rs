use das_overlay::content_key::{DASContentKey, DecodeError};
use das_overlay::distance::max_distance;
use das_overlay::messages::{Content, Request, RequestError, Response};
use das_overlay::node::{create_das_overlay, MAX_INLINE_PAYLOAD, QUERY_PEER_TIMEOUT_MS};
use das_overlay::session::{OverlaySession, ProcessError, Resolution, Subnetwork};

fn id(first: u8) -> [u8; 32] {
    let mut a = [0u8; 32];
    a[0] = first;
    a
}

fn sample_key() -> DASContentKey {
    DASContentKey::Sample([7u8; 32])
}

#[test]
fn ping_is_answered_with_record_and_radius() {
    let mut y: OverlaySession<u32> = create_das_overlay(id(2), 5);
    let answer = y.handle_request(id(1), &Request::Ping { enr_seq: 1, data_radius: max_distance() });
    assert_eq!(answer, Ok(Response::Pong { enr_seq: 5, data_radius: max_distance() }));
    assert!(y.routing.contains(&id(1)));
}

#[test]
fn find_nodes_lists_self_and_peers_at_distance() {
    let mut y: OverlaySession<u32> = create_das_overlay(id(0), 1);
    y.routing.insert(id(0x80));
    y.routing.insert(id(0x01));
    let answer = y.handle_request(id(0x40), &Request::FindNodes { distances: vec![0, 256] });
    assert_eq!(answer, Ok(Response::Nodes { nodes: vec![id(0), id(0x80)] }));
    let answer = y.handle_request(id(0x40), &Request::FindNodes { distances: vec![255] });
    assert_eq!(answer, Ok(Response::Nodes { nodes: vec![id(0x40)] }));
}

#[test]
fn find_content_with_bad_key_is_a_decode_error() {
    let mut y: OverlaySession<u32> = create_das_overlay(id(2), 1);
    let answer = y.handle_request(id(1), &Request::FindContent { content_key: vec![3, 1, 2] });
    assert_eq!(answer, Err(ProcessError::Decode(DecodeError::UnionSelectorInvalid(3))));
    assert!(!y.routing.contains(&id(1)));
    assert_eq!(y.routing.len(), 0);
}

#[test]
fn find_content_not_held_lists_nearer_peers() {
    let mut y: OverlaySession<u32> = create_das_overlay(id(2), 1);
    y.routing.insert(id(0x09));
    y.routing.insert(id(0x70));
    let answer = y.handle_request(id(1), &Request::FindContent { content_key: sample_key().encode() });
    assert_eq!(answer, Ok(Response::Content(Content::Peers(vec![id(0x09), id(0x70)]))));
}

#[test]
fn small_content_comes_back_inline() {
    let mut x: OverlaySession<u32> = create_das_overlay(id(1), 1);
    let mut y: OverlaySession<u32> = create_das_overlay(id(2), 1);
    y.store.put(sample_key().content_id(), vec![1, 2, 3]).unwrap();

    let (rid, request) = x.start_find_content(id(2), sample_key().encode(), 100, Some(77)).unwrap();
    let answer = y.handle_request(id(1), &request).unwrap();
    assert_eq!(answer, Response::Content(Content::Payload(vec![1, 2, 3])));
    match x.handle_response(rid, Ok(answer), 110) {
        Resolution::Answered { id: got, responder, response } => {
            assert_eq!(got, rid);
            assert_eq!(responder, Some(77));
            assert_eq!(response, Response::Content(Content::Payload(vec![1, 2, 3])));
        },
        _ => panic!("the query should be answered"),
    }
    assert!(!x.requests.contains(rid));
    assert_eq!(x.store.get(&sample_key().content_id()), Some(vec![1, 2, 3]));
}

#[test]
fn large_content_comes_over_a_stream() {
    let mut x: OverlaySession<u32> = create_das_overlay(id(1), 1);
    let mut y: OverlaySession<u32> = create_das_overlay(id(2), 1);
    let payload = vec![5u8; MAX_INLINE_PAYLOAD + 1];
    y.store.put(sample_key().content_id(), payload.clone()).unwrap();

    let (rid, request) = x.start_find_content(id(2), sample_key().encode(), 100, Some(1)).unwrap();
    let answer = y.handle_request(id(1), &request).unwrap();
    assert_eq!(answer, Response::Content(Content::ConnectionId(0)));
    match x.handle_response(rid, Ok(answer), 110) {
        Resolution::OpenStream { id: got, peer, connection_id } => {
            assert_eq!(got, rid);
            assert_eq!(peer, id(2));
            assert_eq!(connection_id, 0);
        },
        _ => panic!("the stream should be opened"),
    }
    assert!(x.requests.contains(rid));

    let streamed = y.take_upload(0).unwrap();
    assert_eq!(y.take_upload(0), None);
    match x.complete_transfer(rid, Ok(streamed)) {
        Resolution::Answered { responder, response, .. } => {
            assert_eq!(responder, Some(1));
            assert_eq!(response, Response::Content(Content::Payload(payload.clone())));
        },
        _ => panic!("the query should be answered"),
    }
    assert!(!x.requests.contains(rid));
    assert_eq!(x.store.get(&sample_key().content_id()), Some(payload));
}

#[test]
fn a_second_answer_is_dropped() {
    let mut x: OverlaySession<u32> = create_das_overlay(id(1), 1);
    let (rid, _) = x.start_ping(id(2), 0, Some(3)).unwrap();
    let pong = Response::Pong { enr_seq: 9, data_radius: max_distance() };
    assert!(matches!(x.handle_response(rid, Ok(pong.clone()), 1), Resolution::Answered { .. }));
    assert!(matches!(x.handle_response(rid, Err(RequestError::Timeout), 2), Resolution::Unknown));
    assert!(x.routing.contains(&id(2)));
}

#[test]
fn a_wrong_kind_of_answer_fails_the_query() {
    let mut x: OverlaySession<u32> = create_das_overlay(id(1), 1);
    let (rid, _) = x.start_ping(id(2), 0, None).unwrap();
    match x.handle_response(rid, Ok(Response::Nodes { nodes: vec![] }), 1) {
        Resolution::Failed { error, .. } => assert_eq!(error, RequestError::InvalidResponse),
        _ => panic!("the query should fail"),
    }
}

#[test]
fn nodes_answer_fills_the_routing_table() {
    let mut x: OverlaySession<u32> = create_das_overlay(id(1), 1);
    x.routing.insert(id(2));
    let (rid, request) = x.start_find_nodes(id(2), vec![255, 256], 0, None).unwrap();
    assert_eq!(request, Request::FindNodes { distances: vec![255, 256] });
    let answer = Response::Nodes { nodes: vec![id(3), id(1), id(4)] };
    assert!(matches!(x.handle_response(rid, Ok(answer), 1), Resolution::Answered { .. }));
    assert!(x.routing.contains(&id(2)));
    assert!(x.routing.contains(&id(3)));
    assert!(x.routing.contains(&id(4)));
    assert!(!x.routing.contains(&id(1)));
}

#[test]
fn unanswered_queries_time_out_and_count_against_the_peer() {
    let mut x: OverlaySession<u32> = create_das_overlay(id(1), 1);
    x.routing.insert(id(2));
    let (rid, request) = x.start_ping(id(2), 1000, Some(4)).unwrap();
    assert!(matches!(request, Request::Ping { enr_seq: 1, .. }));
    assert!(x.sweep_expired(1000 + QUERY_PEER_TIMEOUT_MS - 1).is_empty());
    let expired = x.sweep_expired(1000 + QUERY_PEER_TIMEOUT_MS);
    assert_eq!(expired.len(), 1);
    assert_eq!(expired[0].id, rid);
    assert_eq!(expired[0].responder, Some(4));
    assert!(matches!(x.handle_response(rid, Ok(Response::Pong { enr_seq: 1, data_radius: max_distance() }), 1), Resolution::Unknown));
    for t in 0..2u64 {
        x.start_ping(id(2), t, None).unwrap();
    }
    x.sweep_expired(u64::MAX);
    assert!(!x.routing.contains(&id(2)));
}

#[test]
fn failed_transfer_fails_the_query() {
    let mut x: OverlaySession<u32> = create_das_overlay(id(1), 1);
    let (rid, _) = x.start_find_content(id(2), sample_key().encode(), 0, None).unwrap();
    assert!(matches!(x.complete_transfer(rid, Ok(vec![1])), Resolution::Unknown));
    assert!(matches!(
        x.handle_response(rid, Ok(Response::Content(Content::ConnectionId(9))), 1),
        Resolution::OpenStream { connection_id: 9, .. }
    ));
    match x.complete_transfer(rid, Err(RequestError::RemoteRejected)) {
        Resolution::Failed { error, .. } => assert_eq!(error, RequestError::RemoteRejected),
        _ => panic!("the query should fail"),
    }
    assert!(!x.requests.contains(rid));
}

#[test]
fn subnetwork_checks_keys_and_content() {
    let key = sample_key().encode();
    assert_eq!(Subnetwork::Das.check_content(&key, &[1, 2]), Ok([7u8; 32]));
    assert_eq!(
        Subnetwork::SecureDas.check_content(&[0u8; 3], &[]),
        Err(ProcessError::Decode(DecodeError::InvalidByteLength { len: 2, expected: 32 }))
    );
    assert_eq!(Subnetwork::SecureDas.content_id(&key), Ok([7u8; 32]));
}
