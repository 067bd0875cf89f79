use das_overlay::content_key::DASContentKey;
use das_overlay::distance::max_distance;
use das_overlay::messages::{Content, Request, RequestError, Response};
use das_overlay::node::{create_das_overlay, create_secure_das_overlay, das_protocol_tag, secure_das_protocol_tag};
use das_overlay::registry::{tags_equal, DispatchError, Registry};
use das_overlay::session::Resolution;

fn id(first: u8) -> [u8; 32] {
    let mut a = [0u8; 32];
    a[0] = first;
    a
}

fn two_subnetworks() -> Registry<u32> {
    let mut r: Registry<u32> = Registry::new();
    r.register(create_das_overlay(id(1), 1)).unwrap();
    r.register(create_secure_das_overlay(id(1), 1)).unwrap();
    r
}

#[test]
fn duplicate_tag_is_refused() {
    let mut r = two_subnetworks();
    assert_eq!(r.register(create_das_overlay(id(1), 1)), Err(DispatchError::DuplicateProtocol));
    assert_eq!(r.len(), 2);
}

#[test]
fn find_locates_sessions_by_tag() {
    let r = two_subnetworks();
    assert_eq!(r.find(b"DAS"), Some(0));
    assert_eq!(r.find(b"SECURE_DAS"), Some(1));
    assert_eq!(r.find(b"DA"), None);
}

#[test]
fn tags_compare_bytewise() {
    assert!(tags_equal(b"DAS", &das_protocol_tag()));
    assert!(tags_equal(b"SECURE_DAS", &secure_das_protocol_tag()));
    assert!(!tags_equal(b"DAS", b"DAT"));
}

#[test]
fn dispatch_reaches_only_the_tagged_session() {
    let mut r = two_subnetworks();
    let answer = r.dispatch_request(b"SECURE_DAS", id(9), &Request::Ping { enr_seq: 2, data_radius: max_distance() });
    assert_eq!(answer, Ok(Response::Pong { enr_seq: 1, data_radius: max_distance() }));
    assert!(r.sessions[1].routing.contains(&id(9)));
    assert!(!r.sessions[0].routing.contains(&id(9)));
}

#[test]
fn dispatch_of_content_requests_uses_the_tagged_store() {
    let mut r = two_subnetworks();
    let key = DASContentKey::Sample([7u8; 32]);
    r.sessions[0].store.put(key.content_id(), vec![4, 2]).unwrap();
    let request = Request::FindContent { content_key: key.encode() };
    assert_eq!(
        r.dispatch_request(b"DAS", id(9), &request),
        Ok(Response::Content(Content::Payload(vec![4, 2])))
    );
    assert_eq!(
        r.dispatch_request(b"SECURE_DAS", id(9), &request),
        Ok(Response::Content(Content::Peers(vec![])))
    );
    assert!(r.sessions[1].routing.contains(&id(9)));
    assert!(!r.sessions[1].store.contains(&key.content_id()));
}

#[test]
fn unknown_tag_is_undeliverable() {
    let mut r = two_subnetworks();
    let answer = r.dispatch_request(b"UNKNOWN_NET", id(9), &Request::Ping { enr_seq: 2, data_radius: max_distance() });
    assert_eq!(answer, Err(DispatchError::UnknownProtocol));
    assert_eq!(r.sessions[0].routing.len(), 0);
    assert_eq!(r.sessions[1].routing.len(), 0);
    assert!(matches!(
        r.dispatch_response(b"UNKNOWN_NET", 0, Err(RequestError::Timeout), 0),
        Err(DispatchError::UnknownProtocol)
    ));
}

#[test]
fn responses_reach_the_session_that_asked() {
    let mut r = two_subnetworks();
    let (rid, _) = r.sessions[1].start_ping(id(5), 0, Some(8)).unwrap();
    match r.dispatch_response(b"DAS", rid, Err(RequestError::Timeout), 1) {
        Ok(Resolution::Unknown) => {},
        _ => panic!("the DAS session has no such query"),
    }
    match r.dispatch_response(b"SECURE_DAS", rid, Err(RequestError::NoRoute), 1) {
        Ok(Resolution::Failed { responder, error, .. }) => {
            assert_eq!(responder, Some(8));
            assert_eq!(error, RequestError::NoRoute);
        },
        _ => panic!("the query should fail"),
    }
}
