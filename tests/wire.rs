use das_overlay::messages::{Content, Request, Response};
use das_overlay::wire::{decode_request, decode_response, encode_request, encode_response};

fn id(first: u8) -> [u8; 32] {
    let mut a = [0u8; 32];
    a[0] = first;
    a
}

#[test]
fn ping_wire_form() {
    let ping = Request::Ping { enr_seq: 0x0102, data_radius: [0xffu8; 32] };
    let bytes = encode_request(&ping);
    assert_eq!(bytes.len(), 41);
    assert_eq!(&bytes[..3], &[0, 0x02, 0x01]);
    assert_eq!(decode_request(&bytes), Some(ping));
}

#[test]
fn find_nodes_wire_form() {
    let req = Request::FindNodes { distances: vec![256, 1] };
    let bytes = encode_request(&req);
    assert_eq!(bytes, vec![2, 0, 1, 1, 0]);
    assert_eq!(decode_request(&bytes), Some(req));
    assert_eq!(decode_request(&[2, 0]), None);
}

#[test]
fn find_content_wire_form() {
    let req = Request::FindContent { content_key: vec![0, 9, 9] };
    let bytes = encode_request(&req);
    assert_eq!(bytes, vec![4, 0, 9, 9]);
    assert_eq!(decode_request(&bytes), Some(req));
}

#[test]
fn malformed_requests_are_refused() {
    assert_eq!(decode_request(&[]), None);
    assert_eq!(decode_request(&[0, 1, 2]), None);
    assert_eq!(decode_request(&[9]), None);
}

#[test]
fn responses_round_trip() {
    let all = vec![
        Response::Pong { enr_seq: 7, data_radius: id(3) },
        Response::Nodes { nodes: vec![id(1), id(2)] },
        Response::Nodes { nodes: vec![] },
        Response::Content(Content::ConnectionId(0xbeef)),
        Response::Content(Content::Payload(vec![1, 2, 3])),
        Response::Content(Content::Peers(vec![id(5)])),
    ];
    for r in all {
        assert_eq!(decode_response(&encode_response(&r)), Some(r));
    }
}

#[test]
fn content_wire_forms() {
    assert_eq!(encode_response(&Response::Content(Content::ConnectionId(0x0102))), vec![5, 0, 2, 1]);
    assert_eq!(encode_response(&Response::Content(Content::Payload(vec![8]))), vec![5, 1, 8]);
    assert_eq!(decode_response(&[5, 0, 1]), None);
    assert_eq!(decode_response(&[5, 2, 1]), None);
    assert_eq!(decode_response(&[5, 3]), None);
    assert_eq!(decode_response(&[3, 1]), None);
}
