//! Wire form of the overlay messages carried in discovery talk requests and
//! responses: a kind byte, then the kind's fields. Integers are
//! little-endian; identifiers are their 32 bytes.
use vstd::prelude::*;
use vstd::bytes::{
    lemma_auto_spec_u16_to_from_le_bytes, lemma_auto_spec_u64_to_from_le_bytes, spec_u16_from_le_bytes,
    spec_u16_to_le_bytes, spec_u64_from_le_bytes, spec_u64_to_le_bytes, u16_from_le_bytes, u16_to_le_bytes,
    u64_from_le_bytes, u64_to_le_bytes,
};
use vstd::slice::slice_subrange;
use crate::distance::Id256;
use crate::messages::{Content, Request, Response};
use crate::session::array_of;

verus! {

pub const KIND_PING: u8 = 0;
pub const KIND_PONG: u8 = 1;
pub const KIND_FIND_NODES: u8 = 2;
pub const KIND_NODES: u8 = 3;
pub const KIND_FIND_CONTENT: u8 = 4;
pub const KIND_CONTENT: u8 = 5;

pub const CONTENT_CONNECTION_ID: u8 = 0;
pub const CONTENT_PAYLOAD: u8 = 1;
pub const CONTENT_PEERS: u8 = 2;

/// A request as plain values.
pub enum RequestView {
    Ping { enr_seq: u64, data_radius: Seq<u8> },
    FindNodes { distances: Seq<u16> },
    FindContent { content_key: Seq<u8> },
}

/// An answer to `FindContent` as plain values.
pub enum ContentView {
    ConnectionId(u16),
    Payload(Seq<u8>),
    Peers(Seq<Id256>),
}

/// A response as plain values.
pub enum ResponseView {
    Pong { enr_seq: u64, data_radius: Seq<u8> },
    Nodes { nodes: Seq<Id256> },
    Content(ContentView),
}

impl View for Request {
    type V = RequestView;

    open spec fn view(&self) -> RequestView {
        match self {
            Request::Ping { enr_seq, data_radius } => RequestView::Ping { enr_seq: *enr_seq, data_radius: data_radius@ },
            Request::FindNodes { distances } => RequestView::FindNodes { distances: distances@ },
            Request::FindContent { content_key } => RequestView::FindContent { content_key: content_key@ },
        }
    }
}

impl View for Response {
    type V = ResponseView;

    open spec fn view(&self) -> ResponseView {
        match self {
            Response::Pong { enr_seq, data_radius } => ResponseView::Pong { enr_seq: *enr_seq, data_radius: data_radius@ },
            Response::Nodes { nodes } => ResponseView::Nodes { nodes: nodes@ },
            Response::Content(Content::ConnectionId(c)) => ResponseView::Content(ContentView::ConnectionId(*c)),
            Response::Content(Content::Payload(p)) => ResponseView::Content(ContentView::Payload(p@)),
            Response::Content(Content::Peers(ps)) => ResponseView::Content(ContentView::Peers(ps@)),
        }
    }
}

/// Little-endian bytes of each of `ds`, in order.
pub open spec fn u16s_bytes(ds: Seq<u16>) -> Seq<u8>
    decreases ds.len(),
{
    if ds.len() == 0 {
        Seq::empty()
    } else {
        u16s_bytes(ds.drop_last()) + spec_u16_to_le_bytes(ds.last())
    }
}

/// The bytes of each of `ids`, in order.
pub open spec fn ids_bytes(ids: Seq<Id256>) -> Seq<u8>
    decreases ids.len(),
{
    if ids.len() == 0 {
        Seq::empty()
    } else {
        ids_bytes(ids.drop_last()) + ids.last()@
    }
}

/// The little-endian numbers in `b`, two bytes each.
pub open spec fn u16s_from(b: Seq<u8>) -> Seq<u16> {
    Seq::new(b.len() / 2, |i: int| spec_u16_from_le_bytes(b.subrange(2 * i, 2 * i + 2)))
}

/// The identifiers in `b`, 32 bytes each.
pub open spec fn ids_from(b: Seq<u8>) -> Seq<Id256> {
    Seq::new(b.len() / 32, |i: int| array_of(b.subrange(32 * i, 32 * i + 32)))
}

/// Wire form of a request.
pub open spec fn request_bytes(v: RequestView) -> Seq<u8> {
    match v {
        RequestView::Ping { enr_seq, data_radius } => seq![KIND_PING] + spec_u64_to_le_bytes(enr_seq) + data_radius,
        RequestView::FindNodes { distances } => seq![KIND_FIND_NODES] + u16s_bytes(distances),
        RequestView::FindContent { content_key } => seq![KIND_FIND_CONTENT] + content_key,
    }
}

/// Wire form of a response.
pub open spec fn response_bytes(v: ResponseView) -> Seq<u8> {
    match v {
        ResponseView::Pong { enr_seq, data_radius } => seq![KIND_PONG] + spec_u64_to_le_bytes(enr_seq) + data_radius,
        ResponseView::Nodes { nodes } => seq![KIND_NODES] + ids_bytes(nodes),
        ResponseView::Content(ContentView::ConnectionId(c)) => seq![KIND_CONTENT, CONTENT_CONNECTION_ID]
            + spec_u16_to_le_bytes(c),
        ResponseView::Content(ContentView::Payload(p)) => seq![KIND_CONTENT, CONTENT_PAYLOAD] + p,
        ResponseView::Content(ContentView::Peers(ps)) => seq![KIND_CONTENT, CONTENT_PEERS] + ids_bytes(ps),
    }
}

/// The request a byte string holds, if it is the wire form of one.
pub open spec fn parse_request(b: Seq<u8>) -> Option<RequestView> {
    if b.len() == 0 {
        None
    } else if b[0] == KIND_PING {
        if b.len() == 41 {
            Some(RequestView::Ping { enr_seq: spec_u64_from_le_bytes(b.subrange(1, 9)), data_radius: b.subrange(9, 41) })
        } else {
            None
        }
    } else if b[0] == KIND_FIND_NODES {
        if (b.len() - 1) % 2 == 0 {
            Some(RequestView::FindNodes { distances: u16s_from(b.drop_first()) })
        } else {
            None
        }
    } else if b[0] == KIND_FIND_CONTENT {
        Some(RequestView::FindContent { content_key: b.drop_first() })
    } else {
        None
    }
}

/// The response a byte string holds, if it is the wire form of one.
pub open spec fn parse_response(b: Seq<u8>) -> Option<ResponseView> {
    if b.len() == 0 {
        None
    } else if b[0] == KIND_PONG {
        if b.len() == 41 {
            Some(ResponseView::Pong { enr_seq: spec_u64_from_le_bytes(b.subrange(1, 9)), data_radius: b.subrange(9, 41) })
        } else {
            None
        }
    } else if b[0] == KIND_NODES {
        if (b.len() - 1) % 32 == 0 {
            Some(ResponseView::Nodes { nodes: ids_from(b.drop_first()) })
        } else {
            None
        }
    } else if b[0] == KIND_CONTENT && b.len() >= 2 {
        if b[1] == CONTENT_CONNECTION_ID {
            if b.len() == 4 {
                Some(ResponseView::Content(ContentView::ConnectionId(spec_u16_from_le_bytes(b.subrange(2, 4)))))
            } else {
                None
            }
        } else if b[1] == CONTENT_PAYLOAD {
            Some(ResponseView::Content(ContentView::Payload(b.subrange(2, b.len() as int))))
        } else if b[1] == CONTENT_PEERS {
            if (b.len() - 2) % 32 == 0 {
                Some(ResponseView::Content(ContentView::Peers(ids_from(b.subrange(2, b.len() as int)))))
            } else {
                None
            }
        } else {
            None
        }
    } else {
        None
    }
}

proof fn lemma_u16s_bytes(ds: Seq<u16>)
    ensures
        u16s_bytes(ds).len() == 2 * ds.len(),
        forall|i: int| 0 <= i < ds.len() ==> #[trigger] u16s_bytes(ds).subrange(2 * i, 2 * i + 2) == spec_u16_to_le_bytes(ds[i]),
    decreases ds.len(),
{
    lemma_auto_spec_u16_to_from_le_bytes();
    if ds.len() > 0 {
        let init = ds.drop_last();
        lemma_u16s_bytes(init);
        let b = u16s_bytes(ds);
        assert forall|i: int| 0 <= i < ds.len() implies #[trigger] b.subrange(2 * i, 2 * i + 2) == spec_u16_to_le_bytes(ds[i]) by {
            if i < init.len() {
                assert(b.subrange(2 * i, 2 * i + 2) =~= u16s_bytes(init).subrange(2 * i, 2 * i + 2));
            } else {
                assert(b.subrange(2 * i, 2 * i + 2) =~= spec_u16_to_le_bytes(ds.last()));
            }
        }
    }
}

proof fn lemma_ids_bytes(ids: Seq<Id256>)
    ensures
        ids_bytes(ids).len() == 32 * ids.len(),
        forall|i: int| 0 <= i < ids.len() ==> #[trigger] ids_bytes(ids).subrange(32 * i, 32 * i + 32) == ids[i]@,
    decreases ids.len(),
{
    if ids.len() > 0 {
        let init = ids.drop_last();
        lemma_ids_bytes(init);
        let b = ids_bytes(ids);
        assert forall|i: int| 0 <= i < ids.len() implies #[trigger] b.subrange(32 * i, 32 * i + 32) == ids[i]@ by {
            if i < init.len() {
                assert(b.subrange(32 * i, 32 * i + 32) =~= ids_bytes(init).subrange(32 * i, 32 * i + 32));
            } else {
                assert(b.subrange(32 * i, 32 * i + 32) =~= ids.last()@);
            }
        }
    }
}

proof fn lemma_u16s_round_trip(ds: Seq<u16>)
    ensures
        u16s_from(u16s_bytes(ds)) == ds,
{
    lemma_auto_spec_u16_to_from_le_bytes();
    lemma_u16s_bytes(ds);
    let b = u16s_bytes(ds);
    assert forall|i: int| 0 <= i < ds.len() implies #[trigger] u16s_from(b)[i] == ds[i] by {
        assert(b.subrange(2 * i, 2 * i + 2) == spec_u16_to_le_bytes(ds[i]));
    }
    assert(u16s_from(b) =~= ds);
}

proof fn lemma_ids_round_trip(ids: Seq<Id256>)
    ensures
        ids_from(ids_bytes(ids)) == ids,
{
    lemma_ids_bytes(ids);
    let b = ids_bytes(ids);
    assert forall|i: int| 0 <= i < ids.len() implies #[trigger] ids_from(b)[i] == ids[i] by {
        assert(b.subrange(32 * i, 32 * i + 32) == ids[i]@);
        let a = array_of(ids[i]@);
        assert(a@ == ids[i]@);
        assert(a =~= ids[i]);
    }
    assert(ids_from(b) =~= ids);
}

/// Reading back the wire form of a request gives that request, for every
/// ping whose radius has 32 bytes and every other request.
pub proof fn lemma_request_round_trip(v: RequestView)
    requires
        v matches RequestView::Ping { data_radius, .. } ==> data_radius.len() == 32,
    ensures
        parse_request(request_bytes(v)) == Some(v),
{
    lemma_auto_spec_u64_to_from_le_bytes();
    let b = request_bytes(v);
    match v {
        RequestView::Ping { enr_seq, data_radius } => {
            assert(b.subrange(1, 9) =~= spec_u64_to_le_bytes(enr_seq));
            assert(b.subrange(9, 41) =~= data_radius);
        },
        RequestView::FindNodes { distances } => {
            lemma_u16s_bytes(distances);
            lemma_u16s_round_trip(distances);
            assert(b.drop_first() =~= u16s_bytes(distances));
        },
        RequestView::FindContent { content_key } => {
            assert(b.drop_first() =~= content_key);
        },
    }
}

/// Reading back the wire form of a response gives that response, for every
/// pong whose radius has 32 bytes and every other response.
pub proof fn lemma_response_round_trip(v: ResponseView)
    requires
        v matches ResponseView::Pong { data_radius, .. } ==> data_radius.len() == 32,
    ensures
        parse_response(response_bytes(v)) == Some(v),
{
    lemma_auto_spec_u64_to_from_le_bytes();
    lemma_auto_spec_u16_to_from_le_bytes();
    let b = response_bytes(v);
    match v {
        ResponseView::Pong { enr_seq, data_radius } => {
            assert(b.subrange(1, 9) =~= spec_u64_to_le_bytes(enr_seq));
            assert(b.subrange(9, 41) =~= data_radius);
        },
        ResponseView::Nodes { nodes } => {
            lemma_ids_bytes(nodes);
            lemma_ids_round_trip(nodes);
            assert(b.drop_first() =~= ids_bytes(nodes));
        },
        ResponseView::Content(ContentView::ConnectionId(c)) => {
            assert(b.subrange(2, 4) =~= spec_u16_to_le_bytes(c));
        },
        ResponseView::Content(ContentView::Payload(p)) => {
            assert(b.subrange(2, b.len() as int) =~= p);
        },
        ResponseView::Content(ContentView::Peers(ps)) => {
            lemma_ids_bytes(ps);
            lemma_ids_round_trip(ps);
            assert(b.subrange(2, b.len() as int) =~= ids_bytes(ps));
        },
    }
}

fn push_all(out: &mut Vec<u8>, b: &[u8])
    ensures
        final(out)@ == old(out)@ + b@,
{
    let mut i: usize = 0;
    let ghost start = out@;
    while i < b.len()
        invariant
            i <= b@.len(),
            out@ == start + b@.subrange(0, i as int),
        decreases b@.len() - i,
    {
        out.push(b[i]);
        i += 1;
        assert(out@ =~= start + b@.subrange(0, i as int));
    }
    assert(b@.subrange(0, i as int) =~= b@);
}

fn push_ids(out: &mut Vec<u8>, ids: &Vec<Id256>)
    ensures
        final(out)@ == old(out)@ + ids_bytes(ids@),
{
    let mut i: usize = 0;
    let ghost start = out@;
    while i < ids.len()
        invariant
            i <= ids@.len(),
            out@ == start + ids_bytes(ids@.subrange(0, i as int)),
        decreases ids@.len() - i,
    {
        let ghost before = out@;
        push_all(out, ids[i].as_slice());
        proof {
            assert(ids@.subrange(0, i + 1).drop_last() =~= ids@.subrange(0, i as int));
        }
        i += 1;
        assert(out@ =~= start + ids_bytes(ids@.subrange(0, i as int)));
    }
    assert(ids@.subrange(0, i as int) =~= ids@);
}

/// The wire form of a request.
pub fn encode_request(r: &Request) -> (b: Vec<u8>)
    ensures
        b@ == request_bytes(r@),
{
    let mut out: Vec<u8> = Vec::new();
    match r {
        Request::Ping { enr_seq, data_radius } => {
            out.push(KIND_PING);
            let n = u64_to_le_bytes(*enr_seq);
            push_all(&mut out, n.as_slice());
            push_all(&mut out, data_radius.as_slice());
        },
        Request::FindNodes { distances } => {
            out.push(KIND_FIND_NODES);
            let mut i: usize = 0;
            while i < distances.len()
                invariant
                    i <= distances@.len(),
                    out@ == seq![KIND_FIND_NODES] + u16s_bytes(distances@.subrange(0, i as int)),
                decreases distances@.len() - i,
            {
                let n = u16_to_le_bytes(distances[i]);
                push_all(&mut out, n.as_slice());
                proof {
                    assert(distances@.subrange(0, i + 1).drop_last() =~= distances@.subrange(0, i as int));
                }
                i += 1;
                assert(out@ =~= seq![KIND_FIND_NODES] + u16s_bytes(distances@.subrange(0, i as int)));
            }
            assert(distances@.subrange(0, i as int) =~= distances@);
        },
        Request::FindContent { content_key } => {
            out.push(KIND_FIND_CONTENT);
            push_all(&mut out, content_key.as_slice());
        },
    }
    assert(out@ =~= request_bytes(r@));
    out
}

/// The wire form of a response.
pub fn encode_response(r: &Response) -> (b: Vec<u8>)
    ensures
        b@ == response_bytes(r@),
{
    let mut out: Vec<u8> = Vec::new();
    match r {
        Response::Pong { enr_seq, data_radius } => {
            out.push(KIND_PONG);
            let n = u64_to_le_bytes(*enr_seq);
            push_all(&mut out, n.as_slice());
            push_all(&mut out, data_radius.as_slice());
        },
        Response::Nodes { nodes } => {
            out.push(KIND_NODES);
            push_ids(&mut out, nodes);
        },
        Response::Content(Content::ConnectionId(c)) => {
            out.push(KIND_CONTENT);
            out.push(CONTENT_CONNECTION_ID);
            let n = u16_to_le_bytes(*c);
            push_all(&mut out, n.as_slice());
        },
        Response::Content(Content::Payload(p)) => {
            out.push(KIND_CONTENT);
            out.push(CONTENT_PAYLOAD);
            push_all(&mut out, p.as_slice());
        },
        Response::Content(Content::Peers(ps)) => {
            out.push(KIND_CONTENT);
            out.push(CONTENT_PEERS);
            push_ids(&mut out, ps);
        },
    }
    assert(out@ =~= response_bytes(r@));
    out
}

fn read_id(b: &[u8], at: usize) -> (id: Id256)
    requires
        at + 32 <= b@.len(),
    ensures
        id@ == b@.subrange(at as int, at + 32),
        id == array_of(b@.subrange(at as int, at + 32)),
{
    let mut id: Id256 = [0u8; 32];
    let n = b.len();
    let mut i: usize = 0;
    while i < 32
        invariant
            i <= 32,
            n == b@.len(),
            at + 32 <= b@.len(),
            id@.len() == 32,
            forall|j: int| 0 <= j < i ==> id@[j] == b@[at + j],
        decreases 32 - i,
    {
        id[i] = b[at + i];
        i += 1;
    }
    assert(id@ =~= b@.subrange(at as int, at + 32));
    proof {
        let a = array_of(b@.subrange(at as int, at + 32));
        assert(a@ == b@.subrange(at as int, at + 32));
        assert(a =~= id);
    }
    id
}

fn read_ids(b: &[u8], from: usize) -> (ids: Vec<Id256>)
    requires
        from <= b@.len(),
        (b@.len() - from) % 32 == 0,
    ensures
        ids@ == ids_from(b@.subrange(from as int, b@.len() as int)),
{
    let ghost rest = b@.subrange(from as int, b@.len() as int);
    let n = b.len();
    let count = (n - from) / 32;
    let mut ids: Vec<Id256> = Vec::new();
    let mut i: usize = 0;
    while i < count
        invariant
            n == b@.len(),
            i <= count,
            count == rest.len() / 32,
            rest.len() == count * 32,
            rest == b@.subrange(from as int, b@.len() as int),
            from + count * 32 == b@.len(),
            ids@.len() == i,
            forall|j: int| 0 <= j < i ==> ids@[j] == #[trigger] ids_from(rest)[j],
        decreases count - i,
    {
        let id = read_id(b, from + 32 * i);
        assert(b@.subrange(from + 32 * i, from + 32 * i + 32) =~= rest.subrange(32 * i, 32 * i + 32));
        ids.push(id);
        i += 1;
    }
    assert(ids@ =~= ids_from(rest));
    ids
}

/// The request that `b` holds, or `None` when `b` is not the wire form of a
/// request.
pub fn decode_request(b: &[u8]) -> (r: Option<Request>)
    ensures
        match r {
            Some(req) => parse_request(b@) == Some(req@),
            None => parse_request(b@) is None,
        },
{
    let n = b.len();
    if n == 0 {
        return None;
    }
    if b[0] == KIND_PING {
        if n != 41 {
            return None;
        }
        let enr_seq = u64_from_le_bytes(slice_subrange(b, 1, 9));
        let mut radius: Id256 = [0u8; 32];
        let mut i: usize = 0;
        while i < 32
            invariant
                i <= 32,
                b@.len() == 41,
                radius@.len() == 32,
                forall|j: int| 0 <= j < i ==> radius@[j] == b@[9 + j],
            decreases 32 - i,
        {
            radius[i] = b[9 + i];
            i += 1;
        }
        assert(radius@ =~= b@.subrange(9, 41));
        Some(Request::Ping { enr_seq, data_radius: radius })
    } else if b[0] == KIND_FIND_NODES {
        if (n - 1) % 2 != 0 {
            return None;
        }
        let ghost rest = b@.drop_first();
        let count = (n - 1) / 2;
        let mut distances: Vec<u16> = Vec::new();
        let mut i: usize = 0;
        while i < count
            invariant
                i <= count,
                count == rest.len() / 2,
                rest.len() == count * 2,
                rest == b@.drop_first(),
                n == b@.len(),
                1 + count * 2 == n,
                distances@.len() == i,
                forall|j: int| 0 <= j < i ==> distances@[j] == #[trigger] u16s_from(rest)[j],
            decreases count - i,
        {
            let d = u16_from_le_bytes(slice_subrange(b, 1 + 2 * i, 3 + 2 * i));
            assert(b@.subrange(1 + 2 * i, 3 + 2 * i) =~= rest.subrange(2 * i, 2 * i + 2));
            distances.push(d);
            i += 1;
        }
        assert(distances@ =~= u16s_from(rest));
        Some(Request::FindNodes { distances })
    } else if b[0] == KIND_FIND_CONTENT {
        let key = vstd::slice::slice_to_vec(slice_subrange(b, 1, n));
        assert(key@ =~= b@.drop_first());
        Some(Request::FindContent { content_key: key })
    } else {
        None
    }
}

/// The response that `b` holds, or `None` when `b` is not the wire form of
/// a response.
pub fn decode_response(b: &[u8]) -> (r: Option<Response>)
    ensures
        match r {
            Some(resp) => parse_response(b@) == Some(resp@),
            None => parse_response(b@) is None,
        },
{
    let n = b.len();
    if n == 0 {
        return None;
    }
    if b[0] == KIND_PONG {
        if n != 41 {
            return None;
        }
        let enr_seq = u64_from_le_bytes(slice_subrange(b, 1, 9));
        let radius = read_id(b, 9);
        Some(Response::Pong { enr_seq, data_radius: radius })
    } else if b[0] == KIND_NODES {
        if (n - 1) % 32 != 0 {
            return None;
        }
        let nodes = read_ids(b, 1);
        assert(b@.subrange(1, n as int) =~= b@.drop_first());
        Some(Response::Nodes { nodes })
    } else if b[0] == KIND_CONTENT && n >= 2 {
        if b[1] == CONTENT_CONNECTION_ID {
            if n != 4 {
                return None;
            }
            let c = u16_from_le_bytes(slice_subrange(b, 2, 4));
            Some(Response::Content(Content::ConnectionId(c)))
        } else if b[1] == CONTENT_PAYLOAD {
            let p = vstd::slice::slice_to_vec(slice_subrange(b, 2, n));
            Some(Response::Content(Content::Payload(p)))
        } else if b[1] == CONTENT_PEERS {
            if (n - 2) % 32 != 0 {
                return None;
            }
            let peers = read_ids(b, 2);
            Some(Response::Content(Content::Peers(peers)))
        } else {
            None
        }
    } else {
        None
    }
}

} // verus!
