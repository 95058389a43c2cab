//! The echo handler: the reply that describes a request, with and without
//! its body.
use vstd::prelude::*;
use vstd::utf8::{decode_utf8, encode_utf8, encode_utf8_decode_utf8, encode_utf8_valid_utf8, valid_utf8};
use crate::headers::{copy_headers, distinct_names, header_map, header_seq, pair_seq, pairs_map};
use crate::text::{ascii_chars, decode_text, is_text_value};

verus! {

/// What a handler knows of one request.
pub struct RequestInfo {
    /// The method name, such as `GET`.
    pub method: String,
    /// The raw query string; empty when the request has none.
    pub query: String,
    /// Header names and raw values, in the order received.
    pub headers: Vec<(String, Vec<u8>)>,
    /// The transport peer's IP address, when the server knows it.
    pub peer_ip: Option<String>,
}

/// The mathematical form of a request: headers, method, query, peer address.
pub type RequestView = (Seq<(Seq<char>, Seq<u8>)>, Seq<char>, Seq<char>, Option<Seq<char>>);

impl View for RequestInfo {
    type V = RequestView;

    open spec fn view(&self) -> RequestView {
        (
            header_seq(self.headers@),
            self.method@,
            self.query@,
            match self.peer_ip {
                Some(ip) => Some(ip@),
                None => None,
            },
        )
    }
}

/// The reply to a request that is echoed without its body.
pub struct EchoResponse {
    /// One pair per header name: the name and its value as text.
    pub headers: Vec<(String, String)>,
    pub method: String,
    pub query: String,
    pub client_ip: String,
}

/// The mathematical form of a reply: header mapping, method, query, client address.
pub type ResponseView = (Map<Seq<char>, Seq<char>>, Seq<char>, Seq<char>, Seq<char>);

impl View for EchoResponse {
    type V = ResponseView;

    open spec fn view(&self) -> ResponseView {
        (pairs_map(pair_seq(self.headers@)), self.method@, self.query@, self.client_ip@)
    }
}

/// The reply to a request that carries a body: the echo and the body as text.
pub struct EchoResponseWithBody {
    pub headers: Vec<(String, String)>,
    pub method: String,
    pub query: String,
    pub client_ip: String,
    pub data: String,
}

impl View for EchoResponseWithBody {
    type V = (ResponseView, Seq<char>);

    open spec fn view(&self) -> (ResponseView, Seq<char>) {
        (
            (pairs_map(pair_seq(self.headers@)), self.method@, self.query@, self.client_ip@),
            self.data@,
        )
    }
}

/// Why a request with a body cannot be echoed.
#[derive(Debug, Clone, Copy, PartialEq, Eq)]
pub enum EchoError {
    /// The body is not well-formed UTF-8 text.
    InvalidBody,
}

/// What the reply reports as the client address when the peer is unknown.
pub open spec fn unknown_ip() -> Seq<char> {
    seq!['u', 'n', 'k', 'n', 'o', 'w', 'n', '-', 'i', 'p']
}

/// The client address a reply reports: the peer's, or `unknown-ip`.
pub open spec fn client_ip_of(peer: Option<Seq<char>>) -> Seq<char> {
    match peer {
        Some(ip) => ip,
        None => unknown_ip(),
    }
}

/// The reply that describes a request.
pub open spec fn echo_of(req: RequestView) -> ResponseView {
    (header_map(req.0), req.1, req.2, client_ip_of(req.3))
}

/// The client address to report for a peer address, if any.
pub fn copy_client_ip(peer_ip: &Option<String>) -> (r: String)
    ensures
        r@ == client_ip_of(
            match peer_ip {
                Some(ip) => Some(ip@),
                None => None,
            },
        ),
{
    match peer_ip {
        Some(ip) => ip.clone(),
        None => {
            proof {
                reveal_strlit("unknown-ip");
            }
            let r = String::from_str("unknown-ip");
            assert(r@ =~= unknown_ip());
            r
        },
    }
}

/// Echoes a request without reading a body: every text header, the method,
/// the raw query and the client address.
pub fn echo_get(req: &RequestInfo) -> (r: EchoResponse)
    ensures
        r@ == echo_of(req@),
        distinct_names(pair_seq(r.headers@)),
{
    EchoResponse {
        headers: copy_headers(&req.headers),
        method: req.method.clone(),
        query: req.query.clone(),
        client_ip: copy_client_ip(&req.peer_ip),
    }
}

/// Echoes a request together with its whole body, which must be UTF-8 text.
pub fn echo_with_body(req: &RequestInfo, body: &Vec<u8>) -> (r: Result<EchoResponseWithBody, EchoError>)
    ensures
        r is Ok <==> valid_utf8(body@),
        r matches Ok(resp) ==> resp@ == (echo_of(req@), decode_utf8(body@)) && distinct_names(
            pair_seq(resp.headers@),
        ),
        r matches Err(e) ==> e == EchoError::InvalidBody,
        body@.len() == 0 ==> (r matches Ok(resp) && resp.data@.len() == 0),
{
    match decode_text(body) {
        Some(data) => Ok(
            EchoResponseWithBody {
                headers: copy_headers(&req.headers),
                method: req.method.clone(),
                query: req.query.clone(),
                client_ip: copy_client_ip(&req.peer_ip),
                data,
            },
        ),
        None => Err(EchoError::InvalidBody),
    }
}

/// Equal requests get equal replies: the reply depends on the request alone.
pub proof fn lemma_echo_deterministic(a: RequestInfo, b: RequestInfo)
    requires
        a@ == b@,
    ensures
        echo_of(a@) == echo_of(b@),
{
}

/// With no peer address, the reply names the client `unknown-ip`.
pub proof fn lemma_unknown_peer(req: RequestView)
    requires
        req.3 is None,
    ensures
        echo_of(req).3 == unknown_ip(),
{
}

/// When the header names are distinct and every value is text, the reply's
/// mapping holds exactly those headers: each name with its own value, and no
/// other name.
pub proof fn lemma_headers_echoed_exactly(h: Seq<(Seq<char>, Seq<u8>)>)
    requires
        distinct_names(h),
        forall|i: int| 0 <= i < h.len() ==> is_text_value(#[trigger] h[i].1),
    ensures
        forall|i: int|
            0 <= i < h.len() ==> header_map(h).contains_key(#[trigger] h[i].0) && header_map(h)[h[i].0]
                == ascii_chars(h[i].1),
        forall|k: Seq<char>|
            #[trigger] header_map(h).contains_key(k) ==> exists|i: int| 0 <= i < h.len() && h[i].0 == k,
    decreases h.len(),
{
    if h.len() > 0 {
        let q = h.drop_last();
        assert(distinct_names(q)) by {
            assert forall|a: int, b: int| 0 <= a < b < q.len() implies #[trigger] q[a].0
                != #[trigger] q[b].0 by {
                assert(h[a].0 != h[b].0);
            }
        }
        assert forall|i: int| 0 <= i < q.len() implies is_text_value(#[trigger] q[i].1) by {
            assert(is_text_value(h[i].1));
        }
        lemma_headers_echoed_exactly(q);
        assert(is_text_value(h[h.len() - 1].1));
        assert forall|i: int| 0 <= i < h.len() implies header_map(h).contains_key(#[trigger] h[i].0)
            && header_map(h)[h[i].0] == ascii_chars(h[i].1) by {
            if i < q.len() {
                assert(q[i].0 == h[i].0);
                assert(h[i].0 != h[h.len() - 1].0);
            }
        }
        assert forall|k: Seq<char>| #[trigger] header_map(h).contains_key(k) implies exists|i: int|
            0 <= i < h.len() && h[i].0 == k by {
            if k != h.last().0 {
                assert(header_map(q).contains_key(k));
                let i = choose|i: int| 0 <= i < q.len() && q[i].0 == k;
                assert(h[i].0 == k);
            } else {
                assert(h[h.len() - 1].0 == k);
            }
        }
    }
}

/// Any text sent as a body comes back unchanged: its UTF-8 bytes are
/// accepted, and they decode to the same characters.
pub proof fn lemma_body_round_trip(text: Seq<char>)
    ensures
        valid_utf8(encode_utf8(text)),
        decode_utf8(encode_utf8(text)) == text,
{
    encode_utf8_valid_utf8(text);
    encode_utf8_decode_utf8(text);
}

} // verus!
