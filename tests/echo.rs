use echo_server::echo::{copy_client_ip, echo_get, echo_with_body, EchoError, RequestInfo};
use echo_server::headers::copy_headers;

fn request(method: &str, query: &str, headers: Vec<(&str, &[u8])>, peer: Option<&str>) -> RequestInfo {
    RequestInfo {
        method: method.to_string(),
        query: query.to_string(),
        headers: headers.into_iter().map(|(n, v)| (n.to_string(), v.to_vec())).collect(),
        peer_ip: peer.map(|p| p.to_string()),
    }
}

fn lookup<'a>(pairs: &'a [(String, String)], name: &str) -> Option<&'a str> {
    pairs.iter().find(|(n, _)| n == name).map(|(_, v)| v.as_str())
}

#[test]
fn get_with_query_and_header() {
    let req = request("GET", "x=1", vec![("x-test", b"abc")], Some("127.0.0.1"));
    let r = echo_get(&req);
    assert_eq!(r.method, "GET");
    assert_eq!(r.query, "x=1");
    assert_eq!(r.client_ip, "127.0.0.1");
    assert_eq!(r.headers, vec![("x-test".to_string(), "abc".to_string())]);
}

#[test]
fn get_without_query_has_empty_query() {
    let r = echo_get(&request("GET", "", vec![], Some("10.0.0.2")));
    assert_eq!(r.method, "GET");
    assert_eq!(r.query, "");
    assert!(r.headers.is_empty());
}

#[test]
fn post_echoes_body() {
    let req = request("POST", "", vec![("content-type", b"text/plain")], Some("127.0.0.1"));
    let r = echo_with_body(&req, &b"hello".to_vec()).unwrap();
    assert_eq!(r.data, "hello");
    assert_eq!(r.method, "POST");
    assert_eq!(lookup(&r.headers, "content-type"), Some("text/plain"));
}

#[test]
fn empty_post_body_is_empty_text() {
    let r = echo_with_body(&request("POST", "", vec![], None), &Vec::new()).unwrap();
    assert_eq!(r.data, "");
}

#[test]
fn multibyte_body_round_trips() {
    let text = "h\u{e9}llo \u{1f600} \u{4e16}";
    for method in ["POST", "PUT", "PATCH"] {
        let r = echo_with_body(&request(method, "a=b", vec![], None), &text.as_bytes().to_vec()).unwrap();
        assert_eq!(r.data, text);
        assert_eq!(r.method, method);
        assert_eq!(r.query, "a=b");
    }
}

#[test]
fn invalid_utf8_body_is_rejected() {
    let r = echo_with_body(&request("POST", "", vec![], None), &vec![0x66, 0xff, 0x66]);
    assert_eq!(r.err(), Some(EchoError::InvalidBody));
    let truncated = "\u{e9}".as_bytes()[..1].to_vec();
    assert!(echo_with_body(&request("PUT", "", vec![], None), &truncated).is_err());
}

#[test]
fn unknown_peer_is_reported() {
    assert_eq!(echo_get(&request("GET", "", vec![], None)).client_ip, "unknown-ip");
    assert_eq!(copy_client_ip(&None), "unknown-ip");
    assert_eq!(copy_client_ip(&Some("::1".to_string())), "::1");
}

#[test]
fn all_distinct_headers_are_echoed() {
    let req = request(
        "GET",
        "",
        vec![("x-a", b"1"), ("accept", b"*/*"), ("x-b", b"two words\tand tab"), ("host", b"localhost:8080")],
        None,
    );
    let r = echo_get(&req);
    assert_eq!(r.headers.len(), 4);
    assert_eq!(lookup(&r.headers, "x-a"), Some("1"));
    assert_eq!(lookup(&r.headers, "accept"), Some("*/*"));
    assert_eq!(lookup(&r.headers, "x-b"), Some("two words\tand tab"));
    assert_eq!(lookup(&r.headers, "host"), Some("localhost:8080"));
}

#[test]
fn repeated_header_keeps_last_value() {
    let pairs = copy_headers(&vec![
        ("x-dup".to_string(), b"first".to_vec()),
        ("x-other".to_string(), b"o".to_vec()),
        ("x-dup".to_string(), b"second".to_vec()),
    ]);
    assert_eq!(pairs.len(), 2);
    assert_eq!(lookup(&pairs, "x-dup"), Some("second"));
    assert_eq!(lookup(&pairs, "x-other"), Some("o"));
}

#[test]
fn non_text_header_value_is_left_out() {
    let pairs = copy_headers(&vec![
        ("x-bin".to_string(), vec![0x61, 0x00, 0x62]),
        ("x-high".to_string(), vec![0xc3, 0xa9]),
        ("x-del".to_string(), vec![0x7f]),
        ("x-ok".to_string(), b"fine".to_vec()),
    ]);
    assert_eq!(pairs, vec![("x-ok".to_string(), "fine".to_string())]);
}

#[test]
fn same_request_gives_same_reply() {
    let req = request("GET", "q=1&r=2", vec![("x-a", b"1"), ("x-b", b"2")], Some("192.168.1.9"));
    let a = echo_get(&req);
    let b = echo_get(&req);
    assert_eq!(a.headers, b.headers);
    assert_eq!((a.method, a.query, a.client_ip), (b.method, b.query, b.client_ip));
}

#[test]
fn replies_follow_only_their_own_request() {
    let reqs: Vec<RequestInfo> = (0..8)
        .map(|i| {
            let q = format!("n={}", i);
            let ip = format!("10.0.0.{}", i);
            let mut r = request("GET", &q, vec![], Some(&ip));
            r.headers.push(("x-id".to_string(), i.to_string().into_bytes()));
            r
        })
        .collect();
    let replies: Vec<_> = reqs.iter().map(echo_get).collect();
    for (i, r) in replies.iter().enumerate() {
        assert_eq!(r.query, format!("n={}", i));
        assert_eq!(r.client_ip, format!("10.0.0.{}", i));
        assert_eq!(lookup(&r.headers, "x-id"), Some(i.to_string().as_str()));
    }
}
