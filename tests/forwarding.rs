use cc_proxy::forward::{check_response, forward_request_headers, forward_response_headers, target_url, ResponseRejection};

fn h(name: &str, value: &str) -> (String, Vec<u8>) {
    (name.to_string(), value.as_bytes().to_vec())
}

fn names(headers: &[(String, Vec<u8>)]) -> Vec<String> {
    headers.iter().map(|(n, _)| n.to_ascii_lowercase()).collect()
}

fn value_of<'a>(headers: &'a [(String, Vec<u8>)], name: &str) -> Option<&'a [u8]> {
    headers
        .iter()
        .find(|(n, _)| n.eq_ignore_ascii_case(name))
        .map(|(_, v)| v.as_slice())
}

const HOP: [&str; 7] = [
    "connection",
    "proxy-connection",
    "keep-alive",
    "transfer-encoding",
    "upgrade",
    "te",
    "trailers",
];

#[test]
fn request_headers_are_sanitized() {
    let inbound = vec![
        h("host", "proxy.local"),
        h("Authorization", "Bearer caller"),
        h("Connection", "keep-alive"),
        h("keep-alive", "timeout=5"),
        h("transfer-encoding", "chunked"),
        h("TE", "trailers"),
        h("content-length", "12"),
        h("content-type", "application/json"),
        h("x-custom", "1"),
    ];
    let out = forward_request_headers(&inbound, "provider-key");
    let n = names(&out);
    assert_eq!(n, vec!["content-type", "x-custom", "authorization", "accept"]);
    for hop in HOP {
        assert!(!n.contains(&hop.to_string()));
    }
    assert_eq!(value_of(&out, "authorization"), Some(&b"Bearer provider-key"[..]));
    assert_eq!(value_of(&out, "accept"), Some(&b"application/json"[..]));
}

#[test]
fn existing_accept_is_kept() {
    let out = forward_request_headers(&vec![h("Accept", "text/event-stream")], "k");
    assert_eq!(out.len(), 2);
    assert_eq!(value_of(&out, "accept"), Some(&b"text/event-stream"[..]));
}

#[test]
fn response_headers_drop_hop_by_hop_and_gzip() {
    let upstream = vec![
        h("content-type", "text/event-stream"),
        h("Content-Encoding", "GZIP"),
        h("content-length", "99"),
        h("transfer-encoding", "chunked"),
        h("connection", "close"),
        h("x-request-id", "abc"),
    ];
    let (out, gzip) = forward_response_headers(&upstream);
    assert!(gzip);
    assert_eq!(names(&out), vec!["content-type", "x-request-id"]);
}

#[test]
fn other_content_encoding_is_passed_through() {
    let (out, gzip) = forward_response_headers(&vec![h("content-encoding", "br")]);
    assert!(!gzip);
    assert_eq!(names(&out), vec!["content-encoding"]);
}

#[test]
fn response_checks() {
    let json = vec![h("content-type", "application/json; charset=utf-8")];
    assert_eq!(check_response(200, &json), Ok(()));
    assert_eq!(check_response(204, &vec![]), Ok(()));
    assert_eq!(check_response(500, &json), Err(ResponseRejection::ErrorStatus(500)));
    assert_eq!(check_response(302, &json), Err(ResponseRejection::ErrorStatus(302)));
    let waf = vec![h("content-type", "application/json"), h("X-Tengine-Error", "denied")];
    assert_eq!(check_response(200, &waf), Err(ResponseRejection::BlockedByWaf));
    let html = vec![h("content-type", "text/html")];
    assert_eq!(check_response(200, &html), Err(ResponseRejection::NonJsonContentType));
    let sse = vec![h("Content-Type", "text/event-stream")];
    assert_eq!(check_response(200, &sse), Ok(()));
    // a content type that is not text fails like any other
    let raw = vec![("content-type".to_string(), vec![0xffu8, 0x01])];
    assert_eq!(check_response(200, &raw), Err(ResponseRejection::NonJsonContentType));
    // only the first content type counts
    let two = vec![h("content-type", "application/json"), h("content-type", "text/html")];
    assert_eq!(check_response(200, &two), Ok(()));
}

#[test]
fn target_url_strips_trailing_slashes() {
    assert_eq!(target_url("https://api.example.com//", "/responses"), "https://api.example.com/responses");
    assert_eq!(target_url("https://api.example.com", "/v1/messages"), "https://api.example.com/v1/messages");
    assert_eq!(target_url("", "/responses"), "/responses");
}
