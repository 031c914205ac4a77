//! The rules of one forwarding attempt: the target URL, the headers sent
//! upstream, the checks on the upstream response and the headers passed back
//! to the caller.
//!
//! A header is a name and the raw bytes of its value. Names are compared
//! ignoring ASCII case.
use vstd::prelude::*;
use vstd::utf8::encode_utf8;
use crate::text::{
    bytes_eq_ignore_case, bytes_eq_ignoring_case, contains_bytes, copy_bytes, eq_ignore_ascii_case,
    eq_ignore_case_spec, occurs_in,
};

verus! {

/// Why an upstream response does not count as a delivery.
#[derive(Debug, Clone, Copy, PartialEq, Eq)]
pub enum ResponseRejection {
    /// The status is not in the 2xx range.
    ErrorStatus(u16),
    /// The response carries the vendor firewall's block header.
    BlockedByWaf,
    /// The content type is neither JSON nor an event stream.
    NonJsonContentType,
}

/// The mathematical value of a header.
pub open spec fn hview(h: (String, Vec<u8>)) -> (Seq<char>, Seq<u8>) {
    (h.0@, h.1@)
}

/// The values of a list of headers.
pub open spec fn hviews(s: Seq<(String, Vec<u8>)>) -> Seq<(Seq<char>, Seq<u8>)> {
    s.map_values(|h: (String, Vec<u8>)| hview(h))
}

/// A header name is `lit`, ignoring ASCII case.
pub open spec fn named(n: Seq<char>, lit: Seq<char>) -> bool {
    eq_ignore_case_spec(n, lit)
}

/// Headers that only mean something on one transport leg.
pub open spec fn is_hop_by_hop(n: Seq<char>) -> bool {
    named(n, "connection"@) || named(n, "proxy-connection"@) || named(n, "keep-alive"@)
        || named(n, "transfer-encoding"@) || named(n, "upgrade"@) || named(n, "te"@) || named(n, "trailers"@)
}

/// Inbound headers that are not sent upstream.
pub open spec fn dropped_inbound(n: Seq<char>) -> bool {
    named(n, "host"@) || named(n, "authorization"@) || is_hop_by_hop(n) || named(n, "content-length"@)
}

/// A `Content-Encoding: gzip` header (the value in any case).
pub open spec fn is_gzip_encoding(h: (Seq<char>, Seq<u8>)) -> bool {
    named(h.0, "content-encoding"@) && bytes_eq_ignore_case(h.1, encode_utf8("gzip"@))
}

/// Upstream headers that are not passed back to the caller.
pub open spec fn dropped_upstream(h: (Seq<char>, Seq<u8>)) -> bool {
    is_hop_by_hop(h.0) || named(h.0, "content-length"@) || is_gzip_encoding(h)
}

/// The inbound headers that are sent upstream, in order.
pub open spec fn kept_inbound(s: Seq<(Seq<char>, Seq<u8>)>) -> Seq<(Seq<char>, Seq<u8>)>
    decreases s.len(),
{
    if s.len() == 0 {
        Seq::empty()
    } else {
        kept_inbound(s.drop_last()) + (if dropped_inbound(s.last().0) { Seq::empty() } else { seq![s.last()] })
    }
}

/// The upstream headers that are passed back, in order.
pub open spec fn kept_upstream(s: Seq<(Seq<char>, Seq<u8>)>) -> Seq<(Seq<char>, Seq<u8>)>
    decreases s.len(),
{
    if s.len() == 0 {
        Seq::empty()
    } else {
        kept_upstream(s.drop_last()) + (if dropped_upstream(s.last()) { Seq::empty() } else { seq![s.last()] })
    }
}

/// Some header of `s` is named `lit`.
pub open spec fn has_named(s: Seq<(Seq<char>, Seq<u8>)>, lit: Seq<char>) -> bool {
    exists|i: int| 0 <= i < s.len() && named(#[trigger] s[i].0, lit)
}

/// Some header of `s` is `Content-Encoding: gzip`.
pub open spec fn has_gzip(s: Seq<(Seq<char>, Seq<u8>)>) -> bool {
    exists|i: int| 0 <= i < s.len() && is_gzip_encoding(#[trigger] s[i])
}

/// The headers sent upstream: the kept inbound headers, the provider's
/// credential as a bearer token, and `Accept: application/json` when no
/// `Accept` header is kept.
pub open spec fn outbound_request_headers(s: Seq<(Seq<char>, Seq<u8>)>, api_key: Seq<char>) -> Seq<(Seq<char>, Seq<u8>)> {
    let kept = kept_inbound(s);
    let with_auth = kept.push(("authorization"@, encode_utf8("Bearer "@ + api_key)));
    if has_named(kept, "accept"@) {
        with_auth
    } else {
        with_auth.push(("accept"@, encode_utf8("application/json"@)))
    }
}

/// The value of the first header of `s` named `lit`.
pub open spec fn first_value(s: Seq<(Seq<char>, Seq<u8>)>, lit: Seq<char>) -> Option<Seq<u8>>
    decreases s.len(),
{
    if s.len() == 0 {
        None
    } else if named(s[0].0, lit) {
        Some(s[0].1)
    } else {
        first_value(s.drop_first(), lit)
    }
}

/// A content type that is neither JSON nor an event stream.
pub open spec fn unexpected_content_type(v: Seq<u8>) -> bool {
    !occurs_in(v, encode_utf8("application/json"@)) && !occurs_in(v, encode_utf8("text/event-stream"@))
}

/// The verdict on an upstream response: an error status first, then a
/// firewall block, then an unexpected content type; else it is accepted.
pub open spec fn response_verdict(status: u16, s: Seq<(Seq<char>, Seq<u8>)>) -> Result<(), ResponseRejection> {
    if !(200 <= status && status < 300) {
        Err(ResponseRejection::ErrorStatus(status))
    } else if has_named(s, "x-tengine-error"@) {
        Err(ResponseRejection::BlockedByWaf)
    } else if first_value(s, "content-type"@) is Some && unexpected_content_type(first_value(s, "content-type"@).unwrap()) {
        Err(ResponseRejection::NonJsonContentType)
    } else {
        Ok(())
    }
}

/// `s` without its trailing slashes.
pub open spec fn trim_trailing_slashes(s: Seq<char>) -> Seq<char>
    decreases s.len(),
{
    if s.len() > 0 && s.last() == '/' {
        trim_trailing_slashes(s.drop_last())
    } else {
        s
    }
}

fn is_hop_by_hop_name(n: &str) -> (r: bool)
    ensures
        r == is_hop_by_hop(n@),
{
    eq_ignore_ascii_case(n, "connection") || eq_ignore_ascii_case(n, "proxy-connection")
        || eq_ignore_ascii_case(n, "keep-alive") || eq_ignore_ascii_case(n, "transfer-encoding")
        || eq_ignore_ascii_case(n, "upgrade") || eq_ignore_ascii_case(n, "te") || eq_ignore_ascii_case(n, "trailers")
}

fn is_gzip_header(h: &(String, Vec<u8>)) -> (r: bool)
    ensures
        r == is_gzip_encoding(hview(*h)),
{
    eq_ignore_ascii_case(h.0.as_str(), "content-encoding") && bytes_eq_ignoring_case(h.1.as_slice(), "gzip".as_bytes())
}

fn copy_header(h: &(String, Vec<u8>)) -> (r: (String, Vec<u8>))
    ensures
        hview(r) == hview(*h),
{
    (h.0.clone(), copy_bytes(&h.1))
}

/// The URL of an attempt: the provider's endpoint without trailing slashes,
/// then the path of the request kind.
pub fn target_url(api_url: &str, endpoint: &str) -> (r: String)
    ensures
        r@ == trim_trailing_slashes(api_url@) + endpoint@,
{
    let mut end = api_url.unicode_len();
    assert(api_url@.subrange(0, end as int) =~= api_url@);
    while end > 0 && api_url.get_char(end - 1) == '/'
        invariant
            end <= api_url@.len(),
            trim_trailing_slashes(api_url@) == trim_trailing_slashes(api_url@.subrange(0, end as int)),
        decreases end,
    {
        let ghost s = api_url@.subrange(0, end as int);
        assert(s.drop_last() =~= api_url@.subrange(0, end - 1));
        end -= 1;
    }
    assert(trim_trailing_slashes(api_url@.subrange(0, end as int)) == api_url@.subrange(0, end as int));
    let mut r = String::from_str(api_url.substring_char(0, end));
    r.append(endpoint);
    r
}

/// The headers sent upstream; see `outbound_request_headers`.
pub fn forward_request_headers(headers: &Vec<(String, Vec<u8>)>, api_key: &str) -> (r: Vec<(String, Vec<u8>)>)
    ensures
        hviews(r@) == outbound_request_headers(hviews(headers@), api_key@),
{
    let mut out: Vec<(String, Vec<u8>)> = Vec::new();
    let mut has_accept = false;
    let mut i: usize = 0;
    while i < headers.len()
        invariant
            i <= headers@.len(),
            hviews(out@) == kept_inbound(hviews(headers@.subrange(0, i as int))),
            has_accept == has_named(hviews(out@), "accept"@),
        decreases headers@.len() - i,
    {
        let ghost before = hviews(out@);
        let ghost pre = hviews(headers@.subrange(0, i + 1));
        let h = &headers[i];
        let name = h.0.as_str();
        let dropped = eq_ignore_ascii_case(name, "host") || eq_ignore_ascii_case(name, "authorization")
            || is_hop_by_hop_name(name) || eq_ignore_ascii_case(name, "content-length");
        if !dropped {
            if eq_ignore_ascii_case(name, "accept") {
                has_accept = true;
            }
            out.push(copy_header(h));
            proof {
                let now = hviews(out@);
                assert(now =~= before.push(hview(*h)));
                if has_accept {
                    if named(hview(*h).0, "accept"@) {
                        assert(named(now[now.len() - 1].0, "accept"@));
                    } else {
                        let j = choose|j: int| 0 <= j < before.len() && named(#[trigger] before[j].0, "accept"@);
                        assert(now[j] == before[j]);
                    }
                } else {
                    assert forall|j: int| 0 <= j < now.len() implies !named(#[trigger] now[j].0, "accept"@) by {
                        if j < before.len() {
                            assert(now[j] == before[j]);
                        }
                    }
                }
            }
        }
        proof {
            assert(pre.drop_last() =~= hviews(headers@.subrange(0, i as int)));
            assert(pre.last() == hview(headers@[i as int]));
            assert(hviews(out@) =~= kept_inbound(pre));
        }
        i += 1;
    }
    assert(headers@.subrange(0, i as int) =~= headers@);
    let ghost kept = hviews(out@);
    let mut bearer = String::from_str("Bearer ");
    bearer.append(api_key);
    out.push((String::from_str("authorization"), bearer.as_str().as_bytes_vec()));
    if !has_accept {
        out.push((String::from_str("accept"), "application/json".as_bytes_vec()));
    }
    assert(hviews(out@) =~= outbound_request_headers(hviews(headers@), api_key@));
    out
}

/// The upstream headers passed back to the caller, and whether the body is
/// gzip-compressed and must be decompressed on the way: hop-by-hop headers,
/// `Content-Length` and `Content-Encoding: gzip` are not passed back.
pub fn forward_response_headers(headers: &Vec<(String, Vec<u8>)>) -> (r: (Vec<(String, Vec<u8>)>, bool))
    ensures
        hviews(r.0@) == kept_upstream(hviews(headers@)),
        r.1 == has_gzip(hviews(headers@)),
{
    let mut out: Vec<(String, Vec<u8>)> = Vec::new();
    let mut gzip = false;
    let mut i: usize = 0;
    while i < headers.len()
        invariant
            i <= headers@.len(),
            hviews(out@) == kept_upstream(hviews(headers@.subrange(0, i as int))),
            gzip == has_gzip(hviews(headers@.subrange(0, i as int))),
        decreases headers@.len() - i,
    {
        let ghost pre = hviews(headers@.subrange(0, i + 1));
        let ghost prev = hviews(headers@.subrange(0, i as int));
        let h = &headers[i];
        let is_gzip = is_gzip_header(h);
        if is_gzip {
            gzip = true;
        } else if !is_hop_by_hop_name(h.0.as_str()) && !eq_ignore_ascii_case(h.0.as_str(), "content-length") {
            out.push(copy_header(h));
        }
        proof {
            assert(pre.drop_last() =~= prev);
            assert(pre.last() == hview(headers@[i as int]));
            assert(hviews(out@) =~= kept_upstream(pre));
            assert forall|j: int| 0 <= j < prev.len() implies #[trigger] pre[j] == prev[j] by {}
            if gzip {
                if is_gzip {
                    assert(is_gzip_encoding(pre[i as int]));
                } else {
                    let j = choose|j: int| 0 <= j < prev.len() && is_gzip_encoding(#[trigger] prev[j]);
                    assert(pre[j] == prev[j]);
                }
            } else {
                assert forall|j: int| 0 <= j < pre.len() implies !is_gzip_encoding(#[trigger] pre[j]) by {
                    if j < prev.len() {
                        assert(pre[j] == prev[j]);
                    }
                }
            }
        }
        i += 1;
    }
    assert(headers@.subrange(0, i as int) =~= headers@);
    (out, gzip)
}

/// The value of the first header named `lit`.
fn first_header_value<'a>(headers: &'a Vec<(String, Vec<u8>)>, lit: &str) -> (r: Option<&'a Vec<u8>>)
    ensures
        match r {
            Some(v) => first_value(hviews(headers@), lit@) == Some(v@),
            None => first_value(hviews(headers@), lit@) is None,
        },
{
    let mut i: usize = 0;
    assert(hviews(headers@).subrange(0, headers@.len() as int) =~= hviews(headers@));
    while i < headers.len()
        invariant
            i <= headers@.len(),
            first_value(hviews(headers@), lit@) == first_value(hviews(headers@).subrange(i as int, headers@.len() as int), lit@),
        decreases headers@.len() - i,
    {
        let ghost rest = hviews(headers@).subrange(i as int, headers@.len() as int);
        assert(rest[0] == hview(headers@[i as int]));
        if eq_ignore_ascii_case(headers[i].0.as_str(), lit) {
            return Some(&headers[i].1);
        }
        assert(rest.drop_first() =~= hviews(headers@).subrange(i + 1, headers@.len() as int));
        i += 1;
    }
    None
}

/// Whether some header is named `lit`.
fn has_header(headers: &Vec<(String, Vec<u8>)>, lit: &str) -> (r: bool)
    ensures
        r == has_named(hviews(headers@), lit@),
{
    let mut i: usize = 0;
    while i < headers.len()
        invariant
            i <= headers@.len(),
            forall|j: int| 0 <= j < i ==> !named(#[trigger] hviews(headers@)[j].0, lit@),
        decreases headers@.len() - i,
    {
        if eq_ignore_ascii_case(headers[i].0.as_str(), lit) {
            assert(named(hviews(headers@)[i as int].0, lit@));
            return true;
        }
        i += 1;
    }
    false
}

/// Checks an upstream response; see `response_verdict`.
pub fn check_response(status: u16, headers: &Vec<(String, Vec<u8>)>) -> (r: Result<(), ResponseRejection>)
    ensures
        r == response_verdict(status, hviews(headers@)),
{
    if !(200 <= status && status < 300) {
        return Err(ResponseRejection::ErrorStatus(status));
    }
    if has_header(headers, "x-tengine-error") {
        return Err(ResponseRejection::BlockedByWaf);
    }
    if let Some(v) = first_header_value(headers, "content-type") {
        if !contains_bytes(v.as_slice(), "application/json".as_bytes())
            && !contains_bytes(v.as_slice(), "text/event-stream".as_bytes()) {
            return Err(ResponseRejection::NonJsonContentType);
        }
    }
    Ok(())
}

proof fn lemma_kept_inbound(s: Seq<(Seq<char>, Seq<u8>)>)
    ensures
        forall|j: int| 0 <= j < kept_inbound(s).len() ==> !dropped_inbound(#[trigger] kept_inbound(s)[j].0),
    decreases s.len(),
{
    if s.len() > 0 {
        lemma_kept_inbound(s.drop_last());
        let prev = kept_inbound(s.drop_last());
        assert forall|j: int| 0 <= j < kept_inbound(s).len() implies !dropped_inbound(#[trigger] kept_inbound(s)[j].0) by {
            if j < prev.len() {
                assert(kept_inbound(s)[j] == prev[j]);
            }
        }
    }
}

proof fn lemma_kept_upstream(s: Seq<(Seq<char>, Seq<u8>)>)
    ensures
        forall|j: int| 0 <= j < kept_upstream(s).len() ==> !dropped_upstream(#[trigger] kept_upstream(s)[j]) && s.contains(
            kept_upstream(s)[j],
        ),
    decreases s.len(),
{
    if s.len() > 0 {
        let t = s.drop_last();
        lemma_kept_upstream(t);
        let prev = kept_upstream(t);
        assert forall|j: int| 0 <= j < kept_upstream(s).len() implies !dropped_upstream(#[trigger] kept_upstream(s)[j]) && s.contains(
            kept_upstream(s)[j],
        ) by {
            if j < prev.len() {
                assert(kept_upstream(s)[j] == prev[j]);
                let i = choose|i: int| 0 <= i < t.len() && t[i] == prev[j];
                assert(s[i] == t[i]);
            } else {
                assert(kept_upstream(s)[j] == s[s.len() - 1]);
            }
        }
    }
}

/// Hop-by-hop headers and `Content-Length` are never forwarded: not in the
/// headers sent upstream, and not in those passed back to the caller.
pub proof fn law_no_hop_by_hop_forwarded(s: Seq<(Seq<char>, Seq<u8>)>, api_key: Seq<char>)
    ensures
        forall|j: int| 0 <= j < outbound_request_headers(s, api_key).len() ==> !is_hop_by_hop(
            #[trigger] outbound_request_headers(s, api_key)[j].0,
        ) && !named(outbound_request_headers(s, api_key)[j].0, "content-length"@),
        forall|j: int| 0 <= j < kept_upstream(s).len() ==> !is_hop_by_hop(#[trigger] kept_upstream(s)[j].0) && !named(
            kept_upstream(s)[j].0,
            "content-length"@,
        ),
{
    reveal_strlit("authorization");
    reveal_strlit("accept");
    reveal_strlit("connection");
    reveal_strlit("proxy-connection");
    reveal_strlit("keep-alive");
    reveal_strlit("transfer-encoding");
    reveal_strlit("upgrade");
    reveal_strlit("te");
    reveal_strlit("trailers");
    reveal_strlit("content-length");
    lemma_kept_inbound(s);
    lemma_kept_upstream(s);
    let kept = kept_inbound(s);
    let out = outbound_request_headers(s, api_key);
    assert forall|j: int| 0 <= j < out.len() implies !is_hop_by_hop(#[trigger] out[j].0) && !named(out[j].0, "content-length"@) by {
        if j < kept.len() {
            assert(out[j] == kept[j]);
        } else if j == kept.len() {
            assert(out[j].0 == "authorization"@);
        } else {
            assert(out[j].0 == "accept"@);
        }
    }
}

/// A gzip-encoded upstream response is marked for decompression, and when
/// every `Content-Encoding` header it has says `gzip`, none is passed back
/// to the caller.
pub proof fn law_gzip_is_decoded(s: Seq<(Seq<char>, Seq<u8>)>)
    requires
        has_gzip(s),
        forall|i: int| 0 <= i < s.len() && named(#[trigger] s[i].0, "content-encoding"@) ==> is_gzip_encoding(s[i]),
    ensures
        !has_named(kept_upstream(s), "content-encoding"@),
{
    lemma_kept_upstream(s);
    let kept = kept_upstream(s);
    assert forall|j: int| 0 <= j < kept.len() implies !named(#[trigger] kept[j].0, "content-encoding"@) by {
        let i = choose|i: int| 0 <= i < s.len() && s[i] == kept[j];
        if named(kept[j].0, "content-encoding"@) {
            assert(named(s[i].0, "content-encoding"@));
        }
    }
}

} // verus!
