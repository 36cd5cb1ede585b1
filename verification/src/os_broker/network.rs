//! Network endpoints of the OS broker: which URLs a plugin may reach, and the
//! bounds of a fetch request and its response.
use vstd::prelude::*;

use crate::os_broker::{denied, invalid, OsBrokerError};
use crate::plugin_lifecycle::{contains_str, id_set};
use crate::plugin_services::secrets::{parse_url, port_suffix, serialize_origin, url_parts, web_scheme, UrlPartsView};
use crate::text::{ascii_lower, chars_of, lower_char, str_equal, string_from_chars, utf8_len, utf8_length_upto, utf8_within};

verus! {

/// Longest URL accepted, in bytes.
pub const MAX_URL_BYTES: usize = 8192;

/// Most request headers of one fetch.
pub const MAX_FETCH_HEADERS: usize = 32;

/// Most response headers kept.
pub const MAX_RESPONSE_HEADERS: usize = 64;

/// Most bytes of header names and values, on either side.
pub const MAX_HEADER_BYTES: usize = 16384;

/// The scheme is HTTP(S), or WebSocket where allowed.
pub open spec fn allowed_scheme(s: Seq<char>, allow_websocket: bool) -> bool {
    s == "http"@ || s == "https"@ || (allow_websocket && (s == "ws"@ || s == "wss"@))
}

/// The origin a URL's policy is checked against: WebSocket schemes count as
/// their HTTP counterparts.
pub open spec fn policy_origin(u: UrlPartsView) -> Seq<char> {
    web_scheme(u.scheme) + seq![':', '/', '/'] + u.host->0 + port_suffix(u.port)
}

/// Why a URL may not be reached, as error code and message, in the order
/// checked; else the URL as parsed and its origin.
pub open spec fn spec_authorized_url(url: Seq<char>, granted: Seq<Seq<char>>, allow_websocket: bool) -> Result<
    (Seq<char>, Seq<char>),
    (Seq<char>, Seq<char>),
> {
    if utf8_len(url) > MAX_URL_BYTES {
        Err(("invalid_params"@, "network URL exceeds 8192 bytes"@))
    } else {
        match url_parts(url) {
            None => Err(("invalid_params"@, "network access requires an absolute HTTP(S) URL"@)),
            Some(u) => if !allowed_scheme(u.scheme, allow_websocket) || u.host is None || u.username.len() > 0
                || u.password is Some || u.fragment is Some {
                Err(
                    (
                        "invalid_params"@,
                        "network URL must use HTTP(S) or an allowed WebSocket scheme, without credentials or fragment"@,
                    ),
                )
            } else if !granted.contains(policy_origin(u)) {
                Err(("policy_denied"@, "URL origin was not explicitly granted"@))
            } else {
                Ok((u.href, policy_origin(u)))
            },
        }
    }
}

/// The URL a plugin asked to reach, serialised, and its origin, when its
/// policy grants that origin.
pub fn authorized_url(url: &str, granted: &Vec<String>, allow_websocket: bool) -> (r: Result<(String, String), OsBrokerError>)
    ensures
        match spec_authorized_url(url@, granted.deep_view(), allow_websocket) {
            Ok((href, origin)) => r matches Ok(x) && x.0@ == href && x.1@ == origin,
            Err((code, message)) => r matches Err(e) && e.code@ == code && e.message@ == message,
        },
{
    let v = chars_of(url);
    if !utf8_within(v.as_slice(), MAX_URL_BYTES) {
        return Err(invalid("network URL exceeds 8192 bytes"));
    }
    let u = match parse_url(url) {
        Some(u) => u,
        None => return Err(invalid("network access requires an absolute HTTP(S) URL")),
    };
    proof {
        reveal_strlit("ws");
        reveal_strlit("wss");
        reveal_strlit("http");
        reveal_strlit("https");
        assert("ws"@ =~= seq!['w', 's']);
        assert("wss"@ =~= seq!['w', 's', 's']);
        assert("http"@ =~= seq!['h', 't', 't', 'p']);
        assert("https"@ =~= seq!['h', 't', 't', 'p', 's']);
    }
    let scheme = u.scheme.as_str();
    let is_ws = str_equal(scheme, "ws");
    let is_wss = str_equal(scheme, "wss");
    let scheme_ok = str_equal(scheme, "http") || str_equal(scheme, "https") || (allow_websocket && (is_ws || is_wss));
    let host = match &u.host {
        Some(h) => h,
        None => {
            return Err(invalid(
                "network URL must use HTTP(S) or an allowed WebSocket scheme, without credentials or fragment",
            ))
        },
    };
    if !scheme_ok || u.username.as_str().unicode_len() > 0 || u.password.is_some() || u.fragment.is_some() {
        return Err(invalid(
            "network URL must use HTTP(S) or an allowed WebSocket scheme, without credentials or fragment",
        ));
    }
    let web: Vec<char> = if is_ws {
        vec!['h', 't', 't', 'p']
    } else if is_wss {
        vec!['h', 't', 't', 'p', 's']
    } else {
        chars_of(scheme)
    };
    proof {
        assert(web@ =~= web_scheme(u@.scheme));
    }
    let origin = serialize_origin(web.as_slice(), host.as_str(), u.port);
    proof {
        assert(origin@ =~= policy_origin(u@));
    }
    if contains_str(granted, origin.as_str()) {
        proof {
            assert(granted.deep_view() =~= granted@.map_values(|s: String| s@));
        }
        Ok((u.href, origin))
    } else {
        proof {
            assert(granted.deep_view() =~= granted@.map_values(|s: String| s@));
        }
        Err(denied("URL origin was not explicitly granted"))
    }
}

/// The method of a fetch: GET unless HEAD is asked for; answers whether it
/// is HEAD.
pub fn fetch_is_head(method: Option<&str>) -> (r: Result<bool, OsBrokerError>)
    ensures
        match method {
            None => r == Ok::<bool, OsBrokerError>(false),
            Some(m) => if m@ == "GET"@ {
                r == Ok::<bool, OsBrokerError>(false)
            } else if m@ == "HEAD"@ {
                r == Ok::<bool, OsBrokerError>(true)
            } else {
                r matches Err(e) && e.code@ == "invalid_params"@ && e.message@ == "fetch supports GET or HEAD"@
            },
        },
{
    match method {
        None => Ok(false),
        Some(m) => if str_equal(m, "GET") {
            Ok(false)
        } else if str_equal(m, "HEAD") {
            Ok(true)
        } else {
            Err(invalid("fetch supports GET or HEAD"))
        },
    }
}

/// The bytes of a header list's names and values.
pub open spec fn header_bytes(hs: Seq<(Seq<char>, Seq<char>)>) -> int
    decreases hs.len(),
{
    if hs.len() == 0 {
        0
    } else {
        header_bytes(hs.drop_last()) + utf8_len(hs.last().0) + utf8_len(hs.last().1)
    }
}

proof fn lemma_header_bytes_grow(hs: Seq<(Seq<char>, Seq<char>)>, k: int)
    requires
        0 <= k <= hs.len(),
    ensures
        header_bytes(hs.take(k)) <= header_bytes(hs),
    decreases hs.len() - k,
{
    if k < hs.len() {
        lemma_header_bytes_grow(hs, k + 1);
        assert(hs.take(k + 1).drop_last() =~= hs.take(k));
    } else {
        assert(hs.take(k) =~= hs);
    }
}

/// The views of headers.
pub open spec fn header_views(v: Seq<(String, String)>) -> Seq<(Seq<char>, Seq<char>)> {
    v.map_values(|h: (String, String)| (h.0@, h.1@))
}

/// Refuses a fetch with more than 32 headers or more than 16 KiB of header
/// names and values.
pub fn check_fetch_headers(headers: &Vec<(String, String)>) -> (r: Result<(), OsBrokerError>)
    ensures
        r is Ok <==> (headers@.len() <= MAX_FETCH_HEADERS && header_bytes(header_views(headers@)) <= MAX_HEADER_BYTES),
        r matches Err(e) ==> e.code@ == "invalid_params"@ && e.message@ == "fetch request headers exceed their bound"@,
{
    let ghost hs = header_views(headers@);
    if headers.len() > MAX_FETCH_HEADERS {
        return Err(invalid("fetch request headers exceed their bound"));
    }
    let mut total: usize = 0;
    let mut i: usize = 0;
    proof {
        assert(hs.take(0) =~= Seq::<(Seq<char>, Seq<char>)>::empty());
    }
    while i < headers.len()
        invariant
            i <= headers@.len() <= MAX_FETCH_HEADERS,
            hs == header_views(headers@),
            total == header_bytes(hs.take(i as int)),
            total <= MAX_HEADER_BYTES,
        decreases headers@.len() - i,
    {
        let name = chars_of(headers[i].0.as_str());
        let value = chars_of(headers[i].1.as_str());
        proof {
            assert(hs.take(i + 1).drop_last() =~= hs.take(i as int));
            assert(hs.take(i + 1).last() == hs[i as int]);
        }
        let n = match utf8_length_upto(name.as_slice(), MAX_HEADER_BYTES - total) {
            Some(n) => n,
            None => {
                proof {
                    lemma_header_bytes_grow(hs, i + 1);
                }
                return Err(invalid("fetch request headers exceed their bound"));
            },
        };
        let m = match utf8_length_upto(value.as_slice(), MAX_HEADER_BYTES - total - n) {
            Some(m) => m,
            None => {
                proof {
                    lemma_header_bytes_grow(hs, i + 1);
                }
                return Err(invalid("fetch request headers exceed their bound"));
            },
        };
        total = total + n + m;
        i = i + 1;
    }
    proof {
        assert(hs.take(headers@.len() as int) =~= hs);
    }
    Ok(())
}

/// A header that would override routing, proxying or hop-by-hop framing.
pub open spec fn spec_forbidden_header(name: Seq<char>) -> bool {
    let n = name.map_values(|c: char| ascii_lower(c));
    n == "host"@ || n == "connection"@ || n == "proxy-authorization"@ || n == "proxy-connection"@ || n == "upgrade"@
        || n == "transfer-encoding"@ || n == "content-length"@
}

/// Refuses a request header a plugin may not set.
pub fn check_header_name(name: &str) -> (r: Result<(), OsBrokerError>)
    ensures
        r is Ok <==> !spec_forbidden_header(name@),
        r matches Err(e) ==> e.code@ == "invalid_params"@ && e.message@
            == "fetch does not accept routing, proxy or hop-by-hop header overrides"@,
{
    let v = chars_of(name);
    let mut lower: Vec<char> = Vec::new();
    let mut i: usize = 0;
    while i < v.len()
        invariant
            i <= v@.len(),
            v@ == name@,
            lower@ == v@.take(i as int).map_values(|c: char| ascii_lower(c)),
        decreases v@.len() - i,
    {
        lower.push(lower_char(v[i]));
        i = i + 1;
        proof {
            assert(lower@ =~= v@.take(i as int).map_values(|c: char| ascii_lower(c)));
        }
    }
    proof {
        assert(v@.take(v@.len() as int) =~= v@);
    }
    let l = string_from_chars(lower.as_slice());
    let s = l.as_str();
    if str_equal(s, "host") || str_equal(s, "connection") || str_equal(s, "proxy-authorization") || str_equal(
        s,
        "proxy-connection",
    ) || str_equal(s, "upgrade") || str_equal(s, "transfer-encoding") || str_equal(s, "content-length") {
        return Err(invalid("fetch does not accept routing, proxy or hop-by-hop header overrides"));
    }
    Ok(())
}

/// Refuses a response whose declared length exceeds the limit; HEAD
/// responses carry no body.
pub fn check_content_length(head: bool, content_length: Option<u64>, limit: usize) -> (r: Result<(), OsBrokerError>)
    ensures
        r is Ok <==> (head || !(content_length matches Some(n) && n > limit)),
        r matches Err(e) ==> e.code@ == "response_too_large"@ && e.message@ == "HTTP response exceeds the requested byte limit"@,
{
    match content_length {
        Some(n) => if !head && n > limit as u64 {
            return Err(OsBrokerError::new("response_too_large", "HTTP response exceeds the requested byte limit"));
        },
        None => {},
    }
    Ok(())
}

/// Refuses response headers beyond 64 entries or 16 KiB: a header arrives
/// when `kept` headers are already kept and, counting it, `bytes` bytes of
/// names and values have been seen.
pub fn check_response_header(kept: usize, bytes: usize) -> (r: Result<(), OsBrokerError>)
    ensures
        r is Ok <==> (kept < MAX_RESPONSE_HEADERS && bytes <= MAX_HEADER_BYTES),
        r matches Err(e) ==> e.code@ == "response_too_large"@ && e.message@ == "response headers exceed their bound"@,
{
    if kept >= MAX_RESPONSE_HEADERS || bytes > MAX_HEADER_BYTES {
        return Err(OsBrokerError::new("response_too_large", "response headers exceed their bound"));
    }
    Ok(())
}

/// Refuses a body chunk that would take the body past the limit.
pub fn check_body_chunk(received: usize, chunk: usize, limit: usize) -> (r: Result<(), OsBrokerError>)
    ensures
        r is Ok <==> received + chunk <= limit,
        r matches Err(e) ==> e.code@ == "response_too_large"@ && e.message@ == "HTTP response exceeds the requested byte limit"@,
{
    if chunk > limit || received > limit - chunk {
        return Err(OsBrokerError::new("response_too_large", "HTTP response exceeds the requested byte limit"));
    }
    Ok(())
}

} // verus!
