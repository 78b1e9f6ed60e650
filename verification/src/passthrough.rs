//! The rules of the plain pass-through routes, which hand a request on to
//! an upstream service and its response back.
//!
//! These routes sign nothing. Most filter by deny-list: a request loses the
//! headers that belong to the connection or to the caller's origin, a
//! response loses those that the server sets itself. A route that speaks
//! for the server adds its own credentials where the caller sent none. The
//! compatible-mode route filters by allow-list in both directions.

use vstd::prelude::*;
use vstd::string::*;
use vstd::utf8::encode_utf8;
use crate::headers::{
    clone_headers, contains_header, drop_listed, filter_headers_blacklist, has_header,
    header_views, keep_listed, Header,
};
use crate::path::str_views;
use crate::proxy::{preserve_header_names, PRESERVE_HEADERS};

verus! {

/// The request headers that are not handed on.
pub const REQUEST_HEADERS_BLOCKLIST: [&'static str; 10] = [
    "host",
    "connection",
    "te",
    "trailer",
    "transfer-encoding",
    "upgrade",
    "origin",
    "referer",
    "proxy-authorization",
    "cookie",
];

/// The response headers that are not handed back.
pub const RESPONSE_HEADERS_BLOCKLIST: [&'static str; 17] = [
    "connection",
    "te",
    "trailer",
    "transfer-encoding",
    "upgrade",
    "access-control-allow-origin",
    "access-control-allow-methods",
    "access-control-allow-headers",
    "access-control-allow-credentials",
    "access-control-expose-headers",
    "access-control-max-age",
    "vary",
    "set-cookie",
    "cache-control",
    "expires",
    "age",
    "pragma",
];

/// The request headers that the compatible-mode route hands on.
pub const COMPATIBLE_FORWARD_HEADERS: [&'static str; 21] = [
    "accept",
    "accept-charset",
    "accept-encoding",
    "accept-language",
    "authorization",
    "proxy-authorization",
    "content-type",
    "content-length",
    "content-encoding",
    "content-language",
    "user-agent",
    "referer",
    "if-match",
    "if-none-match",
    "if-modified-since",
    "if-unmodified-since",
    "range",
    "if-range",
    "cache-control",
    "pragma",
    "cookie",
];

/// The service that the compatible-mode route hands requests on to.
pub const COMPATIBLE_MODE_ORIGIN: &'static str = "https://dashscope.aliyuncs.com";

/// Name of the header that carries the credentials.
pub const AUTHORIZATION: &'static str = "authorization";

/// The names of [`REQUEST_HEADERS_BLOCKLIST`].
pub open spec fn blocked_request_names() -> Seq<Seq<char>> {
    seq![
        "host"@,
        "connection"@,
        "te"@,
        "trailer"@,
        "transfer-encoding"@,
        "upgrade"@,
        "origin"@,
        "referer"@,
        "proxy-authorization"@,
        "cookie"@,
    ]
}

/// The names of [`RESPONSE_HEADERS_BLOCKLIST`].
pub open spec fn blocked_response_names() -> Seq<Seq<char>> {
    seq![
        "connection"@,
        "te"@,
        "trailer"@,
        "transfer-encoding"@,
        "upgrade"@,
        "access-control-allow-origin"@,
        "access-control-allow-methods"@,
        "access-control-allow-headers"@,
        "access-control-allow-credentials"@,
        "access-control-expose-headers"@,
        "access-control-max-age"@,
        "vary"@,
        "set-cookie"@,
        "cache-control"@,
        "expires"@,
        "age"@,
        "pragma"@,
    ]
}

/// The names of [`COMPATIBLE_FORWARD_HEADERS`].
pub open spec fn compatible_forward_names() -> Seq<Seq<char>> {
    seq![
        "accept"@,
        "accept-charset"@,
        "accept-encoding"@,
        "accept-language"@,
        "authorization"@,
        "proxy-authorization"@,
        "content-type"@,
        "content-length"@,
        "content-encoding"@,
        "content-language"@,
        "user-agent"@,
        "referer"@,
        "if-match"@,
        "if-none-match"@,
        "if-modified-since"@,
        "if-unmodified-since"@,
        "range"@,
        "if-range"@,
        "cache-control"@,
        "pragma"@,
        "cookie"@,
    ]
}

/// The URL to call: the target, and the query behind a question mark where
/// there is one.
pub open spec fn target_url_spec(target: Seq<char>, query: Option<Seq<char>>) -> Seq<char> {
    match query {
        Some(q) => target + "?"@ + q,
        None => target,
    }
}

/// The headers with the server's bearer token, unless they hold
/// credentials already.
pub open spec fn with_bearer_token_spec(
    headers: Seq<(Seq<char>, Seq<u8>)>,
    token: Seq<char>,
) -> Seq<(Seq<char>, Seq<u8>)> {
    if has_header(headers, "authorization"@) {
        headers
    } else {
        headers.push(("authorization"@, encode_utf8("Bearer "@ + token)))
    }
}

/// The URL to call for a target and the query of the inbound request.
pub fn target_url(target: &str, query: Option<&str>) -> (url: String)
    ensures
        url@ == target_url_spec(
            target@,
            match query {
                Some(q) => Some(q@),
                None => None,
            },
        ),
{
    match query {
        Some(q) => String::from_str(target).concat("?").concat(q),
        None => String::from_str(target),
    }
}

/// The headers of an inbound request that are handed on.
pub fn request_headers(inbound: &Vec<Header>) -> (outbound: Vec<Header>)
    ensures
        header_views(outbound@) == drop_listed(header_views(inbound@), blocked_request_names()),
{
    assert(str_views(REQUEST_HEADERS_BLOCKLIST@) =~= blocked_request_names());
    filter_headers_blacklist(inbound, REQUEST_HEADERS_BLOCKLIST.as_slice())
}

/// The headers of an upstream response that are handed back.
pub fn response_headers(upstream: &Vec<Header>) -> (headers: Vec<Header>)
    ensures
        header_views(headers@) == drop_listed(header_views(upstream@), blocked_response_names()),
{
    assert(str_views(RESPONSE_HEADERS_BLOCKLIST@) =~= blocked_response_names());
    filter_headers_blacklist(upstream, RESPONSE_HEADERS_BLOCKLIST.as_slice())
}

/// The URL that the compatible-mode route calls for the path and query of
/// the inbound request.
pub fn compatible_mode_url(path_and_query: &str) -> (url: String)
    ensures
        url@ == "https://dashscope.aliyuncs.com"@ + path_and_query@,
{
    String::from_str(COMPATIBLE_MODE_ORIGIN).concat(path_and_query)
}

/// The headers of an inbound request that the compatible-mode route hands
/// on: those on the allow-list of [`COMPATIBLE_FORWARD_HEADERS`].
pub fn compatible_request_headers(inbound: &Vec<Header>) -> (outbound: Vec<Header>)
    ensures
        header_views(outbound@) == keep_listed(header_views(inbound@), compatible_forward_names()),
{
    assert(str_views(COMPATIBLE_FORWARD_HEADERS@) =~= compatible_forward_names());
    clone_headers(inbound, COMPATIBLE_FORWARD_HEADERS.as_slice())
}

/// The headers of an upstream response that the compatible-mode route
/// hands back: those on the allow-list of [`PRESERVE_HEADERS`].
pub fn compatible_response_headers(upstream: &Vec<Header>) -> (headers: Vec<Header>)
    ensures
        header_views(headers@) == keep_listed(header_views(upstream@), preserve_header_names()),
{
    assert(str_views(PRESERVE_HEADERS@) =~= preserve_header_names());
    clone_headers(upstream, PRESERVE_HEADERS.as_slice())
}

/// Adds the server's bearer token to headers that hold no credentials;
/// credentials that the caller sent are left as they are.
pub fn with_bearer_token(headers: Vec<Header>, token: &str) -> (authorized: Vec<Header>)
    ensures
        header_views(authorized@) == with_bearer_token_spec(header_views(headers@), token@),
{
    if contains_header(&headers, AUTHORIZATION) {
        headers
    } else {
        let mut authorized = headers;
        let ghost before = header_views(authorized@);
        let value = String::from_str("Bearer ").concat(token);
        let header = Header {
            name: String::from_str(AUTHORIZATION),
            value: value.as_str().as_bytes_vec(),
        };
        authorized.push(header);
        assert(header_views(authorized@) =~= before.push(
            ("authorization"@, encode_utf8("Bearer "@ + token@)),
        ));
        authorized
    }
}

} // verus!
