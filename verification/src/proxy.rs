//! The rules of the streaming proxy: which request headers go upstream,
//! which response headers come back, which responses get the long-lived
//! cache policy, and which status an error becomes.
//!
//! Both directions use an allow-list. A request to a signed URL carries
//! only the headers named in [`FORWARD_HEADERS`]; a response carries only
//! the upstream headers named in [`PRESERVE_HEADERS`], a `Content-Type`
//! guessed from the key when upstream sent none, and, on success and for
//! keys that are no HTML documents, the cache policy of
//! [`CACHE_CONTROL_VALUE`].

use vstd::prelude::*;
use vstd::string::*;
use vstd::utf8::encode_utf8;
use crate::text::eq_ignore_ascii_case;
use crate::path::{extension, key_extension, str_views};
use crate::mime::{guess_mime_type, media_type_of};
use crate::headers::{
    clone_headers, contains_header, has_header, header_views, is_listed, keep_listed,
    law_select_is_sound, listed, Header,
};

verus! {

/// The request headers that are sent upstream: content negotiation,
/// conditional requests, ranges, and the user agent.
pub const FORWARD_HEADERS: [&'static str; 8] = [
    "accept",
    "accept-encoding",
    "range",
    "if-match",
    "if-none-match",
    "if-modified-since",
    "if-unmodified-since",
    "user-agent",
];

/// The upstream response headers that are handed on to the client.
pub const PRESERVE_HEADERS: [&'static str; 12] = [
    "accept-ranges",
    "cache-control",
    "content-disposition",
    "content-encoding",
    "content-language",
    "content-length",
    "content-range",
    "content-type",
    "etag",
    "expires",
    "last-modified",
    "vary",
];

/// The extensions whose responses never get the cache policy.
pub const NO_CACHE_EXTS: [&'static str; 2] = ["html", "htm"];

/// The cache policy of cacheable responses: thirty days.
pub const CACHE_CONTROL_VALUE: &'static str = "public, max-age=2592000";

/// Name of the header that carries the cache policy.
pub const CACHE_CONTROL: &'static str = "cache-control";

/// Name of the header that carries the media type.
pub const CONTENT_TYPE: &'static str = "content-type";

/// The names of [`FORWARD_HEADERS`].
pub open spec fn forward_header_names() -> Seq<Seq<char>> {
    seq![
        "accept"@,
        "accept-encoding"@,
        "range"@,
        "if-match"@,
        "if-none-match"@,
        "if-modified-since"@,
        "if-unmodified-since"@,
        "user-agent"@,
    ]
}

/// The names of [`PRESERVE_HEADERS`].
pub open spec fn preserve_header_names() -> Seq<Seq<char>> {
    seq![
        "accept-ranges"@,
        "cache-control"@,
        "content-disposition"@,
        "content-encoding"@,
        "content-language"@,
        "content-length"@,
        "content-range"@,
        "content-type"@,
        "etag"@,
        "expires"@,
        "last-modified"@,
        "vary"@,
    ]
}

/// The extension is `html` or `htm`, in any mix of upper and lower case.
pub open spec fn no_cache_extension(ext: Seq<char>) -> bool {
    eq_ignore_ascii_case(ext, "html"@) || eq_ignore_ascii_case(ext, "htm"@)
}

/// The status is one of success: 200 to 299.
pub open spec fn is_success(status: u16) -> bool {
    200 <= status <= 299
}

/// Responses for this key may get the cache policy: its extension, if it
/// has one, is not excluded.
pub open spec fn cacheable_key(key: Seq<char>) -> bool {
    match extension(key) {
        Some(ext) => !no_cache_extension(ext),
        None => true,
    }
}

/// The response gets the cache policy: it is a success, and for a key that
/// may be cached.
pub open spec fn gets_cache_policy(status: u16, key: Seq<char>) -> bool {
    is_success(status) && cacheable_key(key)
}

/// The headers of the response to the client, from the upstream response.
pub open spec fn response_headers_spec(
    status: u16,
    upstream: Seq<(Seq<char>, Seq<u8>)>,
    key: Seq<char>,
) -> Seq<(Seq<char>, Seq<u8>)> {
    let kept = keep_listed(upstream, preserve_header_names());
    let typed = if has_header(upstream, "content-type"@) {
        kept
    } else {
        match media_type_of(key) {
            Some(media_type) => kept.push(("content-type"@, encode_utf8(media_type))),
            None => kept,
        }
    };
    if gets_cache_policy(status, key) {
        typed.push(("cache-control"@, encode_utf8("public, max-age=2592000"@)))
    } else {
        typed
    }
}

/// Whether responses for files of this extension get the cache policy: all
/// but `html` and `htm`, whatever their case. The empty extension does.
pub fn should_cache(ext: &str) -> (cache: bool)
    ensures
        cache == !no_cache_extension(ext@),
{
    let excluded = is_listed(ext, NO_CACHE_EXTS.as_slice());
    proof {
        let names = str_views(NO_CACHE_EXTS@);
        assert(names[0] == "html"@);
        assert(names[1] == "htm"@);
        if no_cache_extension(ext@) {
            assert(eq_ignore_ascii_case(ext@, names[0]) || eq_ignore_ascii_case(ext@, names[1]));
        }
    }
    !excluded
}

/// Whether the status is one of success.
pub fn status_is_success(status: u16) -> (r: bool)
    ensures
        r == is_success(status),
{
    200 <= status && status <= 299
}

/// The cache policy that the response for a key gets, if it gets one.
pub fn cache_control_for(status: u16, key: &str) -> (policy: Option<&'static str>)
    ensures
        policy is Some == gets_cache_policy(status, key@),
        policy is Some ==> policy->0@ == "public, max-age=2592000"@,
{
    if !status_is_success(status) {
        return None;
    }
    let cacheable = match key_extension(key) {
        Some(ext) => should_cache(ext.as_str()),
        None => true,
    };
    if cacheable {
        Some(CACHE_CONTROL_VALUE)
    } else {
        None
    }
}

/// The headers of an inbound request that are sent upstream: those on the
/// allow-list of [`FORWARD_HEADERS`], and no others.
pub fn forward_headers(inbound: &Vec<Header>) -> (outbound: Vec<Header>)
    ensures
        header_views(outbound@) == keep_listed(header_views(inbound@), forward_header_names()),
{
    assert(str_views(FORWARD_HEADERS@) =~= forward_header_names());
    clone_headers(inbound, FORWARD_HEADERS.as_slice())
}

/// The headers of the response to the client: the upstream headers on the
/// allow-list of [`PRESERVE_HEADERS`]; then, if upstream sent no
/// `Content-Type`, the media type guessed from the key, if there is a
/// guess; then, on success and for a key that may be cached, the cache
/// policy.
pub fn response_headers(status: u16, upstream: &Vec<Header>, key: &str) -> (headers: Vec<Header>)
    ensures
        header_views(headers@) == response_headers_spec(status, header_views(upstream@), key@),
{
    assert(str_views(PRESERVE_HEADERS@) =~= preserve_header_names());
    let mut headers = clone_headers(upstream, PRESERVE_HEADERS.as_slice());
    if !contains_header(upstream, CONTENT_TYPE) {
        if let Some(media_type) = guess_mime_type(key) {
            let ghost before = header_views(headers@);
            let header = Header {
                name: String::from_str(CONTENT_TYPE),
                value: media_type.as_str().as_bytes_vec(),
            };
            headers.push(header);
            assert(header_views(headers@) =~= before.push(
                ("content-type"@, encode_utf8(media_type@)),
            ));
        }
    }
    if let Some(policy) = cache_control_for(status, key) {
        let ghost before = header_views(headers@);
        let header = Header { name: String::from_str(CACHE_CONTROL), value: policy.as_bytes_vec() };
        headers.push(header);
        assert(header_views(headers@) =~= before.push(
            ("cache-control"@, encode_utf8("public, max-age=2592000"@)),
        ));
    }
    headers
}

/// Why a request could not be served.
#[derive(Clone, Copy, Debug, PartialEq, Eq, Structural)]
pub enum ProxyError {
    /// No candidate of the request path exists in the store.
    NotFound,
    /// The store or the signed URL could not be reached.
    UpstreamUnreachable,
    /// No signed URL could be made for the key.
    SigningFailure,
    /// The response to the client could not be put together.
    ResponseBuildFailure,
}

impl ProxyError {
    /// The status that the error has as a number.
    pub open spec fn status(self) -> u16 {
        match self {
            ProxyError::NotFound => 404,
            ProxyError::UpstreamUnreachable => 502,
            ProxyError::SigningFailure => 500,
            ProxyError::ResponseBuildFailure => 500,
        }
    }

    /// The status that the client receives for the error.
    pub fn status_code(&self) -> (status: u16)
        ensures
            status == self.status(),
            !is_success(status),
    {
        match self {
            ProxyError::NotFound => 404,
            ProxyError::UpstreamUnreachable => 502,
            ProxyError::SigningFailure => 500,
            ProxyError::ResponseBuildFailure => 500,
        }
    }

    /// The message that the client receives for the error: the name of the
    /// status, and nothing of the cause.
    pub fn client_message(&self) -> (message: &'static str)
        ensures
            message@ == match self.status() {
                404u16 => "Not Found"@,
                502u16 => "Bad Gateway"@,
                _ => "Internal Server Error"@,
            },
    {
        match self {
            ProxyError::NotFound => "Not Found",
            ProxyError::UpstreamUnreachable => "Bad Gateway",
            ProxyError::SigningFailure => "Internal Server Error",
            ProxyError::ResponseBuildFailure => "Internal Server Error",
        }
    }
}

/// An extension is excluded from the cache policy exactly when it is `html`
/// or `htm` in some mix of cases; every other extension, the empty one
/// among them, is cached.
pub proof fn law_should_cache(ext: Seq<char>)
    ensures
        no_cache_extension(ext) <==> listed(ext, seq!["html"@, "htm"@]),
        ext.len() == 0 ==> !no_cache_extension(ext),
        ext.len() != 3 && ext.len() != 4 ==> !no_cache_extension(ext),
        ext == "html"@ || ext == "HTML"@ || ext == "Html"@ ==> no_cache_extension(ext),
        ext == "htm"@ || ext == "HTM"@ ==> no_cache_extension(ext),
{
    reveal_strlit("html");
    reveal_strlit("HTML");
    reveal_strlit("Html");
    reveal_strlit("htm");
    reveal_strlit("HTM");
    let names = seq!["html"@, "htm"@];
    assert(names[0] == "html"@);
    assert(names[1] == "htm"@);
}

/// A response for an HTML document never gets the cache policy, whatever
/// the status; nor does a response whose status is no success, whatever
/// the key.
pub proof fn law_html_is_never_cached(status: u16, key: Seq<char>)
    ensures
        (extension(key) matches Some(ext) && no_cache_extension(ext)) ==> !gets_cache_policy(
            status,
            key,
        ),
        !is_success(status) ==> !gets_cache_policy(status, key),
{
}

/// A response that does not get the cache policy carries a `Cache-Control`
/// only if upstream sent one.
pub proof fn law_no_policy_no_cache_control(
    status: u16,
    upstream: Seq<(Seq<char>, Seq<u8>)>,
    key: Seq<char>,
)
    requires
        !gets_cache_policy(status, key),
        !has_header(upstream, "cache-control"@),
    ensures
        !has_header(response_headers_spec(status, upstream, key), "cache-control"@),
{
    reveal_strlit("cache-control");
    reveal_strlit("content-type");
    let headers = response_headers_spec(status, upstream, key);
    let kept = keep_listed(upstream, preserve_header_names());
    assert forall|i: int| 0 <= i < headers.len() implies !eq_ignore_ascii_case(
        (#[trigger] headers[i]).0,
        "cache-control"@,
    ) by {
        if i < kept.len() {
            law_select_is_sound(upstream, preserve_header_names(), true, i);
            let j = choose|j: int| 0 <= j < upstream.len() && upstream[j] == kept[i];
            assert(!eq_ignore_ascii_case(upstream[j].0, "cache-control"@));
        } else {
            assert(headers[i].0 == "content-type"@);
            assert("content-type"@.len() != "cache-control"@.len());
        }
    }
}

/// Every header of a response is vetted: it is an upstream header whose
/// name is on the allow-list, or the guessed media type, present only when
/// upstream sent no `Content-Type`, or the cache policy, present only when
/// the response gets it.
pub proof fn law_response_headers_are_vetted(
    status: u16,
    upstream: Seq<(Seq<char>, Seq<u8>)>,
    key: Seq<char>,
    i: int,
)
    requires
        0 <= i < response_headers_spec(status, upstream, key).len(),
    ensures
        ({
            let header = response_headers_spec(status, upstream, key)[i];
            ||| upstream.contains(header) && listed(header.0, preserve_header_names())
            ||| !has_header(upstream, "content-type"@) && media_type_of(key) is Some && header == (
                "content-type"@,
                encode_utf8(media_type_of(key)->0),
            )
            ||| gets_cache_policy(status, key) && header == (
                "cache-control"@,
                encode_utf8("public, max-age=2592000"@),
            )
        }),
{
    let kept = keep_listed(upstream, preserve_header_names());
    if i < kept.len() {
        law_select_is_sound(upstream, preserve_header_names(), true, i);
    }
}

} // verus!
