use static_server::headers::Header;
use static_server::passthrough::{
    compatible_mode_url, compatible_request_headers, compatible_response_headers,
    request_headers, response_headers, target_url, with_bearer_token,
    COMPATIBLE_FORWARD_HEADERS, REQUEST_HEADERS_BLOCKLIST, RESPONSE_HEADERS_BLOCKLIST,
};

fn header(name: &str, value: &str) -> Header {
    Header::new(name, value.as_bytes())
}

fn names(headers: &[Header]) -> Vec<String> {
    headers.iter().map(|h| h.name.clone()).collect()
}

#[test]
fn target_url_appends_the_query_behind_a_question_mark() {
    assert_eq!(target_url("https://api.example/models", None), "https://api.example/models");
    assert_eq!(
        target_url("https://api.example/chat", Some("stream=true")),
        "https://api.example/chat?stream=true"
    );
    assert_eq!(target_url("https://api.example/chat", Some("")), "https://api.example/chat?");
}

#[test]
fn compatible_mode_url_keeps_path_and_query() {
    assert_eq!(
        compatible_mode_url("/compatible-mode/v1/chat?x=1"),
        "https://dashscope.aliyuncs.com/compatible-mode/v1/chat?x=1"
    );
}

#[test]
fn deny_lists_hold_the_documented_names() {
    assert_eq!(REQUEST_HEADERS_BLOCKLIST.len(), 10);
    assert_eq!(RESPONSE_HEADERS_BLOCKLIST.len(), 17);
    assert_eq!(COMPATIBLE_FORWARD_HEADERS.len(), 21);
    assert!(REQUEST_HEADERS_BLOCKLIST.contains(&"host"));
    assert!(REQUEST_HEADERS_BLOCKLIST.contains(&"cookie"));
    assert!(!REQUEST_HEADERS_BLOCKLIST.contains(&"authorization"));
    assert!(RESPONSE_HEADERS_BLOCKLIST.contains(&"set-cookie"));
    assert!(RESPONSE_HEADERS_BLOCKLIST.contains(&"access-control-allow-origin"));
    assert!(!RESPONSE_HEADERS_BLOCKLIST.contains(&"content-type"));
}

#[test]
fn pass_through_request_loses_connection_and_origin_headers() {
    let inbound = vec![
        header("Host", "localhost:3000"),
        header("Authorization", "Bearer abc"),
        header("Content-Type", "application/json"),
        header("Cookie", "a=b"),
        header("Origin", "http://localhost:3000"),
        header("X-Request-Id", "7"),
    ];
    assert_eq!(
        names(&request_headers(&inbound)),
        vec!["Authorization", "Content-Type", "X-Request-Id"]
    );
}

#[test]
fn pass_through_response_loses_cors_and_cache_headers() {
    let upstream = vec![
        header("content-type", "application/json"),
        header("access-control-allow-origin", "*"),
        header("Cache-Control", "no-store"),
        header("x-ratelimit-remaining", "9"),
        header("Set-Cookie", "s=1"),
        header("Vary", "origin"),
    ];
    assert_eq!(names(&response_headers(&upstream)), vec!["content-type", "x-ratelimit-remaining"]);
}

#[test]
fn compatible_mode_filters_by_allow_list() {
    let inbound = vec![
        header("Host", "localhost"),
        header("Authorization", "Bearer abc"),
        header("Content-Type", "application/json"),
        header("X-Request-Id", "7"),
    ];
    assert_eq!(names(&compatible_request_headers(&inbound)), vec!["Authorization", "Content-Type"]);
    let upstream = vec![header("server", "x"), header("Content-Type", "text/event-stream")];
    assert_eq!(names(&compatible_response_headers(&upstream)), vec!["Content-Type"]);
}

#[test]
fn bearer_token_is_added_only_where_credentials_are_missing() {
    let bare = with_bearer_token(vec![header("accept", "*/*")], "secret");
    assert_eq!(bare, vec![header("accept", "*/*"), header("authorization", "Bearer secret")]);

    let own = with_bearer_token(vec![header("Authorization", "Bearer mine")], "secret");
    assert_eq!(own, vec![header("Authorization", "Bearer mine")]);

    let empty = with_bearer_token(Vec::new(), "");
    assert_eq!(empty, vec![header("authorization", "Bearer ")]);
}
