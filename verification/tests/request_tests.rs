use cyberapi::cookies::{save_cookie_store, CookieJar};
use cyberapi::error::ErrorKind;
use cyberapi::http_request::{
    add_cookies, build_request, cookie_header_value, declare_headers, decode_body, draft_request,
    find_header, request_with_cookies, resolve_url, set_header, HTTPRequest, HTTPRequestKVParam,
    Method, RequestTimeout,
};

fn kv(key: &str, value: &str, enabled: bool) -> HTTPRequestKVParam {
    HTTPRequestKVParam { key: key.to_string(), value: value.to_string(), enabled }
}

fn get(uri: &str) -> HTTPRequest {
    HTTPRequest {
        method: "GET".to_string(),
        uri: uri.to_string(),
        body: String::new(),
        content_type: String::new(),
        headers: Vec::new(),
        query: Vec::new(),
    }
}

fn pair(name: &str, value: &str) -> (String, String) {
    (name.to_string(), value.to_string())
}

#[test]
fn disabled_query_parameters_are_left_out() {
    let mut req = get("http://example.com/path");
    req.query = vec![kv("a", "1", true), kv("b", "2", false)];
    let jar = CookieJar::new();
    let wire = build_request(&req, &jar).unwrap();
    assert_eq!(wire.url, "http://example.com/path?a=1");
    assert!(wire.url.contains("a=1"));
    assert!(!wire.url.contains("b="));
    assert_eq!(wire.method, Method::Get);
    assert!(!wire.secure);
    assert!(wire.body.is_empty());
}

#[test]
fn enabled_query_parameters_keep_their_order() {
    let mut req = get("http://example.com");
    req.query = vec![
        kv("z", "26", true),
        kv("skip", "me", false),
        kv("a b", "c&d", true),
        kv("m", "", true),
    ];
    assert_eq!(resolve_url(&req).unwrap(), "http://example.com/?z=26&a+b=c%26d&m=");
}

#[test]
fn query_parameters_follow_those_of_the_target() {
    let mut req = get("https://example.net?lang=fr#nav");
    req.query = vec![kv("foo", "bar", true)];
    let wire = draft_request(&req).unwrap();
    assert_eq!(wire.url, "https://example.net/?lang=fr&foo=bar#nav");
    assert!(wire.secure);
}

#[test]
fn a_target_without_parameters_is_normalised() {
    let req = get("HTTP://Example.COM");
    assert_eq!(resolve_url(&req).unwrap(), "http://example.com/");
}

#[test]
fn a_malformed_target_is_an_invalid_url() {
    let req = get("not a url");
    let error = resolve_url(&req).unwrap_err();
    assert_eq!(error.category(), "urlParse");
    assert_eq!(error.kind(), ErrorKind::InvalidUrl);
    assert_eq!(error.message(), "relative URL without a base");
    let jar = CookieJar::new();
    assert_eq!(build_request(&req, &jar).unwrap_err().category(), "urlParse");
}

#[test]
fn a_target_that_is_too_long_is_an_invalid_uri() {
    let mut req = get("http://example.com/");
    req.query = vec![kv("q", &"a".repeat(70_000), true)];
    let error = resolve_url(&req).unwrap_err();
    assert_eq!(error.category(), "invalidUri");
    assert_eq!(error.kind(), ErrorKind::InvalidUrl);
}

#[test]
fn methods_are_read_in_any_case() {
    assert_eq!(Method::parse("post"), Method::Post);
    assert_eq!(Method::parse("Put"), Method::Put);
    assert_eq!(Method::parse("DELETE"), Method::Delete);
    assert_eq!(Method::parse("head"), Method::Head);
    assert_eq!(Method::parse("options"), Method::Options);
    assert_eq!(Method::parse("connect"), Method::Connect);
    assert_eq!(Method::parse("pAtCh"), Method::Patch);
    assert_eq!(Method::parse("trace"), Method::Trace);
    assert_eq!(Method::parse("get"), Method::Get);
    assert_eq!(Method::parse("bogus"), Method::Get);
    assert_eq!(Method::parse(""), Method::Get);
    assert_eq!(Method::from_upper("post"), Method::Get);
    assert_eq!(Method::from_upper("POST"), Method::Post);
    assert_eq!(Method::Patch.name(), "PATCH");
    assert_eq!(Method::Get.name(), "GET");
}

#[test]
fn disabled_headers_are_left_out_and_enabled_ones_keep_their_order() {
    let mut req = get("http://example.com/");
    req.content_type = "application/json".to_string();
    req.headers = vec![
        kv("X-Token", "abc", true),
        kv("X-Off", "zzz", false),
        kv("Accept", "*/*", true),
    ];
    let headers = declare_headers(&req).unwrap();
    assert_eq!(
        headers,
        vec![
            pair("x-token", "abc"),
            pair("accept", "*/*"),
            pair("content-type", "application/json"),
            pair("accept-encoding", "gzip, br"),
        ]
    );
}

#[test]
fn an_explicit_content_type_wins() {
    let mut req = get("http://example.com/");
    req.content_type = "application/json".to_string();
    req.headers = vec![kv("Content-Type", "text/plain", true)];
    assert_eq!(
        declare_headers(&req).unwrap(),
        vec![pair("content-type", "text/plain"), pair("accept-encoding", "gzip, br")]
    );
}

#[test]
fn a_disabled_content_type_header_does_not_count() {
    let mut req = get("http://example.com/");
    req.content_type = "application/json".to_string();
    req.headers = vec![kv("Content-Type", "text/plain", false)];
    assert_eq!(
        declare_headers(&req).unwrap(),
        vec![pair("content-type", "application/json"), pair("accept-encoding", "gzip, br")]
    );
}

#[test]
fn no_content_type_is_sent_where_none_is_declared() {
    let req = get("http://example.com/");
    assert_eq!(declare_headers(&req).unwrap(), vec![pair("accept-encoding", "gzip, br")]);
}

#[test]
fn the_accepted_encodings_are_always_set() {
    let mut req = get("http://example.com/");
    req.headers = vec![kv("Accept-Encoding", "identity", true), kv("X-A", "1", true)];
    assert_eq!(
        declare_headers(&req).unwrap(),
        vec![pair("accept-encoding", "gzip, br"), pair("x-a", "1")]
    );
}

#[test]
fn a_header_set_twice_keeps_its_last_value() {
    let mut req = get("http://example.com/");
    req.headers = vec![kv("X-A", "1", true), kv("X-B", "b", true), kv("x-a", "2", true)];
    assert_eq!(
        declare_headers(&req).unwrap(),
        vec![pair("x-a", "2"), pair("x-b", "b"), pair("accept-encoding", "gzip, br")]
    );
}

#[test]
fn headers_are_found_and_set_by_name() {
    let mut headers = vec![pair("a", "1"), pair("b", "2")];
    assert_eq!(find_header(&headers, "b"), 1);
    assert_eq!(find_header(&headers, "c"), 2);
    set_header(&mut headers, "a".to_string(), "3".to_string());
    set_header(&mut headers, "c".to_string(), "4".to_string());
    assert_eq!(headers, vec![pair("a", "3"), pair("b", "2"), pair("c", "4")]);
}

#[test]
fn a_bad_header_name_is_reported() {
    let mut req = get("http://example.com/");
    req.headers = vec![kv("bad name", "v", true)];
    let error = declare_headers(&req).unwrap_err();
    assert_eq!(error.category(), "invalidHeaderName");
    assert_eq!(error.kind(), ErrorKind::InvalidHeader);
    assert_eq!(error.message(), "invalid HTTP header name");
}

#[test]
fn a_bad_header_value_is_reported() {
    let mut req = get("http://example.com/");
    req.headers = vec![kv("X-A", "line\nbreak", true)];
    let error = declare_headers(&req).unwrap_err();
    assert_eq!(error.category(), "invalidHeader");
    assert_eq!(error.kind(), ErrorKind::InvalidHeader);
    assert_eq!(error.message(), "failed to parse header value");
    req.headers = vec![kv("X-A", "tab\tand caf\u{e9}", true)];
    assert!(declare_headers(&req).is_ok());
    req.headers = vec![kv("X-A", "del\u{7f}", true)];
    assert_eq!(declare_headers(&req).unwrap_err().category(), "invalidHeader");
    req.headers = vec![kv("X-A", "line\nbreak", false)];
    assert!(declare_headers(&req).is_ok());
}

#[test]
fn a_bad_declared_content_type_is_reported() {
    let mut req = get("http://example.com/");
    req.content_type = "text/\u{0}plain".to_string();
    assert_eq!(declare_headers(&req).unwrap_err().category(), "invalidHeader");
}

#[test]
fn the_first_bad_header_decides() {
    let mut req = get("http://example.com/");
    req.headers = vec![kv("X-A", "a\nb", true), kv("bad name", "v", true)];
    assert_eq!(declare_headers(&req).unwrap_err().category(), "invalidHeader");
    req.headers = vec![kv("bad name", "a\nb", true)];
    assert_eq!(declare_headers(&req).unwrap_err().category(), "invalidHeaderName");
}

#[test]
fn a_multipart_body_is_base64() {
    let mut req = get("http://example.com/");
    req.method = "POST".to_string();
    req.content_type = "multipart/form-data; boundary=x".to_string();
    req.body = "aGVsbG8".to_string();
    assert_eq!(decode_body(&req).unwrap(), b"hello".to_vec());
    let wire = draft_request(&req).unwrap();
    assert_eq!(wire.body, b"hello".to_vec());
    assert_eq!(wire.method, Method::Post);
    assert_eq!(
        wire.headers,
        vec![
            pair("content-type", "multipart/form-data; boundary=x"),
            pair("accept-encoding", "gzip, br"),
        ]
    );
}

#[test]
fn a_multipart_body_that_is_not_base64_is_an_invalid_body() {
    let mut req = get("http://example.com/");
    req.content_type = "multipart/form-data".to_string();
    req.body = "!!!".to_string();
    let error = decode_body(&req).unwrap_err();
    assert_eq!(error.category(), "base64");
    assert_eq!(error.kind(), ErrorKind::InvalidBody);
    req.body = "aGVsbG8=".to_string();
    assert_eq!(decode_body(&req).unwrap_err().category(), "base64");
}

#[test]
fn any_other_body_is_sent_as_it_is() {
    let mut req = get("http://example.com/");
    req.content_type = "text/plain".to_string();
    req.body = "h\u{e9}llo".to_string();
    assert_eq!(decode_body(&req).unwrap(), "h\u{e9}llo".as_bytes().to_vec());
    req.content_type = "Multipart/form-data".to_string();
    req.body = "aGVsbG8".to_string();
    assert_eq!(decode_body(&req).unwrap(), b"aGVsbG8".to_vec());
}

#[test]
fn the_target_is_checked_before_the_body_and_the_body_before_the_headers() {
    let mut req = get("not a url");
    req.content_type = "multipart/form-data".to_string();
    req.body = "!!!".to_string();
    req.headers = vec![kv("bad name", "v", true)];
    let jar = CookieJar::new();
    assert_eq!(build_request(&req, &jar).unwrap_err().category(), "urlParse");
    assert_eq!(draft_request(&req).unwrap_err().category(), "urlParse");
    req.uri = "http://example.com/".to_string();
    assert_eq!(build_request(&req, &jar).unwrap_err().category(), "base64");
    req.body = "aGVsbG8".to_string();
    assert_eq!(build_request(&req, &jar).unwrap_err().category(), "invalidHeaderName");
    req.headers = Vec::new();
    assert!(build_request(&req, &jar).is_ok());
}

#[test]
fn cookies_are_joined_into_one_header() {
    let cookies = vec![pair("a", "1"), pair("b", "2"), pair("c", "")];
    assert_eq!(cookie_header_value(&cookies), "a=1; b=2; c=");
    assert_eq!(cookie_header_value(&vec![pair("a", "1")]), "a=1");
    assert_eq!(cookie_header_value(&Vec::new()), "");
}

#[test]
fn the_cookie_header_takes_the_place_of_a_declared_one() {
    let mut req = get("http://example.com/");
    req.headers = vec![kv("Cookie", "x=y", true)];
    let wire = request_with_cookies(&req, &vec![pair("a", "1"), pair("b", "2")]).unwrap();
    assert_eq!(
        wire.headers,
        vec![pair("cookie", "a=1; b=2"), pair("accept-encoding", "gzip, br")]
    );
    let bare = request_with_cookies(&req, &Vec::new()).unwrap();
    assert_eq!(bare.headers, vec![pair("cookie", "x=y"), pair("accept-encoding", "gzip, br")]);
}

#[test]
fn a_cookie_that_cannot_be_sent_is_reported() {
    let headers = vec![pair("accept-encoding", "gzip, br")];
    let error = add_cookies(headers, &vec![pair("a", "1\n2")]).unwrap_err();
    assert_eq!(error.category(), "invalidHeader");
}

#[test]
fn an_empty_jar_adds_no_cookie_header() {
    let req = get("http://example.com/");
    let jar = CookieJar::new();
    let wire = build_request(&req, &jar).unwrap();
    assert_eq!(wire.headers, vec![pair("accept-encoding", "gzip, br")]);
}

#[test]
fn cookies_of_two_responses_are_sent_with_the_next_request() {
    let mut jar = CookieJar::new();
    save_cookie_store(&mut jar, vec!["a=1".to_string()], "http://example.com/").unwrap();
    save_cookie_store(&mut jar, vec!["b=2".to_string()], "http://example.com/").unwrap();
    let req = get("http://example.com/any");
    let wire = build_request(&req, &jar).unwrap();
    let at = find_header(&wire.headers, "cookie");
    assert!(at < wire.headers.len());
    let value = wire.headers[at].1.as_str();
    assert!(value == "a=1; b=2" || value == "b=2; a=1");
    let elsewhere = build_request(&get("http://example.org/any"), &jar).unwrap();
    assert_eq!(find_header(&elsewhere.headers, "cookie"), elsewhere.headers.len());
}

#[test]
fn timeouts_are_kept_by_stage() {
    let timeout = RequestTimeout { connect: 10, write: 20, read: 30 };
    assert_eq!(timeout.connect, 10);
    assert_eq!(timeout.write, 20);
    assert_eq!(timeout.read, 30);
}
