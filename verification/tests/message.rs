use curl_rs::http::headers::{HeaderMap, HeaderName, HeaderValue};
use curl_rs::http::parser::{HttpParser, HttpVersion, Method, StatusCode};
use curl_rs::request::{Request, RequestBuilder};
use curl_rs::response::{Response, ResponseBuilder};
use curl_rs::Bytes;

#[test]
fn test_response_status() {
    let response = Response::builder()
        .status_code(StatusCode::new(200).unwrap())
        .reason("OK")
        .build();

    assert!(response.is_success());
    assert_eq!(response.status(), 200);
}

#[test]
fn test_response_body_str() {
    let response = Response::builder().body(Bytes::from("Hello, World!")).build();

    assert_eq!(response.body_str(), Some("Hello, World!"));
}

#[test]
fn test_response_location() {
    let mut response = Response::new();
    response.headers.insert(
        HeaderName::from("location"),
        HeaderValue::from("https://example.com/redirect"),
    );

    assert_eq!(response.location(), Some("https://example.com/redirect"));
}

#[test]
fn new_request_defaults() {
    let r = Request::new(Method::Options, "http://h/");
    assert_eq!(r.method, Method::Options);
    assert_eq!(r.uri(), "http://h/");
    assert_eq!(r.version, HttpVersion::http_1_1());
    assert!(r.headers.is_empty());
    assert!(r.body.is_none());
    assert!(r.timeout.is_none());
    assert!(r.follow_redirects);
    assert_eq!(r.max_redirects, 10);
    assert!(r.verify_ssl);
    assert_eq!(Request::get("u").method, Method::Get);
    assert_eq!(Request::post("u").method, Method::Post);
    assert_eq!(Request::put("u").method, Method::Put);
    assert_eq!(Request::delete("u").method, Method::Delete);
    assert_eq!(Request::head("u").method, Method::Head);
    assert_eq!(Request::default().uri(), "/");
}

#[test]
fn body_sets_content_length_once() {
    let r = Request::post("http://h/").body(Bytes::from("hello"));
    assert_eq!(r.body.as_ref().unwrap().as_ref(), b"hello");
    assert_eq!(r.headers.get(&HeaderName::from("content-length")).unwrap().as_str(), "5");
    let r = Request::post("http://h/")
        .header(HeaderName::from("Content-Length"), HeaderValue::from("99"))
        .body(Bytes::from("hello"));
    assert_eq!(r.headers.get(&HeaderName::from("Content-Length")).unwrap().as_str(), "99");
    let r = Request::post("http://h/").body(Bytes::new());
    assert_eq!(r.headers.get(&HeaderName::from("Content-Length")).unwrap().as_str(), "0");
}

#[test]
fn body_str_sets_form_type() {
    let r = Request::post("http://h/").body_str(String::from("a=1"));
    assert_eq!(r.body.as_ref().unwrap().as_ref(), b"a=1");
    assert_eq!(
        r.headers.get(&HeaderName::from("content-type")).unwrap().as_str(),
        "application/x-www-form-urlencoded"
    );
    assert_eq!(r.headers.get(&HeaderName::from("content-length")).unwrap().as_str(), "3");
    let r = Request::post("http://h/")
        .header(HeaderName::from("Content-Type"), HeaderValue::from("text/plain"))
        .body_str(String::from("x"));
    assert_eq!(r.headers.get(&HeaderName::from("content-type")).unwrap().as_str(), "text/plain");
}

#[test]
fn json_body_sets_type_and_length() {
    let r = Request::post("http://h/").json_body(b"{\"a\":1}".to_vec());
    assert_eq!(r.body.as_ref().unwrap().as_ref(), b"{\"a\":1}");
    assert_eq!(
        r.headers.get(&HeaderName::from("Content-Type")).unwrap().as_str(),
        "application/json"
    );
    assert_eq!(r.headers.get(&HeaderName::from("Content-Length")).unwrap().as_str(), "7");
}

#[test]
fn request_settings() {
    let r = Request::get("http://h/")
        .timeout(std::time::Duration::from_secs(3))
        .follow_redirects(false)
        .max_redirects(2)
        .verify_ssl(false)
        .user_agent("agent/1")
        .accept("text/html");
    assert_eq!(r.timeout, Some(std::time::Duration::from_secs(3)));
    assert!(!r.follow_redirects);
    assert_eq!(r.max_redirects, 2);
    assert!(!r.verify_ssl);
    assert_eq!(r.headers.get(&HeaderName::from("user-agent")).unwrap().as_str(), "agent/1");
    assert_eq!(r.headers.get(&HeaderName::from("ACCEPT")).unwrap().as_str(), "text/html");
    let mut h = HeaderMap::new();
    h.insert(HeaderName::from("X"), HeaderValue::from("1"));
    let r = r.headers(h);
    assert_eq!(r.headers.len(), 1);
}

#[test]
fn request_build_and_text() {
    let mut r = Request::get("/a").header(HeaderName::from("Host"), HeaderValue::from("h"));
    assert_eq!(r.build().as_ref(), b"GET /a HTTP/1.1\r\nHost: h\r\n\r\n");
    assert_eq!(r.to_string(), "GET /a HTTP/1.1");
    r.set_uri(String::from("/b"));
    assert_eq!(r.uri(), "/b");
    let parsed = HttpParser::new().parse_request(&r.build()).unwrap();
    assert_eq!(parsed.uri.as_ref(), b"/b");
}

#[test]
fn request_builder_builds() {
    let r = RequestBuilder::put("http://h/x")
        .header(HeaderName::from("A"), HeaderValue::from("1"))
        .body(Bytes::from("zz"))
        .timeout(std::time::Duration::from_millis(5))
        .build();
    assert_eq!(r.method, Method::Put);
    assert_eq!(r.uri(), "http://h/x");
    assert_eq!(r.headers.get(&HeaderName::from("a")).unwrap().as_str(), "1");
    assert_eq!(r.body.unwrap().as_ref(), b"zz");
    assert_eq!(RequestBuilder::get("u").build().method, Method::Get);
    assert_eq!(RequestBuilder::post("u").build().method, Method::Post);
    assert_eq!(RequestBuilder::delete("u").build().method, Method::Delete);
    assert_eq!(RequestBuilder::new(Method::Trace, "u").headers(HeaderMap::new()).build().method, Method::Trace);
}

#[test]
fn response_defaults_and_text() {
    let r = Response::new();
    assert_eq!(r.status(), 200);
    assert_eq!(r.status_text(), "OK");
    assert!(r.body().is_none());
    assert_eq!(r.text(), "");
    assert!(r.url().is_none());
    assert_eq!(r.to_string(), "HTTP/1.1 200 ");
    assert_eq!(Response::default().status(), 200);
}

#[test]
fn response_header_helpers() {
    let r = ResponseBuilder::new()
        .header(HeaderName::from("Content-Length"), HeaderValue::from("42"))
        .header(HeaderName::from("Content-Type"), HeaderValue::from("text/html; charset=utf-8"))
        .build();
    assert_eq!(r.content_length(), Some(42));
    assert_eq!(r.content_type(), Some("text/html; charset=utf-8"));
    assert_eq!(r.charset(), Some("utf-8"));
    let r = ResponseBuilder::new()
        .header(HeaderName::from("Content-Length"), HeaderValue::from("x"))
        .header(HeaderName::from("Content-Type"), HeaderValue::from("text/html"))
        .build();
    assert_eq!(r.content_length(), None);
    assert_eq!(r.charset(), None);
    assert_eq!(r.location(), None);
}

#[test]
fn response_classes_and_text() {
    let r = ResponseBuilder::default()
        .version(HttpVersion::http_1_0())
        .status_code(StatusCode::new(404).unwrap())
        .reason("Not Found")
        .body(Bytes::from(vec![0xffu8]))
        .url("http://h/")
        .redirected(true)
        .redirect_count(3)
        .build();
    assert!(r.is_client_error());
    assert!(!r.is_success());
    assert!(!r.is_redirection());
    assert!(!r.is_server_error());
    assert_eq!(r.status_text(), "Not Found");
    assert_eq!(r.body_str(), None);
    assert_eq!(r.text(), "");
    assert_eq!(r.url(), Some("http://h/"));
    assert!(r.redirected);
    assert_eq!(r.redirect_count, 3);
    assert_eq!(r.to_string(), "HTTP/1.0 404 Not Found");
    let mut h = HeaderMap::new();
    h.insert(HeaderName::from("A"), HeaderValue::from("b"));
    assert_eq!(Response::builder().headers(h).build().headers().len(), 1);
}

#[test]
fn response_from_parsed() {
    let parsed = HttpParser::new()
        .parse_response(b"HTTP/1.1 301 Moved\r\nLocation: /next\r\n\r\nbody")
        .unwrap();
    let r = Response::from(parsed);
    assert_eq!(r.status(), 301);
    assert_eq!(r.reason, "Moved");
    assert_eq!(r.location(), Some("/next"));
    assert_eq!(r.text(), "body");
    assert!(r.url().is_none());
    let parsed = HttpParser::new()
        .parse_response(b"HTTP/1.1 200 \xff\r\n\r\n")
        .unwrap();
    assert_eq!(Response::from(parsed).reason, "\u{fffd}");
}
