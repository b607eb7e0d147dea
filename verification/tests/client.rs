use curl_rs::http::headers::{HeaderName, HeaderValue};
use curl_rs::http::parser::Method;
use curl_rs::{Bytes, Client, Error, Next, Request};

#[test]
fn prepare_lays_out_the_request() {
    let client = Client::new();
    let req = Request::get("http://example.com/a?b=c");
    let out = client.prepare(&req).unwrap();
    assert_eq!(out.host, "example.com");
    assert_eq!(out.port, 80);
    assert!(!out.use_tls);
    assert_eq!(
        out.payload,
        b"GET /a?b=c HTTP/1.1\r\nhost: example.com\r\nconnection: close\r\n\r\n".to_vec()
    );
}

#[test]
fn prepare_merges_default_headers() {
    let client = Client::default()
        .default_header(HeaderName::from("Accept"), HeaderValue::from("*/*"))
        .default_header(HeaderName::from("X-Team"), HeaderValue::from("a"));
    let req = Request::post("https://h.io:8443")
        .header(HeaderName::from("x-team"), HeaderValue::from("b"))
        .header(HeaderName::from("Host"), HeaderValue::from("other"))
        .header(HeaderName::from("Connection"), HeaderValue::from("keep-alive"))
        .body(Bytes::from("zz"));
    let out = client.prepare(&req).unwrap();
    assert_eq!(out.host, "h.io");
    assert_eq!(out.port, 8443);
    assert!(out.use_tls);
    let text = String::from_utf8(out.payload).unwrap();
    assert_eq!(
        text,
        "POST / HTTP/1.1\r\nAccept: */*\r\nX-Team: a,b\r\nHost: other\r\nConnection: keep-alive\r\nContent-Length: 2\r\n\r\nzz"
    );
}

#[test]
fn prepare_default_https_port() {
    let out = Client::new().prepare(&Request::new(Method::Head, "HTTPS://h")).unwrap();
    assert_eq!(out.port, 443);
    assert!(out.use_tls);
    assert!(out.payload.starts_with(b"HEAD / HTTP/1.1\r\n"));
}

#[test]
fn prepare_rejects_bad_url() {
    match Client::new().prepare(&Request::get("nope")) {
        Err(Error::InvalidUrl(msg)) => assert_eq!(msg, "invalid URL: nope"),
        _ => panic!("expected InvalidUrl"),
    }
    match Client::new().prepare(&Request::get("http://h:x/")) {
        Err(e) => assert_eq!(e.to_string(), "Invalid URL: invalid port"),
        _ => panic!("expected an error"),
    }
}

#[test]
fn on_response_done() {
    let client = Client::new();
    let next = client
        .on_response("http://h/", b"HTTP/1.1 200 OK\r\nContent-Type: text/plain\r\n\r\nhi", 0)
        .unwrap();
    match next {
        Next::Done(resp) => {
            assert_eq!(resp.status(), 200);
            assert_eq!(resp.reason, "OK");
            assert_eq!(resp.text(), "hi");
            assert_eq!(resp.url(), Some("http://h/"));
            assert!(!resp.redirected);
        }
        _ => panic!("expected a final response"),
    }
}

#[test]
fn on_response_follows_redirect() {
    let client = Client::new();
    let next = client
        .on_response("http://h/dir/page", b"HTTP/1.1 302 Found\r\nLocation: other\r\n\r\n", 4)
        .unwrap();
    match next {
        Next::Follow { uri, redirect_count } => {
            assert_eq!(uri, "http://h/dir/page/other");
            assert_eq!(redirect_count, 5);
        }
        _ => panic!("expected a redirect"),
    }
}

#[test]
fn on_response_redirect_limits() {
    let data = b"HTTP/1.1 301 Moved\r\nLocation: http://x/\r\n\r\n";
    let client = Client::new().max_redirects(2);
    assert!(matches!(client.on_response("http://h/", data, 2).unwrap(), Next::Done(_)));
    assert!(matches!(client.on_response("http://h/", data, 1).unwrap(), Next::Follow { .. }));
    let client = Client::new().follow_redirects(false);
    assert!(matches!(client.on_response("http://h/", data, 0).unwrap(), Next::Done(_)));
    // no location header
    let client = Client::new();
    let d = b"HTTP/1.1 301 Moved\r\n\r\n";
    assert!(matches!(client.on_response("http://h/", d, 0).unwrap(), Next::Done(_)));
    // a location that does not resolve
    let d = b"HTTP/1.1 301 Moved\r\nLocation: http://\r\n\r\n";
    assert!(matches!(client.on_response("http://h/", d, 0).unwrap(), Next::Done(_)));
}

#[test]
fn on_response_parse_error() {
    match Client::new().on_response("http://h/", b"garbage 200\r\n\r\n", 0) {
        Err(Error::HttpParse(msg)) => assert_eq!(msg, "invalid HTTP version"),
        _ => panic!("expected a parse error"),
    }
    match Client::new().on_response("http://h/", b"HTTP/1.1 200 OK", 0) {
        Err(e) => assert_eq!(e.to_string(), "HTTP parse error: incomplete HTTP message"),
        _ => panic!("expected a parse error"),
    }
}

#[test]
fn client_settings() {
    let c = Client::new()
        .timeout(std::time::Duration::from_secs(1))
        .connect_timeout(std::time::Duration::from_secs(2))
        .verify_ssl(false);
    let out = c.prepare(&Request::get("http://h")).unwrap();
    assert_eq!(out.port, 80);
}
