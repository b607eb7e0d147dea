use curl_rs::http::headers::{HeaderMap, HeaderName, HeaderValue};
use curl_rs::http::parser::{
    build_request, build_response, HttpParser, HttpVersion, Method, ParseError, StatusCode,
};

#[test]
fn test_method_from_bytes() {
    assert_eq!(Method::from_bytes(b"GET"), Some(Method::Get));
    assert_eq!(Method::from_bytes(b"POST"), Some(Method::Post));
    assert_eq!(Method::from_bytes(b"INVALID"), None);
}

#[test]
fn test_status_code() {
    let code = StatusCode::new(200).unwrap();
    assert!(code.is_success());
    assert_eq!(code.as_str(), "OK");

    let code = StatusCode::new(404).unwrap();
    assert!(code.is_client_error());
    assert_eq!(code.as_str(), "Not Found");
}

#[test]
fn test_parse_request() {
    let parser = HttpParser::new();
    let data = b"GET / HTTP/1.1\r\nHost: example.com\r\n\r\n";

    let req = parser.parse_request(data).unwrap();
    assert_eq!(req.method, Method::Get);
    assert_eq!(req.uri.as_ref(), b"/");
    assert!(req.headers.contains(&HeaderName::from("host")));
}

#[test]
fn test_parse_response() {
    let parser = HttpParser::new();
    let data = b"HTTP/1.1 200 OK\r\nContent-Type: text/plain\r\n\r\nHello";

    let res = parser.parse_response(data).unwrap();
    assert_eq!(res.status_code.as_u16(), 200);
    assert!(res.body.is_some());
}

#[test]
fn test_build_request() {
    let mut headers = HeaderMap::new();
    headers.insert(HeaderName::from("Host"), HeaderValue::from("example.com"));

    let req = build_request(Method::Get, "/", &headers, None);

    assert!(req.starts_with(b"GET / HTTP/1.1"));
    assert!(req.ends_with(b"\r\n\r\n"));
}

#[test]
fn method_from_bytes_ignores_case() {
    assert_eq!(Method::from_bytes(b"delete"), Some(Method::Delete));
    assert_eq!(Method::from_bytes(b"Patch"), Some(Method::Patch));
    assert_eq!(Method::from_bytes(b"trace"), Some(Method::Trace));
    assert_eq!(Method::from_bytes(b""), None);
}

#[test]
fn method_names_read_back() {
    let all = [
        Method::Get,
        Method::Post,
        Method::Put,
        Method::Delete,
        Method::Head,
        Method::Options,
        Method::Patch,
        Method::Connect,
        Method::Trace,
    ];
    for m in all {
        assert_eq!(Method::from_bytes(m.as_str().as_bytes()), Some(m));
    }
    assert_eq!(Method::Custom("PURGE").as_str(), "PURGE");
}

#[test]
fn status_code_range_and_classes() {
    assert!(StatusCode::new(99).is_none());
    assert!(StatusCode::new(600).is_none());
    assert!(StatusCode::new(100).unwrap().is_informational());
    assert!(StatusCode::new(301).unwrap().is_redirection());
    assert!(StatusCode::new(503).unwrap().is_server_error());
    assert_eq!(StatusCode::new(599).unwrap().as_u16(), 599);
    assert_eq!(StatusCode::new(418).unwrap().as_str(), "Unknown");
    assert_eq!(StatusCode::new(504).unwrap().as_str(), "Gateway Timeout");
}

#[test]
fn version_from_bytes_and_text() {
    assert_eq!(HttpVersion::from_bytes(b"HTTP/1.0").unwrap().as_str(), "HTTP/1.0");
    assert_eq!(HttpVersion::from_bytes(b"HTTP/1.1").unwrap().as_str(), "HTTP/1.1");
    assert!(HttpVersion::from_bytes(b"HTTP/2").is_none());
    assert!(HttpVersion::from_bytes(b"http/1.1").is_none());
    assert_eq!(HttpVersion::default().as_str(), "HTTP/1.1");
    assert_eq!(HttpVersion::http_1_0().as_str(), "HTTP/1.0");
}

#[test]
fn parse_request_reads_headers_and_body() {
    let parser = HttpParser::default();
    let data = b"post /submit HTTP/1.0\r\nContent-Type:   application/json  \r\nX-A: 1\r\nx-a: 2\r\n\r\n{\"k\":1}";
    let req = parser.parse_request(data).unwrap();
    assert_eq!(req.method, Method::Post);
    assert_eq!(req.uri.as_ref(), b"/submit");
    assert_eq!(req.version, HttpVersion::http_1_0());
    assert_eq!(
        req.headers.get(&HeaderName::from("content-type")).unwrap().as_str(),
        "application/json"
    );
    assert_eq!(req.headers.get(&HeaderName::from("x-a")).unwrap().as_str(), "1,2");
    assert_eq!(req.body.unwrap().as_ref(), b"{\"k\":1}");
}

#[test]
fn parse_request_accepts_bare_line_feeds() {
    let parser = HttpParser::new();
    let req = parser.parse_request(b"GET /a HTTP/1.1\nHost: h\n\n").unwrap();
    assert_eq!(req.uri.as_ref(), b"/a");
    assert!(req.body.is_none());
}

#[test]
fn parse_request_errors() {
    let parser = HttpParser::new();
    assert_eq!(parser.parse_request(b"GET / HTTP/1.1").err(), Some(ParseError::Incomplete));
    assert_eq!(parser.parse_request(b"FETCH / HTTP/1.1\r\n\r\n").err(), Some(ParseError::InvalidMethod));
    assert_eq!(parser.parse_request(b"GET /\r\n\r\n").err(), Some(ParseError::InvalidUri));
    assert_eq!(parser.parse_request(b"GET / HTTP/2.0\r\n\r\n").err(), Some(ParseError::InvalidVersion));
    assert_eq!(parser.parse_request(b"GET / HTTP/1.1\r\nNoColon\r\n\r\n").err(), Some(ParseError::InvalidHeader));
    assert_eq!(parser.parse_request(b"GET / HTTP/1.1\r\nBad Name: x\r\n\r\n").err(), Some(ParseError::InvalidHeader));
    assert_eq!(parser.parse_request(b"GET / HTTP/1.1\r\nHost: x\r\n").err(), Some(ParseError::Incomplete));
    let small = HttpParser::with_limits(20, 100);
    assert_eq!(small.parse_request(b"GET / HTTP/1.1\r\nHost: example.com\r\n\r\n").err(), Some(ParseError::TooLarge));
}

#[test]
fn parse_request_too_many_headers() {
    let parser = HttpParser::new();
    let mut data = b"GET / HTTP/1.1\r\n".to_vec();
    for i in 0..102 {
        data.extend_from_slice(format!("H{}: v\r\n", i).as_bytes());
    }
    data.extend_from_slice(b"\r\n");
    assert_eq!(parser.parse_request(&data).err(), Some(ParseError::TooLarge));
    let mut ok = b"GET / HTTP/1.1\r\n".to_vec();
    for i in 0..101 {
        ok.extend_from_slice(format!("H{}: v\r\n", i).as_bytes());
    }
    ok.extend_from_slice(b"\r\n");
    assert_eq!(parser.parse_request(&ok).unwrap().headers.len(), 101);
}

#[test]
fn parse_response_reason_and_errors() {
    let parser = HttpParser::new();
    let res = parser.parse_response(b"HTTP/1.0 404 \"Not\" Found\r\n\r\n").unwrap();
    assert_eq!(res.status_code.as_u16(), 404);
    assert_eq!(res.reason.as_ref(), b"Not");
    assert_eq!(res.version, HttpVersion::http_1_0());
    assert!(res.body.is_none());
    let res = parser.parse_response(b"HTTP/1.1 204\r\n\r\n").unwrap();
    assert_eq!(res.reason.as_ref(), b"");
    assert_eq!(parser.parse_response(b"HTTP/1.1\r\n\r\n").err(), Some(ParseError::InvalidStatusCode));
    assert_eq!(parser.parse_response(b"HTTP/3 200 OK\r\n\r\n").err(), Some(ParseError::InvalidVersion));
    assert_eq!(parser.parse_response(b"HTTP/1.1 700 OK\r\n\r\n").err(), Some(ParseError::InvalidStatusCode));
    assert_eq!(parser.parse_response(b"HTTP/1.1 abc OK\r\n\r\n").err(), Some(ParseError::InvalidStatusCode));
    assert_eq!(parser.parse_response(b"").err(), Some(ParseError::Incomplete));
}

#[test]
fn reason_out_of_bounds_detects_empty_reason_piece() {
    assert!(HttpParser::reason_out_of_bounds(b"HTTP/1.1 200 \r\n\r\n"));
    assert!(HttpParser::reason_out_of_bounds(b"HTTP/1.1 200 \"\r\n\r\n"));
    assert!(!HttpParser::reason_out_of_bounds(b"HTTP/1.1 200 OK\r\n\r\n"));
    assert!(!HttpParser::reason_out_of_bounds(b"HTTP/1.1 200\r\n\r\n"));
    assert!(!HttpParser::reason_out_of_bounds(b"HTTP/1.1 999 \r\n\r\n"));
}

#[test]
fn parse_error_messages() {
    assert_eq!(ParseError::InvalidMethod.message(), "invalid HTTP method");
    assert_eq!(ParseError::InvalidUri.message(), "invalid URI");
    assert_eq!(ParseError::InvalidVersion.message(), "invalid HTTP version");
    assert_eq!(ParseError::InvalidStatusCode.message(), "invalid status code");
    assert_eq!(ParseError::InvalidHeader.message(), "invalid header");
    assert_eq!(ParseError::Incomplete.message(), "incomplete HTTP message");
    assert_eq!(ParseError::TooLarge.message(), "HTTP message too large");
}

#[test]
fn build_request_layout() {
    let mut headers = HeaderMap::new();
    headers.insert(HeaderName::from("Host"), HeaderValue::from("example.com"));
    headers.insert(HeaderName::from("Accept"), HeaderValue::from("*/*"));
    let req = build_request(Method::Post, "/x?y=1", &headers, Some(b"body"));
    assert_eq!(
        req.as_ref(),
        b"POST /x?y=1 HTTP/1.1\r\nHost: example.com\r\nAccept: */*\r\n\r\nbody"
    );
}

#[test]
fn build_request_reads_back() {
    let mut headers = HeaderMap::new();
    headers.insert(HeaderName::from("Host"), HeaderValue::from("example.com"));
    headers.insert(HeaderName::from("X-Thing"), HeaderValue::from("a b"));
    let data = build_request(Method::Put, "/p", &headers, Some(b"xyz"));
    let req = HttpParser::new().parse_request(&data).unwrap();
    assert_eq!(req.method, Method::Put);
    assert_eq!(req.uri.as_ref(), b"/p");
    assert_eq!(req.version, HttpVersion::http_1_1());
    assert_eq!(req.headers.len(), 2);
    assert_eq!(req.headers.as_slice()[0].0.as_bytes(), b"host");
    assert_eq!(req.headers.get(&HeaderName::from("x-thing")).unwrap().as_str(), "a b");
    assert_eq!(req.body.unwrap().as_ref(), b"xyz");
}

#[test]
fn build_response_layout() {
    let mut headers = HeaderMap::new();
    headers.insert(HeaderName::from("Content-Length"), HeaderValue::from("2"));
    let res = build_response(
        HttpVersion::http_1_0(),
        StatusCode::new(201).unwrap(),
        "Created",
        &headers,
        Some(b"ok"),
    );
    assert_eq!(res.as_ref(), b"HTTP/1.0 201 Created\r\nContent-Length: 2\r\n\r\nok");
    let parsed = HttpParser::new().parse_response(&res).unwrap();
    assert_eq!(parsed.status_code.as_u16(), 201);
    assert_eq!(parsed.reason.as_ref(), b"Created");
    assert_eq!(parsed.body.unwrap().as_ref(), b"ok");
}
