use curl_rs::http::parser::StatusCode;
use curl_rs::net::{Protocol, Timeout};
use curl_rs::url::Url;
use curl_rs::Error;

#[test]
fn protocol_from_scheme() {
    assert_eq!(Protocol::from_scheme("http"), Some(Protocol::Http));
    assert_eq!(Protocol::from_scheme("HTTPS"), Some(Protocol::Https));
    assert_eq!(Protocol::from_scheme("hTtP"), Some(Protocol::Http));
    assert_eq!(Protocol::from_scheme("ftp"), None);
    assert_eq!(Protocol::from_scheme(""), None);
}

#[test]
fn timeouts() {
    assert_eq!(Timeout::from_secs(5).0, Some(std::time::Duration::from_secs(5)));
    assert_eq!(Timeout::none().0, None);
    assert_eq!(Timeout::default().0, None);
}

#[test]
fn error_texts() {
    assert_eq!(Error::HttpParse("x".to_string()).to_string(), "HTTP parse error: x");
    assert_eq!(Error::Connection("refused".to_string()).to_string(), "Connection error: refused");
    assert_eq!(Error::Timeout.to_string(), "Request timeout");
    assert_eq!(Error::InvalidUrl("u".to_string()).to_string(), "Invalid URL: u");
    assert_eq!(Error::InvalidResponse("r".to_string()).to_string(), "Invalid response: r");
    assert_eq!(Error::Io("io".to_string()).to_string(), "IO error: io");
    assert_eq!(Error::Json("j".to_string()).to_string(), "JSON error: j");
}

#[test]
fn error_from_io() {
    assert!(matches!(Error::from_io(true, "late".to_string()), Error::Timeout));
    match Error::from_io(false, "broken pipe".to_string()) {
        Error::Io(m) => assert_eq!(m, "broken pipe"),
        _ => panic!("expected Io"),
    }
}

#[test]
fn status_code_text() {
    assert_eq!(StatusCode::new(404).unwrap().to_string(), "404 Not Found");
    assert_eq!(StatusCode::new(299).unwrap().to_string(), "299 Unknown");
}

#[test]
fn parsed_schemes_name_protocols() {
    let u = Url::parse("HTTPS://x/").unwrap();
    assert_eq!(Protocol::from_scheme(u.scheme()), Some(Protocol::Https));
    let u = Url::parse("Http://x/").unwrap();
    assert_eq!(Protocol::from_scheme(u.scheme()), Some(Protocol::Http));
}
