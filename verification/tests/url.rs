use curl_rs::url::{Url, UrlError};

#[test]
fn test_parse_http() {
    let url = Url::parse("http://example.com").unwrap();
    assert_eq!(url.scheme(), "http");
    assert_eq!(url.host_str(), "example.com");
    assert_eq!(url.port(), None);
    assert_eq!(url.path(), "/");
}

#[test]
fn test_parse_https_with_port() {
    let url = Url::parse("https://example.com:8443/path").unwrap();
    assert_eq!(url.scheme(), "https");
    assert_eq!(url.host_str(), "example.com");
    assert_eq!(url.port(), Some(8443));
    assert_eq!(url.path(), "/path");
}

#[test]
fn test_parse_with_query() {
    let url = Url::parse("http://example.com/api?key=value").unwrap();
    assert_eq!(url.path(), "/api");
    assert_eq!(url.query(), Some("key=value"));
}

#[test]
fn test_join_relative() {
    let url = Url::parse("http://example.com/path").unwrap();
    let joined = url.join("next").unwrap();
    assert_eq!(joined.path(), "/path/next");
}

#[test]
fn test_join_absolute() {
    let url = Url::parse("http://example.com/path").unwrap();
    let joined = url.join("/absolute").unwrap();
    assert_eq!(joined.path(), "/absolute");
}

#[test]
fn parse_scheme_any_case_is_lowered() {
    let url = Url::parse("HTTPS://Example.com/").unwrap();
    assert_eq!(url.scheme(), "https");
    assert_eq!(url.host_str(), "Example.com");
    assert_eq!(url.default_port(), 443);
    assert_eq!(Url::parse("http://h").unwrap().default_port(), 80);
}

#[test]
fn parse_errors() {
    match Url::parse("example.com") {
        Err(UrlError::InvalidUrl(s)) => assert_eq!(s, "example.com"),
        _ => panic!("expected InvalidUrl"),
    }
    match Url::parse("FTP://example.com") {
        Err(e) => assert_eq!(e.to_string(), "invalid URL: unknown scheme: ftp"),
        _ => panic!("expected an error"),
    }
    assert!(matches!(Url::parse("http:///path"), Err(UrlError::MissingHost)));
    assert!(matches!(Url::parse("http://host:99999/"), Err(UrlError::InvalidPort)));
    assert!(matches!(Url::parse("http://host:/"), Err(UrlError::InvalidPort)));
    assert_eq!(UrlError::MissingHost.to_string(), "missing host");
    assert_eq!(UrlError::InvalidPort.to_string(), "invalid port");
}

#[test]
fn parse_path_without_leading_slash_gets_one() {
    let url = Url::parse("http://h/a/b?x=1&y=2").unwrap();
    assert_eq!(url.path(), "/a/b");
    assert_eq!(url.query(), Some("x=1&y=2"));
    let url = Url::parse("http://h?q").unwrap();
    assert_eq!(url.host_str(), "h?q");
    assert_eq!(url.path(), "/");
}

#[test]
fn to_string_omits_default_port() {
    assert_eq!(Url::parse("http://h:80/x").unwrap().to_string(), "http://h/x");
    assert_eq!(Url::parse("https://h:80/x").unwrap().to_string(), "https://h:80/x");
    assert_eq!(Url::parse("http://h:8080/x?q=1").unwrap().to_string(), "http://h:8080/x?q=1");
}

#[test]
fn to_string_reads_back() {
    let text = "https://example.com:8443/a/b?c=d";
    let url = Url::parse(text).unwrap();
    assert_eq!(url.to_string(), text);
    assert_eq!(Url::parse(&url.to_string()).unwrap(), url);
}

#[test]
fn join_cases() {
    let base = Url::parse("http://example.com/dir/?old=1").unwrap();
    let j = base.join("file?new=2").unwrap();
    assert_eq!(j.path(), "/dir/file");
    assert_eq!(j.query(), Some("new=2"));
    let j = base.join("").unwrap();
    assert_eq!(j.path(), "/dir");
    assert_eq!(j.query(), None);
    let j = base.join("https://other.org:444/z").unwrap();
    assert_eq!(j.to_string(), "https://other.org:444/z");
    assert!(base.join("http://").is_err());
    let root = Url::parse("http://example.com").unwrap();
    assert_eq!(root.join("").unwrap().path(), "");
    assert_eq!(root.join("").unwrap().to_string(), "http://example.com");
}

#[test]
fn join_absolute_url_equals_parse() {
    let base = Url::parse("http://a.com/x").unwrap();
    let target = "http://b.com:81/y?z";
    assert_eq!(base.join(target).unwrap(), Url::parse(target).unwrap());
}
