use curl_rs::http::headers::{HeaderMap, HeaderName, HeaderValue};

#[test]
fn test_header_name_from_bytes() {
    let name = HeaderName::from_bytes(b"Content-Type").unwrap();
    assert_eq!(name.as_str(), "Content-Type");
}

#[test]
fn test_header_value() {
    let value = HeaderValue::from_str("application/json");
    assert_eq!(value.as_str(), "application/json");
}

#[test]
fn test_header_map_insert_get() {
    let mut map = HeaderMap::new();
    map.insert(
        HeaderName::from("Content-Type"),
        HeaderValue::from("application/json"),
    );

    assert_eq!(
        map.get(&HeaderName::from("Content-Type")).unwrap().as_str(),
        "application/json"
    );
}

#[test]
fn test_header_map_append() {
    let mut map = HeaderMap::new();
    map.insert(HeaderName::from("Accept"), HeaderValue::from("text/html"));
    map.append(
        HeaderName::from("Accept"),
        HeaderValue::from("application/json"),
    );

    assert_eq!(
        map.get(&HeaderName::from("Accept")).unwrap().as_str(),
        "text/html,application/json"
    );
}

#[test]
fn header_name_rejects_invalid_bytes() {
    assert!(HeaderName::from_bytes(b"").is_none());
    assert!(HeaderName::from_bytes(b"Bad Name").is_none());
    assert!(HeaderName::from_bytes(b"x:y").is_none());
    assert!(HeaderName::from_bytes(b"X-Custom_1.0").is_some());
}

#[test]
fn header_name_to_lowercase() {
    let name = HeaderName::from("Content-TYPE").to_lowercase();
    assert_eq!(name.as_bytes(), b"content-type");
}

#[test]
fn header_value_append_and_len() {
    let mut v = HeaderValue::from("a");
    assert_eq!(v.len(), 1);
    assert!(!v.is_empty());
    v.append(HeaderValue::from("b"));
    assert_eq!(v.as_bytes(), b"a,b");
    assert!(HeaderValue::from_bytes(b"").is_empty());
}

#[test]
fn header_value_invalid_utf8_reads_as_empty_text() {
    let v = HeaderValue::from_bytes(&[0xff, 0xfe]);
    assert_eq!(v.as_str(), "");
    assert_eq!(v.len(), 2);
}

#[test]
fn header_lookup_ignores_ascii_case() {
    let mut map = HeaderMap::new();
    map.insert(HeaderName::from("Content-Type"), HeaderValue::from("text/plain"));
    assert_eq!(map.get(&HeaderName::from("content-type")).unwrap().as_str(), "text/plain");
    assert!(map.contains(&HeaderName::from("CONTENT-TYPE")));
}

#[test]
fn insert_replaces_and_returns_previous_value() {
    let mut map = HeaderMap::new();
    assert!(map.insert(HeaderName::from("A"), HeaderValue::from("1")).is_none());
    let old = map.insert(HeaderName::from("a"), HeaderValue::from("2")).unwrap();
    assert_eq!(old.as_str(), "1");
    assert_eq!(map.len(), 1);
    assert_eq!(map.get(&HeaderName::from("A")).unwrap().as_str(), "2");
    // the name first stored is kept
    assert_eq!(map.iter().next().unwrap().0.as_str(), "A");
}

#[test]
fn insert_leaves_other_names() {
    let mut map = HeaderMap::new();
    map.insert(HeaderName::from("A"), HeaderValue::from("1"));
    map.insert(HeaderName::from("B"), HeaderValue::from("2"));
    assert_eq!(map.get(&HeaderName::from("A")).unwrap().as_str(), "1");
    assert_eq!(map.get(&HeaderName::from("B")).unwrap().as_str(), "2");
}

#[test]
fn remove_then_get_finds_nothing() {
    let mut map = HeaderMap::new();
    map.insert(HeaderName::from("Host"), HeaderValue::from("example.com"));
    map.insert(HeaderName::from("Accept"), HeaderValue::from("*/*"));
    let v = map.remove(&HeaderName::from("host")).unwrap();
    assert_eq!(v.as_str(), "example.com");
    assert!(map.get(&HeaderName::from("Host")).is_none());
    assert!(!map.contains(&HeaderName::from("Host")));
    assert_eq!(map.get(&HeaderName::from("Accept")).unwrap().as_str(), "*/*");
    assert!(map.remove(&HeaderName::from("Host")).is_none());
    assert_eq!(map.len(), 1);
}

#[test]
fn append_to_absent_name_stores_value() {
    let mut map = HeaderMap::new();
    map.append(HeaderName::from("Accept"), HeaderValue::from("text/html"));
    assert_eq!(map.get(&HeaderName::from("accept")).unwrap().as_str(), "text/html");
}

#[test]
fn extend_appends_each_entry() {
    let mut a = HeaderMap::new();
    a.insert(HeaderName::from("Accept"), HeaderValue::from("text/html"));
    let mut b = HeaderMap::with_capacity(2);
    b.insert(HeaderName::from("accept"), HeaderValue::from("text/plain"));
    b.insert(HeaderName::from("Host"), HeaderValue::from("x"));
    a.extend(b);
    assert_eq!(a.get(&HeaderName::from("Accept")).unwrap().as_str(), "text/html,text/plain");
    assert_eq!(a.get(&HeaderName::from("host")).unwrap().as_str(), "x");
    assert_eq!(a.len(), 2);
}

#[test]
fn new_map_is_empty() {
    let map = HeaderMap::new();
    assert!(map.is_empty());
    assert_eq!(map.len(), 0);
    assert_eq!(HeaderMap::default().len(), 0);
    let mut c = map.clone();
    c.insert(HeaderName::from("x"), HeaderValue::from("y"));
    assert_eq!(c.as_slice().len(), 1);
    assert!(map.is_empty());
}

#[test]
fn header_name_from_string() {
    let n = HeaderName::from(String::from("X-Test"));
    assert_eq!(n.as_bytes(), b"X-Test");
    let v = HeaderValue::from(String::from("ok"));
    assert_eq!(v.as_str(), "ok");
}
