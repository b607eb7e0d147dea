use curl_rs::cli::{method_named, Cli};
use curl_rs::http::parser::Method;

#[test]
fn test_cli_to_headers() {
    let cli = Cli {
        url: String::new(),
        user_agent: Some("test-agent".to_string()),
        cookie: None,
        connect_timeout: None,
        header: vec!["Content-Type: application/json".to_string()],
        show_headers: false,
        head: false,
        insecure: false,
        max_time: None,
        output: None,
        remote_name: false,
        request: None,
        data: None,
        fail: false,
        location: false,
        silent: false,
        show_error: false,
        verbose: false,
        cacert: None,
        user: None,
        max_redirs: None,
    };

    let headers = cli.to_headers();
    assert!(headers
        .iter()
        .any(|(k, v)| k == "User-Agent" && v == "test-agent"));
    assert!(headers
        .iter()
        .any(|(k, v)| k == "Content-Type" && v == "application/json"));
}

#[test]
fn test_cli_method() {
    let mut cli = Cli {
        url: "http://example.com".to_string(),
        user_agent: None,
        cookie: None,
        connect_timeout: None,
        header: vec![],
        show_headers: false,
        head: false,
        insecure: false,
        max_time: None,
        output: None,
        remote_name: false,
        request: Some("POST".to_string()),
        data: None,
        fail: false,
        location: false,
        silent: false,
        show_error: false,
        verbose: false,
        cacert: None,
        user: None,
        max_redirs: None,
    };

    assert_eq!(cli.get_method(), Some("POST".to_string()));

    cli.request = None;
    cli.head = true;
    assert_eq!(cli.get_method(), Some("HEAD".to_string()));
}

fn args(list: &[&str]) -> Vec<String> {
    list.iter().map(|s| s.to_string()).collect()
}

#[test]
fn parse_reads_options_and_url() {
    let cli = Cli::parse(&args(&[
        "curl-rs",
        "-X",
        "PUT",
        "-H",
        "A: 1",
        "--header",
        "B:2",
        "-d",
        "x=y",
        "-L",
        "-s",
        "-i",
        "--max-redirs",
        "3",
        "--max-time",
        "2.5",
        "--connect-timeout",
        "1",
        "http://example.com/",
        "http://second/",
        "-o",
        "out.txt",
        "-A",
        "ua",
        "-b",
        "c=1",
        "-k",
        "-f",
        "-S",
        "-v",
        "-O",
        "-I",
        "--cacert",
        "ca.pem",
        "-u",
        "me:pw",
    ]));
    assert_eq!(cli.url, "http://example.com/");
    assert_eq!(cli.request.as_deref(), Some("PUT"));
    assert_eq!(cli.header, vec!["A: 1".to_string(), "B:2".to_string()]);
    assert_eq!(cli.data.as_deref(), Some("x=y"));
    assert!(cli.location && cli.silent && cli.show_headers);
    assert!(cli.insecure && cli.fail && cli.show_error && cli.verbose && cli.remote_name && cli.head);
    assert_eq!(cli.max_redirs, Some(3));
    assert_eq!(cli.max_time.as_deref(), Some("2.5"));
    assert_eq!(cli.connect_timeout.as_deref(), Some("1"));
    assert_eq!(cli.output.as_deref(), Some("out.txt"));
    assert_eq!(cli.user_agent.as_deref(), Some("ua"));
    assert_eq!(cli.cookie.as_deref(), Some("c=1"));
    assert_eq!(cli.cacert.as_deref(), Some("ca.pem"));
    assert_eq!(cli.user.as_deref(), Some("me:pw"));
}

#[test]
fn parse_edge_cases() {
    let cli = Cli::parse(&args(&["curl-rs"]));
    assert_eq!(cli.url, "");
    assert!(cli.header.is_empty());
    let cli = Cli::parse(&args(&[]));
    assert_eq!(cli.url, "");
    // an option that takes a value and comes last is ignored
    let cli = Cli::parse(&args(&["curl-rs", "u", "-H"]));
    assert_eq!(cli.url, "u");
    assert!(cli.header.is_empty());
    // unknown options and later operands are skipped
    let cli = Cli::parse(&args(&["curl-rs", "--bogus", "first", "second"]));
    assert_eq!(cli.url, "first");
    // a count that does not parse is none
    let cli = Cli::parse(&args(&["curl-rs", "--max-redirs", "-1"]));
    assert_eq!(cli.max_redirs, None);
    let cli = Cli::parse(&args(&["curl-rs", "--max-redirs", "+7"]));
    assert_eq!(cli.max_redirs, Some(7));
    // the value of an option may start with a dash
    let cli = Cli::parse(&args(&["curl-rs", "-d", "-x", "-u"]));
    assert_eq!(cli.data.as_deref(), Some("-x"));
    assert!(cli.user.is_none());
}

#[test]
fn to_headers_order_and_trimming() {
    let cli = Cli::parse(&args(&[
        "curl-rs", "-b", "k=v", "-H", "  X-A :  a b  ", "-H", "no colon", "-H", "Y:", "-A", "ua",
    ]));
    let h = cli.to_headers();
    assert_eq!(
        h,
        vec![
            ("User-Agent".to_string(), "ua".to_string()),
            ("Cookie".to_string(), "k=v".to_string()),
            ("X-A".to_string(), "a b".to_string()),
            ("Y".to_string(), "".to_string()),
        ]
    );
}

#[test]
fn get_method_none_without_options() {
    let cli = Cli::parse(&args(&["curl-rs", "http://h/"]));
    assert_eq!(cli.get_method(), None);
}

#[test]
fn method_named_uppercases() {
    assert_eq!(method_named("get"), Some(Method::Get));
    assert_eq!(method_named("Post"), Some(Method::Post));
    assert_eq!(method_named("put"), Some(Method::Put));
    assert_eq!(method_named("DELETE"), Some(Method::Delete));
    assert_eq!(method_named("head"), Some(Method::Head));
    assert_eq!(method_named("patch"), Some(Method::Patch));
    assert_eq!(method_named("options"), Some(Method::Options));
    assert_eq!(method_named("trace"), None);
    assert_eq!(method_named("PURGE"), None);
}
