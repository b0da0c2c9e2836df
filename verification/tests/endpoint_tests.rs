use balance_channel::endpoint::parse;
use balance_channel::errors::ConfigError;

#[test]
fn parse_scheme_host_port() {
    let e = parse("http://example.com:8080").unwrap();
    assert_eq!(e.scheme, "http".as_bytes().to_vec());
    assert_eq!(e.host, "example.com".as_bytes().to_vec());
    assert_eq!(e.port, 8080);
}

#[test]
fn parse_bracketed_ipv6() {
    let e = parse("http://[::1]:50052").unwrap();
    assert_eq!(e.scheme, "http".as_bytes().to_vec());
    assert_eq!(e.host, "::1".as_bytes().to_vec());
    assert_eq!(e.port, 50052);
}

#[test]
fn parse_no_scheme() {
    let e = parse("localhost:443").unwrap();
    assert_eq!(e.scheme, Vec::<u8>::new());
    assert_eq!(e.host, "localhost".as_bytes().to_vec());
    assert_eq!(e.port, 443);
}

#[test]
fn parse_port_extremes() {
    assert_eq!(parse("h:0").unwrap().port, 0);
    assert_eq!(parse("h:65535").unwrap().port, 65535);
    assert_eq!(parse("h:00080").unwrap().port, 80);
}

#[test]
fn parse_empty_is_rejected() {
    assert_eq!(parse("").unwrap_err(), ConfigError::Empty);
    assert_eq!(parse("http://").unwrap_err(), ConfigError::Empty);
}

#[test]
fn parse_bad_scheme() {
    assert_eq!(parse("://h:1").unwrap_err(), ConfigError::BadScheme);
    assert_eq!(parse("ht tp://h:1").unwrap_err(), ConfigError::BadScheme);
}

#[test]
fn parse_unclosed_bracket() {
    assert_eq!(parse("[::1:50051").unwrap_err(), ConfigError::UnclosedBracket);
}

#[test]
fn parse_empty_host() {
    assert_eq!(parse("[]:80").unwrap_err(), ConfigError::EmptyHost);
    assert_eq!(parse(":80").unwrap_err(), ConfigError::EmptyHost);
}

#[test]
fn parse_missing_port() {
    assert_eq!(parse("justahost").unwrap_err(), ConfigError::MissingPort);
    assert_eq!(parse("[::1]").unwrap_err(), ConfigError::MissingPort);
    assert_eq!(parse("[::1]50051").unwrap_err(), ConfigError::MissingPort);
}

#[test]
fn parse_bad_port() {
    assert_eq!(parse("h:").unwrap_err(), ConfigError::BadPort);
    assert_eq!(parse("h:12ab").unwrap_err(), ConfigError::BadPort);
    assert_eq!(parse("h:65536").unwrap_err(), ConfigError::BadPort);
    assert_eq!(parse("h:999999999999").unwrap_err(), ConfigError::BadPort);
}

#[test]
fn endpoint_equality_is_by_address() {
    let a = parse("http://x:1").unwrap();
    let b = parse("http://x:1").unwrap();
    let c = parse("https://x:1").unwrap();
    assert!(balance_channel::endpoint::same_endpoint(&a, &b));
    assert!(!balance_channel::endpoint::same_endpoint(&a, &c));
    let d = parse("http://x:2").unwrap();
    assert!(!balance_channel::endpoint::same_endpoint(&a, &d));
}
