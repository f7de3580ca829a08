use pingx::cli::{Cli, Protocol};
use pingx::session::{DetectError, Session};

fn cli_with(ipv4: bool, ipv6: bool, tcp: bool, http: bool) -> Cli {
    Cli {
        targets: Vec::new(),
        count: None,
        interval: 1_000_000_000,
        timeout: 1_000_000_000,
        deadline: None,
        ttl: 64,
        size: 56,
        quiet: false,
        verbose: false,
        ipv4,
        ipv6,
        tcp,
        http,
    }
}

#[test]
fn test_detect_forced_family_is_icmp() {
    let s = Session::new(cli_with(true, false, false, false));
    let (p, host) = s.detect_protocol("example.com:80").unwrap();
    assert_eq!(p, Protocol::Icmp);
    assert_eq!(host, "example.com:80");
}

#[test]
fn test_detect_forced_tcp() {
    let s = Session::new(cli_with(false, false, true, false));
    let (p, host) = s.detect_protocol("example.com:80").unwrap();
    assert_eq!(p, Protocol::Tcp(80));
    assert_eq!(host, "example.com");

    let (p, host) = s.detect_protocol("[::1]:443").unwrap();
    assert_eq!(p, Protocol::Tcp(443));
    assert_eq!(host, "::1");

    assert_eq!(s.detect_protocol("example.com"), Err(DetectError::TcpFormat));
    assert_eq!(s.detect_protocol("example.com:notaport"), Err(DetectError::TcpFormat));
}

#[test]
fn test_detect_forced_http_prefixes_scheme() {
    let s = Session::new(cli_with(false, false, false, true));
    let (p, host) = s.detect_protocol("example.com").unwrap();
    assert_eq!(p, Protocol::Http("http://example.com".to_string()));
    assert_eq!(host, "example.com");

    let (p, host) = s.detect_protocol("https://example.com/x").unwrap();
    assert_eq!(p, Protocol::Http("https://example.com/x".to_string()));
    assert_eq!(host, "example.com");
}

#[test]
fn test_detect_auto_rules() {
    let s = Session::new(cli_with(false, false, false, false));

    let (p, host) = s.detect_protocol("http://example.com").unwrap();
    assert_eq!(p, Protocol::Http("http://example.com".to_string()));
    assert_eq!(host, "example.com");

    let (p, host) = s.detect_protocol("127.0.0.1").unwrap();
    assert_eq!(p, Protocol::Icmp);
    assert_eq!(host, "127.0.0.1");

    // an IPv6 literal keeps ICMP even though it holds colons
    let (p, host) = s.detect_protocol("::1").unwrap();
    assert_eq!(p, Protocol::Icmp);
    assert_eq!(host, "::1");

    let (p, host) = s.detect_protocol("example.com:80").unwrap();
    assert_eq!(p, Protocol::Tcp(80));
    assert_eq!(host, "example.com");

    // an invalid port falls back to ICMP on the whole string
    let (p, host) = s.detect_protocol("example.com:99999").unwrap();
    assert_eq!(p, Protocol::Icmp);
    assert_eq!(host, "example.com:99999");

    let (p, host) = s.detect_protocol("example.com").unwrap();
    assert_eq!(p, Protocol::Icmp);
    assert_eq!(host, "example.com");
}

#[test]
fn test_detect_url_with_port() {
    let s = Session::new(cli_with(false, false, false, false));
    let (p, host) = s.detect_protocol("https://example.com:8443/health").unwrap();
    assert_eq!(p, Protocol::Http("https://example.com:8443/health".to_string()));
    assert_eq!(host, "example.com");
}
