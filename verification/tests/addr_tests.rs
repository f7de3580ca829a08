use pingx::addr::{parse_ipv4, parse_ipv6, IpAddress};
use pingx::cli::parse_duration;
use pingx::utils::{literal_resolution, pick_address, IpVersion, ResolveError};

#[test]
fn test_parse_ipv4_literals() {
    assert_eq!(parse_ipv4(b"127.0.0.1"), Some(0x7F00_0001));
    assert_eq!(parse_ipv4(b"0.0.0.0"), Some(0));
    assert_eq!(parse_ipv4(b"255.255.255.255"), Some(0xFFFF_FFFF));
    assert_eq!(parse_ipv4(b"192.0.2.1"), Some(0xC000_0201));
    assert_eq!(parse_ipv4(b"256.0.0.1"), None);
    assert_eq!(parse_ipv4(b"01.2.3.4"), None);
    assert_eq!(parse_ipv4(b"1.2.3"), None);
    assert_eq!(parse_ipv4(b"1.2.3.4.5"), None);
    assert_eq!(parse_ipv4(b""), None);
    assert_eq!(parse_ipv4(b"1.2.3."), None);
    assert_eq!(parse_ipv4(b"a.b.c.d"), None);
}

#[test]
fn test_parse_ipv6_literals() {
    assert_eq!(parse_ipv6(b"::"), Some(0));
    assert_eq!(parse_ipv6(b"::1"), Some(1));
    assert_eq!(parse_ipv6(b"1::"), Some(1u128 << 112));
    assert_eq!(
        parse_ipv6(b"1:2:3:4:5:6:7:8"),
        Some(
            (1u128 << 112)
                | (2u128 << 96)
                | (3u128 << 80)
                | (4u128 << 64)
                | (5u128 << 48)
                | (6u128 << 32)
                | (7u128 << 16)
                | 8u128
        )
    );
    assert_eq!(
        parse_ipv6(b"2001:db8::1"),
        Some((0x2001u128 << 112) | (0x0db8u128 << 96) | 1)
    );
    assert_eq!(parse_ipv6(b"fe80::ABCD"), Some((0xfe80u128 << 112) | 0xabcd));
    assert_eq!(parse_ipv6(b":::"), None);
    assert_eq!(parse_ipv6(b"1::2::3"), None);
    assert_eq!(parse_ipv6(b":1"), None);
    assert_eq!(parse_ipv6(b"1:"), None);
    assert_eq!(parse_ipv6(b"12345::"), None);
    assert_eq!(parse_ipv6(b"1:2:3:4:5:6:7"), None);
    assert_eq!(parse_ipv6(b"1:2:3:4:5:6:7:8:9"), None);
    assert_eq!(parse_ipv6(b"1:2:3:4:5:6:7::8"), None);
    assert_eq!(parse_ipv6(b""), None);
    assert_eq!(parse_ipv6(b"127.0.0.1"), None);
}

#[test]
fn test_parse_duration_texts() {
    assert_eq!(parse_duration("1.0"), Some(1_000_000_000));
    assert_eq!(parse_duration("0.5"), Some(500_000_000));
    assert_eq!(parse_duration("2"), Some(2_000_000_000));
    assert_eq!(parse_duration("1."), Some(1_000_000_000));
    assert_eq!(parse_duration(".5"), Some(500_000_000));
    assert_eq!(parse_duration("0.123456789"), Some(123_456_789));
    assert_eq!(parse_duration("0.25"), Some(250_000_000));
    assert_eq!(parse_duration(""), None);
    assert_eq!(parse_duration("."), None);
    assert_eq!(parse_duration("abc"), None);
    assert_eq!(parse_duration("1.2.3"), None);
    assert_eq!(parse_duration("-1"), None);
}

#[test]
fn test_literal_resolution_families() {
    let v4 = IpAddress::V4(0x7F00_0001);
    assert_eq!(
        literal_resolution("127.0.0.1", IpVersion::Any),
        Some(Ok(v4))
    );
    assert_eq!(
        literal_resolution("127.0.0.1", IpVersion::V6),
        Some(Err(ResolveError::V4LiteralUnderV6))
    );
    assert_eq!(
        literal_resolution("::1", IpVersion::V4),
        Some(Err(ResolveError::V6LiteralUnderV4))
    );
    assert_eq!(literal_resolution("::1", IpVersion::Any), Some(Ok(IpAddress::V6(1))));
    assert_eq!(literal_resolution("example.com", IpVersion::Any), None);
}

#[test]
fn test_pick_address_preference() {
    let v4 = IpAddress::v4_from_octets(127, 0, 0, 1);
    let v6 = IpAddress::v6_from_segments(&[0, 0, 0, 0, 0, 0, 0, 1]);
    let both = vec![v4, v6];
    assert_eq!(pick_address(&both, IpVersion::Any), Some(v6));
    assert_eq!(pick_address(&both, IpVersion::V4), Some(v4));
    assert_eq!(pick_address(&both, IpVersion::V6), Some(v6));
    let only_v4 = vec![v4];
    assert_eq!(pick_address(&only_v4, IpVersion::Any), Some(v4));
    assert_eq!(pick_address(&only_v4, IpVersion::V6), None);
    let none: Vec<IpAddress> = Vec::new();
    assert_eq!(pick_address(&none, IpVersion::Any), None);
}
