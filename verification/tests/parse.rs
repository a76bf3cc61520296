use tsresolver::address::{IpAddr, SocketAddr, DEFAULT_PORT};
use tsresolver::error::Error;
use tsresolver::parse::{parse_ip, use_default_port, use_given_port, IpFamily, ParseIpResult};
use tsresolver::port::PortError;

/// The library's socket address for a text that the standard library reads.
fn addr(text: &str) -> SocketAddr {
    match text.parse::<core::net::SocketAddr>().unwrap() {
        core::net::SocketAddr::V4(a) => {
            SocketAddr::new(IpAddr::V4(u32::from(*a.ip())), a.port())
        }
        core::net::SocketAddr::V6(a) => SocketAddr {
            ip: IpAddr::V6(u128::from(*a.ip())),
            port: a.port(),
            flowinfo: a.flowinfo(),
            scope_id: a.scope_id(),
        },
    }
}

#[test]
fn parse_ip_without_port() {
    let res = parse_ip("127.0.0.1");
    assert_eq!(
        res.unwrap(),
        ParseIpResult::Addr(addr(&format!("127.0.0.1:{}", DEFAULT_PORT)))
    );
}

#[test]
fn parse_ip_with_port() {
    let res = parse_ip("127.0.0.1:1");
    assert_eq!(res.unwrap(), ParseIpResult::Addr(addr("127.0.0.1:1")));
}

#[test]
fn parse_ip6_without_port() {
    let res = parse_ip("::");
    assert_eq!(res.unwrap(), ParseIpResult::Addr(addr(&format!("[::]:{}", DEFAULT_PORT))));
}

#[test]
fn parse_ip6_without_port2() {
    let res = parse_ip("[::]");
    assert_eq!(res.unwrap(), ParseIpResult::Addr(addr(&format!("[::]:{}", DEFAULT_PORT))));
}

#[test]
fn parse_ip6_with_port() {
    let res = parse_ip("[::]:1");
    assert_eq!(res.unwrap(), ParseIpResult::Addr(addr("[::]:1")));
}

#[test]
fn parse_ip_address_without_port() {
    assert_eq!(parse_ip("localhost").unwrap(), ParseIpResult::Other("localhost", None));
}

#[test]
fn parse_ip_address_with_port() {
    assert_eq!(parse_ip("localhost:1").unwrap(), ParseIpResult::Other("localhost", Some(1)));
}

#[test]
fn parse_ip_with_large_port() {
    assert!(parse_ip("127.0.0.1:65536").is_err());
}

#[test]
fn parse_hostname_with_port_skips_to_other() {
    assert_eq!(
        parse_ip("ts.greenteaspeak.de:9987").unwrap(),
        ParseIpResult::Other("ts.greenteaspeak.de", Some(9987))
    );
}

#[test]
fn ip_addresses_are_read_as_numbers() {
    assert_eq!(
        parse_ip("127.0.0.1").unwrap(),
        ParseIpResult::Addr(SocketAddr::new(IpAddr::V4(0x7f00_0001), 9987))
    );
    assert_eq!(
        parse_ip("2001:db8::1").unwrap(),
        ParseIpResult::Addr(SocketAddr::new(
            IpAddr::V6(0x2001_0db8_0000_0000_0000_0000_0000_0001),
            9987
        ))
    );
    assert_eq!(
        parse_ip("[2001:db8::1]").unwrap(),
        ParseIpResult::Addr(SocketAddr::new(
            IpAddr::V6(0x2001_0db8_0000_0000_0000_0000_0000_0001),
            9987
        ))
    );
    assert_eq!(
        parse_ip("::ffff:1.2.3.4").unwrap(),
        ParseIpResult::Addr(SocketAddr::new(IpAddr::V6(0xffff_0102_0304), 9987))
    );
}

#[test]
fn ip_addresses_keep_their_ports() {
    assert_eq!(
        parse_ip("1.2.3.4:00080").unwrap(),
        ParseIpResult::Addr(SocketAddr::new(IpAddr::V4(0x0102_0304), 80))
    );
    assert_eq!(
        parse_ip("1.2.3.4:65535").unwrap(),
        ParseIpResult::Addr(SocketAddr::new(IpAddr::V4(0x0102_0304), 65535))
    );
    assert_eq!(
        parse_ip("[::1]:0009987").unwrap(),
        ParseIpResult::Addr(SocketAddr::new(IpAddr::V6(1), 9987))
    );
    assert_eq!(
        parse_ip("[fe80::1%003]:80").unwrap(),
        ParseIpResult::Addr(SocketAddr {
            ip: IpAddr::V6(0xfe80_0000_0000_0000_0000_0000_0000_0001),
            port: 80,
            flowinfo: 0,
            scope_id: 3,
        })
    );
}

#[test]
fn what_only_looks_like_an_ip_is_left_to_the_system() {
    assert_eq!(parse_ip("1.2.3").unwrap(), ParseIpResult::Lookup("1.2.3", 9987, IpFamily::V4));
    assert_eq!(parse_ip("01.2.3.4").unwrap(), ParseIpResult::Lookup("01.2.3.4", 9987, IpFamily::V4));
    assert_eq!(parse_ip("").unwrap(), ParseIpResult::Lookup("", 9987, IpFamily::V4));
    assert_eq!(parse_ip("1.2.3:5").unwrap(), ParseIpResult::Lookup("1.2.3", 5, IpFamily::V4));
    assert_eq!(
        parse_ip("1.2.3.4:+80").unwrap(),
        ParseIpResult::Lookup("1.2.3.4", 80, IpFamily::V4)
    );
    assert_eq!(parse_ip(":80").unwrap(), ParseIpResult::Lookup("", 80, IpFamily::V4));
    assert_eq!(parse_ip("a:b:c").unwrap(), ParseIpResult::Lookup("a:b:c", 9987, IpFamily::V6));
    assert_eq!(
        parse_ip("[fe80::1%3]").unwrap(),
        ParseIpResult::Lookup("fe80::1%3", 9987, IpFamily::V6)
    );
    assert_eq!(parse_ip("[x::]:80").unwrap(), ParseIpResult::Lookup("[x::]", 80, IpFamily::V6));
    assert_eq!(
        parse_ip("[1.2.3.4]::80").unwrap(),
        ParseIpResult::Lookup("[1.2.3.4]:", 80, IpFamily::V6)
    );
}

#[test]
fn malformed_addresses_are_errors() {
    assert!(matches!(parse_ip("1.2.3.4:"), Err(Error::InvalidIp4Address)));
    assert!(matches!(parse_ip("127.0.0.1:65536"), Err(Error::InvalidIp4Address)));
    assert!(matches!(parse_ip("[::1]:"), Err(Error::InvalidIp6Address)));
    assert!(matches!(parse_ip("[::1]:65536"), Err(Error::InvalidIp6Address)));
    assert!(matches!(parse_ip("::1]"), Err(Error::InvalidIpAddress)));
    assert!(matches!(parse_ip("[::1]x"), Err(Error::InvalidIpAddress)));
}

#[test]
fn malformed_ports_are_errors() {
    assert!(matches!(parse_ip("host:"), Err(Error::InvalidPort(PortError::Empty))));
    assert!(matches!(parse_ip("host:+"), Err(Error::InvalidPort(PortError::InvalidDigit))));
    assert!(matches!(parse_ip("host:-1"), Err(Error::InvalidPort(PortError::InvalidDigit))));
    assert!(matches!(parse_ip("host:1x"), Err(Error::InvalidPort(PortError::InvalidDigit))));
    assert!(matches!(parse_ip("host:65536"), Err(Error::InvalidPort(PortError::PosOverflow))));
}

#[test]
fn names_beyond_ascii_are_cut_at_the_colon() {
    assert_eq!(
        parse_ip("g\u{fc}nther.example:12").unwrap(),
        ParseIpResult::Other("g\u{fc}nther.example", Some(12))
    );
}

#[test]
fn ports_go_with_what_was_read() {
    let ip = IpAddr::V6(7);
    let socket = SocketAddr::new(ip, 8);
    assert_eq!(
        use_default_port("x", Some(ip), IpFamily::V4),
        ParseIpResult::Addr(SocketAddr::new(ip, 9987))
    );
    assert_eq!(
        use_default_port("x", None, IpFamily::V6),
        ParseIpResult::Lookup("x", 9987, IpFamily::V6)
    );
    assert_eq!(
        use_given_port("x", Some(socket), IpFamily::V4).unwrap(),
        ParseIpResult::Addr(socket)
    );
    assert_eq!(
        use_given_port("x:y:9", None, IpFamily::V6).unwrap(),
        ParseIpResult::Lookup("x:y", 9, IpFamily::V6)
    );
    assert!(matches!(use_given_port("x:", None, IpFamily::V4), Err(Error::InvalidIp4Address)));
    assert!(matches!(use_given_port("x", None, IpFamily::V6), Err(Error::InvalidIp6Address)));
}

#[test]
fn ip4_numbers_are_decimal_bytes() {
    let read = |text: &'static str| parse_ip(text).unwrap();
    let v4 = |value: u32| ParseIpResult::Addr(SocketAddr::new(IpAddr::V4(value), DEFAULT_PORT));
    assert_eq!(read("0.0.0.0"), v4(0));
    assert_eq!(read("1.2.3.4"), v4(0x0102_0304));
    assert_eq!(read("255.255.255.255"), v4(0xffff_ffff));
    for text in ["256.0.0.1", "01.2.3.4", "1.2.3.00", "1.2.3", "1.2.3.4.5", "1..2.3", "1.2.3."] {
        assert_eq!(read(text), ParseIpResult::Lookup(text, DEFAULT_PORT, IpFamily::V4));
    }
}

#[test]
fn printed_addresses_are_read_back() {
    for ip in ["0.0.0.0", "10.20.30.40", "255.0.255.9", "::", "::1", "2001:db8::a:0:1", "::ffff:1.2.3.4"] {
        let ip: core::net::IpAddr = ip.parse().unwrap();
        assert_eq!(
            parse_ip(&ip.to_string()).unwrap(),
            ParseIpResult::Addr(addr(&core::net::SocketAddr::new(ip, DEFAULT_PORT).to_string()))
        );
        for port in [0, 9, 10, 9987, 65535] {
            let text = core::net::SocketAddr::new(ip, port).to_string();
            assert_eq!(parse_ip(&text).unwrap(), ParseIpResult::Addr(addr(&text)));
        }
        if ip.is_ipv6() {
            assert_eq!(
                parse_ip(&format!("[{}]", ip)).unwrap(),
                ParseIpResult::Addr(addr(&format!("[{}]:{}", ip, DEFAULT_PORT)))
            );
        }
    }
}
