//! Ip addresses, socket addresses and their texts.

use vstd::prelude::*;

use crate::port::{
    decimal, decimal_text, is_digit, law_decimal_text_is_read, law_digits_are_the_decimal_text,
    lemma_digits_value,
};
use crate::text::{find, lemma_find, lemma_rfind, rfind};

verus! {

/// The port of a server when none is given.
pub const DEFAULT_PORT: u16 = 9987;

/// An ip address, as the number whose most significant byte is written first.
#[derive(Debug, Clone, Copy, PartialEq, Eq, Structural)]
pub enum IpAddr {
    /// An IPv4 address.
    V4(u32),
    /// An IPv6 address.
    V6(u128),
}

/// An ip address with a port.
#[derive(Debug, Clone, Copy, PartialEq, Eq, Structural)]
pub struct SocketAddr {
    /// The address.
    pub ip: IpAddr,
    /// The port.
    pub port: u16,
    /// The flow information of an IPv6 address, else 0.
    pub flowinfo: u32,
    /// The scope identifier of an IPv6 address, else 0.
    pub scope_id: u32,
}

/// The socket address of an ip address and a port.
pub open spec fn at_port(ip: IpAddr, port: u16) -> SocketAddr {
    SocketAddr { ip, port, flowinfo: 0, scope_id: 0 }
}

impl SocketAddr {
    /// The socket address of an ip address and a port.
    pub fn new(ip: IpAddr, port: u16) -> (r: Self)
        ensures
            r == at_port(ip, port),
    {
        SocketAddr { ip, port, flowinfo: 0, scope_id: 0 }
    }
}

/// A character of an IPv4 address: a decimal digit or a dot.
pub open spec fn is_digit_or_dot(c: char) -> bool {
    ('0' <= c && c <= '9') || c == '.'
}

/// Only decimal digits and dots.
pub open spec fn all_digits_or_dots(s: Seq<char>) -> bool {
    forall|i: int| 0 <= i < s.len() ==> is_digit_or_dot(#[trigger] s[i])
}

/// A character of an IPv6 address: a hexadecimal digit, a colon or a dot.
pub open spec fn is_ip6_char(c: char) -> bool {
    ('0' <= c && c <= '9') || ('a' <= c && c <= 'f') || ('A' <= c && c <= 'F') || c == ':' || c
        == '.'
}

/// The characters of an IPv6 address, with at least two colons.
pub open spec fn is_ip6_shape(s: Seq<char>) -> bool {
    &&& forall|i: int| 0 <= i < s.len() ==> is_ip6_char(#[trigger] s[i])
    &&& find(s, ':') is Some
    &&& find(s, ':') != rfind(s, ':')
}

/// One of the four numbers of an IPv4 address: decimal, at most 255, without leading zeros.
pub open spec fn octet_value(s: Seq<char>) -> Option<int> {
    if s.len() > 1 && s[0] == '0' {
        None
    } else {
        decimal(s, 255)
    }
}

/// The value of `n` octets with dots between them, the most significant first.
pub open spec fn dotted_value(s: Seq<char>, n: nat) -> Option<int>
    decreases n,
{
    if n <= 1 {
        octet_value(s)
    } else {
        match rfind(s, '.') {
            Some(dot) => match (
                dotted_value(s.take(dot), (n - 1) as nat),
                octet_value(s.skip(dot + 1)),
            ) {
                (Some(front), Some(last)) => Some(front * 256 + last),
                _ => None,
            },
            None => None,
        }
    }
}

/// The IPv4 address that a text writes: four octets with dots between them.
pub open spec fn ip4_value(s: Seq<char>) -> Option<u32> {
    match dotted_value(s, 4) {
        Some(a) => Some(a as u32),
        None => None,
    }
}

/// The IPv6 address that the standard library reads from a text (`core::net::IpAddr` by
/// `FromStr`), if it reads one.
pub uninterp spec fn read_ip6(s: Seq<char>) -> Option<u128>;

/// The ip address that a text writes. An IPv6 address is written in hexadecimal digits,
/// colons, at least two of them, and dots.
pub open spec fn ip_literal(s: Seq<char>) -> Option<IpAddr> {
    match ip4_value(s) {
        Some(a) => Some(IpAddr::V4(a)),
        None => match read_ip6(s) {
            Some(a) => if is_ip6_shape(s) {
                Some(IpAddr::V6(a))
            } else {
                None
            },
            None => None,
        },
    }
}

/// Octets with dots between them are digits and dots, and their value has its bounds.
pub proof fn lemma_dotted_value(s: Seq<char>, n: nat)
    requires
        1 <= n <= 4,
    ensures
        dotted_value(s, n) matches Some(v) ==> all_digits_or_dots(s) && 0 <= v && (n == 1 ==> v
            <= 0xff) && (n == 2 ==> v <= 0xffff) && (n == 3 ==> v <= 0xff_ffff) && (n == 4 ==> v
            <= 0xffff_ffff),
    decreases n,
{
    if n == 1 {
        lemma_digits_value(s, 255);
        if dotted_value(s, n) is Some {
            assert forall|i: int| 0 <= i < s.len() implies is_digit_or_dot(#[trigger] s[i]) by {
                assert(is_digit(s[i]));
            }
        }
    } else {
        lemma_rfind(s, '.');
        if dotted_value(s, n) is Some {
            let dot = rfind(s, '.')->0;
            let last = s.skip(dot + 1);
            lemma_dotted_value(s.take(dot), (n - 1) as nat);
            lemma_digits_value(last, 255);
            assert forall|i: int| 0 <= i < s.len() implies is_digit_or_dot(#[trigger] s[i]) by {
                if i < dot {
                    assert(is_digit_or_dot(s.take(dot)[i]));
                } else if i > dot {
                    assert(is_digit(last[i - dot - 1]));
                }
            }
        }
    }
}

/// The text of `n` octets with dots between them, the most significant first.
pub open spec fn dotted_text(a: int, n: nat) -> Seq<char>
    decreases n,
{
    if n <= 1 {
        decimal_text(a)
    } else {
        dotted_text(a / 256, (n - 1) as nat) + seq!['.'] + decimal_text(a % 256)
    }
}

/// The text of an IPv4 address: its four bytes in decimal, with dots between them.
pub open spec fn ip4_text(a: u32) -> Seq<char> {
    dotted_text(a as int, 4)
}

proof fn lemma_dotted_text(a: int, n: nat)
    requires
        1 <= n <= 4,
        0 <= a,
        n == 1 ==> a <= 0xff,
        n == 2 ==> a <= 0xffff,
        n == 3 ==> a <= 0xff_ffff,
        n == 4 ==> a <= 0xffff_ffff,
    ensures
        dotted_value(dotted_text(a, n), n) == Some(a),
    decreases n,
{
    if n == 1 {
        law_decimal_text_is_read(a, 255);
    } else {
        let front = dotted_text(a / 256, (n - 1) as nat);
        let last = decimal_text(a % 256);
        let s = dotted_text(a, n);
        let dot = front.len() as int;
        lemma_dotted_text(a / 256, (n - 1) as nat);
        law_decimal_text_is_read(a % 256, 255);
        lemma_digits_value(last, 255);
        assert forall|j: int| dot < j < s.len() implies #[trigger] s[j] != '.' by {
            assert(is_digit(last[j - dot - 1]));
        }
        assert(s[dot] == '.');
        lemma_rfind(s, '.');
        assert(rfind(s, '.') == Some(dot));
        assert(s.take(dot) =~= front);
        assert(s.skip(dot + 1) =~= last);
    }
}

/// The text of an IPv4 address is read as that address.
pub proof fn law_ip4_text_is_read(a: u32)
    ensures
        ip4_value(ip4_text(a)) == Some(a),
{
    lemma_dotted_text(a as int, 4);
}

/// The IPv6 address and scope identifier of the text between square brackets: an
/// address, and a percent sign with a decimal number if there is a scope.
pub open spec fn scoped_ip6_literal(s: Seq<char>) -> Option<(u128, u32)> {
    match find(s, '%') {
        None => match ip_literal(s) {
            Some(IpAddr::V6(a)) => Some((a, 0)),
            _ => None,
        },
        Some(k) => match (ip_literal(s.take(k)), decimal(s.skip(k + 1), u32::MAX as int)) {
            (Some(IpAddr::V6(a)), Some(scope)) => Some((a, scope as u32)),
            _ => None,
        },
    }
}

/// The socket address that a text writes: an IPv4 address, a colon and a decimal port,
/// or an IPv6 address in square brackets, a colon and a decimal port.
pub open spec fn socket_literal(s: Seq<char>) -> Option<SocketAddr> {
    match rfind(s, ':') {
        None => None,
        Some(c) => {
            let host = s.take(c);
            match decimal(s.skip(c + 1), 65535) {
                None => None,
                Some(port) => if host.len() >= 2 && host[0] == '[' && host.last() == ']' {
                    match scoped_ip6_literal(host.subrange(1, host.len() - 1)) {
                        Some((a, scope_id)) => Some(
                            SocketAddr {
                                ip: IpAddr::V6(a),
                                port: port as u16,
                                flowinfo: 0,
                                scope_id,
                            },
                        ),
                        None => None,
                    }
                } else {
                    match ip_literal(host) {
                        Some(IpAddr::V4(a)) => Some(at_port(IpAddr::V4(a), port as u16)),
                        _ => None,
                    }
                },
            }
        },
    }
}

/// Reads `core::net::IpAddr` by `FromStr`. It accepts the texts of IPv4 addresses, four
/// decimal numbers up to 255 without leading zeros and with dots between them, and of IPv6
/// addresses, groups of hexadecimal digits with colons between them, of which the last two
/// may be written as an IPv4 address. Which IPv6 address a text stands for is not spelled
/// out.
#[verifier::external_body]
pub(crate) fn parse_ip_literal(text: &str) -> (r: Option<IpAddr>)
    ensures
        r == ip_literal(text@),
        match r {
            Some(IpAddr::V6(a)) => read_ip6(text@) == Some(a),
            _ => read_ip6(text@) is None,
        },
{
    match text.parse::<core::net::IpAddr>() {
        Ok(core::net::IpAddr::V4(a)) => Some(IpAddr::V4(u32::from(a))),
        Ok(core::net::IpAddr::V6(a)) => Some(IpAddr::V6(u128::from(a))),
        Err(_) => None,
    }
}

/// Reads `core::net::SocketAddr` by `FromStr`. It accepts an IPv4 address followed by a
/// colon and a decimal port, and in order: a left square bracket, an IPv6 address, if
/// there is a scope a percent sign and a decimal number, a right square bracket, a colon
/// and a decimal port.
#[verifier::external_body]
pub(crate) fn parse_socket_literal(text: &str) -> (r: Option<SocketAddr>)
    ensures
        r == socket_literal(text@),
{
    match text.parse::<core::net::SocketAddr>() {
        Ok(core::net::SocketAddr::V4(a)) => Some(SocketAddr {
            ip: IpAddr::V4(u32::from(*a.ip())),
            port: a.port(),
            flowinfo: 0,
            scope_id: 0,
        }),
        Ok(core::net::SocketAddr::V6(a)) => Some(SocketAddr {
            ip: IpAddr::V6(u128::from(*a.ip())),
            port: a.port(),
            flowinfo: a.flowinfo(),
            scope_id: a.scope_id(),
        }),
        Err(_) => None,
    }
}

/// A link-local name server that some systems configure although it is not reachable.
pub const FILTERED_IP_1: u128 = 0xfec0_0000_0000_ffff_0000_0000_0000_0001;

/// A link-local name server that some systems configure although it is not reachable.
pub const FILTERED_IP_2: u128 = 0xfec0_0000_0000_ffff_0000_0000_0000_0002;

/// A link-local name server that some systems configure although it is not reachable.
pub const FILTERED_IP_3: u128 = 0xfec0_0000_0000_ffff_0000_0000_0000_0003;

/// Whether a name server is left out of the configuration of the resolver.
pub open spec fn is_filtered(ip: IpAddr) -> bool {
    ip == IpAddr::V6(FILTERED_IP_1) || ip == IpAddr::V6(FILTERED_IP_2) || ip == IpAddr::V6(
        FILTERED_IP_3,
    )
}

/// Whether the resolver may use a name server.
pub fn is_usable_name_server(ip: IpAddr) -> (r: bool)
    ensures
        r == !is_filtered(ip),
{
    match ip {
        IpAddr::V4(_) => true,
        IpAddr::V6(a) => a != FILTERED_IP_1 && a != FILTERED_IP_2 && a != FILTERED_IP_3,
    }
}

/// A text is read as an IPv4 address if and only if it is the text of that address.
pub proof fn law_only_ip4_text_is_read(s: Seq<char>, a: u32)
    ensures
        ip4_value(s) == Some(a) <==> s == ip4_text(a),
{
    law_ip4_text_is_read(a);
    if ip4_value(s) == Some(a) {
        lemma_dotted_value(s, 4);
        lemma_dotted_text_back(s, 4);
    }
}

proof fn lemma_dotted_text_back(s: Seq<char>, n: nat)
    requires
        1 <= n <= 4,
        dotted_value(s, n) is Some,
    ensures
        s == dotted_text(dotted_value(s, n)->0, n),
    decreases n,
{
    if n == 1 {
        law_digits_are_the_decimal_text(s, octet_value(s)->0, 255);
    } else {
        lemma_rfind(s, '.');
        let dot = rfind(s, '.')->0;
        let front = s.take(dot);
        let last = s.skip(dot + 1);
        let high = dotted_value(front, (n - 1) as nat)->0;
        let low = octet_value(last)->0;
        lemma_dotted_text_back(front, (n - 1) as nat);
        law_digits_are_the_decimal_text(last, low, 255);
        lemma_digits_value(last, 255);
        let v = dotted_value(s, n)->0;
        assert(v == high * 256 + low);
        assert(v / 256 == high && v % 256 == low);
        assert(s =~= front + seq!['.'] + last);
    }
}

/// An IPv4 address is written as its four bytes in decimal, the most significant first,
/// with dots between them.
pub proof fn law_ip4_is_four_bytes(a: u8, b: u8, c: u8, d: u8)
    ensures
        ip_literal(
            decimal_text(a as int) + seq!['.'] + decimal_text(b as int) + seq!['.'] + decimal_text(
                c as int,
            ) + seq!['.'] + decimal_text(d as int),
        ) == Some(IpAddr::V4((a * 0x100_0000 + b * 0x1_0000 + c * 0x100 + d) as u32)),
{
    let value: int = a * 0x100_0000 + b * 0x1_0000 + c * 0x100 + d;
    let high: int = a * 0x1_0000 + b * 0x100 + c;
    let mid: int = a * 0x100 + b;
    assert(value / 256 == high && value % 256 == d);
    assert(high / 256 == mid && high % 256 == c);
    assert(mid / 256 == a && mid % 256 == b);
    assert(dotted_text(a as int, 1) == decimal_text(a as int));
    assert(dotted_text(mid, 2) == decimal_text(a as int) + seq!['.'] + decimal_text(b as int));
    assert(dotted_text(high, 3) == dotted_text(mid, 2) + seq!['.'] + decimal_text(c as int));
    assert(ip4_text(value as u32) == dotted_text(high, 3) + seq!['.'] + decimal_text(d as int));
    law_ip4_text_is_read(value as u32);
}

/// The ip addresses that texts write: an IPv4 address by its text alone, an IPv6 address as
/// the standard library reads it, in hexadecimal digits, dots and at least two colons.
pub proof fn law_ip_literals(s: Seq<char>, ip4: u32, ip6: u128)
    ensures
        ip_literal(s) == Some(IpAddr::V4(ip4)) <==> s == ip4_text(ip4),
        ip_literal(s) == Some(IpAddr::V6(ip6)) <==> (read_ip6(s) == Some(ip6) && (forall|i: int|
            0 <= i < s.len() ==> ('0' <= #[trigger] s[i] && s[i] <= '9') || ('a' <= s[i] && s[i]
                <= 'f') || ('A' <= s[i] && s[i] <= 'F') || s[i] == ':' || s[i] == '.') && (exists|
            i: int,
            j: int,
        |
            0 <= i < j < s.len() && #[trigger] s[i] == ':' && #[trigger] s[j] == ':')),
{
    law_only_ip4_text_is_read(s, ip4);
    lemma_find(s, ':');
    lemma_rfind(s, ':');
    lemma_dotted_value(s, 4);
    let chars = forall|i: int|
        0 <= i < s.len() ==> ('0' <= #[trigger] s[i] && s[i] <= '9') || ('a' <= s[i] && s[i] <= 'f')
            || ('A' <= s[i] && s[i] <= 'F') || s[i] == ':' || s[i] == '.';
    let colons = exists|i: int, j: int|
        0 <= i < j < s.len() && #[trigger] s[i] == ':' && #[trigger] s[j] == ':';
    assert(chars == (forall|i: int| 0 <= i < s.len() ==> is_ip6_char(#[trigger] s[i]))) by {
        if chars {
            assert forall|i: int| 0 <= i < s.len() implies is_ip6_char(#[trigger] s[i]) by {}
        } else {
            let k = choose|i: int|
                0 <= i < s.len() && !(('0' <= #[trigger] s[i] && s[i] <= '9') || ('a' <= s[i]
                    && s[i] <= 'f') || ('A' <= s[i] && s[i] <= 'F') || s[i] == ':' || s[i] == '.');
            assert(!is_ip6_char(s[k]));
        }
    }
    assert(colons == (find(s, ':') is Some && find(s, ':') != rfind(s, ':'))) by {
        if find(s, ':') is Some && find(s, ':') != rfind(s, ':') {
            let i = find(s, ':')->0;
            let j = rfind(s, ':')->0;
            assert(0 <= i < j < s.len() && s[i] == ':' && s[j] == ':');
        }
    }
    if ip4_value(s) is Some && colons {
        let (i, j) = choose|i: int, j: int|
            0 <= i < j < s.len() && #[trigger] s[i] == ':' && #[trigger] s[j] == ':';
        assert(is_digit_or_dot(s[i]));
    }
}

/// A socket address has the ip address and the port that it is made of, and nothing else.
pub proof fn law_at_port(ip: IpAddr, port: u16)
    ensures
        at_port(ip, port).ip == ip,
        at_port(ip, port).port == port,
        at_port(ip, port).flowinfo == 0,
        at_port(ip, port).scope_id == 0,
{
}

/// The text of a socket address ends in a colon and a decimal port. In front of them stands
/// an IPv4 address, or in square brackets an IPv6 address, with a percent sign and a decimal
/// number behind it if it has a scope.
pub proof fn law_socket_literals(
    ip: Seq<char>,
    scope: Seq<char>,
    port: Seq<char>,
    rest: Seq<char>,
)
    requires
        forall|i: int| 0 <= i < port.len() ==> port[i] != ':',
        forall|i: int| 0 <= i < ip.len() ==> ip[i] != '%',
    ensures
        decimal(port, 65535) is None ==> socket_literal(rest + seq![':'] + port) is None,
        decimal(port, 65535) matches Some(p) ==> {
            &&& ip_literal(ip) matches Some(IpAddr::V4(a)) ==> socket_literal(
                ip + seq![':'] + port,
            ) == Some(
                SocketAddr { ip: IpAddr::V4(a), port: p as u16, flowinfo: 0, scope_id: 0 },
            )
            &&& ip_literal(ip) matches Some(IpAddr::V6(a)) ==> socket_literal(
                seq!['['] + ip + seq![']'] + seq![':'] + port,
            ) == Some(
                SocketAddr { ip: IpAddr::V6(a), port: p as u16, flowinfo: 0, scope_id: 0 },
            )
            &&& ip_literal(ip) matches Some(IpAddr::V6(a)) ==> (decimal(scope, 0xffff_ffff) matches
            Some(z) ==> socket_literal(
                seq!['['] + (ip + seq!['%'] + scope) + seq![']'] + seq![':'] + port,
            ) == Some(
                SocketAddr { ip: IpAddr::V6(a), port: p as u16, flowinfo: 0, scope_id: z as u32 },
            ))
        },
{
    lemma_socket_parts(rest, port);
    lemma_socket_parts(ip, port);
    lemma_find(ip, '%');
    if decimal(port, 65535) is Some {
        if ip_literal(ip) matches Some(IpAddr::V4(a)) {
            lemma_dotted_value(ip, 4);
            if ip.len() >= 2 {
                assert(is_digit_or_dot(ip[0]));
            }
        }
        let plain = seq!['['] + ip + seq![']'];
        lemma_socket_parts(plain, port);
        assert(plain.subrange(1, plain.len() - 1) =~= ip);
        assert(plain[0] == '[' && plain.last() == ']');
        let inner = ip + seq!['%'] + scope;
        let scoped = seq!['['] + inner + seq![']'];
        lemma_socket_parts(scoped, port);
        assert(scoped.subrange(1, scoped.len() - 1) =~= inner);
        assert(scoped[0] == '[' && scoped.last() == ']');
        lemma_find(inner, '%');
        assert(inner[ip.len() as int] == '%');
        assert(find(inner, '%') == Some(ip.len() as int)) by {
            let k = find(inner, '%')->0;
            if k < ip.len() {
                assert(inner[k] == ip[k]);
            }
        }
        assert(inner.take(ip.len() as int) =~= ip);
        assert(inner.skip(ip.len() as int + 1) =~= scope);
    }
}

proof fn lemma_socket_parts(host: Seq<char>, port: Seq<char>)
    requires
        forall|i: int| 0 <= i < port.len() ==> port[i] != ':',
    ensures
        rfind(host + seq![':'] + port, ':') == Some(host.len() as int),
        (host + seq![':'] + port).take(host.len() as int) == host,
        (host + seq![':'] + port).skip(host.len() as int + 1) == port,
{
    let s = host + seq![':'] + port;
    let n = host.len() as int;
    lemma_rfind(s, ':');
    assert(s[n] == ':');
    assert forall|j: int| n < j < s.len() implies s[j] != ':' by {
        assert(s[j] == port[j - n - 1]);
    }
    assert(s.take(n) =~= host);
    assert(s.skip(n + 1) =~= port);
}

/// The name servers that are left out are three link-local IPv6 addresses and no other.
pub proof fn law_filtered_name_servers(ip: IpAddr)
    ensures
        ip is V4 ==> !is_filtered(ip),
        ip matches IpAddr::V6(a) ==> (is_filtered(ip)
            <==> 0xfec0_0000_0000_ffff_0000_0000_0000_0001 <= a
            <= 0xfec0_0000_0000_ffff_0000_0000_0000_0003),
{
}

/// The text of an IPv4 address never begins with a number beyond a byte.
pub proof fn lemma_ip4_text_begins_with_a_byte(a: u32)
    ensures
        ip4_text(a).len() >= 3 ==> ip4_text(a).take(3) != seq!['4', '0', '4'],
{
    let first: int = a as int / 256 / 256 / 256;
    let head = decimal_text(first);
    let s = ip4_text(a);
    assert(0 <= first <= 255);
    reveal_with_fuel(dotted_text, 5);
    let tail = s.skip(head.len() as int);
    assert(forall|i: int| 0 <= i < head.len() ==> s[i] == head[i]);
    assert(s[head.len() as int] == '.');
    if s.len() >= 3 && s.take(3) == seq!['4', '0', '4'] {
        assert(s.take(3)[0] == '4' && s.take(3)[1] == '0' && s.take(3)[2] == '4');
        assert(s[0] == '4' && s[1] == '0' && s[2] == '4');
        law_decimal_text_is_read(first, 255);
        assert(head.len() >= 3);
        reveal_with_fuel(decimal_text, 4);
        assert(head.len() == 3);
        assert(first / 10 / 10 == 4);
    }
}

/// No other text writes a socket address: what stands in front of the port is an IPv4
/// address, or in square brackets an IPv6 address, with a decimal number behind the first
/// percent sign if there is one.
pub proof fn law_no_other_socket_literals(
    host: Seq<char>,
    ip: Seq<char>,
    scope: Seq<char>,
    port: Seq<char>,
)
    requires
        forall|i: int| 0 <= i < port.len() ==> port[i] != ':',
        forall|i: int| 0 <= i < ip.len() ==> ip[i] != '%',
    ensures
        (host.len() < 2 || host[0] != '[' || host[host.len() - 1] != ']') && !(ip_literal(
            host,
        ) matches Some(IpAddr::V4(_))) ==> socket_literal(host + seq![':'] + port) is None,
        !(ip_literal(ip) matches Some(IpAddr::V6(_))) ==> socket_literal(
            seq!['['] + ip + seq![']'] + seq![':'] + port,
        ) is None,
        !(ip_literal(ip) matches Some(IpAddr::V6(_))) || decimal(scope, 0xffff_ffff) is None
            ==> socket_literal(
            seq!['['] + (ip + seq!['%'] + scope) + seq![']'] + seq![':'] + port,
        ) is None,
{
    lemma_socket_parts(host, port);
    lemma_find(ip, '%');
    let plain = seq!['['] + ip + seq![']'];
    lemma_socket_parts(plain, port);
    assert(plain.subrange(1, plain.len() - 1) =~= ip);
    assert(plain[0] == '[' && plain.last() == ']');
    let inner = ip + seq!['%'] + scope;
    let scoped = seq!['['] + inner + seq![']'];
    lemma_socket_parts(scoped, port);
    assert(scoped.subrange(1, scoped.len() - 1) =~= inner);
    assert(scoped[0] == '[' && scoped.last() == ']');
    lemma_find(inner, '%');
    assert(inner[ip.len() as int] == '%');
    assert(find(inner, '%') == Some(ip.len() as int)) by {
        let k = find(inner, '%')->0;
        if k < ip.len() {
            assert(inner[k] == ip[k]);
        }
    }
    assert(inner.take(ip.len() as int) =~= ip);
    assert(inner.skip(ip.len() as int + 1) =~= scope);
}

} // verus!
