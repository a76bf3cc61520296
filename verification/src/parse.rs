//! Telling ip addresses from host names.

use vstd::prelude::*;

use crate::address::{
    all_digits_or_dots, at_port, ip4_text, ip_literal, is_digit_or_dot, is_ip6_char,
    law_ip4_text_is_read, law_only_ip4_text_is_read, lemma_dotted_value, parse_ip_literal,
    parse_socket_literal, socket_literal, IpAddr, SocketAddr, DEFAULT_PORT,
};
use crate::error::{Error, ErrorView};
use crate::port::{
    decimal, decimal_text, is_digit, law_decimal_text_is_read, law_every_port_is_read,
    lemma_digits_value, parse_port, port_value,
};
use crate::text::{chars_of, find, find_char, lemma_find, lemma_rfind, rfind, rfind_char};

verus! {

/// The kind of ip address that a text looks like.
#[derive(Debug, Clone, Copy, PartialEq, Eq, Structural)]
pub enum IpFamily {
    /// IPv4.
    V4,
    /// IPv6.
    V6,
}

/// What the text of an address is.
#[derive(Debug, PartialEq, Eq)]
pub enum ParseIpResult<'a> {
    /// An ip address with its port.
    Addr(SocketAddr),
    /// Something that looks like an ip address without being written as one: the system
    /// may still know an address for this host and port.
    Lookup(&'a str, u16, IpFamily),
    /// A host name, and the port if one is given.
    Other(&'a str, Option<u16>),
}

/// What the text of an address is, with texts as sequences of characters.
pub enum ParseIpView {
    Addr(SocketAddr),
    Lookup(Seq<char>, u16, IpFamily),
    Other(Seq<char>, Option<u16>),
}

impl<'a> View for ParseIpResult<'a> {
    type V = ParseIpView;

    open spec fn view(&self) -> ParseIpView {
        match self {
            ParseIpResult::Addr(a) => ParseIpView::Addr(*a),
            ParseIpResult::Lookup(host, port, family) => ParseIpView::Lookup(
                host@,
                *port,
                *family,
            ),
            ParseIpResult::Other(host, port) => ParseIpView::Other(host@, *port),
        }
    }
}

/// The error for a text that only looks like an ip address.
pub open spec fn invalid_ip(family: IpFamily) -> ErrorView {
    match family {
        IpFamily::V4 => ErrorView::InvalidIp4Address,
        IpFamily::V6 => ErrorView::InvalidIp6Address,
    }
}

/// What a text that looks like an ip address without a port is, given the ip address that
/// it writes, if any: it gets the default port.
pub open spec fn default_port_for(
    host: Seq<char>,
    literal: Option<IpAddr>,
    family: IpFamily,
) -> ParseIpView {
    match literal {
        Some(ip) => ParseIpView::Addr(at_port(ip, DEFAULT_PORT)),
        None => ParseIpView::Lookup(host, DEFAULT_PORT, family),
    }
}

/// What a text that looks like an ip address with a port behind the last colon is, given
/// the socket address that it writes, if any.
pub open spec fn given_port_for(
    address: Seq<char>,
    literal: Option<SocketAddr>,
    family: IpFamily,
) -> Result<ParseIpView, ErrorView> {
    match (literal, rfind(address, ':')) {
        (Some(a), _) => Ok(ParseIpView::Addr(a)),
        (None, Some(colon)) => match port_value(address.skip(colon + 1)) {
            Ok(port) => Ok(ParseIpView::Lookup(address.take(colon), port as u16, family)),
            Err(_) => Err(invalid_ip(family)),
        },
        (None, None) => Err(invalid_ip(family)),
    }
}

/// What a text that looks like an ip address without a port is.
pub open spec fn without_port(host: Seq<char>, family: IpFamily) -> ParseIpView {
    default_port_for(host, ip_literal(host), family)
}

/// What a text that looks like an ip address with a port is.
pub open spec fn with_port(address: Seq<char>, family: IpFamily) -> Result<ParseIpView, ErrorView> {
    given_port_for(address, socket_literal(address), family)
}

/// What the text of an address is.
///
/// With exactly one colon, a port follows it; in front stands an IPv4 address if it is
/// all digits and dots, else a host name. With more colons it is an IPv6 address, with a
/// port if a colon follows the last right square bracket, else in square brackets as a
/// whole or without any. Without a colon it is an IPv4 address if it is all digits and
/// dots, else a host name.
pub open spec fn parsed(address: Seq<char>) -> Result<ParseIpView, ErrorView> {
    match rfind(address, ':') {
        Some(colon) => if find(address, ':') == Some(colon) {
            if all_digits_or_dots(address.take(colon)) {
                with_port(address, IpFamily::V4)
            } else {
                match port_value(address.skip(colon + 1)) {
                    Ok(port) => Ok(ParseIpView::Other(address.take(colon), Some(port as u16))),
                    Err(e) => Err(ErrorView::InvalidPort(e)),
                }
            }
        } else {
            match rfind(address, ']') {
                Some(bracket) => if bracket < colon {
                    with_port(address, IpFamily::V6)
                } else if bracket == address.len() - 1 && address[0] == '[' {
                    Ok(without_port(address.subrange(1, bracket), IpFamily::V6))
                } else {
                    Err(ErrorView::InvalidIpAddress)
                },
                None => Ok(without_port(address, IpFamily::V6)),
            }
        },
        None => if all_digits_or_dots(address) {
            Ok(without_port(address, IpFamily::V4))
        } else {
            Ok(ParseIpView::Other(address, None))
        },
    }
}

/// Whether the first `n` characters are all digits or dots.
fn are_digits_or_dots(s: &Vec<char>, n: usize) -> (r: bool)
    requires
        n <= s.len(),
    ensures
        r == all_digits_or_dots(s@.take(n as int)),
{
    let mut i: usize = 0;
    while i < n
        invariant
            i <= n <= s.len(),
            forall|j: int| 0 <= j < i ==> is_digit_or_dot(#[trigger] s@[j]),
        decreases n - i,
    {
        let c = s[i];
        if !(('0' <= c && c <= '9') || c == '.') {
            proof {
                assert(!is_digit_or_dot(s@.take(n as int)[i as int]));
            }
            return false;
        }
        i += 1;
    }
    true
}

/// Tells what a text that looks like an ip address without a port is, given the ip address
/// that it writes, if any.
pub fn use_default_port<'a>(host: &'a str, literal: Option<IpAddr>, family: IpFamily) -> (r:
    ParseIpResult<'a>)
    ensures
        r@ == default_port_for(host@, literal, family),
{
    match literal {
        Some(ip) => ParseIpResult::Addr(SocketAddr::new(ip, DEFAULT_PORT)),
        None => ParseIpResult::Lookup(host, DEFAULT_PORT, family),
    }
}

/// Tells what a text that looks like an ip address with a port behind the last colon is,
/// given the socket address that it writes, if any.
pub fn use_given_port<'a>(address: &'a str, literal: Option<SocketAddr>, family: IpFamily) -> (r:
    Result<ParseIpResult<'a>, Error>)
    ensures
        match r {
            Ok(p) => given_port_for(address@, literal, family) == Ok::<ParseIpView, ErrorView>(p@),
            Err(e) => given_port_for(address@, literal, family) == Err::<ParseIpView, ErrorView>(
                e@,
            ),
        },
{
    if let Some(a) = literal {
        return Ok(ParseIpResult::Addr(a));
    }
    let chars = chars_of(address);
    proof {
        lemma_rfind(address@, ':');
    }
    if let Some(colon) = rfind_char(&chars, ':') {
        let text = address.substring_char(colon + 1, chars.len());
        assert(text@ == address@.skip(colon + 1));
        if let Ok(port) = parse_port(text) {
            let host = address.substring_char(0, colon);
            assert(host@ == address@.take(colon as int));
            return Ok(ParseIpResult::Lookup(host, port, family));
        }
    }
    match family {
        IpFamily::V4 => Err(Error::InvalidIp4Address),
        IpFamily::V6 => Err(Error::InvalidIp6Address),
    }
}

/// Tells what the text of an address is. No name is looked up here.
pub fn parse_ip<'a>(address: &'a str) -> (r: Result<ParseIpResult<'a>, Error>)
    ensures
        match r {
            Ok(p) => parsed(address@) == Ok::<ParseIpView, ErrorView>(p@),
            Err(e) => parsed(address@) == Err::<ParseIpView, ErrorView>(e@),
        },
{
    let chars = chars_of(address);
    let len = chars.len();
    proof {
        lemma_find(address@, ':');
        lemma_rfind(address@, ':');
        lemma_rfind(address@, ']');
    }
    if let Some(colon) = rfind_char(&chars, ':') {
        let first = find_char(&chars, ':');
        if first == Some(colon) {
            if are_digits_or_dots(&chars, colon) {
                return use_given_port(address, parse_socket_literal(address), IpFamily::V4);
            }
            let host = address.substring_char(0, colon);
            assert(host@ == address@.take(colon as int));
            let text = address.substring_char(colon + 1, len);
            assert(text@ == address@.skip(colon + 1));
            return match parse_port(text) {
                Ok(port) => Ok(ParseIpResult::Other(host, Some(port))),
                Err(e) => Err(Error::InvalidPort(e)),
            };
        }
        match rfind_char(&chars, ']') {
            Some(bracket) => {
                if bracket < colon {
                    use_given_port(address, parse_socket_literal(address), IpFamily::V6)
                } else if bracket == len - 1 && chars[0] == '[' {
                    let host = address.substring_char(1, bracket);
                    Ok(use_default_port(host, parse_ip_literal(host), IpFamily::V6))
                } else {
                    Err(Error::InvalidIpAddress)
                }
            },
            None => Ok(use_default_port(address, parse_ip_literal(address), IpFamily::V6)),
        }
    } else if are_digits_or_dots(&chars, len) {
        assert(address@.take(len as int) == address@);
        Ok(use_default_port(address, parse_ip_literal(address), IpFamily::V4))
    } else {
        assert(address@.take(len as int) == address@);
        Ok(ParseIpResult::Other(address, None))
    }
}

/// The last `c` of `s` stands at `i`.
proof fn lemma_rfind_at(s: Seq<char>, c: char, i: int)
    requires
        0 <= i < s.len(),
        s[i] == c,
        forall|j: int| i < j < s.len() ==> s[j] != c,
    ensures
        rfind(s, c) == Some(i),
{
    lemma_rfind(s, c);
}

/// The only `c` of `s` stands at `i`.
proof fn lemma_only_at(s: Seq<char>, c: char, i: int)
    requires
        0 <= i < s.len(),
        s[i] == c,
        forall|j: int| 0 <= j < s.len() && j != i ==> s[j] != c,
    ensures
        find(s, c) == Some(i),
        rfind(s, c) == Some(i),
{
    lemma_find(s, c);
    lemma_rfind(s, c);
}

/// If the address is an ip, the ip is returned, with the default port.
pub proof fn law_ip_is_returned(address: Seq<char>, ip: IpAddr)
    requires
        ip_literal(address) == Some(ip),
    ensures
        parsed(address) == Ok::<ParseIpView, ErrorView>(
            ParseIpView::Addr(at_port(ip, DEFAULT_PORT)),
        ),
{
    lemma_find(address, ':');
    lemma_rfind(address, ':');
    lemma_rfind(address, ']');
    match ip {
        IpAddr::V4(_) => {
            lemma_dotted_value(address, 4);
            assert(rfind(address, ':') is None) by {
                if rfind(address, ':') is Some {
                    let i = rfind(address, ':')->0;
                    assert(is_digit_or_dot(address[i]));
                }
            }
        },
        IpAddr::V6(_) => {
            assert(rfind(address, ']') is None) by {
                if rfind(address, ']') is Some {
                    let i = rfind(address, ']')->0;
                    assert(is_ip6_char(address[i]));
                }
            }
        },
    }
}

/// An IPv6 address in square brackets is returned with the default port.
pub proof fn law_bracketed_ip_is_returned(address: Seq<char>, host: Seq<char>, ip: u128)
    requires
        ip_literal(host) == Some(IpAddr::V6(ip)),
        address == seq!['['] + host + seq![']'],
    ensures
        parsed(address) == Ok::<ParseIpView, ErrorView>(
            ParseIpView::Addr(at_port(IpAddr::V6(ip), DEFAULT_PORT)),
        ),
{
    let n = host.len() as int;
    lemma_find(host, ':');
    lemma_rfind(host, ':');
    let first = find(host, ':')->0;
    let last = rfind(host, ':')->0;
    assert(forall|j: int| 0 <= j < n ==> address[j + 1] == host[j]);
    assert(address[first + 1] == ':' && address[last + 1] == ':');
    lemma_find(address, ':');
    lemma_rfind(address, ':');
    lemma_rfind_at(address, ']', n + 1);
    assert(address.subrange(1, n + 1) == host);
}

/// An IPv4 address, a colon and a port are returned as they are given.
pub proof fn law_ip4_with_port_is_returned(
    address: Seq<char>,
    host: Seq<char>,
    ip: u32,
    port_text: Seq<char>,
    port: u16,
)
    requires
        ip_literal(host) == Some(IpAddr::V4(ip)),
        decimal(port_text, 65535) == Some(port as int),
        address == host + seq![':'] + port_text,
    ensures
        parsed(address) == Ok::<ParseIpView, ErrorView>(
            ParseIpView::Addr(at_port(IpAddr::V4(ip), port)),
        ),
{
    let n = host.len() as int;
    lemma_digits_value(port_text, 65535);
    lemma_dotted_value(host, 4);
    assert forall|j: int| 0 <= j < address.len() && j != n implies address[j] != ':' by {
        if j < n {
            assert(is_digit_or_dot(host[j]));
        } else {
            assert(is_digit(port_text[j - n - 1]));
        }
    }
    lemma_only_at(address, ':', n);
    assert(address.take(n) == host);
    assert(address.skip(n + 1) == port_text);
    assert(!(host.len() >= 2 && host[0] == '[')) by {
        if host.len() >= 2 {
            assert(is_digit_or_dot(host[0]));
        }
    }
}

/// Every IPv4 address, written in decimal with dots, is returned with the default port, and
/// with a colon and a port in decimal behind it, with that port.
pub proof fn law_every_ip4_is_returned(ip: u32, port: u16)
    ensures
        parsed(ip4_text(ip)) == Ok::<ParseIpView, ErrorView>(
            ParseIpView::Addr(at_port(IpAddr::V4(ip), DEFAULT_PORT)),
        ),
        parsed(ip4_text(ip) + seq![':'] + decimal_text(port as int)) == Ok::<
            ParseIpView,
            ErrorView,
        >(ParseIpView::Addr(at_port(IpAddr::V4(ip), port))),
{
    let host = ip4_text(ip);
    let port_text = decimal_text(port as int);
    law_ip4_text_is_read(ip);
    law_decimal_text_is_read(port as int, 65535);
    law_ip_is_returned(host, IpAddr::V4(ip));
    law_ip4_with_port_is_returned(host + seq![':'] + port_text, host, ip, port_text, port);
}

/// An IPv6 address in square brackets, a colon and a port are returned as they are given.
pub proof fn law_bracketed_ip_with_port_is_returned(
    address: Seq<char>,
    host: Seq<char>,
    ip: u128,
    port_text: Seq<char>,
    port: u16,
)
    requires
        ip_literal(host) == Some(IpAddr::V6(ip)),
        decimal(port_text, 65535) == Some(port as int),
        address == seq!['['] + host + seq![']', ':'] + port_text,
    ensures
        parsed(address) == Ok::<ParseIpView, ErrorView>(
            ParseIpView::Addr(at_port(IpAddr::V6(ip), port)),
        ),
{
    let n = host.len() as int;
    let bracketed = seq!['['] + host + seq![']'];
    lemma_digits_value(port_text, 65535);
    lemma_find(host, ':');
    lemma_find(host, '%');
    let first = find(host, ':')->0;
    assert(forall|j: int| 0 <= j < n ==> address[j + 1] == host[j]);
    assert forall|j: int| n + 2 < j < address.len() implies is_digit(#[trigger] address[j]) by {
        assert(address[j] == port_text[j - n - 3]);
    }
    assert(address[n + 1] == ']' && address[n + 2] == ':');
    lemma_rfind_at(address, ':', n + 2);
    lemma_rfind_at(address, ']', n + 1);
    assert(address[first + 1] == ':');
    lemma_find(address, ':');
    assert(address.take(n + 2) == bracketed);
    assert(address.skip(n + 3) == port_text);
    assert(bracketed.last() == ']');
    assert(bracketed.subrange(1, n + 1) == host);
    assert(find(host, '%') is None) by {
        if find(host, '%') is Some {
            let i = find(host, '%')->0;
            assert(is_ip6_char(host[i]));
        }
    }
}

/// A host name with a port is kept apart from its port.
pub proof fn law_host_with_port(
    address: Seq<char>,
    host: Seq<char>,
    port_text: Seq<char>,
    port: u16,
)
    requires
        !all_digits_or_dots(host),
        find(host, ':') is None,
        port_value(port_text) == Ok::<int, crate::port::PortError>(port as int),
        address == host + seq![':'] + port_text,
    ensures
        parsed(address) == Ok::<ParseIpView, ErrorView>(ParseIpView::Other(host, Some(port))),
{
    let n = host.len() as int;
    lemma_find(host, ':');
    assert forall|j: int| 0 <= j < address.len() && j != n implies address[j] != ':' by {
        if j < n {
            assert(address[j] == host[j]);
        } else {
            let k = j - n - 1;
            assert(address[j] == port_text[k]);
            if port_text[0] == '+' {
                lemma_digits_value(port_text.drop_first(), 65535);
                if k > 0 {
                    assert(is_digit(port_text.drop_first()[k - 1]));
                }
            } else {
                lemma_digits_value(port_text, 65535);
                assert(is_digit(port_text[k]));
            }
        }
    }
    lemma_only_at(address, ':', n);
    assert(address.take(n) == host);
    assert(address.skip(n + 1) == port_text);
}

/// A host name without a port is the whole address, and has no colon.
pub proof fn law_host_without_port(address: Seq<char>, host: Seq<char>)
    ensures
        parsed(address) == Ok::<ParseIpView, ErrorView>(ParseIpView::Other(host, None)) <==> (host
            == address && find(address, ':') is None && !all_digits_or_dots(address)),
{
    lemma_find(address, ':');
    lemma_rfind(address, ':');
}

/// A text without a colon, with a character that is neither a digit nor a dot, is a host
/// name without a port.
pub proof fn law_name_is_a_host(host: Seq<char>, k: int)
    requires
        forall|i: int| 0 <= i < host.len() ==> host[i] != ':',
        0 <= k < host.len(),
        !('0' <= host[k] && host[k] <= '9') && host[k] != '.',
    ensures
        parsed(host) == Ok::<ParseIpView, ErrorView>(ParseIpView::Other(host, None)),
{
    lemma_find(host, ':');
    lemma_rfind(host, ':');
    assert(!is_digit_or_dot(host[k]));
}

/// What follows the only colon of a text is the port of the host name in front of it, if
/// that has a character that is neither a digit nor a dot. What is wrong with the port is
/// wrong with the address.
pub proof fn law_port_follows_the_host(host: Seq<char>, k: int, port_text: Seq<char>)
    requires
        forall|i: int| 0 <= i < host.len() ==> host[i] != ':',
        0 <= k < host.len(),
        !('0' <= host[k] && host[k] <= '9') && host[k] != '.',
        forall|i: int| 0 <= i < port_text.len() ==> port_text[i] != ':',
    ensures
        parsed(host + seq![':'] + port_text) == match port_value(port_text) {
            Ok(port) => Ok::<ParseIpView, ErrorView>(ParseIpView::Other(host, Some(port as u16))),
            Err(e) => Err(ErrorView::InvalidPort(e)),
        },
{
    lemma_one_colon(host, port_text);
    assert(!is_digit_or_dot(host[k]));
}

/// A host name, a colon and the decimal digits of any port are that host name with that
/// port, also if a plus sign stands in front of the digits.
pub proof fn law_every_port_of_a_host(host: Seq<char>, k: int, port: u16)
    requires
        forall|i: int| 0 <= i < host.len() ==> host[i] != ':',
        0 <= k < host.len(),
        !('0' <= host[k] && host[k] <= '9') && host[k] != '.',
    ensures
        parsed(host + seq![':'] + decimal_text(port as int)) == Ok::<ParseIpView, ErrorView>(
            ParseIpView::Other(host, Some(port)),
        ),
        parsed(host + seq![':'] + (seq!['+'] + decimal_text(port as int))) == Ok::<
            ParseIpView,
            ErrorView,
        >(ParseIpView::Other(host, Some(port))),
{
    let digits = decimal_text(port as int);
    let signed = seq!['+'] + digits;
    law_every_port_is_read(port);
    law_decimal_text_is_read(port as int, 65535);
    lemma_digits_value(digits, 65535);
    assert forall|i: int| 0 <= i < digits.len() implies digits[i] != ':' by {
        assert(is_digit(digits[i]));
    }
    assert forall|i: int| 0 <= i < signed.len() implies signed[i] != ':' by {
        if i > 0 {
            assert(signed[i] == digits[i - 1]);
        }
    }
    law_port_follows_the_host(host, k, digits);
    law_port_follows_the_host(host, k, signed);
}

/// Digits and dots alone are an IPv4 address with the default port if they are the text of
/// one; else the system is asked about them, with the default port.
pub proof fn law_digits_and_dots(text: Seq<char>, ip: u32)
    requires
        forall|i: int|
            0 <= i < text.len() ==> ('0' <= #[trigger] text[i] && text[i] <= '9') || text[i]
                == '.',
    ensures
        text == ip4_text(ip) ==> parsed(text) == Ok::<ParseIpView, ErrorView>(
            ParseIpView::Addr(at_port(IpAddr::V4(ip), 9987)),
        ),
        (forall|a: u32| text != #[trigger] ip4_text(a)) ==> parsed(text) == Ok::<
            ParseIpView,
            ErrorView,
        >(ParseIpView::Lookup(text, 9987, IpFamily::V4)),
{
    lemma_find(text, ':');
    lemma_rfind(text, ':');
    assert(rfind(text, ':') is None) by {
        if rfind(text, ':') is Some {
            let i = rfind(text, ':')->0;
            assert(('0' <= text[i] && text[i] <= '9') || text[i] == '.');
        }
    }
    assert(find(text, ':') is None);
    assert(all_digits_or_dots(text));
    law_only_ip4_text_is_read(text, ip);
    if ip_literal(text) is Some {
        let a = ip_literal(text)->0->V4_0;
        law_only_ip4_text_is_read(text, a);
    }
}

/// Digits and dots in front of the only colon are an IPv4 address with that port if they are
/// the text of one and the port is in decimal. Else the system is asked about them if a port
/// can be read, and without a port they are malformed.
pub proof fn law_digits_and_dots_with_port(text: Seq<char>, ip: u32, port_text: Seq<char>)
    requires
        forall|i: int|
            0 <= i < text.len() ==> ('0' <= #[trigger] text[i] && text[i] <= '9') || text[i]
                == '.',
        forall|i: int| 0 <= i < port_text.len() ==> port_text[i] != ':',
    ensures
        text == ip4_text(ip) ==> (decimal(port_text, 65535) matches Some(port) ==> parsed(
            text + seq![':'] + port_text,
        ) == Ok::<ParseIpView, ErrorView>(
            ParseIpView::Addr(at_port(IpAddr::V4(ip), port as u16)),
        )),
        decimal(port_text, 65535) is None || (forall|a: u32| text != #[trigger] ip4_text(a))
            ==> parsed(text + seq![':'] + port_text) == match port_value(port_text) {
            Ok(port) => Ok::<ParseIpView, ErrorView>(
                ParseIpView::Lookup(text, port as u16, IpFamily::V4),
            ),
            Err(_) => Err(ErrorView::InvalidIp4Address),
        },
{
    lemma_no_colon_in_digits(text);
    lemma_one_colon(text, port_text);
    assert(all_digits_or_dots(text));
    if text.len() >= 2 {
        assert(is_digit_or_dot(text[0]));
    }
    law_only_ip4_text_is_read(text, ip);
    lemma_find(text, ':');
    if ip_literal(text) is Some {
        let a = ip_literal(text)->0->V4_0;
        law_only_ip4_text_is_read(text, a);
    }
}

proof fn lemma_no_colon_in_digits(text: Seq<char>)
    requires
        forall|i: int|
            0 <= i < text.len() ==> ('0' <= #[trigger] text[i] && text[i] <= '9') || text[i]
                == '.',
    ensures
        forall|i: int| 0 <= i < text.len() ==> text[i] != ':',
{
}

/// Where the only colon stands, and what it parts.
proof fn lemma_one_colon(host: Seq<char>, port_text: Seq<char>)
    requires
        forall|i: int| 0 <= i < host.len() ==> host[i] != ':',
        forall|i: int| 0 <= i < port_text.len() ==> port_text[i] != ':',
    ensures
        find(host + seq![':'] + port_text, ':') == Some(host.len() as int),
        rfind(host + seq![':'] + port_text, ':') == Some(host.len() as int),
        (host + seq![':'] + port_text).take(host.len() as int) == host,
        (host + seq![':'] + port_text).skip(host.len() as int + 1) == port_text,
{
    let address = host + seq![':'] + port_text;
    let n = host.len() as int;
    assert forall|j: int| 0 <= j < address.len() && j != n implies address[j] != ':' by {
        if j < n {
            assert(address[j] == host[j]);
        } else {
            assert(address[j] == port_text[j - n - 1]);
        }
    }
    assert(address[n] == ':');
    lemma_only_at(address, ':', n);
    assert(address.take(n) =~= host);
    assert(address.skip(n + 1) =~= port_text);
}

/// A text with several colons and no right square bracket is the ip address that it writes,
/// with the default port; if it writes none, the system is asked about it.
pub proof fn law_several_colons(address: Seq<char>, i: int, j: int)
    requires
        0 <= i < j < address.len(),
        address[i] == ':' && address[j] == ':',
        forall|n: int| 0 <= n < address.len() ==> address[n] != ']',
    ensures
        parsed(address) == match ip_literal(address) {
            Some(ip) => Ok::<ParseIpView, ErrorView>(ParseIpView::Addr(at_port(ip, 9987))),
            None => Ok(ParseIpView::Lookup(address, 9987, IpFamily::V6)),
        },
{
    lemma_find(address, ':');
    lemma_rfind(address, ':');
    lemma_rfind(address, ']');
}

/// Square brackets around a text with several colons are left out: the text is the ip
/// address that it writes, with the default port, or the system is asked about it.
pub proof fn law_brackets_are_left_out(inner: Seq<char>, i: int, j: int)
    requires
        0 <= i < j < inner.len(),
        inner[i] == ':' && inner[j] == ':',
    ensures
        parsed(seq!['['] + inner + seq![']']) == match ip_literal(inner) {
            Some(ip) => Ok::<ParseIpView, ErrorView>(ParseIpView::Addr(at_port(ip, 9987))),
            None => Ok(ParseIpView::Lookup(inner, 9987, IpFamily::V6)),
        },
{
    let address = seq!['['] + inner + seq![']'];
    let n = inner.len() as int;
    assert(address.len() == n + 2);
    assert(address[i + 1] == ':' && address[j + 1] == ':');
    assert(address[0] == '[' && address[n + 1] == ']');
    lemma_rfind_at(address, ']', n + 1);
    assert(rfind(address, ':') is Some && rfind(address, ':') != find(address, ':')
        && rfind(address, ':')->0 < n + 1) by {
        lemma_find(address, ':');
        lemma_rfind(address, ':');
    }
    assert(address.subrange(1, n + 1) =~= inner);
}

/// A text with several colons whose last right square bracket stands behind all of them is
/// malformed unless it ends in the bracket and begins with a left one.
pub proof fn law_stray_brackets_are_malformed(address: Seq<char>, i: int, j: int, bracket: int)
    requires
        0 <= i < j < bracket < address.len(),
        address[i] == ':' && address[j] == ':' && address[bracket] == ']',
        forall|n: int|
            bracket < n < address.len() ==> address[n] != ']' && #[trigger] address[n] != ':',
        bracket < address.len() - 1 || address[0] != '[',
    ensures
        parsed(address) == Err::<ParseIpView, ErrorView>(ErrorView::InvalidIpAddress),
{
    lemma_find(address, ':');
    lemma_rfind(address, ':');
    lemma_rfind(address, ']');
}

/// A colon behind a right square bracket, with another colon in front, begins a port. The
/// text is the socket address that it writes. If it writes none, the system is asked about
/// what stands in front of the port, and without a port the text is malformed.
pub proof fn law_port_follows_the_bracket(front: Seq<char>, i: int, bracket: int, port_text: Seq<
    char,
>)
    requires
        0 <= i < front.len(),
        front[i] == ':',
        0 <= bracket < front.len(),
        front[bracket] == ']',
        forall|n: int|
            0 <= n < port_text.len() ==> port_text[n] != ']' && #[trigger] port_text[n] != ':',
    ensures
        parsed(front + seq![':'] + port_text) == match socket_literal(
            front + seq![':'] + port_text,
        ) {
            Some(a) => Ok::<ParseIpView, ErrorView>(ParseIpView::Addr(a)),
            None => match port_value(port_text) {
                Ok(port) => Ok(ParseIpView::Lookup(front, port as u16, IpFamily::V6)),
                Err(_) => Err(ErrorView::InvalidIp6Address),
            },
        },
{
    let address = front + seq![':'] + port_text;
    let n = front.len() as int;
    assert(address[i] == ':' && address[n] == ':' && address[bracket] == ']');
    assert forall|m: int| n < m < address.len() implies address[m] != ':' && #[trigger] address[m]
        != ']' by {
        assert(address[m] == port_text[m - n - 1]);
    }
    lemma_find(address, ':');
    lemma_rfind(address, ']');
    lemma_rfind_at(address, ':', n);
    assert(address.take(n) =~= front);
    assert(address.skip(n + 1) =~= port_text);
}

/// An IPv6 address in square brackets with a colon and the decimal digits of any port is
/// that address with that port.
pub proof fn law_every_port_of_an_ip6(text: Seq<char>, ip: u128, port: u16)
    requires
        ip_literal(text) == Some(IpAddr::V6(ip)),
    ensures
        parsed(seq!['['] + text + seq![']', ':'] + decimal_text(port as int)) == Ok::<
            ParseIpView,
            ErrorView,
        >(
            ParseIpView::Addr(
                SocketAddr { ip: IpAddr::V6(ip), port, flowinfo: 0, scope_id: 0 },
            ),
        ),
{
    let digits = decimal_text(port as int);
    law_decimal_text_is_read(port as int, 65535);
    law_bracketed_ip_with_port_is_returned(
        seq!['['] + text + seq![']', ':'] + digits,
        text,
        ip,
        digits,
        port,
    );
}

/// What the text of an address is keeps all that it holds when it is looked at.
pub proof fn law_parse_views(a: SocketAddr, host: &str, port: Option<u16>, at: u16, f: IpFamily)
    ensures
        ParseIpResult::Addr(a)@ == ParseIpView::Addr(a),
        ParseIpResult::Lookup(host, at, f)@ == ParseIpView::Lookup(host@, at, f),
        ParseIpResult::Other(host, port)@ == ParseIpView::Other(host@, port),
{
}

/// An address that a text writes is taken as it is, an ip address with the default port.
/// If it writes none, the text, or what stands in front of its port, is left to the system.
pub proof fn law_written_addresses_are_taken(
    text: Seq<char>,
    port_text: Seq<char>,
    ip: IpAddr,
    socket: SocketAddr,
    family: IpFamily,
)
    requires
        forall|i: int| 0 <= i < port_text.len() ==> port_text[i] != ':',
    ensures
        default_port_for(text, Some(ip), family) == ParseIpView::Addr(at_port(ip, 9987)),
        default_port_for(text, None, family) == ParseIpView::Lookup(text, 9987, family),
        given_port_for(text, Some(socket), family) == Ok::<ParseIpView, ErrorView>(
            ParseIpView::Addr(socket),
        ),
        given_port_for(text + seq![':'] + port_text, None, family) == match port_value(port_text) {
            Ok(port) => Ok::<ParseIpView, ErrorView>(
                ParseIpView::Lookup(text, port as u16, family),
            ),
            Err(_) => Err(
                if family is V4 {
                    ErrorView::InvalidIp4Address
                } else {
                    ErrorView::InvalidIp6Address
                },
            ),
        },
        given_port_for(port_text, None, family) is Err,
{
    let address = text + seq![':'] + port_text;
    let n = text.len() as int;
    assert(address[n] == ':');
    assert forall|j: int| n < j < address.len() implies address[j] != ':' by {
        assert(address[j] == port_text[j - n - 1]);
    }
    lemma_rfind_at(address, ':', n);
    lemma_rfind(port_text, ':');
    assert(address.take(n) =~= text);
    assert(address.skip(n + 1) =~= port_text);
}

} // verus!
