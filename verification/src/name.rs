//! The names under which servers are found in the dns.

use vstd::prelude::*;

use crate::text::{chars_of, find, lemma_find, lemma_rfind, rfind, rfind_char, texts};

verus! {

/// The service of tsdns servers.
pub const DNS_PREFIX_TCP: &'static str = "_tsdns._tcp.";

/// The service of TeamSpeak servers.
pub const DNS_PREFIX_UDP: &'static str = "_ts3._udp.";

/// The service of GreenTeaSpeak and TeaSpeak servers, looked up before the one of
/// TeamSpeak servers.
pub const DNS_PREFIX_UDP_GTS: &'static str = "_gts._udp.";

/// A host name without the dots at its end.
pub open spec fn without_end_dots(host: Seq<char>) -> Seq<char>
    decreases host.len(),
{
    if host.len() > 0 && host.last() == '.' {
        without_end_dots(host.drop_last())
    } else {
        host
    }
}

/// The part of a host name below which a tsdns server is looked for: what follows the
/// last dot but one.
pub open spec fn last_two_labels(host: Seq<char>) -> Seq<char> {
    match rfind(host, '.') {
        Some(last) => match rfind(host.take(last), '.') {
            Some(dot) => host.skip(dot + 1),
            None => host,
        },
        None => host,
    }
}

/// The name of the SRV records of a service at a host.
pub open spec fn srv_name(service: Seq<char>, host: Seq<char>) -> Seq<char> {
    service + host + seq!['.']
}

/// The hosts at which the SRV records of a server are looked up.
pub open spec fn srv_hosts(host: Seq<char>) -> Seq<Seq<char>> {
    seq![without_end_dots(host)]
}

/// The hosts at which the SRV records of a server are looked up: the host itself only,
/// written without dots at its end. A server at a shorter name is another server.
pub fn srv_lookup_hosts(host: &str) -> (r: Vec<String>)
    ensures
        texts(r@) == srv_hosts(host@),
{
    let chars = chars_of(host);
    let mut n: usize = chars.len();
    assert(host@.take(n as int) == host@);
    while n > 0 && chars[n - 1] == '.'
        invariant
            n <= chars.len(),
            chars@ == host@,
            without_end_dots(host@.take(n as int)) == without_end_dots(host@),
        decreases n,
    {
        assert(host@.take(n as int).drop_last() == host@.take(n - 1));
        n -= 1;
    }
    let trimmed = host.substring_char(0, n);
    assert(trimmed@ == host@.take(n as int));
    let mut r: Vec<String> = Vec::new();
    r.push(trimmed.to_owned());
    assert(texts(r@) =~= srv_hosts(host@));
    r
}

/// The part of a host name below which a tsdns server is looked for.
pub fn tsdns_root<'a>(host: &'a str) -> (r: &'a str)
    ensures
        r@ == last_two_labels(host@),
{
    let chars = chars_of(host);
    proof {
        lemma_rfind(host@, '.');
    }
    if let Some(last) = rfind_char(&chars, '.') {
        let mut front: Vec<char> = chars_of(host);
        front.truncate(last);
        assert(front@ == host@.take(last as int));
        proof {
            lemma_rfind(host@.take(last as int), '.');
        }
        if let Some(dot) = rfind_char(&front, '.') {
            return host.substring_char(dot + 1, chars.len());
        }
    }
    host
}

/// The name of the SRV records of a service at a host.
pub fn srv_query(service: &str, host: &str) -> (r: String)
    ensures
        r@ == srv_name(service@, host@),
{
    let mut r = service.to_owned();
    r.append(host);
    r.append(".");
    proof {
        reveal_strlit(".");
        assert("."@ =~= seq!['.']);
    }
    r
}

/// A name that is looked up has no dot at its end, and differs from the host name by
/// such dots alone.
pub proof fn law_host_is_looked_up_exactly(host: Seq<char>)
    ensures
        without_end_dots(host).len() <= host.len(),
        without_end_dots(host) == host.take(without_end_dots(host).len() as int),
        without_end_dots(host).len() > 0 ==> without_end_dots(host).last() != '.',
        forall|i: int| without_end_dots(host).len() <= i < host.len() ==> host[i] == '.',
    decreases host.len(),
{
    if host.len() > 0 && host.last() == '.' {
        let shorter = host.drop_last();
        law_host_is_looked_up_exactly(shorter);
        let n = without_end_dots(host).len() as int;
        assert(shorter.take(n) == host.take(n));
        assert(forall|i: int| 0 <= i < shorter.len() ==> shorter[i] == host[i]);
    } else {
        assert(host.take(host.len() as int) == host);
    }
}

/// Of a host name with more than two labels, the last two are kept.
pub proof fn law_two_labels_are_kept(front: Seq<char>, domain: Seq<char>, top: Seq<char>)
    requires
        find(domain, '.') is None,
        find(top, '.') is None,
    ensures
        last_two_labels(front + seq!['.'] + domain + seq!['.'] + top) == domain + seq!['.'] + top,
{
    let host = front + seq!['.'] + domain + seq!['.'] + top;
    let dot = front.len() as int;
    let last = dot + 1 + domain.len();
    lemma_find(domain, '.');
    lemma_find(top, '.');
    assert(host[dot] == '.');
    assert(host[last] == '.');
    assert forall|j: int| last < j < host.len() implies host[j] != '.' by {
        assert(host[j] == top[j - last - 1]);
    }
    lemma_rfind(host, '.');
    assert(rfind(host, '.') == Some(last));
    let before = host.take(last);
    assert forall|j: int| dot < j < before.len() implies before[j] != '.' by {
        assert(before[j] == domain[j - dot - 1]);
    }
    assert(before[dot] == '.');
    lemma_rfind(before, '.');
    assert(rfind(before, '.') == Some(dot));
    assert(host.skip(dot + 1) == domain + seq!['.'] + top);
}

/// A host name with at most two labels is kept as it is.
pub proof fn law_short_host_is_kept(host: Seq<char>)
    requires
        forall|i: int, j: int|
            0 <= i < host.len() && 0 <= j < host.len() && host[i] == '.' && host[j] == '.' ==> i
                == j,
    ensures
        last_two_labels(host) == host,
{
    lemma_rfind(host, '.');
    if rfind(host, '.') is Some {
        let last = rfind(host, '.')->0;
        lemma_rfind(host.take(last), '.');
        assert(rfind(host.take(last), '.') is None) by {
            if rfind(host.take(last), '.') is Some {
                let dot = rfind(host.take(last), '.')->0;
                assert(host[dot] == '.' && host[last] == '.');
            }
        }
    }
}

/// The name of SRV records is the service, then the whole host, then one dot.
pub proof fn law_srv_name_holds_the_whole_host(service: Seq<char>, host: Seq<char>)
    ensures
        srv_name(service, host).len() == service.len() + host.len() + 1,
        forall|i: int| 0 <= i < service.len() ==> srv_name(service, host)[i] == service[i],
        forall|i: int|
            0 <= i < host.len() ==> #[trigger] srv_name(service, host)[service.len() + i]
                == host[i],
        srv_name(service, host)[service.len() as int + host.len()] == '.',
{
}

/// SRV records are looked up at one host, which is the host name without the dots at its
/// end, whatever they are.
pub proof fn law_srv_records_are_those_of_the_host(
    name: Seq<char>,
    dots: Seq<char>,
    service: Seq<char>,
)
    requires
        name.len() > 0 ==> name[name.len() - 1] != '.',
        forall|i: int| 0 <= i < dots.len() ==> dots[i] == '.',
    ensures
        srv_hosts(name + dots) == seq![name],
        srv_name(service, srv_hosts(name + dots)[0]) == service + name + seq!['.'],
{
    let host = name + dots;
    let trimmed = without_end_dots(host);
    law_host_is_looked_up_exactly(host);
    if trimmed.len() < name.len() {
        assert(host[name.len() - 1] == name[name.len() - 1]);
    }
    if trimmed.len() > name.len() {
        assert(trimmed[trimmed.len() - 1] == host[trimmed.len() - 1]);
        assert(host[trimmed.len() - 1] == dots[trimmed.len() - 1 - name.len()]);
    }
    assert(trimmed =~= name);
    assert(srv_hosts(host) =~= seq![name]);
}

} // verus!
