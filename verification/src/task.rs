//! The steps by which an address is resolved, and what each reply leads to.

use vstd::prelude::*;
use vstd::utf8::{decode_utf8, valid_utf8};

use crate::address::{
    ip4_text, ip_literal, lemma_ip4_text_begins_with_a_byte, IpAddr, SocketAddr, DEFAULT_PORT,
};
use crate::error::{Error, ErrorView};
use crate::nickname::{
    filled_lines, law_lines_are_listed_one_by_one, lookup_url, nickname_addresses, nickname_url,
    url_with_param,
};
use crate::parse::{
    invalid_ip, law_bracketed_ip_is_returned, law_every_ip4_is_returned, law_every_port_of_a_host,
    law_every_port_of_an_ip6, law_ip_is_returned, law_name_is_a_host, law_port_follows_the_host,
    parse_ip, parsed, IpFamily, ParseIpResult, ParseIpView,
};
use crate::port::{decimal_text, port_value, PortError};
use crate::srv::SrvRecord;
use crate::text::chars_of;

verus! {

/// What the addresses of a host are good for.
#[derive(Debug)]
pub enum Purpose {
    /// They are the addresses of the server.
    Server,
    /// They are those of a tsdns server, to be asked for this address.
    Tsdns(String),
}

/// What the addresses of a host are good for, with texts as sequences of characters.
pub enum PurposeView {
    Server,
    Tsdns(Seq<char>),
}

impl View for Purpose {
    type V = PurposeView;

    open spec fn view(&self) -> PurposeView {
        match self {
            Purpose::Server => PurposeView::Server,
            Purpose::Tsdns(address) => PurposeView::Tsdns(address@),
        }
    }
}

impl Clone for Purpose {
    fn clone(&self) -> (r: Self)
        ensures
            r@ == self@,
    {
        match self {
            Purpose::Server => Purpose::Server,
            Purpose::Tsdns(address) => Purpose::Tsdns(address.clone()),
        }
    }
}

/// One step of resolving an address: something to report, or something to look up.
#[derive(Debug)]
pub enum Task {
    /// Report an address of the server.
    Found(SocketAddr),
    /// Report that a way to resolve the address failed.
    Failed(Error),
    /// Resolve a host name.
    LookupHost {
        /// The host name.
        host: String,
        /// The port that goes with the addresses of the host.
        port: u16,
        /// What the addresses are good for.
        purpose: Purpose,
    },
    /// Let the system interpret a text that looks like an ip address.
    LookupIp {
        /// The text.
        host: String,
        /// The port that goes with the address.
        port: u16,
        /// The kind of address that the text looks like.
        family: IpFamily,
    },
    /// Fetch the answer of a nickname lookup.
    FetchNickname {
        /// Where the answer is.
        url: String,
    },
    /// Look up SRV records.
    LookupSrv {
        /// The name of the records.
        name: String,
        /// What the addresses of their targets are good for.
        purpose: Purpose,
    },
    /// Ask a tsdns server.
    AskTsdns {
        /// The tsdns server.
        server: SocketAddr,
        /// What to send: the address that is resolved.
        query: String,
    },
}

/// A step of resolving an address, with texts as sequences of characters.
pub enum TaskView {
    Found(SocketAddr),
    Failed(ErrorView),
    LookupHost { host: Seq<char>, port: u16, purpose: PurposeView },
    LookupIp { host: Seq<char>, port: u16, family: IpFamily },
    FetchNickname { url: Seq<char> },
    LookupSrv { name: Seq<char>, purpose: PurposeView },
    AskTsdns { server: SocketAddr, query: Seq<char> },
}

impl View for Task {
    type V = TaskView;

    open spec fn view(&self) -> TaskView {
        match self {
            Task::Found(a) => TaskView::Found(*a),
            Task::Failed(e) => TaskView::Failed(e@),
            Task::LookupHost { host, port, purpose } => TaskView::LookupHost {
                host: host@,
                port: *port,
                purpose: purpose@,
            },
            Task::LookupIp { host, port, family } => TaskView::LookupIp {
                host: host@,
                port: *port,
                family: *family,
            },
            Task::FetchNickname { url } => TaskView::FetchNickname { url: url@ },
            Task::LookupSrv { name, purpose } => TaskView::LookupSrv {
                name: name@,
                purpose: purpose@,
            },
            Task::AskTsdns { server, query } => TaskView::AskTsdns {
                server: *server,
                query: query@,
            },
        }
    }
}

/// The views of tasks, one by one.
pub open spec fn views(tasks: Seq<Task>) -> Seq<TaskView> {
    tasks.map_values(|t: Task| t@)
}

/// What is to be done with an address of a host.
pub open spec fn address_task(purpose: PurposeView, address: SocketAddr) -> TaskView {
    match purpose {
        PurposeView::Server => TaskView::Found(address),
        PurposeView::Tsdns(query) => TaskView::AskTsdns { server: address, query },
    }
}

/// What the reply for a host leads to: each of its addresses is used, or the failure is
/// reported.
pub open spec fn after_host(
    purpose: PurposeView,
    reply: Result<Seq<SocketAddr>, Seq<char>>,
) -> Seq<TaskView> {
    match reply {
        Ok(addresses) => addresses.map_values(|a: SocketAddr| address_task(purpose, a)),
        Err(message) => seq![TaskView::Failed(ErrorView::ResolveHost(message))],
    }
}

/// What it leads to how the system interprets a text that looks like an ip address.
pub open spec fn after_ip(family: IpFamily, reply: Option<SocketAddr>) -> TaskView {
    match reply {
        Some(a) => TaskView::Found(a),
        None => TaskView::Failed(invalid_ip(family)),
    }
}

/// What is to be done with an address that a nickname stands for.
pub open spec fn listed_task(address: Seq<char>) -> TaskView {
    match parsed(address) {
        Ok(ParseIpView::Addr(a)) => TaskView::Found(a),
        Ok(ParseIpView::Lookup(host, port, family)) => TaskView::LookupIp { host, port, family },
        Ok(ParseIpView::Other(host, port)) => TaskView::LookupHost {
            host,
            port: match port {
                Some(port) => port,
                None => DEFAULT_PORT,
            },
            purpose: PurposeView::Server,
        },
        Err(e) => TaskView::Failed(e),
    }
}

/// What the answer of a nickname lookup leads to: each address that it lists is used.
pub open spec fn after_nickname(reply: Result<Seq<char>, Seq<char>>) -> Seq<TaskView> {
    match reply {
        Ok(body) => filled_lines(body).map_values(|line: Seq<char>| listed_task(line)),
        Err(message) => seq![TaskView::Failed(ErrorView::NicknameResolve(message))],
    }
}

/// What is to be done with an SRV record.
pub open spec fn target_task(purpose: PurposeView, record: SrvRecord) -> TaskView {
    TaskView::LookupHost { host: record.target@, port: record.port, purpose }
}

/// What SRV records lead to, in the order in which they are tried.
pub open spec fn after_srv(
    purpose: PurposeView,
    reply: Result<Seq<SrvRecord>, ErrorView>,
) -> Seq<TaskView> {
    match reply {
        Ok(ordered) => ordered.map_values(|r: SrvRecord| target_task(purpose, r)),
        Err(e) => seq![TaskView::Failed(e)],
    }
}

/// A tsdns server says that it does not know an address.
pub open spec fn is_not_found(answer: Seq<char>) -> bool {
    answer.len() >= 3 && answer[0] == '4' && answer[1] == '0' && answer[2] == '4'
}

/// What the text that a tsdns server answers leads to: an ip address is taken.
pub open spec fn after_tsdns_text(answer: Seq<char>) -> TaskView {
    if is_not_found(answer) {
        TaskView::Failed(ErrorView::TsdnsAddressNotFound)
    } else {
        match parsed(answer) {
            Ok(ParseIpView::Addr(a)) => TaskView::Found(a),
            Ok(ParseIpView::Lookup(host, port, family)) => TaskView::LookupIp {
                host,
                port,
                family,
            },
            Ok(ParseIpView::Other(_, _)) => TaskView::Failed(
                ErrorView::TsdnsAddressInvalidResponse(answer),
            ),
            Err(e) => TaskView::Failed(e),
        }
    }
}

/// The error of `core::str::from_utf8` for bytes that are not UTF-8.
pub uninterp spec fn utf8_error(bytes: Seq<u8>) -> core::str::Utf8Error;

/// What the bytes that a tsdns server answers lead to.
pub open spec fn after_tsdns_bytes(answer: Seq<u8>) -> TaskView {
    if valid_utf8(answer) {
        after_tsdns_text(decode_utf8(answer))
    } else {
        TaskView::Failed(ErrorView::TsdnsParseResponse(utf8_error(answer)))
    }
}

/// The kind of server that `Error::Io` names for tsdns servers.
pub const TSDNS: &'static str = "tsdns";

/// What the reply of a tsdns server leads to.
pub open spec fn after_tsdns(reply: Result<Seq<u8>, Seq<char>>) -> TaskView {
    match reply {
        Ok(answer) => after_tsdns_bytes(answer),
        Err(message) => TaskView::Failed(ErrorView::Io(TSDNS@, message)),
    }
}

/// How the lookup of a nickname begins.
pub open spec fn nickname_task(nickname: Seq<char>) -> TaskView {
    match lookup_url(nickname) {
        Ok(url) => TaskView::FetchNickname { url },
        Err(e) => TaskView::Failed(e),
    }
}

/// Calls `core::str::from_utf8`: the text that the bytes encode in UTF-8, or an error if
/// they encode none. The error is a function of the bytes; how it describes the fault is
/// not spelled out.
#[verifier::external_body]
fn decode_text<'a>(bytes: &'a [u8]) -> (r: Result<&'a str, core::str::Utf8Error>)
    ensures
        match r {
            Ok(text) => valid_utf8(bytes@) && text@ == decode_utf8(bytes@),
            Err(e) => !valid_utf8(bytes@) && e == utf8_error(bytes@),
        },
{
    core::str::from_utf8(bytes)
}

/// What is to be done with an address that a nickname stands for.
pub fn resolve_listed(address: &str) -> (r: Task)
    ensures
        r@ == listed_task(address@),
{
    match parse_ip(address) {
        Ok(ParseIpResult::Addr(a)) => Task::Found(a),
        Ok(ParseIpResult::Lookup(host, port, family)) => Task::LookupIp {
            host: host.to_owned(),
            port,
            family,
        },
        Ok(ParseIpResult::Other(host, port)) => Task::LookupHost {
            host: host.to_owned(),
            port: match port {
                Some(port) => port,
                None => DEFAULT_PORT,
            },
            purpose: Purpose::Server,
        },
        Err(e) => Task::Failed(e),
    }
}

/// Tells what it means how the system interprets a text that looks like an ip address.
pub fn resolve_ip(family: IpFamily, reply: Option<SocketAddr>) -> (r: Task)
    ensures
        r@ == after_ip(family, reply),
{
    match reply {
        Some(a) => Task::Found(a),
        None => match family {
            IpFamily::V4 => Task::Failed(Error::InvalidIp4Address),
            IpFamily::V6 => Task::Failed(Error::InvalidIp6Address),
        },
    }
}

/// Tells what the answer of a tsdns server means.
pub fn resolve_tsdns(answer: &[u8]) -> (r: Task)
    ensures
        r@ == after_tsdns_bytes(answer@),
{
    let text = match decode_text(answer) {
        Ok(text) => text,
        Err(e) => {
            return Task::Failed(Error::TsdnsParseResponse(e));
        },
    };
    resolve_tsdns_text(text)
}

/// Tells what the text that a tsdns server answers means.
pub fn resolve_tsdns_text(text: &str) -> (r: Task)
    ensures
        r@ == after_tsdns_text(text@),
{
    let chars = chars_of(text);
    if chars.len() >= 3 && chars[0] == '4' && chars[1] == '0' && chars[2] == '4' {
        return Task::Failed(Error::TsdnsAddressNotFound);
    }
    match parse_ip(text) {
        Ok(ParseIpResult::Addr(a)) => Task::Found(a),
        Ok(ParseIpResult::Lookup(host, port, family)) => Task::LookupIp {
            host: host.to_owned(),
            port,
            family,
        },
        Ok(ParseIpResult::Other(_, _)) => Task::Failed(
            Error::TsdnsAddressInvalidResponse(text.to_owned()),
        ),
        Err(e) => Task::Failed(e),
    }
}

/// How the lookup of a nickname begins, given where it is looked up.
pub fn fetch_nickname(url: Result<String, Error>) -> (r: Task)
    ensures
        r@ == match url {
            Ok(url) => TaskView::FetchNickname { url: url@ },
            Err(e) => TaskView::Failed(e@),
        },
{
    match url {
        Ok(url) => Task::FetchNickname { url },
        Err(e) => Task::Failed(e),
    }
}

/// How the lookup of a nickname begins.
pub(crate) fn begin_nickname(nickname: &str) -> (r: Task)
    ensures
        r@ == nickname_task(nickname@),
{
    fetch_nickname(nickname_url(nickname))
}

/// The tasks for the addresses of a host.
pub(crate) fn use_addresses(purpose: &Purpose, addresses: &Vec<SocketAddr>) -> (r: Vec<Task>)
    ensures
        views(r@) == after_host(purpose@, Ok::<Seq<SocketAddr>, Seq<char>>(addresses@)),
{
    let mut r: Vec<Task> = Vec::new();
    let mut i: usize = 0;
    while i < addresses.len()
        invariant
            i <= addresses.len(),
            r.len() == i,
            forall|j: int| 0 <= j < i ==> (#[trigger] r@[j])@ == address_task(
                purpose@,
                addresses@[j],
            ),
        decreases addresses.len() - i,
    {
        let task = match purpose {
            Purpose::Server => Task::Found(addresses[i]),
            Purpose::Tsdns(query) => Task::AskTsdns {
                server: addresses[i],
                query: query.clone(),
            },
        };
        r.push(task);
        i += 1;
    }
    assert(views(r@) =~= after_host(purpose@, Ok::<Seq<SocketAddr>, Seq<char>>(addresses@)));
    r
}

/// The tasks for the addresses that a nickname stands for.
pub(crate) fn use_listed(body: &str) -> (r: Vec<Task>)
    ensures
        views(r@) == after_nickname(Ok::<Seq<char>, Seq<char>>(body@)),
{
    let addresses = nickname_addresses(body);
    let ghost lines = filled_lines(body@);
    let mut r: Vec<Task> = Vec::new();
    let mut i: usize = 0;
    while i < addresses.len()
        invariant
            i <= addresses.len(),
            crate::text::texts(addresses@) == lines,
            r.len() == i,
            forall|j: int| 0 <= j < i ==> (#[trigger] r@[j])@ == listed_task(lines[j]),
        decreases addresses.len() - i,
    {
        assert(lines[i as int] == addresses@[i as int]@);
        let task = resolve_listed(addresses[i].as_str());
        r.push(task);
        i += 1;
    }
    assert(views(r@) =~= after_nickname(Ok::<Seq<char>, Seq<char>>(body@)));
    r
}

/// The tasks for the targets of SRV records.
pub(crate) fn use_targets(purpose: &Purpose, ordered: &Vec<SrvRecord>) -> (r: Vec<Task>)
    ensures
        views(r@) == after_srv(purpose@, Ok::<Seq<SrvRecord>, ErrorView>(ordered@)),
{
    let mut r: Vec<Task> = Vec::new();
    let mut i: usize = 0;
    while i < ordered.len()
        invariant
            i <= ordered.len(),
            r.len() == i,
            forall|j: int| 0 <= j < i ==> (#[trigger] r@[j])@ == target_task(purpose@, ordered@[j]),
        decreases ordered.len() - i,
    {
        let task = Task::LookupHost {
            host: ordered[i].target.clone(),
            port: ordered[i].port,
            purpose: purpose.clone(),
        };
        r.push(task);
        i += 1;
    }
    assert(views(r@) =~= after_srv(purpose@, Ok::<Seq<SrvRecord>, ErrorView>(ordered@)));
    r
}

/// A task keeps all that it holds when it is looked at.
pub proof fn law_task_views(
    a: SocketAddr,
    e: Error,
    text: String,
    port: u16,
    purpose: Purpose,
    family: IpFamily,
)
    ensures
        Purpose::Server@ == PurposeView::Server,
        Purpose::Tsdns(text)@ == PurposeView::Tsdns(text@),
        Task::Found(a)@ == TaskView::Found(a),
        Task::Failed(e)@ == TaskView::Failed(e@),
        (Task::LookupHost { host: text, port, purpose })@ == (TaskView::LookupHost {
            host: text@,
            port,
            purpose: purpose@,
        }),
        (Task::LookupIp { host: text, port, family })@ == (TaskView::LookupIp {
            host: text@,
            port,
            family,
        }),
        (Task::FetchNickname { url: text })@ == (TaskView::FetchNickname { url: text@ }),
        (Task::LookupSrv { name: text, purpose })@ == (TaskView::LookupSrv {
            name: text@,
            purpose: purpose@,
        }),
        (Task::AskTsdns { server: a, query: text })@ == (TaskView::AskTsdns {
            server: a,
            query: text@,
        }),
{
}

/// Tasks are looked at one by one.
pub proof fn law_views(tasks: Seq<Task>, i: int)
    ensures
        views(tasks).len() == tasks.len(),
        0 <= i < tasks.len() ==> views(tasks)[i] == tasks[i]@,
{
}

/// Each address of a host is used, in order: one of the server is found, a tsdns server is
/// asked for the address that it was looked up for. A host that has none is a failure.
pub proof fn law_each_address_is_used(
    found: Seq<SocketAddr>,
    query: Seq<char>,
    message: Seq<char>,
    i: int,
)
    requires
        0 <= i < found.len(),
    ensures
        after_host(PurposeView::Server, Ok(found)).len() == found.len(),
        after_host(PurposeView::Server, Ok(found))[i] == TaskView::Found(found[i]),
        after_host(PurposeView::Tsdns(query), Ok(found)).len() == found.len(),
        after_host(PurposeView::Tsdns(query), Ok(found))[i] == (TaskView::AskTsdns {
            server: found[i],
            query,
        }),
        forall|purpose: PurposeView| #[trigger]
            after_host(purpose, Err(message)) == seq![
                TaskView::Failed(ErrorView::ResolveHost(message)),
            ],
{
}

/// Each SRV record leads to its target at its port, in order and for the same purpose. A
/// failed lookup is reported as it failed.
pub proof fn law_each_target_is_used(
    purpose: PurposeView,
    records: Seq<SrvRecord>,
    e: ErrorView,
    i: int,
)
    requires
        0 <= i < records.len(),
    ensures
        after_srv(purpose, Ok(records)).len() == records.len(),
        after_srv(purpose, Ok(records))[i] == (TaskView::LookupHost {
            host: records[i].target@,
            port: records[i].port,
            purpose,
        }),
        after_srv(purpose, Err(e)) == seq![TaskView::Failed(e)],
{
}

/// Empty replies lead to nothing.
pub proof fn law_empty_replies_lead_to_nothing(purpose: PurposeView)
    ensures
        after_host(purpose, Ok(Seq::empty())) == Seq::<TaskView>::empty(),
        after_srv(purpose, Ok(Seq::empty())) == Seq::<TaskView>::empty(),
        after_nickname(Ok(Seq::empty())) == Seq::<TaskView>::empty(),
{
    law_lines_are_listed_one_by_one(Seq::empty(), '\n', Seq::empty());
}

/// The address that the system knows for a text is found; a text that it knows none for is
/// malformed.
pub proof fn law_the_system_decides(a: SocketAddr)
    ensures
        after_ip(IpFamily::V4, Some(a)) == TaskView::Found(a),
        after_ip(IpFamily::V6, Some(a)) == TaskView::Found(a),
        after_ip(IpFamily::V4, None) == TaskView::Failed(ErrorView::InvalidIp4Address),
        after_ip(IpFamily::V6, None) == TaskView::Failed(ErrorView::InvalidIp6Address),
{
}

/// A listed host name without a port is looked up with the default port.
pub proof fn law_listed_host_gets_the_default_port(host: Seq<char>, k: int)
    requires
        forall|i: int| 0 <= i < host.len() ==> host[i] != ':',
        0 <= k < host.len(),
        !('0' <= host[k] && host[k] <= '9') && host[k] != '.',
    ensures
        listed_task(host) == (TaskView::LookupHost {
            host,
            port: 9987,
            purpose: PurposeView::Server,
        }),
{
    law_name_is_a_host(host, k);
}

/// A listed host name with a port in decimal is looked up with that port.
pub proof fn law_listed_host_keeps_its_port(host: Seq<char>, k: int, port: u16)
    requires
        forall|i: int| 0 <= i < host.len() ==> host[i] != ':',
        0 <= k < host.len(),
        !('0' <= host[k] && host[k] <= '9') && host[k] != '.',
    ensures
        listed_task(host + seq![':'] + decimal_text(port as int)) == (TaskView::LookupHost {
            host,
            port,
            purpose: PurposeView::Server,
        }),
        listed_task(host + seq![':'] + (seq!['+'] + decimal_text(port as int))) == (
        TaskView::LookupHost { host, port, purpose: PurposeView::Server }),
{
    law_every_port_of_a_host(host, k, port);
}

/// What is wrong with the port of a listed host name is reported.
pub proof fn law_listed_port_is_checked(
    host: Seq<char>,
    k: int,
    port_text: Seq<char>,
    e: PortError,
)
    requires
        forall|i: int| 0 <= i < host.len() ==> host[i] != ':',
        0 <= k < host.len(),
        !('0' <= host[k] && host[k] <= '9') && host[k] != '.',
        forall|i: int| 0 <= i < port_text.len() ==> port_text[i] != ':',
        port_value(port_text) == Err::<int, PortError>(e),
    ensures
        listed_task(host + seq![':'] + port_text) == TaskView::Failed(ErrorView::InvalidPort(e)),
{
    law_port_follows_the_host(host, k, port_text);
}

/// A listed ip address is found as it is, with its port or the default port.
pub proof fn law_listed_ip_is_found(text: Seq<char>, ip: IpAddr, ip4: u32, port: u16)
    requires
        ip_literal(text) == Some(ip),
    ensures
        listed_task(text) == TaskView::Found(
            SocketAddr { ip, port: 9987, flowinfo: 0, scope_id: 0 },
        ),
        listed_task(ip4_text(ip4) + seq![':'] + decimal_text(port as int)) == TaskView::Found(
            SocketAddr { ip: IpAddr::V4(ip4), port, flowinfo: 0, scope_id: 0 },
        ),
        ip matches IpAddr::V6(_) ==> listed_task(
            seq!['['] + text + seq![']', ':'] + decimal_text(port as int),
        ) == TaskView::Found(SocketAddr { ip, port, flowinfo: 0, scope_id: 0 }),
        ip matches IpAddr::V6(_) ==> listed_task(seq!['['] + text + seq![']']) == TaskView::Found(
            SocketAddr { ip, port: 9987, flowinfo: 0, scope_id: 0 },
        ),
{
    law_ip_is_returned(text, ip);
    law_every_ip4_is_returned(ip4, port);
    if let IpAddr::V6(a) = ip {
        law_every_port_of_an_ip6(text, a, port);
        law_bracketed_ip_is_returned(seq!['['] + text + seq![']'], text, a);
    }
}

/// A listed text that is read as something that the system decides on is left to it, and
/// one that is malformed is reported.
pub proof fn law_listed_text_is_read_as_an_address(
    text: Seq<char>,
    host: Seq<char>,
    port: u16,
    family: IpFamily,
    e: ErrorView,
)
    ensures
        parsed(text) == Ok::<ParseIpView, ErrorView>(ParseIpView::Lookup(host, port, family))
            ==> listed_task(text) == (TaskView::LookupIp { host, port, family }),
        parsed(text) == Err::<ParseIpView, ErrorView>(e) ==> listed_task(text) == TaskView::Failed(
            e,
        ),
{
}

/// Each line of the answer of a nickname lookup is used by itself, in order, and a failed
/// lookup is reported.
pub proof fn law_each_line_is_used(
    line: Seq<char>,
    end: char,
    rest: Seq<char>,
    message: Seq<char>,
)
    requires
        line.len() > 0,
        forall|i: int| 0 <= i < line.len() ==> line[i] != '\r' && line[i] != '\n',
        end == '\r' || end == '\n',
    ensures
        after_nickname(Ok(line)) == seq![listed_task(line)],
        after_nickname(Ok(line + seq![end] + rest)) == seq![listed_task(line)] + after_nickname(
            Ok(rest),
        ),
        after_nickname(Ok(seq![end] + rest)) == after_nickname(Ok(rest)),
        after_nickname(Err(message)) == seq![
            TaskView::Failed(ErrorView::NicknameResolve(message)),
        ],
{
    law_lines_are_listed_one_by_one(line, end, rest);
    law_lines_are_listed_one_by_one(Seq::empty(), end, rest);
    assert(Seq::<char>::empty() + seq![end] + rest =~= seq![end] + rest);
    let task = |line: Seq<char>| listed_task(line);
    assert(seq![line].map_values(task) =~= seq![listed_task(line)]);
    assert((seq![line] + filled_lines(rest)).map_values(task) =~= seq![listed_task(line)]
        + filled_lines(rest).map_values(task));
}

/// A tsdns server does not know an address if and only if its answer begins with 404.
pub proof fn law_not_found_begins_with_404(answer: Seq<char>)
    ensures
        after_tsdns_text(answer) == TaskView::Failed(ErrorView::TsdnsAddressNotFound) <==> (
        answer.len() >= 3 && answer.take(3) == seq!['4', '0', '4']),
{
    if answer.len() >= 3 {
        if answer.take(3) == seq!['4', '0', '4'] {
            assert(answer.take(3)[0] == '4');
            assert(answer.take(3)[1] == '0');
            assert(answer.take(3)[2] == '4');
            assert(answer[0] == '4' && answer[1] == '0' && answer[2] == '4');
        } else if answer[0] == '4' && answer[1] == '0' && answer[2] == '4' {
            assert(answer.take(3) =~= seq!['4', '0', '4']);
        }
    }
}

/// An answer that does not begin with 404 is the address that it is read as: an ip address
/// is found, a text that the system decides on is left to it, a host name is no answer, and
/// a malformed text is reported.
pub proof fn law_answers_are_ip_addresses(
    answer: Seq<char>,
    a: SocketAddr,
    host: Seq<char>,
    port: u16,
    given: Option<u16>,
    family: IpFamily,
    e: ErrorView,
)
    requires
        answer.len() < 3 || answer[0] != '4' || answer[1] != '0' || answer[2] != '4',
    ensures
        parsed(answer) == Ok::<ParseIpView, ErrorView>(ParseIpView::Addr(a)) <==> (after_tsdns_text(
            answer,
        ) == TaskView::Found(a)),
        parsed(answer) == Ok::<ParseIpView, ErrorView>(ParseIpView::Lookup(host, port, family))
            <==> (after_tsdns_text(answer) == (TaskView::LookupIp { host, port, family })),
        parsed(answer) == Ok::<ParseIpView, ErrorView>(ParseIpView::Other(host, given))
            ==> after_tsdns_text(answer) == TaskView::Failed(
            ErrorView::TsdnsAddressInvalidResponse(answer),
        ),
        parsed(answer) == Err::<ParseIpView, ErrorView>(e) ==> after_tsdns_text(answer)
            == TaskView::Failed(e),
{
}

/// Every IPv4 address that a tsdns server answers, with or without a port, is found: no text
/// of an address begins with 404.
pub proof fn law_every_answered_ip4_is_found(ip: u32, port: u16)
    ensures
        after_tsdns_text(ip4_text(ip)) == TaskView::Found(
            SocketAddr { ip: IpAddr::V4(ip), port: 9987, flowinfo: 0, scope_id: 0 },
        ),
        after_tsdns_text(ip4_text(ip) + seq![':'] + decimal_text(port as int)) == TaskView::Found(
            SocketAddr { ip: IpAddr::V4(ip), port, flowinfo: 0, scope_id: 0 },
        ),
{
    law_every_ip4_is_returned(ip, port);
    let s = ip4_text(ip);
    let t = s + seq![':'] + decimal_text(port as int);
    lemma_ip4_text_begins_with_a_byte(ip);
    if is_not_found(s) {
        assert(s.take(3) =~= seq!['4', '0', '4']);
    }
    if is_not_found(t) {
        assert(s[0] == '4' && s[1] == '0' && s[2] == '4') by {
            assert(t[0] == s[0] && t[1] == s[1] && t[2] == s[2]);
        }
        assert(s.take(3) =~= seq!['4', '0', '4']);
    }
}

/// The answer of a tsdns server is the text that its bytes encode. Bytes that encode none,
/// and a server that does not answer, are failures.
pub proof fn law_answers_are_texts(answer: Seq<u8>, message: Seq<char>)
    ensures
        valid_utf8(answer) ==> after_tsdns(Ok(answer)) == after_tsdns_text(decode_utf8(answer)),
        valid_utf8(answer) ==> after_tsdns_bytes(answer) == after_tsdns_text(decode_utf8(answer)),
        !valid_utf8(answer) ==> after_tsdns_bytes(answer) == TaskView::Failed(
            ErrorView::TsdnsParseResponse(utf8_error(answer)),
        ),
        !valid_utf8(answer) ==> after_tsdns(Ok(answer)) == after_tsdns_bytes(answer),
        after_tsdns(Err(message)) == TaskView::Failed(ErrorView::Io("tsdns"@, message)),
{
}

/// A nickname is fetched from where it is looked up, under its own name.
pub proof fn law_nickname_is_fetched(nickname: Seq<char>)
    ensures
        nickname_task(nickname) == match url_with_param(
            "https://named.myteamspeak.com/lookup"@,
            "name"@,
            nickname,
        ) {
            Ok(url) => TaskView::FetchNickname { url },
            Err(e) => TaskView::Failed(ErrorView::NicknameParseUrl(e)),
        },
{
}

} // verus!
