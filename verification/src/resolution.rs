//! Resolving an address step by step.
//!
//! A `Resolution` holds what is left to do. Its owner takes the next task, reports what
//! it says or makes the lookup that it asks for, and hands the reply back, until nothing
//! is left. A lookup that takes too long is given up, and the resolution goes on with the
//! next task.

use vstd::prelude::*;

use crate::address::{ip4_text, IpAddr, SocketAddr, DEFAULT_PORT};
use crate::error::{Error, ErrorView};
use crate::name::{
    last_two_labels, law_short_host_is_kept, law_srv_records_are_those_of_the_host,
    law_two_labels_are_kept, srv_hosts, srv_lookup_hosts, srv_name, srv_query, tsdns_root, DNS_PREFIX_TCP,
    DNS_PREFIX_UDP, DNS_PREFIX_UDP_GTS,
};
use crate::parse::{
    law_every_ip4_is_returned, law_every_port_of_a_host, law_name_is_a_host, parse_ip, parsed,
    IpFamily, ParseIpResult, ParseIpView,
};
use crate::port::decimal_text;
use crate::srv::{is_srv_order, order_srv_by_priority_weight, weights_fit, SrvRecord};
use crate::task::{
    after_host, after_ip, after_nickname, after_srv, after_tsdns, begin_nickname, nickname_task,
    resolve_ip, resolve_tsdns, use_addresses, use_listed, use_targets, views, Purpose, PurposeView,
    Task, TaskView, TSDNS,
};
use crate::text::{chars_of, find, find_char, lemma_find, texts};

verus! {

/// Seconds to wait for the next result of a search before the pending lookup is given up.
pub const TIMEOUT_SECONDS: u64 = 10;

/// A host name that is never a nickname.
pub const LOCALHOST: &'static str = "localhost";

/// What is left to do to resolve an address.
#[derive(Debug)]
pub struct Resolution {
    /// The tasks, the next one last.
    pending: Vec<Task>,
    /// Whether failures are kept from the caller.
    quiet: bool,
}

/// What is left to do: the tasks in their order, and whether failures are kept from the
/// caller.
#[verifier::ext_equal]
pub struct ResolutionView {
    pub tasks: Seq<TaskView>,
    pub quiet: bool,
}

impl View for Resolution {
    type V = ResolutionView;

    closed spec fn view(&self) -> ResolutionView {
        ResolutionView { tasks: views(self.pending@.reverse()), quiet: self.quiet }
    }
}

/// An address may be a nickname: it has no dot and is not the name of this machine.
pub open spec fn may_be_nickname(address: Seq<char>, host: Seq<char>) -> bool {
    find(address, '.') is None && host != LOCALHOST@
}

/// The first way: as a nickname.
pub open spec fn nickname_step(address: Seq<char>, host: Seq<char>) -> Seq<TaskView> {
    if may_be_nickname(address, host) {
        seq![nickname_task(address)]
    } else {
        seq![TaskView::Failed(ErrorView::InvalidNickname)]
    }
}

/// By the SRV records of a service at each of the hosts.
pub open spec fn srv_step(service: Seq<char>, hosts: Seq<Seq<char>>) -> Seq<TaskView> {
    hosts.map_values(
        |host: Seq<char>|
            TaskView::LookupSrv { name: srv_name(service, host), purpose: PurposeView::Server },
    )
}

/// By a tsdns server, which SRV records at the last two labels of the host name point to.
pub open spec fn tsdns_step(address: Seq<char>, host: Seq<char>) -> Seq<TaskView> {
    seq![
        TaskView::LookupSrv {
            name: srv_name(DNS_PREFIX_TCP@, last_two_labels(host)),
            purpose: PurposeView::Tsdns(address),
        },
    ]
}

/// The host name itself, at a port.
pub open spec fn direct_step(host: Seq<char>, port: u16) -> Seq<TaskView> {
    seq![TaskView::LookupHost { host, port, purpose: PurposeView::Server }]
}

/// All ways to resolve a host name without a port, in their order.
pub open spec fn all_steps(address: Seq<char>, host: Seq<char>) -> Seq<TaskView> {
    nickname_step(address, host) + srv_step(DNS_PREFIX_UDP_GTS@, srv_hosts(host)) + srv_step(
        DNS_PREFIX_UDP@,
        srv_hosts(host),
    ) + tsdns_step(address, host) + direct_step(host, DEFAULT_PORT)
}

/// How an address is resolved. An ip address is taken as it is, and a malformed one is
/// reported. A host name with a port is resolved directly; without one, all ways are
/// tried, and those that fail are passed over in silence.
pub open spec fn resolution_of(address: Seq<char>) -> ResolutionView {
    match parsed(address) {
        Ok(ParseIpView::Addr(a)) => ResolutionView {
            tasks: seq![TaskView::Found(a)],
            quiet: false,
        },
        Ok(ParseIpView::Lookup(host, port, family)) => ResolutionView {
            tasks: seq![TaskView::LookupIp { host, port, family }],
            quiet: false,
        },
        Ok(ParseIpView::Other(host, Some(port))) => ResolutionView {
            tasks: direct_step(host, port),
            quiet: true,
        },
        Ok(ParseIpView::Other(host, None)) => ResolutionView {
            tasks: all_steps(address, host),
            quiet: true,
        },
        Err(e) => ResolutionView { tasks: seq![TaskView::Failed(e)], quiet: false },
    }
}

/// The addresses of a reply, or its message.
pub open spec fn host_reply(reply: Result<Vec<SocketAddr>, String>) -> Result<
    Seq<SocketAddr>,
    Seq<char>,
> {
    match reply {
        Ok(addresses) => Ok(addresses@),
        Err(message) => Err(message@),
    }
}

/// The text of a reply, or its message.
pub open spec fn text_reply(reply: Result<String, String>) -> Result<Seq<char>, Seq<char>> {
    match reply {
        Ok(text) => Ok(text@),
        Err(message) => Err(message@),
    }
}

/// The bytes of a reply, or its message.
pub open spec fn bytes_reply(reply: Result<Vec<u8>, String>) -> Result<Seq<u8>, Seq<char>> {
    match reply {
        Ok(bytes) => Ok(bytes@),
        Err(message) => Err(message@),
    }
}

/// `after` is `before` with tasks put in front.
pub open spec fn goes_on(
    before: ResolutionView,
    first: Seq<TaskView>,
    after: ResolutionView,
) -> bool {
    after == (ResolutionView { tasks: first + before.tasks, quiet: before.quiet })
}

/// How many seconds a resolution waits for a result: a search gives a lookup up, anything
/// else waits for its reply.
pub open spec fn patience_of(resolution: ResolutionView) -> Option<u64> {
    if resolution.quiet {
        Some(TIMEOUT_SECONDS)
    } else {
        None
    }
}

/// A result as it is reported: an address or a failure.
pub type Item = Result<SocketAddr, ErrorView>;

/// A result, with its error by its view.
pub open spec fn item_view(item: Result<SocketAddr, Error>) -> Item {
    match item {
        Ok(a) => Ok(a),
        Err(e) => Err(e@),
    }
}

/// Whether the caller of a resolution gets to see a result: a search, which has other ways
/// left, keeps failures to itself.
pub open spec fn is_shown(resolution: ResolutionView, item: Item) -> bool {
    item is Ok || !resolution.quiet
}

impl Resolution {
    /// A resolution with these tasks in this order.
    fn of(tasks: Vec<Task>, quiet: bool) -> (r: Self)
        ensures
            r@.tasks == views(tasks@),
            r@.quiet == quiet,
    {
        let mut r = Resolution { pending: Vec::new(), quiet };
        r.put_first(tasks);
        assert(r@.tasks =~= views(tasks@));
        r
    }

    /// Puts tasks in front of all others.
    fn put_first(&mut self, more: Vec<Task>)
        ensures
            goes_on(old(self)@, views(more@), final(self)@),
    {
        let ghost all = more@;
        let mut more = more;
        let ghost before = self.pending@;
        assert(all.take(all.len() as int) == all);
        assert(all.skip(all.len() as int).reverse() =~= Seq::<Task>::empty());
        assert(before + Seq::<Task>::empty() == before);
        while more.len() > 0
            invariant
                more.len() <= all.len(),
                more@ == all.take(more.len() as int),
                self.quiet == old(self).quiet,
                self.pending@ == before + all.skip(more.len() as int).reverse(),
            decreases more.len(),
        {
            let ghost n = more.len() as int;
            let task = more.pop();
            if let Some(task) = task {
                self.pending.push(task);
            }
            proof {
                assert(more@ == all.take(n - 1));
                assert(all.skip(n - 1).reverse() =~= all.skip(n).reverse().push(all[n - 1]));
                assert(self.pending@ =~= before + all.skip(n - 1).reverse());
            }
        }
        proof {
            assert(all.skip(0) == all);
            assert(self.pending@.reverse() =~= all + before.reverse());
            assert(views(self.pending@.reverse()) =~= views(all) + views(before.reverse()));
        }
    }

    /// Whether failures are kept from the caller.
    pub fn is_quiet(&self) -> (r: bool)
        ensures
            r == self@.quiet,
    {
        self.quiet
    }

    /// Whether the caller gets to see a result.
    pub fn shows(&self, item: &Result<SocketAddr, Error>) -> (r: bool)
        ensures
            r == is_shown(self@, item_view(*item)),
    {
        match item {
            Ok(_) => true,
            Err(_) => !self.is_quiet(),
        }
    }

    /// Seconds to wait for the next result before the pending lookup is given up. Only a
    /// search, which has other ways left, gives up.
    pub fn patience(&self) -> (r: Option<u64>)
        ensures
            r == patience_of(self@),
    {
        if self.is_quiet() {
            Some(TIMEOUT_SECONDS)
        } else {
            None
        }
    }

    /// Takes the next task.
    pub fn next_task(&mut self) -> (r: Option<Task>)
        ensures
            match r {
                Some(task) => goes_on(final(self)@, seq![task@], old(self)@),
                None => old(self)@.tasks.len() == 0 && final(self)@ == old(self)@,
            },
    {
        let ghost before = self.pending@;
        let r = self.pending.pop();
        proof {
            if before.len() > 0 {
                assert(views(before.reverse()) =~= seq![before.last()@] + views(
                    self.pending@.reverse(),
                ));
            }
        }
        r
    }

    /// Takes the reply for a host name.
    pub fn host_found(&mut self, purpose: &Purpose, reply: Result<Vec<SocketAddr>, String>)
        ensures
            goes_on(old(self)@, after_host(purpose@, host_reply(reply)), final(self)@),
    {
        match reply {
            Ok(addresses) => {
                let tasks = use_addresses(purpose, &addresses);
                self.put_first(tasks);
            },
            Err(message) => self.report(Task::Failed(Error::ResolveHost(message))),
        }
    }

    /// Takes the first address, if any, that the system gives for a text that looks like an
    /// ip address.
    pub fn ip_found(&mut self, family: IpFamily, reply: Option<SocketAddr>)
        ensures
            goes_on(old(self)@, seq![after_ip(family, reply)], final(self)@),
    {
        let task = resolve_ip(family, reply);
        self.report(task);
    }

    /// Takes the answer of a nickname lookup.
    pub fn nickname_fetched(&mut self, reply: Result<String, String>)
        ensures
            goes_on(old(self)@, after_nickname(text_reply(reply)), final(self)@),
    {
        match reply {
            Ok(body) => {
                let tasks = use_listed(body.as_str());
                self.put_first(tasks);
            },
            Err(message) => self.report(Task::Failed(Error::NicknameResolve(message))),
        }
    }

    /// Takes SRV records, brings them in order and tries their targets.
    pub fn srv_found(&mut self, purpose: &Purpose, reply: Result<Vec<SrvRecord>, Error>)
        requires
            reply matches Ok(records) ==> weights_fit(records@),
        ensures
            match reply {
                Ok(records) => exists|ordered: Seq<SrvRecord>| #[trigger]
                    is_srv_order(records@, ordered) && goes_on(
                        old(self)@,
                        after_srv(purpose@, Ok::<Seq<SrvRecord>, ErrorView>(ordered)),
                        final(self)@,
                    ),
                Err(e) => goes_on(
                    old(self)@,
                    after_srv(purpose@, Err::<Seq<SrvRecord>, ErrorView>(e@)),
                    final(self)@,
                ),
            },
    {
        match reply {
            Ok(records) => {
                let ordered = order_srv_by_priority_weight(records.as_slice());
                self.srv_ordered(purpose, &ordered);
                assert(is_srv_order(records@, ordered@));
            },
            Err(e) => self.report(Task::Failed(e)),
        }
    }

    /// Tries the targets of SRV records in the order in which they are given.
    pub fn srv_ordered(&mut self, purpose: &Purpose, ordered: &Vec<SrvRecord>)
        ensures
            goes_on(
                old(self)@,
                after_srv(purpose@, Ok::<Seq<SrvRecord>, ErrorView>(ordered@)),
                final(self)@,
            ),
    {
        let tasks = use_targets(purpose, ordered);
        self.put_first(tasks);
    }

    /// Takes what a tsdns server answered.
    pub fn tsdns_answered(&mut self, reply: Result<Vec<u8>, String>)
        ensures
            goes_on(old(self)@, seq![after_tsdns(bytes_reply(reply))], final(self)@),
    {
        match reply {
            Ok(answer) => {
                let task = resolve_tsdns(answer.as_slice());
                self.report(task);
            },
            Err(message) => self.report(Task::Failed(Error::Io(TSDNS, message))),
        }
    }

    /// Gives up the lookup that was taken last because no result came in time: it leads to
    /// nothing, and all that is left is still tried.
    pub fn timed_out(&mut self)
        ensures
            goes_on(old(self)@, Seq::empty(), final(self)@),
    {
        let none: Vec<Task> = Vec::new();
        assert(views(none@) =~= Seq::<TaskView>::empty());
        self.put_first(none);
    }

    /// Puts one task in front of all others.
    fn report(&mut self, task: Task)
        ensures
            goes_on(old(self)@, seq![task@], final(self)@),
    {
        let mut tasks: Vec<Task> = Vec::new();
        let ghost v = task@;
        tasks.push(task);
        assert(views(tasks@) =~= seq![v]);
        self.put_first(tasks);
    }
}

/// The tasks for the SRV records of a service at each of the hosts, behind `tasks`.
fn resolve_srv_records(tasks: &mut Vec<Task>, hosts: &Vec<String>, service: &str)
    ensures
        views(final(tasks)@) == views(old(tasks)@) + srv_step(service@, texts(hosts@)),
{
    let ghost before = tasks@;
    let ghost step = srv_step(service@, texts(hosts@));
    let mut i: usize = 0;
    assert(views(before) + step.take(0) =~= views(before));
    while i < hosts.len()
        invariant
            i <= hosts.len(),
            step == srv_step(service@, texts(hosts@)),
            step.len() == hosts.len(),
            views(tasks@) == views(before) + step.take(i as int),
        decreases hosts.len() - i,
    {
        let ghost now = tasks@;
        tasks.push(
            Task::LookupSrv {
                name: srv_query(service, hosts[i].as_str()),
                purpose: Purpose::Server,
            },
        );
        proof {
            assert(views(tasks@) =~= views(now).push(step[i as int]));
            assert(views(before) + step.take(i + 1) =~= (views(before) + step.take(i as int)).push(
                step[i as int],
            ));
        }
        i += 1;
    }
    assert(step.take(step.len() as int) == step);
}

/// Begins to resolve an address.
///
/// If the address is an ip, the ip is returned. If a port is given with a host name,
/// the host name is resolved directly. Else these ways are tried, one after the other:
/// as a nickname; by the SRV records of GreenTeaSpeak servers; by those of TeamSpeak
/// servers; by a tsdns server; directly, with the default port. An IPv6 address stands in
/// square brackets when a port is given. A way whose lookup gives no result in time is
/// given up for the next one.
pub fn resolve(address: String) -> (r: Resolution)
    ensures
        r@ == resolution_of(address@),
{
    let address = address.as_str();
    let mut tasks: Vec<Task> = Vec::new();
    match parse_ip(address) {
        Ok(ParseIpResult::Addr(a)) => {
            tasks.push(Task::Found(a));
            assert(views(tasks@) =~= resolution_of(address@).tasks);
            Resolution::of(tasks, false)
        },
        Ok(ParseIpResult::Lookup(host, port, family)) => {
            tasks.push(Task::LookupIp { host: host.to_owned(), port, family });
            assert(views(tasks@) =~= resolution_of(address@).tasks);
            Resolution::of(tasks, false)
        },
        Err(e) => {
            tasks.push(Task::Failed(e));
            assert(views(tasks@) =~= resolution_of(address@).tasks);
            Resolution::of(tasks, false)
        },
        Ok(ParseIpResult::Other(host, Some(port))) => {
            tasks.push(
                Task::LookupHost { host: host.to_owned(), port, purpose: Purpose::Server },
            );
            assert(views(tasks@) =~= resolution_of(address@).tasks);
            Resolution::of(tasks, true)
        },
        Ok(ParseIpResult::Other(host, None)) => {
            let chars = chars_of(address);
            let no_dot = find_char(&chars, '.').is_none();
            if no_dot && host.to_owned() != LOCALHOST.to_owned() {
                tasks.push(begin_nickname(address));
            } else {
                tasks.push(Task::Failed(Error::InvalidNickname));
            }
            assert(views(tasks@) =~= nickname_step(address@, host@));
            let hosts = srv_lookup_hosts(host);
            resolve_srv_records(&mut tasks, &hosts, DNS_PREFIX_UDP_GTS);
            resolve_srv_records(&mut tasks, &hosts, DNS_PREFIX_UDP);
            let ghost before = tasks@;
            tasks.push(
                Task::LookupSrv {
                    name: srv_query(DNS_PREFIX_TCP, tsdns_root(host)),
                    purpose: Purpose::Tsdns(address.to_owned()),
                },
            );
            assert(views(tasks@) =~= views(before) + tsdns_step(address@, host@));
            let ghost before = tasks@;
            tasks.push(
                Task::LookupHost {
                    host: host.to_owned(),
                    port: DEFAULT_PORT,
                    purpose: Purpose::Server,
                },
            );
            assert(views(tasks@) =~= views(before) + direct_step(host@, DEFAULT_PORT));
            Resolution::of(tasks, true)
        },
    }
}

/// Begins to resolve a nickname. Failures are reported.
pub fn resolve_nickname(nickname: String) -> (r: Resolution)
    ensures
        r@ == (ResolutionView { tasks: seq![nickname_task(nickname@)], quiet: false }),
{
    let mut tasks: Vec<Task> = Vec::new();
    tasks.push(begin_nickname(nickname.as_str()));
    assert(views(tasks@) =~= seq![nickname_task(nickname@)]);
    Resolution::of(tasks, false)
}

/// A host name without a port, whatever dots it ends in, is tried in five ways: as a
/// nickname, by the SRV records of two services at exactly this host, by a tsdns server
/// that is asked for the address as it was given, and directly with the default port.
pub proof fn law_ways_to_resolve_a_host_name(name: Seq<char>, dots: Seq<char>, k: int)
    requires
        name.len() > 0 ==> name[name.len() - 1] != '.',
        forall|i: int| 0 <= i < dots.len() ==> dots[i] == '.',
        forall|i: int| 0 <= i < name.len() ==> name[i] != ':',
        0 <= k < name.len(),
        !('0' <= name[k] && name[k] <= '9') && name[k] != '.',
    ensures
        resolution_of(name + dots).quiet,
        resolution_of(name + dots).tasks.len() == 5,
        resolution_of(name + dots).tasks[1] == (TaskView::LookupSrv {
            name: "_gts._udp."@ + name + seq!['.'],
            purpose: PurposeView::Server,
        }),
        resolution_of(name + dots).tasks[2] == (TaskView::LookupSrv {
            name: "_ts3._udp."@ + name + seq!['.'],
            purpose: PurposeView::Server,
        }),
        resolution_of(name + dots).tasks[3] matches TaskView::LookupSrv { name: root, purpose }
            && purpose == PurposeView::Tsdns(name + dots) && root.len() > 12 && root.take(12)
            == "_tsdns._tcp."@,
        resolution_of(name + dots).tasks[4] == (TaskView::LookupHost {
            host: name + dots,
            port: 9987,
            purpose: PurposeView::Server,
        }),
{
    let host = name + dots;
    assert forall|i: int| 0 <= i < host.len() implies host[i] != ':' by {
        if i < name.len() {
            assert(host[i] == name[i]);
        } else {
            assert(host[i] == dots[i - name.len()]);
        }
    }
    assert(host[k] == name[k]);
    law_name_is_a_host(host, k);
    law_srv_records_are_those_of_the_host(name, dots, "_gts._udp."@);
    law_srv_records_are_those_of_the_host(name, dots, "_ts3._udp."@);
    reveal_strlit("_tsdns._tcp.");
    let root = srv_name("_tsdns._tcp."@, last_two_labels(host));
    assert(root.take(12) =~= "_tsdns._tcp."@);
}

/// Only a host name without a dot that is not the name of this machine is looked up as a
/// nickname, unchanged.
pub proof fn law_nicknames(host: Seq<char>, k: int, dot: int)
    requires
        forall|i: int| 0 <= i < host.len() ==> host[i] != ':',
        0 <= k < host.len(),
        !('0' <= host[k] && host[k] <= '9') && host[k] != '.',
    ensures
        resolution_of(host).tasks.len() == 5,
        (forall|i: int| 0 <= i < host.len() ==> host[i] != '.') && host != "localhost"@
            ==> resolution_of(host).tasks[0] == nickname_task(host),
        host == "localhost"@ ==> resolution_of(host).tasks[0] == TaskView::Failed(
            ErrorView::InvalidNickname,
        ),
        0 <= dot < host.len() && host[dot] == '.' ==> resolution_of(host).tasks[0]
            == TaskView::Failed(ErrorView::InvalidNickname),
{
    law_name_is_a_host(host, k);
    lemma_find(host, '.');
}

/// The tsdns server for a host name of more than two labels is looked for at its last two.
pub proof fn law_tsdns_server_of_a_long_name(
    front: Seq<char>,
    domain: Seq<char>,
    top: Seq<char>,
    host: Seq<char>,
    k: int,
)
    requires
        host == front + seq!['.'] + domain + seq!['.'] + top,
        forall|i: int| 0 <= i < domain.len() ==> domain[i] != '.',
        forall|i: int| 0 <= i < top.len() ==> top[i] != '.',
        forall|i: int| 0 <= i < host.len() ==> host[i] != ':',
        0 <= k < host.len(),
        !('0' <= host[k] && host[k] <= '9') && host[k] != '.',
    ensures
        resolution_of(host).tasks[3] == (TaskView::LookupSrv {
            name: "_tsdns._tcp."@ + (domain + seq!['.'] + top) + seq!['.'],
            purpose: PurposeView::Tsdns(host),
        }),
{
    lemma_find(domain, '.');
    lemma_find(top, '.');
    law_two_labels_are_kept(front, domain, top);
    law_name_is_a_host(host, k);
    lemma_fourth_way(host, host);
}

/// The tsdns server for a host name of at most two labels is looked for at the host name.
pub proof fn law_tsdns_server_of_a_short_name(host: Seq<char>, k: int)
    requires
        forall|i: int, j: int|
            0 <= i < host.len() && 0 <= j < host.len() && host[i] == '.' && host[j] == '.' ==> i
                == j,
        forall|i: int| 0 <= i < host.len() ==> host[i] != ':',
        0 <= k < host.len(),
        !('0' <= host[k] && host[k] <= '9') && host[k] != '.',
    ensures
        resolution_of(host).tasks[3] == (TaskView::LookupSrv {
            name: "_tsdns._tcp."@ + host + seq!['.'],
            purpose: PurposeView::Tsdns(host),
        }),
{
    law_short_host_is_kept(host);
    law_name_is_a_host(host, k);
    lemma_fourth_way(host, host);
}

/// The SRV records of a service are looked up at each host, in order.
pub proof fn law_srv_records_of_each_host(service: Seq<char>, hosts: Seq<Seq<char>>, i: int)
    ensures
        srv_step(service, hosts).len() == hosts.len(),
        0 <= i < hosts.len() ==> srv_step(service, hosts)[i] == (TaskView::LookupSrv {
            name: service + hosts[i] + seq!['.'],
            purpose: PurposeView::Server,
        }),
{
}

proof fn lemma_fourth_way(address: Seq<char>, host: Seq<char>)
    ensures
        all_steps(address, host).len() == 5,
        all_steps(address, host)[3] == tsdns_step(address, host)[0],
{
    assert(nickname_step(address, host).len() == 1);
    assert(srv_step(DNS_PREFIX_UDP_GTS@, srv_hosts(host)).len() == 1);
    assert(srv_step(DNS_PREFIX_UDP@, srv_hosts(host)).len() == 1);
}

/// One SRV lookup of a search is for a tsdns server, and whatever comes of it, every tsdns
/// server that is found is asked for the address as it was given.
pub proof fn law_tsdns_is_asked_for_the_address(
    address: Seq<char>,
    k: int,
    i: int,
    records: Seq<SrvRecord>,
    r: int,
    servers: Seq<SocketAddr>,
    s: int,
)
    requires
        forall|n: int| 0 <= n < address.len() ==> address[n] != ':',
        0 <= k < address.len(),
        !('0' <= address[k] && address[k] <= '9') && address[k] != '.',
        0 <= i < resolution_of(address).tasks.len(),
        0 <= r < records.len(),
        0 <= s < servers.len(),
    ensures
        resolution_of(address).tasks[i] matches TaskView::LookupSrv { name, purpose } ==> {
            &&& purpose is Tsdns <==> i == 3
            &&& purpose is Tsdns ==> (after_srv(purpose, Ok(records))[r] matches TaskView::LookupHost {
                host,
                port,
                purpose: next,
            } && host == records[r].target@ && port == records[r].port && after_host(
                next,
                Ok(servers),
            )[s] == (TaskView::AskTsdns { server: servers[s], query: address }))
        },
        !(resolution_of(address).tasks[i] is AskTsdns),
        resolution_of(address).tasks[i] matches TaskView::LookupHost { host, port, purpose }
            ==> purpose == PurposeView::Server,
{
    law_name_is_a_host(address, k);
    lemma_fourth_way(address, address);
}

/// Host names with a port in decimal are looked up directly at that port, and in no other
/// way.
pub proof fn law_given_port_is_looked_up(host: Seq<char>, k: int, port: u16)
    requires
        forall|i: int| 0 <= i < host.len() ==> host[i] != ':',
        0 <= k < host.len(),
        !('0' <= host[k] && host[k] <= '9') && host[k] != '.',
    ensures
        resolution_of(host + seq![':'] + decimal_text(port as int)) == (ResolutionView {
            tasks: seq![TaskView::LookupHost { host, port, purpose: PurposeView::Server }],
            quiet: true,
        }),
{
    law_every_port_of_a_host(host, k, port);
}

/// An ip address is found as it is, what the system decides on is left to it, and what is
/// malformed is reported; nothing else is done, and nothing is kept from the caller.
pub proof fn law_addresses_that_need_no_search(
    address: Seq<char>,
    a: SocketAddr,
    host: Seq<char>,
    port: u16,
    family: IpFamily,
    e: ErrorView,
)
    ensures
        parsed(address) == Ok::<ParseIpView, ErrorView>(ParseIpView::Addr(a)) ==> resolution_of(
            address,
        ) == (ResolutionView { tasks: seq![TaskView::Found(a)], quiet: false }),
        parsed(address) == Ok::<ParseIpView, ErrorView>(ParseIpView::Lookup(host, port, family))
            ==> resolution_of(address) == (ResolutionView {
            tasks: seq![TaskView::LookupIp { host, port, family }],
            quiet: false,
        }),
        parsed(address) == Err::<ParseIpView, ErrorView>(e) ==> resolution_of(address) == (
        ResolutionView { tasks: seq![TaskView::Failed(e)], quiet: false }),
{
}

/// Every IPv4 address, with or without a port, is found without a lookup.
pub proof fn law_every_ip4_is_found(ip: u32, port: u16)
    ensures
        resolution_of(ip4_text(ip)) == (ResolutionView {
            tasks: seq![
                TaskView::Found(
                    SocketAddr { ip: IpAddr::V4(ip), port: 9987, flowinfo: 0, scope_id: 0 },
                ),
            ],
            quiet: false,
        }),
        resolution_of(ip4_text(ip) + seq![':'] + decimal_text(port as int)) == (ResolutionView {
            tasks: seq![
                TaskView::Found(
                    SocketAddr { ip: IpAddr::V4(ip), port, flowinfo: 0, scope_id: 0 },
                ),
            ],
            quiet: false,
        }),
{
    law_every_ip4_is_returned(ip, port);
}

/// What a reply leads to is done first, in its order, and what was left to do follows
/// unchanged.
pub proof fn law_replies_come_first(
    before: ResolutionView,
    first: Seq<TaskView>,
    after: ResolutionView,
    i: int,
)
    requires
        goes_on(before, first, after),
    ensures
        after.quiet == before.quiet,
        after.tasks.len() == first.len() + before.tasks.len(),
        0 <= i < first.len() ==> after.tasks[i] == first[i],
        0 <= i < before.tasks.len() ==> after.tasks[first.len() + i] == before.tasks[i],
{
}

/// Replies are taken as they come.
pub proof fn law_replies(
    addresses: Vec<SocketAddr>,
    text: String,
    bytes: Vec<u8>,
    message: String,
)
    ensures
        host_reply(Ok(addresses)) == Ok::<Seq<SocketAddr>, Seq<char>>(addresses@),
        host_reply(Err(message)) == Err::<Seq<SocketAddr>, Seq<char>>(message@),
        text_reply(Ok(text)) == Ok::<Seq<char>, Seq<char>>(text@),
        text_reply(Err(message)) == Err::<Seq<char>, Seq<char>>(message@),
        bytes_reply(Ok(bytes)) == Ok::<Seq<u8>, Seq<char>>(bytes@),
        bytes_reply(Err(message)) == Err::<Seq<u8>, Seq<char>>(message@),
{
}

/// A search waits ten seconds and shows addresses only; anything else waits for its reply
/// and shows all.
pub proof fn law_searches_are_quiet(
    tasks: Seq<TaskView>,
    a: SocketAddr,
    e: Error,
    quiet: bool,
)
    ensures
        patience_of(ResolutionView { tasks, quiet: true }) == Some(10u64),
        patience_of(ResolutionView { tasks, quiet: false }) is None,
        is_shown(ResolutionView { tasks, quiet }, item_view(Ok(a))),
        is_shown(ResolutionView { tasks, quiet }, item_view(Err(e))) <==> !quiet,
        item_view(Ok(a)) == Ok::<SocketAddr, ErrorView>(a),
        item_view(Err(e)) == Err::<SocketAddr, ErrorView>(e@),
{
}

} // verus!
