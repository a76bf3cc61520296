//! What a resolution reports in the end, whatever the lookups reply.

use vstd::prelude::*;

use crate::address::{at_port, ip_literal, IpAddr, SocketAddr, DEFAULT_PORT};
use crate::error::ErrorView;
use crate::name::{
    srv_hosts, srv_name, without_end_dots, DNS_PREFIX_UDP, DNS_PREFIX_UDP_GTS,
};
use crate::parse::{
    invalid_ip, law_host_with_port, law_host_without_port, law_ip_is_returned, parsed, IpFamily,
    ParseIpView,
};
use crate::port::{port_value, PortError};
use crate::resolution::{
    all_steps, direct_step, is_shown, nickname_step, patience_of, resolution_of, srv_step,
    tsdns_step, Item, ResolutionView, LOCALHOST,
};
use crate::srv::SrvRecord;
use crate::task::{
    after_host, after_ip, after_nickname, after_srv, after_tsdns, PurposeView, TaskView,
};
use crate::text::find;

verus! {

/// What the lookups reply: the addresses of hosts, the addresses that the system makes of
/// texts, the answers of nickname lookups, SRV records in the order in which they are
/// tried, and the answers of tsdns servers. A lookup that is late gets no reply within the
/// time that a search waits.
pub struct World {
    pub hosts: spec_fn(Seq<char>, u16) -> Result<Seq<SocketAddr>, Seq<char>>,
    pub ips: spec_fn(Seq<char>, u16) -> Option<SocketAddr>,
    pub bodies: spec_fn(Seq<char>) -> Result<Seq<char>, Seq<char>>,
    pub records: spec_fn(Seq<char>) -> Result<Seq<SrvRecord>, ErrorView>,
    pub answers: spec_fn(SocketAddr, Seq<char>) -> Result<Seq<u8>, Seq<char>>,
    pub late: spec_fn(TaskView) -> bool,
}

/// What a task reports by itself.
pub open spec fn reported(task: TaskView) -> Seq<Item> {
    match task {
        TaskView::Found(a) => seq![Ok::<SocketAddr, ErrorView>(a)],
        TaskView::Failed(e) => seq![Err::<SocketAddr, ErrorView>(e)],
        _ => Seq::empty(),
    }
}

/// A task that asks for a reply.
pub open spec fn is_lookup(task: TaskView) -> bool {
    !(task is Found) && !(task is Failed)
}

/// The tasks that a task leads to: none if it is given up, else those of its reply.
pub open spec fn follow(world: World, task: TaskView) -> Seq<TaskView> {
    if (world.late)(task) {
        Seq::empty()
    } else {
        follow_reply(world, task)
    }
}

/// The tasks that the reply to a task leads to.
pub open spec fn follow_reply(world: World, task: TaskView) -> Seq<TaskView> {
    match task {
        TaskView::Found(_) => Seq::empty(),
        TaskView::Failed(_) => Seq::empty(),
        TaskView::LookupHost { host, port, purpose } => after_host(
            purpose,
            (world.hosts)(host, port),
        ),
        TaskView::LookupIp { host, port, family } => seq![
            after_ip(family, (world.ips)(host, port)),
        ],
        TaskView::FetchNickname { url } => after_nickname((world.bodies)(url)),
        TaskView::LookupSrv { name, purpose } => after_srv(purpose, (world.records)(name)),
        TaskView::AskTsdns { server, query } => seq![
            after_tsdns((world.answers)(server, query)),
        ],
    }
}

/// How many lookups, one because of the other, a task leads to at most.
pub open spec fn rank(task: TaskView) -> nat {
    match task {
        TaskView::Found(_) => 0,
        TaskView::Failed(_) => 0,
        TaskView::LookupHost { host, port, purpose } => match purpose {
            PurposeView::Server => 1,
            PurposeView::Tsdns(_) => 3,
        },
        TaskView::LookupIp { host, port, family } => 1,
        TaskView::FetchNickname { url } => 2,
        TaskView::LookupSrv { name, purpose } => match purpose {
            PurposeView::Server => 2,
            PurposeView::Tsdns(_) => 4,
        },
        TaskView::AskTsdns { server, query } => 2,
    }
}

/// What tasks report, one after the other, if lookups go `depth` deep.
pub open spec fn results_within(world: World, tasks: Seq<TaskView>, depth: nat) -> Seq<Item>
    decreases depth, tasks.len(),
{
    if tasks.len() == 0 {
        Seq::empty()
    } else {
        let deeper = if depth > 0 {
            results_within(world, follow(world, tasks[0]), (depth - 1) as nat)
        } else {
            Seq::empty()
        };
        reported(tasks[0]) + deeper + results_within(world, tasks.drop_first(), depth)
    }
}

/// What tasks report, one after the other, until nothing is left to do.
pub open spec fn results(world: World, tasks: Seq<TaskView>) -> Seq<Item> {
    results_within(world, tasks, 4)
}

/// The addresses among results.
pub open spec fn addresses_in(items: Seq<Item>) -> Seq<SocketAddr>
    decreases items.len(),
{
    if items.len() == 0 {
        Seq::empty()
    } else {
        match items.last() {
            Ok(a) => addresses_in(items.drop_last()).push(a),
            Err(_) => addresses_in(items.drop_last()),
        }
    }
}

/// The addresses that tasks report.
pub open spec fn addresses(world: World, tasks: Seq<TaskView>) -> Seq<SocketAddr> {
    addresses_in(results(world, tasks))
}

/// A reply leads only to tasks that are closer to the end: every resolution ends.
pub proof fn law_lookups_end(world: World, task: TaskView, i: int)
    requires
        0 <= i < follow(world, task).len(),
    ensures
        rank(follow(world, task)[i]) < rank(task) <= 4,
{
}

/// Looking deeper than the tasks go changes nothing.
proof fn lemma_depth(world: World, tasks: Seq<TaskView>, low: nat, high: nat)
    requires
        low <= high,
        forall|i: int| 0 <= i < tasks.len() ==> rank(#[trigger] tasks[i]) <= low,
    ensures
        results_within(world, tasks, low) == results_within(world, tasks, high),
    decreases low, tasks.len(),
{
    if tasks.len() > 0 {
        let rest = tasks.drop_first();
        let next = follow(world, tasks[0]);
        assert(forall|i: int| 0 <= i < rest.len() ==> rest[i] == tasks[i + 1]);
        lemma_depth(world, rest, low, high);
        assert(rank(tasks[0]) <= low);
        if low > 0 {
            assert forall|i: int| 0 <= i < next.len() implies rank(#[trigger] next[i]) <= low
                - 1 by {
                law_lookups_end(world, tasks[0], i);
            }
            lemma_depth(world, next, (low - 1) as nat, (high - 1) as nat);
        } else {
            assert(next =~= Seq::<TaskView>::empty());
            if high > 0 {
                assert(results_within(world, next, (high - 1) as nat) == Seq::<Item>::empty());
            }
        }
    }
}

proof fn lemma_results_within_add(world: World, a: Seq<TaskView>, b: Seq<TaskView>, depth: nat)
    ensures
        results_within(world, a + b, depth) == results_within(world, a, depth) + results_within(
            world,
            b,
            depth,
        ),
    decreases a.len(),
{
    if a.len() == 0 {
        assert(a + b == b);
        assert(results_within(world, a, depth) + results_within(world, b, depth)
            == results_within(world, b, depth));
    } else {
        assert((a + b).drop_first() == a.drop_first() + b);
        assert((a + b)[0] == a[0]);
        lemma_results_within_add(world, a.drop_first(), b, depth);
        let head = reported(a[0]) + if depth > 0 {
            results_within(world, follow(world, a[0]), (depth - 1) as nat)
        } else {
            Seq::empty()
        };
        assert(head + (results_within(world, a.drop_first(), depth) + results_within(
            world,
            b,
            depth,
        )) =~= (head + results_within(world, a.drop_first(), depth)) + results_within(
            world,
            b,
            depth,
        ));
    }
}

/// What comes first is reported first: tasks never mix their results.
pub proof fn law_results_keep_order(world: World, a: Seq<TaskView>, b: Seq<TaskView>)
    ensures
        results(world, a + b) == results(world, a) + results(world, b),
{
    lemma_results_within_add(world, a, b, 4);
}

/// Results come step by step: the first task reports what it has to, then the tasks that
/// its reply leads to take its place.
pub proof fn law_results_step_by_step(world: World, task: TaskView, rest: Seq<TaskView>)
    ensures
        results(world, seq![task] + rest) == reported(task) + results(
            world,
            follow(world, task) + rest,
        ),
        results(world, Seq::<TaskView>::empty()) == Seq::<Item>::empty(),
{
    let all = seq![task] + rest;
    let next = follow(world, task);
    assert(all.drop_first() == rest);
    assert forall|i: int| 0 <= i < next.len() implies rank(#[trigger] next[i]) <= 3 by {
        law_lookups_end(world, task, i);
    }
    lemma_depth(world, next, 3, 4);
    lemma_results_within_add(world, next, rest, 4);
    assert(reported(task) + results_within(world, next, 3) + results_within(world, rest, 4)
        =~= reported(task) + (results_within(world, next, 4) + results_within(world, rest, 4)));
}

proof fn lemma_addresses_in_add(a: Seq<Item>, b: Seq<Item>)
    ensures
        addresses_in(a + b) == addresses_in(a) + addresses_in(b),
    decreases b.len(),
{
    if b.len() == 0 {
        assert(a + b == a);
        assert(addresses_in(a) + addresses_in(b) == addresses_in(a));
    } else {
        assert((a + b).drop_last() == a + b.drop_last());
        assert((a + b).last() == b.last());
        lemma_addresses_in_add(a, b.drop_last());
        match b.last() {
            Ok(x) => {
                assert((addresses_in(a) + addresses_in(b.drop_last())).push(x)
                    =~= addresses_in(a) + addresses_in(b.drop_last()).push(x));
            },
            Err(_) => {},
        }
    }
}

/// The addresses of tasks come in the order of the tasks.
pub proof fn law_addresses_keep_order(world: World, a: Seq<TaskView>, b: Seq<TaskView>)
    ensures
        addresses(world, a + b) == addresses(world, a) + addresses(world, b),
{
    law_results_keep_order(world, a, b);
    lemma_addresses_in_add(results(world, a), results(world, b));
}

/// A lookup that fails adds no address and takes none away.
pub proof fn law_failure_is_passed_over(world: World, task: TaskView, rest: Seq<TaskView>)
    requires
        task is Failed || (exists|e: ErrorView|
            follow(world, task) == #[trigger] seq![TaskView::Failed(e)]),
    ensures
        addresses(world, seq![task] + rest) == addresses(world, rest),
{
    law_addresses_keep_order(world, seq![task], rest);
    let none = Seq::<TaskView>::empty();
    assert(seq![task] + none == seq![task]);
    law_results_step_by_step(world, task, none);
    if task is Failed {
        assert(follow(world, task) + none =~= none);
        assert(results(world, seq![task]) =~= reported(task));
        assert(reported(task).drop_last() =~= Seq::<Item>::empty());
    } else {
        let e = choose|e: ErrorView|
            follow(world, task) == #[trigger] seq![TaskView::Failed(e)];
        let failed = TaskView::Failed(e);
        assert(reported(task) =~= Seq::<Item>::empty());
        assert(follow(world, task) + none =~= seq![failed] + none);
        law_results_step_by_step(world, failed, none);
        assert(follow(world, failed) + none =~= none);
        assert(results(world, seq![task]) =~= reported(failed));
        assert(reported(failed).drop_last() =~= Seq::<Item>::empty());
    }
    assert(addresses_in(Seq::<Item>::empty()) == Seq::<SocketAddr>::empty());
    assert(addresses(world, seq![task]) == Seq::<SocketAddr>::empty());
    assert(Seq::<SocketAddr>::empty() + addresses(world, rest) =~= addresses(world, rest));
}

/// A lookup that is given up reports nothing, and all that is tried before and after it
/// reports what it would without it.
pub proof fn law_late_lookup_is_passed_over(
    world: World,
    before: Seq<TaskView>,
    task: TaskView,
    after: Seq<TaskView>,
)
    requires
        is_lookup(task),
        (world.late)(task),
    ensures
        results(world, before + seq![task] + after) == results(world, before + after),
        addresses(world, before + seq![task] + after) == addresses(world, before) + addresses(
            world,
            after,
        ),
{
    law_results_step_by_step(world, task, after);
    assert(reported(task) =~= Seq::<Item>::empty());
    assert(follow(world, task) + after =~= after);
    assert(results(world, seq![task] + after) =~= results(world, after));
    assert(before + seq![task] + after =~= before + (seq![task] + after));
    law_results_keep_order(world, before, seq![task] + after);
    law_results_keep_order(world, before, after);
    law_addresses_keep_order(world, before, after);
}

/// The lookups as a resolution sees them: without a limit on its patience, none is late.
pub open spec fn seen_by(world: World, resolution: ResolutionView) -> World {
    if patience_of(resolution) is Some {
        world
    } else {
        World { late: |task: TaskView| false, ..world }
    }
}

/// What the caller of a resolution gets to see.
pub open spec fn shown(world: World, resolution: ResolutionView) -> Seq<Item> {
    results(seen_by(world, resolution), resolution.tasks).filter(
        |item: Item| is_shown(resolution, item),
    )
}

proof fn lemma_addresses_are_shown(items: Seq<Item>, keep: spec_fn(Item) -> bool)
    requires
        forall|item: Item| #[trigger] keep(item) <==> item is Ok,
    ensures
        items.filter(keep) == addresses_in(items).map_values(
            |a: SocketAddr| Ok::<SocketAddr, ErrorView>(a),
        ),
    decreases items.len(),
{
    reveal(Seq::filter);
    let ok = |a: SocketAddr| Ok::<SocketAddr, ErrorView>(a);
    if items.len() > 0 {
        let front = items.drop_last();
        lemma_addresses_are_shown(front, keep);
        assert(keep(items.last()) <==> items.last() is Ok);
        match items.last() {
            Ok(a) => {
                assert(addresses_in(front).push(a).map_values(ok) =~= addresses_in(
                    front,
                ).map_values(ok).push(Ok::<SocketAddr, ErrorView>(a)));
            },
            Err(_) => {},
        }
    } else {
        assert(items.filter(keep) =~= addresses_in(items).map_values(ok));
    }
}

proof fn lemma_all_are_shown(items: Seq<Item>, keep: spec_fn(Item) -> bool)
    requires
        forall|item: Item| #[trigger] keep(item),
    ensures
        items.filter(keep) == items,
    decreases items.len(),
{
    reveal(Seq::filter);
    if items.len() > 0 {
        lemma_all_are_shown(items.drop_last(), keep);
        assert(keep(items.last()));
        assert(items.drop_last().push(items.last()) =~= items);
    }
}

/// The caller of a search gets to see all addresses that are found and nothing else; the
/// caller of any other resolution gets to see all results, and no lookup is given up.
pub proof fn law_what_is_shown(world: World, resolution: ResolutionView)
    ensures
        resolution.quiet ==> shown(world, resolution) == addresses(
            world,
            resolution.tasks,
        ).map_values(|a: SocketAddr| Ok::<SocketAddr, ErrorView>(a)),
        !resolution.quiet ==> shown(world, resolution) == results(
            World { late: |task: TaskView| false, ..world },
            resolution.tasks,
        ),
{
    let keep = |item: Item| is_shown(resolution, item);
    let items = results(seen_by(world, resolution), resolution.tasks);
    if resolution.quiet {
        lemma_addresses_are_shown(items, keep);
    } else {
        lemma_all_are_shown(items, keep);
    }
}

/// Whatever fails while a host name is resolved, its caller gets to see addresses only.
pub proof fn law_failures_are_not_shown(
    world: World,
    address: Seq<char>,
    host: Seq<char>,
    port: Option<u16>,
    i: int,
)
    requires
        parsed(address) == Ok::<ParseIpView, ErrorView>(ParseIpView::Other(host, port)),
        0 <= i < shown(world, resolution_of(address)).len(),
    ensures
        shown(world, resolution_of(address))[i] is Ok,
{
    law_what_is_shown(world, resolution_of(address));
}

/// If the address is an ip, the ip is all that is shown, and nothing is looked up.
pub proof fn law_ip_is_shown(world: World, address: Seq<char>, ip: IpAddr)
    requires
        ip_literal(address) == Some(ip),
    ensures
        resolution_of(address).tasks == seq![TaskView::Found(at_port(ip, DEFAULT_PORT))],
        shown(world, resolution_of(address)) == seq![
            Ok::<SocketAddr, ErrorView>(at_port(ip, DEFAULT_PORT)),
        ],
{
    law_ip_is_returned(address, ip);
    law_what_is_shown(world, resolution_of(address));
    let world = seen_by(world, resolution_of(address));
    let found = TaskView::Found(at_port(ip, DEFAULT_PORT));
    let none = Seq::<TaskView>::empty();
    assert(seq![found] + none == seq![found]);
    law_results_step_by_step(world, found, none);
    assert(follow(world, found) + none =~= none);
    assert(reported(found) + Seq::<Item>::empty() =~= reported(found));
}

/// A malformed address is shown as such, and nothing is looked up.
pub proof fn law_malformed_address_is_shown(world: World, address: Seq<char>, e: ErrorView)
    requires
        parsed(address) == Err::<ParseIpView, ErrorView>(e),
    ensures
        resolution_of(address).tasks == seq![TaskView::Failed(e)],
        shown(world, resolution_of(address)) == seq![Err::<SocketAddr, ErrorView>(e)],
{
    law_what_is_shown(world, resolution_of(address));
    let world = seen_by(world, resolution_of(address));
    let failed = TaskView::Failed(e);
    let none = Seq::<TaskView>::empty();
    assert(seq![failed] + none == seq![failed]);
    law_results_step_by_step(world, failed, none);
    assert(follow(world, failed) + none =~= none);
    assert(reported(failed) + Seq::<Item>::empty() =~= reported(failed));
}

proof fn lemma_looked_up_ip(world: World, host: Seq<char>, port: u16, family: IpFamily)
    requires
        !(world.late)(TaskView::LookupIp { host, port, family }),
    ensures
        results(world, seq![TaskView::LookupIp { host, port, family }]) == reported(
            after_ip(family, (world.ips)(host, port)),
        ),
{
    let lookup = TaskView::LookupIp { host, port, family };
    let next = after_ip(family, (world.ips)(host, port));
    let none = Seq::<TaskView>::empty();
    let nothing = Seq::<Item>::empty();
    assert(seq![lookup] + none =~= seq![lookup]);
    assert(follow(world, lookup) + none =~= seq![next] + none);
    law_results_step_by_step(world, lookup, none);
    assert(reported(lookup) == nothing);
    assert(follow(world, next) + none =~= none);
    law_results_step_by_step(world, next, none);
    assert(reported(next) + nothing =~= reported(next));
    assert(nothing + reported(next) =~= reported(next));
}

/// An address that only looks like an ip is looked up, however long that takes, and one
/// result is shown: the address that the system knows for it, or that it is malformed.
pub proof fn law_looked_up_ip_is_shown(
    world: World,
    address: Seq<char>,
    host: Seq<char>,
    port: u16,
    family: IpFamily,
)
    requires
        parsed(address) == Ok::<ParseIpView, ErrorView>(ParseIpView::Lookup(host, port, family)),
    ensures
        shown(world, resolution_of(address)) == seq![
            match (world.ips)(host, port) {
                Some(a) => Ok::<SocketAddr, ErrorView>(a),
                None => Err::<SocketAddr, ErrorView>(invalid_ip(family)),
            },
        ],
{
    let resolution = resolution_of(address);
    let lookup = TaskView::LookupIp { host, port, family };
    assert(resolution.tasks == seq![lookup] && !resolution.quiet);
    law_what_is_shown(world, resolution);
    lemma_looked_up_ip(World { late: |task: TaskView| false, ..world }, host, port, family);
}

/// A port that is given with a host name is used, and everything but the direct lookup of
/// the host name is skipped.
pub proof fn law_given_port_skips_searches(
    address: Seq<char>,
    host: Seq<char>,
    port_text: Seq<char>,
    port: u16,
)
    requires
        !crate::address::all_digits_or_dots(host),
        find(host, ':') is None,
        port_value(port_text) == Ok::<int, PortError>(port as int),
        address == host + seq![':'] + port_text,
    ensures
        resolution_of(address) == (ResolutionView {
            tasks: seq![TaskView::LookupHost { host, port, purpose: PurposeView::Server }],
            quiet: true,
        }),
{
    law_host_with_port(address, host, port_text, port);
}

/// A host name without a port is tried in all ways, in this order: as a nickname, by the
/// SRV records of GreenTeaSpeak servers, by those of TeamSpeak servers, by a tsdns server,
/// directly with the default port. Each way adds its addresses behind those of the ways
/// before it, whether they failed, were given up or not.
pub proof fn law_all_ways_are_tried_in_order(world: World, host: Seq<char>)
    requires
        find(host, ':') is None,
        !crate::address::all_digits_or_dots(host),
    ensures
        resolution_of(host) == (ResolutionView { tasks: all_steps(host, host), quiet: true }),
        addresses(world, resolution_of(host).tasks) == addresses(world, nickname_step(host, host))
            + addresses(world, srv_step(DNS_PREFIX_UDP_GTS@, srv_hosts(host))) + addresses(
            world,
            srv_step(DNS_PREFIX_UDP@, srv_hosts(host)),
        ) + addresses(world, tsdns_step(host, host)) + addresses(
            world,
            direct_step(host, DEFAULT_PORT),
        ),
{
    law_host_without_port(host, host);
    let nickname = nickname_step(host, host);
    let gts = srv_step(DNS_PREFIX_UDP_GTS@, srv_hosts(host));
    let ts3 = srv_step(DNS_PREFIX_UDP@, srv_hosts(host));
    let tsdns = tsdns_step(host, host);
    let direct = direct_step(host, DEFAULT_PORT);
    law_addresses_keep_order(world, nickname + gts + ts3 + tsdns, direct);
    law_addresses_keep_order(world, nickname + gts + ts3, tsdns);
    law_addresses_keep_order(world, nickname + gts, ts3);
    law_addresses_keep_order(world, nickname, gts);
}

proof fn lemma_nothing_found(world: World, tasks: Seq<TaskView>)
    requires
        forall|i: int|
            0 <= i < tasks.len() ==> #[trigger] tasks[i] is Failed || (is_lookup(tasks[i]) && (
            world.late)(tasks[i])),
    ensures
        addresses(world, tasks) == Seq::<SocketAddr>::empty(),
    decreases tasks.len(),
{
    if tasks.len() > 0 {
        let first = tasks[0];
        let rest = tasks.drop_first();
        assert(forall|i: int| 0 <= i < rest.len() ==> rest[i] == tasks[i + 1]);
        lemma_nothing_found(world, rest);
        assert(seq![first] + rest =~= tasks);
        if first is Failed {
            law_failure_is_passed_over(world, first, rest);
        } else {
            let none = Seq::<TaskView>::empty();
            law_late_lookup_is_passed_over(world, none, first, rest);
            assert(none + seq![first] + rest =~= tasks);
            assert(none + rest =~= rest);
        }
    }
}

proof fn lemma_found(world: World, found: Seq<SocketAddr>)
    ensures
        addresses(world, found.map_values(|a: SocketAddr| TaskView::Found(a))) == found,
    decreases found.len(),
{
    let tasks = found.map_values(|a: SocketAddr| TaskView::Found(a));
    if found.len() > 0 {
        let front = found.drop_last();
        let fronts = front.map_values(|a: SocketAddr| TaskView::Found(a));
        let last = TaskView::Found(found.last());
        let none = Seq::<TaskView>::empty();
        lemma_found(world, front);
        assert(tasks =~= fronts + seq![last]);
        law_addresses_keep_order(world, fronts, seq![last]);
        law_results_step_by_step(world, last, none);
        assert(seq![last] + none =~= seq![last]);
        assert(follow(world, last) + none =~= none);
        assert(results(world, seq![last]) =~= reported(last));
        assert(reported(last).drop_last() =~= Seq::<Item>::empty());
        assert(addresses_in(Seq::<Item>::empty()) == Seq::<SocketAddr>::empty());
        assert(addresses(world, seq![last]) =~= seq![found.last()]);
        assert(front + seq![found.last()] =~= found);
    }
}

/// However many of the ways before it fail or are given up, the direct lookup of a host
/// name without a port is still made: the addresses that it finds in time are shown.
pub proof fn law_last_way_is_shown(world: World, host: Seq<char>, found: Seq<SocketAddr>)
    requires
        find(host, ':') is None,
        !crate::address::all_digits_or_dots(host),
        forall|i: int|
            0 <= i < all_steps(host, host).len() - 1 ==> #[trigger] all_steps(host, host)[i]
                is Failed || (world.late)(all_steps(host, host)[i]),
        !(world.late)(direct_step(host, DEFAULT_PORT)[0]),
        (world.hosts)(host, DEFAULT_PORT) == Ok::<Seq<SocketAddr>, Seq<char>>(found),
    ensures
        shown(world, resolution_of(host)) == found.map_values(
            |a: SocketAddr| Ok::<SocketAddr, ErrorView>(a),
        ),
{
    law_host_without_port(host, host);
    law_what_is_shown(world, resolution_of(host));
    let all = all_steps(host, host);
    let direct = direct_step(host, DEFAULT_PORT);
    let others = all.drop_last();
    assert(all.last() == direct[0]);
    assert(others + direct =~= all);
    assert forall|i: int| 0 <= i < others.len() implies #[trigger] others[i] is Failed || (
    is_lookup(others[i]) && (world.late)(others[i])) by {
        assert(others[i] == all[i]);
    }
    lemma_nothing_found(world, others);
    law_addresses_keep_order(world, others, direct);
    let none = Seq::<TaskView>::empty();
    let next = follow(world, direct[0]);
    law_results_step_by_step(world, direct[0], none);
    assert(seq![direct[0]] + none =~= direct);
    assert(next + none =~= next);
    assert(next =~= found.map_values(|a: SocketAddr| TaskView::Found(a)));
    assert(results(world, direct) =~= results(world, next));
    lemma_found(world, found);
    assert(Seq::<SocketAddr>::empty() + found =~= found);
}

/// The SRV records of a service at several hosts are tried host by host: what is reported
/// for the hosts of two lists is what is reported for the first, then for the second, and
/// for no hosts it is nothing.
pub proof fn law_srv_hosts_are_tried_in_order(
    world: World,
    service: Seq<char>,
    a: Seq<Seq<char>>,
    b: Seq<Seq<char>>,
)
    ensures
        results(world, srv_step(service, a + b)) == results(world, srv_step(service, a))
            + results(world, srv_step(service, b)),
        results(world, srv_step(service, Seq::empty())) == Seq::<Item>::empty(),
{
    assert(srv_step(service, a + b) =~= srv_step(service, a) + srv_step(service, b));
    law_results_keep_order(world, srv_step(service, a), srv_step(service, b));
}

/// SRV records of the server are looked up at the host itself only, never at a shorter
/// name.
pub proof fn law_srv_is_exact(address: Seq<char>, host: Seq<char>, i: int, name: Seq<char>)
    requires
        0 <= i < all_steps(address, host).len(),
        all_steps(address, host)[i] == (TaskView::LookupSrv { name, purpose: PurposeView::Server }),
    ensures
        name == srv_name(DNS_PREFIX_UDP_GTS@, without_end_dots(host)) || name == srv_name(
            DNS_PREFIX_UDP@,
            without_end_dots(host),
        ),
{
}

/// An address with a dot, and the name of this machine, is never looked up as a nickname.
pub proof fn law_nicknames_have_no_dot(address: Seq<char>, host: Seq<char>, i: int)
    requires
        find(address, '.') is Some || host == LOCALHOST@,
        0 <= i < all_steps(address, host).len(),
    ensures
        !(all_steps(address, host)[i] is FetchNickname),
{
}

} // verus!
