use tsresolver::address::{IpAddr, SocketAddr, DEFAULT_PORT};
use tsresolver::error::Error;
use tsresolver::parse::IpFamily;
use tsresolver::port::PortError;
use tsresolver::resolution::{resolve, resolve_nickname, Resolution, TIMEOUT_SECONDS};
use tsresolver::srv::SrvRecord;
use tsresolver::task::{resolve_tsdns, Task};

fn ip(a: u8, b: u8, c: u8, d: u8, port: u16) -> SocketAddr {
    SocketAddr::new(IpAddr::V4(u32::from_be_bytes([a, b, c, d])), port)
}

/// The lookup that a task asks for, in a line.
fn describe(task: &Task) -> Option<String> {
    match task {
        Task::Found(_) | Task::Failed(_) => None,
        Task::LookupHost { host, port, .. } => Some(format!("host {}:{}", host, port)),
        Task::LookupIp { host, port, .. } => Some(format!("ip {}:{}", host, port)),
        Task::FetchNickname { url } => Some(format!("get {}", url)),
        Task::LookupSrv { name, .. } => Some(format!("srv {}", name)),
        Task::AskTsdns { server, query } => Some(format!("tsdns {:?} {}", server.ip, query)),
    }
}

/// A network with a few servers. Every lookup is written down, and some are late.
struct Network {
    log: Vec<String>,
    hosts: Vec<(&'static str, SocketAddr)>,
    bodies: Vec<(&'static str, &'static str)>,
    records: Vec<(&'static str, Vec<SrvRecord>)>,
    tsdns: Vec<(SocketAddr, &'static [u8])>,
    late: Vec<&'static str>,
}

impl Network {
    fn empty() -> Self {
        Network {
            log: Vec::new(),
            hosts: Vec::new(),
            bodies: Vec::new(),
            records: Vec::new(),
            tsdns: Vec::new(),
            late: Vec::new(),
        }
    }

    /// Carries a resolution to its end and gives what its caller gets to see.
    fn run(&mut self, mut resolution: Resolution) -> Vec<Result<SocketAddr, Error>> {
        let mut out = Vec::new();
        while let Some(task) = resolution.next_task() {
            if let Some(line) = describe(&task) {
                let late = self.late.iter().any(|late| *late == line);
                self.log.push(line);
                if late {
                    resolution.timed_out();
                    continue;
                }
            }
            match task {
                Task::Found(a) => {
                    assert!(resolution.shows(&Ok(a)));
                    out.push(Ok(a));
                }
                Task::Failed(e) => {
                    let item = Err(e);
                    if resolution.shows(&item) {
                        out.push(item);
                    }
                }
                Task::LookupHost { host, port, purpose } => {
                    let found: Vec<SocketAddr> = self
                        .hosts
                        .iter()
                        .filter(|(name, _)| *name == host)
                        .map(|(_, a)| SocketAddr { port, ..*a })
                        .collect();
                    let reply =
                        if found.is_empty() { Err("no such host".to_string()) } else { Ok(found) };
                    resolution.host_found(&purpose, reply);
                }
                Task::LookupIp { host, port, family } => {
                    let found = self
                        .hosts
                        .iter()
                        .find(|(name, _)| *name == host)
                        .map(|(_, a)| SocketAddr { port, ..*a });
                    resolution.ip_found(family, found);
                }
                Task::FetchNickname { url } => {
                    let body = self.bodies.iter().find(|(at, _)| *at == url);
                    resolution.nickname_fetched(match body {
                        Some((_, body)) => Ok(body.to_string()),
                        None => Err("404".to_string()),
                    });
                }
                Task::LookupSrv { name, purpose } => {
                    let records = self.records.iter().find(|(at, _)| *at == name);
                    resolution.srv_found(
                        &purpose,
                        match records {
                            Some((_, records)) => Ok(records.clone()),
                            None => Err(Error::SrvLookup("no records".to_string())),
                        },
                    );
                }
                Task::AskTsdns { server, .. } => {
                    let answer = self.tsdns.iter().find(|(at, _)| *at == server);
                    resolution.tsdns_answered(match answer {
                        Some((_, answer)) => Ok(answer.to_vec()),
                        None => Err("refused".to_string()),
                    });
                }
            }
        }
        out
    }

    /// The addresses that the caller of a search gets.
    fn addresses(&mut self, address: &str) -> Vec<SocketAddr> {
        let resolution = resolve(address.to_string());
        assert!(resolution.is_quiet());
        self.run(resolution).into_iter().map(|item| item.unwrap()).collect()
    }
}

fn srv(priority: u16, weight: u16, port: u16, target: &str) -> SrvRecord {
    SrvRecord { priority, weight, port, target: target.to_string() }
}

#[test]
fn resolve_localhost() {
    let mut network = Network::empty();
    let resolution = resolve("127.0.0.1".into());
    assert!(!resolution.is_quiet());
    let res: Vec<SocketAddr> = network.run(resolution).into_iter().map(|r| r.unwrap()).collect();
    assert_eq!(res.as_slice(), &[ip(127, 0, 0, 1, DEFAULT_PORT)]);
    assert!(network.log.is_empty());
}

#[test]
fn all_ways_are_tried_in_order() {
    let mut network = Network::empty();
    assert!(network.addresses("ts3.subdomain.from.com").is_empty());
    assert_eq!(
        network.log,
        vec![
            "srv _gts._udp.ts3.subdomain.from.com.",
            "srv _ts3._udp.ts3.subdomain.from.com.",
            "srv _tsdns._tcp.from.com.",
            "host ts3.subdomain.from.com:9987",
        ]
    );
}

#[test]
fn nicknames_are_tried_first() {
    let mut network = Network::empty();
    assert!(network.addresses("loc").is_empty());
    assert_eq!(
        network.log,
        vec![
            "get https://named.myteamspeak.com/lookup?name=loc",
            "srv _gts._udp.loc.",
            "srv _ts3._udp.loc.",
            "srv _tsdns._tcp.loc.",
            "host loc:9987",
        ]
    );
}

#[test]
fn the_name_of_this_machine_is_no_nickname() {
    let mut network = Network::empty();
    network.hosts.push(("localhost", ip(127, 0, 0, 1, 0)));
    assert_eq!(network.addresses("localhost"), vec![ip(127, 0, 0, 1, 9987)]);
    assert!(!network.log.iter().any(|line| line.starts_with("get ")));
}

#[test]
fn a_given_port_skips_everything_but_the_host() {
    let mut network = Network::empty();
    network.hosts.push(("ts.example.com", ip(10, 0, 0, 1, 0)));
    assert_eq!(network.addresses("ts.example.com:1234"), vec![ip(10, 0, 0, 1, 1234)]);
    assert_eq!(network.log, vec!["host ts.example.com:1234"]);
}

#[test]
fn every_way_adds_its_addresses() {
    let mut network = Network::empty();
    network.bodies.push((
        "https://named.myteamspeak.com/lookup?name=nick",
        "10.0.0.1\r\na.example:7\n\nb.example\n1.2.3:4\nx:y\n",
    ));
    network.hosts.push(("a.example", ip(10, 0, 0, 2, 0)));
    network.hosts.push(("a.example", ip(10, 0, 0, 3, 0)));
    network.hosts.push(("1.2.3", ip(1, 2, 0, 3, 0)));
    network.records.push((
        "_gts._udp.nick.",
        vec![srv(9, 0, 11, "d.example."), srv(2, 5, 12, "c.example.")],
    ));
    network.hosts.push(("c.example.", ip(10, 0, 0, 4, 0)));
    network.hosts.push(("d.example.", ip(10, 0, 0, 5, 0)));
    network.records.push(("_tsdns._tcp.nick.", vec![srv(1, 0, 41144, "t.example.")]));
    network.hosts.push(("t.example.", ip(10, 0, 0, 6, 0)));
    network.tsdns.push((ip(10, 0, 0, 6, 41144), b"10.0.0.7:8"));
    network.hosts.push(("nick", ip(10, 0, 0, 8, 0)));
    assert_eq!(
        network.addresses("nick"),
        vec![
            ip(10, 0, 0, 1, 9987),
            ip(10, 0, 0, 2, 7),
            ip(10, 0, 0, 3, 7),
            ip(1, 2, 0, 3, 4),
            ip(10, 0, 0, 4, 12),
            ip(10, 0, 0, 5, 11),
            ip(10, 0, 0, 7, 8),
            ip(10, 0, 0, 8, 9987),
        ]
    );
    assert!(network.log.contains(&"tsdns V4(167772166) nick".to_string()));
}

#[test]
fn records_without_weight_are_used() {
    let mut network = Network::empty();
    network
        .records
        .push(("_ts3._udp.greenteaspeak.de.", vec![srv(10, 0, 9987, "ts.greenteaspeak.de.")]));
    network.hosts.push(("ts.greenteaspeak.de.", ip(148, 251, 103, 129, 0)));
    network.hosts.push(("greenteaspeak.de", ip(148, 251, 103, 131, 0)));
    assert_eq!(
        network.addresses("greenteaspeak.de"),
        vec![ip(148, 251, 103, 129, 9987), ip(148, 251, 103, 131, 9987)]
    );
}

#[test]
fn malformed_addresses_are_reported() {
    let mut network = Network::empty();
    let resolution = resolve("host:port".into());
    assert!(!resolution.is_quiet());
    let res = network.run(resolution);
    assert_eq!(res.len(), 1);
    assert!(matches!(res[0], Err(Error::InvalidPort(PortError::InvalidDigit))));

    let res = network.run(resolve("::1]".into()));
    assert!(matches!(res[0], Err(Error::InvalidIpAddress)));
    assert!(network.log.is_empty());
}

#[test]
fn what_looks_like_an_ip_is_left_to_the_system() {
    let mut network = Network::empty();
    network.hosts.push(("127.1", ip(127, 0, 0, 1, 0)));
    let res = network.run(resolve("127.1".into()));
    assert!(matches!(res[0], Ok(a) if a == ip(127, 0, 0, 1, 9987)));
    let res = network.run(resolve("127.2".into()));
    assert!(matches!(res[0], Err(Error::InvalidIp4Address)));
    let res = network.run(resolve("a::b::c".into()));
    assert!(matches!(res[0], Err(Error::InvalidIp6Address)));
    assert_eq!(network.log, vec!["ip 127.1:9987", "ip 127.2:9987", "ip a::b::c:9987"]);
}

#[test]
fn a_nickname_alone_reports_its_failures() {
    let mut network = Network::empty();
    let resolution = resolve_nickname("nobody".into());
    assert!(!resolution.is_quiet());
    let res = network.run(resolution);
    assert_eq!(res.len(), 1);
    assert!(matches!(&res[0], Err(Error::NicknameResolve(m)) if m == "404"));

    network.bodies.push(("https://named.myteamspeak.com/lookup?name=nick", "gone.example\nh:70000"));
    let res = network.run(resolve_nickname("nick".into()));
    assert_eq!(res.len(), 2);
    assert!(matches!(&res[0], Err(Error::ResolveHost(m)) if m == "no such host"));
    assert!(matches!(res[1], Err(Error::InvalidPort(PortError::PosOverflow))));
}

#[test]
fn tsdns_answers_are_ip_addresses() {
    assert!(matches!(resolve_tsdns(b"1.2.3.4:5"), Task::Found(a) if a == ip(1, 2, 3, 4, 5)));
    assert!(matches!(resolve_tsdns(b"1.2.3.4"), Task::Found(a) if a == ip(1, 2, 3, 4, 9987)));
    assert!(matches!(
        resolve_tsdns(b"404 not found"),
        Task::Failed(Error::TsdnsAddressNotFound)
    ));
    assert!(matches!(resolve_tsdns(b"404"), Task::Failed(Error::TsdnsAddressNotFound)));
    assert!(matches!(
        resolve_tsdns(b"ts.example.com"),
        Task::Failed(Error::TsdnsAddressInvalidResponse(text)) if text == "ts.example.com"
    ));
    assert!(matches!(
        resolve_tsdns(b"ts.example.com:1"),
        Task::Failed(Error::TsdnsAddressInvalidResponse(text)) if text == "ts.example.com:1"
    ));
    assert!(matches!(
        resolve_tsdns(b"ts.example.com:$PORT"),
        Task::Failed(Error::InvalidPort(PortError::InvalidDigit))
    ));
    assert!(matches!(
        resolve_tsdns(b"1.2.3"),
        Task::LookupIp { host, port: 9987, family: IpFamily::V4 } if host == "1.2.3"
    ));
    assert!(matches!(
        resolve_tsdns(&[0x31, 0xff, 0x32]),
        Task::Failed(Error::TsdnsParseResponse(e)) if e.valid_up_to() == 1
    ));
    assert!(matches!(
        resolve_tsdns("\u{fc}".as_bytes()),
        Task::Failed(Error::TsdnsAddressInvalidResponse(text)) if text == "\u{fc}"
    ));
}

#[test]
fn tsdns_servers_that_fail_are_named() {
    let mut resolution = resolve_nickname("x".into());
    resolution.next_task();
    resolution.tsdns_answered(Err("refused".to_string()));
    assert!(matches!(
        resolution.next_task(),
        Some(Task::Failed(Error::Io("tsdns", m))) if m == "refused"
    ));
    assert!(resolution.next_task().is_none());
}

#[test]
fn only_a_search_keeps_failures_to_itself() {
    let a = ip(1, 2, 3, 4, 5);
    let search = resolve("loc".into());
    assert!(search.shows(&Ok(a)));
    assert!(!search.shows(&Err(Error::InvalidNickname)));
    assert!(!search.shows(&Err(Error::CreateResolver("no".to_string()))));
    let nickname = resolve_nickname("loc".into());
    assert!(nickname.shows(&Ok(a)));
    assert!(nickname.shows(&Err(Error::InvalidNickname)));
    assert!(resolve("127.1".into()).shows(&Err(Error::InvalidIp4Address)));
}

#[test]
fn a_search_waits_ten_seconds() {
    assert_eq!(TIMEOUT_SECONDS, 10);
    assert_eq!(resolve("loc".into()).patience(), Some(10));
    assert_eq!(resolve("loc:1".into()).patience(), Some(10));
    assert_eq!(resolve("127.1".into()).patience(), None);
    assert_eq!(resolve_nickname("loc".into()).patience(), None);
}

#[test]
fn late_lookups_are_given_up_for_the_next_way() {
    let mut network = Network::empty();
    network.bodies.push(("https://named.myteamspeak.com/lookup?name=nick", "10.0.0.1"));
    network.records.push((
        "_gts._udp.nick.",
        vec![srv(1, 0, 11, "late.example."), srv(2, 0, 12, "c.example.")],
    ));
    network.hosts.push(("late.example.", ip(10, 0, 0, 3, 0)));
    network.hosts.push(("c.example.", ip(10, 0, 0, 4, 0)));
    network.hosts.push(("nick", ip(10, 0, 0, 8, 0)));
    network.late.push("get https://named.myteamspeak.com/lookup?name=nick");
    network.late.push("host late.example.:11");
    network.late.push("srv _tsdns._tcp.nick.");
    assert_eq!(network.addresses("nick"), vec![ip(10, 0, 0, 4, 12), ip(10, 0, 0, 8, 9987)]);
    assert_eq!(
        network.log,
        vec![
            "get https://named.myteamspeak.com/lookup?name=nick",
            "srv _gts._udp.nick.",
            "host late.example.:11",
            "host c.example.:12",
            "srv _ts3._udp.nick.",
            "srv _tsdns._tcp.nick.",
            "host nick:9987",
        ]
    );
}

#[test]
fn a_search_ends_when_every_lookup_is_late() {
    let mut resolution = resolve("loc".into());
    let mut given_up = 0;
    while let Some(task) = resolution.next_task() {
        assert!(!matches!(task, Task::Found(_) | Task::Failed(_)));
        resolution.timed_out();
        given_up += 1;
    }
    assert_eq!(given_up, 5);
}
