use tsresolver::address::{is_usable_name_server, IpAddr};
use tsresolver::name::{srv_lookup_hosts, srv_query, tsdns_root};

#[test]
fn srv_lookup_hosts_exact_only() {
    assert_eq!(srv_lookup_hosts("ts6.rush-zone.com"), vec!["ts6.rush-zone.com".to_string()]);
    assert_eq!(srv_lookup_hosts("greenteaspeak.de."), vec!["greenteaspeak.de".to_string()]);
    assert_eq!(srv_lookup_hosts("localhost"), vec!["localhost".to_string()]);
}

#[test]
fn dots_are_cut_off_at_the_end_only() {
    assert_eq!(srv_lookup_hosts("a..b..."), vec!["a..b".to_string()]);
    assert_eq!(srv_lookup_hosts("..."), vec!["".to_string()]);
    assert_eq!(srv_lookup_hosts(""), vec!["".to_string()]);
}

#[test]
fn tsdns_is_looked_for_at_the_last_two_labels() {
    assert_eq!(tsdns_root("ts3.subdomain.from.com"), "from.com");
    assert_eq!(tsdns_root("from.com"), "from.com");
    assert_eq!(tsdns_root("com"), "com");
    assert_eq!(tsdns_root(""), "");
    assert_eq!(tsdns_root("a.b.c"), "b.c");
    assert_eq!(tsdns_root("\u{e4}.\u{f6}.\u{fc}"), "\u{f6}.\u{fc}");
}

#[test]
fn names_of_srv_records_end_in_a_dot() {
    assert_eq!(srv_query("_ts3._udp.", "example.com"), "_ts3._udp.example.com.");
}

#[test]
fn site_local_name_servers_are_not_used() {
    let first: u128 = 0xfec0_0000_0000_ffff_0000_0000_0000_0001;
    assert!(!is_usable_name_server(IpAddr::V6(first)));
    assert!(!is_usable_name_server(IpAddr::V6(first + 1)));
    assert!(!is_usable_name_server(IpAddr::V6(first + 2)));
    assert!(is_usable_name_server(IpAddr::V6(first + 3)));
    assert!(is_usable_name_server(IpAddr::V6(first - 1)));
    assert!(is_usable_name_server(IpAddr::V4(0x0101_0101)));
}
