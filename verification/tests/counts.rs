//! Connection counts and the hosts with the fewest connections.

use yb_load_balance::config::Nanos;
use yb_load_balance::counts::{
    connection_count, decrease_connection_count, increase_connection_count,
    initial_connection_counts, make_connection_count_zero,
};
use yb_load_balance::host::{clone_hosts, contains, extend_hosts, position, Host, UnixPath};
use yb_load_balance::host_map::HostMap;
use yb_load_balance::least_loaded::get_least_loaded_hosts;

fn tcp(name: &str) -> Host {
    Host::Tcp(name.to_string())
}

fn unix(path: &str) -> Host {
    Host::Unix(UnixPath {
        bytes: path.as_bytes().to_vec(),
        debug: format!("{:?}", path),
    })
}

#[test]
fn counts_start_at_zero_for_every_known_host() {
    let counts = initial_connection_counts(&vec![tcp("a"), tcp("b")], &vec![tcp("b"), tcp("c")]);
    assert_eq!(counts.get(&tcp("a")), Some(&0));
    assert_eq!(counts.get(&tcp("b")), Some(&0));
    assert_eq!(counts.get(&tcp("c")), Some(&0));
    assert_eq!(counts.get(&tcp("d")), None);
    assert_eq!(connection_count(&counts, &tcp("d")), 0);
}

#[test]
fn counting_starts_at_one_for_an_unknown_host() {
    let mut counts = HostMap::new();
    increase_connection_count(&mut counts, tcp("a"));
    assert_eq!(counts.get(&tcp("a")), Some(&1));
    increase_connection_count(&mut counts, tcp("a"));
    assert_eq!(counts.get(&tcp("a")), Some(&2));
    assert_eq!(counts.get(&tcp("b")), None);
}

#[test]
fn counting_up_and_down_restores_the_count() {
    let mut counts = HostMap::new();
    counts.insert(tcp("a"), 7);
    counts.insert(tcp("b"), 3);
    increase_connection_count(&mut counts, tcp("a"));
    assert_eq!(connection_count(&counts, &tcp("a")), 8);
    decrease_connection_count(&mut counts, tcp("a"));
    assert_eq!(connection_count(&counts, &tcp("a")), 7);
    assert_eq!(connection_count(&counts, &tcp("b")), 3);
}

#[test]
fn a_count_of_zero_is_not_decreased() {
    let mut counts = HostMap::new();
    counts.insert(tcp("a"), 0);
    decrease_connection_count(&mut counts, tcp("a"));
    assert_eq!(counts.get(&tcp("a")), Some(&0));
    decrease_connection_count(&mut counts, tcp("b"));
    assert!(!counts.contains_key(&tcp("b")));
}

#[test]
fn a_negative_count_is_decreased_further() {
    let mut counts = HostMap::new();
    counts.insert(tcp("a"), -1);
    decrease_connection_count(&mut counts, tcp("a"));
    assert_eq!(counts.get(&tcp("a")), Some(&-2));
}

#[test]
fn only_a_counted_host_is_set_back() {
    let mut counts = HostMap::new();
    counts.insert(tcp("a"), 5);
    make_connection_count_zero(&mut counts, tcp("a"));
    make_connection_count_zero(&mut counts, tcp("b"));
    assert_eq!(counts.get(&tcp("a")), Some(&0));
    assert_eq!(counts.get(&tcp("b")), None);
}

#[test]
fn the_hosts_with_the_fewest_connections_come_in_order() {
    let mut counts = HostMap::new();
    counts.insert(tcp("a"), 2);
    counts.insert(tcp("b"), 1);
    counts.insert(tcp("c"), 1);
    let failed: HostMap<Nanos> = HostMap::new();
    let hosts = vec![tcp("a"), tcp("c"), tcp("b")];
    assert_eq!(
        get_least_loaded_hosts(&hosts, &counts, &failed),
        vec![tcp("c"), tcp("b")]
    );
}

#[test]
fn an_uncounted_host_has_no_connection() {
    let mut counts = HostMap::new();
    counts.insert(tcp("a"), 1);
    let failed: HostMap<Nanos> = HostMap::new();
    assert_eq!(
        get_least_loaded_hosts(&vec![tcp("a"), tcp("b")], &counts, &failed),
        vec![tcp("b")]
    );
}

#[test]
fn failed_hosts_are_left_out() {
    let counts = HostMap::new();
    let mut failed: HostMap<Nanos> = HostMap::new();
    failed.insert(tcp("a"), 1);
    assert_eq!(
        get_least_loaded_hosts(&vec![tcp("a"), tcp("b")], &counts, &failed),
        vec![tcp("b")]
    );
    failed.insert(tcp("b"), 1);
    assert_eq!(
        get_least_loaded_hosts(&vec![tcp("a"), tcp("b")], &counts, &failed),
        vec![]
    );
    assert_eq!(get_least_loaded_hosts(&vec![], &counts, &failed), vec![]);
}

#[test]
fn a_host_that_stands_twice_is_found_twice() {
    let counts = HostMap::new();
    let failed: HostMap<Nanos> = HostMap::new();
    assert_eq!(
        get_least_loaded_hosts(&vec![tcp("a"), tcp("a")], &counts, &failed),
        vec![tcp("a"), tcp("a")]
    );
}

#[test]
fn hosts_with_the_largest_count_are_found_too() {
    let mut counts = HostMap::new();
    counts.insert(tcp("a"), i64::MAX);
    let failed: HostMap<Nanos> = HostMap::new();
    assert_eq!(
        get_least_loaded_hosts(&vec![tcp("a")], &counts, &failed),
        vec![tcp("a")]
    );
    counts.insert(tcp("b"), i64::MIN);
    assert_eq!(
        get_least_loaded_hosts(&vec![tcp("a"), tcp("b")], &counts, &failed),
        vec![tcp("b")]
    );
}

#[test]
fn a_map_keeps_the_last_value_of_a_host() {
    let mut map: HostMap<u16> = HostMap::new();
    map.insert(tcp("a"), 1);
    map.insert(unix("/tmp"), 2);
    map.insert(tcp("a"), 3);
    assert_eq!(map.get(&tcp("a")), Some(&3));
    assert_eq!(map.get(&unix("/tmp")), Some(&2));
    assert_eq!(map.get(&unix("/var")), None);
    map.remove(&tcp("a"));
    assert_eq!(map.get(&tcp("a")), None);
    assert!(map.contains_key(&unix("/tmp")));
    map.remove(&tcp("x"));
    assert!(map.contains_key(&unix("/tmp")));
}

#[test]
fn hosts_are_compared_by_what_they_hold() {
    assert!(tcp("a").same(&tcp("a")));
    assert!(!tcp("a").same(&tcp("A")));
    assert!(!tcp("/tmp").same(&unix("/tmp")));
    assert!(unix("/tmp").same(&unix("/tmp")));
    assert!(!unix("/tmp").same(&unix("/tm")));
    assert_eq!(unix("/tmp").clone(), unix("/tmp"));
}

#[test]
fn lists_of_hosts() {
    let hosts = vec![tcp("a"), tcp("b"), tcp("a")];
    assert_eq!(position(&hosts, &tcp("a")), Some(0));
    assert_eq!(position(&hosts, &tcp("b")), Some(1));
    assert_eq!(position(&hosts, &tcp("c")), None);
    assert!(contains(&hosts, &tcp("b")));
    assert!(!contains(&hosts, &tcp("c")));
    let mut copy = clone_hosts(&hosts);
    assert_eq!(copy, hosts);
    extend_hosts(&mut copy, &vec![tcp("c")]);
    assert_eq!(copy, vec![tcp("a"), tcp("b"), tcp("a"), tcp("c")]);
}
