//! What a list of servers does to what is known of the cluster.

use std::collections::HashMap;

use yb_load_balance::cluster::{
    add_to_failed_host_list, elapsed, refresh, ClusterState, ServerRow,
};
use yb_load_balance::config::{
    Config, KeepaliveConfig, LoadBalanceHosts, Nanos, TargetSessionAttrs,
};
use yb_load_balance::counts::connection_count;
use yb_load_balance::host::Host;
use yb_load_balance::host_map::HostMap;

const SECOND: Nanos = 1_000_000_000;

fn tcp(name: &str) -> Host {
    Host::Tcp(name.to_string())
}

fn config() -> Config {
    Config {
        host: vec![tcp("127.0.0.1")],
        hostaddr: vec![],
        port: vec![],
        load_balance_hosts: LoadBalanceHosts::Disable,
        load_balance: "true".to_string(),
        topology_keys: HashMap::new(),
        fallback_to_topology_keys_only: false,
        yb_servers_refresh_interval: 300 * SECOND,
        failed_host_reconnect_delay_secs: 5 * SECOND,
        connect_timeout: None,
        tcp_user_timeout: None,
        keepalives: true,
        keepalive_config: KeepaliveConfig { idle: 7200 * SECOND, interval: None, retries: None },
        target_session_attrs: TargetSessionAttrs::Any,
    }
}

fn row(host: &str, port: i64, node_type: &str, zone: &str, public_ip: &str) -> ServerRow {
    ServerRow {
        host: host.to_string(),
        port,
        node_type: node_type.to_string(),
        cloud: "cloud1".to_string(),
        region: "region1".to_string(),
        zone: zone.to_string(),
        public_ip: public_ip.to_string(),
    }
}

#[test]
fn nothing_is_known_at_first() {
    let cluster = ClusterState::new();
    assert!(cluster.primary().is_empty());
    assert!(cluster.read_replicas().is_empty());
    assert!(!cluster.use_public_ip());
    assert_eq!(cluster.port(&tcp("a")), None);
    assert_eq!(cluster.public_host(&tcp("a")), None);
    assert!(cluster.placed_primary("cloud1.region1").is_none());
    assert!(cluster.placed_read_replicas("cloud1.region1").is_none());
}

#[test]
fn a_list_of_servers_is_taken_in() {
    let mut cluster = ClusterState::new();
    let mut counts = HostMap::new();
    let rows = vec![
        row("a", 5433, "primary", "zone1", "pa"),
        row("b", 5434, "primary", "zone2", "pb"),
        row("c", 5435, "read_replica", "zone1", "pc"),
        row("a", 5433, "primary", "zone1", "pa"),
    ];
    refresh(&mut cluster, &mut counts, &rows, "a", &config(), SECOND);
    assert_eq!(*cluster.primary(), vec![tcp("a"), tcp("b")]);
    assert_eq!(*cluster.read_replicas(), vec![tcp("c")]);
    assert_eq!(cluster.placed_primary("cloud1.region1.zone1"), Some(&vec![tcp("a")]));
    assert_eq!(cluster.placed_primary("cloud1.region1.zone2"), Some(&vec![tcp("b")]));
    assert_eq!(cluster.placed_primary("cloud1.region1"), Some(&vec![tcp("a"), tcp("b")]));
    assert_eq!(cluster.placed_read_replicas("cloud1.region1.zone1"), Some(&vec![tcp("c")]));
    assert_eq!(cluster.placed_read_replicas("cloud1.region1"), Some(&vec![tcp("c")]));
    assert_eq!(cluster.placed_read_replicas("cloud1.region1.zone2"), None);
    assert_eq!(cluster.port(&tcp("a")), Some(5433));
    assert_eq!(cluster.port(&tcp("pa")), Some(5433));
    assert_eq!(cluster.port(&tcp("c")), Some(5435));
    assert_eq!(cluster.public_host(&tcp("b")), Some(&tcp("pb")));
    assert!(!cluster.use_public_ip());
    assert_eq!(counts.get(&tcp("a")), None);
}

#[test]
fn ports_keep_their_low_sixteen_bits() {
    let mut cluster = ClusterState::new();
    let mut counts = HostMap::new();
    let rows = vec![
        row("a", 70000, "primary", "z", "pa"),
        row("b", -1, "primary", "z", "pb"),
        row("c", 65536, "primary", "z", "pc"),
        row("d", i64::MIN, "primary", "z", "pd"),
        row("e", i64::MAX, "primary", "z", "pe"),
    ];
    refresh(&mut cluster, &mut counts, &rows, "a", &config(), 0);
    assert_eq!(cluster.port(&tcp("a")), Some(4464));
    assert_eq!(cluster.port(&tcp("b")), Some(65535));
    assert_eq!(cluster.port(&tcp("c")), Some(0));
    assert_eq!(cluster.port(&tcp("d")), Some(0));
    assert_eq!(cluster.port(&tcp("e")), Some(65535));
}

#[test]
fn a_new_port_replaces_the_old_one() {
    let mut cluster = ClusterState::new();
    let mut counts = HostMap::new();
    refresh(&mut cluster, &mut counts, &vec![row("a", 1, "primary", "z", "pa")], "", &config(), 0);
    refresh(&mut cluster, &mut counts, &vec![row("b", 2, "primary", "z", "pa")], "", &config(), 0);
    assert_eq!(cluster.port(&tcp("a")), Some(1));
    assert_eq!(cluster.port(&tcp("b")), Some(2));
    assert_eq!(cluster.port(&tcp("pa")), Some(2));
}

#[test]
fn the_first_public_address_of_a_listed_server_stays() {
    let mut cluster = ClusterState::new();
    let mut counts = HostMap::new();
    refresh(&mut cluster, &mut counts, &vec![row("a", 1, "primary", "z", "pa")], "", &config(), 0);
    refresh(&mut cluster, &mut counts, &vec![row("a", 1, "primary", "z", "qa")], "", &config(), 0);
    assert_eq!(cluster.public_host(&tcp("a")), Some(&tcp("pa")));
    assert_eq!(cluster.port(&tcp("qa")), Some(1));
}

#[test]
fn public_addresses_are_used_after_a_connection_to_one() {
    let mut cluster = ClusterState::new();
    let mut counts = HostMap::new();
    let rows = vec![row("a", 1, "primary", "z", "Db.Example.COM")];
    refresh(&mut cluster, &mut counts, &rows, "db.example.org", &config(), 0);
    assert!(!cluster.use_public_ip());
    refresh(&mut cluster, &mut counts, &rows, "dB.eXAMPLE.com", &config(), 0);
    assert!(cluster.use_public_ip());
    refresh(&mut cluster, &mut counts, &rows, "a", &config(), 0);
    assert!(cluster.use_public_ip());
}

#[test]
fn only_ascii_letters_are_alike_in_both_cases() {
    let mut cluster = ClusterState::new();
    let mut counts = HostMap::new();
    let rows = vec![row("a", 1, "primary", "z", "\u{c4}[`{@")];
    refresh(&mut cluster, &mut counts, &rows, "\u{e4}[`{@", &config(), 0);
    assert!(!cluster.use_public_ip());
    refresh(&mut cluster, &mut counts, &rows, "\u{c4}{@[`", &config(), 0);
    assert!(!cluster.use_public_ip());
    refresh(&mut cluster, &mut counts, &rows, "\u{c4}[`{@", &config(), 0);
    assert!(cluster.use_public_ip());
}

#[test]
fn an_unknown_control_host_matches_an_empty_public_address() {
    let mut cluster = ClusterState::new();
    let mut counts = HostMap::new();
    refresh(&mut cluster, &mut counts, &vec![row("a", 1, "primary", "z", "")], "", &config(), 0);
    assert!(cluster.use_public_ip());
}

#[test]
fn a_failed_server_is_down_until_the_delay_has_passed() {
    let mut cluster = ClusterState::new();
    let mut counts = HostMap::new();
    let rows = vec![row("a", 1, "primary", "z", "pa"), row("b", 2, "read_replica", "z", "pb")];
    refresh(&mut cluster, &mut counts, &rows, "", &config(), 0);
    counts.insert(tcp("a"), 4);
    counts.insert(tcp("b"), 6);
    add_to_failed_host_list(&mut cluster, tcp("a"), 10 * SECOND);
    add_to_failed_host_list(&mut cluster, tcp("b"), 10 * SECOND);
    assert_eq!(cluster.failed().get(&tcp("a")), Some(&(10 * SECOND)));

    // Exactly the delay: still down.
    refresh(&mut cluster, &mut counts, &rows, "", &config(), 15 * SECOND);
    assert!(cluster.primary().is_empty());
    assert!(cluster.read_replicas().is_empty());
    assert_eq!(cluster.public_host(&tcp("a")), None);
    assert_eq!(cluster.public_host(&tcp("b")), None);
    assert!(cluster.failed().contains_key(&tcp("a")));
    assert_eq!(connection_count(&counts, &tcp("a")), 4);
    assert_eq!(cluster.placed_primary("cloud1.region1.z"), Some(&vec![tcp("a")]));

    // A nanosecond more: up again, and counted anew.
    refresh(&mut cluster, &mut counts, &rows, "", &config(), 15 * SECOND + 1);
    assert_eq!(*cluster.primary(), vec![tcp("a")]);
    assert_eq!(*cluster.read_replicas(), vec![tcp("b")]);
    assert_eq!(cluster.public_host(&tcp("a")), Some(&tcp("pa")));
    assert!(!cluster.failed().contains_key(&tcp("a")));
    assert_eq!(connection_count(&counts, &tcp("a")), 0);
    assert_eq!(connection_count(&counts, &tcp("b")), 0);
}

#[test]
fn a_failed_server_that_the_list_omits_stays_marked() {
    let mut cluster = ClusterState::new();
    let mut counts = HostMap::new();
    let both = vec![row("a", 1, "primary", "z", "pa"), row("b", 2, "primary", "z", "pb")];
    refresh(&mut cluster, &mut counts, &both, "", &config(), 0);
    add_to_failed_host_list(&mut cluster, tcp("a"), 0);
    let one = vec![row("b", 2, "primary", "z", "pb")];
    refresh(&mut cluster, &mut counts, &one, "", &config(), 1000 * SECOND);
    assert!(cluster.failed().contains_key(&tcp("a")));
    assert_eq!(*cluster.primary(), vec![tcp("a"), tcp("b")]);
    assert_eq!(cluster.public_host(&tcp("a")), Some(&tcp("pa")));
}

#[test]
fn a_server_in_both_lists_leaves_one_of_them() {
    let mut cluster = ClusterState::new();
    let mut counts = HostMap::new();
    let rows = vec![row("a", 1, "primary", "z", "pa"), row("a", 1, "read_replica", "z", "pa")];
    refresh(&mut cluster, &mut counts, &rows, "", &config(), 0);
    add_to_failed_host_list(&mut cluster, tcp("a"), 0);
    let one = vec![row("a", 1, "primary", "z", "pa")];
    refresh(&mut cluster, &mut counts, &one, "", &config(), 1);
    assert!(cluster.primary().is_empty());
    assert_eq!(*cluster.read_replicas(), vec![tcp("a")]);
    assert_eq!(cluster.public_host(&tcp("a")), None);
}

#[test]
fn the_same_list_again_changes_nothing() {
    let mut cluster = ClusterState::new();
    let mut counts = HostMap::new();
    let rows = vec![row("a", 1, "primary", "z", "pa"), row("b", 2, "read_replica", "z", "pb")];
    refresh(&mut cluster, &mut counts, &rows, "", &config(), 0);
    refresh(&mut cluster, &mut counts, &rows, "", &config(), 9);
    assert_eq!(*cluster.primary(), vec![tcp("a")]);
    assert_eq!(*cluster.read_replicas(), vec![tcp("b")]);
    assert_eq!(cluster.placed_primary("cloud1.region1.z"), Some(&vec![tcp("a")]));
    assert_eq!(cluster.placed_primary("cloud1.region1"), Some(&vec![tcp("a")]));
}

#[test]
fn an_empty_list_changes_nothing() {
    let mut cluster = ClusterState::new();
    let mut counts = HostMap::new();
    refresh(&mut cluster, &mut counts, &vec![row("a", 1, "primary", "z", "pa")], "", &config(), 0);
    refresh(&mut cluster, &mut counts, &vec![], "pa", &config(), 9);
    assert_eq!(*cluster.primary(), vec![tcp("a")]);
    assert!(!cluster.use_public_ip());
}

#[test]
fn time_does_not_run_backwards() {
    assert_eq!(elapsed(10, 3), 7);
    assert_eq!(elapsed(3, 3), 0);
    assert_eq!(elapsed(3, 10), 0);
}
