//! Which server is chosen.

use std::collections::HashMap;

use yb_load_balance::balance::{
    choose_server, get_least_loaded_server, keys_only, least_loaded_servers, topology_searchable,
};
use yb_load_balance::cluster::{add_to_failed_host_list, refresh, ClusterState, ServerRow};
use yb_load_balance::config::{
    Config, KeepaliveConfig, LoadBalanceHosts, Nanos, TargetSessionAttrs,
};
use yb_load_balance::counts::{connection_count, increase_connection_count};
use yb_load_balance::error::{Error, ErrorKind, IoErrorKind};
use yb_load_balance::host::Host;
use yb_load_balance::host_map::HostMap;

const SECOND: Nanos = 1_000_000_000;

fn tcp(name: &str) -> Host {
    Host::Tcp(name.to_string())
}

fn config(load_balance: &str, topology_keys: Vec<(i64, Vec<&str>)>, only: bool) -> Config {
    let mut keys: HashMap<i64, Vec<String>> = HashMap::new();
    for (level, placements) in topology_keys {
        keys.insert(level, placements.iter().map(|p| p.to_string()).collect());
    }
    Config {
        host: vec![tcp("127.0.0.1")],
        hostaddr: vec![],
        port: vec![],
        load_balance_hosts: LoadBalanceHosts::Disable,
        load_balance: load_balance.to_string(),
        topology_keys: keys,
        fallback_to_topology_keys_only: only,
        yb_servers_refresh_interval: 300 * SECOND,
        failed_host_reconnect_delay_secs: 5 * SECOND,
        connect_timeout: None,
        tcp_user_timeout: None,
        keepalives: true,
        keepalive_config: KeepaliveConfig { idle: 7200 * SECOND, interval: None, retries: None },
        target_session_attrs: TargetSessionAttrs::Any,
    }
}

fn row(host: &str, node_type: &str, region: &str, zone: &str) -> ServerRow {
    ServerRow {
        host: host.to_string(),
        port: 5433,
        node_type: node_type.to_string(),
        cloud: "c".to_string(),
        region: region.to_string(),
        zone: zone.to_string(),
        public_ip: String::new(),
    }
}

/// Primary servers p1 (r1.z1), p2 (r1.z2) and p3 (r2.z1); read replicas q1 (r1.z1)
/// and q2 (r2.z1).
fn cluster() -> ClusterState {
    let mut cluster = ClusterState::new();
    let mut counts = HostMap::new();
    let rows = vec![
        row("p1", "primary", "r1", "z1"),
        row("p2", "primary", "r1", "z2"),
        row("p3", "primary", "r2", "z1"),
        row("q1", "read_replica", "r1", "z1"),
        row("q2", "read_replica", "r2", "z1"),
    ];
    refresh(&mut cluster, &mut counts, &rows, "p1", &config("true", vec![], false), 0);
    cluster
}

fn down(cluster: &mut ClusterState, hosts: Vec<&str>) {
    for host in hosts {
        add_to_failed_host_list(cluster, tcp(host), 1);
    }
}

fn names(hosts: Vec<&str>) -> Result<Vec<Host>, Error> {
    Ok(hosts.iter().map(|h| tcp(h)).collect())
}

fn refused(reason: &str) -> Error {
    Error {
        kind: ErrorKind::Connect(IoErrorKind::ConnectionRefused),
        message: "error connecting to server".to_string(),
        causes: vec![reason.to_string()],
    }
}

fn no_server() -> Error {
    refused("could not find a server to connect to")
}

fn no_preferred() -> Error {
    refused("no preferred server available, fallback-to-topology-keys-only is set to true")
}

#[test]
fn all_servers_alike_read_replicas_first() {
    let c = cluster();
    let counts = HostMap::new();
    assert_eq!(
        least_loaded_servers(&config("true", vec![], false), &c, &counts),
        names(vec!["q1", "q2", "p1", "p2", "p3"])
    );
}

#[test]
fn the_least_loaded_are_chosen_from() {
    let c = cluster();
    let mut counts = HostMap::new();
    counts.insert(tcp("q1"), 3);
    counts.insert(tcp("q2"), 2);
    counts.insert(tcp("p1"), 1);
    counts.insert(tcp("p2"), 2);
    counts.insert(tcp("p3"), 1);
    assert_eq!(
        least_loaded_servers(&config("true", vec![], false), &c, &counts),
        names(vec!["p1", "p3"])
    );
}

#[test]
fn kinds_of_servers() {
    let c = cluster();
    let counts = HostMap::new();
    assert_eq!(
        least_loaded_servers(&config("only-rr", vec![], false), &c, &counts),
        names(vec!["q1", "q2"])
    );
    assert_eq!(
        least_loaded_servers(&config("prefer-rr", vec![], false), &c, &counts),
        names(vec!["q1", "q2"])
    );
    assert_eq!(
        least_loaded_servers(&config("only-primary", vec![], false), &c, &counts),
        names(vec!["p1", "p2", "p3"])
    );
    assert_eq!(
        least_loaded_servers(&config("prefer-primary", vec![], false), &c, &counts),
        names(vec!["p1", "p2", "p3"])
    );
}

#[test]
fn the_other_kind_serves_where_one_is_only_preferred() {
    let counts = HostMap::new();
    let mut c = cluster();
    down(&mut c, vec!["q1", "q2"]);
    assert_eq!(
        least_loaded_servers(&config("only-rr", vec![], false), &c, &counts),
        Err(no_server())
    );
    assert_eq!(
        least_loaded_servers(&config("prefer-rr", vec![], false), &c, &counts),
        names(vec!["p1", "p2", "p3"])
    );
    let mut c = cluster();
    down(&mut c, vec!["p1", "p2", "p3"]);
    assert_eq!(
        least_loaded_servers(&config("only-primary", vec![], false), &c, &counts),
        Err(no_server())
    );
    assert_eq!(
        least_loaded_servers(&config("prefer-primary", vec![], false), &c, &counts),
        names(vec!["q1", "q2"])
    );
    down(&mut c, vec!["q1", "q2"]);
    for mode in ["true", "only-rr", "only-primary", "prefer-rr", "prefer-primary"] {
        assert_eq!(
            least_loaded_servers(&config(mode, vec![], false), &c, &counts),
            Err(no_server())
        );
    }
}

#[test]
fn a_preferred_kind_that_is_loaded_still_comes_first() {
    let c = cluster();
    let mut counts = HostMap::new();
    counts.insert(tcp("q1"), 10);
    counts.insert(tcp("q2"), 9);
    assert_eq!(
        least_loaded_servers(&config("prefer-rr", vec![], false), &c, &counts),
        names(vec!["q2"])
    );
}

#[test]
fn a_placement_narrows_the_choice() {
    let c = cluster();
    let counts = HostMap::new();
    assert_eq!(
        least_loaded_servers(&config("true", vec![(1, vec!["c.r1.z1"])], false), &c, &counts),
        names(vec!["q1", "p1"])
    );
    assert_eq!(
        least_loaded_servers(
            &config("true", vec![(1, vec!["c.r1.z2", "c.r2.z1"])], false),
            &c,
            &counts
        ),
        names(vec!["p2", "q2", "p3"])
    );
    assert_eq!(
        least_loaded_servers(&config("only-rr", vec![(1, vec!["c.r1.z1"])], false), &c, &counts),
        names(vec!["q1"])
    );
    assert_eq!(
        least_loaded_servers(
            &config("only-primary", vec![(1, vec!["c.r1.z1"])], false),
            &c,
            &counts
        ),
        names(vec!["p1"])
    );
}

#[test]
fn a_star_stands_for_all_zones_of_a_region() {
    let c = cluster();
    let counts = HostMap::new();
    assert_eq!(
        least_loaded_servers(&config("true", vec![(1, vec!["c.r1.*"])], false), &c, &counts),
        names(vec!["q1", "p1", "p2"])
    );
}

#[test]
fn dots_in_a_placement() {
    let mut c = ClusterState::new();
    let mut counts = HostMap::new();
    let mut dotted = row("b", "primary", "r", "z");
    dotted.cloud = "c.x".to_string();
    let rows = vec![row("a", "primary", "r", "z.w"), dotted];
    refresh(&mut c, &mut counts, &rows, "", &config("true", vec![], false), 0);
    // A zone may have dots in its name.
    for placement in ["c.r.z.w", "c.r.*", "c.r.*.w"] {
        assert_eq!(
            least_loaded_servers(&config("true", vec![(1, vec![placement])], true), &c, &counts),
            names(vec!["a"])
        );
    }
    // A cloud may not, if a star is to stand for its zones.
    assert_eq!(
        least_loaded_servers(&config("true", vec![(1, vec!["c.x.r.z"])], true), &c, &counts),
        names(vec!["b"])
    );
    assert_eq!(
        least_loaded_servers(&config("true", vec![(1, vec!["c.x.r.*"])], true), &c, &counts),
        Err(no_preferred())
    );
}

#[test]
fn fallback_placements_are_tried_in_order_of_preference() {
    let counts = HostMap::new();
    let keys = vec![(1, vec!["c.r1.z2"]), (2, vec!["c.r1.z1"]), (3, vec!["c.r2.*"])];
    let mut c = cluster();
    assert_eq!(
        least_loaded_servers(&config("true", keys.clone(), false), &c, &counts),
        names(vec!["p2"])
    );
    down(&mut c, vec!["p2"]);
    assert_eq!(
        least_loaded_servers(&config("true", keys.clone(), false), &c, &counts),
        names(vec!["q1", "p1"])
    );
    down(&mut c, vec!["p1", "q1"]);
    assert_eq!(
        least_loaded_servers(&config("true", keys.clone(), false), &c, &counts),
        names(vec!["q2", "p3"])
    );
    down(&mut c, vec!["p3", "q2"]);
    assert_eq!(
        least_loaded_servers(&config("true", keys, false), &c, &counts),
        Err(no_server())
    );
}

#[test]
fn a_preference_that_nobody_specified_is_passed_over() {
    let counts = HostMap::new();
    let keys = vec![(1, vec!["c.r1.z2"]), (3, vec!["c.r2.*"])];
    let mut c = cluster();
    assert_eq!(
        least_loaded_servers(&config("true", keys.clone(), true), &c, &counts),
        names(vec!["p2"])
    );
    down(&mut c, vec!["p2"]);
    assert_eq!(
        least_loaded_servers(&config("true", keys.clone(), true), &c, &counts),
        names(vec!["q2", "p3"])
    );
    down(&mut c, vec!["p3", "q2"]);
    assert_eq!(
        least_loaded_servers(&config("true", keys.clone(), true), &c, &counts),
        Err(no_preferred())
    );
    assert_eq!(
        least_loaded_servers(&config("true", keys, false), &c, &counts),
        names(vec!["q1", "p1"])
    );
}

#[test]
fn preferences_are_counted_from_one_to_the_largest() {
    let counts = HostMap::new();
    let c = cluster();
    let far = vec![(i64::MAX, vec!["c.r1.z2"]), (10, vec!["c.r9.z9"])];
    assert_eq!(least_loaded_servers(&config("true", far, true), &c, &counts), names(vec!["p2"]));
    let early = vec![(0, vec!["c.r1.z2"]), (-1, vec!["c.r1.z2"]), (1, vec!["c.r2.z1"])];
    assert_eq!(
        least_loaded_servers(&config("only-primary", early, true), &c, &counts),
        names(vec!["p3"])
    );
    let many: Vec<(i64, Vec<&str>)> =
        (1..13).map(|i| (i, vec![if i == 12 { "c.r1.z2" } else { "c.r9.z9" }])).collect();
    assert_eq!(least_loaded_servers(&config("true", many, true), &c, &counts), names(vec!["p2"]));
}

#[test]
fn a_preferred_placement_is_used_however_loaded() {
    let c = cluster();
    let mut counts = HostMap::new();
    counts.insert(tcp("p2"), 100);
    let keys = vec![(1, vec!["c.r1.z2"]), (2, vec!["c.r1.z1"])];
    assert_eq!(least_loaded_servers(&config("true", keys, false), &c, &counts), names(vec!["p2"]));
}

#[test]
fn the_rest_of_the_cluster_serves_unless_it_is_ruled_out() {
    let counts = HostMap::new();
    let mut c = cluster();
    down(&mut c, vec!["p2"]);
    let keys = vec![(1, vec!["c.r1.z2"])];
    assert_eq!(
        least_loaded_servers(&config("true", keys.clone(), false), &c, &counts),
        names(vec!["q1", "q2", "p1", "p3"])
    );
    assert_eq!(
        least_loaded_servers(&config("true", keys.clone(), true), &c, &counts),
        Err(no_preferred())
    );
    assert_eq!(
        least_loaded_servers(&config("only-primary", keys.clone(), true), &c, &counts),
        Err(no_preferred())
    );
    for mode in ["prefer-primary", "prefer-rr", "only-rr"] {
        assert_eq!(
            least_loaded_servers(&config(mode, keys.clone(), true), &c, &counts),
            Err(no_preferred())
        );
    }
    assert_eq!(
        least_loaded_servers(&config("prefer-primary", keys, false), &c, &counts),
        names(vec!["p1", "p3"])
    );
}

#[test]
fn ruling_out_the_rest_needs_placements() {
    let counts = HostMap::new();
    let c = cluster();
    assert!(!keys_only(&config("true", vec![], true)));
    assert!(!keys_only(&config("true", vec![(1, vec!["c.r1.z1"])], false)));
    assert!(keys_only(&config("true", vec![(1, vec!["c.r1.z1"])], true)));
    assert_eq!(
        least_loaded_servers(&config("true", vec![], true), &c, &counts),
        names(vec!["q1", "q2", "p1", "p2", "p3"])
    );
}

#[test]
fn an_unknown_placement_has_no_server() {
    let counts = HostMap::new();
    let c = cluster();
    assert_eq!(
        least_loaded_servers(&config("true", vec![(1, vec!["c.r9.z9"])], true), &c, &counts),
        Err(no_preferred())
    );
    assert_eq!(
        least_loaded_servers(&config("true", vec![(1, vec![])], true), &c, &counts),
        Err(no_preferred())
    );
}

#[test]
fn placements_of_fewer_than_three_parts_are_told_apart() {
    let counts = HostMap::new();
    let c = cluster();
    assert!(topology_searchable(&config("true", vec![], false), &c, &counts));
    assert!(topology_searchable(&config("true", vec![(1, vec!["c.r1.z1"])], false), &c, &counts));
    assert!(topology_searchable(&config("true", vec![(1, vec!["a.b.c.d"])], false), &c, &counts));
    assert!(topology_searchable(&config("true", vec![(1, vec![".."])], false), &c, &counts));
    assert!(!topology_searchable(&config("true", vec![(1, vec!["c.r1"])], false), &c, &counts));
    assert!(!topology_searchable(&config("true", vec![(1, vec![""])], false), &c, &counts));
    // A preference that is missing is passed over.
    assert!(topology_searchable(&config("true", vec![(2, vec!["c.r1.z1"])], false), &c, &counts));
    assert!(!topology_searchable(&config("true", vec![(2, vec!["c.r1"])], false), &c, &counts));
    // One that the search does not come to may be anything.
    assert!(topology_searchable(
        &config("true", vec![(1, vec!["c.r1.z1"]), (2, vec!["c.r1"])], false),
        &c,
        &counts
    ));
    assert!(!topology_searchable(
        &config("true", vec![(1, vec!["c.r9.z1"]), (2, vec!["c.r1"])], false),
        &c,
        &counts
    ));
}

#[test]
fn a_server_is_taken_by_its_number() {
    let hosts = vec![tcp("a"), tcp("b")];
    assert_eq!(choose_server(&hosts, 0), tcp("a"));
    assert_eq!(choose_server(&hosts, 1), tcp("b"));
}

#[test]
fn chance_decides_among_equals_and_only_among_them() {
    let c = cluster();
    let mut counts = HostMap::new();
    counts.insert(tcp("q1"), 1);
    counts.insert(tcp("p1"), 1);
    let settings = config("true", vec![], false);
    let mut seen: Vec<Host> = vec![];
    for _ in 0..500 {
        let host = get_least_loaded_server(&settings, &c, &counts).unwrap();
        assert_ne!(host, tcp("q1"));
        assert_ne!(host, tcp("p1"));
        if !seen.contains(&host) {
            seen.push(host);
        }
    }
    assert_eq!(seen.len(), 3);
}

#[test]
fn no_server_is_an_error() {
    let c = ClusterState::new();
    let counts = HostMap::new();
    assert_eq!(
        get_least_loaded_server(&config("true", vec![], false), &c, &counts),
        Err(no_server())
    );
}

#[test]
fn connections_are_spread_evenly() {
    let c = cluster();
    let mut counts = HostMap::new();
    let settings = config("true", vec![], false);
    for _ in 0..52 {
        let host = get_least_loaded_server(&settings, &c, &counts).unwrap();
        increase_connection_count(&mut counts, host);
    }
    let mut total: i64 = 0;
    for name in ["p1", "p2", "p3", "q1", "q2"] {
        let n = connection_count(&counts, &tcp(name));
        assert!(n == 10 || n == 11);
        total += n;
    }
    assert_eq!(total, 52);
}

#[test]
fn connections_are_spread_evenly_over_a_placement() {
    let c = cluster();
    let mut counts = HostMap::new();
    let settings = config("only-primary", vec![(1, vec!["c.r1.*"])], false);
    for _ in 0..20 {
        let host = get_least_loaded_server(&settings, &c, &counts).unwrap();
        increase_connection_count(&mut counts, host);
    }
    assert_eq!(connection_count(&counts, &tcp("p1")), 10);
    assert_eq!(connection_count(&counts, &tcp("p2")), 10);
    assert_eq!(connection_count(&counts, &tcp("p3")), 0);
}
