//! The settings, where they lead, and in which order.

use std::collections::HashMap;

use yb_load_balance::attempts::{attempt_order, AttemptAction, Attempts};
use yb_load_balance::config::{
    check_hosts, Config, KeepaliveConfig, LoadBalanceHosts, Nanos, TargetSessionAttrs,
    DEFAULT_PORT,
};
use yb_load_balance::error::{Error, ErrorKind, IoErrorKind};
use yb_load_balance::host::{Host, UnixPath};
use yb_load_balance::target::{
    configured_target, configured_targets, first_address, hostname_of, make_target,
    plan_addresses, plan_configured, route, Addr, IpAddress, Route, Target,
};

const SECOND: Nanos = 1_000_000_000;

fn tcp(name: &str) -> Host {
    Host::Tcp(name.to_string())
}

fn socket() -> UnixPath {
    UnixPath { bytes: b"/tmp".to_vec(), debug: "\"/tmp\"".to_string() }
}

fn config(host: Vec<Host>, hostaddr: Vec<&str>, port: Vec<u16>) -> Config {
    Config {
        host,
        hostaddr: hostaddr.iter().map(|a| a.to_string()).collect(),
        port,
        load_balance_hosts: LoadBalanceHosts::Disable,
        load_balance: "true".to_string(),
        topology_keys: HashMap::new(),
        fallback_to_topology_keys_only: false,
        yb_servers_refresh_interval: 300 * SECOND,
        failed_host_reconnect_delay_secs: 5 * SECOND,
        connect_timeout: None,
        tcp_user_timeout: None,
        keepalives: true,
        keepalive_config: KeepaliveConfig { idle: 7200 * SECOND, interval: None, retries: None },
        target_session_attrs: TargetSessionAttrs::Any,
    }
}

fn target(host: &str, hostname: Option<&str>, port: u16) -> Target {
    Target { host: tcp(host), hostname: hostname.map(|n| n.to_string()), port }
}

fn invalid(reason: &str) -> Error {
    Error {
        kind: ErrorKind::Config,
        message: "invalid configuration".to_string(),
        causes: vec![reason.to_string()],
    }
}

#[test]
fn settings_that_can_be_used() {
    assert_eq!(check_hosts(&config(vec![tcp("a")], vec![], vec![])), Ok(1));
    assert_eq!(check_hosts(&config(vec![], vec!["1.1.1.1", "2.2.2.2"], vec![])), Ok(2));
    assert_eq!(
        check_hosts(&config(vec![tcp("a"), tcp("b")], vec!["1.1.1.1", "2.2.2.2"], vec![7])),
        Ok(2)
    );
    assert_eq!(check_hosts(&config(vec![tcp("a"), tcp("b")], vec![], vec![7, 8])), Ok(2));
}

#[test]
fn settings_that_cannot_be_used() {
    assert_eq!(
        check_hosts(&config(vec![], vec![], vec![])),
        Err(invalid("both host and hostaddr are missing"))
    );
    let many: Vec<Host> = (0..12).map(|i| tcp(&format!("h{}", i))).collect();
    assert_eq!(
        check_hosts(&config(many, vec!["1.1.1.1"], vec![])),
        Err(invalid("number of hosts (12) is different from number of hostaddrs (1)"))
    );
    assert_eq!(
        check_hosts(&config(vec![tcp("a")], vec![], vec![1, 2])),
        Err(invalid("invalid number of ports"))
    );
    assert_eq!(
        check_hosts(&config(vec![tcp("a"), tcp("b"), tcp("c")], vec![], vec![1, 2])),
        Err(invalid("invalid number of ports"))
    );
}

#[test]
fn the_configured_servers() {
    let settings = config(vec![tcp("a"), Host::Unix(socket())], vec![], vec![]);
    assert_eq!(configured_target(&settings, 0), target("a", Some("a"), DEFAULT_PORT));
    assert_eq!(
        configured_target(&settings, 1),
        Target { host: Host::Unix(socket()), hostname: None, port: 5433 }
    );
    let settings = config(vec![tcp("a"), tcp("b")], vec!["1.1.1.1", "2.2.2.2"], vec![7]);
    assert_eq!(configured_target(&settings, 0), target("1.1.1.1", Some("a"), 7));
    assert_eq!(configured_target(&settings, 1), target("2.2.2.2", Some("b"), 7));
    let settings = config(vec![], vec!["1.1.1.1", "2.2.2.2"], vec![7, 8]);
    assert_eq!(configured_target(&settings, 0), target("1.1.1.1", None, 7));
    assert_eq!(configured_target(&settings, 1), target("2.2.2.2", None, 8));
}

#[test]
fn the_configured_servers_in_a_given_order() {
    let settings = config(vec![tcp("a"), tcp("b"), tcp("c")], vec![], vec![7, 8, 9]);
    assert_eq!(
        configured_targets(&settings, &vec![2, 0]),
        vec![target("c", Some("c"), 9), target("a", Some("a"), 7)]
    );
}

#[test]
fn configured_servers_are_tried_in_order() {
    let settings = config(vec![tcp("a"), tcp("b"), tcp("c")], vec![], vec![]);
    let plan = plan_configured(&settings).unwrap();
    assert_eq!(
        plan.items,
        vec![
            target("a", Some("a"), 5433),
            target("b", Some("b"), 5433),
            target("c", Some("c"), 5433),
        ]
    );
}

#[test]
fn configured_servers_are_tried_at_random_if_asked_for() {
    let mut settings = config(vec![tcp("a"), tcp("b"), tcp("c")], vec![], vec![7, 8, 9]);
    settings.load_balance_hosts = LoadBalanceHosts::Random;
    let all = vec![
        target("a", Some("a"), 7),
        target("b", Some("b"), 8),
        target("c", Some("c"), 9),
    ];
    let mut orders: Vec<Vec<Target>> = vec![];
    for _ in 0..500 {
        let items = plan_configured(&settings).unwrap().items;
        assert_eq!(items.len(), 3);
        for t in all.iter() {
            assert!(items.contains(t));
        }
        if !orders.contains(&items) {
            orders.push(items);
        }
    }
    assert_eq!(orders.len(), 6);
}

#[test]
fn unusable_settings_are_not_planned_with() {
    assert_eq!(
        plan_configured(&config(vec![], vec![], vec![])),
        Err(invalid("both host and hostaddr are missing"))
    );
}

#[test]
fn attempts_end_with_the_last_error() {
    let mut attempts = Attempts { items: vec![1, 2] };
    assert_eq!(attempts.next(), Some(1));
    assert_eq!(attempts.failed(Error::closed()), AttemptAction::Try(2));
    assert_eq!(
        attempts.failed(Error::unexpected_message()),
        AttemptAction::GiveUp(Error::unexpected_message())
    );
    assert_eq!(attempts.next(), None);
}

#[test]
fn a_random_order_keeps_every_item() {
    let mut items = attempt_order(vec![3, 1, 2, 1], LoadBalanceHosts::Random).items;
    items.sort();
    assert_eq!(items, vec![1, 1, 2, 3]);
    assert_eq!(attempt_order(vec![3, 1, 2, 1], LoadBalanceHosts::Disable).items, vec![3, 1, 2, 1]);
}

#[test]
fn addresses_are_looked_up_for_names_only() {
    assert_eq!(route(tcp("a")), Route::Resolve("a".to_string()));
    assert_eq!(route(Host::Unix(socket())), Route::Direct(Addr::Unix(socket())));
}

#[test]
fn addresses_are_tried_in_order() {
    let settings = config(vec![tcp("a")], vec![], vec![]);
    let mut plan = plan_addresses(vec![IpAddress::V4(1), IpAddress::V6(2)], &settings);
    assert_eq!(first_address(&mut plan), AttemptAction::Try(IpAddress::V4(1)));
    assert_eq!(plan.failed(Error::closed()), AttemptAction::Try(IpAddress::V6(2)));
    assert_eq!(plan.failed(Error::closed()), AttemptAction::GiveUp(Error::closed()));
}

#[test]
fn a_name_without_an_address_is_an_error() {
    let settings = config(vec![tcp("a")], vec![], vec![]);
    let mut plan = plan_addresses(vec![], &settings);
    assert_eq!(
        first_address(&mut plan),
        AttemptAction::GiveUp(Error {
            kind: ErrorKind::Connect(IoErrorKind::InvalidInput),
            message: "error connecting to server".to_string(),
            causes: vec!["could not resolve any addresses".to_string()],
        })
    );
}

#[test]
fn servers_of_the_cluster_are_named_by_their_address() {
    assert_eq!(hostname_of(&tcp("a")), Some("a".to_string()));
    assert_eq!(hostname_of(&Host::Unix(socket())), None);
    assert_eq!(make_target(tcp("a"), 9), target("a", Some("a"), 9));
}
