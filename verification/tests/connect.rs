//! Load-balanced connections, step by step.

use std::collections::HashMap;

use yb_load_balance::cluster::{add_to_failed_host_list, refresh, ClusterState, ServerRow};
use yb_load_balance::config::{
    Config, KeepaliveConfig, LoadBalanceHosts, Nanos, TargetSessionAttrs,
};
use yb_load_balance::connect::{
    yb_connect_select, yb_connect_start, yb_connect_step, YbAction, YbStep,
};
use yb_load_balance::balance::get_least_loaded_server;
use yb_load_balance::counts::connection_count;
use yb_load_balance::error::{Error, ErrorKind, IoErrorKind};
use yb_load_balance::host::Host;
use yb_load_balance::host_map::HostMap;
use yb_load_balance::target::Target;

const SECOND: Nanos = 1_000_000_000;

fn tcp(name: &str) -> Host {
    Host::Tcp(name.to_string())
}

fn config(load_balance: &str) -> Config {
    Config {
        host: vec![tcp("127.0.0.1")],
        hostaddr: vec![],
        port: vec![],
        load_balance_hosts: LoadBalanceHosts::Disable,
        load_balance: load_balance.to_string(),
        topology_keys: HashMap::new(),
        fallback_to_topology_keys_only: false,
        yb_servers_refresh_interval: 300 * SECOND,
        failed_host_reconnect_delay_secs: 5 * SECOND,
        connect_timeout: None,
        tcp_user_timeout: None,
        keepalives: true,
        keepalive_config: KeepaliveConfig { idle: 7200 * SECOND, interval: None, retries: None },
        target_session_attrs: TargetSessionAttrs::Any,
    }
}

fn row(host: &str, port: i64, public_ip: &str) -> ServerRow {
    ServerRow {
        host: host.to_string(),
        port,
        node_type: "primary".to_string(),
        cloud: "c".to_string(),
        region: "r".to_string(),
        zone: "z".to_string(),
        public_ip: public_ip.to_string(),
    }
}

/// Servers a (public address pa) and b (pb), reached over `control_host`.
fn cluster(control_host: &str) -> ClusterState {
    let mut cluster = ClusterState::new();
    let mut counts = HostMap::new();
    let rows = vec![row("a", 5433, "pa"), row("b", 5434, "pb")];
    refresh(&mut cluster, &mut counts, &rows, control_host, &config("true"), 0);
    cluster
}

fn target(host: &str, port: u16) -> Target {
    Target { host: tcp(host), hostname: Some(host.to_string()), port }
}

fn refused() -> Error {
    Error::connect(IoErrorKind::ConnectionRefused, "refused".to_string())
}

fn no_server() -> Error {
    Error::connect(
        IoErrorKind::ConnectionRefused,
        "could not find a server to connect to".to_string(),
    )
}

#[test]
fn a_connection_begins_with_the_list_of_servers() {
    assert_eq!(yb_connect_start(&config("true")), (YbStep::Refreshing, YbAction::Refresh));
}

#[test]
fn unusable_settings_end_a_connection_at_once() {
    let mut settings = config("true");
    settings.host = vec![];
    assert_eq!(
        yb_connect_start(&settings),
        (
            YbStep::Done,
            YbAction::Fail(Error {
                kind: ErrorKind::Config,
                message: "invalid configuration".to_string(),
                causes: vec!["both host and hostaddr are missing".to_string()],
            })
        )
    );
}

#[test]
fn without_a_list_the_configured_servers_serve() {
    let mut c = ClusterState::new();
    let mut counts = HostMap::new();
    assert_eq!(
        yb_connect_step(
            &config("true"),
            &mut c,
            &mut counts,
            YbStep::Refreshing,
            Err(refused()),
            1
        ),
        (YbStep::Done, YbAction::ConnectConfigured)
    );
    assert_eq!(
        yb_connect_step(&config("true"), &mut c, &mut counts, YbStep::Refreshing, Ok(()), 1),
        (YbStep::Selecting, YbAction::Select)
    );
}

#[test]
fn a_connection_is_counted_for_its_server() {
    let mut c = cluster("a");
    let mut counts = HostMap::new();
    let (step, action) =
        yb_connect_select(&config("true"), &mut c, &mut counts, Ok(tcp("b")), 1);
    assert_eq!(action, YbAction::Connect(target("b", 5434)));
    assert_eq!(step, YbStep::Connecting(tcp("b")));
    assert_eq!(connection_count(&counts, &tcp("b")), 1);
    assert_eq!(
        yb_connect_step(&config("true"), &mut c, &mut counts, step, Ok(()), 2),
        (YbStep::Done, YbAction::Finish)
    );
    assert_eq!(connection_count(&counts, &tcp("b")), 1);
    assert_eq!(connection_count(&counts, &tcp("a")), 0);
    assert!(!c.failed().contains_key(&tcp("b")));
}

#[test]
fn a_failed_attempt_is_not_counted_and_marks_the_server() {
    let mut c = cluster("a");
    let mut counts = HostMap::new();
    counts.insert(tcp("b"), 3);
    let (step, _) = yb_connect_select(&config("true"), &mut c, &mut counts, Ok(tcp("b")), 1);
    assert_eq!(connection_count(&counts, &tcp("b")), 4);
    assert_eq!(
        yb_connect_step(&config("true"), &mut c, &mut counts, step, Err(refused()), 7),
        (YbStep::Selecting, YbAction::Select)
    );
    assert_eq!(connection_count(&counts, &tcp("b")), 3);
    assert_eq!(c.failed().get(&tcp("b")), Some(&7));
    assert!(!c.failed().contains_key(&tcp("a")));
}

#[test]
fn every_server_is_tried_and_then_the_configured_ones() {
    let mut c = cluster("a");
    let mut counts = HostMap::new();
    let settings = config("true");
    let mut tried: Vec<Host> = vec![];
    loop {
        let chosen = get_least_loaded_server(&settings, &c, &counts);
        let (step, action) = yb_connect_select(&settings, &mut c, &mut counts, chosen, 1);
        match action {
            YbAction::Connect(target) => {
                assert!(!tried.contains(&target.host));
                tried.push(target.host);
                let next = yb_connect_step(&config("true"), &mut c, &mut counts, step, Err(refused()), 1);
                assert_eq!(next, (YbStep::Selecting, YbAction::Select));
            }
            other => {
                assert_eq!(other, YbAction::ConnectConfigured);
                assert_eq!(step, YbStep::Done);
                break;
            }
        }
    }
    assert_eq!(tried.len(), 2);
    assert_eq!(connection_count(&counts, &tcp("a")), 0);
    assert_eq!(connection_count(&counts, &tcp("b")), 0);
}

#[test]
fn a_public_address_is_connected_to_where_public_ones_are_used() {
    let mut c = cluster("PA");
    assert!(c.use_public_ip());
    let mut counts = HostMap::new();
    let (step, action) =
        yb_connect_select(&config("true"), &mut c, &mut counts, Ok(tcp("b")), 1);
    assert_eq!(action, YbAction::Connect(target("pb", 5434)));
    assert_eq!(connection_count(&counts, &tcp("b")), 1);
    assert_eq!(connection_count(&counts, &tcp("pb")), 0);
    // What is marked, and what is no longer counted, is the server.
    assert_eq!(step, YbStep::Connecting(tcp("b")));
    let next = yb_connect_step(&config("true"), &mut c, &mut counts, step, Err(refused()), 9);
    assert_eq!(next, (YbStep::Selecting, YbAction::Select));
    assert_eq!(c.failed().get(&tcp("b")), Some(&9));
    assert!(!c.failed().contains_key(&tcp("pb")));
    assert_eq!(connection_count(&counts, &tcp("b")), 0);
}

#[test]
fn a_public_address_that_cannot_be_connected_to_is_tried_once() {
    let mut c = cluster("pa");
    let mut counts = HostMap::new();
    let settings = config("true");
    let mut tried: Vec<Host> = vec![];
    loop {
        let chosen = get_least_loaded_server(&settings, &c, &counts);
        let (step, action) = yb_connect_select(&settings, &mut c, &mut counts, chosen, 1);
        match action {
            YbAction::Connect(target) => {
                assert!(!tried.contains(&target.host));
                tried.push(target.host);
                yb_connect_step(&settings, &mut c, &mut counts, step, Err(refused()), 1);
            }
            other => {
                assert_eq!(other, YbAction::ConnectConfigured);
                break;
            }
        }
    }
    assert_eq!(tried.len(), 2);
    assert!(tried.contains(&tcp("pa")) && tried.contains(&tcp("pb")));
    // Once the delay has passed, the list of servers brings them back.
    let rows = vec![row("a", 5433, "pa"), row("b", 5434, "pb")];
    refresh(&mut c, &mut counts, &rows, "a", &settings, 6 * SECOND);
    assert!(!c.failed().contains_key(&tcp("a")));
    assert!(!c.failed().contains_key(&tcp("b")));
}

#[test]
fn a_connection_after_a_failed_attempt() {
    let mut c = cluster("a");
    let mut counts = HostMap::new();
    counts.insert(tcp("a"), 4);
    counts.insert(tcp("b"), 5);
    let settings = config("true");
    let chosen = get_least_loaded_server(&settings, &c, &counts);
    assert_eq!(chosen, Ok(tcp("a")));
    let (step, _) = yb_connect_select(&settings, &mut c, &mut counts, chosen, 1);
    yb_connect_step(&settings, &mut c, &mut counts, step, Err(refused()), 2);
    let chosen = get_least_loaded_server(&settings, &c, &counts);
    assert_eq!(chosen, Ok(tcp("b")));
    let (step, _) = yb_connect_select(&settings, &mut c, &mut counts, chosen, 3);
    let done = yb_connect_step(&settings, &mut c, &mut counts, step, Ok(()), 4);
    assert_eq!(done, (YbStep::Done, YbAction::Finish));
    assert_eq!(connection_count(&counts, &tcp("a")), 4);
    assert_eq!(connection_count(&counts, &tcp("b")), 6);
    assert_eq!(c.failed().get(&tcp("a")), Some(&2));
    assert!(!c.failed().contains_key(&tcp("b")));
}

#[test]
fn without_a_list_ruling_out_the_rest_is_still_honoured() {
    let mut c = ClusterState::new();
    let mut counts = HostMap::new();
    let mut settings = config("true");
    settings.fallback_to_topology_keys_only = true;
    assert_eq!(
        yb_connect_step(
            &settings,
            &mut c,
            &mut counts,
            YbStep::Refreshing,
            Err(refused()),
            1
        ),
        (YbStep::Done, YbAction::ConnectConfigured)
    );
    settings.topology_keys.insert(1, vec!["c.r.z".to_string()]);
    assert_eq!(
        yb_connect_step(
            &settings,
            &mut c,
            &mut counts,
            YbStep::Refreshing,
            Err(refused()),
            1
        ),
        (YbStep::Done, YbAction::Fail(refused()))
    );
}

#[test]
fn a_server_without_a_public_address_is_passed_over() {
    let mut c = cluster("pa");
    let mut counts = HostMap::new();
    // While it is down, a server loses its public address.
    add_to_failed_host_list(&mut c, tcp("b"), 0);
    let rows = vec![row("b", 5434, "pb")];
    refresh(&mut c, &mut counts, &rows, "a", &config("true"), 1);
    assert_eq!(c.public_host(&tcp("b")), None);
    assert_eq!(
        yb_connect_select(&config("true"), &mut c, &mut counts, Ok(tcp("b")), 5),
        (YbStep::Selecting, YbAction::Select)
    );
    assert_eq!(connection_count(&counts, &tcp("b")), 0);
    assert_eq!(c.failed().get(&tcp("b")), Some(&5));
}

#[test]
fn a_restricted_caller_gets_the_reason() {
    let mut c = cluster("a");
    let mut counts = HostMap::new();
    for mode in ["only-rr", "only-primary"] {
        assert_eq!(
            yb_connect_select(&config(mode), &mut c, &mut counts, Err(no_server()), 1),
            (YbStep::Done, YbAction::Fail(no_server()))
        );
    }
    let mut settings = config("prefer-rr");
    settings.topology_keys.insert(1, vec!["c.r.z".to_string()]);
    assert_eq!(
        yb_connect_select(&settings, &mut c, &mut counts, Err(no_server()), 1),
        (YbStep::Done, YbAction::ConnectConfigured)
    );
    settings.fallback_to_topology_keys_only = true;
    assert_eq!(
        yb_connect_select(&settings, &mut c, &mut counts, Err(no_server()), 1),
        (YbStep::Done, YbAction::Fail(no_server()))
    );
}

#[test]
fn any_other_caller_gets_the_configured_servers() {
    let mut c = cluster("a");
    let mut counts = HostMap::new();
    for mode in ["true", "prefer-rr", "prefer-primary", ""] {
        assert_eq!(
            yb_connect_select(&config(mode), &mut c, &mut counts, Err(no_server()), 1),
            (YbStep::Done, YbAction::ConnectConfigured)
        );
    }
}

#[test]
fn a_connection_that_is_done_stays_done() {
    let mut c = cluster("a");
    let mut counts = HostMap::new();
    assert_eq!(
        yb_connect_step(&config("true"), &mut c, &mut counts, YbStep::Done, Err(refused()), 1),
        (YbStep::Done, YbAction::Finish)
    );
    assert_eq!(
        yb_connect_step(&config("true"), &mut c, &mut counts, YbStep::Selecting, Err(refused()), 1),
        (YbStep::Selecting, YbAction::Select)
    );
}
