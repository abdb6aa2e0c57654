//! Control connections, and checks of the list of servers.

use std::collections::HashMap;

use yb_load_balance::cluster::{add_to_failed_host_list, refresh, ClusterState, ServerRow};
use yb_load_balance::config::{
    control_connection_config, Config, KeepaliveConfig, LoadBalanceHosts, Nanos,
    TargetSessionAttrs, CONNECT_TIMEOUT, CONTROL_CONN_CLOSE_TIMEOUT, QUERY_TIMEOUT,
    SOCKET_TIMEOUT,
};
use yb_load_balance::control::{
    check_start, check_step, establish_control_connection, finish_query, servers_query,
    show_configured, CheckAction, CheckStep, Known, Round,
};
use yb_load_balance::error::{Error, ErrorKind, IoErrorKind};
use yb_load_balance::host::Host;
use yb_load_balance::host_map::HostMap;
use yb_load_balance::target::Target;

const SECOND: Nanos = 1_000_000_000;

fn tcp(name: &str) -> Host {
    Host::Tcp(name.to_string())
}

fn config() -> Config {
    Config {
        host: vec![tcp("h1"), tcp("h2")],
        hostaddr: vec![],
        port: vec![],
        load_balance_hosts: LoadBalanceHosts::Disable,
        load_balance: "true".to_string(),
        topology_keys: HashMap::new(),
        fallback_to_topology_keys_only: false,
        yb_servers_refresh_interval: 300 * SECOND,
        failed_host_reconnect_delay_secs: 5 * SECOND,
        connect_timeout: None,
        tcp_user_timeout: None,
        keepalives: true,
        keepalive_config: KeepaliveConfig { idle: 7200 * SECOND, interval: None, retries: None },
        target_session_attrs: TargetSessionAttrs::Any,
    }
}

fn row(host: &str, port: i64, node_type: &str, public_ip: &str) -> ServerRow {
    ServerRow {
        host: host.to_string(),
        port,
        node_type: node_type.to_string(),
        cloud: "c".to_string(),
        region: "r".to_string(),
        zone: "z".to_string(),
        public_ip: public_ip.to_string(),
    }
}

/// A read replica q and primary servers a and b, reached over `control_host`.
fn cluster(control_host: &str) -> ClusterState {
    let mut cluster = ClusterState::new();
    let mut counts = HostMap::new();
    let rows = vec![
        row("q", 1, "read_replica", "pq"),
        row("a", 2, "primary", "pa"),
        row("b", 3, "primary", "pb"),
    ];
    refresh(&mut cluster, &mut counts, &rows, control_host, &config(), 0);
    cluster
}

fn known(host: &str, port: u16) -> Known {
    Known { host: tcp(host), port }
}

fn all_known() -> Vec<Known> {
    vec![known("a", 2), known("b", 3), known("q", 1)]
}

fn target(host: &str, port: u16) -> Target {
    Target { host: tcp(host), hostname: Some(host.to_string()), port }
}

fn refused(reason: &str) -> Error {
    Error::connect(IoErrorKind::ConnectionRefused, reason.to_string())
}

fn ran_out_of_time<T>() -> Result<T, tokio::time::error::Elapsed> {
    let runtime = tokio::runtime::Builder::new_current_thread().enable_time().build().unwrap();
    runtime.block_on(async {
        tokio::time::timeout(std::time::Duration::from_millis(1), std::future::pending::<T>()).await
    })
}

#[test]
fn the_outcome_of_a_control_connection_passes_through() {
    assert_eq!(establish_control_connection("x", Ok(Ok(7))), Ok(7));
    assert_eq!(
        establish_control_connection::<i32>("x", Ok(Err(refused("no")))),
        Err(refused("no"))
    );
}

#[test]
fn a_control_connection_that_takes_too_long_is_an_error() {
    let outcome = ran_out_of_time::<Result<i32, Error>>();
    assert!(outcome.is_err());
    assert_eq!(
        establish_control_connection("Tcp(\"h\")", outcome),
        Err(Error {
            kind: ErrorKind::Connect(IoErrorKind::TimedOut),
            message: "error connecting to server".to_string(),
            causes: vec![
                "control connection to Tcp(\"h\") was not established within 15s".to_string()
            ],
        })
    );
}

#[test]
fn a_query_that_takes_too_long_is_an_error() {
    assert_eq!(finish_query(Ok(Ok(7))), Ok(7));
    assert_eq!(finish_query::<i32>(Ok(Err(Error::closed()))), Err(Error::closed()));
    assert_eq!(
        finish_query(ran_out_of_time::<Result<i32, Error>>()),
        Err(Error {
            kind: ErrorKind::Connect(IoErrorKind::TimedOut),
            message: "error connecting to server".to_string(),
            causes: vec!["`select * from yb_servers()` did not complete within 10s".to_string()],
        })
    );
}

#[test]
fn the_query_for_the_list_of_servers() {
    assert_eq!(servers_query(), "select * from yb_servers()");
}

#[test]
fn a_check_that_fails_marks_every_server_that_it_tried() {
    let mut c = cluster("a");
    let mut fetched: Nanos = 0;
    // q is down, and stays marked as it is.
    add_to_failed_host_list(&mut c, tcp("q"), 99 * SECOND);
    let (mut step, mut action) = check_start(&config(), &c, 0, 400 * SECOND);
    assert_eq!(action, CheckAction::ConnectConfigured);
    let mut attempts = 0;
    let mut now: Nanos = 100 * SECOND;
    loop {
        now += 1;
        let outcome = match action {
            CheckAction::ConnectConfigured => Ok(()),
            CheckAction::Refresh => Err(refused("no list")),
            CheckAction::Connect(_) => {
                attempts += 1;
                Err(refused("no connection"))
            }
            CheckAction::Finish(result) => {
                assert!(result.is_err());
                break;
            }
        };
        (step, action) = check_step(&config(), &mut c, &mut fetched, step, outcome, now);
    }
    assert_eq!(step, CheckStep::Done);
    assert_eq!(attempts, 2);
    assert_eq!(c.failed().get(&tcp("a")), Some(&(100 * SECOND + 3)));
    assert_eq!(c.failed().get(&tcp("b")), Some(&(100 * SECOND + 4)));
    assert_eq!(c.failed().get(&tcp("q")), Some(&(99 * SECOND)));
    assert_eq!(*c.primary(), vec![tcp("a"), tcp("b")]);
    assert_eq!(*c.read_replicas(), vec![tcp("q")]);
    assert_eq!(fetched, 0);
}

#[test]
fn bounds_on_a_control_connection() {
    assert_eq!(CONNECT_TIMEOUT, 10 * SECOND);
    assert_eq!(SOCKET_TIMEOUT, 15 * SECOND);
    assert_eq!(QUERY_TIMEOUT, 10 * SECOND);
    assert_eq!(CONTROL_CONN_CLOSE_TIMEOUT, 2 * SECOND);
}

#[test]
fn a_control_connection_connects_within_its_bound() {
    let mut settings = config();
    assert_eq!(control_connection_config(&settings).connect_timeout, Some(10 * SECOND));
    settings.connect_timeout = Some(3 * SECOND);
    assert_eq!(control_connection_config(&settings).connect_timeout, Some(3 * SECOND));
    settings.connect_timeout = Some(30 * SECOND);
    let control = control_connection_config(&settings);
    assert_eq!(control.connect_timeout, Some(10 * SECOND));
    assert_eq!(control.host, settings.host);
    assert_eq!(control.load_balance, settings.load_balance);
    assert_eq!(settings.connect_timeout, Some(30 * SECOND));
}

#[test]
fn configured_servers_are_named_in_messages() {
    assert_eq!(show_configured(&config()), "configured host(s) [Tcp(\"h1\"), Tcp(\"h2\")]");
}

#[test]
fn a_recent_list_is_used_again() {
    let c = cluster("a");
    assert_eq!(
        check_start(&config(), &c, 10, 10 + 300 * SECOND),
        (CheckStep::Done, CheckAction::Finish(Ok(())))
    );
    assert_eq!(
        check_start(&config(), &c, 10, 11 + 300 * SECOND),
        (CheckStep::Configured(all_known()), CheckAction::ConnectConfigured)
    );
}

#[test]
fn an_interval_of_zero_fetches_every_time() {
    let c = cluster("a");
    let mut settings = config();
    settings.yb_servers_refresh_interval = 0;
    assert_eq!(
        check_start(&settings, &c, 10, 11),
        (CheckStep::Configured(all_known()), CheckAction::ConnectConfigured)
    );
    assert_eq!(
        check_start(&settings, &c, 10, 10),
        (CheckStep::Configured(all_known()), CheckAction::ConnectConfigured)
    );
    settings.yb_servers_refresh_interval = 1;
    assert_eq!(
        check_start(&settings, &c, 10, 10),
        (CheckStep::Done, CheckAction::Finish(Ok(())))
    );
}

#[test]
fn an_empty_list_is_fetched() {
    let c = ClusterState::new();
    assert_eq!(
        check_start(&config(), &c, 10, 10),
        (CheckStep::Configured(vec![]), CheckAction::ConnectConfigured)
    );
}

#[test]
fn a_list_over_a_configured_server_ends_a_check() {
    let mut c = cluster("a");
    let mut fetched: Nanos = 0;
    let (step, action) = check_step(
        &config(),
        &mut c,
        &mut fetched,
        CheckStep::Configured(all_known()),
        Ok(()),
        5,
    );
    assert_eq!(action, CheckAction::Refresh);
    assert_eq!(step, CheckStep::ConfiguredRefresh(all_known()));
    assert_eq!(fetched, 0);
    let (step, action) = check_step(&config(), &mut c, &mut fetched, step, Ok(()), 6);
    assert_eq!(action, CheckAction::Finish(Ok(())));
    assert_eq!(step, CheckStep::Done);
    assert_eq!(fetched, 6);
}

#[test]
fn known_servers_are_tried_in_turn() {
    let mut c = cluster("a");
    let mut fetched: Nanos = 0;
    // No configured server can be connected to.
    let (step, action) = check_step(
        &config(),
        &mut c,
        &mut fetched,
        CheckStep::Configured(all_known()),
        Err(refused("first")),
        5,
    );
    assert_eq!(action, CheckAction::Connect(target("a", 2)));
    assert_eq!(
        step,
        CheckStep::Discovered(Round {
            current: tcp("a"),
            left: vec![known("b", 3), known("q", 1)],
            config_err: refused("first"),
            discovered_err: None,
        })
    );
    // Nor can a.
    let (step, action) =
        check_step(&config(), &mut c, &mut fetched, step, Err(refused("second")), 6);
    assert_eq!(action, CheckAction::Connect(target("b", 3)));
    assert_eq!(c.failed().get(&tcp("a")), Some(&6));
    // b can be connected to, but has no list.
    let (step, action) = check_step(&config(), &mut c, &mut fetched, step, Ok(()), 7);
    assert_eq!(action, CheckAction::Refresh);
    assert!(matches!(step, CheckStep::DiscoveredRefresh(_)));
    let (step, action) =
        check_step(&config(), &mut c, &mut fetched, step, Err(refused("third")), 8);
    assert_eq!(action, CheckAction::Connect(target("q", 1)));
    assert_eq!(c.failed().get(&tcp("b")), Some(&8));
    // q has it.
    let (step, action) = check_step(&config(), &mut c, &mut fetched, step, Ok(()), 9);
    assert_eq!(action, CheckAction::Refresh);
    let (step, action) = check_step(&config(), &mut c, &mut fetched, step, Ok(()), 10);
    assert_eq!((step, action), (CheckStep::Done, CheckAction::Finish(Ok(()))));
    assert_eq!(fetched, 10);
    assert!(!c.failed().contains_key(&tcp("q")));
}

#[test]
fn a_check_fails_with_what_went_wrong() {
    let mut c = cluster("a");
    let mut fetched: Nanos = 3;
    let step = CheckStep::Discovered(Round {
        current: tcp("q"),
        left: vec![],
        config_err: refused("first"),
        discovered_err: Some(refused("before")),
    });
    let (step, action) = check_step(&config(), &mut c, &mut fetched, step, Err(refused("last")), 8);
    assert_eq!(step, CheckStep::Done);
    assert_eq!(
        action,
        CheckAction::Finish(Err(refused(
            "could not create control connection: configured host(s) [Tcp(\"h1\"), Tcp(\"h2\")]: \
             error connecting to server: first; last discovered server: error connecting to \
             server: last"
        )))
    );
    assert_eq!(fetched, 3);
    assert_eq!(c.failed().get(&tcp("q")), Some(&8));
}

#[test]
fn without_known_servers_a_check_fails_with_the_first_error() {
    let mut c = ClusterState::new();
    let mut fetched: Nanos = 3;
    for step in [CheckStep::Configured(vec![]), CheckStep::ConfiguredRefresh(vec![])] {
        assert_eq!(
            check_step(&config(), &mut c, &mut fetched, step, Err(refused("first")), 8),
            (CheckStep::Done, CheckAction::Finish(Err(refused("first"))))
        );
    }
    assert_eq!(fetched, 3);
}

#[test]
fn servers_that_are_down_are_not_tried() {
    let mut c = cluster("a");
    let mut fetched: Nanos = 0;
    add_to_failed_host_list(&mut c, tcp("a"), 10 * SECOND);
    add_to_failed_host_list(&mut c, tcp("b"), 9 * SECOND);
    let (_, action) = check_step(
        &config(),
        &mut c,
        &mut fetched,
        CheckStep::ConfiguredRefresh(all_known()),
        Err(refused("first")),
        15 * SECOND,
    );
    // b has been down for longer than the delay, a has not.
    assert_eq!(action, CheckAction::Connect(target("b", 3)));
}

#[test]
fn public_addresses_are_used_for_control_connections_too() {
    let mut c = cluster("pq");
    assert!(c.use_public_ip());
    let mut fetched: Nanos = 0;
    // While it is down, a server loses its public address.
    let mut counts = HostMap::new();
    add_to_failed_host_list(&mut c, tcp("a"), 0);
    refresh(&mut c, &mut counts, &vec![row("a", 2, "primary", "pa")], "", &config(), 1);
    let later = 100 * SECOND;
    let (step, action) = check_step(
        &config(),
        &mut c,
        &mut fetched,
        CheckStep::Configured(all_known()),
        Err(refused("first")),
        later,
    );
    assert_eq!(action, CheckAction::Connect(target("pb", 3)));
    assert_eq!(c.failed().get(&tcp("a")), Some(&later));
    // The server is marked, not its public address.
    let (_, action) =
        check_step(&config(), &mut c, &mut fetched, step, Err(refused("second")), later + 1);
    assert_eq!(action, CheckAction::Connect(target("pq", 1)));
    assert_eq!(c.failed().get(&tcp("b")), Some(&(later + 1)));
    assert!(!c.failed().contains_key(&tcp("pb")));
}

#[test]
fn a_check_that_is_done_stays_done() {
    let mut c = cluster("a");
    let mut fetched: Nanos = 4;
    assert_eq!(
        check_step(&config(), &mut c, &mut fetched, CheckStep::Done, Ok(()), 8),
        (CheckStep::Done, CheckAction::Finish(Ok(())))
    );
    assert_eq!(
        check_step(&config(), &mut c, &mut fetched, CheckStep::Done, Err(refused("x")), 8),
        (CheckStep::Done, CheckAction::Finish(Err(refused("x"))))
    );
    assert_eq!(fetched, 4);
}
