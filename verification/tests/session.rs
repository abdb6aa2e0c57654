//! One connection to one address, step by step.

use std::collections::HashMap;

use yb_load_balance::config::{
    Config, KeepaliveConfig, LoadBalanceHosts, Nanos, TargetSessionAttrs,
};
use yb_load_balance::error::{Error, ErrorKind, IoErrorKind};
use yb_load_balance::host::{Host, UnixPath};
use yb_load_balance::session::{
    connect_once_start, connect_once_step, control_host, read_only_query, socket_config,
    OnceAction, OnceEvent, OnceStep, SimpleQueryMessage, SocketConfig, SocketOptions,
};
use yb_load_balance::target::{Addr, IpAddress};

const SECOND: Nanos = 1_000_000_000;

const KEEPALIVE: KeepaliveConfig =
    KeepaliveConfig { idle: 60 * SECOND, interval: Some(SECOND), retries: Some(3) };

fn config(target_session_attrs: TargetSessionAttrs, keepalives: bool) -> Config {
    Config {
        host: vec![Host::Tcp("h".to_string())],
        hostaddr: vec![],
        port: vec![],
        load_balance_hosts: LoadBalanceHosts::Disable,
        load_balance: "true".to_string(),
        topology_keys: HashMap::new(),
        fallback_to_topology_keys_only: false,
        yb_servers_refresh_interval: 300 * SECOND,
        failed_host_reconnect_delay_secs: 5 * SECOND,
        connect_timeout: Some(4 * SECOND),
        tcp_user_timeout: Some(6 * SECOND),
        keepalives,
        keepalive_config: KEEPALIVE,
        target_session_attrs,
    }
}

fn row(value: Option<&str>) -> OnceEvent {
    OnceEvent::Message(Some(SimpleQueryMessage::Row(value.map(|v| v.to_string()))))
}

#[test]
fn a_connection_begins_with_the_socket() {
    let (step, action) = connect_once_start(&config(TargetSessionAttrs::Any, true));
    assert_eq!(step, OnceStep::Socket);
    assert_eq!(
        action,
        OnceAction::OpenSocket(SocketOptions {
            connect_timeout: Some(4 * SECOND),
            tcp_user_timeout: Some(6 * SECOND),
            keepalive: Some(KEEPALIVE),
        })
    );
    let (_, action) = connect_once_start(&config(TargetSessionAttrs::Any, false));
    assert_eq!(
        action,
        OnceAction::OpenSocket(SocketOptions {
            connect_timeout: Some(4 * SECOND),
            tcp_user_timeout: Some(6 * SECOND),
            keepalive: None,
        })
    );
}

#[test]
fn any_session_is_handed_over_after_the_handshake() {
    let settings = config(TargetSessionAttrs::Any, true);
    let name = Some("h".to_string());
    assert_eq!(
        connect_once_step(&settings, &name, OnceStep::Socket, OnceEvent::Succeeded),
        (OnceStep::Tls, OnceAction::MakeTls("h".to_string()))
    );
    assert_eq!(
        connect_once_step(&settings, &name, OnceStep::Tls, OnceEvent::Succeeded),
        (OnceStep::Handshake, OnceAction::Handshake(true))
    );
    assert_eq!(
        connect_once_step(&settings, &name, OnceStep::Handshake, OnceEvent::Succeeded),
        (OnceStep::Done, OnceAction::Finish)
    );
}

#[test]
fn a_server_without_a_name() {
    let settings = config(TargetSessionAttrs::Any, true);
    assert_eq!(
        connect_once_step(&settings, &None, OnceStep::Socket, OnceEvent::Succeeded),
        (OnceStep::Tls, OnceAction::MakeTls(String::new()))
    );
    assert_eq!(
        connect_once_step(&settings, &None, OnceStep::Tls, OnceEvent::Succeeded),
        (OnceStep::Handshake, OnceAction::Handshake(false))
    );
}

#[test]
fn a_session_that_must_allow_writes_is_asked() {
    let settings = config(TargetSessionAttrs::ReadWrite, true);
    let name = Some("h".to_string());
    assert_eq!(
        connect_once_step(&settings, &name, OnceStep::Handshake, OnceEvent::Succeeded),
        (OnceStep::Query, OnceAction::Query)
    );
    assert_eq!(
        connect_once_step(&settings, &name, OnceStep::Query, OnceEvent::Succeeded),
        (OnceStep::Answer, OnceAction::ReadMessage)
    );
    assert_eq!(
        connect_once_step(
            &settings,
            &name,
            OnceStep::Answer,
            OnceEvent::Message(Some(SimpleQueryMessage::Other))
        ),
        (OnceStep::Answer, OnceAction::ReadMessage)
    );
    for value in [Some("off"), None, Some("ON"), Some("")] {
        assert_eq!(
            connect_once_step(&settings, &name, OnceStep::Answer, row(value)),
            (OnceStep::Done, OnceAction::Finish)
        );
    }
}

#[test]
fn the_query_whether_a_session_is_read_only() {
    assert_eq!(read_only_query(), "SHOW transaction_read_only");
}

#[test]
fn a_read_only_session_is_refused() {
    let settings = config(TargetSessionAttrs::ReadWrite, true);
    assert_eq!(
        connect_once_step(&settings, &None, OnceStep::Answer, row(Some("on"))),
        (
            OnceStep::Done,
            OnceAction::Fail(Error {
                kind: ErrorKind::Connect(IoErrorKind::PermissionDenied),
                message: "error connecting to server".to_string(),
                causes: vec!["database does not allow writes".to_string()],
            })
        )
    );
}

#[test]
fn an_answer_without_a_row_is_unexpected() {
    let settings = config(TargetSessionAttrs::ReadWrite, true);
    assert_eq!(
        connect_once_step(&settings, &None, OnceStep::Answer, OnceEvent::Message(None)),
        (
            OnceStep::Done,
            OnceAction::Fail(Error {
                kind: ErrorKind::UnexpectedMessage,
                message: "unexpected message from server".to_string(),
                causes: vec![],
            })
        )
    );
}

#[test]
fn any_failure_ends_a_connection() {
    let settings = config(TargetSessionAttrs::ReadWrite, true);
    for step in [
        OnceStep::Socket,
        OnceStep::Tls,
        OnceStep::Handshake,
        OnceStep::Query,
        OnceStep::Answer,
    ] {
        assert_eq!(
            connect_once_step(&settings, &None, step, OnceEvent::Failed(Error::closed())),
            (OnceStep::Done, OnceAction::Fail(Error::closed()))
        );
    }
    assert_eq!(
        connect_once_step(&settings, &None, OnceStep::Done, OnceEvent::Succeeded),
        (OnceStep::Done, OnceAction::Finish)
    );
}

#[test]
fn how_a_connection_was_made() {
    let settings = config(TargetSessionAttrs::Any, false);
    let addr = Addr::Tcp(IpAddress::V4(0x7f00_0001));
    let made = socket_config(addr, Some("h".to_string()), 5433, &settings);
    assert_eq!(
        made,
        SocketConfig {
            addr: Addr::Tcp(IpAddress::V4(0x7f00_0001)),
            hostname: Some("h".to_string()),
            port: 5433,
            connect_timeout: Some(4 * SECOND),
            tcp_user_timeout: Some(6 * SECOND),
            keepalive: None,
        }
    );
    let path = UnixPath { bytes: b"/tmp".to_vec(), debug: "\"/tmp\"".to_string() };
    let made = socket_config(Addr::Unix(path), None, 1, &config(TargetSessionAttrs::Any, true));
    assert_eq!(made.hostname, None);
    assert_eq!(made.keepalive, Some(KEEPALIVE));
}

#[test]
fn the_name_of_a_control_connection() {
    let settings = config(TargetSessionAttrs::Any, false);
    let addr = Addr::Tcp(IpAddress::V6(1));
    let made = socket_config(addr, Some("h".to_string()), 5433, &settings);
    assert_eq!(control_host(Some(made)), "h");
    assert_eq!(control_host(None), "");
}
