//! The settings that decide where connections go.

use std::collections::HashMap;

use vstd::prelude::*;
use vstd::string::*;

use crate::error::{config_error, Error, ErrorView};
use crate::host::{clone_hosts, views, Host, HostView};
use crate::text::{clone_texts, decimal, show_number, texts};

verus! {

/// A length of time, in nanoseconds.
pub type Nanos = u128;

/// The bound on the TCP connect of a control connection. Nothing after the TCP
/// connect is covered by it.
pub const CONNECT_TIMEOUT: Nanos = 10_000_000_000;

/// The bound on establishing a control connection as a whole: connect, TLS and
/// authentication.
pub const SOCKET_TIMEOUT: Nanos = 15_000_000_000;

/// The bound on the `yb_servers()` query once a control connection exists.
pub const QUERY_TIMEOUT: Nanos = 10_000_000_000;

/// The bound on closing a control connection, which is a courtesy.
pub const CONTROL_CONN_CLOSE_TIMEOUT: Nanos = 2_000_000_000;

/// The port that is used where none is configured.
pub const DEFAULT_PORT: u16 = 5433;

/// In which order the addresses of a server, and the configured hosts, are tried.
#[derive(Debug, Clone, Copy, PartialEq, Eq, Structural)]
pub enum LoadBalanceHosts {
    Disable,
    Random,
}

/// What a session must allow.
#[derive(Debug, Clone, Copy, PartialEq, Eq, Structural)]
pub enum TargetSessionAttrs {
    Any,
    ReadWrite,
}

/// TCP keepalive.
#[derive(Debug, Clone, Copy, PartialEq, Eq)]
pub struct KeepaliveConfig {
    pub idle: Nanos,
    pub interval: Option<Nanos>,
    pub retries: Option<u32>,
}

/// The settings of a connection.
///
/// `hostaddr` holds IP addresses in their textual form. `load_balance` is one of
/// `only-rr`, `only-primary`, `prefer-rr` and `prefer-primary`; any other text
/// means all servers alike. `topology_keys` gives, for each preference from one
/// upwards, the placements (`cloud.region.zone`) that have it.
pub struct Config {
    pub host: Vec<Host>,
    pub hostaddr: Vec<String>,
    pub port: Vec<u16>,
    pub load_balance_hosts: LoadBalanceHosts,
    pub load_balance: String,
    pub topology_keys: HashMap<i64, Vec<String>>,
    pub fallback_to_topology_keys_only: bool,
    pub yb_servers_refresh_interval: Nanos,
    pub failed_host_reconnect_delay_secs: Nanos,
    pub connect_timeout: Option<Nanos>,
    pub tcp_user_timeout: Option<Nanos>,
    pub keepalives: bool,
    pub keepalive_config: KeepaliveConfig,
    pub target_session_attrs: TargetSessionAttrs,
}

/// What a [`Config`] stands for.
#[verifier::ext_equal]
pub struct ConfigView {
    pub host: Seq<HostView>,
    pub hostaddr: Seq<Seq<char>>,
    pub port: Seq<u16>,
    pub load_balance_hosts: LoadBalanceHosts,
    pub load_balance: Seq<char>,
    pub topology_keys: Map<i64, Seq<Seq<char>>>,
    pub fallback_to_topology_keys_only: bool,
    pub yb_servers_refresh_interval: Nanos,
    pub failed_host_reconnect_delay_secs: Nanos,
    pub connect_timeout: Option<Nanos>,
    pub tcp_user_timeout: Option<Nanos>,
    pub keepalives: bool,
    pub keepalive_config: KeepaliveConfig,
    pub target_session_attrs: TargetSessionAttrs,
}

impl View for Config {
    type V = ConfigView;

    open spec fn view(&self) -> ConfigView {
        ConfigView {
            host: views(self.host@),
            hostaddr: texts(self.hostaddr@),
            port: self.port@,
            load_balance_hosts: self.load_balance_hosts,
            load_balance: self.load_balance@,
            topology_keys: self.topology_keys@.map_values(|v: Vec<String>| texts(v@)),
            fallback_to_topology_keys_only: self.fallback_to_topology_keys_only,
            yb_servers_refresh_interval: self.yb_servers_refresh_interval,
            failed_host_reconnect_delay_secs: self.failed_host_reconnect_delay_secs,
            connect_timeout: self.connect_timeout,
            tcp_user_timeout: self.tcp_user_timeout,
            keepalives: self.keepalives,
            keepalive_config: self.keepalive_config,
            target_session_attrs: self.target_session_attrs,
        }
    }
}

impl Clone for Config {
    fn clone(&self) -> (r: Self)
        ensures
            r@ == self@,
    {
        let port: Vec<u16> = self.port.clone();
        assert(port@ =~= self.port@);
        Config {
            host: clone_hosts(&self.host),
            hostaddr: clone_texts(&self.hostaddr),
            port,
            load_balance_hosts: self.load_balance_hosts,
            load_balance: self.load_balance.clone(),
            topology_keys: self.topology_keys.clone(),
            fallback_to_topology_keys_only: self.fallback_to_topology_keys_only,
            yb_servers_refresh_interval: self.yb_servers_refresh_interval,
            failed_host_reconnect_delay_secs: self.failed_host_reconnect_delay_secs,
            connect_timeout: self.connect_timeout,
            tcp_user_timeout: self.tcp_user_timeout,
            keepalives: self.keepalives,
            keepalive_config: self.keepalive_config,
            target_session_attrs: self.target_session_attrs,
        }
    }
}

/// A TCP connect timeout, bounded by [`CONNECT_TIMEOUT`].
pub open spec fn bounded_timeout(timeout: Option<Nanos>) -> Nanos {
    match timeout {
        Some(t) if t < CONNECT_TIMEOUT => t,
        _ => CONNECT_TIMEOUT,
    }
}

/// The settings of a control connection: those given, with `connect_timeout`
/// bounded by [`CONNECT_TIMEOUT`].
pub fn control_connection_config(config: &Config) -> (r: Config)
    ensures
        r@ == (ConfigView {
            connect_timeout: Some(bounded_timeout(config@.connect_timeout)),
            ..config@
        }),
{
    let mut control_config: Config = config.clone();
    let timeout: Nanos = match config.connect_timeout {
        Some(t) => if t < CONNECT_TIMEOUT {
            t
        } else {
            CONNECT_TIMEOUT
        },
        None => CONNECT_TIMEOUT,
    };
    control_config.connect_timeout = Some(timeout);
    control_config
}

impl ConfigView {
    /// How many servers are configured.
    pub open spec fn num_hosts(self) -> nat {
        if self.host.len() >= self.hostaddr.len() {
            self.host.len()
        } else {
            self.hostaddr.len()
        }
    }

    /// What is wrong with the configured hosts, addresses and ports, if anything.
    pub open spec fn problem(self) -> Option<ErrorView> {
        if self.host.len() == 0 && self.hostaddr.len() == 0 {
            Some(config_error("both host and hostaddr are missing"@))
        } else if self.host.len() > 0 && self.hostaddr.len() > 0 && self.host.len()
            != self.hostaddr.len() {
            Some(
                config_error(
                    "number of hosts ("@ + decimal(self.host.len())
                        + ") is different from number of hostaddrs ("@ + decimal(
                        self.hostaddr.len(),
                    ) + ")"@,
                ),
            )
        } else if self.port.len() > 1 && self.port.len() != self.num_hosts() {
            Some(config_error("invalid number of ports"@))
        } else {
            None
        }
    }
}

/// Checks the configured hosts, addresses and ports against each other, and
/// counts the servers.
pub fn check_hosts(config: &Config) -> (r: Result<usize, Error>)
    ensures
        match r {
            Ok(n) => config@.problem() is None && n == config@.num_hosts() && n > 0,
            Err(e) => config@.problem() == Some(e@),
        },
{
    if config.host.len() == 0 && config.hostaddr.len() == 0 {
        return Err(Error::config("both host and hostaddr are missing".to_owned()));
    }
    if config.host.len() > 0 && config.hostaddr.len() > 0 && config.host.len()
        != config.hostaddr.len() {
        let mut msg: String = "number of hosts (".to_owned();
        msg.append(show_number(config.host.len()).as_str());
        msg.append(") is different from number of hostaddrs (");
        msg.append(show_number(config.hostaddr.len()).as_str());
        msg.append(")");
        return Err(Error::config(msg));
    }
    let num_hosts: usize = if config.host.len() >= config.hostaddr.len() {
        config.host.len()
    } else {
        config.hostaddr.len()
    };
    if config.port.len() > 1 && config.port.len() != num_hosts {
        return Err(Error::config("invalid number of ports".to_owned()));
    }
    Ok(num_hosts)
}

} // verus!
