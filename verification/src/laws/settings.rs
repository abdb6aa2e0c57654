//! What holds of the settings, and of the servers that they name.

use vstd::prelude::*;

use crate::config::{
    bounded_timeout, Config, ConfigView, Nanos, CONNECT_TIMEOUT,
    CONTROL_CONN_CLOSE_TIMEOUT, DEFAULT_PORT, QUERY_TIMEOUT, SOCKET_TIMEOUT,
};
use crate::error::{Error, ErrorKind};
use crate::host::{views, Host, HostView};
use crate::target::{
    ascending, is_order, target_of, target_views, targets_in_order, tls_name, Target,
};
use crate::text::{decimal, texts};

verus! {

/// What the settings stand for is the settings, each as it is given.
pub proof fn settings_stand_for_themselves(config: Config)
    ensures
        config@.host.len() == config.host@.len(),
        forall|i: int|
            0 <= i < config.host@.len() ==> #[trigger] config@.host[i] == config.host@[i]@,
        config@.hostaddr.len() == config.hostaddr@.len(),
        forall|i: int|
            0 <= i < config.hostaddr@.len() ==> #[trigger] config@.hostaddr[i]
                == config.hostaddr@[i]@,
        config@.port == config.port@,
        config@.load_balance_hosts == config.load_balance_hosts,
        config@.load_balance == config.load_balance@,
        forall|k: i64| #[trigger]
            config@.topology_keys.contains_key(k) <==> config.topology_keys@.contains_key(k),
        forall|k: i64|
            config.topology_keys@.contains_key(k) ==> (#[trigger] config@.topology_keys[k]).len()
                == config.topology_keys@[k]@.len(),
        forall|k: i64, i: int|
            config.topology_keys@.contains_key(k) && 0 <= i < config.topology_keys@[k]@.len()
                ==> #[trigger] config@.topology_keys[k][i] == config.topology_keys@[k]@[i]@,
        config@.fallback_to_topology_keys_only == config.fallback_to_topology_keys_only,
        config@.yb_servers_refresh_interval == config.yb_servers_refresh_interval,
        config@.failed_host_reconnect_delay_secs == config.failed_host_reconnect_delay_secs,
        config@.connect_timeout == config.connect_timeout,
        config@.tcp_user_timeout == config.tcp_user_timeout,
        config@.keepalives == config.keepalives,
        config@.keepalive_config == config.keepalive_config,
        config@.target_session_attrs == config.target_session_attrs,
{
}

/// Hosts, texts, errors and targets stand for what they hold, place by place.
pub proof fn lists_stand_for_what_they_hold(
    hosts: Seq<Host>,
    strings: Seq<String>,
    targets: Seq<Target>,
    error: Error,
    i: int,
)
    ensures
        views(hosts).len() == hosts.len(),
        0 <= i < hosts.len() ==> views(hosts)[i] == hosts[i]@,
        texts(strings).len() == strings.len(),
        0 <= i < strings.len() ==> texts(strings)[i] == strings[i]@,
        target_views(targets).len() == targets.len(),
        0 <= i < targets.len() ==> {
            let t = target_views(targets)[i];
            &&& t.host == targets[i].host@
            &&& t.port == targets[i].port
            &&& match targets[i].hostname {
                Some(name) => t.hostname == Some(name@),
                None => t.hostname is None,
            }
        },
        error@.kind == error.kind,
        error@.message == error.message@,
        error@.causes.len() == error.causes@.len(),
        0 <= i < error.causes@.len() ==> error@.causes[i] == error.causes@[i]@,
{
}

/// A host stands for its kind, and for its name or path.
pub proof fn a_host_stands_for_its_name(host: Host)
    ensures
        match host {
            Host::Tcp(name) => host@ == HostView::Tcp(name@),
            Host::Unix(path) => host@ == (HostView::Unix {
                bytes: path.bytes@,
                debug: path.debug@,
            }),
        },
{
}

/// The bound on a TCP connect is the one that is configured, or the bound of a
/// control connection, whichever is the shorter.
pub proof fn the_shorter_timeout_bounds_a_control_connection(timeout: Option<Nanos>, t: Nanos)
    ensures
        CONNECT_TIMEOUT == 10_000_000_000,
        SOCKET_TIMEOUT == 15_000_000_000,
        QUERY_TIMEOUT == 10_000_000_000,
        CONTROL_CONN_CLOSE_TIMEOUT == 2_000_000_000,
        t <= bounded_timeout(timeout) <==> t <= 10_000_000_000 && match timeout {
            Some(given) => t <= given,
            None => true,
        },
{
    assert(bounded_timeout(timeout) <= bounded_timeout(timeout));
}

/// As many servers are configured as hosts or IP addresses are given, whichever are
/// more.
pub proof fn every_host_and_address_is_a_server(config: ConfigView, n: nat)
    ensures
        n >= config.num_hosts() <==> n >= config.host.len() && n >= config.hostaddr.len(),
{
}

/// The settings can be used if and only if there is a host or an address; there are
/// as many of the one as of the other, where there are both; and there is no port,
/// one port, or one for each.
pub proof fn settings_that_can_be_used(config: ConfigView)
    ensures
        config.problem() is None <==> {
            &&& config.host.len() > 0 || config.hostaddr.len() > 0
            &&& config.host.len() > 0 && config.hostaddr.len() > 0 ==> config.host.len()
                == config.hostaddr.len()
            &&& {
                ||| config.port.len() == 0
                ||| config.port.len() == 1
                ||| config.host.len() > 0 && config.port.len() == config.host.len()
                ||| config.host.len() == 0 && config.port.len() == config.hostaddr.len()
            }
        },
{
}

/// What is wrong with settings that cannot be used is said: first that no server is
/// given, then that the numbers of hosts and addresses differ, then that the number
/// of ports does not fit.
pub proof fn settings_that_cannot_be_used(config: ConfigView)
    requires
        config.problem() is Some,
    ensures
        config.problem()->0.kind == ErrorKind::Config,
        config.problem()->0.message == "invalid configuration"@,
        config.problem()->0.causes.len() == 1,
        config.host.len() == 0 && config.hostaddr.len() == 0 ==> config.problem()->0.causes[0]
            == "both host and hostaddr are missing"@,
        config.host.len() > 0 && config.hostaddr.len() > 0 && config.host.len()
            != config.hostaddr.len() ==> config.problem()->0.causes[0] == "number of hosts ("@
            + decimal(config.host.len()) + ") is different from number of hostaddrs ("@ + decimal(
            config.hostaddr.len(),
        ) + ")"@,
        (config.host.len() > 0 && config.hostaddr.len() == 0) || (config.host.len() == 0
            && config.hostaddr.len() > 0) || (config.host.len() > 0 && config.host.len()
            == config.hostaddr.len()) ==> config.problem()->0.causes[0]
            == "invalid number of ports"@,
{
}

/// Where no port is configured, every configured server is tried at 5433; where one
/// is, at that; where there is one for each server, at its own. It makes no
/// difference whether addresses are given.
pub proof fn one_port_serves_every_server(config: ConfigView, i: int)
    requires
        0 <= i < config.host.len() || 0 <= i < config.hostaddr.len(),
    ensures
        DEFAULT_PORT == 5433,
        config.port.len() == 0 ==> config.target(i).port == 5433,
        config.port.len() == 1 ==> config.target(i).port == config.port[0],
        i < config.port.len() ==> config.target(i).port == config.port[i],
        config.port.len() > 0 && i >= config.port.len() ==> config.target(i).port
            == config.port[0],
        forall|other: ConfigView|
            #![trigger other.target(i)]
            other.port == config.port ==> other.target(i).port == config.target(i).port,
{
}

/// A configured server is connected to at its IP address, where one is given, and
/// else by its host; under the name of its host, where that has one.
pub proof fn a_configured_server_is_reached_by_its_address(config: ConfigView, i: int)
    requires
        0 <= i < config.host.len() || 0 <= i < config.hostaddr.len(),
    ensures
        i < config.hostaddr.len() ==> config.target(i).host == HostView::Tcp(config.hostaddr[i]),
        i >= config.hostaddr.len() ==> config.target(i).host == config.host[i],
        config.target(i).hostname is Some <==> i < config.host.len() && config.host[i] is Tcp,
        config.target(i).hostname matches Some(name) ==> config.host[i] == HostView::Tcp(name),
{
}

/// A server of the cluster is connected to at its address and port, under the name
/// of the address, where that has one.
pub proof fn a_server_of_the_cluster_is_reached_by_its_name(host: HostView, port: u16)
    ensures
        target_of(host, port).host == host,
        target_of(host, port).port == port,
        target_of(host, port).hostname is Some <==> host is Tcp,
        target_of(host, port).hostname matches Some(name) ==> host == HostView::Tcp(name),
        tls_name(host) is Some <==> host is Tcp,
        tls_name(host) matches Some(name) ==> host == HostView::Tcp(name),
{
}

/// In an order of the configured servers each one stands, and none stands twice;
/// the attempts follow the order.
pub proof fn every_configured_server_is_attempted_once(
    config: ConfigView,
    order: Seq<usize>,
    n: nat,
    i: int,
    j: int,
)
    requires
        is_order(order, n),
        0 <= i < n,
        0 <= j < n,
    ensures
        exists|k: int| 0 <= k < order.len() && #[trigger] order[k] == i,
        i != j ==> order[i] != order[j],
        targets_in_order(config, order).len() == n,
        targets_in_order(config, order)[j] == config.target(order[j] as int),
{
    let numbers = order.map_values(|x: usize| x as int);
    let all = vstd::set_lib::set_int_range(0, n as int);
    vstd::set_lib::lemma_int_range(0, n as int);
    assert(numbers.no_duplicates());
    numbers.unique_seq_to_set();
    assert forall|x: int| #[trigger] numbers.to_set().contains(x) implies all.contains(x) by {
        let k = choose|k: int| 0 <= k < numbers.len() && numbers[k] == x;
        assert(order[k] < n);
    }
    vstd::set_lib::lemma_subset_equality(numbers.to_set(), all);
    assert(all.contains(i));
    assert(numbers.to_set().contains(i));
    let k = choose|k: int| 0 <= k < numbers.len() && numbers[k] == i;
    assert(order[k] == i);
}

/// The order in which the configured servers are given is their numbers, upwards.
pub proof fn numbers_go_upwards(n: nat, i: int)
    requires
        n <= usize::MAX,
        0 <= i < n,
    ensures
        ascending(n).len() == n,
        ascending(n)[i] == i,
{
}

} // verus!
