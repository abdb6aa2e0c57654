//! Where to connect, and in which order.

use vstd::prelude::*;
use vstd::string::*;

use crate::attempts::{attempt_order, AttemptAction, Attempts};
use crate::config::{check_hosts, Config, ConfigView, LoadBalanceHosts, DEFAULT_PORT};
use crate::error::{connect_error, Error, IoErrorKind};
use crate::host::{Host, HostView, UnixPath};

verus! {

/// A server to connect to: its address, the name that TLS expects it to have,
/// and its port.
#[derive(Debug, PartialEq, Eq)]
pub struct Target {
    pub host: Host,
    pub hostname: Option<String>,
    pub port: u16,
}

/// What a [`Target`] stands for.
pub struct TargetView {
    pub host: HostView,
    pub hostname: Option<Seq<char>>,
    pub port: u16,
}

/// What an optional string holds.
pub open spec fn optional_text(s: Option<String>) -> Option<Seq<char>> {
    match s {
        Some(text) => Some(text@),
        None => None,
    }
}

impl View for Target {
    type V = TargetView;

    open spec fn view(&self) -> TargetView {
        TargetView {
            host: self.host@,
            hostname: optional_text(self.hostname),
            port: self.port,
        }
    }
}

/// What each of a list of targets stands for.
pub open spec fn target_views(targets: Seq<Target>) -> Seq<TargetView> {
    targets.map_values(|t: Target| t@)
}

/// The name that TLS expects of a host: its own, or none for a Unix socket,
/// over which there is no TLS.
pub open spec fn tls_name(host: HostView) -> Option<Seq<char>> {
    match host {
        HostView::Tcp(name) => Some(name),
        HostView::Unix { bytes, debug } => None,
    }
}

/// Finds the name that TLS expects of a host.
pub fn hostname_of(host: &Host) -> (r: Option<String>)
    ensures
        optional_text(r) == tls_name(host@),
{
    match host {
        Host::Tcp(name) => Some(name.clone()),
        Host::Unix(_) => None,
    }
}

/// A server of the cluster, as a target.
pub open spec fn target_of(host: HostView, port: u16) -> TargetView {
    TargetView { host, hostname: tls_name(host), port }
}

/// Makes a server of the cluster a target.
pub fn make_target(host: Host, port: u16) -> (r: Target)
    ensures
        r@ == target_of(host@, port),
{
    let hostname: Option<String> = hostname_of(&host);
    Target { host, hostname, port }
}

impl ConfigView {
    /// The configured server of number `i`: its IP address, if one is given, else
    /// its host; under the name of the host; at its own port, else at the first
    /// one, else at the default one.
    pub open spec fn target(self, i: int) -> TargetView {
        TargetView {
            host: if i < self.hostaddr.len() {
                HostView::Tcp(self.hostaddr[i])
            } else {
                self.host[i]
            },
            hostname: if i < self.host.len() {
                tls_name(self.host[i])
            } else {
                None
            },
            port: if i < self.port.len() {
                self.port[i]
            } else if self.port.len() > 0 {
                self.port[0]
            } else {
                DEFAULT_PORT
            },
        }
    }
}

/// Whether `order` holds each number below `n` once.
pub open spec fn is_order(order: Seq<usize>, n: nat) -> bool {
    &&& order.len() == n
    &&& order.no_duplicates()
    &&& forall|i: int| 0 <= i < order.len() ==> #[trigger] order[i] < n
}

/// The configured servers, in the given order.
pub open spec fn targets_in_order(config: ConfigView, order: Seq<usize>) -> Seq<TargetView> {
    order.map_values(|i: usize| config.target(i as int))
}

/// The numbers below `n`, in order.
pub open spec fn ascending(n: nat) -> Seq<usize> {
    Seq::new(n, |i: int| i as usize)
}

/// The configured server of number `i`.
pub fn configured_target(config: &Config, i: usize) -> (r: Target)
    requires
        i < config@.num_hosts(),
        config@.problem() is None,
    ensures
        r@ == config@.target(i as int),
{
    let hostname: Option<String> = if i < config.host.len() {
        hostname_of(&config.host[i])
    } else {
        None
    };
    let host: Host = if i < config.hostaddr.len() {
        Host::Tcp(config.hostaddr[i].clone())
    } else {
        config.host[i].clone()
    };
    let port: u16 = if i < config.port.len() {
        config.port[i]
    } else if config.port.len() > 0 {
        config.port[0]
    } else {
        DEFAULT_PORT
    };
    Target { host, hostname, port }
}

/// The configured servers, in the given order.
pub fn configured_targets(config: &Config, order: &Vec<usize>) -> (r: Vec<Target>)
    requires
        config@.problem() is None,
        forall|i: int| 0 <= i < order@.len() ==> #[trigger] order@[i] < config@.num_hosts(),
    ensures
        target_views(r@) == targets_in_order(config@, order@),
{
    let mut r: Vec<Target> = Vec::new();
    let mut i: usize = 0;
    while i < order.len()
        invariant
            i <= order.len(),
            config@.problem() is None,
            forall|i: int| 0 <= i < order@.len() ==> #[trigger] order@[i] < config@.num_hosts(),
            target_views(r@) == targets_in_order(config@, order@.take(i as int)),
        decreases order.len() - i,
    {
        let ghost before = r@;
        let ghost seen = order@.take(i as int);
        r.push(configured_target(config, order[i]));
        assert(order@.take(i + 1) =~= seen.push(order@[i as int]));
        assert(target_views(r@) =~= target_views(before).push(
            config@.target(order@[i as int] as int),
        ));
        assert(targets_in_order(config@, order@.take(i + 1)) =~= targets_in_order(
            config@,
            seen,
        ).push(config@.target(order@[i as int] as int)));
        i += 1;
    }
    assert(order@.take(order@.len() as int) =~= order@);
    r
}

fn count_up(n: usize) -> (r: Vec<usize>)
    ensures
        r@ == ascending(n as nat),
{
    let mut r: Vec<usize> = Vec::new();
    let mut i: usize = 0;
    while i < n
        invariant
            i <= n,
            r@ == ascending(i as nat),
        decreases n - i,
    {
        r.push(i);
        i += 1;
        assert(r@ =~= ascending(i as nat));
    }
    r
}

/// A rearrangement of the numbers below `n` holds each of them once.
proof fn lemma_rearranged(order: Seq<usize>, n: usize)
    requires
        order.to_multiset() == ascending(n as nat).to_multiset(),
    ensures
        is_order(order, n as nat),
{
    broadcast use vstd::seq_lib::group_to_multiset_ensures;

    let all = ascending(n as nat);
    assert(all.no_duplicates());
    all.lemma_multiset_has_no_duplicates();
    order.lemma_multiset_has_no_duplicates_conv();
    assert(order.len() == order.to_multiset().len());
    assert forall|i: int| 0 <= i < order.len() implies #[trigger] order[i] < n by {
        assert(order.contains(order[i]));
        assert(order.to_multiset().count(order[i]) > 0);
        assert(all.contains(order[i]));
    }
}

/// Checks the settings, and plans the attempts at the configured servers: each
/// once, in order or at random.
pub fn plan_configured(config: &Config) -> (r: Result<Attempts<Target>, Error>)
    ensures
        match r {
            Ok(plan) => {
                &&& config@.problem() is None
                &&& plan.items@.len() == config@.num_hosts() > 0
                &&& exists|order: Seq<usize>|
                    {
                        &&& #[trigger] is_order(order, config@.num_hosts())
                        &&& target_views(plan.items@) == targets_in_order(config@, order)
                        &&& config@.load_balance_hosts == LoadBalanceHosts::Disable ==> order
                            == ascending(config@.num_hosts())
                    }
            },
            Err(e) => config@.problem() == Some(e@),
        },
{
    match check_hosts(config) {
        Ok(num_hosts) => {
            let indices: Attempts<usize> = attempt_order(
                count_up(num_hosts),
                config.load_balance_hosts,
            );
            proof {
                lemma_rearranged(indices.items@, num_hosts);
            }
            let items: Vec<Target> = configured_targets(config, &indices.items);
            assert(target_views(items@).len() == items@.len());
            assert(is_order(indices.items@, config@.num_hosts()));
            Ok(Attempts { items })
        },
        Err(e) => Err(e),
    }
}

/// An IP address.
#[derive(Debug, Clone, Copy, PartialEq, Eq)]
pub enum IpAddress {
    V4(u32),
    V6(u128),
}

/// What a socket connects to.
#[derive(Debug, PartialEq, Eq)]
pub enum Addr {
    Tcp(IpAddress),
    Unix(UnixPath),
}

/// How the address of a host is found.
#[derive(Debug, PartialEq, Eq)]
pub enum Route {
    /// By looking up this name.
    Resolve(String),
    /// It is this one.
    Direct(Addr),
}

/// Finds out how the address of a host is found.
pub fn route(host: Host) -> (r: Route)
    ensures
        match host {
            Host::Tcp(name) => r == Route::Resolve(name),
            Host::Unix(path) => r == Route::Direct(Addr::Unix(path)),
        },
{
    match host {
        Host::Tcp(name) => Route::Resolve(name),
        Host::Unix(path) => Route::Direct(Addr::Unix(path)),
    }
}

/// Plans the attempts at the addresses that a name has: each once, in order or
/// at random.
pub fn plan_addresses(addresses: Vec<IpAddress>, config: &Config) -> (r: Attempts<IpAddress>)
    ensures
        r.items@.to_multiset() == addresses@.to_multiset(),
        config@.load_balance_hosts == LoadBalanceHosts::Disable ==> r.items@ == addresses@,
{
    attempt_order(addresses, config.load_balance_hosts)
}

/// The first of the attempts at the addresses of a name. A name that has no
/// address cannot be connected to.
pub fn first_address(plan: &mut Attempts<IpAddress>) -> (r: AttemptAction<IpAddress>)
    ensures
        match r {
            AttemptAction::Try(address) => {
                &&& old(plan).items@.len() > 0
                &&& address == old(plan).items@[0]
                &&& final(plan).items@ == old(plan).items@.drop_first()
            },
            AttemptAction::GiveUp(e) => {
                &&& old(plan).items@.len() == 0
                &&& final(plan).items@ == old(plan).items@
                &&& e@ == connect_error(
                    IoErrorKind::InvalidInput,
                    "could not resolve any addresses"@,
                )
            },
        },
{
    match plan.next() {
        Some(address) => AttemptAction::Try(address),
        None => AttemptAction::GiveUp(
            Error::connect(
                IoErrorKind::InvalidInput,
                "could not resolve any addresses".to_owned(),
            ),
        ),
    }
}

} // verus!
