//! Control connections: when the list of servers is brought up to date, and over
//! which connection.
//!
//! The caller performs each action that it is given and says how it went. What
//! comes next is decided here.

use vstd::prelude::*;
use vstd::string::*;

use crate::cluster::{add_to_failed_host_list, elapsed, time_since, ClusterState, ClusterView};
use crate::config::{Config, ConfigView, Nanos};
use crate::error::{
    chain_text, connect_error, error_chain, outcome_view, Error, ErrorView, IoErrorKind,
};
use crate::host::{views, Host, HostView};
use crate::target::{make_target, target_of, Target, TargetView};
use crate::text::{hosts_text, show_hosts};

verus! {

/// `tokio::time::error::Elapsed`: what is left of an operation that did not end
/// in time. Nothing is read from it.
#[verifier::external_type_specification]
#[verifier::external_body]
pub struct ExElapsed(tokio::time::error::Elapsed);

/// A control connection was not established in time.
pub open spec fn not_established(target: Seq<char>) -> ErrorView {
    connect_error(
        IoErrorKind::TimedOut,
        "control connection to "@ + target + " was not established within 15s"@,
    )
}

/// Collapses the outcome of establishing a control connection, bounded in time,
/// into a plain `Result`.
///
/// An error of the connection itself passes through untouched, so that a report
/// still shows its cause; only running out of time becomes an error of its own.
pub fn establish_control_connection<T>(
    target: &str,
    outcome: Result<Result<T, Error>, tokio::time::error::Elapsed>,
) -> (r: Result<T, Error>)
    ensures
        match outcome {
            Ok(inner) => r == inner,
            Err(_) => r matches Err(e) && e@ == not_established(target@),
        },
{
    match outcome {
        Ok(inner) => inner,
        Err(_) => {
            let mut reason: String = "control connection to ".to_owned();
            reason.append(target);
            reason.append(" was not established within 15s");
            Err(Error::connect(IoErrorKind::TimedOut, reason))
        },
    }
}

/// The query for the list of servers.
pub fn servers_query() -> (r: &'static str)
    ensures
        r@ == "select * from yb_servers()"@,
{
    "select * from yb_servers()"
}

/// Collapses the outcome of the query for the list of servers, bounded in time,
/// into a plain `Result`.
pub fn finish_query<T>(
    outcome: Result<Result<T, Error>, tokio::time::error::Elapsed>,
) -> (r: Result<T, Error>)
    ensures
        match outcome {
            Ok(inner) => r == inner,
            Err(_) => r matches Err(e) && e@ == connect_error(
                IoErrorKind::TimedOut,
                "`select * from yb_servers()` did not complete within 10s"@,
            ),
        },
{
    match outcome {
        Ok(inner) => inner,
        Err(_) => Err(
            Error::connect(
                IoErrorKind::TimedOut,
                "`select * from yb_servers()` did not complete within 10s".to_owned(),
            ),
        ),
    }
}

/// What the configured servers are called in messages.
pub open spec fn configured_text(config: ConfigView) -> Seq<char> {
    "configured host(s) "@ + hosts_text(config.host)
}

/// Writes what the configured servers are called in messages.
pub fn show_configured(config: &Config) -> (r: String)
    ensures
        r@ == configured_text(config@),
{
    "configured host(s) ".to_owned().concat(show_hosts(&config.host).as_str())
}

/// A server that was known when the check began, and its port.
#[derive(Debug, PartialEq, Eq)]
pub struct Known {
    pub host: Host,
    pub port: u16,
}

/// What a list of known servers stands for.
pub open spec fn known_views(known: Seq<Known>) -> Seq<(HostView, u16)> {
    known.map_values(|k: Known| (k.host@, k.port))
}

/// A round of attempts at the known servers: the one that is being tried, those
/// that are left, what went wrong with the configured servers, and what went
/// wrong last with a known one.
#[derive(Debug, PartialEq, Eq)]
pub struct Round {
    pub current: Host,
    pub left: Vec<Known>,
    pub config_err: Error,
    pub discovered_err: Option<Error>,
}

/// What a [`Round`] stands for.
pub struct RoundView {
    pub current: HostView,
    pub left: Seq<(HostView, u16)>,
    pub config_err: ErrorView,
    pub discovered_err: Option<ErrorView>,
}

/// What an optional error stands for.
pub open spec fn optional_error(e: Option<Error>) -> Option<ErrorView> {
    match e {
        Some(error) => Some(error@),
        None => None,
    }
}

impl View for Round {
    type V = RoundView;

    open spec fn view(&self) -> RoundView {
        RoundView {
            current: self.current@,
            left: known_views(self.left@),
            config_err: self.config_err@,
            discovered_err: optional_error(self.discovered_err),
        }
    }
}

/// What a check is waiting for.
#[derive(Debug, PartialEq, Eq)]
pub enum CheckStep {
    /// A connection to one of the configured servers.
    Configured(Vec<Known>),
    /// The list of servers, over that connection.
    ConfiguredRefresh(Vec<Known>),
    /// A connection to a known server.
    Discovered(Round),
    /// The list of servers, over that connection.
    DiscoveredRefresh(Round),
    /// Nothing.
    Done,
}

/// What a [`CheckStep`] stands for.
pub enum CheckStepView {
    Configured(Seq<(HostView, u16)>),
    ConfiguredRefresh(Seq<(HostView, u16)>),
    Discovered(RoundView),
    DiscoveredRefresh(RoundView),
    Done,
}

impl View for CheckStep {
    type V = CheckStepView;

    open spec fn view(&self) -> CheckStepView {
        match self {
            CheckStep::Configured(known) => CheckStepView::Configured(known_views(known@)),
            CheckStep::ConfiguredRefresh(known) => CheckStepView::ConfiguredRefresh(
                known_views(known@),
            ),
            CheckStep::Discovered(round) => CheckStepView::Discovered(round@),
            CheckStep::DiscoveredRefresh(round) => CheckStepView::DiscoveredRefresh(round@),
            CheckStep::Done => CheckStepView::Done,
        }
    }
}

/// What to do next for a check.
#[derive(Debug, PartialEq, Eq)]
pub enum CheckAction {
    /// Connect to one of the configured servers.
    ConnectConfigured,
    /// Connect to this server.
    Connect(Target),
    /// Ask for the list of servers, over the connection just made, and take it in.
    Refresh,
    /// End the check.
    Finish(Result<(), Error>),
}

/// What a [`CheckAction`] stands for.
pub enum CheckActionView {
    ConnectConfigured,
    Connect(TargetView),
    Refresh,
    Finish(Result<(), ErrorView>),
}

impl View for CheckAction {
    type V = CheckActionView;

    open spec fn view(&self) -> CheckActionView {
        match self {
            CheckAction::ConnectConfigured => CheckActionView::ConnectConfigured,
            CheckAction::Connect(target) => CheckActionView::Connect(target@),
            CheckAction::Refresh => CheckActionView::Refresh,
            CheckAction::Finish(outcome) => CheckActionView::Finish(outcome_view(*outcome)),
        }
    }
}

/// What holds after a step of a check: what is known of the cluster, what is
/// waited for, and what to do.
pub struct CheckOutcome {
    pub cluster: ClusterView,
    pub step: CheckStepView,
    pub action: CheckActionView,
}

/// What a check fails with: what went wrong with the configured servers, and
/// what went wrong last with a known one, if one was tried.
pub open spec fn check_error(
    config: ConfigView,
    config_err: ErrorView,
    discovered_err: Option<ErrorView>,
) -> ErrorView {
    match discovered_err {
        Some(discovered) => connect_error(
            IoErrorKind::ConnectionRefused,
            "could not create control connection: configured host(s) "@ + hosts_text(config.host)
                + ": "@ + chain_text(config_err.message, config_err.causes)
                + "; last discovered server: "@ + chain_text(discovered.message, discovered.causes),
        ),
        None => config_err,
    }
}

/// Whether the list of servers has just been brought up to date.
pub open spec fn refreshed(step: CheckStepView, outcome: Result<(), ErrorView>) -> bool {
    (step is ConfiguredRefresh || step is DiscoveredRefresh) && outcome is Ok
}

impl ClusterView {
    /// The servers that are known, the primary ones first, with their ports.
    pub open spec fn known(self) -> Seq<(HostView, u16)> {
        (self.primary + self.rr).map_values(|h: HostView| (h, self.ports[h]))
    }

    /// Whether the list of servers is recent enough: there is one, and it was
    /// brought up to date within the interval. Within an interval of zero, it
    /// never is.
    pub open spec fn fresh(self, config: ConfigView, refresh_time: Nanos, now: Nanos) -> bool {
        &&& self.primary.len() + self.rr.len() > 0
        &&& config.yb_servers_refresh_interval > 0
        &&& time_since(now, refresh_time) <= config.yb_servers_refresh_interval
    }

    /// The servers among `known` that are worth trying.
    pub open spec fn worth_trying(
        self,
        known: Seq<(HostView, u16)>,
        config: ConfigView,
        now: Nanos,
    ) -> Seq<(HostView, u16)> {
        known.filter(
            |k: (HostView, u16)| !self.is_down(k.0, now, config.failed_host_reconnect_delay_secs),
        )
    }

    /// What follows when the servers in `left` are to be tried, in order.
    ///
    /// One that has no public address, where that is what connections go to, is
    /// marked as failed and passed over.
    pub open spec fn tried(
        self,
        config: ConfigView,
        left: Seq<(HostView, u16)>,
        config_err: ErrorView,
        discovered_err: Option<ErrorView>,
        now: Nanos,
    ) -> CheckOutcome
        decreases left.len(),
    {
        if left.len() == 0 {
            CheckOutcome {
                cluster: self,
                step: CheckStepView::Done,
                action: CheckActionView::Finish(
                    Err(check_error(config, config_err, discovered_err)),
                ),
            }
        } else {
            let host = left[0].0;
            if self.use_public_ip && !self.public_hosts.contains_key(host) {
                self.mark_failed(host, now).tried(
                    config,
                    left.drop_first(),
                    config_err,
                    discovered_err,
                    now,
                )
            } else {
                let target = if self.use_public_ip {
                    target_of(self.public_hosts[host], self.ports[self.public_hosts[host]])
                } else {
                    target_of(host, left[0].1)
                };
                CheckOutcome {
                    cluster: self,
                    step: CheckStepView::Discovered(
                        RoundView {
                            current: host,
                            left: left.drop_first(),
                            config_err,
                            discovered_err,
                        },
                    ),
                    action: CheckActionView::Connect(target),
                }
            }
        }
    }

    /// What follows once a server could not be used: it is marked as failed, and
    /// the next one is tried.
    pub open spec fn gave_up(
        self,
        config: ConfigView,
        round: RoundView,
        e: ErrorView,
        now: Nanos,
    ) -> CheckOutcome {
        self.mark_failed(round.current, now).tried(
            config,
            round.left,
            round.config_err,
            Some(e),
            now,
        )
    }

    /// What follows once what `step` waits for has come or failed.
    ///
    /// A connection is used for the list of servers. Where either cannot be had
    /// from the configured servers, the known ones are tried in turn.
    pub open spec fn checked(
        self,
        config: ConfigView,
        step: CheckStepView,
        outcome: Result<(), ErrorView>,
        now: Nanos,
    ) -> CheckOutcome {
        match (step, outcome) {
            (CheckStepView::Configured(known), Ok(())) => CheckOutcome {
                cluster: self,
                step: CheckStepView::ConfiguredRefresh(known),
                action: CheckActionView::Refresh,
            },
            (CheckStepView::Discovered(round), Ok(())) => CheckOutcome {
                cluster: self,
                step: CheckStepView::DiscoveredRefresh(round),
                action: CheckActionView::Refresh,
            },
            (CheckStepView::Configured(known), Err(e)) | (
                CheckStepView::ConfiguredRefresh(known),
                Err(e),
            ) => self.tried(
                config,
                self.worth_trying(known, config, now),
                e,
                None,
                now,
            ),
            (CheckStepView::Discovered(round), Err(e)) | (
                CheckStepView::DiscoveredRefresh(round),
                Err(e),
            ) => self.gave_up(config, round, e, now),
            (CheckStepView::ConfiguredRefresh(_), Ok(())) | (
                CheckStepView::DiscoveredRefresh(_),
                Ok(()),
            ) => CheckOutcome {
                cluster: self,
                step: CheckStepView::Done,
                action: CheckActionView::Finish(Ok(())),
            },
            (CheckStepView::Done, _) => CheckOutcome {
                cluster: self,
                step: CheckStepView::Done,
                action: CheckActionView::Finish(outcome),
            },
        }
    }
}

fn append_known(cluster: &ClusterState, hosts: &Vec<Host>, known: &mut Vec<Known>)
    requires
        forall|i: int|
            0 <= i < hosts@.len() ==> cluster@.ports.contains_key(#[trigger] views(hosts@)[i]),
    ensures
        known_views(final(known)@) == known_views(old(known)@) + views(hosts@).map_values(
            |h: HostView| (h, cluster@.ports[h]),
        ),
{
    let ghost f = |h: HostView| (h, cluster@.ports[h]);
    let mut i: usize = 0;
    assert(known_views(known@) =~= known_views(known@) + views(hosts@).take(0).map_values(f));
    while i < hosts.len()
        invariant
            i <= hosts.len(),
            f == (|h: HostView| (h, cluster@.ports[h])),
            forall|i: int|
                0 <= i < hosts@.len() ==> cluster@.ports.contains_key(#[trigger] views(hosts@)[i]),
            known_views(known@) == known_views(old(known)@) + views(hosts@).take(
                i as int,
            ).map_values(f),
        decreases hosts.len() - i,
    {
        let ghost before = known@;
        let ghost seen = views(hosts@).take(i as int);
        let ghost host = views(hosts@)[i as int];
        assert(cluster@.ports.contains_key(host));
        let port: u16 = cluster.port(&hosts[i]).unwrap();
        known.push(Known { host: hosts[i].clone(), port });
        assert(views(hosts@).take(i + 1) =~= seen.push(host));
        assert(seen.push(host).map_values(f) =~= seen.map_values(f).push(f(host)));
        assert(known_views(known@) =~= known_views(before).push(f(host)));
        i += 1;
    }
    assert(views(hosts@).take(hosts@.len() as int) =~= views(hosts@));
}

/// Begins a check: it ends at once if the list of servers is recent enough.
pub fn check_start(
    config: &Config,
    cluster: &ClusterState,
    refresh_time: Nanos,
    now: Nanos,
) -> (r: (CheckStep, CheckAction))
    requires
        cluster@.wf(),
    ensures
        if cluster@.fresh(config@, refresh_time, now) {
            r.0@ == CheckStepView::Done && r.1@ == CheckActionView::Finish(Ok(()))
        } else {
            r.0@ == CheckStepView::Configured(cluster@.known()) && r.1@
                == CheckActionView::ConnectConfigured
        },
{
    let primary: &Vec<Host> = cluster.primary();
    let rr: &Vec<Host> = cluster.read_replicas();
    assert(views(primary@).len() == primary@.len());
    assert(views(rr@).len() == rr@.len());
    if (primary.len() > 0 || rr.len() > 0) && config.yb_servers_refresh_interval > 0 && elapsed(
        now,
        refresh_time,
    ) <= config.yb_servers_refresh_interval {
        return (CheckStep::Done, CheckAction::Finish(Ok(())));
    }
    let mut known: Vec<Known> = Vec::new();
    proof {
        assert forall|i: int| 0 <= i < primary@.len() implies cluster@.ports.contains_key(
            #[trigger] views(primary@)[i],
        ) by {
            assert(cluster@.primary.contains(cluster@.primary[i]));
            assert(cluster@.listed(cluster@.primary[i]));
        }
        assert forall|i: int| 0 <= i < rr@.len() implies cluster@.ports.contains_key(
            #[trigger] views(rr@)[i],
        ) by {
            assert(cluster@.rr.contains(cluster@.rr[i]));
            assert(cluster@.listed(cluster@.rr[i]));
        }
    }
    append_known(cluster, primary, &mut known);
    append_known(cluster, rr, &mut known);
    assert(known_views(known@) =~= cluster@.known());
    (CheckStep::Configured(known), CheckAction::ConnectConfigured)
}

/// Keeps the servers that are worth trying.
fn keep_worth_trying(
    config: &Config,
    cluster: &ClusterState,
    known: Vec<Known>,
    now: Nanos,
) -> (r: Vec<Known>)
    ensures
        known_views(r@) == cluster@.worth_trying(known_views(known@), config@, now),
{
    let ghost all = known_views(known@);
    let ghost p = |k: (HostView, u16)|
        !cluster@.is_down(k.0, now, config@.failed_host_reconnect_delay_secs);
    let mut r: Vec<Known> = Vec::new();
    let mut i: usize = 0;
    proof {
        reveal(Seq::filter);
        assert(known_views(r@) =~= all.take(0).filter(p));
    }
    while i < known.len()
        invariant
            i <= known.len(),
            all == known_views(known@),
            p == (|k: (HostView, u16)|
                !cluster@.is_down(k.0, now, config@.failed_host_reconnect_delay_secs)),
            known_views(r@) == all.take(i as int).filter(p),
        decreases known.len() - i,
    {
        let ghost before = r@;
        proof {
            reveal(Seq::filter);
            assert(all.take(i + 1).drop_last() =~= all.take(i as int));
        }
        let keep: bool = match cluster.failed().get(&known[i].host) {
            Some(failed_at) => elapsed(now, *failed_at) > config.failed_host_reconnect_delay_secs,
            None => true,
        };
        if keep {
            r.push(Known { host: known[i].host.clone(), port: known[i].port });
            assert(known_views(r@) =~= known_views(before).push(all[i as int]));
        }
        i += 1;
    }
    assert(all.take(all.len() as int) =~= all);
    r
}

/// Makes the error that a check fails with.
fn make_check_error(config: &Config, config_err: Error, discovered_err: Option<Error>) -> (r: Error)
    ensures
        r@ == check_error(config@, config_err@, optional_error(discovered_err)),
{
    match discovered_err {
        Some(discovered) => {
            let mut reason: String =
                "could not create control connection: configured host(s) ".to_owned();
            reason.append(show_hosts(&config.host).as_str());
            reason.append(": ");
            reason.append(error_chain(&config_err).as_str());
            reason.append("; last discovered server: ");
            reason.append(error_chain(&discovered).as_str());
            Error::connect(IoErrorKind::ConnectionRefused, reason)
        },
        None => config_err,
    }
}

/// Goes on to the next server that can be tried.
fn try_next(
    config: &Config,
    cluster: &mut ClusterState,
    servers: Vec<Known>,
    config_err: Error,
    discovered_err: Option<Error>,
    now: Nanos,
) -> (r: (CheckStep, CheckAction))
    requires
        old(cluster)@.wf(),
    ensures
        final(cluster)@.wf(),
        ({
            let outcome = old(cluster)@.tried(
                config@,
                known_views(servers@),
                config_err@,
                optional_error(discovered_err),
                now,
            );
            &&& final(cluster)@ == outcome.cluster
            &&& r.0@ == outcome.step
            &&& r.1@ == outcome.action
        }),
{
    let mut left: Vec<Known> = servers;
    let ghost goal = cluster@.tried(
        config@,
        known_views(left@),
        config_err@,
        optional_error(discovered_err),
        now,
    );
    while left.len() > 0
        invariant
            cluster@.wf(),
            goal == old(cluster)@.tried(
                config@,
                known_views(servers@),
                config_err@,
                optional_error(discovered_err),
                now,
            ),
            goal == cluster@.tried(
                config@,
                known_views(left@),
                config_err@,
                optional_error(discovered_err),
                now,
            ),
        decreases left@.len(),
    {
        let ghost before = known_views(left@);
        let next: Known = left.remove(0);
        assert(known_views(left@) =~= before.drop_first());
        assert(before[0] == (next.host@, next.port));
        if cluster.use_public_ip() {
            match cluster.public_host(&next.host) {
                Some(public) => {
                    let address: Host = public.clone();
                    assert(cluster@.public_hosts.contains_key(next.host@));
                    let port: u16 = cluster.port(&address).unwrap();
                    let round = Round { current: next.host, left, config_err, discovered_err };
                    return (
                        CheckStep::Discovered(round),
                        CheckAction::Connect(make_target(address, port)),
                    );
                },
                None => {
                    add_to_failed_host_list(cluster, next.host, now);
                },
            }
        } else {
            let target: Target = make_target(next.host.clone(), next.port);
            let round = Round { current: next.host, left, config_err, discovered_err };
            return (CheckStep::Discovered(round), CheckAction::Connect(target));
        }
    }
    (
        CheckStep::Done,
        CheckAction::Finish(Err(make_check_error(config, config_err, discovered_err))),
    )
}

/// Goes on once what `step` waits for has come or failed.
pub fn check_step(
    config: &Config,
    cluster: &mut ClusterState,
    refresh_time: &mut Nanos,
    step: CheckStep,
    outcome: Result<(), Error>,
    now: Nanos,
) -> (r: (CheckStep, CheckAction))
    requires
        old(cluster)@.wf(),
    ensures
        final(cluster)@.wf(),
        *final(refresh_time) == if refreshed(step@, outcome_view(outcome)) {
            now
        } else {
            *old(refresh_time)
        },
        ({
            let after = old(cluster)@.checked(
                config@,
                step@,
                outcome_view(outcome),
                now,
            );
            &&& final(cluster)@ == after.cluster
            &&& r.0@ == after.step
            &&& r.1@ == after.action
        }),
{
    match outcome {
        Ok(()) => match step {
            CheckStep::Configured(known) => (
                CheckStep::ConfiguredRefresh(known),
                CheckAction::Refresh,
            ),
            CheckStep::Discovered(round) => (
                CheckStep::DiscoveredRefresh(round),
                CheckAction::Refresh,
            ),
            CheckStep::ConfiguredRefresh(_) | CheckStep::DiscoveredRefresh(_) => {
                *refresh_time = now;
                (CheckStep::Done, CheckAction::Finish(Ok(())))
            },
            CheckStep::Done => (CheckStep::Done, CheckAction::Finish(Ok(()))),
        },
        Err(e) => match step {
            CheckStep::Configured(known) | CheckStep::ConfiguredRefresh(known) => {
                let left: Vec<Known> = keep_worth_trying(config, cluster, known, now);
                try_next(config, cluster, left, e, None, now)
            },
            CheckStep::Discovered(round) | CheckStep::DiscoveredRefresh(round) => {
                add_to_failed_host_list(cluster, round.current, now);
                try_next(
                    config,
                    cluster,
                    round.left,
                    round.config_err,
                    Some(e),
                    now,
                )
            },
            CheckStep::Done => (CheckStep::Done, CheckAction::Finish(Err(e))),
        },
    }
}

} // verus!
