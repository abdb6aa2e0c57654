//! A load-balanced connection, step by step.
//!
//! The caller performs each action that it is given and says how it went. What
//! comes next is decided here.

use vstd::prelude::*;

use crate::balance::keys_only;
use crate::cluster::{add_to_failed_host_list, ClusterState, ClusterView};
use crate::config::{check_hosts, Config, ConfigView, Nanos};
use crate::counts::{
    decrease_connection_count, decreased, increase_connection_count, increased, load,
};
use crate::error::{outcome_view, Error, ErrorView};
use crate::host::{Host, HostView};
use crate::host_map::HostMap;
use crate::target::{make_target, target_of, Target, TargetView};
use crate::text::is_text;

verus! {

/// What a load-balanced connection is waiting for.
#[derive(Debug, PartialEq, Eq)]
pub enum YbStep {
    /// The list of servers.
    Refreshing,
    /// The choice of a server.
    Selecting,
    /// A connection to this server.
    Connecting(Host),
    /// Nothing.
    Done,
}

/// What to do next for a load-balanced connection.
#[derive(Debug, PartialEq, Eq)]
pub enum YbAction {
    /// Bring the list of servers up to date.
    Refresh,
    /// Choose a server.
    Select,
    /// Connect to this server.
    Connect(Target),
    /// Connect to the configured servers, in place of those of the cluster.
    ConnectConfigured,
    /// Hand the connection over.
    Finish,
    /// Fail.
    Fail(Error),
}

/// What a [`YbStep`] stands for.
pub enum YbStepView {
    Refreshing,
    Selecting,
    Connecting(HostView),
    Done,
}

/// What a [`YbAction`] stands for.
pub enum YbActionView {
    Refresh,
    Select,
    Connect(TargetView),
    ConnectConfigured,
    Finish,
    Fail(ErrorView),
}

impl View for YbStep {
    type V = YbStepView;

    open spec fn view(&self) -> YbStepView {
        match self {
            YbStep::Refreshing => YbStepView::Refreshing,
            YbStep::Selecting => YbStepView::Selecting,
            YbStep::Connecting(host) => YbStepView::Connecting(host@),
            YbStep::Done => YbStepView::Done,
        }
    }
}

impl View for YbAction {
    type V = YbActionView;

    open spec fn view(&self) -> YbActionView {
        match self {
            YbAction::Refresh => YbActionView::Refresh,
            YbAction::Select => YbActionView::Select,
            YbAction::Connect(target) => YbActionView::Connect(target@),
            YbAction::ConnectConfigured => YbActionView::ConnectConfigured,
            YbAction::Finish => YbActionView::Finish,
            YbAction::Fail(e) => YbActionView::Fail(e@),
        }
    }
}

/// What holds after a step: what is known of the cluster, the connection counts,
/// what is waited for, and what to do.
pub struct YbOutcome {
    pub cluster: ClusterView,
    pub counts: Map<HostView, i64>,
    pub step: YbStepView,
    pub action: YbActionView,
}

impl ConfigView {
    /// Whether the caller has restricted the servers that it accepts, so that
    /// the configured ones will not do in place of those.
    pub open spec fn restricted(self) -> bool {
        ||| self.load_balance == "only-rr"@
        ||| self.load_balance == "only-primary"@
        ||| self.keys_only()
    }
}

impl ClusterView {
    /// The address that a connection to `host` goes to, if there is one.
    pub open spec fn address(self, host: HostView) -> Option<HostView> {
        if !self.use_public_ip {
            Some(host)
        } else if self.public_hosts.contains_key(host) {
            Some(self.public_hosts[host])
        } else {
            None
        }
    }

    /// What follows from the choice of a server, or from there being none.
    ///
    /// The connection is counted for the server that was chosen. One that has no
    /// public address, where that is what connections go to, is marked as failed
    /// and no longer counted, and another is chosen.
    pub open spec fn selected(
        self,
        counts: Map<HostView, i64>,
        config: ConfigView,
        chosen: Result<HostView, ErrorView>,
        now: Nanos,
    ) -> YbOutcome {
        match chosen {
            Err(e) => YbOutcome {
                cluster: self,
                counts,
                step: YbStepView::Done,
                action: if config.restricted() {
                    YbActionView::Fail(e)
                } else {
                    YbActionView::ConnectConfigured
                },
            },
            Ok(host) => match self.address(host) {
                Some(address) => YbOutcome {
                    cluster: self,
                    counts: increased(counts, host),
                    step: YbStepView::Connecting(host),
                    action: YbActionView::Connect(target_of(address, self.ports[address])),
                },
                None => YbOutcome {
                    cluster: self.mark_failed(host, now),
                    counts: decreased(increased(counts, host), host),
                    step: YbStepView::Selecting,
                    action: YbActionView::Select,
                },
            },
        }
    }

    /// What follows once what `step` waits for has come or failed.
    ///
    /// Without a list of servers, the configured ones are connected to, unless
    /// servers outside the given placements are ruled out. A server that could not
    /// be connected to is marked as failed and no longer counted, and another one
    /// is chosen.
    pub open spec fn stepped(
        self,
        counts: Map<HostView, i64>,
        config: ConfigView,
        step: YbStepView,
        outcome: Result<(), ErrorView>,
        now: Nanos,
    ) -> YbOutcome {
        match (step, outcome) {
            (YbStepView::Refreshing, Err(e)) => YbOutcome {
                cluster: self,
                counts,
                step: YbStepView::Done,
                action: if config.keys_only() {
                    YbActionView::Fail(e)
                } else {
                    YbActionView::ConnectConfigured
                },
            },
            (YbStepView::Connecting(host), Err(_)) => YbOutcome {
                cluster: self.mark_failed(host, now),
                counts: decreased(counts, host),
                step: YbStepView::Selecting,
                action: YbActionView::Select,
            },
            (YbStepView::Refreshing, Ok(())) | (YbStepView::Selecting, _) => YbOutcome {
                cluster: self,
                counts,
                step: YbStepView::Selecting,
                action: YbActionView::Select,
            },
            (YbStepView::Connecting(_), Ok(())) | (YbStepView::Done, _) => YbOutcome {
                cluster: self,
                counts,
                step: YbStepView::Done,
                action: YbActionView::Finish,
            },
        }
    }
}

/// Begins a load-balanced connection: checks the settings, then asks for the
/// list of servers.
pub fn yb_connect_start(config: &Config) -> (r: (YbStep, YbAction))
    ensures
        match config@.problem() {
            Some(e) => r.0@ == YbStepView::Done && r.1@ == YbActionView::Fail(e),
            None => r.0@ == YbStepView::Refreshing && r.1@ == YbActionView::Refresh,
        },
{
    match check_hosts(config) {
        Ok(_) => (YbStep::Refreshing, YbAction::Refresh),
        Err(e) => (YbStep::Done, YbAction::Fail(e)),
    }
}

/// What a choice of server stands for.
pub open spec fn choice_view(chosen: Result<Host, Error>) -> Result<HostView, ErrorView> {
    match chosen {
        Ok(host) => Ok(host@),
        Err(e) => Err(e@),
    }
}

/// Goes on with the server that was chosen, or without one.
pub fn yb_connect_select(
    config: &Config,
    cluster: &mut ClusterState,
    conn_map: &mut HostMap<i64>,
    chosen: Result<Host, Error>,
    now: Nanos,
) -> (r: (YbStep, YbAction))
    requires
        old(cluster)@.wf(),
        chosen matches Ok(host) ==> {
            &&& load(old(conn_map)@, host@) < i64::MAX
            &&& !old(cluster)@.use_public_ip ==> old(cluster)@.ports.contains_key(host@)
        },
    ensures
        final(cluster)@.wf(),
        ({
            let outcome = old(cluster)@.selected(
                old(conn_map)@,
                config@,
                choice_view(chosen),
                now,
            );
            &&& final(cluster)@ == outcome.cluster
            &&& final(conn_map)@ == outcome.counts
            &&& r.0@ == outcome.step
            &&& r.1@ == outcome.action
        }),
{
    let host: Host = match chosen {
        Ok(host) => host,
        Err(e) => {
            if is_text(&config.load_balance, "only-rr") || is_text(
                &config.load_balance,
                "only-primary",
            ) || keys_only(config) {
                return (YbStep::Done, YbAction::Fail(e));
            }
            return (YbStep::Done, YbAction::ConnectConfigured);
        },
    };
    increase_connection_count(conn_map, host.clone());
    let address: Host = if cluster.use_public_ip() {
        match cluster.public_host(&host) {
            Some(public) => public.clone(),
            None => {
                decrease_connection_count(conn_map, host.clone());
                add_to_failed_host_list(cluster, host, now);
                return (YbStep::Selecting, YbAction::Select);
            },
        }
    } else {
        host.clone()
    };
    assert(cluster@.public_hosts.contains_key(host@) ==> cluster@.ports.contains_key(
        cluster@.public_hosts[host@],
    ));
    let port: u16 = cluster.port(&address).unwrap();
    (YbStep::Connecting(host), YbAction::Connect(make_target(address, port)))
}

/// Goes on once what `step` waits for has come or failed.
pub fn yb_connect_step(
    config: &Config,
    cluster: &mut ClusterState,
    conn_map: &mut HostMap<i64>,
    step: YbStep,
    outcome: Result<(), Error>,
    now: Nanos,
) -> (r: (YbStep, YbAction))
    requires
        step matches YbStep::Connecting(host) ==> load(old(conn_map)@, host@) > i64::MIN,
    ensures
        old(cluster)@.wf() ==> final(cluster)@.wf(),
        ({
            let after = old(cluster)@.stepped(
                old(conn_map)@,
                config@,
                step@,
                outcome_view(outcome),
                now,
            );
            &&& final(cluster)@ == after.cluster
            &&& final(conn_map)@ == after.counts
            &&& r.0@ == after.step
            &&& r.1@ == after.action
        }),
{
    match step {
        YbStep::Refreshing => match outcome {
            Ok(()) => (YbStep::Selecting, YbAction::Select),
            Err(e) => if keys_only(config) {
                (YbStep::Done, YbAction::Fail(e))
            } else {
                (YbStep::Done, YbAction::ConnectConfigured)
            },
        },
        YbStep::Selecting => (YbStep::Selecting, YbAction::Select),
        YbStep::Connecting(host) => if outcome.is_ok() {
            (YbStep::Done, YbAction::Finish)
        } else {
            decrease_connection_count(conn_map, host.clone());
            add_to_failed_host_list(cluster, host, now);
            (YbStep::Selecting, YbAction::Select)
        },
        YbStep::Done => (YbStep::Done, YbAction::Finish),
    }
}

} // verus!
