//! What a load-balanced connection does next, from what has come of it.

use vstd::prelude::*;

use crate::cluster::ClusterView;
use crate::config::{ConfigView, Nanos};
use crate::connect::{choice_view, YbAction, YbActionView, YbStep, YbStepView};
use crate::error::{outcome_view, Error, ErrorView};
use crate::host::{Host, HostView};
use crate::laws::choice::{others_are_ruled_out_where_that_is_asked_for, others_ruled_out};
use crate::laws::counts::connections;

verus! {

/// Steps and actions stand for themselves.
pub proof fn connection_steps_stand_for_themselves(step: YbStep, action: YbAction)
    ensures
        match step {
            YbStep::Refreshing => step@ is Refreshing,
            YbStep::Selecting => step@ is Selecting,
            YbStep::Connecting(host) => step@ == YbStepView::Connecting(host@),
            YbStep::Done => step@ is Done,
        },
        match action {
            YbAction::Refresh => action@ is Refresh,
            YbAction::Select => action@ is Select,
            YbAction::Connect(target) => action@ == YbActionView::Connect(target@),
            YbAction::ConnectConfigured => action@ is ConnectConfigured,
            YbAction::Finish => action@ is Finish,
            YbAction::Fail(e) => action@ == YbActionView::Fail(e@),
        },
{
}

/// Choices and outcomes stand for themselves.
pub proof fn choices_and_outcomes_stand_for_themselves(
    chosen: Result<Host, Error>,
    outcome: Result<(), Error>,
)
    ensures
        match chosen {
            Ok(host) => choice_view(chosen) == Ok::<HostView, ErrorView>(host@),
            Err(e) => choice_view(chosen) == Err::<HostView, ErrorView>(e@),
        },
        match outcome {
            Ok(()) => outcome_view(outcome) is Ok,
            Err(e) => outcome_view(outcome) == Err::<(), ErrorView>(e@),
        },
{
}

/// Whether the caller accepts some servers only.
pub open spec fn accepts_some_only(config: ConfigView) -> bool {
    ||| config.load_balance == "only-rr"@
    ||| config.load_balance == "only-primary"@
    ||| others_ruled_out(config)
}

/// A caller that accepts one kind of server only, with or without placements, or
/// only servers of given placements, is never given the configured servers in place
/// of a server that could not be chosen: it gets the reason. Any other is.
pub proof fn a_caller_that_accepts_some_only_gets_the_reason(
    c: ClusterView,
    counts: Map<HostView, i64>,
    config: ConfigView,
    e: ErrorView,
    now: Nanos,
)
    ensures
        ({
            let done = c.selected(counts, config, Err(e), now);
            &&& accepts_some_only(config) ==> done.action == YbActionView::Fail(e)
            &&& !accepts_some_only(config) ==> done.action is ConnectConfigured
            &&& done.step is Done
            &&& done.cluster == c
            &&& done.counts == counts
        }),
{
    others_are_ruled_out_where_that_is_asked_for(config);
}

/// A server that is chosen is never answered with the configured servers, nor with
/// a failure.
pub proof fn a_chosen_server_is_gone_on_with(
    c: ClusterView,
    counts: Map<HostView, i64>,
    config: ConfigView,
    host: HostView,
    now: Nanos,
)
    ensures
        ({
            let action = c.selected(counts, config, Ok(host), now).action;
            action is Connect || action is Select
        }),
{
}

/// A server that is chosen is connected to at its own address, or at its public one
/// where those are used, at the port of that address and under its name, and one
/// more connection to the server is counted. Nothing else changes.
pub proof fn a_chosen_server_is_connected_to(
    c: ClusterView,
    counts: Map<HostView, i64>,
    config: ConfigView,
    host: HostView,
    now: Nanos,
    other: HostView,
)
    requires
        connections(counts, host) < i64::MAX,
        c.use_public_ip ==> c.public_hosts.contains_key(host),
    ensures
        ({
            let address = if c.use_public_ip {
                c.public_hosts[host]
            } else {
                host
            };
            let done = c.selected(counts, config, Ok(host), now);
            &&& done.step == YbStepView::Connecting(host)
            &&& done.action matches YbActionView::Connect(target)
            &&& target.host == address
            &&& target.port == c.ports[address]
            &&& target.hostname is Some <==> address is Tcp
            &&& target.hostname matches Some(name) ==> address == HostView::Tcp(name)
            &&& done.cluster == c
            &&& connections(done.counts, host) == connections(counts, host) + 1
            &&& other != host ==> connections(done.counts, other) == connections(counts, other)
        }),
{
}

/// A server that is chosen but has no public address, where those are used, is
/// marked as failed when it is chosen, and another one is to be chosen. No count
/// changes, but one of less than none, which no connection leaves behind.
pub proof fn a_chosen_server_without_an_address_is_marked(
    c: ClusterView,
    counts: Map<HostView, i64>,
    config: ConfigView,
    host: HostView,
    now: Nanos,
    other: HostView,
)
    requires
        connections(counts, host) < i64::MAX,
        c.use_public_ip,
        !c.public_hosts.contains_key(host),
    ensures
        ({
            let done = c.selected(counts, config, Ok(host), now);
            &&& done.step is Selecting
            &&& done.action is Select
            &&& done.cluster == (ClusterView { failed: c.failed.insert(host, now), ..c })
            &&& connections(done.counts, host) == if connections(counts, host) == -1 {
                0
            } else {
                connections(counts, host)
            }
            &&& other != host ==> connections(done.counts, other) == connections(counts, other)
        }),
{
}

/// A list of servers is followed by a choice. Without one, a caller that accepts
/// servers of given placements only gets the reason, and any other the configured
/// servers. Nothing changes.
pub proof fn a_list_of_servers_is_followed_by_a_choice(
    c: ClusterView,
    counts: Map<HostView, i64>,
    config: ConfigView,
    e: ErrorView,
    now: Nanos,
)
    ensures
        ({
            let went_well = c.stepped(counts, config, YbStepView::Refreshing, Ok(()), now);
            let failed = c.stepped(counts, config, YbStepView::Refreshing, Err(e), now);
            &&& went_well.step is Selecting
            &&& went_well.action is Select
            &&& went_well.cluster == c
            &&& went_well.counts == counts
            &&& failed.step is Done
            &&& others_ruled_out(config) ==> failed.action == YbActionView::Fail(e)
            &&& !others_ruled_out(config) ==> failed.action is ConnectConfigured
            &&& failed.cluster == c
            &&& failed.counts == counts
        }),
{
    others_are_ruled_out_where_that_is_asked_for(config);
}

/// A connection that is made is handed over, and nothing changes. A server that
/// could not be connected to is marked as failed then, one connection less to it is
/// counted, unless none is, and another one is to be chosen.
pub proof fn a_connection_attempt_is_followed_up(
    c: ClusterView,
    counts: Map<HostView, i64>,
    config: ConfigView,
    host: HostView,
    e: ErrorView,
    now: Nanos,
    other: HostView,
)
    requires
        connections(counts, host) > i64::MIN,
    ensures
        ({
            let made = c.stepped(counts, config, YbStepView::Connecting(host), Ok(()), now);
            let failed = c.stepped(counts, config, YbStepView::Connecting(host), Err(e), now);
            &&& made.step is Done
            &&& made.action is Finish
            &&& made.cluster == c
            &&& made.counts == counts
            &&& failed.step is Selecting
            &&& failed.action is Select
            &&& failed.cluster == (ClusterView { failed: c.failed.insert(host, now), ..c })
            &&& connections(failed.counts, host) == if connections(counts, host) == 0 {
                0
            } else {
                connections(counts, host) - 1
            }
            &&& other != host ==> connections(failed.counts, other) == connections(counts, other)
        }),
{
}

/// A connection that waits for a choice, or for nothing, goes on to do so, whatever
/// comes, and nothing changes.
pub proof fn a_connection_that_waits_for_nothing_stays(
    c: ClusterView,
    counts: Map<HostView, i64>,
    config: ConfigView,
    outcome: Result<(), ErrorView>,
    now: Nanos,
)
    ensures
        ({
            let choosing = c.stepped(counts, config, YbStepView::Selecting, outcome, now);
            let done = c.stepped(counts, config, YbStepView::Done, outcome, now);
            &&& choosing.step is Selecting
            &&& choosing.action is Select
            &&& choosing.cluster == c
            &&& choosing.counts == counts
            &&& done.step is Done
            &&& done.action is Finish
            &&& done.cluster == c
            &&& done.counts == counts
        }),
{
}

} // verus!
