//! What a check of the list of servers does next, from what has come of it.

use vstd::prelude::*;

use crate::cluster::ClusterView;
use crate::config::{ConfigView, Nanos};
use crate::control::{
    check_error, configured_text, known_views, not_established, optional_error, refreshed,
    CheckAction, CheckActionView, CheckOutcome, CheckStep, CheckStepView, Known, Round, RoundView,
};
use crate::error::{chain_text, Error, ErrorKind, ErrorView, IoErrorKind};
use crate::host::HostView;
use crate::laws::counts::{in_order, lemma_filter_places};
use crate::text::hosts_text;

verus! {

/// Steps, actions and rounds stand for themselves.
pub proof fn check_steps_stand_for_themselves(
    step: CheckStep,
    action: CheckAction,
    round: Round,
    known: Seq<Known>,
    i: int,
)
    ensures
        match step {
            CheckStep::Configured(k) => step@ == CheckStepView::Configured(known_views(k@)),
            CheckStep::ConfiguredRefresh(k) => step@ == CheckStepView::ConfiguredRefresh(
                known_views(k@),
            ),
            CheckStep::Discovered(r) => step@ == CheckStepView::Discovered(r@),
            CheckStep::DiscoveredRefresh(r) => step@ == CheckStepView::DiscoveredRefresh(r@),
            CheckStep::Done => step@ is Done,
        },
        match action {
            CheckAction::ConnectConfigured => action@ is ConnectConfigured,
            CheckAction::Connect(target) => action@ == CheckActionView::Connect(target@),
            CheckAction::Refresh => action@ is Refresh,
            CheckAction::Finish(Ok(())) => action@ == CheckActionView::Finish(Ok(())),
            CheckAction::Finish(Err(e)) => action@ == CheckActionView::Finish(Err(e@)),
        },
        round@.current == round.current@,
        round@.left == known_views(round.left@),
        round@.config_err == round.config_err@,
        match round.discovered_err {
            Some(e) => round@.discovered_err == Some(e@),
            None => round@.discovered_err is None,
        },
        known_views(known).len() == known.len(),
        0 <= i < known.len() ==> known_views(known)[i] == (known[i].host@, known[i].port),
{
}

/// The list of servers is recent enough if and only if a server is in it, the
/// interval is not zero, and no more time has passed since it was fetched.
pub proof fn a_list_is_recent_within_the_interval(
    c: ClusterView,
    config: ConfigView,
    fetched: Nanos,
    now: Nanos,
)
    ensures
        c.fresh(config, fetched, now) <==> {
            &&& exists|host: HostView|
                #![trigger c.primary.contains(host)]
                #![trigger c.rr.contains(host)]
                c.primary.contains(host) || c.rr.contains(host)
            &&& config.yb_servers_refresh_interval > 0
            &&& now <= fetched + config.yb_servers_refresh_interval
        },
{
    if c.primary.len() > 0 {
        assert(c.primary.contains(c.primary[0]));
    }
    if c.rr.len() > 0 {
        assert(c.rr.contains(c.rr[0]));
    }
}

/// The servers that are known are the primary ones, then the read replicas, each
/// with its port.
pub proof fn known_servers_have_their_ports(c: ClusterView, i: int)
    ensures
        c.known().len() == c.primary.len() + c.rr.len(),
        0 <= i < c.primary.len() ==> c.known()[i] == (c.primary[i], c.ports[c.primary[i]]),
        0 <= i < c.rr.len() ==> c.known()[c.primary.len() + i] == (c.rr[i], c.ports[c.rr[i]]),
{
}

/// Servers that are worth trying are tried in the order in which they are known,
/// each as often as it is.
pub proof fn servers_worth_trying_keep_their_order(
    c: ClusterView,
    known: Seq<(HostView, u16)>,
    config: ConfigView,
    now: Nanos,
)
    ensures
        exists|places: Seq<int>|
            {
                &&& #[trigger] in_order(places, known)
                &&& places.len() == c.worth_trying(known, config, now).len()
                &&& forall|i: int|
                    0 <= i < places.len() ==> c.worth_trying(known, config, now)[i]
                        == known[#[trigger] places[i]]
                &&& forall|k: int|
                    0 <= k < known.len() && (!c.failed.contains_key((#[trigger] known[k]).0) || now
                        > c.failed[known[k].0] + config.failed_host_reconnect_delay_secs)
                        ==> places.contains(k)
            },
{
    let p = |k: (HostView, u16)|
        !c.is_down(k.0, now, config.failed_host_reconnect_delay_secs);
    let places = lemma_filter_places(known, p);
    assert forall|k: int|
        0 <= k < known.len() && (!c.failed.contains_key((#[trigger] known[k]).0) || now
            > c.failed[known[k].0] + config.failed_host_reconnect_delay_secs) implies places.contains(
        k,
    ) by {
        assert(p(known[k]));
    }
    assert(in_order(places, known));
}

/// The error that a check fails with is that of the configured servers, where no
/// known one was tried; else it is a refused connection that gives both it and that
/// of the last known one, each with all its causes.
pub proof fn a_check_fails_with_what_went_wrong(
    config: ConfigView,
    config_err: ErrorView,
    discovered: ErrorView,
)
    ensures
        check_error(config, config_err, None) == config_err,
        ({
            let e = check_error(config, config_err, Some(discovered));
            &&& e.kind == ErrorKind::Connect(IoErrorKind::ConnectionRefused)
            &&& e.message == "error connecting to server"@
            &&& e.causes == seq![
                "could not create control connection: configured host(s) "@ + hosts_text(
                    config.host,
                ) + ": "@ + chain_text(config_err.message, config_err.causes)
                    + "; last discovered server: "@ + chain_text(
                    discovered.message,
                    discovered.causes,
                ),
            ]
        }),
{
}

/// A connection that takes too long is a failure that says so, of the server that it
/// was meant for.
pub proof fn a_slow_control_connection_is_a_failure(config: ConfigView, target: Seq<char>)
    ensures
        not_established(target).kind == ErrorKind::Connect(IoErrorKind::TimedOut),
        not_established(target).message == "error connecting to server"@,
        not_established(target).causes == seq![
            "control connection to "@ + target + " was not established within 15s"@,
        ],
        configured_text(config) == "configured host(s) "@ + hosts_text(config.host),
{
}

/// Whether `after` connects to the server `host`, known with `port`, and keeps what
/// is left and what has gone wrong.
pub open spec fn connects_to(
    c: ClusterView,
    host: HostView,
    port: u16,
    left: Seq<(HostView, u16)>,
    config_err: ErrorView,
    discovered_err: Option<ErrorView>,
    after: CheckOutcome,
) -> bool {
    let address = if c.use_public_ip {
        c.public_hosts[host]
    } else {
        host
    };
    &&& after.step == CheckStepView::Discovered(
        RoundView { current: host, left, config_err, discovered_err },
    )
    &&& after.action matches CheckActionView::Connect(target)
    &&& target.host == address
    &&& target.port == if c.use_public_ip {
        c.ports[address]
    } else {
        port
    }
    &&& target.hostname is Some <==> address is Tcp
    &&& target.hostname matches Some(name) ==> address == HostView::Tcp(name)
}

/// The first server that is left is connected to, at its own address and the port
/// that it is known with, or at its public address where those are used. One that
/// has none then is marked as failed, and the next one is tried. Where none is left,
/// the check fails.
pub proof fn the_next_server_is_tried(
    c: ClusterView,
    config: ConfigView,
    left: Seq<(HostView, u16)>,
    config_err: ErrorView,
    discovered_err: Option<ErrorView>,
    now: Nanos,
)
    ensures
        ({
            let after = c.tried(config, left, config_err, discovered_err, now);
            &&& left.len() == 0 ==> {
                &&& after.cluster == c
                &&& after.step is Done
                &&& after.action == CheckActionView::Finish(
                    Err(check_error(config, config_err, discovered_err)),
                )
            }
            &&& left.len() > 0 && (!c.use_public_ip || c.public_hosts.contains_key(left[0].0)) ==> {
                &&& after.cluster == c
                &&& connects_to(
                    c,
                    left[0].0,
                    left[0].1,
                    left.drop_first(),
                    config_err,
                    discovered_err,
                    after,
                )
            }
            &&& left.len() > 0 && c.use_public_ip && !c.public_hosts.contains_key(left[0].0) ==> {
                after == (ClusterView {
                    failed: c.failed.insert(left[0].0, now),
                    ..c
                }).tried(config, left.drop_first(), config_err, discovered_err, now)
            }
        }),
{
}

/// A connection is used for the list of servers, over whichever server it is; the
/// list ends the check well. Nothing changes by either, but the time of the list.
pub proof fn a_connection_is_used_for_the_list(
    c: ClusterView,
    config: ConfigView,
    known: Seq<(HostView, u16)>,
    round: RoundView,
    now: Nanos,
)
    ensures
        ({
            let configured = c.checked(config, CheckStepView::Configured(known), Ok(()), now);
            let discovered = c.checked(config, CheckStepView::Discovered(round), Ok(()), now);
            &&& configured.step == CheckStepView::ConfiguredRefresh(known)
            &&& configured.action is Refresh
            &&& configured.cluster == c
            &&& discovered.step == CheckStepView::DiscoveredRefresh(round)
            &&& discovered.action is Refresh
            &&& discovered.cluster == c
        }),
        ({
            let configured = c.checked(
                config,
                CheckStepView::ConfiguredRefresh(known),
                Ok(()),
                now,
            );
            let discovered = c.checked(
                config,
                CheckStepView::DiscoveredRefresh(round),
                Ok(()),
                now,
            );
            &&& configured.step is Done
            &&& configured.action == CheckActionView::Finish(Ok(()))
            &&& configured.cluster == c
            &&& discovered.step is Done
            &&& discovered.action == CheckActionView::Finish(Ok(()))
            &&& discovered.cluster == c
        }),
        refreshed(CheckStepView::ConfiguredRefresh(known), Ok(())),
        refreshed(CheckStepView::DiscoveredRefresh(round), Ok(())),
        !refreshed(CheckStepView::Configured(known), Ok(())),
        !refreshed(CheckStepView::Discovered(round), Ok(())),
        !refreshed(CheckStepView::Done, Ok(())),
        forall|step: CheckStepView, e: ErrorView| !#[trigger] refreshed(step, Err(e)),
{
}

/// Where the configured servers cannot be connected to, or do not have the list, the
/// known ones that are worth trying are, from the first on. Where a known one cannot
/// be connected to, or does not have the list, it is marked as failed, and those
/// that are left are tried. What went wrong is kept.
pub proof fn a_failed_step_is_followed_by_the_next_server(
    c: ClusterView,
    config: ConfigView,
    known: Seq<(HostView, u16)>,
    round: RoundView,
    e: ErrorView,
    now: Nanos,
)
    ensures
        c.checked(config, CheckStepView::Configured(known), Err(e), now) == c.tried(
            config,
            c.worth_trying(known, config, now),
            e,
            None,
            now,
        ),
        c.checked(config, CheckStepView::ConfiguredRefresh(known), Err(e), now) == c.tried(
            config,
            c.worth_trying(known, config, now),
            e,
            None,
            now,
        ),
        c.checked(config, CheckStepView::Discovered(round), Err(e), now) == (ClusterView {
            failed: c.failed.insert(round.current, now),
            ..c
        }).tried(config, round.left, round.config_err, Some(e), now),
        c.checked(config, CheckStepView::DiscoveredRefresh(round), Err(e), now) == (ClusterView {
            failed: c.failed.insert(round.current, now),
            ..c
        }).tried(config, round.left, round.config_err, Some(e), now),
{
}

/// A check that is done stays so, and nothing changes.
pub proof fn a_check_that_is_done_stays_done(
    c: ClusterView,
    config: ConfigView,
    outcome: Result<(), ErrorView>,
    now: Nanos,
)
    ensures
        ({
            let after = c.checked(config, CheckStepView::Done, outcome, now);
            &&& after.step is Done
            &&& after.action == CheckActionView::Finish(outcome)
            &&& after.cluster == c
        }),
{
}

/// An optional error stands for itself.
pub proof fn an_optional_error_stands_for_itself(e: Option<Error>)
    ensures
        match e {
            Some(error) => optional_error(e) == Some(error@),
            None => optional_error(e) is None,
        },
{
}

} // verus!
