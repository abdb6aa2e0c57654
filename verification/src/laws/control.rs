//! What holds of control connections, and of a check of the list of servers.

use vstd::prelude::*;

use crate::cluster::ClusterView;
use crate::config::{bounded_timeout, ConfigView, Nanos, CONNECT_TIMEOUT, SOCKET_TIMEOUT};
use crate::control::{CheckActionView, CheckOutcome, CheckStepView, RoundView};
use crate::error::ErrorView;
use crate::host::HostView;
use crate::least_loaded::lemma_filter_contains;

verus! {

/// The TCP connect of a control connection is bounded, by the bound of its own and
/// by the one that is configured, and leaves time for the rest.
pub proof fn a_control_connection_is_bounded(timeout: Option<Nanos>)
    ensures
        bounded_timeout(timeout) <= CONNECT_TIMEOUT < SOCKET_TIMEOUT,
        timeout matches Some(t) ==> bounded_timeout(timeout) <= t,
        bounded_timeout(Some(bounded_timeout(timeout))) == bounded_timeout(timeout),
{
}

/// A list of servers that has one in it is used again for the interval that is
/// configured, where that is not zero, and no longer.
pub proof fn a_list_is_used_again_for_the_interval(
    c: ClusterView,
    config: ConfigView,
    fetched: Nanos,
    now: Nanos,
    host: HostView,
)
    requires
        c.listed(host),
        config.yb_servers_refresh_interval > 0,
        fetched <= now,
    ensures
        c.fresh(config, fetched, now) <==> now - fetched <= config.yb_servers_refresh_interval,
{
    assert(c.primary.len() + c.rr.len() > 0);
}

/// An interval of zero has the list of servers fetched for every connection.
pub proof fn an_interval_of_zero_always_fetches(
    c: ClusterView,
    config: ConfigView,
    fetched: Nanos,
    now: Nanos,
)
    requires
        config.yb_servers_refresh_interval == 0,
    ensures
        !c.fresh(config, fetched, now),
{
}

/// As long as no server is known, the list of servers is fetched.
pub proof fn an_empty_list_is_always_fetched(
    c: ClusterView,
    config: ConfigView,
    fetched: Nanos,
    now: Nanos,
)
    requires
        forall|host: HostView| !c.listed(host),
    ensures
        !c.fresh(config, fetched, now),
{
    if c.primary.len() > 0 {
        assert(c.listed(c.primary[0]));
    }
    if c.rr.len() > 0 {
        assert(c.listed(c.rr[0]));
    }
}

impl CheckStepView {
    /// The servers that are left to try after the one that is being tried.
    pub open spec fn left(self) -> Seq<(HostView, u16)> {
        match self {
            CheckStepView::Configured(known) => known,
            CheckStepView::ConfiguredRefresh(known) => known,
            CheckStepView::Discovered(round) => round.left,
            CheckStepView::DiscoveredRefresh(round) => round.left,
            CheckStepView::Done => Seq::empty(),
        }
    }

    /// The round of attempts at the known servers that is under way.
    pub open spec fn round(self) -> RoundView
        recommends
            self is Discovered || self is DiscoveredRefresh,
    {
        match self {
            CheckStepView::Discovered(round) => round,
            _ => self->DiscoveredRefresh_0,
        }
    }

    /// A bound on the steps that are left.
    pub open spec fn steps_left(self) -> nat {
        match self {
            CheckStepView::Configured(_) | CheckStepView::Discovered(_) => 2 * self.left().len()
                + 2,
            CheckStepView::ConfiguredRefresh(_) | CheckStepView::DiscoveredRefresh(_) => 2
                * self.left().len() + 1,
            CheckStepView::Done => 0,
        }
    }
}

proof fn lemma_filter_len<A>(s: Seq<A>, p: spec_fn(A) -> bool)
    ensures
        s.filter(p).len() <= s.len(),
    decreases s.len(),
{
    reveal(Seq::filter);
    if s.len() > 0 {
        lemma_filter_len(s.drop_last(), p);
    }
}

impl ClusterView {
    /// Whether there is an address to connect to `host` by.
    pub open spec fn reachable(self, host: HostView) -> bool {
        !self.use_public_ip || self.public_hosts.contains_key(host)
    }

    /// The servers that are tried next, once `step` has failed.
    pub open spec fn next_to_try(
        self,
        config: ConfigView,
        step: CheckStepView,
        now: Nanos,
    ) -> Seq<(HostView, u16)> {
        if step is Configured || step is ConfiguredRefresh {
            self.worth_trying(step.left(), config, now)
        } else {
            step.left()
        }
    }

    /// Whether there is no address for `host`, and it is marked as failed at `now`
    /// in `after`.
    pub open spec fn passes_over(self, host: HostView, now: Nanos, after: ClusterView) -> bool {
        &&& !self.reachable(host)
        &&& after.failed.contains_key(host)
        &&& after.failed[host] == now
    }

    /// Whether `after` follows from trying `left` in order: the first server that
    /// there is an address for is connected to, the ones after it are left, and
    /// those before it are marked as failed; where there is none, the check fails.
    pub open spec fn tries(
        self,
        left: Seq<(HostView, u16)>,
        now: Nanos,
        after: CheckOutcome,
    ) -> bool {
        ||| {
            &&& after.action matches CheckActionView::Finish(Err(_))
            &&& after.step == CheckStepView::Done
            &&& forall|j: int|
                0 <= j < left.len() ==> self.passes_over((#[trigger] left[j]).0, now, after.cluster)
        }
        ||| {
            &&& after.action is Connect
            &&& after.step matches CheckStepView::Discovered(round)
            &&& exists|k: int|
                {
                    &&& 0 <= k < left.len()
                    &&& round.current == (#[trigger] left[k]).0
                    &&& round.left == left.skip(k + 1)
                    &&& self.reachable(left[k].0)
                    &&& forall|j: int|
                        0 <= j < k ==> self.passes_over((#[trigger] left[j]).0, now, after.cluster)
                }
        }
    }

    /// Whether `after` is the same, but for servers that are marked as failed at
    /// `now`.
    pub open spec fn only_marks(self, now: Nanos, after: ClusterView) -> bool {
        &&& after == ClusterView { failed: after.failed, ..self }
        &&& forall|h: HostView| #[trigger]
            self.failed.contains_key(h) ==> after.failed.contains_key(h)
        &&& forall|h: HostView| #[trigger]
            after.failed.contains_key(h) ==> after.failed[h] == now || (self.failed.contains_key(h)
                && after.failed[h] == self.failed[h])
    }
}

proof fn lemma_only_marks(c: ClusterView, host: HostView, now: Nanos, after: ClusterView)
    requires
        c.mark_failed(host, now).only_marks(now, after),
    ensures
        c.only_marks(now, after),
        after.failed.contains_key(host),
        after.failed[host] == now,
{
    let next = c.mark_failed(host, now);
    assert(next.failed.contains_key(host));
    assert forall|h: HostView| #[trigger] c.failed.contains_key(h) implies after.failed.contains_key(
        h,
    ) by {
        assert(next.failed.contains_key(h));
    }
}

/// Of the servers that are known, a check tries those that are not marked as
/// failed, and those that have been for longer than the reconnect delay.
pub proof fn servers_that_are_down_are_not_tried(
    c: ClusterView,
    known: Seq<(HostView, u16)>,
    config: ConfigView,
    now: Nanos,
    server: (HostView, u16),
)
    ensures
        c.worth_trying(known, config, now).contains(server) <==> known.contains(server)
            && !c.is_down(server.0, now, config.failed_host_reconnect_delay_secs),
{
    lemma_filter_contains(
        known,
        |k: (HostView, u16)| !c.is_down(k.0, now, config.failed_host_reconnect_delay_secs),
        server,
    );
}

/// Servers are tried in order, each that there is an address for; a check fails
/// only when none is left. It changes nothing but marks of failure.
pub proof fn servers_are_tried_in_order(
    c: ClusterView,
    config: ConfigView,
    left: Seq<(HostView, u16)>,
    config_err: ErrorView,
    discovered_err: Option<ErrorView>,
    now: Nanos,
)
    ensures
        c.tries(left, now, c.tried(config, left, config_err, discovered_err, now)),
        c.only_marks(now, c.tried(config, left, config_err, discovered_err, now).cluster),
    decreases left.len(),
{
    let after = c.tried(config, left, config_err, discovered_err, now);
    if left.len() > 0 {
        let host = left[0].0;
        let rest = left.drop_first();
        if !c.reachable(host) {
            let next = c.mark_failed(host, now);
            servers_are_tried_in_order(next, config, rest, config_err, discovered_err, now);
            lemma_only_marks(c, host, now, after.cluster);
            assert(forall|h: HostView| #[trigger] next.reachable(h) == c.reachable(h));
            assert(forall|j: int| 0 < j < left.len() ==> #[trigger] left[j] == rest[j - 1]);
            if after.action is Connect {
                let round = after.step->Discovered_0;
                let k = choose|k: int|
                    {
                        &&& 0 <= k < rest.len()
                        &&& round.current == (#[trigger] rest[k]).0
                        &&& round.left == rest.skip(k + 1)
                        &&& next.reachable(rest[k].0)
                        &&& forall|j: int|
                            0 <= j < k ==> next.passes_over(
                                (#[trigger] rest[j]).0,
                                now,
                                after.cluster,
                            )
                    };
                assert(left[k + 1] == rest[k]);
                assert(left.skip(k + 2) =~= rest.skip(k + 1));
            }
        } else {
            assert(left.skip(1) =~= left.drop_first());
            assert(c.tries(left, now, after)) by {
                assert(left[0].0 == host);
            }
        }
    }
}

/// Every step of a check leaves fewer steps to take, whatever comes of it: a check
/// ends, and no more connections are attempted than servers are known.
pub proof fn a_check_ends(
    c: ClusterView,
    config: ConfigView,
    step: CheckStepView,
    outcome: Result<(), ErrorView>,
    now: Nanos,
)
    requires
        step !is Done,
    ensures
        c.checked(config, step, outcome, now).step.steps_left() < step.steps_left(),
{
    let after = c.checked(config, step, outcome, now);
    if outcome is Err {
        match step {
            CheckStepView::Configured(known) | CheckStepView::ConfiguredRefresh(known) => {
                let worth = c.worth_trying(known, config, now);
                lemma_filter_len(
                    known,
                    |k: (HostView, u16)|
                        !c.is_down(k.0, now, config.failed_host_reconnect_delay_secs),
                );
                servers_are_tried_in_order(c, config, worth, outcome->Err_0, None, now);
            },
            CheckStepView::Discovered(round) | CheckStepView::DiscoveredRefresh(round) => {
                servers_are_tried_in_order(
                    c.mark_failed(round.current, now),
                    config,
                    round.left,
                    round.config_err,
                    Some(outcome->Err_0),
                    now,
                );
            },
            CheckStepView::Done => {},
        }
    }
}

/// A server that a check gives up on is marked as failed.
pub proof fn a_server_given_up_on_is_marked(
    c: ClusterView,
    config: ConfigView,
    step: CheckStepView,
    e: ErrorView,
    now: Nanos,
)
    requires
        step is Discovered || step is DiscoveredRefresh,
    ensures
        ({
            let after = c.checked(config, step, Err(e), now);
            &&& after.cluster.failed.contains_key(step.round().current)
            &&& after.cluster.failed[step.round().current] == now
        }),
{
    let round = step.round();
    servers_are_tried_in_order(
        c.mark_failed(round.current, now),
        config,
        round.left,
        round.config_err,
        Some(e),
        now,
    );
    lemma_only_marks(
        c,
        round.current,
        now,
        c.checked(config, step, Err(e), now).cluster,
    );
}

/// A check that fails has no server left that it could have tried.
pub proof fn a_check_fails_only_when_no_server_is_left(
    c: ClusterView,
    config: ConfigView,
    step: CheckStepView,
    e: ErrorView,
    now: Nanos,
)
    requires
        step !is Done,
        c.checked(config, step, Err(e), now).action is Finish,
    ensures
        forall|j: int|
            0 <= j < c.next_to_try(config, step, now).len() ==> !c.reachable(
                (#[trigger] c.next_to_try(config, step, now)[j]).0,
            ),
{
    match step {
        CheckStepView::Configured(known) | CheckStepView::ConfiguredRefresh(known) => {
            servers_are_tried_in_order(
                c,
                config,
                c.worth_trying(known, config, now),
                e,
                None,
                now,
            );
        },
        CheckStepView::Discovered(round) | CheckStepView::DiscoveredRefresh(round) => {
            let next = c.mark_failed(round.current, now);
            servers_are_tried_in_order(
                next,
                config,
                round.left,
                round.config_err,
                Some(e),
                now,
            );
            assert(forall|h: HostView| #[trigger] next.reachable(h) == c.reachable(h));
        },
        CheckStepView::Done => {},
    }
}

/// Whether `host` is one of `servers`.
pub open spec fn among(servers: Seq<(HostView, u16)>, host: HostView) -> bool {
    exists|i: int| 0 <= i < servers.len() && (#[trigger] servers[i]).0 == host
}

proof fn lemma_among(servers: Seq<(HostView, u16)>, host: HostView)
    requires
        servers.len() > 0,
    ensures
        among(servers, host) <==> servers[0].0 == host || among(servers.drop_first(), host),
{
    let rest = servers.drop_first();
    if among(rest, host) {
        let i = choose|i: int| 0 <= i < rest.len() && (#[trigger] rest[i]).0 == host;
        assert(servers[i + 1] == rest[i]);
    }
    if among(servers, host) && servers[0].0 != host {
        let i = choose|i: int| 0 <= i < servers.len() && (#[trigger] servers[i]).0 == host;
        assert(rest[i - 1] == servers[i]);
    }
}

impl CheckStepView {
    /// Whether `host` is the server that is being tried, or is left to try.
    pub open spec fn pending(self, host: HostView) -> bool {
        (self is Discovered || self is DiscoveredRefresh) && (self.round().current == host || among(
            self.left(),
            host,
        ))
    }
}

/// Every server that is to be tried is marked as failed anew, being tried, or left
/// to try; no other is touched.
proof fn lemma_tried_marks(
    c: ClusterView,
    config: ConfigView,
    left: Seq<(HostView, u16)>,
    config_err: ErrorView,
    discovered_err: Option<ErrorView>,
    now: Nanos,
    host: HostView,
)
    ensures
        ({
            let after = c.tried(config, left, config_err, discovered_err, now);
            &&& after.cluster.failed.contains_key(host) || after.step.pending(host)
                <==> c.failed.contains_key(host) || among(left, host)
            &&& c.failed.contains_key(host) ==> after.cluster.failed.contains_key(host)
            &&& after.step.pending(host) ==> among(left, host)
            &&& c.failed.contains_key(host) && !among(left, host)
                ==> after.cluster.failed[host] == c.failed[host]
            &&& among(left, host) && !after.step.pending(host) ==> after.cluster.failed[host]
                == now
        }),
    decreases left.len(),
{
    if left.len() > 0 {
        lemma_among(left, host);
        if !c.reachable(left[0].0) {
            lemma_tried_marks(
                c.mark_failed(left[0].0, now),
                config,
                left.drop_first(),
                config_err,
                discovered_err,
                now,
                host,
            );
        }
    }
}

/// What came of what a check waited for, and when.
pub struct CheckEvent {
    pub outcome: Result<(), ErrorView>,
    pub now: Nanos,
}

/// Whether one of `events` came at `time`.
pub open spec fn came_at(events: Seq<CheckEvent>, time: Nanos) -> bool {
    exists|i: int| 0 <= i < events.len() && (#[trigger] events[i]).now == time
}

proof fn lemma_came_later(events: Seq<CheckEvent>, time: Nanos)
    requires
        events.len() > 0,
        came_at(events.drop_first(), time),
    ensures
        came_at(events, time),
{
    let rest = events.drop_first();
    let i = choose|i: int| 0 <= i < rest.len() && (#[trigger] rest[i]).now == time;
    assert(events[i + 1] == rest[i]);
}

impl ClusterView {
    /// What follows from a check that is at `step`, once all of `events` have come,
    /// or once it is done.
    pub open spec fn after_check(
        self,
        config: ConfigView,
        step: CheckStepView,
        events: Seq<CheckEvent>,
    ) -> CheckOutcome
        recommends
            events.len() > 0,
        decreases events.len(),
    {
        let next = self.checked(config, step, events[0].outcome, events[0].now);
        if events.len() <= 1 || next.step is Done {
            next
        } else {
            next.cluster.after_check(config, next.step, events.drop_first())
        }
    }

    /// The servers that a check tries that began with `known`, once no configured
    /// server has brought the list of servers: either none could be connected to,
    /// or the one that could did not have it.
    pub open spec fn check_candidates(
        self,
        config: ConfigView,
        known: Seq<(HostView, u16)>,
        events: Seq<CheckEvent>,
    ) -> Seq<(HostView, u16)> {
        self.worth_trying(
            known,
            config,
            if events[0].outcome is Err {
                events[0].now
            } else {
                events[1].now
            },
        )
    }
}

/// A check that fails at the known servers marks the one that it is at and all that
/// are left anew, and nothing else changes.
proof fn lemma_failed_round(
    c: ClusterView,
    config: ConfigView,
    step: CheckStepView,
    events: Seq<CheckEvent>,
    host: HostView,
)
    requires
        events.len() > 0,
        step is Discovered || step is DiscoveredRefresh,
        c.after_check(config, step, events).action matches CheckActionView::Finish(Err(_)),
    ensures
        ({
            let after = c.after_check(config, step, events).cluster;
            &&& after == ClusterView { failed: after.failed, ..c }
            &&& after.failed.contains_key(host) <==> c.failed.contains_key(host) || step.pending(
                host,
            )
            &&& c.failed.contains_key(host) && !step.pending(host) ==> after.failed[host]
                == c.failed[host]
            &&& step.pending(host) ==> came_at(events, after.failed[host])
        }),
    decreases events.len(),
{
    let round = step.round();
    let now = events[0].now;
    let next = c.checked(config, step, events[0].outcome, now);
    let after = c.after_check(config, step, events).cluster;
    assert(came_at(events, now));
    if events[0].outcome is Err {
        let e = events[0].outcome->Err_0;
        let marked = c.mark_failed(round.current, now);
        servers_are_tried_in_order(
            marked,
            config,
            round.left,
            round.config_err,
            Some(e),
            now,
        );
        lemma_tried_marks(
            marked,
            config,
            round.left,
            round.config_err,
            Some(e),
            now,
            host,
        );
    }
    if events.len() > 1 && next.step !is Done {
        lemma_failed_round(next.cluster, config, next.step, events.drop_first(), host);
        if next.step.pending(host) {
            lemma_came_later(events, after.failed[host]);
        }
    }
}

/// A check that fails, from its beginning on, marks exactly the servers that were
/// worth trying, over those that were marked before, each at a time at which
/// something came of the check; no other mark changes, and nothing else does. Connection counts have no part in a check.
pub proof fn a_failed_check_marks_exactly_what_it_tried(
    c: ClusterView,
    config: ConfigView,
    known: Seq<(HostView, u16)>,
    events: Seq<CheckEvent>,
    host: HostView,
)
    requires
        events.len() > 0,
        c.after_check(config, CheckStepView::Configured(known), events).action matches
            CheckActionView::Finish(Err(_)),
    ensures
        ({
            let after = c.after_check(config, CheckStepView::Configured(known), events).cluster;
            let candidates = c.check_candidates(config, known, events);
            &&& after == ClusterView { failed: after.failed, ..c }
            &&& after.failed.contains_key(host) <==> c.failed.contains_key(host) || among(
                candidates,
                host,
            )
            &&& c.failed.contains_key(host) && !among(candidates, host) ==> after.failed[host]
                == c.failed[host]
            &&& among(candidates, host) ==> came_at(events, after.failed[host])
        }),
{
    let step = CheckStepView::Configured(known);
    if events[0].outcome is Err {
        lemma_failed_configured(c, config, step, events, host);
    } else {
        let rest = events.drop_first();
        assert(rest[0] == events[1]);
        lemma_failed_configured(
            c,
            config,
            CheckStepView::ConfiguredRefresh(known),
            rest,
            host,
        );
        if among(c.check_candidates(config, known, events), host) {
            lemma_came_later(events, c.after_check(config, step, events).cluster.failed[host]);
        }
    }
}

proof fn lemma_failed_configured(
    c: ClusterView,
    config: ConfigView,
    step: CheckStepView,
    events: Seq<CheckEvent>,
    host: HostView,
)
    requires
        events.len() > 0,
        step is Configured || step is ConfiguredRefresh,
        step is Configured ==> events[0].outcome is Err,
        c.after_check(config, step, events).action matches CheckActionView::Finish(Err(_)),
    ensures
        ({
            let after = c.after_check(config, step, events).cluster;
            let candidates = c.worth_trying(step.left(), config, events[0].now);
            &&& after == ClusterView { failed: after.failed, ..c }
            &&& after.failed.contains_key(host) <==> c.failed.contains_key(host) || among(
                candidates,
                host,
            )
            &&& c.failed.contains_key(host) && !among(candidates, host) ==> after.failed[host]
                == c.failed[host]
            &&& among(candidates, host) ==> came_at(events, after.failed[host])
        }),
{
    let now = events[0].now;
    let next = c.checked(config, step, events[0].outcome, now);
    let candidates = c.worth_trying(step.left(), config, now);
    let after = c.after_check(config, step, events).cluster;
    assert(came_at(events, now));
    if events[0].outcome is Err {
        let e = events[0].outcome->Err_0;
        servers_are_tried_in_order(c, config, candidates, e, None, now);
        lemma_tried_marks(c, config, candidates, e, None, now, host);
        if events.len() > 1 && next.step !is Done {
            lemma_failed_round(next.cluster, config, next.step, events.drop_first(), host);
            if next.step.pending(host) {
                lemma_came_later(events, after.failed[host]);
            }
        }
    }
}

} // verus!
