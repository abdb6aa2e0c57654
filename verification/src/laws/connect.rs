//! What holds of a connection as it is made.

use vstd::prelude::*;

use crate::attempts::{after_failure, taken, AttemptAction};
use crate::balance::no_preferred_server;
use crate::cluster::ClusterView;
use crate::config::{ConfigView, Nanos, TargetSessionAttrs};
use crate::connect::{YbActionView, YbOutcome, YbStepView};
use crate::counts::load;
use crate::error::{Error, ErrorView};
use crate::host::HostView;
use crate::laws::balance::{
    candidates_are_up, candidates_have_ports, keys_only_fails_when_no_preference_has_one_up,
};
use crate::session::{once, OnceEventView, OnceStep};

verus! {

/// A connection that is made is counted once, for the server that was chosen,
/// whatever address it is connected to by.
pub proof fn a_connection_is_counted_once(
    c: ClusterView,
    counts: Map<HostView, i64>,
    config: ConfigView,
    host: HostView,
    now: Nanos,
    later: Nanos,
    other: HostView,
)
    requires
        load(counts, host) < i64::MAX,
        c.address(host) is Some,
    ensures
        ({
            let begun = c.selected(counts, config, Ok(host), now);
            let done = begun.cluster.stepped(begun.counts, config, begun.step, Ok(()), later);
            &&& done.action == YbActionView::Finish
            &&& done.cluster == c
            &&& load(done.counts, host) == load(counts, host) + 1
            &&& other != host ==> load(done.counts, other) == load(counts, other)
        }),
{
}

/// One attempt at a server that fails: it was chosen at the first of the two times,
/// and could not be connected to at the second.
pub struct FailedAttempt {
    pub host: HostView,
    pub chosen_at: Nanos,
    pub failed_at: Nanos,
    pub error: ErrorView,
}

impl ClusterView {
    /// What follows from an attempt that fails. A server that has no public
    /// address, where connections go to public ones, fails when it is chosen.
    pub open spec fn attempted(
        self,
        counts: Map<HostView, i64>,
        config: ConfigView,
        attempt: FailedAttempt,
    ) -> YbOutcome {
        let begun = self.selected(counts, config, Ok(attempt.host), attempt.chosen_at);
        begun.cluster.stepped(
            begun.counts,
            config,
            begun.step,
            Err(attempt.error),
            attempt.failed_at,
        )
    }

    /// When the server of an attempt that fails is marked: where there is no
    /// address for it, when it is chosen.
    pub open spec fn marked_at(self, attempt: FailedAttempt) -> Nanos {
        if self.address(attempt.host) is Some {
            attempt.failed_at
        } else {
            attempt.chosen_at
        }
    }
}

/// An attempt that fails leaves the count of every server as it was, marks the
/// server as failed, and has another one chosen, whatever address the server is
/// connected to by, and also where it has none.
pub proof fn a_failed_attempt_leaves_only_a_mark(
    c: ClusterView,
    counts: Map<HostView, i64>,
    config: ConfigView,
    attempt: FailedAttempt,
    other: HostView,
)
    requires
        load(counts, attempt.host) != -1,
        load(counts, attempt.host) < i64::MAX,
    ensures
        ({
            let done = c.attempted(counts, config, attempt);
            &&& done.step == YbStepView::Selecting
            &&& done.action == YbActionView::Select
            &&& done.cluster == c.mark_failed(attempt.host, c.marked_at(attempt))
            &&& load(done.counts, other) == load(counts, other)
        }),
{
}

/// A server that has been marked as failed is not chosen.
pub proof fn a_marked_server_is_not_chosen(
    c: ClusterView,
    counts: Map<HostView, i64>,
    config: ConfigView,
    host: HostView,
    now: Nanos,
    hosts: Seq<HostView>,
)
    requires
        c.mark_failed(host, now).candidates(counts, config) == Ok::<Seq<HostView>, ErrorView>(
            hosts,
        ),
    ensures
        !hosts.contains(host),
{
    if hosts.contains(host) {
        candidates_are_up(c.mark_failed(host, now), counts, config, hosts, host);
    }
}

impl ClusterView {
    /// The addresses that are known and not marked as failed.
    pub open spec fn untried(self) -> Set<HostView> {
        self.ports.dom().difference(self.failed.dom())
    }
}

/// Every attempt that fails leaves fewer addresses to try, so that a connection is
/// made or given up after finitely many.
pub proof fn every_failed_attempt_leaves_fewer_to_try(
    c: ClusterView,
    counts: Map<HostView, i64>,
    config: ConfigView,
    hosts: Seq<HostView>,
    attempt: FailedAttempt,
)
    requires
        c.wf(),
        c.ports.dom().finite(),
        c.candidates(counts, config) == Ok::<Seq<HostView>, ErrorView>(hosts),
        hosts.contains(attempt.host),
    ensures
        c.attempted(counts, config, attempt).cluster.untried().len() < c.untried().len(),
{
    let after = c.attempted(counts, config, attempt).cluster;
    candidates_have_ports(c, counts, config, hosts, attempt.host);
    candidates_are_up(c, counts, config, hosts, attempt.host);
    assert(after.untried() =~= c.untried().remove(attempt.host));
    assert(c.untried().contains(attempt.host));
}

/// Whether one of `attempts` was at `host`.
pub open spec fn attempted_at(attempts: Seq<FailedAttempt>, host: HostView) -> bool {
    exists|i: int| 0 <= i < attempts.len() && (#[trigger] attempts[i]).host == host
}

proof fn lemma_attempted_at(attempts: Seq<FailedAttempt>, host: HostView)
    requires
        attempts.len() > 0,
    ensures
        attempted_at(attempts, host) <==> attempted_at(attempts.drop_last(), host)
            || attempts.last().host == host,
{
    let rest = attempts.drop_last();
    if attempted_at(rest, host) {
        let i = choose|i: int| 0 <= i < rest.len() && (#[trigger] rest[i]).host == host;
        assert(attempts[i] == rest[i]);
    }
    if attempted_at(attempts, host) && attempts.last().host != host {
        let i = choose|i: int| 0 <= i < attempts.len() && (#[trigger] attempts[i]).host == host;
        assert(rest[i] == attempts[i]);
    }
    assert(attempts[attempts.len() - 1] == attempts.last());
}

impl ClusterView {
    /// Whether one of `attempts` was at `host` and marks it at `time`.
    pub open spec fn marked_by(
        self,
        attempts: Seq<FailedAttempt>,
        host: HostView,
        time: Nanos,
    ) -> bool {
        exists|i: int|
            0 <= i < attempts.len() && (#[trigger] attempts[i]).host == host && self.marked_at(
                attempts[i],
            ) == time
    }

    /// What holds after attempts that all fail, in turn.
    pub open spec fn after_attempts(
        self,
        counts: Map<HostView, i64>,
        config: ConfigView,
        attempts: Seq<FailedAttempt>,
    ) -> (ClusterView, Map<HostView, i64>)
        decreases attempts.len(),
    {
        if attempts.len() == 0 {
            (self, counts)
        } else {
            let (cluster, before) = self.after_attempts(counts, config, attempts.drop_last());
            let done = cluster.attempted(before, config, attempts.last());
            (done.cluster, done.counts)
        }
    }

    /// Whether the server of each of `attempts` may have been chosen when its turn
    /// came.
    pub open spec fn attempted_in_turn(
        self,
        counts: Map<HostView, i64>,
        config: ConfigView,
        attempts: Seq<FailedAttempt>,
    ) -> bool
        decreases attempts.len(),
    {
        attempts.len() == 0 || {
            let (cluster, before) = self.after_attempts(counts, config, attempts.drop_last());
            &&& self.attempted_in_turn(counts, config, attempts.drop_last())
            &&& cluster.candidates(before, config) matches Ok(hosts)
            &&& hosts.contains(attempts.last().host)
        }
    }
}

/// Attempts that all fail leave the count of every server as it was, and mark
/// exactly the servers that were attempted, each at the time of an attempt at it;
/// nothing else changes.
pub proof fn failed_attempts_leave_only_marks(
    c: ClusterView,
    counts: Map<HostView, i64>,
    config: ConfigView,
    attempts: Seq<FailedAttempt>,
    host: HostView,
)
    requires
        forall|i: int|
            0 <= i < attempts.len() ==> -1 != load(counts, (#[trigger] attempts[i]).host)
                && load(counts, attempts[i].host) < i64::MAX,
    ensures
        ({
            let (cluster, after) = c.after_attempts(counts, config, attempts);
            &&& cluster == ClusterView { failed: cluster.failed, ..c }
            &&& cluster.failed.contains_key(host) <==> c.failed.contains_key(host) || attempted_at(
                attempts,
                host,
            )
            &&& c.failed.contains_key(host) && !attempted_at(attempts, host)
                ==> cluster.failed[host] == c.failed[host]
            &&& attempted_at(attempts, host) ==> c.marked_by(attempts, host, cluster.failed[host])
            &&& load(after, host) == load(counts, host)
        }),
    decreases attempts.len(),
{
    if attempts.len() > 0 {
        let rest = attempts.drop_last();
        let last = attempts.last();
        assert(forall|i: int| 0 <= i < rest.len() ==> #[trigger] rest[i] == attempts[i]);
        assert(attempts[attempts.len() - 1] == last);
        let (cluster, before) = c.after_attempts(counts, config, rest);
        failed_attempts_leave_only_marks(c, counts, config, rest, host);
        failed_attempts_leave_only_marks(c, counts, config, rest, last.host);
        a_failed_attempt_leaves_only_a_mark(cluster, before, config, last, host);
        lemma_attempted_at(attempts, host);
        assert(cluster.marked_at(last) == c.marked_at(last));
        if attempted_at(rest, host) {
            let i = choose|i: int|
                0 <= i < rest.len() && (#[trigger] rest[i]).host == host && c.marked_at(rest[i])
                    == cluster.failed[host];
            assert(attempts[i] == rest[i]);
        }
    }
}

/// A connection that is made after attempts that fail is counted once, for the
/// server that it is made to: no other count changes. Exactly the servers that were
/// attempted before are marked as failed, over those that were, each at the time of
/// an attempt at it; nothing else changes.
pub proof fn a_whole_connection(
    c: ClusterView,
    counts: Map<HostView, i64>,
    config: ConfigView,
    attempts: Seq<FailedAttempt>,
    host: HostView,
    now: Nanos,
    later: Nanos,
    other: HostView,
)
    requires
        forall|i: int|
            0 <= i < attempts.len() ==> -1 != load(counts, (#[trigger] attempts[i]).host)
                && load(counts, attempts[i].host) < i64::MAX,
        load(counts, host) < i64::MAX,
        c.address(host) is Some,
    ensures
        ({
            let (cluster, before) = c.after_attempts(counts, config, attempts);
            let begun = cluster.selected(before, config, Ok(host), now);
            let done = begun.cluster.stepped(begun.counts, config, begun.step, Ok(()), later);
            &&& done.action == YbActionView::Finish
            &&& load(done.counts, host) == load(counts, host) + 1
            &&& other != host ==> load(done.counts, other) == load(counts, other)
            &&& done.cluster == ClusterView { failed: done.cluster.failed, ..c }
            &&& done.cluster.failed.contains_key(other) <==> c.failed.contains_key(other)
                || attempted_at(attempts, other)
            &&& c.failed.contains_key(other) && !attempted_at(attempts, other)
                ==> done.cluster.failed[other] == c.failed[other]
            &&& attempted_at(attempts, other) ==> c.marked_by(
                attempts,
                other,
                done.cluster.failed[other],
            )
        }),
{
    let (cluster, before) = c.after_attempts(counts, config, attempts);
    failed_attempts_leave_only_marks(c, counts, config, attempts, host);
    failed_attempts_leave_only_marks(c, counts, config, attempts, other);
    a_connection_is_counted_once(cluster, before, config, host, now, later, other);
}

/// A server that was marked as failed, or attempted already, is not chosen for the
/// same connection: every server that is attempted is newly marked, and none is
/// attempted twice.
pub proof fn no_server_is_attempted_twice(
    c: ClusterView,
    counts: Map<HostView, i64>,
    config: ConfigView,
    attempts: Seq<FailedAttempt>,
    hosts: Seq<HostView>,
    host: HostView,
)
    requires
        forall|i: int|
            0 <= i < attempts.len() ==> -1 != load(counts, (#[trigger] attempts[i]).host)
                && load(counts, attempts[i].host) < i64::MAX,
        c.attempted_in_turn(counts, config, attempts),
        c.after_attempts(counts, config, attempts).0.candidates(
            c.after_attempts(counts, config, attempts).1,
            config,
        ) == Ok::<Seq<HostView>, ErrorView>(hosts),
        hosts.contains(host),
    ensures
        !c.failed.contains_key(host),
        !attempted_at(attempts, host),
        forall|i: int|
            0 <= i < attempts.len() ==> !c.failed.contains_key((#[trigger] attempts[i]).host),
        forall|i: int, j: int|
            0 <= i < j < attempts.len() ==> (#[trigger] attempts[i]).host != (
            #[trigger] attempts[j]).host,
    decreases attempts.len(),
{
    let (cluster, before) = c.after_attempts(counts, config, attempts);
    candidates_are_up(cluster, before, config, hosts, host);
    failed_attempts_leave_only_marks(c, counts, config, attempts, host);
    if attempts.len() > 0 {
        let rest = attempts.drop_last();
        let last = attempts.last();
        assert(forall|i: int| 0 <= i < rest.len() ==> #[trigger] rest[i] == attempts[i]);
        let (earlier, counted) = c.after_attempts(counts, config, rest);
        no_server_is_attempted_twice(
            c,
            counts,
            config,
            rest,
            earlier.candidates(counted, config)->Ok_0,
            last.host,
        );
        assert forall|i: int, j: int| 0 <= i < j < attempts.len() implies (
        #[trigger] attempts[i]).host != (#[trigger] attempts[j]).host by {
            assert(rest[i] == attempts[i]);
            if j < rest.len() {
                assert(rest[j] == attempts[j]);
            } else {
                assert(attempts[j] == last);
                assert(!attempted_at(rest, last.host));
            }
        }
        assert forall|i: int| 0 <= i < attempts.len() implies !c.failed.contains_key(
            (#[trigger] attempts[i]).host,
        ) by {
            if i < rest.len() {
                assert(rest[i] == attempts[i]);
            }
        }
    }
}

/// Where there is no server to choose, a caller that has restricted the servers
/// that it accepts gets the reason; for any other, the configured servers are
/// connected to. Neither changes anything.
pub proof fn only_an_unrestricted_caller_gets_the_configured_servers(
    c: ClusterView,
    counts: Map<HostView, i64>,
    config: ConfigView,
    e: ErrorView,
    now: Nanos,
)
    ensures
        ({
            let done = c.selected(counts, config, Err(e), now);
            &&& done.cluster == c
            &&& done.counts == counts
            &&& config.restricted() ==> done.action == YbActionView::Fail(e)
            &&& !config.restricted() ==> done.action == YbActionView::ConnectConfigured
        }),
{
}

/// Where servers outside the given placements are ruled out and no server of a
/// given placement is up, the connection fails: nothing else is tried.
pub proof fn keys_only_connects_nowhere_else(
    c: ClusterView,
    counts: Map<HostView, i64>,
    config: ConfigView,
    now: Nanos,
)
    requires
        config.keys_only(),
        forall|i: int, h: HostView| #[trigger]
            c.given(config, i).contains(h) ==> c.failed.contains_key(h),
    ensures
        c.candidates(counts, config) == Err::<Seq<HostView>, ErrorView>(no_preferred_server()),
        c.selected(counts, config, Err(no_preferred_server()), now).action == YbActionView::Fail(
            no_preferred_server(),
        ),
{
    keys_only_fails_when_no_preference_has_one_up(c, counts, config);
}

/// Where servers outside the given placements are ruled out, the configured servers
/// are never connected to in their place, whatever is chosen and whatever comes of
/// it.
pub proof fn keys_only_never_gets_the_configured_servers(
    c: ClusterView,
    counts: Map<HostView, i64>,
    config: ConfigView,
    chosen: Result<HostView, ErrorView>,
    step: YbStepView,
    outcome: Result<(), ErrorView>,
    now: Nanos,
)
    requires
        config.keys_only(),
    ensures
        c.selected(counts, config, chosen, now).action !is ConnectConfigured,
        c.stepped(counts, config, step, outcome, now).action !is ConnectConfigured,
{
}

/// Without a list of servers, a caller that rules out servers outside the given
/// placements gets the reason; for any other, the configured servers are connected
/// to. Neither changes anything.
pub proof fn without_a_list_the_configured_servers_are_used(
    c: ClusterView,
    counts: Map<HostView, i64>,
    config: ConfigView,
    e: ErrorView,
    now: Nanos,
)
    ensures
        ({
            let done = c.stepped(counts, config, YbStepView::Refreshing, Err(e), now);
            &&& done.cluster == c
            &&& done.counts == counts
            &&& config.keys_only() ==> done.action == YbActionView::Fail(e)
            &&& !config.keys_only() ==> done.action == YbActionView::ConnectConfigured
        }),
{
}

/// A session that must allow writes is handed over only once the server has said
/// that it is not read-only.
pub proof fn a_session_that_must_allow_writes_is_asked(
    config: ConfigView,
    hostname: Option<Seq<char>>,
    step: OnceStep,
    event: OnceEventView,
)
    requires
        config.target_session_attrs == TargetSessionAttrs::ReadWrite,
        step != OnceStep::Done,
        once(config, hostname, step, event).1 is Finish,
    ensures
        step == OnceStep::Answer,
        event matches OnceEventView::Row(value) && value != Some("on"@),
{
}

/// Any other session is never asked.
pub proof fn any_other_session_is_not_asked(
    config: ConfigView,
    hostname: Option<Seq<char>>,
    step: OnceStep,
    event: OnceEventView,
)
    requires
        config.target_session_attrs == TargetSessionAttrs::Any,
        step == OnceStep::Socket || step == OnceStep::Tls || step == OnceStep::Handshake,
    ensures
        once(config, hostname, step, event).0 != OnceStep::Query,
        !(once(config, hostname, step, event).1 is Query),
{
}

/// How far a connection has come.
pub open spec fn progress(step: OnceStep) -> int {
    match step {
        OnceStep::Socket => 0,
        OnceStep::Tls => 1,
        OnceStep::Handshake => 2,
        OnceStep::Query => 3,
        OnceStep::Answer => 4,
        OnceStep::Done => 5,
    }
}

/// Every event brings a connection further, except a message that is not the
/// answer that is waited for.
pub proof fn a_connection_moves_on(
    config: ConfigView,
    hostname: Option<Seq<char>>,
    step: OnceStep,
    event: OnceEventView,
)
    requires
        step != OnceStep::Done,
        step == OnceStep::Answer ==> event is Row || event is EndOfAnswer || event is Failed,
    ensures
        progress(once(config, hostname, step, event).0) > progress(step),
{
}

/// How a run of attempts ends that is at `item`, with `left` still to try, where
/// `answers` holds for each attempt what it fails with, if it does.
pub open spec fn run_from<T>(
    item: T,
    left: Seq<T>,
    answers: Seq<Option<Error>>,
) -> Result<T, Error>
    decreases left.len(),
{
    match answers[0] {
        None => Ok(item),
        Some(e) => match after_failure(left, e) {
            (AttemptAction::Try(next), rest) => run_from(next, rest, answers.drop_first()),
            (AttemptAction::GiveUp(last), _) => Err(last),
        },
    }
}

/// How a run of attempts at `items` ends that takes the first of them, and goes on
/// as it is told each time that one fails. There is none at no items.
pub open spec fn run<T>(items: Seq<T>, answers: Seq<Option<Error>>) -> Option<Result<T, Error>> {
    match taken(items) {
        (Some(item), left) => Some(run_from(item, left, answers)),
        (None, _) => None,
    }
}

/// A run of attempts ends with the first one that succeeds.
pub proof fn the_first_success_ends_a_run<T>(
    items: Seq<T>,
    answers: Seq<Option<Error>>,
    i: int,
)
    requires
        0 <= i < items.len() == answers.len(),
        answers[i] is None,
        forall|j: int| 0 <= j < i ==> #[trigger] answers[j] is Some,
    ensures
        run(items, answers) == Some(Ok::<T, Error>(items[i])),
    decreases i,
{
    if i > 0 {
        let rest = answers.drop_first();
        assert(answers[0] is Some);
        assert forall|j: int| 0 <= j < i - 1 implies #[trigger] rest[j] is Some by {
            assert(rest[j] == answers[j + 1]);
        }
        the_first_success_ends_a_run(items.drop_first(), rest, i - 1);
    }
}

/// A run of attempts that all fail ends with what the last one fails with.
pub proof fn the_last_failure_ends_a_run<T>(items: Seq<T>, answers: Seq<Option<Error>>)
    requires
        0 < items.len() == answers.len(),
        forall|j: int| 0 <= j < answers.len() ==> #[trigger] answers[j] is Some,
    ensures
        run(items, answers) == Some(Err::<T, Error>(answers.last()->0)),
    decreases items.len(),
{
    let rest = answers.drop_first();
    assert(answers[0] is Some);
    if rest.len() > 0 {
        assert forall|j: int| 0 <= j < rest.len() implies #[trigger] rest[j] is Some by {
            assert(rest[j] == answers[j + 1]);
        }
        the_last_failure_ends_a_run(items.drop_first(), rest);
    }
}

} // verus!
