//! What holds of connection counts, and of a cluster when a list of servers
//! comes.

use vstd::prelude::*;

use crate::cluster::{
    lemma_after_rows_wf, lemma_remove_host, lemma_with_host, placed, with_placement, ClusterView,
    RowView,
};
use crate::config::Nanos;
use crate::counts::{decreased, increased, initial_counts, load, zeroed};
use crate::host::HostView;
use crate::text::same_ignoring_ascii_case;

verus! {

/// No count is negative.
pub open spec fn no_negative(counts: Map<HostView, i64>) -> bool {
    forall|h: HostView| #[trigger] counts.contains_key(h) ==> counts[h] >= 0
}

/// Every host starts with no connection, whether it is counted from the start or
/// not.
pub proof fn initial_counts_are_zero(
    primary: Seq<HostView>,
    rr: Seq<HostView>,
    host: HostView,
)
    ensures
        load(initial_counts(primary, rr), host) == 0,
{
}

/// A connection that is counted and then no longer counted leaves the count of
/// every host as it was.
pub proof fn counting_up_and_down_restores_counts(
    counts: Map<HostView, i64>,
    host: HostView,
    other: HostView,
)
    requires
        load(counts, host) != -1,
        load(counts, host) < i64::MAX,
    ensures
        load(decreased(increased(counts, host), host), other) == load(counts, other),
{
}

/// Counting a connection, or one less, makes no count negative.
pub proof fn counting_keeps_counts_from_going_negative(
    counts: Map<HostView, i64>,
    host: HostView,
)
    requires
        no_negative(counts),
        load(counts, host) < i64::MAX,
    ensures
        no_negative(increased(counts, host)),
        no_negative(decreased(counts, host)),
        no_negative(zeroed(counts, host)),
{
}

/// A list of servers makes no count negative.
pub proof fn refresh_keeps_counts_from_going_negative(
    c: ClusterView,
    counts: Map<HostView, i64>,
    rows: Seq<RowView>,
    control_host: Seq<char>,
    now: Nanos,
    delay: Nanos,
)
    requires
        no_negative(counts),
    ensures
        no_negative(c.counts_after_rows(counts, rows, control_host, now, delay)),
    decreases rows.len(),
{
    if rows.len() > 0 {
        refresh_keeps_counts_from_going_negative(
            c,
            counts,
            rows.drop_last(),
            control_host,
            now,
            delay,
        );
    }
}

/// Whether one of `rows` is about `host`.
pub open spec fn mentions(rows: Seq<RowView>, host: HostView) -> bool {
    exists|i: int| 0 <= i < rows.len() && (#[trigger] rows[i]).server() == host
}

proof fn lemma_mentions(rows: Seq<RowView>, host: HostView)
    requires
        rows.len() > 0,
    ensures
        mentions(rows, host) <==> mentions(rows.drop_last(), host) || rows.last().server() == host,
{
    let rest = rows.drop_last();
    if mentions(rest, host) {
        let i = choose|i: int| 0 <= i < rest.len() && (#[trigger] rest[i]).server() == host;
        assert(rows[i] == rest[i]);
    }
    if mentions(rows, host) && rows.last().server() != host {
        let i = choose|i: int| 0 <= i < rows.len() && (#[trigger] rows[i]).server() == host;
        assert(rest[i] == rows[i]);
    }
    assert(rows[rows.len() - 1] == rows.last());
}

/// A list of servers takes the mark of failure from exactly those servers in it
/// whose reconnect delay has passed, and marks none.
pub proof fn refresh_unmarks_exactly_the_recovered(
    c: ClusterView,
    rows: Seq<RowView>,
    control_host: Seq<char>,
    now: Nanos,
    delay: Nanos,
    host: HostView,
)
    ensures
        ({
            let after = c.after_rows(rows, control_host, now, delay);
            &&& after.failed.contains_key(host) <==> c.failed.contains_key(host) && (c.is_down(
                host,
                now,
                delay,
            ) || !mentions(rows, host))
            &&& after.failed.contains_key(host) ==> after.failed[host] == c.failed[host]
        }),
    decreases rows.len(),
{
    if rows.len() > 0 {
        refresh_unmarks_exactly_the_recovered(
            c,
            rows.drop_last(),
            control_host,
            now,
            delay,
            host,
        );
        lemma_mentions(rows, host);
    }
}

/// A list of servers sets the count of exactly those servers in it back to zero
/// that were marked as failed and whose reconnect delay has passed.
pub proof fn refresh_resets_exactly_the_recovered(
    c: ClusterView,
    counts: Map<HostView, i64>,
    rows: Seq<RowView>,
    control_host: Seq<char>,
    now: Nanos,
    delay: Nanos,
    host: HostView,
)
    ensures
        load(c.counts_after_rows(counts, rows, control_host, now, delay), host) == if mentions(
            rows,
            host,
        ) && c.failed.contains_key(host) && !c.is_down(host, now, delay) {
            0
        } else {
            load(counts, host)
        },
    decreases rows.len(),
{
    if rows.len() > 0 {
        let rest = rows.drop_last();
        refresh_resets_exactly_the_recovered(c, counts, rest, control_host, now, delay, host);
        refresh_unmarks_exactly_the_recovered(c, rest, control_host, now, delay, host);
        lemma_mentions(rows, host);
    }
}

impl ClusterView {
    /// The list that the server of a row belongs in.
    pub open spec fn list_for(self, row: RowView) -> Seq<HostView> {
        if row.is_primary() {
            self.primary
        } else {
            self.rr
        }
    }

    /// The placements that the server of a row belongs in.
    pub open spec fn placements_for(self, row: RowView) -> Map<Seq<char>, Seq<HostView>> {
        if row.is_primary() {
            self.placement_primary
        } else {
            self.placement_rr
        }
    }
}

/// After a list of servers, every server in it that is not marked as failed is
/// in the list of its kind.
pub proof fn refresh_lists_every_server_that_is_up(
    c: ClusterView,
    rows: Seq<RowView>,
    control_host: Seq<char>,
    now: Nanos,
    delay: Nanos,
    i: int,
)
    requires
        0 <= i < rows.len(),
        !c.after_rows(rows, control_host, now, delay).failed.contains_key(rows[i].server()),
    ensures
        c.after_rows(rows, control_host, now, delay).list_for(rows[i]).contains(rows[i].server()),
    decreases rows.len(),
{
    let rest = rows.drop_last();
    let before = c.after_rows(rest, control_host, now, delay);
    let last = rows.last();
    let host = rows[i].server();
    lemma_with_host(before.primary, last.server());
    lemma_with_host(before.rr, last.server());
    lemma_remove_host(before.primary, last.server());
    lemma_remove_host(before.rr, last.server());
    refresh_unmarks_exactly_the_recovered(c, rest, control_host, now, delay, host);
    refresh_unmarks_exactly_the_recovered(c, rows, control_host, now, delay, host);
    if i < rows.len() - 1 {
        assert(rest[i] == rows[i]);
        assert(mentions(rest, host));
        refresh_lists_every_server_that_is_up(c, rest, control_host, now, delay, i);
    }
}

/// After a list of servers, every server in it is found under its zone and under
/// its region.
pub proof fn refresh_places_every_server(
    c: ClusterView,
    rows: Seq<RowView>,
    control_host: Seq<char>,
    now: Nanos,
    delay: Nanos,
    i: int,
)
    requires
        0 <= i < rows.len(),
    ensures
        ({
            let m = c.after_rows(rows, control_host, now, delay).placements_for(rows[i]);
            &&& placed(m, rows[i].zone_key()).contains(rows[i].server())
            &&& placed(m, rows[i].region_key()).contains(rows[i].server())
        }),
    decreases rows.len(),
{
    let rest = rows.drop_last();
    let before = c.after_rows(rest, control_host, now, delay);
    let last = rows.last();
    let m = before.placements_for(last);
    let m1 = with_placement(m, last.zone_key(), last.server());
    lemma_with_host(placed(m, last.zone_key()), last.server());
    lemma_with_host(placed(m1, last.region_key()), last.server());
    if i < rows.len() - 1 {
        assert(rest[i] == rows[i]);
        refresh_places_every_server(c, rest, control_host, now, delay, i);
    }
}

/// After a list of servers, a server in it that is still down is in neither list.
pub proof fn refresh_delists_every_server_that_is_down(
    c: ClusterView,
    rows: Seq<RowView>,
    control_host: Seq<char>,
    now: Nanos,
    delay: Nanos,
    host: HostView,
)
    requires
        c.wf(),
        !(c.primary.contains(host) && c.rr.contains(host)),
        c.is_down(host, now, delay),
        mentions(rows, host),
    ensures
        !c.after_rows(rows, control_host, now, delay).listed(host),
{
    lemma_down(c, rows, control_host, now, delay, host);
}

proof fn lemma_down(
    c: ClusterView,
    rows: Seq<RowView>,
    control_host: Seq<char>,
    now: Nanos,
    delay: Nanos,
    host: HostView,
)
    requires
        c.wf(),
        !(c.primary.contains(host) && c.rr.contains(host)),
        c.is_down(host, now, delay),
    ensures
        ({
            let after = c.after_rows(rows, control_host, now, delay);
            &&& !(after.primary.contains(host) && after.rr.contains(host))
            &&& after.is_down(host, now, delay)
            &&& mentions(rows, host) ==> !after.listed(host)
        }),
    decreases rows.len(),
{
    if rows.len() > 0 {
        let rest = rows.drop_last();
        let before = c.after_rows(rest, control_host, now, delay);
        let last = rows.last();
        lemma_down(c, rest, control_host, now, delay, host);
        lemma_mentions(rows, host);
        lemma_after_rows_wf(c, rest, control_host, now, delay);
        lemma_with_host(before.primary, last.server());
        lemma_with_host(before.rr, last.server());
        lemma_remove_host(before.primary, last.server());
        lemma_remove_host(before.rr, last.server());
    }
}

/// Whether one of `rows` gives `host` as an address, of either kind.
pub open spec fn names(rows: Seq<RowView>, host: HostView) -> bool {
    exists|i: int|
        0 <= i < rows.len() && ((#[trigger] rows[i]).server() == host || rows[i].public() == host)
}

proof fn lemma_names(rows: Seq<RowView>, host: HostView)
    requires
        rows.len() > 0,
        !names(rows, host),
    ensures
        !names(rows.drop_last(), host),
        rows.last().server() != host,
        rows.last().public() != host,
{
    let rest = rows.drop_last();
    if names(rest, host) {
        let i = choose|i: int|
            0 <= i < rest.len() && ((#[trigger] rest[i]).server() == host || rest[i].public()
                == host);
        assert(rows[i] == rest[i]);
    }
    assert(rows[rows.len() - 1] == rows.last());
}

/// A list of servers leaves a server that it does not mention where it is: in the
/// lists and placements that it is in, with the public address that it has; and it
/// leaves the port of an address that it does not give.
pub proof fn refresh_leaves_other_servers_alone(
    c: ClusterView,
    rows: Seq<RowView>,
    control_host: Seq<char>,
    now: Nanos,
    delay: Nanos,
    host: HostView,
    key: Seq<char>,
)
    requires
        !mentions(rows, host),
    ensures
        ({
            let after = c.after_rows(rows, control_host, now, delay);
            &&& after.primary.contains(host) == c.primary.contains(host)
            &&& after.rr.contains(host) == c.rr.contains(host)
            &&& placed(after.placement_primary, key).contains(host) == placed(
                c.placement_primary,
                key,
            ).contains(host)
            &&& placed(after.placement_rr, key).contains(host) == placed(
                c.placement_rr,
                key,
            ).contains(host)
            &&& after.public_hosts.contains_key(host) == c.public_hosts.contains_key(host)
            &&& c.public_hosts.contains_key(host) ==> after.public_hosts[host]
                == c.public_hosts[host]
            &&& !names(rows, host) ==> after.ports.contains_key(host) == c.ports.contains_key(host)
            &&& !names(rows, host) && c.ports.contains_key(host) ==> after.ports[host]
                == c.ports[host]
        }),
    decreases rows.len(),
{
    if rows.len() > 0 {
        let rest = rows.drop_last();
        let before = c.after_rows(rest, control_host, now, delay);
        let last = rows.last();
        lemma_mentions(rows, host);
        if !names(rows, host) {
            lemma_names(rows, host);
        }
        refresh_leaves_other_servers_alone(c, rest, control_host, now, delay, host, key);
        lemma_with_host(before.primary, last.server());
        lemma_with_host(before.rr, last.server());
        lemma_remove_host(before.primary, last.server());
        lemma_remove_host(before.rr, last.server());
        let m = before.placements_for(last);
        lemma_with_host(placed(m, last.zone_key()), last.server());
        lemma_with_host(
            placed(with_placement(m, last.zone_key(), last.server()), last.region_key()),
            last.server(),
        );
    }
}

/// The ports that a list of servers gives.
pub open spec fn ports_given(rows: Seq<RowView>) -> Map<HostView, u16>
    decreases rows.len(),
{
    if rows.len() == 0 {
        Map::empty()
    } else {
        ports_given(rows.drop_last()).insert(
            rows.last().server(),
            rows.last().wrapped_port(),
        ).insert(rows.last().public(), rows.last().wrapped_port())
    }
}

/// A list of servers gives ports, and takes none away.
pub proof fn refresh_keeps_every_port(
    c: ClusterView,
    rows: Seq<RowView>,
    control_host: Seq<char>,
    now: Nanos,
    delay: Nanos,
)
    ensures
        c.after_rows(rows, control_host, now, delay).ports == c.ports.union_prefer_right(
            ports_given(rows),
        ),
    decreases rows.len(),
{
    if rows.len() > 0 {
        refresh_keeps_every_port(c, rows.drop_last(), control_host, now, delay);
    }
    assert(c.after_rows(rows, control_host, now, delay).ports =~= c.ports.union_prefer_right(
        ports_given(rows),
    ));
}

/// Connections go to public addresses from the first list of servers on that
/// came over a connection to one of the public addresses in it.
pub proof fn public_addresses_are_used_once_one_was(
    c: ClusterView,
    rows: Seq<RowView>,
    control_host: Seq<char>,
    now: Nanos,
    delay: Nanos,
)
    ensures
        c.after_rows(rows, control_host, now, delay).use_public_ip <==> c.use_public_ip || exists|
            i: int,
        |
            0 <= i < rows.len() && same_ignoring_ascii_case(
                control_host,
                (#[trigger] rows[i]).public_ip,
            ),
    decreases rows.len(),
{
    if rows.len() > 0 {
        let rest = rows.drop_last();
        public_addresses_are_used_once_one_was(c, rest, control_host, now, delay);
        assert(forall|i: int| 0 <= i < rest.len() ==> #[trigger] rest[i] == rows[i]);
        assert(rows[rows.len() - 1] == rows.last());
        if exists|i: int|
            0 <= i < rows.len() && same_ignoring_ascii_case(
                control_host,
                (#[trigger] rows[i]).public_ip,
            ) {
            let i = choose|i: int|
                0 <= i < rows.len() && same_ignoring_ascii_case(
                    control_host,
                    (#[trigger] rows[i]).public_ip,
                );
            if i < rest.len() {
                assert(rest[i] == rows[i]);
            }
        }
    }
}

/// Once the list of servers has come, the same list changes nothing, provided
/// that no server in it was marked as failed.
pub proof fn refresh_again_changes_nothing(
    c: ClusterView,
    rows: Seq<RowView>,
    control_host: Seq<char>,
    now: Nanos,
    delay: Nanos,
)
    requires
        forall|i: int| 0 <= i < rows.len() ==> !c.failed.contains_key((#[trigger] rows[i]).server()),
    ensures
        ({
            let after = c.after_rows(rows, control_host, now, delay);
            after.after_rows(rows, control_host, now, delay) == after
        }),
{
    let after = c.after_rows(rows, control_host, now, delay);
    let again = after.after_rows(rows, control_host, now, delay);
    lemma_settled(c, rows, control_host, now, delay, rows.len() as int);
    assert(rows.take(rows.len() as int) =~= rows);
    refresh_keeps_every_port(c, rows, control_host, now, delay);
    refresh_keeps_every_port(after, rows, control_host, now, delay);
    assert(again.ports =~= after.ports);
    assert(again =~= after);
}

proof fn lemma_settled(
    c: ClusterView,
    rows: Seq<RowView>,
    control_host: Seq<char>,
    now: Nanos,
    delay: Nanos,
    k: int,
)
    requires
        0 <= k <= rows.len(),
        forall|i: int| 0 <= i < rows.len() ==> !c.failed.contains_key((#[trigger] rows[i]).server()),
    ensures
        ({
            let after = c.after_rows(rows, control_host, now, delay);
            let again = after.after_rows(rows.take(k), control_host, now, delay);
            again == ClusterView { ports: again.ports, ..after }
        }),
    decreases k,
{
    let after = c.after_rows(rows, control_host, now, delay);
    let again = after.after_rows(rows.take(k), control_host, now, delay);
    if k > 0 {
        let row = rows[k - 1];
        let host = row.server();
        let before = after.after_rows(rows.take(k - 1), control_host, now, delay);
        lemma_settled(c, rows, control_host, now, delay, k - 1);
        assert(rows.take(k).drop_last() =~= rows.take(k - 1));
        assert(rows.take(k).last() == row);
        assert(again == before.after_row(row, control_host, now, delay));
        refresh_unmarks_exactly_the_recovered(c, rows, control_host, now, delay, host);
        assert(!after.failed.contains_key(host));
        refresh_lists_every_server_that_is_up(c, rows, control_host, now, delay, k - 1);
        refresh_places_every_server(c, rows, control_host, now, delay, k - 1);
        public_addresses_are_used_once_one_was(c, rows, control_host, now, delay);
        let m = before.placements_for(row);
        assert(with_placement(m, row.zone_key(), host) =~= m);
        assert(with_placement(m, row.region_key(), host) =~= m);
        assert(before.failed.remove(host) =~= before.failed);
        assert(again =~= ClusterView { ports: again.ports, ..after });
    } else {
        assert(rows.take(0).len() == 0);
        assert(again =~= ClusterView { ports: again.ports, ..after });
    }
}

} // verus!
