//! What a row of the list of servers does, and what several do one after another.

use vstd::prelude::*;

use crate::cluster::{
    lemma_with_host, placed, row_views, time_since, with_placement, ClusterView, RowView, ServerRow,
};
use crate::config::{ConfigView, Nanos};
use crate::host::HostView;
use crate::laws::counts::connections;
use crate::least_loaded::lemma_filter_contains;
use crate::text::same_ignoring_ascii_case;

verus! {

/// A row stands for its columns.
pub proof fn a_row_stands_for_its_columns(rows: Seq<ServerRow>, i: int)
    requires
        0 <= i < rows.len(),
    ensures
        row_views(rows).len() == rows.len(),
        row_views(rows)[i].host == rows[i].host@,
        row_views(rows)[i].port == rows[i].port,
        row_views(rows)[i].node_type == rows[i].node_type@,
        row_views(rows)[i].cloud == rows[i].cloud@,
        row_views(rows)[i].region == rows[i].region@,
        row_views(rows)[i].zone == rows[i].zone@,
        row_views(rows)[i].public_ip == rows[i].public_ip@,
{
}

/// Nothing is known at first: no server is listed, placed or marked, no address has
/// a port, and public addresses are not used.
pub proof fn nothing_is_known_at_first(host: HostView, key: Seq<char>)
    ensures
        ClusterView::empty().primary.len() == 0,
        ClusterView::empty().rr.len() == 0,
        !ClusterView::empty().failed.contains_key(host),
        !ClusterView::empty().placement_primary.contains_key(key),
        !ClusterView::empty().placement_rr.contains_key(key),
        !ClusterView::empty().public_hosts.contains_key(host),
        !ClusterView::empty().ports.contains_key(host),
        !ClusterView::empty().use_public_ip,
{
}

/// A list of servers is taken in row by row: no row is as no list, and the rows
/// that follow find what those before them have left.
pub proof fn rows_are_taken_in_one_after_another(
    c: ClusterView,
    counts: Map<HostView, i64>,
    a: Seq<RowView>,
    b: Seq<RowView>,
    row: RowView,
    control_host: Seq<char>,
    now: Nanos,
    delay: Nanos,
)
    ensures
        c.after_rows(Seq::empty(), control_host, now, delay) == c,
        c.after_rows(seq![row], control_host, now, delay) == c.after_row(
            row,
            control_host,
            now,
            delay,
        ),
        c.after_rows(a + b, control_host, now, delay) == c.after_rows(
            a,
            control_host,
            now,
            delay,
        ).after_rows(b, control_host, now, delay),
        c.counts_after_rows(counts, Seq::empty(), control_host, now, delay) == counts,
        c.counts_after_rows(counts, seq![row], control_host, now, delay) == c.counts_after_row(
            counts,
            row,
            now,
            delay,
        ),
        c.counts_after_rows(counts, a + b, control_host, now, delay) == c.after_rows(
            a,
            control_host,
            now,
            delay,
        ).counts_after_rows(
            c.counts_after_rows(counts, a, control_host, now, delay),
            b,
            control_host,
            now,
            delay,
        ),
    decreases b.len(),
{
    assert(seq![row].drop_last() =~= Seq::<RowView>::empty());
    assert(c.after_rows(seq![row].drop_last(), control_host, now, delay) == c);
    assert(c.counts_after_rows(counts, seq![row].drop_last(), control_host, now, delay) == counts);
    if b.len() > 0 {
        rows_are_taken_in_one_after_another(
            c,
            counts,
            a,
            b.drop_last(),
            row,
            control_host,
            now,
            delay,
        );
        assert((a + b).drop_last() =~= a + b.drop_last());
        assert((a + b).last() == b.last());
    } else {
        assert(a + b =~= a);
    }
}

/// Time is counted from the earlier to the later, and never backwards.
pub proof fn time_is_counted_forwards(now: Nanos, then: Nanos, length: Nanos)
    ensures
        time_since(now, then) <= length <==> now <= then + length,
{
}

/// Whether a server was marked as failed, and no more than `delay` ago.
pub open spec fn marked_within(c: ClusterView, host: HostView, now: Nanos, delay: Nanos) -> bool {
    c.failed.contains_key(host) && now <= c.failed[host] + delay
}

/// Marking a server leaves everything but its mark as it was.
pub proof fn marking_changes_one_mark(
    c: ClusterView,
    host: HostView,
    now: Nanos,
    other: HostView,
)
    ensures
        c.mark_failed(host, now) == (ClusterView { failed: c.mark_failed(host, now).failed, ..c }),
        c.mark_failed(host, now).failed.contains_key(host),
        c.mark_failed(host, now).failed[host] == now,
        other != host ==> c.mark_failed(host, now).failed.contains_key(other)
            == c.failed.contains_key(other),
        other != host && c.failed.contains_key(other) ==> c.mark_failed(host, now).failed[other]
            == c.failed[other],
{
}

/// A row takes the mark from its server if more than `delay` has passed since it
/// was marked, and touches no other mark.
pub proof fn a_row_unmarks_its_server_after_the_delay(
    c: ClusterView,
    row: RowView,
    control_host: Seq<char>,
    now: Nanos,
    delay: Nanos,
    host: HostView,
)
    ensures
        ({
            let after = c.after_row(row, control_host, now, delay);
            &&& after.failed.contains_key(host) <==> c.failed.contains_key(host) && (host
                != HostView::Tcp(row.host) || now <= c.failed[host] + delay)
            &&& after.failed.contains_key(host) ==> after.failed[host] == c.failed[host]
        }),
{
}

/// Whether one of `rows` is about the server of this name.
pub open spec fn lists(rows: Seq<RowView>, name: Seq<char>) -> bool {
    exists|i: int| 0 <= i < rows.len() && (#[trigger] rows[i]).host == name
}

/// After a list that a server is in, it is marked as failed if and only if it was,
/// and no more time has passed since than the delay, whatever that is. A server
/// that is not in the list keeps its mark.
pub proof fn a_server_is_down_for_the_delay(
    c: ClusterView,
    rows: Seq<RowView>,
    control_host: Seq<char>,
    now: Nanos,
    delay: Nanos,
    name: Seq<char>,
)
    ensures
        ({
            let host = HostView::Tcp(name);
            let after = c.after_rows(rows, control_host, now, delay);
            &&& lists(rows, name) ==> (after.failed.contains_key(host)
                <==> c.failed.contains_key(host) && now <= c.failed[host] + delay)
            &&& !lists(rows, name) ==> after.failed.contains_key(host) == c.failed.contains_key(
                host,
            )
            &&& after.failed.contains_key(host) ==> after.failed[host] == c.failed[host]
        }),
    decreases rows.len(),
{
    if rows.len() > 0 {
        let rest = rows.drop_last();
        a_server_is_down_for_the_delay(c, rest, control_host, now, delay, name);
        assert(forall|i: int| 0 <= i < rest.len() ==> #[trigger] rest[i] == rows[i]);
        assert(rows[rows.len() - 1] == rows.last());
        if lists(rest, name) {
            let i = choose|i: int| 0 <= i < rest.len() && (#[trigger] rest[i]).host == name;
            assert(rows[i].host == name);
        }
        if lists(rows, name) && rows.last().host != name {
            let i = choose|i: int| 0 <= i < rows.len() && (#[trigger] rows[i]).host == name;
            assert(rest[i].host == name);
        }
    }
}

/// A check tries a known server if and only if it is not marked as failed, or was
/// marked more than the configured delay ago.
pub proof fn a_check_tries_servers_after_the_delay(
    c: ClusterView,
    known: Seq<(HostView, u16)>,
    config: ConfigView,
    now: Nanos,
    server: (HostView, u16),
)
    ensures
        c.worth_trying(known, config, now).contains(server) <==> known.contains(server) && (
        !c.failed.contains_key(server.0) || now > c.failed[server.0]
            + config.failed_host_reconnect_delay_secs),
{
    lemma_filter_contains(
        known,
        |k: (HostView, u16)| !c.is_down(k.0, now, config.failed_host_reconnect_delay_secs),
        server,
    );
}

/// A server that comes back up is counted anew; a row changes no other count.
pub proof fn a_row_counts_its_server_anew(
    c: ClusterView,
    counts: Map<HostView, i64>,
    row: RowView,
    now: Nanos,
    delay: Nanos,
    host: HostView,
)
    ensures
        ({
            let after = c.counts_after_row(counts, row, now, delay);
            &&& after.contains_key(host) == counts.contains_key(host)
            &&& connections(after, host) == if host == HostView::Tcp(row.host)
                && c.failed.contains_key(host) && now > c.failed[host] + delay {
                0
            } else {
                connections(counts, host)
            }
        }),
{
}

/// A server that is up is in the list of its kind, at its end if it was in none;
/// the other list stays as it is.
pub proof fn a_row_lists_a_server_that_is_up(
    c: ClusterView,
    row: RowView,
    control_host: Seq<char>,
    now: Nanos,
    delay: Nanos,
)
    requires
        !marked_within(c, HostView::Tcp(row.host), now, delay),
    ensures
        ({
            let host = HostView::Tcp(row.host);
            let after = c.after_row(row, control_host, now, delay);
            &&& row.node_type == "primary"@ ==> after.rr == c.rr && after.primary
                == if c.primary.contains(host) {
                c.primary
            } else {
                c.primary.push(host)
            }
            &&& row.node_type != "primary"@ ==> after.primary == c.primary && after.rr
                == if c.rr.contains(host) {
                c.rr
            } else {
                c.rr.push(host)
            }
        }),
{
}

/// Whether `after` is `hosts` without the first `host` in it.
pub open spec fn without_first(
    hosts: Seq<HostView>,
    host: HostView,
    after: Seq<HostView>,
) -> bool {
    exists|i: int|
        {
            &&& 0 <= i < hosts.len()
            &&& #[trigger] hosts[i] == host
            &&& forall|j: int| 0 <= j < i ==> hosts[j] != host
            &&& after == hosts.remove(i)
        }
}

proof fn lemma_without_first(hosts: Seq<HostView>, host: HostView)
    requires
        hosts.contains(host),
    ensures
        without_first(hosts, host, hosts.remove_value(host)),
{
    hosts.index_of_first_ensures(host);
    let i = hosts.index_of_first(host)->0;
    assert(hosts[i] == host);
}

/// A server that is down leaves the list of primary servers, if it is in it, and
/// else that of read replicas, if it is in that.
pub proof fn a_row_delists_a_server_that_is_down(
    c: ClusterView,
    row: RowView,
    control_host: Seq<char>,
    now: Nanos,
    delay: Nanos,
)
    requires
        marked_within(c, HostView::Tcp(row.host), now, delay),
    ensures
        ({
            let host = HostView::Tcp(row.host);
            let after = c.after_row(row, control_host, now, delay);
            &&& c.primary.contains(host) ==> without_first(c.primary, host, after.primary)
                && after.rr == c.rr
            &&& !c.primary.contains(host) && c.rr.contains(host) ==> after.primary == c.primary
                && without_first(c.rr, host, after.rr)
            &&& !c.primary.contains(host) && !c.rr.contains(host) ==> after.primary == c.primary
                && after.rr == c.rr
        }),
{
    let host = HostView::Tcp(row.host);
    c.primary.index_of_first_ensures(host);
    c.rr.index_of_first_ensures(host);
    if c.primary.contains(host) {
        lemma_without_first(c.primary, host);
    }
    if c.rr.contains(host) {
        lemma_without_first(c.rr, host);
    }
}

/// Whether the servers under `key` in `after` are those in `before`, with `host`
/// at their end if it was not among them.
pub open spec fn gains(
    before: Map<Seq<char>, Seq<HostView>>,
    after: Map<Seq<char>, Seq<HostView>>,
    key: Seq<char>,
    host: HostView,
) -> bool {
    &&& after.contains_key(key)
    &&& before.contains_key(key) && before[key].contains(host) ==> after[key] == before[key]
    &&& before.contains_key(key) && !before[key].contains(host) ==> after[key]
        == before[key].push(host)
    &&& !before.contains_key(key) ==> after[key] == seq![host]
}

/// Whether nothing changes under `key`.
pub open spec fn keeps(
    before: Map<Seq<char>, Seq<HostView>>,
    after: Map<Seq<char>, Seq<HostView>>,
    key: Seq<char>,
) -> bool {
    &&& after.contains_key(key) == before.contains_key(key)
    &&& before.contains_key(key) ==> after[key] == before[key]
}

/// A row puts its server, whether it is up or down, among those of its kind under
/// `cloud.region.zone` and under `cloud.region`, and under no other key.
pub proof fn a_row_places_its_server(
    c: ClusterView,
    row: RowView,
    control_host: Seq<char>,
    now: Nanos,
    delay: Nanos,
    key: Seq<char>,
)
    ensures
        ({
            let host = HostView::Tcp(row.host);
            let zone = row.cloud + "."@ + row.region + "."@ + row.zone;
            let region = row.cloud + "."@ + row.region;
            let after = c.after_row(row, control_host, now, delay);
            let here = key == zone || key == region;
            &&& row.node_type == "primary"@ && here ==> gains(
                c.placement_primary,
                after.placement_primary,
                key,
                host,
            )
            &&& row.node_type != "primary"@ && here ==> gains(
                c.placement_rr,
                after.placement_rr,
                key,
                host,
            )
            &&& row.node_type != "primary"@ || !here ==> keeps(
                c.placement_primary,
                after.placement_primary,
                key,
            )
            &&& row.node_type == "primary"@ || !here ==> keeps(
                c.placement_rr,
                after.placement_rr,
                key,
            )
        }),
{
    let host = HostView::Tcp(row.host);
    let m = if row.is_primary() {
        c.placement_primary
    } else {
        c.placement_rr
    };
    let m1 = with_placement(m, row.zone_key(), host);
    lemma_with_host(placed(m, row.zone_key()), host);
    lemma_with_host(placed(m1, row.region_key()), host);
    assert(Seq::<HostView>::empty().push(host) =~= seq![host]);
    assert(!Seq::<HostView>::empty().contains(host));
    reveal_strlit(".");
    assert(row.zone_key().len() > row.region_key().len());
}

/// A row gives the address of its server, and its public address, the low sixteen
/// bits of its port, and no other address any.
pub proof fn a_row_gives_two_ports(
    c: ClusterView,
    row: RowView,
    control_host: Seq<char>,
    now: Nanos,
    delay: Nanos,
    host: HostView,
)
    ensures
        ({
            let after = c.after_row(row, control_host, now, delay);
            let named = host == HostView::Tcp(row.host) || host == HostView::Tcp(row.public_ip);
            &&& named ==> after.ports.contains_key(host) && (row.port - after.ports[host]) % 0x1_0000
                == 0
            &&& !named ==> after.ports.contains_key(host) == c.ports.contains_key(host)
            &&& !named && c.ports.contains_key(host) ==> after.ports[host] == c.ports[host]
        }),
{
    let p = row.port as int % 0x1_0000;
    assert((row.port - p) % 0x1_0000 == 0);
}

/// A row gives its server a public address when it puts it in a list, and takes it
/// when it takes it out of one; else it leaves it, and it leaves that of any other.
pub proof fn a_row_gives_a_public_address(
    c: ClusterView,
    row: RowView,
    control_host: Seq<char>,
    now: Nanos,
    delay: Nanos,
    host: HostView,
)
    ensures
        ({
            let server = HostView::Tcp(row.host);
            let after = c.after_row(row, control_host, now, delay);
            let down = marked_within(c, server, now, delay);
            let known = if row.node_type == "primary"@ {
                c.primary.contains(server)
            } else {
                c.rr.contains(server)
            };
            let given = host == server && !down && !known;
            let taken = host == server && down && (c.primary.contains(server) || c.rr.contains(
                server,
            ));
            &&& given ==> after.public_hosts.contains_key(host) && after.public_hosts[host]
                == HostView::Tcp(row.public_ip)
            &&& taken ==> !after.public_hosts.contains_key(host)
            &&& !given && !taken ==> after.public_hosts.contains_key(host)
                == c.public_hosts.contains_key(host)
            &&& !given && !taken && c.public_hosts.contains_key(host) ==> after.public_hosts[host]
                == c.public_hosts[host]
        }),
{
}

/// Public addresses are used from the first row on whose public address is the one
/// that the list came from.
pub proof fn a_row_has_public_addresses_used(
    c: ClusterView,
    row: RowView,
    control_host: Seq<char>,
    now: Nanos,
    delay: Nanos,
)
    ensures
        c.after_row(row, control_host, now, delay).use_public_ip <==> c.use_public_ip
            || same_ignoring_ascii_case(control_host, row.public_ip),
{
}

} // verus!
