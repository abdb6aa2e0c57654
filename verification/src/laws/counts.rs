//! What holds of connection counts, host by host.

use vstd::prelude::*;

use crate::config::Nanos;
use crate::counts::{decreased, increased, initial_counts, load, zeroed};
use crate::host::HostView;
use crate::least_loaded::{is_least_loaded, least_loaded, lemma_filter_contains};

verus! {

/// How many connections are counted to a host.
pub open spec fn connections(counts: Map<HostView, i64>, host: HostView) -> int {
    if counts.contains_key(host) {
        counts[host] as int
    } else {
        0
    }
}

/// A host that is not counted has no connection.
pub proof fn an_uncounted_host_has_no_connection(counts: Map<HostView, i64>, host: HostView)
    ensures
        load(counts, host) == connections(counts, host),
{
}

/// Every known host is counted from the start, and no other, each with no
/// connection.
pub proof fn known_hosts_are_counted_from_the_start(
    primary: Seq<HostView>,
    rr: Seq<HostView>,
    host: HostView,
)
    ensures
        initial_counts(primary, rr).contains_key(host) <==> primary.contains(host) || rr.contains(
            host,
        ),
        connections(initial_counts(primary, rr), host) == 0,
{
}

/// Counting a connection raises the count of its host by one, and of no other.
pub proof fn counting_raises_one_count_by_one(
    counts: Map<HostView, i64>,
    host: HostView,
    other: HostView,
)
    requires
        connections(counts, host) < i64::MAX,
    ensures
        connections(increased(counts, host), host) == connections(counts, host) + 1,
        other != host ==> increased(counts, host).contains_key(other) == counts.contains_key(other),
        other != host ==> connections(increased(counts, host), other) == connections(
            counts,
            other,
        ),
{
}

/// Counting one connection less lowers the count of its host by one, unless that is
/// zero, and of no other; no host comes to be counted, or ceases to be.
pub proof fn uncounting_lowers_one_count_by_one(
    counts: Map<HostView, i64>,
    host: HostView,
    other: HostView,
)
    requires
        connections(counts, host) > i64::MIN,
    ensures
        connections(decreased(counts, host), host) == if connections(counts, host) == 0 {
            0
        } else {
            connections(counts, host) - 1
        },
        decreased(counts, host).contains_key(other) == counts.contains_key(other),
        other != host ==> connections(decreased(counts, host), other) == connections(
            counts,
            other,
        ),
{
}

/// Counting a host anew leaves it with no connection, and changes no other; no host
/// comes to be counted, or ceases to be.
pub proof fn counting_anew_changes_one_count(
    counts: Map<HostView, i64>,
    host: HostView,
    other: HostView,
)
    ensures
        connections(zeroed(counts, host), host) == 0,
        zeroed(counts, host).contains_key(other) == counts.contains_key(other),
        other != host ==> connections(zeroed(counts, host), other) == connections(counts, other),
{
}

/// The hosts with the fewest connections are those of the list that are up and have
/// no more connections than any other that is up.
pub proof fn least_loaded_hosts_have_the_fewest_connections(
    hosts: Seq<HostView>,
    counts: Map<HostView, i64>,
    failed: Map<HostView, Nanos>,
    host: HostView,
)
    ensures
        least_loaded(hosts, counts, failed).contains(host) <==> {
            &&& hosts.contains(host)
            &&& !failed.contains_key(host)
            &&& forall|other: HostView| #[trigger]
                hosts.contains(other) && !failed.contains_key(other) ==> connections(counts, host)
                    <= connections(counts, other)
        },
{
    lemma_filter_contains(
        hosts,
        |h: HostView| is_least_loaded(hosts, counts, failed, h),
        host,
    );
}

/// Whether `places` are places in `items`, each after the one before.
pub open spec fn in_order<T>(places: Seq<int>, items: Seq<T>) -> bool {
    &&& forall|i: int| 0 <= i < places.len() ==> 0 <= #[trigger] places[i] < items.len()
    &&& forall|i: int, j: int|
        0 <= i < j < places.len() ==> #[trigger] places[i] < #[trigger] places[j]
}

/// Where each element of a filtered list stood: at every place that the condition
/// holds of, in order.
pub proof fn lemma_filter_places<T>(items: Seq<T>, p: spec_fn(T) -> bool) -> (places: Seq<int>)
    ensures
        in_order(places, items),
        places.len() == items.filter(p).len(),
        forall|i: int|
            0 <= i < places.len() ==> items.filter(p)[i] == items[#[trigger] places[i]],
        forall|k: int|
            0 <= k < items.len() && p(#[trigger] items[k]) ==> places.contains(k),
    decreases items.len(),
{
    reveal(Seq::filter);
    if items.len() == 0 {
        Seq::empty()
    } else {
        let rest = items.drop_last();
        let before = lemma_filter_places(rest, p);
        assert forall|k: int| 0 <= k < rest.len() implies #[trigger] items[k] == rest[k] by {}
        if p(items.last()) {
            let places = before.push(items.len() - 1);
            assert forall|k: int|
                0 <= k < items.len() && p(#[trigger] items[k]) implies places.contains(k) by {
                if k < rest.len() {
                    assert(rest[k] == items[k]);
                    let i = choose|i: int| 0 <= i < before.len() && before[i] == k;
                    assert(places[i] == k);
                } else {
                    assert(places[before.len() as int] == k);
                }
            }
            places
        } else {
            assert forall|k: int|
                0 <= k < items.len() && p(#[trigger] items[k]) implies before.contains(k) by {
                if k < rest.len() {
                    assert(rest[k] == items[k]);
                }
            }
            before
        }
    }
}

/// The hosts with the fewest connections come in the order of the list, each as
/// often as it stands there.
pub proof fn least_loaded_hosts_keep_their_order(
    hosts: Seq<HostView>,
    counts: Map<HostView, i64>,
    failed: Map<HostView, Nanos>,
)
    ensures
        exists|places: Seq<int>|
            {
                &&& #[trigger] in_order(places, hosts)
                &&& places.len() == least_loaded(hosts, counts, failed).len()
                &&& forall|i: int|
                    0 <= i < places.len() ==> least_loaded(hosts, counts, failed)[i]
                        == hosts[#[trigger] places[i]]
                &&& forall|k: int|
                    0 <= k < hosts.len() && !places.contains(k) ==> !least_loaded(
                        hosts,
                        counts,
                        failed,
                    ).contains(#[trigger] hosts[k])
            },
{
    let p = |h: HostView| is_least_loaded(hosts, counts, failed, h);
    let places = lemma_filter_places(hosts, p);
    assert forall|k: int| 0 <= k < hosts.len() && !places.contains(k) implies !least_loaded(
        hosts,
        counts,
        failed,
    ).contains(#[trigger] hosts[k]) by {
        lemma_filter_contains(hosts, p, hosts[k]);
    }
    assert(in_order(places, hosts));
}

} // verus!
