//! The hosts with the fewest connections.

use vstd::prelude::*;

use crate::config::Nanos;
use crate::counts::{connection_count, load};
use crate::host::{views, Host, HostView};
use crate::host_map::HostMap;

verus! {

/// Whether `host` is not marked as failed, and no host of `hosts` that is not
/// marked as failed has fewer connections.
pub open spec fn is_least_loaded(
    hosts: Seq<HostView>,
    counts: Map<HostView, i64>,
    failed: Map<HostView, Nanos>,
    host: HostView,
) -> bool {
    &&& !failed.contains_key(host)
    &&& forall|other: HostView| #[trigger]
        hosts.contains(other) && !failed.contains_key(other) ==> load(counts, host) <= load(
            counts,
            other,
        )
}

/// The hosts of `hosts` that are least loaded, in the order of `hosts`.
pub open spec fn least_loaded(
    hosts: Seq<HostView>,
    counts: Map<HostView, i64>,
    failed: Map<HostView, Nanos>,
) -> Seq<HostView> {
    hosts.filter(|h: HostView| is_least_loaded(hosts, counts, failed, h))
}

/// The hosts of `hosts` that are up and have `count` connections.
spec fn with_load(
    hosts: Seq<HostView>,
    counts: Map<HostView, i64>,
    failed: Map<HostView, Nanos>,
    count: i64,
) -> Seq<HostView> {
    hosts.filter(|h: HostView| !failed.contains_key(h) && load(counts, h) == count)
}

/// Filtering a longer list.
proof fn lemma_filter_push(hosts: Seq<HostView>, host: HostView, p: spec_fn(HostView) -> bool)
    ensures
        hosts.push(host).filter(p) == if p(host) {
            hosts.filter(p).push(host)
        } else {
            hosts.filter(p)
        },
{
    reveal(Seq::filter);
    assert(hosts.push(host).drop_last() =~= hosts);
}

/// Two conditions that agree on a list pick the same elements.
proof fn lemma_filter_agree(
    hosts: Seq<HostView>,
    p: spec_fn(HostView) -> bool,
    q: spec_fn(HostView) -> bool,
)
    requires
        forall|i: int| 0 <= i < hosts.len() ==> p(#[trigger] hosts[i]) == q(hosts[i]),
    ensures
        hosts.filter(p) == hosts.filter(q),
    decreases hosts.len(),
{
    reveal(Seq::filter);
    if hosts.len() > 0 {
        assert(forall|i: int|
            0 <= i < hosts.len() - 1 ==> #[trigger] hosts.drop_last()[i] == hosts[i]);
        lemma_filter_agree(hosts.drop_last(), p, q);
        assert(p(hosts[hosts.len() - 1]) == q(hosts[hosts.len() - 1]));
    }
}

/// A condition that nothing in a list meets picks nothing.
proof fn lemma_filter_none(hosts: Seq<HostView>, p: spec_fn(HostView) -> bool)
    requires
        forall|i: int| 0 <= i < hosts.len() ==> !p(#[trigger] hosts[i]),
    ensures
        hosts.filter(p) == Seq::<HostView>::empty(),
    decreases hosts.len(),
{
    reveal(Seq::filter);
    if hosts.len() > 0 {
        assert(forall|i: int|
            0 <= i < hosts.len() - 1 ==> #[trigger] hosts.drop_last()[i] == hosts[i]);
        lemma_filter_none(hosts.drop_last(), p);
        assert(!p(hosts[hosts.len() - 1]));
    } else {
        assert(hosts.filter(p) =~= Seq::<HostView>::empty());
    }
}

/// What a filtered list holds.
pub proof fn lemma_filter_contains<T>(items: Seq<T>, p: spec_fn(T) -> bool, item: T)
    ensures
        items.filter(p).contains(item) <==> items.contains(item) && p(item),
    decreases items.len(),
{
    reveal(Seq::filter);
    if items.len() > 0 {
        let rest = items.drop_last();
        let last = items.last();
        lemma_filter_contains(rest, p, item);
        assert(items =~= rest.push(last));
        lemma_push_contains(rest, last, item);
        lemma_push_contains(rest.filter(p), last, item);
    }
}

/// What a list holds once an element is appended.
pub proof fn lemma_push_contains<T>(items: Seq<T>, item: T, other: T)
    ensures
        items.push(item).contains(other) <==> items.contains(other) || other == item,
{
    if items.contains(other) {
        let j = choose|j: int| 0 <= j < items.len() && items[j] == other;
        assert(items.push(item)[j] == other);
    }
    if items.push(item).contains(other) && other != item {
        let j = choose|j: int|
            0 <= j < items.push(item).len() && items.push(item)[j] == other;
        assert(items[j] == other);
    }
    assert(items.push(item)[items.len() as int] == item);
}

/// Picks, in order, the hosts of `hosts` that are not marked as failed and have
/// the fewest connections among those.
pub fn get_least_loaded_hosts(
    hosts: &Vec<Host>,
    conn_map: &HostMap<i64>,
    failed_hosts: &HostMap<Nanos>,
) -> (r: Vec<Host>)
    ensures
        views(r@) == least_loaded(views(hosts@), conn_map@, failed_hosts@),
{
    let ghost all = views(hosts@);
    let ghost counts = conn_map@;
    let ghost failed = failed_hosts@;
    let mut min_count: i64 = i64::MAX;
    let mut least_host: Vec<Host> = Vec::new();
    let mut i: usize = 0;
    proof {
        reveal(Seq::filter);
        assert(views(least_host@) =~= with_load(all.take(0), counts, failed, min_count));
    }
    while i < hosts.len()
        invariant
            i <= hosts.len(),
            all == views(hosts@),
            counts == conn_map@,
            failed == failed_hosts@,
            views(least_host@) == with_load(all.take(i as int), counts, failed, min_count),
            forall|j: int|
                0 <= j < i && !failed.contains_key(#[trigger] all[j]) ==> load(counts, all[j])
                    >= min_count,
            least_host@.len() > 0 || min_count == i64::MAX,
        decreases hosts.len() - i,
    {
        let ghost seen = all.take(i as int);
        let ghost host = all[i as int];
        assert(all.take(i + 1) =~= seen.push(host));
        if !failed_hosts.contains_key(&hosts[i]) {
            let counter: i64 = connection_count(conn_map, &hosts[i]);
            if min_count > counter {
                min_count = counter;
                least_host.clear();
                least_host.push(hosts[i].clone());
                proof {
                    let p = |h: HostView| !failed.contains_key(h) && load(counts, h) == counter;
                    assert forall|j: int| 0 <= j < seen.len() implies !p(#[trigger] seen[j]) by {
                        assert(seen[j] == all[j]);
                    }
                    lemma_filter_none(seen, p);
                    lemma_filter_push(seen, host, p);
                    assert(views(least_host@) =~= seen.push(host).filter(p));
                }
            } else {
                proof {
                    lemma_filter_push(
                        seen,
                        host,
                        |h: HostView| !failed.contains_key(h) && load(counts, h) == min_count,
                    );
                }
                if min_count == counter {
                    let ghost before = views(least_host@);
                    least_host.push(hosts[i].clone());
                    assert(views(least_host@) =~= before.push(host));
                }
            }
        } else {
            proof {
                lemma_filter_push(
                    seen,
                    host,
                    |h: HostView| !failed.contains_key(h) && load(counts, h) == min_count,
                );
            }
        }
        i += 1;
    }
    proof {
        assert(all.take(all.len() as int) =~= all);
        let p = |h: HostView| !failed.contains_key(h) && load(counts, h) == min_count;
        let q = |h: HostView| is_least_loaded(all, counts, failed, h);
        if least_host@.len() > 0 {
            let first = views(least_host@)[0];
            assert(all.filter(p).contains(first));
            lemma_filter_contains(all, p, first);
        }
        assert forall|j: int| 0 <= j < all.len() implies p(#[trigger] all[j]) == q(all[j]) by {
            if !failed.contains_key(all[j]) {
                if least_host@.len() == 0 {
                    lemma_filter_contains(all, p, all[j]);
                    assert(all.contains(all[j]));
                    assert(!all.filter(p).contains(all[j]));
                } else {
                    if p(all[j]) {
                        assert forall|other: HostView| #[trigger]
                            all.contains(other) && !failed.contains_key(other) implies load(
                            counts,
                            all[j],
                        ) <= load(counts, other) by {
                            let k = choose|k: int| 0 <= k < all.len() && all[k] == other;
                            assert(load(counts, all[k]) >= min_count);
                        }
                    }
                    if q(all[j]) {
                        let first = views(least_host@)[0];
                        assert(all.contains(first) && !failed.contains_key(first));
                    }
                }
            }
        }
        lemma_filter_agree(all, p, q);
    }
    least_host
}

} // verus!
