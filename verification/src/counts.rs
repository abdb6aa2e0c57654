//! How many connections each host has.

use vstd::prelude::*;

use crate::host::{views, Host, HostView};
use crate::host_map::HostMap;
use crate::least_loaded::lemma_push_contains;

verus! {

/// How many connections `counts` says that a host has: none, where it says
/// nothing.
pub open spec fn load(counts: Map<HostView, i64>, host: HostView) -> i64 {
    if counts.contains_key(host) {
        counts[host]
    } else {
        0
    }
}

/// The number of connections of a host.
pub fn connection_count(conn_map: &HostMap<i64>, host: &Host) -> (r: i64)
    ensures
        r == load(conn_map@, host@),
{
    match conn_map.get(host) {
        Some(count) => *count,
        None => 0,
    }
}

/// The counts before the first connection: none, for each host that is known.
pub open spec fn initial_counts(primary: Seq<HostView>, rr: Seq<HostView>) -> Map<HostView, i64> {
    Map::new(|h: HostView| primary.contains(h) || rr.contains(h), |h: HostView| 0i64)
}

fn add_zeros(conn_map: &mut HostMap<i64>, hosts: &Vec<Host>)
    ensures
        final(conn_map)@ == old(conn_map)@.union_prefer_right(
            initial_counts(views(hosts@), Seq::empty()),
        ),
{
    let mut i: usize = 0;
    assert(conn_map@ =~= old(conn_map)@.union_prefer_right(
        initial_counts(views(hosts@).take(0), Seq::empty()),
    ));
    while i < hosts.len()
        invariant
            i <= hosts.len(),
            conn_map@ == old(conn_map)@.union_prefer_right(
                initial_counts(views(hosts@).take(i as int), Seq::empty()),
            ),
        decreases hosts.len() - i,
    {
        let ghost seen = views(hosts@).take(i as int);
        let ghost host = hosts@[i as int]@;
        conn_map.insert(hosts[i].clone(), 0);
        proof {
            assert(views(hosts@).take(i + 1) =~= seen.push(host));
            assert forall|h: HostView| #[trigger]
                seen.push(host).contains(h) <==> seen.contains(h) || h == host by {
                lemma_push_contains(seen, host, h);
            }
            assert(conn_map@ =~= old(conn_map)@.union_prefer_right(
                initial_counts(views(hosts@).take(i + 1), Seq::empty()),
            ));
        }
        i += 1;
    }
    assert(views(hosts@).take(hosts@.len() as int) =~= views(hosts@));
}

/// Starts the counts, at zero for each known host.
pub fn initial_connection_counts(primary: &Vec<Host>, rr: &Vec<Host>) -> (r: HostMap<i64>)
    ensures
        r@ == initial_counts(views(primary@), views(rr@)),
{
    let mut conn_map: HostMap<i64> = HostMap::new();
    add_zeros(&mut conn_map, primary);
    add_zeros(&mut conn_map, rr);
    assert(conn_map@ =~= initial_counts(views(primary@), views(rr@)));
    conn_map
}

/// The counts with one more connection to `host`.
pub open spec fn increased(counts: Map<HostView, i64>, host: HostView) -> Map<HostView, i64> {
    counts.insert(host, (load(counts, host) + 1) as i64)
}

/// Counts one more connection to `host`.
pub fn increase_connection_count(conn_map: &mut HostMap<i64>, host: Host)
    requires
        load(old(conn_map)@, host@) < i64::MAX,
    ensures
        final(conn_map)@ == increased(old(conn_map)@, host@),
{
    let count: i64 = connection_count(conn_map, &host);
    conn_map.insert(host, count + 1);
}

/// The counts once a connection to `host` is gone. A host that is not counted,
/// or has no connection, stays as it is.
pub open spec fn decreased(counts: Map<HostView, i64>, host: HostView) -> Map<HostView, i64> {
    if load(counts, host) != 0 {
        counts.insert(host, (load(counts, host) - 1) as i64)
    } else {
        counts
    }
}

/// Counts one connection less to `host`, unless none is counted.
pub fn decrease_connection_count(conn_map: &mut HostMap<i64>, host: Host)
    requires
        load(old(conn_map)@, host@) > i64::MIN,
    ensures
        final(conn_map)@ == decreased(old(conn_map)@, host@),
{
    let count: i64 = connection_count(conn_map, &host);
    if count != 0 {
        conn_map.insert(host, count - 1);
    }
}

/// The counts once `host` is counted anew. A host that is not counted stays so.
pub open spec fn zeroed(counts: Map<HostView, i64>, host: HostView) -> Map<HostView, i64> {
    if counts.contains_key(host) {
        counts.insert(host, 0)
    } else {
        counts
    }
}

/// Sets the count of `host` back to zero, if it is counted.
pub fn make_connection_count_zero(conn_map: &mut HostMap<i64>, host: Host)
    ensures
        final(conn_map)@ == zeroed(old(conn_map)@, host@),
{
    if !conn_map.contains_key(&host) {
        return;
    }
    conn_map.insert(host, 0);
}

} // verus!
