//! What holds of the choice of a server.

use vstd::prelude::*;

use crate::balance::{
    lemma_decided, no_preferred_server, placement_key, prefers, wants_primary, wants_rr,
};
use crate::cluster::{placed, ClusterView};
use crate::config::{ConfigView, Nanos};
use crate::counts::{increased, initial_counts, load};
use crate::error::ErrorView;
use crate::host::HostView;
use crate::least_loaded::{
    is_least_loaded, least_loaded, lemma_filter_contains, lemma_push_contains,
};

verus! {

proof fn lemma_least_loaded(
    hosts: Seq<HostView>,
    counts: Map<HostView, i64>,
    failed: Map<HostView, Nanos>,
    host: HostView,
)
    ensures
        least_loaded(hosts, counts, failed).contains(host) <==> hosts.contains(host)
            && is_least_loaded(hosts, counts, failed, host),
{
    lemma_filter_contains(
        hosts,
        |h: HostView| is_least_loaded(hosts, counts, failed, h),
        host,
    );
}

/// Finds a host with the fewest connections among those that are up.
proof fn lemma_minimum(
    hosts: Seq<HostView>,
    counts: Map<HostView, i64>,
    failed: Map<HostView, Nanos>,
    up: HostView,
) -> (r: HostView)
    requires
        hosts.contains(up),
        !failed.contains_key(up),
    ensures
        hosts.contains(r),
        is_least_loaded(hosts, counts, failed, r),
    decreases hosts.len(),
{
    let rest = hosts.drop_last();
    let last = hosts.last();
    assert(hosts =~= rest.push(last));
    assert forall|h: HostView| #[trigger] hosts.contains(h) <==> rest.contains(h) || h == last by {
        lemma_push_contains(rest, last, h);
    }
    if exists|h: HostView| #[trigger] rest.contains(h) && !failed.contains_key(h) {
        let h = choose|h: HostView| #[trigger] rest.contains(h) && !failed.contains_key(h);
        let m = lemma_minimum(rest, counts, failed, h);
        if !failed.contains_key(last) && load(counts, last) < load(counts, m) {
            last
        } else {
            m
        }
    } else {
        last
    }
}

/// A list that has a host that is up has a least loaded one, and each of those is
/// in the list and up.
pub proof fn least_loaded_hosts_are_up(
    hosts: Seq<HostView>,
    counts: Map<HostView, i64>,
    failed: Map<HostView, Nanos>,
    host: HostView,
)
    ensures
        least_loaded(hosts, counts, failed).contains(host) ==> hosts.contains(host)
            && !failed.contains_key(host),
        hosts.contains(host) && !failed.contains_key(host) ==> least_loaded(
            hosts,
            counts,
            failed,
        ).len() > 0,
{
    lemma_least_loaded(hosts, counts, failed, host);
    if hosts.contains(host) && !failed.contains_key(host) {
        let m = lemma_minimum(hosts, counts, failed, host);
        lemma_least_loaded(hosts, counts, failed, m);
    }
}

/// Whether the numbers of connections of the hosts that are up differ by one at
/// most.
pub open spec fn even(
    hosts: Seq<HostView>,
    counts: Map<HostView, i64>,
    failed: Map<HostView, Nanos>,
) -> bool {
    forall|a: HostView, b: HostView|
        #![trigger hosts.contains(a), hosts.contains(b)]
        hosts.contains(a) && hosts.contains(b) && !failed.contains_key(a) && !failed.contains_key(b)
            ==> load(counts, a) <= load(counts, b) + 1
}

/// A connection that goes to a least loaded host leaves connections as evenly
/// spread as they were.
pub proof fn least_loaded_keeps_connections_even(
    hosts: Seq<HostView>,
    counts: Map<HostView, i64>,
    failed: Map<HostView, Nanos>,
    host: HostView,
)
    requires
        even(hosts, counts, failed),
        least_loaded(hosts, counts, failed).contains(host),
        load(counts, host) < i64::MAX,
    ensures
        even(hosts, increased(counts, host), failed),
{
    lemma_least_loaded(hosts, counts, failed, host);
}

/// Finds the preference that decides.
proof fn lemma_preferred(
    c: ClusterView,
    counts: Map<HostView, i64>,
    config: ConfigView,
    host: HostView,
) -> (found: int)
    requires
        c.preferred(counts, config).contains(host),
    ensures
        c.decides(counts, config, found),
        c.given(config, found).contains(host),
        !c.failed.contains_key(host),
{
    assert(exists|level: int| #[trigger] c.decides(counts, config, level));
    let found = choose|level: int| #[trigger] c.decides(counts, config, level);
    least_loaded_hosts_are_up(c.given(config, found), counts, c.failed, host);
    found
}

/// A server that a connection may go to is not marked as failed.
pub proof fn candidates_are_up(
    c: ClusterView,
    counts: Map<HostView, i64>,
    config: ConfigView,
    hosts: Seq<HostView>,
    host: HostView,
)
    requires
        c.candidates(counts, config) == Ok::<Seq<HostView>, ErrorView>(hosts),
        hosts.contains(host),
    ensures
        !c.failed.contains_key(host),
{
    if c.preferred(counts, config).len() > 0 {
        lemma_preferred(c, counts, config, host);
    } else {
        least_loaded_hosts_are_up(c.pool(config.load_balance), counts, c.failed, host);
        least_loaded_hosts_are_up(c.primary, counts, c.failed, host);
        least_loaded_hosts_are_up(c.rr, counts, c.failed, host);
    }
}

pub proof fn lemma_add_contains(a: Seq<HostView>, b: Seq<HostView>, host: HostView)
    ensures
        (a + b).contains(host) <==> a.contains(host) || b.contains(host),
{
    if a.contains(host) {
        let i = choose|i: int| 0 <= i < a.len() && a[i] == host;
        assert((a + b)[i] == host);
    }
    if b.contains(host) {
        let i = choose|i: int| 0 <= i < b.len() && b[i] == host;
        assert((a + b)[a.len() + i] == host);
    }
    if (a + b).contains(host) {
        let i = choose|i: int| 0 <= i < (a + b).len() && (a + b)[i] == host;
        if i < a.len() {
            assert(a[i] == host);
        } else {
            assert(b[i - a.len()] == host);
        }
    }
}

/// The servers of several placements are the servers of each.
pub proof fn lemma_zones(
    c: ClusterView,
    load_balance: Seq<char>,
    placements: Seq<Seq<char>>,
    host: HostView,
) -> (i: int)
    requires
        c.zones(load_balance, placements).contains(host),
    ensures
        0 <= i < placements.len(),
        c.zone(load_balance, placement_key(placements[i])).contains(host),
    decreases placements.len(),
{
    let rest = placements.drop_last();
    let last = placements.last();
    lemma_add_contains(
        c.zones(load_balance, rest),
        c.zone(load_balance, placement_key(last)),
        host,
    );
    if c.zones(load_balance, rest).contains(host) {
        let i = lemma_zones(c, load_balance, rest, host);
        assert(rest[i] == placements[i]);
        i
    } else {
        placements.len() - 1
    }
}

impl ClusterView {
    /// Whether `host` is one of the servers of a given placement that are
    /// considered.
    pub open spec fn in_given_placement(self, config: ConfigView, host: HostView) -> bool {
        exists|level: int, i: int|
            {
                &&& 0 <= i < config.placements(level).len()
                &&& #[trigger] self.zone(
                    config.load_balance,
                    placement_key(config.placements(level)[i]),
                ).contains(host)
            }
    }

    /// Whether `host` is a read replica, in the list or in a placement.
    pub open spec fn is_read_replica(self, host: HostView) -> bool {
        self.rr.contains(host) || exists|key: Seq<char>| #[trigger]
            placed(self.placement_rr, key).contains(host)
    }

    /// Whether `host` is a primary server, in the list or in a placement.
    pub open spec fn is_primary_server(self, host: HostView) -> bool {
        self.primary.contains(host) || exists|key: Seq<char>| #[trigger]
            placed(self.placement_primary, key).contains(host)
    }
}

proof fn lemma_preferred_in_placement(
    c: ClusterView,
    counts: Map<HostView, i64>,
    config: ConfigView,
    host: HostView,
)
    requires
        c.preferred(counts, config).contains(host),
    ensures
        c.in_given_placement(config, host),
{
    let level = lemma_preferred(c, counts, config, host);
    let placements = config.placements(level);
    let i = lemma_zones(c, config.load_balance, placements, host);
    assert(c.zone(
        config.load_balance,
        placement_key(config.placements(level)[i]),
    ).contains(host));
}

/// Where servers outside the given placements are ruled out, a connection goes to a
/// server of a given placement.
pub proof fn keys_only_stays_within_the_given_placements(
    c: ClusterView,
    counts: Map<HostView, i64>,
    config: ConfigView,
    hosts: Seq<HostView>,
    host: HostView,
)
    requires
        config.keys_only(),
        c.candidates(counts, config) == Ok::<Seq<HostView>, ErrorView>(hosts),
        hosts.contains(host),
    ensures
        c.in_given_placement(config, host),
{
    lemma_preferred_in_placement(c, counts, config, host);
}

/// Every server that a connection may go to has a port.
pub proof fn candidates_have_ports(
    c: ClusterView,
    counts: Map<HostView, i64>,
    config: ConfigView,
    hosts: Seq<HostView>,
    host: HostView,
)
    requires
        c.wf(),
        c.candidates(counts, config) == Ok::<Seq<HostView>, ErrorView>(hosts),
        hosts.contains(host),
    ensures
        c.ports.contains_key(host),
{
    if c.preferred(counts, config).len() > 0 {
        lemma_preferred_in_placement(c, counts, config, host);
        let (level, i) = choose|level: int, i: int|
            {
                &&& 0 <= i < config.placements(level).len()
                &&& #[trigger] c.zone(
                    config.load_balance,
                    placement_key(config.placements(level)[i]),
                ).contains(host)
            };
        let key = placement_key(config.placements(level)[i]);
        lemma_add_contains(placed(c.placement_rr, key), placed(c.placement_primary, key), host);
    } else {
        least_loaded_hosts_are_up(c.pool(config.load_balance), counts, c.failed, host);
        least_loaded_hosts_are_up(c.primary, counts, c.failed, host);
        least_loaded_hosts_are_up(c.rr, counts, c.failed, host);
        lemma_add_contains(c.rr, c.primary, host);
        assert(c.listed(host));
    }
}

pub proof fn lemma_modes_differ()
    ensures
        !prefers("only-rr"@),
        !prefers("only-primary"@),
        !wants_rr("only-primary"@),
        !wants_rr("prefer-primary"@),
        !wants_primary("only-rr"@),
        !wants_primary("prefer-rr"@),
        "prefer-primary"@ != "prefer-rr"@,
{
    reveal_strlit("only-rr");
    reveal_strlit("only-primary");
    reveal_strlit("prefer-rr");
    reveal_strlit("prefer-primary");
    assert("only-rr"@.len() == 7);
    assert("only-primary"@.len() == 12);
    assert("prefer-rr"@.len() == 9);
    assert("prefer-primary"@.len() == 14);
}

/// With `only-rr`, a connection goes to a read replica.
pub proof fn only_rr_gives_read_replicas(
    c: ClusterView,
    counts: Map<HostView, i64>,
    config: ConfigView,
    hosts: Seq<HostView>,
    host: HostView,
)
    requires
        config.load_balance == "only-rr"@,
        c.candidates(counts, config) == Ok::<Seq<HostView>, ErrorView>(hosts),
        hosts.contains(host),
    ensures
        c.is_read_replica(host),
{
    lemma_modes_differ();
    if c.preferred(counts, config).len() > 0 {
        lemma_preferred_in_placement(c, counts, config, host);
    } else {
        least_loaded_hosts_are_up(c.rr, counts, c.failed, host);
    }
}

/// With `only-primary`, a connection goes to a primary server.
pub proof fn only_primary_gives_primary_servers(
    c: ClusterView,
    counts: Map<HostView, i64>,
    config: ConfigView,
    hosts: Seq<HostView>,
    host: HostView,
)
    requires
        config.load_balance == "only-primary"@,
        c.candidates(counts, config) == Ok::<Seq<HostView>, ErrorView>(hosts),
        hosts.contains(host),
    ensures
        c.is_primary_server(host),
{
    lemma_modes_differ();
    if c.preferred(counts, config).len() > 0 {
        lemma_preferred_in_placement(c, counts, config, host);
    } else {
        least_loaded_hosts_are_up(c.primary, counts, c.failed, host);
    }
}

/// With `prefer-rr`, as long as one read replica is up, a connection goes to a
/// read replica.
pub proof fn prefer_rr_gives_read_replicas_first(
    c: ClusterView,
    counts: Map<HostView, i64>,
    config: ConfigView,
    up: HostView,
    hosts: Seq<HostView>,
    host: HostView,
)
    requires
        config.load_balance == "prefer-rr"@,
        c.rr.contains(up),
        !c.failed.contains_key(up),
        c.candidates(counts, config) == Ok::<Seq<HostView>, ErrorView>(hosts),
        hosts.contains(host),
    ensures
        c.is_read_replica(host),
{
    lemma_modes_differ();
    least_loaded_hosts_are_up(c.rr, counts, c.failed, up);
    least_loaded_hosts_are_up(c.rr, counts, c.failed, host);
    if c.preferred(counts, config).len() > 0 {
        lemma_preferred_in_placement(c, counts, config, host);
    }
}

/// With `prefer-primary`, as long as one primary server is up, a connection goes
/// to a primary server.
pub proof fn prefer_primary_gives_primary_servers_first(
    c: ClusterView,
    counts: Map<HostView, i64>,
    config: ConfigView,
    up: HostView,
    hosts: Seq<HostView>,
    host: HostView,
)
    requires
        config.load_balance == "prefer-primary"@,
        c.primary.contains(up),
        !c.failed.contains_key(up),
        c.candidates(counts, config) == Ok::<Seq<HostView>, ErrorView>(hosts),
        hosts.contains(host),
    ensures
        c.is_primary_server(host),
{
    lemma_modes_differ();
    least_loaded_hosts_are_up(c.primary, counts, c.failed, up);
    least_loaded_hosts_are_up(c.primary, counts, c.failed, host);
    if c.preferred(counts, config).len() > 0 {
        lemma_preferred_in_placement(c, counts, config, host);
    }
}

/// A server is found whenever one is up that the settings allow: one of those
/// that `load_balance` asks for, or any at all where it only prefers a kind.
pub proof fn a_server_is_found_if_one_is_up(
    c: ClusterView,
    counts: Map<HostView, i64>,
    config: ConfigView,
    up: HostView,
)
    requires
        !config.keys_only(),
        c.pool(config.load_balance).contains(up) || (prefers(config.load_balance) && c.listed(up)),
        !c.failed.contains_key(up),
    ensures
        c.candidates(counts, config) is Ok,
{
    lemma_modes_differ();
    least_loaded_hosts_are_up(c.pool(config.load_balance), counts, c.failed, up);
    least_loaded_hosts_are_up(c.primary, counts, c.failed, up);
    least_loaded_hosts_are_up(c.rr, counts, c.failed, up);
}

/// A preference none of whose servers is up does not decide.
pub proof fn lemma_all_down(
    c: ClusterView,
    counts: Map<HostView, i64>,
    config: ConfigView,
    level: int,
)
    requires
        forall|h: HostView| #[trigger]
            c.given(config, level).contains(h) ==> c.failed.contains_key(h),
    ensures
        c.level(counts, config, level).len() == 0,
{
    let here = c.level(counts, config, level);
    if here.len() > 0 {
        assert(here.contains(here[0]));
        least_loaded_hosts_are_up(c.given(config, level), counts, c.failed, here[0]);
    }
}

/// Where no preference has a server that is up, none decides.
pub proof fn lemma_none_decides(c: ClusterView, counts: Map<HostView, i64>, config: ConfigView)
    requires
        forall|i: int, h: HostView| #[trigger]
            c.given(config, i).contains(h) ==> c.failed.contains_key(h),
    ensures
        c.preferred(counts, config).len() == 0,
{
    if exists|level: int| #[trigger] c.decides(counts, config, level) {
        let level = choose|level: int| #[trigger] c.decides(counts, config, level);
        lemma_all_down(c, counts, config, level);
    }
}

/// Without placements, no preference decides.
proof fn lemma_no_placements(c: ClusterView, counts: Map<HostView, i64>, config: ConfigView)
    requires
        config.topology_keys.is_empty(),
    ensures
        c.preferred(counts, config).len() == 0,
{
    assert forall|i: int, h: HostView| #[trigger]
        c.given(config, i).contains(h) implies c.failed.contains_key(h) by {
        assert(config.placements(i).len() == 0);
    }
    lemma_none_decides(c, counts, config);
}

/// A connection goes to a least loaded server of the first preference that has a
/// server that is up.
pub proof fn the_first_preference_with_a_server_up_decides(
    c: ClusterView,
    counts: Map<HostView, i64>,
    config: ConfigView,
    level: int,
    up: HostView,
)
    requires
        c.given(config, level).contains(up),
        !c.failed.contains_key(up),
        forall|i: int, h: HostView|
            1 <= i < level && #[trigger] c.given(config, i).contains(h) ==> c.failed.contains_key(h),
    ensures
        c.candidates(counts, config) == Ok::<Seq<HostView>, ErrorView>(
            least_loaded(c.given(config, level), counts, c.failed),
        ),
{
    assert forall|i: int| 1 <= i < level implies (#[trigger] c.level(counts, config, i)).len()
        == 0 by {
        lemma_all_down(c, counts, config, i);
    }
    least_loaded_hosts_are_up(c.given(config, level), counts, c.failed, up);
    lemma_decided(c, counts, config, level);
}

/// Without placements, no server that is up, of those that `load_balance` asks for,
/// has fewer connections than the one that is chosen.
pub proof fn a_chosen_server_has_the_fewest_connections(
    c: ClusterView,
    counts: Map<HostView, i64>,
    config: ConfigView,
    hosts: Seq<HostView>,
    host: HostView,
    other: HostView,
)
    requires
        config.topology_keys.is_empty(),
        c.candidates(counts, config) == Ok::<Seq<HostView>, ErrorView>(hosts),
        hosts.contains(host),
        c.pool(config.load_balance).contains(other),
        !c.failed.contains_key(other),
    ensures
        load(counts, host) <= load(counts, other),
{
    lemma_no_placements(c, counts, config);
    let pool = c.pool(config.load_balance);
    least_loaded_hosts_are_up(pool, counts, c.failed, other);
    lemma_least_loaded(pool, counts, c.failed, host);
}

/// No server that is up, of the first preference that has one, has fewer
/// connections than the one that is chosen.
pub proof fn a_chosen_server_has_the_fewest_connections_of_its_preference(
    c: ClusterView,
    counts: Map<HostView, i64>,
    config: ConfigView,
    level: int,
    hosts: Seq<HostView>,
    host: HostView,
    other: HostView,
)
    requires
        forall|i: int, h: HostView|
            1 <= i < level && #[trigger] c.given(config, i).contains(h) ==> c.failed.contains_key(h),
        c.candidates(counts, config) == Ok::<Seq<HostView>, ErrorView>(hosts),
        hosts.contains(host),
        c.given(config, level).contains(other),
        !c.failed.contains_key(other),
    ensures
        load(counts, host) <= load(counts, other),
{
    the_first_preference_with_a_server_up_decides(c, counts, config, level, other);
    lemma_least_loaded(c.given(config, level), counts, c.failed, host);
}

/// Where no server of a given placement is up, and others are not ruled out, a
/// connection goes where it would go without placements.
pub proof fn other_servers_are_used_when_no_preference_has_one_up(
    c: ClusterView,
    counts: Map<HostView, i64>,
    config: ConfigView,
)
    requires
        !config.keys_only(),
        forall|i: int, h: HostView|
            #[trigger] c.given(config, i).contains(h) ==> c.failed.contains_key(h),
    ensures
        c.candidates(counts, config) == c.candidates(
            counts,
            ConfigView { topology_keys: Map::empty(), ..config },
        ),
{
    lemma_none_decides(c, counts, config);
    lemma_no_placements(
        c,
        counts,
        ConfigView { topology_keys: Map::empty(), ..config },
    );
}

/// Where no server of a given placement is up and others are ruled out, there is no
/// server to connect to.
pub proof fn keys_only_fails_when_no_preference_has_one_up(
    c: ClusterView,
    counts: Map<HostView, i64>,
    config: ConfigView,
)
    requires
        config.keys_only(),
        forall|i: int, h: HostView|
            #[trigger] c.given(config, i).contains(h) ==> c.failed.contains_key(h),
    ensures
        c.candidates(counts, config) == Err::<Seq<HostView>, ErrorView>(no_preferred_server()),
{
    lemma_none_decides(c, counts, config);
}

/// Before the first connection, connections are evenly spread.
pub proof fn no_connections_are_even(
    primary: Seq<HostView>,
    rr: Seq<HostView>,
    hosts: Seq<HostView>,
    failed: Map<HostView, Nanos>,
)
    ensures
        even(hosts, initial_counts(primary, rr), failed),
{
}

/// Without placements, a connection leaves connections as evenly spread as they
/// were over the servers that `load_balance` asks for.
pub proof fn connections_stay_even_over_the_cluster(
    c: ClusterView,
    counts: Map<HostView, i64>,
    config: ConfigView,
    hosts: Seq<HostView>,
    host: HostView,
)
    requires
        config.topology_keys.is_empty(),
        even(c.pool(config.load_balance), counts, c.failed),
        c.candidates(counts, config) == Ok::<Seq<HostView>, ErrorView>(hosts),
        hosts.contains(host),
        load(counts, host) < i64::MAX,
    ensures
        even(c.pool(config.load_balance), increased(counts, host), c.failed),
{
    let pool = c.pool(config.load_balance);
    lemma_no_placements(c, counts, config);
    if least_loaded(pool, counts, c.failed).len() > 0 {
        least_loaded_keeps_connections_even(pool, counts, c.failed, host);
    } else {
        assert forall|h: HostView| #[trigger] pool.contains(h) implies c.failed.contains_key(
            h,
        ) by {
            least_loaded_hosts_are_up(pool, counts, c.failed, h);
        }
    }
}

/// With placements, a connection leaves connections as evenly spread as they were
/// over the servers of the first preference that has one that is up.
pub proof fn connections_stay_even_over_a_preference(
    c: ClusterView,
    counts: Map<HostView, i64>,
    config: ConfigView,
    level: int,
    up: HostView,
    hosts: Seq<HostView>,
    host: HostView,
)
    requires
        c.given(config, level).contains(up),
        !c.failed.contains_key(up),
        forall|i: int, h: HostView|
            1 <= i < level && #[trigger] c.given(config, i).contains(h) ==> c.failed.contains_key(h),
        even(c.given(config, level), counts, c.failed),
        c.candidates(counts, config) == Ok::<Seq<HostView>, ErrorView>(hosts),
        hosts.contains(host),
        load(counts, host) < i64::MAX,
    ensures
        even(c.given(config, level), increased(counts, host), c.failed),
{
    the_first_preference_with_a_server_up_decides(c, counts, config, level, up);
    least_loaded_keeps_connections_even(c.given(config, level), counts, c.failed, host);
}

/// The counts after a connection to each of `chosen`, in turn.
pub open spec fn counted(
    counts: Map<HostView, i64>,
    chosen: Seq<HostView>,
) -> Map<HostView, i64>
    decreases chosen.len(),
{
    if chosen.len() == 0 {
        counts
    } else {
        increased(counted(counts, chosen.drop_last()), chosen.last())
    }
}

impl ClusterView {
    /// Whether each of `chosen` may have been chosen when its turn came, with the
    /// connections before it counted.
    pub open spec fn chosen_in_turn(
        self,
        counts: Map<HostView, i64>,
        config: ConfigView,
        chosen: Seq<HostView>,
    ) -> bool
        decreases chosen.len(),
    {
        chosen.len() == 0 || {
            let before = counted(counts, chosen.drop_last());
            &&& self.chosen_in_turn(counts, config, chosen.drop_last())
            &&& self.candidates(before, config) matches Ok(hosts)
            &&& hosts.contains(chosen.last())
            &&& load(before, chosen.last()) < i64::MAX
        }
    }
}

/// However many connections are made, and however chance decides among equals,
/// without placements they are spread evenly over the servers that `load_balance`
/// asks for, if they were before.
pub proof fn connections_are_spread_evenly_over_the_cluster(
    c: ClusterView,
    counts: Map<HostView, i64>,
    config: ConfigView,
    chosen: Seq<HostView>,
)
    requires
        config.topology_keys.is_empty(),
        even(c.pool(config.load_balance), counts, c.failed),
        c.chosen_in_turn(counts, config, chosen),
    ensures
        even(c.pool(config.load_balance), counted(counts, chosen), c.failed),
    decreases chosen.len(),
{
    if chosen.len() > 0 {
        let rest = chosen.drop_last();
        let before = counted(counts, rest);
        connections_are_spread_evenly_over_the_cluster(c, counts, config, rest);
        connections_stay_even_over_the_cluster(
            c,
            before,
            config,
            c.candidates(before, config)->Ok_0,
            chosen.last(),
        );
    }
}

/// However many connections are made, and however chance decides among equals,
/// they are spread evenly over the servers of the first preference that has one
/// that is up, if they were before.
pub proof fn connections_are_spread_evenly_over_a_preference(
    c: ClusterView,
    counts: Map<HostView, i64>,
    config: ConfigView,
    level: int,
    up: HostView,
    chosen: Seq<HostView>,
)
    requires
        c.given(config, level).contains(up),
        !c.failed.contains_key(up),
        forall|i: int, h: HostView|
            1 <= i < level && #[trigger] c.given(config, i).contains(h) ==> c.failed.contains_key(h),
        even(c.given(config, level), counts, c.failed),
        c.chosen_in_turn(counts, config, chosen),
    ensures
        even(c.given(config, level), counted(counts, chosen), c.failed),
    decreases chosen.len(),
{
    if chosen.len() > 0 {
        let rest = chosen.drop_last();
        let before = counted(counts, rest);
        connections_are_spread_evenly_over_a_preference(c, counts, config, level, up, rest);
        connections_stay_even_over_a_preference(
            c,
            before,
            config,
            level,
            up,
            c.candidates(before, config)->Ok_0,
            chosen.last(),
        );
    }
}

} // verus!
