//! Which servers a connection may go to, from what is given and what is known.

use vstd::prelude::*;

use crate::balance::{lemma_decided, placement_key, placements_complete};
use crate::cluster::{placed, ClusterView};
use crate::config::ConfigView;
use crate::error::{ErrorKind, ErrorView, IoErrorKind};
use crate::host::HostView;
use crate::laws::balance::{
    least_loaded_hosts_are_up, lemma_add_contains, lemma_all_down, lemma_modes_differ,
    lemma_none_decides, lemma_zones,
};
use crate::laws::counts::{connections, least_loaded_hosts_have_the_fewest_connections};
use crate::laws::placement::{dotless, lemma_one_part};
use crate::laws::text::{joining_undoes_splitting, lemma_split_at};
use crate::least_loaded::least_loaded;
use crate::text::split_dots;

verus! {

/// Whether primary servers are considered first, or as well.
pub open spec fn considers_primary(load_balance: Seq<char>) -> bool {
    load_balance != "only-rr"@ && load_balance != "prefer-rr"@
}

/// Whether read replicas are considered first, or as well.
pub open spec fn considers_rr(load_balance: Seq<char>) -> bool {
    load_balance != "only-primary"@ && load_balance != "prefer-primary"@
}

/// Whether a placement is made up of these three parts, the last of which may have
/// dots in it.
pub open spec fn is_placement(
    placement: Seq<char>,
    cloud: Seq<char>,
    region: Seq<char>,
    zone: Seq<char>,
) -> bool {
    &&& dotless(cloud)
    &&& dotless(region)
    &&& placement == cloud + seq!['.'] + region + seq!['.'] + zone
}

/// Whether a placement has three parts or more.
pub open spec fn has_three_parts(placement: Seq<char>) -> bool {
    exists|cloud: Seq<char>, region: Seq<char>, zone: Seq<char>| #[trigger]
        is_placement(placement, cloud, region, zone)
}

/// Whether a zone is a star, alone or before a dot.
pub open spec fn is_star(zone: Seq<char>) -> bool {
    zone.len() > 0 && zone[0] == '*' && (zone.len() == 1 || zone[1] == '.')
}

/// What the servers of a placement are kept under: its region, where its zone is a
/// star, and else itself.
pub open spec fn key_of(cloud: Seq<char>, region: Seq<char>, zone: Seq<char>) -> Seq<char> {
    if is_star(zone) {
        cloud + seq!['.'] + region
    } else {
        cloud + seq!['.'] + region + seq!['.'] + zone
    }
}

/// Whether `host` is kept under `key`, and of a kind that is considered.
pub open spec fn kept_under(
    c: ClusterView,
    load_balance: Seq<char>,
    key: Seq<char>,
    host: HostView,
) -> bool {
    ||| considers_rr(load_balance) && c.placement_rr.contains_key(key)
        && c.placement_rr[key].contains(host)
    ||| considers_primary(load_balance) && c.placement_primary.contains_key(key)
        && c.placement_primary[key].contains(host)
}

/// Whether `host` is a server of a placement of preference `level`.
pub open spec fn offered(
    c: ClusterView,
    config: ConfigView,
    level: i64,
    host: HostView,
) -> bool {
    level >= 1 && config.topology_keys.contains_key(level) && exists|
        i: int,
        cloud: Seq<char>,
        region: Seq<char>,
        zone: Seq<char>,
    |
        {
            &&& 0 <= i < config.topology_keys[level].len()
            &&& #[trigger] is_placement(config.topology_keys[level][i], cloud, region, zone)
            &&& kept_under(c, config.load_balance, key_of(cloud, region, zone), host)
        }
}

/// Whether no preference before `level` has a server that is up.
pub open spec fn comes_to(c: ClusterView, config: ConfigView, level: i64) -> bool {
    forall|before: i64, host: HostView|
        1 <= before < level && #[trigger] offered(c, config, before, host)
            ==> c.failed.contains_key(host)
}

/// Whether every placement of preference `level` has three parts or more.
pub open spec fn well_given(config: ConfigView, level: i64) -> bool {
    level >= 1 && config.topology_keys.contains_key(level) ==> forall|i: int|
        0 <= i < config.topology_keys[level].len() ==> has_three_parts(
            #[trigger] config.topology_keys[level][i],
        )
}

/// Whether every preference that the search comes to is well given.
pub open spec fn can_be_searched(c: ClusterView, config: ConfigView) -> bool {
    forall|level: i64| #[trigger] comes_to(c, config, level) ==> well_given(config, level)
}

/// Whether no server of any preference is up.
pub open spec fn no_preference_is_up(c: ClusterView, config: ConfigView) -> bool {
    forall|level: i64, host: HostView| #[trigger]
        offered(c, config, level, host) ==> c.failed.contains_key(host)
}

/// Whether servers without a given placement are ruled out.
pub open spec fn others_ruled_out(config: ConfigView) -> bool {
    config.fallback_to_topology_keys_only && exists|level: i64| #[trigger]
        config.topology_keys.contains_key(level)
}

/// Whether `host` is in a list that is considered first, or as well.
pub open spec fn in_considered_list(
    c: ClusterView,
    load_balance: Seq<char>,
    host: HostView,
) -> bool {
    ||| considers_rr(load_balance) && c.rr.contains(host)
    ||| considers_primary(load_balance) && c.primary.contains(host)
}

/// Servers without a given placement are ruled out where that is asked for and a
/// placement is given.
pub proof fn others_are_ruled_out_where_that_is_asked_for(config: ConfigView)
    ensures
        config.keys_only() <==> others_ruled_out(config),
{
    if others_ruled_out(config) {
        let level = choose|level: i64| #[trigger] config.topology_keys.contains_key(level);
        assert(config.topology_keys.dom().contains(level));
    }
}

/// Where the first part of a text ends: at its end, or at a dot.
proof fn lemma_first_part(z: Seq<char>)
    ensures
        split_dots(z).len() > 0,
        split_dots(z)[0].len() <= z.len(),
        z.take(split_dots(z)[0].len() as int) == split_dots(z)[0],
        dotless(split_dots(z)[0]),
        split_dots(z).len() == 1 ==> split_dots(z)[0] == z,
        split_dots(z).len() > 1 ==> split_dots(z)[0].len() < z.len()
            && z[split_dots(z)[0].len() as int] == '.',
    decreases z.len(),
{
    joining_undoes_splitting(z);
    if z.len() > 0 {
        let rest = z.drop_last();
        lemma_first_part(rest);
        let first = split_dots(rest)[0];
        assert(rest.push(z.last()) =~= z);
        if split_dots(rest).len() > 1 || z.last() == '.' {
            assert(split_dots(z)[0] == first);
            assert(z.take(first.len() as int) =~= rest.take(first.len() as int));
        } else {
            assert(split_dots(z)[0] =~= z);
            assert(z.take(z.len() as int) =~= z);
        }
    } else {
        assert(z.take(0) =~= z);
    }
}

/// What a placement's servers are kept under, from its parts.
proof fn lemma_key(
    placement: Seq<char>,
    cloud: Seq<char>,
    region: Seq<char>,
    zone: Seq<char>,
)
    requires
        is_placement(placement, cloud, region, zone),
    ensures
        split_dots(placement).len() > 2,
        placement_key(placement) == key_of(cloud, region, zone),
{
    reveal_strlit(".");
    reveal_strlit("*");
    assert("."@ =~= seq!['.']);
    assert("*"@ =~= seq!['*']);
    let region_key = cloud + seq!['.'] + region;
    lemma_one_part(cloud);
    lemma_one_part(region);
    lemma_split_at(cloud, region);
    lemma_split_at(region_key, zone);
    lemma_first_part(zone);
    let parts = split_dots(placement);
    assert(parts[0] == cloud);
    assert(parts[1] == region);
    assert(parts[2] == split_dots(zone)[0]);
    let first = split_dots(zone)[0];
    if first == "*"@ {
        assert(zone.take(1)[0] == zone[0]);
        assert(first[0] == '*');
    }
    if is_star(zone) {
        if first.len() > 1 {
            assert(zone.take(first.len() as int)[1] == zone[1]);
            assert(first[1] == '.');
        } else if first.len() == 1 {
            assert(zone.take(1)[0] == zone[0]);
            assert(first =~= seq!['*']);
        } else {
            assert(zone[0] == '.' || first == zone);
        }
    }
}

/// A text of three parts or more is a placement.
proof fn lemma_three_parts(placement: Seq<char>)
    ensures
        split_dots(placement).len() > 2 <==> has_three_parts(placement),
{
    if has_three_parts(placement) {
        let (cloud, region, zone) = choose|cloud: Seq<char>, region: Seq<char>, zone: Seq<char>|
            #[trigger] is_placement(placement, cloud, region, zone);
        lemma_key(placement, cloud, region, zone);
    }
    if split_dots(placement).len() > 2 {
        lemma_first_part(placement);
        let cloud = split_dots(placement)[0];
        let rest = placement.skip(cloud.len() as int + 1);
        assert(placement =~= cloud + seq!['.'] + rest);
        lemma_split_at(cloud, rest);
        lemma_one_part(cloud);
        assert(split_dots(rest).len() > 1);
        lemma_first_part(rest);
        let region = split_dots(rest)[0];
        let zone = rest.skip(region.len() as int + 1);
        assert(rest =~= region + seq!['.'] + zone);
        assert(placement =~= cloud + seq!['.'] + region + seq!['.'] + zone);
        assert(is_placement(placement, cloud, region, zone));
    }
}

proof fn lemma_kept_under(
    c: ClusterView,
    load_balance: Seq<char>,
    key: Seq<char>,
    host: HostView,
)
    ensures
        c.zone(load_balance, key).contains(host) <==> kept_under(c, load_balance, key, host),
{
    lemma_modes_differ();
    lemma_add_contains(placed(c.placement_rr, key), placed(c.placement_primary, key), host);
    assert(!Seq::<HostView>::empty().contains(host));
}

/// A server of one of several placements is a server of them all together.
proof fn lemma_in_zones(
    c: ClusterView,
    load_balance: Seq<char>,
    placements: Seq<Seq<char>>,
    i: int,
    host: HostView,
)
    requires
        0 <= i < placements.len(),
        c.zone(load_balance, placement_key(placements[i])).contains(host),
    ensures
        c.zones(load_balance, placements).contains(host),
    decreases placements.len(),
{
    let rest = placements.drop_last();
    lemma_add_contains(
        c.zones(load_balance, rest),
        c.zone(load_balance, placement_key(placements.last())),
        host,
    );
    if i < rest.len() {
        assert(rest[i] == placements[i]);
        lemma_in_zones(c, load_balance, rest, i, host);
    }
}

/// Every server of every placement of a preference is considered, and no other is,
/// whatever `load_balance` asks for.
pub proof fn every_placement_of_a_preference_is_considered(
    c: ClusterView,
    config: ConfigView,
    level: i64,
    host: HostView,
)
    requires
        well_given(config, level),
    ensures
        c.given(config, level as int).contains(host) <==> offered(c, config, level, host),
{
    let placements = config.placements(level as int);
    let lb = config.load_balance;
    if c.given(config, level as int).contains(host) {
        let i = lemma_zones(c, lb, placements, host);
        assert(has_three_parts(config.topology_keys[level][i]));
        let (cloud, region, zone) = choose|cloud: Seq<char>, region: Seq<char>, zone: Seq<char>|
            #[trigger] is_placement(config.topology_keys[level][i], cloud, region, zone);
        lemma_key(placements[i], cloud, region, zone);
        lemma_kept_under(c, lb, key_of(cloud, region, zone), host);
        assert(is_placement(config.topology_keys[level][i], cloud, region, zone));
    }
    if offered(c, config, level, host) {
        let (i, cloud, region, zone) = choose|
            i: int,
            cloud: Seq<char>,
            region: Seq<char>,
            zone: Seq<char>,
        |
            {
                &&& 0 <= i < config.topology_keys[level].len()
                &&& #[trigger] is_placement(config.topology_keys[level][i], cloud, region, zone)
                &&& kept_under(c, config.load_balance, key_of(cloud, region, zone), host)
            };
        lemma_key(placements[i], cloud, region, zone);
        lemma_kept_under(c, lb, key_of(cloud, region, zone), host);
        lemma_in_zones(c, lb, placements, i, host);
    }
}

proof fn lemma_well_given(config: ConfigView, level: i64)
    ensures
        well_given(config, level) <==> placements_complete(config.placements(level as int)),
{
    let placements = config.placements(level as int);
    assert forall|i: int| 0 <= i < placements.len() implies (split_dots(
        #[trigger] placements[i],
    ).len() > 2 <==> has_three_parts(placements[i])) by {
        lemma_three_parts(placements[i]);
    }
    if placements_complete(placements) && level >= 1 && config.topology_keys.contains_key(level) {
        assert forall|i: int| 0 <= i < config.topology_keys[level].len() implies has_three_parts(
            #[trigger] config.topology_keys[level][i],
        ) by {
            assert(split_dots(placements[i]).len() > 2);
        }
    }
    if well_given(config, level) {
        assert forall|i: int| 0 <= i < placements.len() implies split_dots(
            #[trigger] placements[i],
        ).len() > 2 by {
            assert(has_three_parts(config.topology_keys[level][i]));
        }
    }
}

/// What the search comes to, it comes to because nothing before it is up.
proof fn lemma_comes_to(
    c: ClusterView,
    counts: Map<HostView, i64>,
    config: ConfigView,
    level: i64,
)
    requires
        forall|before: i64| 1 <= before < level ==> #[trigger] well_given(config, before),
    ensures
        c.reached(counts, config, level as int) <==> comes_to(c, config, level),
{
    if comes_to(c, config, level) {
        assert forall|i: int| 1 <= i < level implies (#[trigger] c.level(
            counts,
            config,
            i,
        )).len() == 0 by {
            let before = i as i64;
            assert(well_given(config, before));
            assert forall|h: HostView| #[trigger]
                c.given(config, i).contains(h) implies c.failed.contains_key(h) by {
                every_placement_of_a_preference_is_considered(c, config, before, h);
            }
            lemma_all_down(c, counts, config, i);
        }
    }
    if c.reached(counts, config, level as int) {
        assert forall|before: i64, host: HostView|
            1 <= before < level && #[trigger] offered(
                c,
                config,
                before,
                host,
            ) implies c.failed.contains_key(host) by {
            assert(well_given(config, before));
            every_placement_of_a_preference_is_considered(c, config, before, host);
            if !c.failed.contains_key(host) {
                least_loaded_hosts_are_up(
                    c.given(config, before as int),
                    counts,
                    c.failed,
                    host,
                );
                assert(c.level(counts, config, before as int).len() > 0);
            }
        }
    }
}

proof fn lemma_earlier_well_given(
    c: ClusterView,
    config: ConfigView,
    level: i64,
    before: i64,
)
    requires
        can_be_searched(c, config),
        comes_to(c, config, level),
        before <= level,
    ensures
        well_given(config, before),
{
    assert(comes_to(c, config, before));
}

/// Where the search meets a preference that is not well given, it meets a first
/// one.
proof fn lemma_searched_before(
    c: ClusterView,
    counts: Map<HostView, i64>,
    config: ConfigView,
    level: i64,
)
    requires
        c.searchable(counts, config),
        level >= 0,
        c.reached(counts, config, level as int) || comes_to(c, config, level),
    ensures
        forall|before: i64| 1 <= before < level ==> #[trigger] well_given(config, before),
        c.reached(counts, config, level as int),
        comes_to(c, config, level),
    decreases level,
{
    if level > 0 {
        let less = (level - 1) as i64;
        if c.reached(counts, config, level as int) {
            assert(c.reached(counts, config, less as int));
        } else {
            assert(comes_to(c, config, less));
        }
        lemma_searched_before(c, counts, config, less);
        assert(c.reached(counts, config, less as int));
        lemma_well_given(config, less);
        assert forall|before: i64| 1 <= before < level implies #[trigger] well_given(
            config,
            before,
        ) by {}
        lemma_comes_to(c, counts, config, level);
    } else {
        lemma_comes_to(c, counts, config, level);
    }
}

proof fn lemma_can_be_searched_before(
    c: ClusterView,
    counts: Map<HostView, i64>,
    config: ConfigView,
    level: i64,
)
    requires
        can_be_searched(c, config),
        level >= 0,
        c.reached(counts, config, level as int),
    ensures
        comes_to(c, config, level),
    decreases level,
{
    if level > 0 {
        let less = (level - 1) as i64;
        assert(c.reached(counts, config, less as int));
        lemma_can_be_searched_before(c, counts, config, less);
        assert forall|before: i64| 1 <= before < level implies #[trigger] well_given(
            config,
            before,
        ) by {
            lemma_earlier_well_given(c, config, less, before);
        }
        lemma_comes_to(c, counts, config, level);
    }
}

/// The search meets placements of three parts or more only if and only if every
/// preference that it comes to has no others.
pub proof fn what_can_be_searched(c: ClusterView, counts: Map<HostView, i64>, config: ConfigView)
    ensures
        c.searchable(counts, config) <==> can_be_searched(c, config),
{
    if c.searchable(counts, config) {
        assert forall|level: i64| #[trigger] comes_to(c, config, level) implies well_given(
            config,
            level,
        ) by {
            if level >= 1 {
                lemma_searched_before(c, counts, config, level);
                lemma_well_given(config, level);
            }
        }
    }
    if can_be_searched(c, config) {
        assert forall|level: int| #[trigger]
            c.reached(counts, config, level) implies placements_complete(
            config.placements(level),
        ) by {
            if 1 <= level <= i64::MAX {
                lemma_can_be_searched_before(c, counts, config, level as i64);
                lemma_well_given(config, level as i64);
            }
        }
    }
}

/// Where a server of a preference is up, and none of a preference before it, a
/// connection goes to one of the servers of that preference: to any that is up and
/// has no more connections than any other of them that is up.
pub proof fn a_connection_goes_to_the_first_preference_that_is_up(
    c: ClusterView,
    counts: Map<HostView, i64>,
    config: ConfigView,
    level: i64,
    up: HostView,
    host: HostView,
)
    requires
        can_be_searched(c, config),
        comes_to(c, config, level),
        offered(c, config, level, up),
        !c.failed.contains_key(up),
    ensures
        c.candidates(counts, config) is Ok,
        c.candidates(counts, config)->Ok_0.contains(host) <==> {
            &&& offered(c, config, level, host)
            &&& !c.failed.contains_key(host)
            &&& forall|other: HostView| #[trigger]
                offered(c, config, level, other) && !c.failed.contains_key(other) ==> connections(
                    counts,
                    host,
                ) <= connections(counts, other)
        },
{
    let given = c.given(config, level as int);
    assert forall|before: i64| 1 <= before < level implies #[trigger] well_given(
        config,
        before,
    ) by {
        lemma_earlier_well_given(c, config, level, before);
    }
    lemma_comes_to(c, counts, config, level);
    assert forall|h: HostView|
        #![trigger given.contains(h)]
        #![trigger offered(c, config, level, h)]
        given.contains(h) <==> offered(c, config, level, h) by {
        every_placement_of_a_preference_is_considered(c, config, level, h);
    }
    least_loaded_hosts_are_up(given, counts, c.failed, up);
    lemma_decided(c, counts, config, level as int);
    least_loaded_hosts_have_the_fewest_connections(given, counts, c.failed, host);
    assert(c.candidates(counts, config) == Ok::<Seq<HostView>, ErrorView>(
        least_loaded(given, counts, c.failed),
    ));
}

proof fn lemma_nothing_preferred(
    c: ClusterView,
    counts: Map<HostView, i64>,
    config: ConfigView,
)
    requires
        can_be_searched(c, config),
        no_preference_is_up(c, config),
    ensures
        c.preferred(counts, config).len() == 0,
{
    assert forall|i: int, h: HostView| #[trigger]
        c.given(config, i).contains(h) implies c.failed.contains_key(h) by {
        if 1 <= i <= i64::MAX {
            assert(comes_to(c, config, i as i64));
            every_placement_of_a_preference_is_considered(c, config, i as i64, h);
        } else {
            assert(config.placements(i).len() == 0);
        }
    }
    lemma_none_decides(c, counts, config);
}

/// Where no server of a preference is up and others are ruled out, a connection is
/// refused, whatever `load_balance` asks for.
pub proof fn a_connection_is_refused_outside_the_preferences(
    c: ClusterView,
    counts: Map<HostView, i64>,
    config: ConfigView,
)
    requires
        can_be_searched(c, config),
        no_preference_is_up(c, config),
        others_ruled_out(config),
    ensures
        ({
            let refused = c.candidates(counts, config);
            &&& refused is Err
            &&& refused->Err_0.kind == ErrorKind::Connect(IoErrorKind::ConnectionRefused)
            &&& refused->Err_0.message == "error connecting to server"@
            &&& refused->Err_0.causes == seq![
                "no preferred server available, fallback-to-topology-keys-only is set to true"@,
            ]
        }),
{
    lemma_nothing_preferred(c, counts, config);
}

proof fn lemma_pool(c: ClusterView, load_balance: Seq<char>, host: HostView)
    ensures
        c.pool(load_balance).contains(host) <==> in_considered_list(c, load_balance, host),
{
    lemma_modes_differ();
    lemma_add_contains(c.rr, c.primary, host);
}

/// Where no server of a preference is up and others are not ruled out, a connection
/// goes to a server in the lists that are considered: to any that is up and has no
/// more connections than any other in them that is up.
pub proof fn a_connection_goes_to_the_considered_lists(
    c: ClusterView,
    counts: Map<HostView, i64>,
    config: ConfigView,
    up: HostView,
    host: HostView,
)
    requires
        can_be_searched(c, config),
        no_preference_is_up(c, config),
        !others_ruled_out(config),
        in_considered_list(c, config.load_balance, up),
        !c.failed.contains_key(up),
    ensures
        c.candidates(counts, config) is Ok,
        c.candidates(counts, config)->Ok_0.contains(host) <==> {
            &&& in_considered_list(c, config.load_balance, host)
            &&& !c.failed.contains_key(host)
            &&& forall|other: HostView| #[trigger]
                in_considered_list(c, config.load_balance, other) && !c.failed.contains_key(other)
                    ==> connections(counts, host) <= connections(counts, other)
        },
{
    let pool = c.pool(config.load_balance);
    lemma_nothing_preferred(c, counts, config);
    assert forall|h: HostView|
        #![trigger pool.contains(h)]
        #![trigger in_considered_list(c, config.load_balance, h)]
        pool.contains(h) <==> in_considered_list(c, config.load_balance, h) by {
        lemma_pool(c, config.load_balance, h);
    }
    assert(!config.keys_only());
    least_loaded_hosts_are_up(pool, counts, c.failed, up);
    least_loaded_hosts_have_the_fewest_connections(pool, counts, c.failed, host);
}

proof fn lemma_pool_down(c: ClusterView, counts: Map<HostView, i64>, load_balance: Seq<char>)
    requires
        forall|h: HostView| #[trigger]
            in_considered_list(c, load_balance, h) ==> c.failed.contains_key(h),
    ensures
        least_loaded(c.pool(load_balance), counts, c.failed).len() == 0,
{
    let first = least_loaded(c.pool(load_balance), counts, c.failed);
    if first.len() > 0 {
        assert(first.contains(first[0]));
        least_loaded_hosts_are_up(c.pool(load_balance), counts, c.failed, first[0]);
        lemma_pool(c, load_balance, first[0]);
    }
}

/// Where one kind of server is only preferred and none of it is up, nor a server of
/// a preference, a connection goes to the other kind: to any that is up and has no
/// more connections than any other of it that is up.
pub proof fn a_connection_goes_to_the_other_kind(
    c: ClusterView,
    counts: Map<HostView, i64>,
    config: ConfigView,
    up: HostView,
    host: HostView,
)
    requires
        can_be_searched(c, config),
        no_preference_is_up(c, config),
        !others_ruled_out(config),
        config.load_balance == "prefer-rr"@ || config.load_balance == "prefer-primary"@,
        forall|h: HostView| #[trigger]
            in_considered_list(c, config.load_balance, h) ==> c.failed.contains_key(h),
        config.load_balance == "prefer-rr"@ ==> c.primary.contains(up),
        config.load_balance == "prefer-primary"@ ==> c.rr.contains(up),
        !c.failed.contains_key(up),
    ensures
        ({
            let others = if config.load_balance == "prefer-rr"@ {
                c.primary
            } else {
                c.rr
            };
            &&& c.candidates(counts, config) is Ok
            &&& c.candidates(counts, config)->Ok_0.contains(host) <==> {
                &&& others.contains(host)
                &&& !c.failed.contains_key(host)
                &&& forall|other: HostView|
                    #![trigger c.failed.contains_key(other)]
                    others.contains(other) && !c.failed.contains_key(other) ==> connections(
                        counts,
                        host,
                    ) <= connections(counts, other)
            }
        }),
{
    lemma_modes_differ();
    lemma_nothing_preferred(c, counts, config);
    lemma_pool_down(c, counts, config.load_balance);
    assert(!config.keys_only());
    least_loaded_hosts_are_up(c.primary, counts, c.failed, up);
    least_loaded_hosts_are_up(c.rr, counts, c.failed, up);
    least_loaded_hosts_have_the_fewest_connections(c.primary, counts, c.failed, host);
    least_loaded_hosts_have_the_fewest_connections(c.rr, counts, c.failed, host);
}

/// Where no server that may be used is up, a connection is refused.
pub proof fn a_connection_is_refused_where_nothing_is_up(
    c: ClusterView,
    counts: Map<HostView, i64>,
    config: ConfigView,
)
    requires
        can_be_searched(c, config),
        no_preference_is_up(c, config),
        !others_ruled_out(config),
        forall|h: HostView| #[trigger]
            in_considered_list(c, config.load_balance, h) ==> c.failed.contains_key(h),
        config.load_balance == "prefer-rr"@ ==> forall|h: HostView| #[trigger]
            c.primary.contains(h) ==> c.failed.contains_key(h),
        config.load_balance == "prefer-primary"@ ==> forall|h: HostView| #[trigger]
            c.rr.contains(h) ==> c.failed.contains_key(h),
    ensures
        ({
            let refused = c.candidates(counts, config);
            &&& refused is Err
            &&& refused->Err_0.kind == ErrorKind::Connect(IoErrorKind::ConnectionRefused)
            &&& refused->Err_0.message == "error connecting to server"@
            &&& refused->Err_0.causes == seq!["could not find a server to connect to"@]
        }),
{
    lemma_modes_differ();
    lemma_nothing_preferred(c, counts, config);
    lemma_pool_down(c, counts, config.load_balance);
    assert(!config.keys_only());
    let primary = least_loaded(c.primary, counts, c.failed);
    let rr = least_loaded(c.rr, counts, c.failed);
    if config.load_balance == "prefer-rr"@ && primary.len() > 0 {
        assert(primary.contains(primary[0]));
        least_loaded_hosts_are_up(c.primary, counts, c.failed, primary[0]);
    }
    if config.load_balance == "prefer-primary"@ && rr.len() > 0 {
        assert(rr.contains(rr[0]));
        least_loaded_hosts_are_up(c.rr, counts, c.failed, rr[0]);
    }
}

/// The servers that are kept under `key`: none, where nothing is.
pub open spec fn kept(m: Map<Seq<char>, Seq<HostView>>, key: Seq<char>) -> Seq<HostView> {
    if m.contains_key(key) {
        m[key]
    } else {
        Seq::empty()
    }
}

/// Servers come in the order of their placements, and the read replicas of each
/// before its primary servers; those of the lists likewise.
pub proof fn servers_come_in_the_order_of_their_placements(
    c: ClusterView,
    load_balance: Seq<char>,
    a: Seq<Seq<char>>,
    b: Seq<Seq<char>>,
    placement: Seq<char>,
    key: Seq<char>,
)
    ensures
        c.zones(load_balance, a + b) == c.zones(load_balance, a) + c.zones(load_balance, b),
        c.zones(load_balance, seq![placement]) == c.zone(load_balance, placement_key(placement)),
        considers_rr(load_balance) && considers_primary(load_balance) ==> c.zone(load_balance, key)
            == kept(c.placement_rr, key) + kept(c.placement_primary, key) && c.pool(load_balance)
            == c.rr + c.primary,
        !considers_primary(load_balance) ==> c.zone(load_balance, key) == kept(c.placement_rr, key)
            && c.pool(load_balance) == c.rr,
        !considers_rr(load_balance) ==> c.zone(load_balance, key) == kept(c.placement_primary, key)
            && c.pool(load_balance) == c.primary,
    decreases b.len(),
{
    lemma_modes_differ();
    let one = seq![placement];
    assert(one.drop_last() =~= Seq::<Seq<char>>::empty());
    assert(c.zones(load_balance, one.drop_last()) =~= Seq::<HostView>::empty());
    assert(c.zones(load_balance, one) =~= c.zone(load_balance, placement_key(placement)));
    if b.len() > 0 {
        let rest = b.drop_last();
        servers_come_in_the_order_of_their_placements(
            c,
            load_balance,
            a,
            rest,
            placement,
            key,
        );
        assert((a + b).drop_last() =~= a + rest);
        assert((a + b).last() == b.last());
        assert(c.zones(load_balance, a + b) =~= c.zones(load_balance, a) + c.zones(
            load_balance,
            b,
        ));
    } else {
        assert(a + b =~= a);
        assert(c.zones(load_balance, a + b) =~= c.zones(load_balance, a) + c.zones(
            load_balance,
            b,
        ));
    }
}

} // verus!
