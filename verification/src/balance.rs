//! Which server a connection goes to.

use vstd::prelude::*;
use vstd::string::*;

use crate::cluster::{placed, ClusterState, ClusterView};
use crate::config::{Config, ConfigView};
use crate::error::{connect_error, Error, ErrorView, IoErrorKind};
use crate::host::{extend_hosts, views, Host, HostView};
use crate::host_map::HostMap;
use crate::least_loaded::{get_least_loaded_hosts, least_loaded};
use crate::random::index_below;
use crate::text::{is_text, split_at_dots, split_dots, texts};

verus! {

broadcast use vstd::std_specs::hash::group_hash_axioms;

/// Whether the read replicas come first, or alone.
pub open spec fn wants_rr(load_balance: Seq<char>) -> bool {
    load_balance == "only-rr"@ || load_balance == "prefer-rr"@
}

/// Whether the primary servers come first, or alone.
pub open spec fn wants_primary(load_balance: Seq<char>) -> bool {
    load_balance == "only-primary"@ || load_balance == "prefer-primary"@
}

/// Whether one kind of server comes first and the other after it.
pub open spec fn prefers(load_balance: Seq<char>) -> bool {
    load_balance == "prefer-primary"@ || load_balance == "prefer-rr"@
}

impl ClusterView {
    /// The servers that are considered first, wherever they are.
    pub open spec fn pool(self, load_balance: Seq<char>) -> Seq<HostView> {
        if wants_rr(load_balance) {
            self.rr
        } else if wants_primary(load_balance) {
            self.primary
        } else {
            self.rr + self.primary
        }
    }

    /// The servers of a placement that are considered.
    pub open spec fn zone(self, load_balance: Seq<char>, key: Seq<char>) -> Seq<HostView> {
        if wants_rr(load_balance) {
            placed(self.placement_rr, key)
        } else if wants_primary(load_balance) {
            placed(self.placement_primary, key)
        } else {
            placed(self.placement_rr, key) + placed(self.placement_primary, key)
        }
    }

    /// The servers of several placements, in order.
    pub open spec fn zones(
        self,
        load_balance: Seq<char>,
        placements: Seq<Seq<char>>,
    ) -> Seq<HostView>
        decreases placements.len(),
    {
        if placements.len() == 0 {
            Seq::empty()
        } else {
            self.zones(load_balance, placements.drop_last()) + self.zone(
                load_balance,
                placement_key(placements.last()),
            )
        }
    }

    /// The servers of preference `level` that are considered.
    pub open spec fn given(self, config: ConfigView, level: int) -> Seq<HostView> {
        self.zones(config.load_balance, config.placements(level))
    }

    /// The least loaded servers among those of preference `level`.
    pub open spec fn level(
        self,
        counts: Map<HostView, i64>,
        config: ConfigView,
        level: int,
    ) -> Seq<HostView> {
        least_loaded(self.given(config, level), counts, self.failed)
    }

    /// Whether no preference before `level` has a server that is up, so that the
    /// search comes to it.
    pub open spec fn reached(
        self,
        counts: Map<HostView, i64>,
        config: ConfigView,
        level: int,
    ) -> bool {
        forall|i: int| 1 <= i < level ==> (#[trigger] self.level(counts, config, i)).len() == 0
    }

    /// Whether `level` is the first preference that has a server that is up.
    pub open spec fn decides(
        self,
        counts: Map<HostView, i64>,
        config: ConfigView,
        level: int,
    ) -> bool {
        self.reached(counts, config, level) && self.level(counts, config, level).len() > 0
    }

    /// The least loaded servers of the first preference that has a server that is
    /// up; none, where no preference has one.
    pub open spec fn preferred(
        self,
        counts: Map<HostView, i64>,
        config: ConfigView,
    ) -> Seq<HostView> {
        if exists|level: int| #[trigger] self.decides(counts, config, level) {
            self.level(
                counts,
                config,
                choose|level: int| #[trigger] self.decides(counts, config, level),
            )
        } else {
            Seq::empty()
        }
    }

    /// Whether the search of the preferences meets placements of three parts or
    /// more only.
    pub open spec fn searchable(self, counts: Map<HostView, i64>, config: ConfigView) -> bool {
        forall|level: int| #[trigger]
            self.reached(counts, config, level) ==> placements_complete(config.placements(level))
    }

    /// The servers that a connection may go to, or why there is none.
    pub open spec fn candidates(
        self,
        counts: Map<HostView, i64>,
        config: ConfigView,
    ) -> Result<Seq<HostView>, ErrorView> {
        let preferred = self.preferred(counts, config);
        let first = least_loaded(self.pool(config.load_balance), counts, self.failed);
        let other = if config.load_balance == "prefer-rr"@ {
            least_loaded(self.primary, counts, self.failed)
        } else {
            least_loaded(self.rr, counts, self.failed)
        };
        if preferred.len() > 0 {
            Ok(preferred)
        } else if config.keys_only() {
            Err(no_preferred_server())
        } else if first.len() > 0 {
            Ok(first)
        } else if prefers(config.load_balance) && other.len() > 0 {
            Ok(other)
        } else {
            Err(no_server())
        }
    }
}

impl ConfigView {
    /// The placements that have preference `level`: none, where none is given it.
    /// Preferences are counted from one.
    pub open spec fn placements(self, level: int) -> Seq<Seq<char>> {
        if 1 <= level <= i64::MAX && self.topology_keys.contains_key(level as i64) {
            self.topology_keys[level as i64]
        } else {
            Seq::empty()
        }
    }

    /// Whether servers outside the given placements are ruled out.
    pub open spec fn keys_only(self) -> bool {
        !self.topology_keys.is_empty() && self.fallback_to_topology_keys_only
    }
}

/// Whether each placement has three parts or more.
pub open spec fn placements_complete(placements: Seq<Seq<char>>) -> bool {
    forall|i: int| 0 <= i < placements.len() ==> split_dots(#[trigger] placements[i]).len() > 2
}

/// The key that the servers of a placement are found by: `cloud.region` for
/// `cloud.region.*`, else the placement itself.
pub open spec fn placement_key(placement: Seq<char>) -> Seq<char> {
    let parts = split_dots(placement);
    if parts[2] == "*"@ {
        parts[0] + "."@ + parts[1]
    } else {
        placement
    }
}

/// No server of the given placements is up, and no other may be used.
pub open spec fn no_preferred_server() -> ErrorView {
    connect_error(
        IoErrorKind::ConnectionRefused,
        "no preferred server available, fallback-to-topology-keys-only is set to true"@,
    )
}

/// No server is up.
pub open spec fn no_server() -> ErrorView {
    connect_error(IoErrorKind::ConnectionRefused, "could not find a server to connect to"@)
}

fn read_replicas_first(config: &Config) -> (r: bool)
    ensures
        r == wants_rr(config@.load_balance),
{
    is_text(&config.load_balance, "only-rr") || is_text(&config.load_balance, "prefer-rr")
}

fn primary_first(config: &Config) -> (r: bool)
    ensures
        r == wants_primary(config@.load_balance),
{
    is_text(&config.load_balance, "only-primary") || is_text(&config.load_balance, "prefer-primary")
}

/// Finds the key that the servers of a placement are kept under.
fn find_placement_key(placement: &String) -> (r: String)
    requires
        split_dots(placement@).len() > 2,
    ensures
        r@ == placement_key(placement@),
{
    let parts: Vec<String> = split_at_dots(placement.as_str());
    assert(texts(parts@)[0] == parts@[0]@);
    assert(texts(parts@)[1] == parts@[1]@);
    assert(texts(parts@)[2] == parts@[2]@);
    if is_text(&parts[2], "*") {
        parts[0].clone().concat(".").concat(parts[1].as_str())
    } else {
        placement.clone()
    }
}

fn extend_some(hosts: &mut Vec<Host>, more: Option<&Vec<Host>>)
    ensures
        views(final(hosts)@) == views(old(hosts)@) + match more {
            Some(m) => views(m@),
            None => Seq::empty(),
        },
{
    match more {
        Some(m) => extend_hosts(hosts, m),
        None => {
            assert(views(hosts@) =~= views(hosts@) + Seq::<HostView>::empty());
        },
    }
}

/// Collects the servers of several placements, in order.
fn servers_of_placements(
    config: &Config,
    cluster: &ClusterState,
    placements: &Vec<String>,
) -> (r: Vec<Host>)
    requires
        placements_complete(texts(placements@)),
    ensures
        views(r@) == cluster@.zones(config@.load_balance, texts(placements@)),
{
    let ghost all = texts(placements@);
    let ghost lb = config@.load_balance;
    let rr_first: bool = read_replicas_first(config);
    let primary_only: bool = primary_first(config);
    let mut server: Vec<Host> = Vec::new();
    let mut i: usize = 0;
    assert(views(server@) =~= cluster@.zones(lb, all.take(0)));
    while i < placements.len()
        invariant
            i <= placements.len(),
            all == texts(placements@),
            lb == config@.load_balance,
            rr_first == wants_rr(lb),
            primary_only == wants_primary(lb),
            placements_complete(all),
            views(server@) == cluster@.zones(lb, all.take(i as int)),
        decreases placements.len() - i,
    {
        assert(all[i as int] == placements@[i as int]@);
        let key: String = find_placement_key(&placements[i]);
        let ghost before = views(server@);
        if rr_first || !primary_only {
            extend_some(&mut server, cluster.placed_read_replicas(key.as_str()));
        }
        if !rr_first {
            extend_some(&mut server, cluster.placed_primary(key.as_str()));
        }
        assert(all.take(i + 1).drop_last() =~= all.take(i as int));
        assert(views(server@) =~= before + cluster@.zone(lb, key@));
        i += 1;
    }
    assert(all.take(all.len() as int) =~= all);
    server
}

/// Lists the preferences that placements are given, in no particular order.
fn preferences(config: &Config) -> (r: Vec<i64>)
    ensures
        forall|level: i64| #[trigger]
            r@.contains(level) <==> config@.topology_keys.contains_key(level),
{
    let ghost given = config.topology_keys@.dom();
    let mut r: Vec<i64> = Vec::new();
    for key in iter: config.topology_keys.keys()
        invariant
            given == config.topology_keys@.dom(),
            iter.seq().unref().to_set() == given,
            r@ == iter.seq().unref().take(iter.index() as int),
            iter.index() == iter.seq().len() ==> r@.to_set() == given,
    {
        r.push(*key);
        assert(r@ =~= iter.seq().unref().take(iter.index() + 1));
        assert(iter.index() + 1 == iter.seq().len() ==> r@ =~= iter.seq().unref());
    }
    assert(forall|level: i64| #[trigger] r@.contains(level) <==> r@.to_set().contains(level));
    r
}

/// The lowest of `keys` above `level`.
fn next_preference(keys: &Vec<i64>, level: i64) -> (r: Option<i64>)
    ensures
        match r {
            Some(next) => {
                &&& keys@.contains(next)
                &&& next > level
                &&& forall|k: i64| #[trigger] keys@.contains(k) && k > level ==> k >= next
            },
            None => forall|k: i64| #[trigger] keys@.contains(k) ==> k <= level,
        },
{
    let mut r: Option<i64> = None;
    let mut i: usize = 0;
    while i < keys.len()
        invariant
            i <= keys.len(),
            match r {
                Some(next) => {
                    &&& keys@.contains(next)
                    &&& next > level
                    &&& forall|j: int| 0 <= j < i && #[trigger] keys@[j] > level ==> keys@[j] >= next
                },
                None => forall|j: int| 0 <= j < i ==> #[trigger] keys@[j] <= level,
            },
        decreases keys.len() - i,
    {
        let key: i64 = keys[i];
        assert(keys@.contains(key));
        if key > level {
            r = match r {
                Some(next) => if key < next {
                    Some(key)
                } else {
                    Some(next)
                },
                None => Some(key),
            };
        }
        i += 1;
    }
    r
}

/// Whether servers outside the given placements are ruled out.
pub fn keys_only(config: &Config) -> (r: bool)
    ensures
        r == config@.keys_only(),
{
    assert(config@.topology_keys.dom() =~= config.topology_keys@.dom());
    !config.topology_keys.is_empty() && config.fallback_to_topology_keys_only
}

/// Whether each placement has three parts or more.
fn all_complete(placements: &Vec<String>) -> (r: bool)
    ensures
        r == placements_complete(texts(placements@)),
{
    let mut i: usize = 0;
    while i < placements.len()
        invariant
            i <= placements.len(),
            forall|j: int|
                0 <= j < i ==> split_dots(#[trigger] texts(placements@)[j]).len() > 2,
        decreases placements.len() - i,
    {
        assert(texts(placements@)[i as int] == placements@[i as int]@);
        let parts: Vec<String> = split_at_dots(placements[i].as_str());
        assert(texts(parts@).len() == parts@.len());
        if parts.len() <= 2 {
            return false;
        }
        i += 1;
    }
    true
}

/// A preference that no placement is given has no server.
proof fn lemma_nothing_given(
    c: ClusterView,
    counts: Map<HostView, i64>,
    config: ConfigView,
    level: int,
)
    requires
        config.placements(level).len() == 0,
    ensures
        c.level(counts, config, level).len() == 0,
{
    reveal(Seq::filter);
}

/// The search goes from one preference that is given to the next one.
proof fn lemma_next_reached(
    c: ClusterView,
    counts: Map<HostView, i64>,
    config: ConfigView,
    level: int,
    next: int,
)
    requires
        c.reached(counts, config, level + 1),
        forall|i: int| level < i < next ==> (#[trigger] config.placements(i)).len() == 0,
    ensures
        c.reached(counts, config, next),
{
    assert forall|i: int| 1 <= i < next implies (#[trigger] c.level(counts, config, i)).len()
        == 0 by {
        if i > level {
            assert(config.placements(i).len() == 0);
            lemma_nothing_given(c, counts, config, i);
        }
    }
}

/// Only one preference decides.
pub proof fn lemma_decided(
    c: ClusterView,
    counts: Map<HostView, i64>,
    config: ConfigView,
    level: int,
)
    requires
        c.decides(counts, config, level),
    ensures
        c.preferred(counts, config) == c.level(counts, config, level),
{
    let chosen = choose|l: int| #[trigger] c.decides(counts, config, l);
    if level < 1 {
        assert(config.placements(level).len() == 0);
        lemma_nothing_given(c, counts, config, level);
    }
    if chosen < 1 {
        assert(config.placements(chosen).len() == 0);
        lemma_nothing_given(c, counts, config, chosen);
    }
    assert(chosen == level) by {
        if chosen < level {
            assert(c.level(counts, config, chosen).len() == 0);
        } else if level < chosen {
            assert(c.level(counts, config, level).len() == 0);
        }
    }
}

/// Where the search comes to its end, no preference decides.
proof fn lemma_undecided(
    c: ClusterView,
    counts: Map<HostView, i64>,
    config: ConfigView,
    level: int,
)
    requires
        c.reached(counts, config, level + 1),
        forall|i: int| level < i ==> (#[trigger] config.placements(i)).len() == 0,
    ensures
        c.preferred(counts, config).len() == 0,
{
    if exists|l: int| #[trigger] c.decides(counts, config, l) {
        let chosen = choose|l: int| #[trigger] c.decides(counts, config, l);
        if chosen < 1 || chosen > level {
            assert(config.placements(chosen).len() == 0);
            lemma_nothing_given(c, counts, config, chosen);
        } else {
            assert(c.level(counts, config, chosen).len() == 0);
        }
    }
}

/// Goes on with the search, from `level` to the next preference that placements are
/// given.
fn search_on<'a>(
    config: &'a Config,
    cluster: &ClusterState,
    conn_map: &HostMap<i64>,
    keys: &Vec<i64>,
    level: i64,
) -> (r: Option<(i64, &'a Vec<String>)>)
    requires
        0 <= level,
        forall|k: i64| #[trigger] keys@.contains(k) <==> config@.topology_keys.contains_key(k),
        cluster@.reached(conn_map@, config@, level + 1),
    ensures
        match r {
            Some((next, placements)) => {
                &&& next > level
                &&& texts(placements@) == config@.placements(next as int)
                &&& cluster@.reached(conn_map@, config@, next as int)
                &&& forall|i: int|
                    level < i < next ==> (#[trigger] config@.placements(i)).len() == 0
            },
            None => forall|i: int| level < i ==> (#[trigger] config@.placements(i)).len() == 0,
        },
{
    match next_preference(keys, level) {
        Some(next) => {
            proof {
                assert forall|i: int| level < i < next implies (#[trigger] config@.placements(
                    i,
                )).len() == 0 by {
                    assert(!keys@.contains(i as i64));
                }
                lemma_next_reached(cluster@, conn_map@, config@, level as int, next as int);
                assert(config@.topology_keys.contains_key(next));
            }
            let placements: &Vec<String> = config.topology_keys.get(&next).unwrap();
            assert(texts(placements@) == config@.topology_keys[next]);
            Some((next, placements))
        },
        None => {
            assert forall|i: int| level < i implies (#[trigger] config@.placements(i)).len()
                == 0 by {
                assert(!keys@.contains(i as i64) || i > i64::MAX);
            }
            None
        },
    }
}

/// The least loaded servers of `placements`, those of preference `level`.
fn level_servers(
    config: &Config,
    cluster: &ClusterState,
    conn_map: &HostMap<i64>,
    level: i64,
    placements: &Vec<String>,
) -> (r: Vec<Host>)
    requires
        texts(placements@) == config@.placements(level as int),
        placements_complete(texts(placements@)),
    ensures
        views(r@) == cluster@.level(conn_map@, config@, level as int),
        views(r@).len() == r@.len(),
{
    let server: Vec<Host> = servers_of_placements(config, cluster, placements);
    get_least_loaded_hosts(&server, conn_map, cluster.failed())
}

/// Whether the search for a server will meet no placement of fewer than three
/// parts.
pub fn topology_searchable(
    config: &Config,
    cluster: &ClusterState,
    conn_map: &HostMap<i64>,
) -> (r: bool)
    ensures
        r == cluster@.searchable(conn_map@, config@),
{
    let keys: Vec<i64> = preferences(config);
    let mut level: i64 = 0;
    loop
        invariant
            0 <= level,
            forall|k: i64| #[trigger]
                keys@.contains(k) <==> config@.topology_keys.contains_key(k),
            cluster@.reached(conn_map@, config@, level + 1),
            forall|i: int| i <= level ==> placements_complete(#[trigger] config@.placements(i)),
        decreases i64::MAX - level,
    {
        match search_on(config, cluster, conn_map, &keys, level) {
            Some((next, placements)) => {
                if !all_complete(placements) {
                    return false;
                }
                let least_host: Vec<Host> = level_servers(
                    config,
                    cluster,
                    conn_map,
                    next,
                    placements,
                );
                if least_host.len() > 0 {
                    proof {
                        assert forall|i: int| #[trigger]
                            cluster@.reached(
                                conn_map@,
                                config@,
                                i,
                            ) implies placements_complete(config@.placements(i)) by {
                            if i > next {
                                assert(cluster@.level(conn_map@, config@, next as int).len() == 0);
                            }
                        }
                    }
                    return true;
                }
                level = next;
            },
            None => {
                return true;
            },
        }
    }
}

/// Searches the preferences in order for servers that are up.
fn preferred_servers(
    config: &Config,
    cluster: &ClusterState,
    conn_map: &HostMap<i64>,
) -> (r: Vec<Host>)
    requires
        cluster@.searchable(conn_map@, config@),
    ensures
        views(r@) == cluster@.preferred(conn_map@, config@),
{
    let keys: Vec<i64> = preferences(config);
    let mut level: i64 = 0;
    loop
        invariant
            0 <= level,
            cluster@.searchable(conn_map@, config@),
            forall|k: i64| #[trigger]
                keys@.contains(k) <==> config@.topology_keys.contains_key(k),
            cluster@.reached(conn_map@, config@, level + 1),
        decreases i64::MAX - level,
    {
        match search_on(config, cluster, conn_map, &keys, level) {
            Some((next, placements)) => {
                let least_host: Vec<Host> = level_servers(
                    config,
                    cluster,
                    conn_map,
                    next,
                    placements,
                );
                if least_host.len() > 0 {
                    proof {
                        lemma_decided(cluster@, conn_map@, config@, next as int);
                    }
                    return least_host;
                }
                level = next;
            },
            None => {
                proof {
                    lemma_undecided(cluster@, conn_map@, config@, level as int);
                }
                let r: Vec<Host> = Vec::new();
                assert(views(r@) =~= cluster@.preferred(conn_map@, config@));
                return r;
            },
        }
    }
}

/// The servers that a connection may go to: the least loaded ones of the first
/// preference that has any; where no preference has, and others are not ruled out,
/// of the servers that `load_balance` asks for.
pub fn least_loaded_servers(
    config: &Config,
    cluster: &ClusterState,
    conn_map: &HostMap<i64>,
) -> (r: Result<Vec<Host>, Error>)
    requires
        cluster@.searchable(conn_map@, config@),
    ensures
        match r {
            Ok(hosts) => hosts@.len() > 0 && cluster@.candidates(conn_map@, config@) == Ok::<
                Seq<HostView>,
                ErrorView,
            >(views(hosts@)),
            Err(e) => cluster@.candidates(conn_map@, config@) == Err::<Seq<HostView>, ErrorView>(
                e@,
            ),
        },
{
    let preferred: Vec<Host> = preferred_servers(config, cluster, conn_map);
    if preferred.len() > 0 {
        return Ok(preferred);
    }
    if keys_only(config) {
        return Err(
            Error::connect(
                IoErrorKind::ConnectionRefused,
                "no preferred server available, fallback-to-topology-keys-only is set to true".to_owned(),
            ),
        );
    }
    let prefer_rr: bool = is_text(&config.load_balance, "prefer-rr");
    let prefer: bool = prefer_rr || is_text(&config.load_balance, "prefer-primary");
    let mut pool: Vec<Host> = Vec::new();
    let rr_first: bool = read_replicas_first(config);
    if rr_first || !primary_first(config) {
        extend_hosts(&mut pool, cluster.read_replicas());
    }
    if !rr_first {
        extend_hosts(&mut pool, cluster.primary());
    }
    assert(views(pool@) =~= cluster@.pool(config@.load_balance));
    let mut least_host: Vec<Host> = get_least_loaded_hosts(&pool, conn_map, cluster.failed());
    if least_host.len() == 0 && prefer {
        least_host = if prefer_rr {
            get_least_loaded_hosts(cluster.primary(), conn_map, cluster.failed())
        } else {
            get_least_loaded_hosts(cluster.read_replicas(), conn_map, cluster.failed())
        };
    }
    if least_host.len() > 0 {
        Ok(least_host)
    } else {
        Err(
            Error::connect(
                IoErrorKind::ConnectionRefused,
                "could not find a server to connect to".to_owned(),
            ),
        )
    }
}

/// Takes one of several servers, by its number.
pub fn choose_server(least_host: &Vec<Host>, num: usize) -> (r: Host)
    requires
        num < least_host@.len(),
    ensures
        r@ == views(least_host@)[num as int],
{
    least_host[num].clone()
}

/// Finds the least loaded servers and chooses one of them at random.
pub fn get_least_loaded_server(
    config: &Config,
    cluster: &ClusterState,
    conn_map: &HostMap<i64>,
) -> (r: Result<Host, Error>)
    requires
        cluster@.searchable(conn_map@, config@),
    ensures
        match r {
            Ok(host) => cluster@.candidates(conn_map@, config@) matches Ok(hosts)
                && hosts.contains(host@),
            Err(e) => cluster@.candidates(conn_map@, config@) == Err::<Seq<HostView>, ErrorView>(
                e@,
            ),
        },
{
    match least_loaded_servers(config, cluster, conn_map) {
        Ok(least_host) => {
            let num: usize = index_below(least_host.len());
            Ok(choose_server(&least_host, num))
        },
        Err(e) => Err(e),
    }
}

} // verus!
