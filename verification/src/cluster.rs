//! What is known of the cluster, and how a list of servers changes it.

use vstd::hash_map::StringHashMap;
use vstd::prelude::*;
use vstd::string::*;

use crate::config::{Config, Nanos};
use crate::counts::{make_connection_count_zero, zeroed};
use crate::host::{clone_hosts, contains, position, views, Host, HostView};
use crate::host_map::HostMap;
use crate::least_loaded::lemma_push_contains;
use crate::text::{is_text, same_ignoring_ascii_case};

verus! {

/// One row of the answer to `select * from yb_servers()`.
#[derive(Debug, PartialEq, Eq)]
pub struct ServerRow {
    pub host: String,
    pub port: i64,
    pub node_type: String,
    pub cloud: String,
    pub region: String,
    pub zone: String,
    pub public_ip: String,
}

/// What a [`ServerRow`] stands for.
pub struct RowView {
    pub host: Seq<char>,
    pub port: i64,
    pub node_type: Seq<char>,
    pub cloud: Seq<char>,
    pub region: Seq<char>,
    pub zone: Seq<char>,
    pub public_ip: Seq<char>,
}

impl View for ServerRow {
    type V = RowView;

    open spec fn view(&self) -> RowView {
        RowView {
            host: self.host@,
            port: self.port,
            node_type: self.node_type@,
            cloud: self.cloud@,
            region: self.region@,
            zone: self.zone@,
            public_ip: self.public_ip@,
        }
    }
}

/// What each of a list of rows stands for.
pub open spec fn row_views(rows: Seq<ServerRow>) -> Seq<RowView> {
    rows.map_values(|r: ServerRow| r@)
}

impl RowView {
    /// The server, by the address that the cluster knows it by.
    pub open spec fn server(self) -> HostView {
        HostView::Tcp(self.host)
    }

    /// The server, by the address that is reached from outside.
    pub open spec fn public(self) -> HostView {
        HostView::Tcp(self.public_ip)
    }

    /// The low sixteen bits of the port number.
    pub open spec fn wrapped_port(self) -> u16 {
        (self.port as int % 0x1_0000) as u16
    }

    /// Whether the server is a primary one; else it is a read replica.
    pub open spec fn is_primary(self) -> bool {
        self.node_type == "primary"@
    }

    /// `cloud.region.zone`.
    pub open spec fn zone_key(self) -> Seq<char> {
        self.cloud + "."@ + self.region + "."@ + self.zone
    }

    /// `cloud.region`, under which all the zones of a region are found.
    pub open spec fn region_key(self) -> Seq<char> {
        self.cloud + "."@ + self.region
    }
}

/// What is known of the cluster.
///
/// The primary servers and the read replicas that may be connected to; when each
/// server that could not be reached was marked as failed; the servers of each
/// placement; the public address of each server; the port of each address; and
/// whether connections go to public addresses.
pub struct ClusterState {
    primary: Vec<Host>,
    rr: Vec<Host>,
    failed: HostMap<Nanos>,
    placement_primary: StringHashMap<Vec<Host>>,
    placement_rr: StringHashMap<Vec<Host>>,
    public_hosts: HostMap<Host>,
    ports: HostMap<u16>,
    use_public_ip: bool,
}

/// What a [`ClusterState`] stands for.
#[verifier::ext_equal]
pub struct ClusterView {
    pub primary: Seq<HostView>,
    pub rr: Seq<HostView>,
    pub failed: Map<HostView, Nanos>,
    pub placement_primary: Map<Seq<char>, Seq<HostView>>,
    pub placement_rr: Map<Seq<char>, Seq<HostView>>,
    pub public_hosts: Map<HostView, HostView>,
    pub ports: Map<HostView, u16>,
    pub use_public_ip: bool,
}

/// What a table of placements stands for.
spec fn placement_views(m: Map<Seq<char>, Vec<Host>>) -> Map<Seq<char>, Seq<HostView>> {
    m.map_values(|v: Vec<Host>| views(v@))
}

impl View for ClusterState {
    type V = ClusterView;

    closed spec fn view(&self) -> ClusterView {
        ClusterView {
            primary: views(self.primary@),
            rr: views(self.rr@),
            failed: self.failed@,
            placement_primary: placement_views(self.placement_primary@),
            placement_rr: placement_views(self.placement_rr@),
            public_hosts: self.public_hosts@.map_values(|h: Host| h@),
            ports: self.ports@,
            use_public_ip: self.use_public_ip,
        }
    }
}

/// The time from `then` to `now`: none, where `then` is the later.
pub open spec fn time_since(now: Nanos, then: Nanos) -> Nanos {
    if now >= then {
        (now - then) as Nanos
    } else {
        0
    }
}

/// The time from `then` to `now`: none, where `then` is the later.
pub fn elapsed(now: Nanos, then: Nanos) -> (r: Nanos)
    ensures
        r == time_since(now, then),
{
    if now >= then {
        now - then
    } else {
        0
    }
}

/// A list with `host` in it: at its end, if it was not there yet.
pub open spec fn with_host(hosts: Seq<HostView>, host: HostView) -> Seq<HostView> {
    if hosts.contains(host) {
        hosts
    } else {
        hosts.push(host)
    }
}

/// The servers of a placement.
pub open spec fn placed(m: Map<Seq<char>, Seq<HostView>>, key: Seq<char>) -> Seq<HostView> {
    if m.contains_key(key) {
        m[key]
    } else {
        Seq::empty()
    }
}

/// A table of placements with `host` among the servers of `key`.
pub open spec fn with_placement(
    m: Map<Seq<char>, Seq<HostView>>,
    key: Seq<char>,
    host: HostView,
) -> Map<Seq<char>, Seq<HostView>> {
    m.insert(key, with_host(placed(m, key), host))
}

/// Whether no server stands twice in a placement, and each has a port.
pub open spec fn placements_wf(
    m: Map<Seq<char>, Seq<HostView>>,
    ports: Map<HostView, u16>,
) -> bool {
    &&& forall|key: Seq<char>| #[trigger] m.contains_key(key) ==> m[key].no_duplicates()
    &&& forall|key: Seq<char>, host: HostView|
        m.contains_key(key) && #[trigger] m[key].contains(host) ==> ports.contains_key(host)
}

impl ClusterView {
    /// Nothing is known.
    pub open spec fn empty() -> ClusterView {
        ClusterView {
            primary: Seq::empty(),
            rr: Seq::empty(),
            failed: Map::empty(),
            placement_primary: Map::empty(),
            placement_rr: Map::empty(),
            public_hosts: Map::empty(),
            ports: Map::empty(),
            use_public_ip: false,
        }
    }

    /// Whether `host` is in one of the two lists.
    pub open spec fn listed(self, host: HostView) -> bool {
        self.primary.contains(host) || self.rr.contains(host)
    }

    /// What always holds: no server stands twice in a list or in a placement;
    /// every server that can be chosen, and every public address, has a port; and
    /// only listed servers have a public address.
    pub open spec fn wf(self) -> bool {
        &&& self.primary.no_duplicates()
        &&& self.rr.no_duplicates()
        &&& forall|host: HostView| #[trigger] self.listed(host) ==> self.ports.contains_key(host)
        &&& placements_wf(self.placement_primary, self.ports)
        &&& placements_wf(self.placement_rr, self.ports)
        &&& forall|host: HostView| #[trigger]
            self.public_hosts.contains_key(host) ==> self.listed(host)
                && self.ports.contains_key(self.public_hosts[host])
    }

    /// Whether `host` is marked as failed, and too recently to be tried again.
    pub open spec fn is_down(self, host: HostView, now: Nanos, delay: Nanos) -> bool {
        self.failed.contains_key(host) && time_since(now, self.failed[host]) <= delay
    }

    /// What is known once `host` has been marked as failed at `now`.
    pub open spec fn mark_failed(self, host: HostView, now: Nanos) -> ClusterView {
        ClusterView { failed: self.failed.insert(host, now), ..self }
    }

    /// What is known once `row` has come, over a control connection to
    /// `control_host`.
    ///
    /// A server that is down leaves the list that it is in. Any other is up: it
    /// is no longer marked as failed, and is in the list of its kind.
    pub open spec fn after_row(
        self,
        row: RowView,
        control_host: Seq<char>,
        now: Nanos,
        delay: Nanos,
    ) -> ClusterView {
        let host = row.server();
        let down = self.is_down(host, now, delay);
        let known = if row.is_primary() {
            self.primary.contains(host)
        } else {
            self.rr.contains(host)
        };
        ClusterView {
            primary: if down {
                self.primary.remove_value(host)
            } else if row.is_primary() {
                with_host(self.primary, host)
            } else {
                self.primary
            },
            rr: if down {
                if self.primary.contains(host) {
                    self.rr
                } else {
                    self.rr.remove_value(host)
                }
            } else if row.is_primary() {
                self.rr
            } else {
                with_host(self.rr, host)
            },
            failed: if down {
                self.failed
            } else {
                self.failed.remove(host)
            },
            placement_primary: if row.is_primary() {
                with_placement(
                    with_placement(self.placement_primary, row.zone_key(), host),
                    row.region_key(),
                    host,
                )
            } else {
                self.placement_primary
            },
            placement_rr: if row.is_primary() {
                self.placement_rr
            } else {
                with_placement(
                    with_placement(self.placement_rr, row.zone_key(), host),
                    row.region_key(),
                    host,
                )
            },
            public_hosts: if down {
                if self.listed(host) {
                    self.public_hosts.remove(host)
                } else {
                    self.public_hosts
                }
            } else if known {
                self.public_hosts
            } else {
                self.public_hosts.insert(host, row.public())
            },
            ports: self.ports.insert(host, row.wrapped_port()).insert(
                row.public(),
                row.wrapped_port(),
            ),
            use_public_ip: self.use_public_ip || same_ignoring_ascii_case(
                control_host,
                row.public_ip,
            ),
        }
    }

    /// What is known once all of `rows` have come, in order.
    pub open spec fn after_rows(
        self,
        rows: Seq<RowView>,
        control_host: Seq<char>,
        now: Nanos,
        delay: Nanos,
    ) -> ClusterView
        decreases rows.len(),
    {
        if rows.len() == 0 {
            self
        } else {
            self.after_rows(rows.drop_last(), control_host, now, delay).after_row(
                rows.last(),
                control_host,
                now,
                delay,
            )
        }
    }

    /// The connection counts once `row` has come: a server that comes back up
    /// starts anew.
    pub open spec fn counts_after_row(
        self,
        counts: Map<HostView, i64>,
        row: RowView,
        now: Nanos,
        delay: Nanos,
    ) -> Map<HostView, i64> {
        if self.failed.contains_key(row.server()) && !self.is_down(row.server(), now, delay) {
            zeroed(counts, row.server())
        } else {
            counts
        }
    }

    /// The connection counts once all of `rows` have come, in order.
    pub open spec fn counts_after_rows(
        self,
        counts: Map<HostView, i64>,
        rows: Seq<RowView>,
        control_host: Seq<char>,
        now: Nanos,
        delay: Nanos,
    ) -> Map<HostView, i64>
        decreases rows.len(),
    {
        if rows.len() == 0 {
            counts
        } else {
            self.after_rows(rows.drop_last(), control_host, now, delay).counts_after_row(
                self.counts_after_rows(counts, rows.drop_last(), control_host, now, delay),
                rows.last(),
                now,
                delay,
            )
        }
    }
}

/// Finding where `host` stands is finding its first occurrence.
proof fn lemma_first_position(hosts: Seq<Host>, host: HostView, i: int)
    requires
        0 <= i < hosts.len(),
        hosts[i]@ == host,
        forall|j: int| 0 <= j < i ==> hosts[j]@ != host,
    ensures
        views(hosts.remove(i)) == views(hosts).remove_value(host),
        views(hosts).contains(host),
{
    let list = views(hosts);
    assert(list[i] == host);
    list.index_of_first_ensures(host);
    let k = list.index_of_first(host)->0;
    assert(list[k] == hosts[k]@);
    assert(k == i) by {
        if k < i {
            assert(hosts[k]@ != host);
        }
    }
    assert(views(hosts.remove(i)) =~= list.remove(i));
}

/// Appends `host` to `hosts`, if it is not there yet. Says whether it was.
fn add_host(hosts: &mut Vec<Host>, host: &Host) -> (r: bool)
    ensures
        r == views(old(hosts)@).contains(host@),
        views(final(hosts)@) == with_host(views(old(hosts)@), host@),
{
    let known: bool = contains(hosts, host);
    if !known {
        hosts.push(host.clone());
        assert(views(hosts@) =~= views(old(hosts)@).push(host@));
    }
    known
}

/// Takes `host` out of `hosts`, if it is there. Says whether it was.
fn remove_host(hosts: &mut Vec<Host>, host: &Host) -> (r: bool)
    ensures
        r == views(old(hosts)@).contains(host@),
        views(final(hosts)@) == views(old(hosts)@).remove_value(host@),
{
    match position(hosts, host) {
        Some(i) => {
            proof {
                lemma_first_position(hosts@, host@, i as int);
            }
            hosts.remove(i);
            true
        },
        None => {
            proof {
                views(hosts@).index_of_first_ensures(host@);
            }
            false
        },
    }
}

/// Puts `host` among the servers of `key`.
fn place(map: &mut StringHashMap<Vec<Host>>, key: String, host: &Host)
    ensures
        placement_views(final(map)@) == with_placement(
            placement_views(old(map)@),
            key@,
            host@,
        ),
{
    let ghost before = placement_views(map@);
    let mut hosts: Vec<Host> = match map.get(key.as_str()) {
        Some(present) => clone_hosts(present),
        None => Vec::new(),
    };
    assert(views(hosts@) =~= placed(before, key@));
    add_host(&mut hosts, host);
    map.insert(key, hosts);
    assert(placement_views(map@) =~= with_placement(before, key@, host@));
}

/// Whatever is above the low sixteen bits is dropped.
fn wrap_port(port: i64) -> (r: u16)
    ensures
        r == port as int % 0x1_0000,
{
    let r = #[verifier::truncate] (port as u16);
    assert(r == (port as u64) % 0x1_0000) by (bit_vector)
        requires
            r == port as u16,
    ;
    assert((port as u64) as int == if port >= 0 {
        port as int
    } else {
        port + 0x1_0000_0000_0000_0000
    }) by (bit_vector);
    r
}

impl ClusterState {
    /// A cluster of which nothing is known.
    pub fn new() -> (r: Self)
        ensures
            r@ == ClusterView::empty(),
            r@.wf(),
    {
        let r = ClusterState {
            primary: Vec::new(),
            rr: Vec::new(),
            failed: HostMap::new(),
            placement_primary: StringHashMap::new(),
            placement_rr: StringHashMap::new(),
            public_hosts: HostMap::new(),
            ports: HostMap::new(),
            use_public_ip: false,
        };
        assert(r@ =~= ClusterView::empty());
        r
    }

    /// The primary servers.
    pub fn primary(&self) -> (r: &Vec<Host>)
        ensures
            views(r@) == self@.primary,
    {
        &self.primary
    }

    /// The read replicas.
    pub fn read_replicas(&self) -> (r: &Vec<Host>)
        ensures
            views(r@) == self@.rr,
    {
        &self.rr
    }

    /// When each server that is marked as failed was marked.
    pub fn failed(&self) -> (r: &HostMap<Nanos>)
        ensures
            r@ == self@.failed,
    {
        &self.failed
    }

    /// The primary servers of a placement.
    pub fn placed_primary(&self, key: &str) -> (r: Option<&Vec<Host>>)
        ensures
            match r {
                Some(hosts) => self@.placement_primary.contains_key(key@) && views(hosts@)
                    == self@.placement_primary[key@],
                None => !self@.placement_primary.contains_key(key@),
            },
    {
        self.placement_primary.get(key)
    }

    /// The read replicas of a placement.
    pub fn placed_read_replicas(&self, key: &str) -> (r: Option<&Vec<Host>>)
        ensures
            match r {
                Some(hosts) => self@.placement_rr.contains_key(key@) && views(hosts@)
                    == self@.placement_rr[key@],
                None => !self@.placement_rr.contains_key(key@),
            },
    {
        self.placement_rr.get(key)
    }

    /// The public address of a server.
    pub fn public_host(&self, host: &Host) -> (r: Option<&Host>)
        ensures
            match r {
                Some(public) => self@.public_hosts.contains_key(host@) && public@
                    == self@.public_hosts[host@],
                None => !self@.public_hosts.contains_key(host@),
            },
    {
        self.public_hosts.get(host)
    }

    /// The port of an address.
    pub fn port(&self, host: &Host) -> (r: Option<u16>)
        ensures
            match r {
                Some(port) => self@.ports.contains_key(host@) && port == self@.ports[host@],
                None => !self@.ports.contains_key(host@),
            },
    {
        match self.ports.get(host) {
            Some(port) => Some(*port),
            None => None,
        }
    }

    /// Whether connections go to public addresses.
    pub fn use_public_ip(&self) -> (r: bool)
        ensures
            r == self@.use_public_ip,
    {
        self.use_public_ip
    }

    /// Finitely many addresses have a port.
    pub proof fn lemma_finite_ports(&self)
        ensures
            self@.ports.dom().finite(),
    {
        self.ports.lemma_finite_keys();
    }

    /// Takes in one row of the list of servers.
    fn apply_row(
        &mut self,
        conn_map: &mut HostMap<i64>,
        row: &ServerRow,
        control_conn_host: &str,
        now: Nanos,
        delay: Nanos,
    )
        ensures
            final(self)@ == old(self)@.after_row(row@, control_conn_host@, now, delay),
            final(conn_map)@ == old(self)@.counts_after_row(old(conn_map)@, row@, now, delay),
    {
        let host: Host = Host::Tcp(row.host.clone());
        let public_ip: Host = Host::Tcp(row.public_ip.clone());
        let port: u16 = wrap_port(row.port);
        let is_primary: bool = is_text(&row.node_type, "primary");
        let region_key: String = row.cloud.clone().concat(".").concat(row.region.as_str());
        let zone_key: String = region_key.clone().concat(".").concat(row.zone.as_str());

        self.ports.insert(host.clone(), port);
        self.ports.insert(public_ip.clone(), port);

        if control_conn_host.eq_ignore_ascii_case(row.public_ip.as_str()) {
            self.use_public_ip = true;
        }
        let failed_at: Option<Nanos> = match self.failed.get(&host) {
            Some(at) => Some(*at),
            None => None,
        };
        let down: bool = match failed_at {
            Some(at) => elapsed(now, at) <= delay,
            None => false,
        };
        if down {
            if remove_host(&mut self.primary, &host) {
                self.public_hosts.remove(&host);
            } else if remove_host(&mut self.rr, &host) {
                self.public_hosts.remove(&host);
            }
        } else {
            let known: bool = if is_primary {
                add_host(&mut self.primary, &host)
            } else {
                add_host(&mut self.rr, &host)
            };
            if !known {
                self.public_hosts.insert(host.clone(), public_ip);
            }
            if failed_at.is_some() {
                make_connection_count_zero(conn_map, host.clone());
            }
            self.failed.remove(&host);
        }
        if is_primary {
            place(&mut self.placement_primary, zone_key, &host);
            place(&mut self.placement_primary, region_key, &host);
        } else {
            place(&mut self.placement_rr, zone_key, &host);
            place(&mut self.placement_rr, region_key, &host);
        }
        assert(self@ =~= old(self)@.after_row(row@, control_conn_host@, now, delay));
    }
}

/// Takes in the list of servers that a control connection to
/// `control_conn_host` has brought at `now`.
pub fn refresh(
    cluster: &mut ClusterState,
    conn_map: &mut HostMap<i64>,
    rows: &Vec<ServerRow>,
    control_conn_host: &str,
    config: &Config,
    now: Nanos,
)
    ensures
        final(cluster)@ == old(cluster)@.after_rows(
            row_views(rows@),
            control_conn_host@,
            now,
            config@.failed_host_reconnect_delay_secs,
        ),
        final(conn_map)@ == old(cluster)@.counts_after_rows(
            old(conn_map)@,
            row_views(rows@),
            control_conn_host@,
            now,
            config@.failed_host_reconnect_delay_secs,
        ),
        old(cluster)@.wf() ==> final(cluster)@.wf(),
{
    let delay: Nanos = config.failed_host_reconnect_delay_secs;
    let ghost all = row_views(rows@);
    let mut i: usize = 0;
    while i < rows.len()
        invariant
            i <= rows.len(),
            all == row_views(rows@),
            cluster@ == old(cluster)@.after_rows(
                all.take(i as int),
                control_conn_host@,
                now,
                delay,
            ),
            conn_map@ == old(cluster)@.counts_after_rows(
                old(conn_map)@,
                all.take(i as int),
                control_conn_host@,
                now,
                delay,
            ),
        decreases rows.len() - i,
    {
        assert(all.take(i + 1).drop_last() =~= all.take(i as int));
        cluster.apply_row(conn_map, &rows[i], control_conn_host, now, delay);
        i += 1;
    }
    assert(all.take(all.len() as int) =~= all);
    proof {
        if old(cluster)@.wf() {
            lemma_after_rows_wf(old(cluster)@, all, control_conn_host@, now, delay);
        }
    }
}

/// Marks `host` as failed at `now`.
pub fn add_to_failed_host_list(cluster: &mut ClusterState, host: Host, now: Nanos)
    ensures
        final(cluster)@ == old(cluster)@.mark_failed(host@, now),
        old(cluster)@.wf() ==> final(cluster)@.wf(),
{
    cluster.failed.insert(host, now);
    assert(cluster@ =~= old(cluster)@.mark_failed(host@, now));
    assert(forall|h: HostView| #[trigger] cluster@.listed(h) ==> old(cluster)@.listed(h));
    assert(forall|h: HostView| #[trigger] old(cluster)@.listed(h) ==> cluster@.listed(h));
}

/// What a list holds once a host has been put in.
pub proof fn lemma_with_host(hosts: Seq<HostView>, host: HostView)
    ensures
        forall|h: HostView| #[trigger]
            with_host(hosts, host).contains(h) <==> hosts.contains(h) || h == host,
        hosts.no_duplicates() ==> with_host(hosts, host).no_duplicates(),
{
    assert forall|h: HostView| #[trigger] with_host(hosts, host).contains(h) <==> hosts.contains(
        h,
    ) || h == host by {
        lemma_push_contains(hosts, host, h);
    }
}

/// What a list holds once a host has been taken out: what it held before, without
/// the host, if that stood there only once.
pub proof fn lemma_remove_host(hosts: Seq<HostView>, host: HostView)
    ensures
        forall|h: HostView| h != host ==> #[trigger] hosts.remove_value(host).contains(h)
            == hosts.contains(h),
        hosts.no_duplicates() ==> !hosts.remove_value(host).contains(host),
        hosts.no_duplicates() ==> hosts.remove_value(host).no_duplicates(),
{
    hosts.index_of_first_ensures(host);
    let r = hosts.remove_value(host);
    if hosts.contains(host) {
        let i = hosts.index_of_first(host)->0;
        assert(forall|j: int| 0 <= j < i ==> #[trigger] r[j] == hosts[j]);
        assert(forall|j: int| i <= j < r.len() ==> #[trigger] r[j] == hosts[j + 1]);
        assert forall|h: HostView| h != host implies #[trigger] r.contains(h) == hosts.contains(
            h,
        ) by {
            if hosts.contains(h) {
                let j = choose|j: int| 0 <= j < hosts.len() && hosts[j] == h;
                if j < i {
                    assert(r[j] == h);
                } else {
                    assert(r[j - 1] == h);
                }
            }
            if r.contains(h) {
                let j = choose|j: int| 0 <= j < r.len() && r[j] == h;
                if j < i {
                    assert(hosts[j] == h);
                } else {
                    assert(hosts[j + 1] == h);
                }
            }
        }
    }
}

proof fn lemma_with_placement_wf(
    m: Map<Seq<char>, Seq<HostView>>,
    ports: Map<HostView, u16>,
    key: Seq<char>,
    host: HostView,
)
    requires
        placements_wf(m, ports),
        ports.contains_key(host),
    ensures
        placements_wf(with_placement(m, key, host), ports),
{
    lemma_with_host(placed(m, key), host);
}

proof fn lemma_after_row_wf(
    c: ClusterView,
    row: RowView,
    control_host: Seq<char>,
    now: Nanos,
    delay: Nanos,
)
    requires
        c.wf(),
    ensures
        c.after_row(row, control_host, now, delay).wf(),
{
    let r = c.after_row(row, control_host, now, delay);
    let host = row.server();
    lemma_with_host(c.primary, host);
    lemma_with_host(c.rr, host);
    lemma_remove_host(c.primary, host);
    lemma_remove_host(c.rr, host);
    assert forall|h: HostView| #[trigger] r.listed(h) implies r.ports.contains_key(h) by {
        assert(c.listed(h) || h == host);
    }
    assert(placements_wf(c.placement_primary, r.ports));
    assert(placements_wf(c.placement_rr, r.ports));
    lemma_with_placement_wf(c.placement_primary, r.ports, row.zone_key(), host);
    lemma_with_placement_wf(
        with_placement(c.placement_primary, row.zone_key(), host),
        r.ports,
        row.region_key(),
        host,
    );
    lemma_with_placement_wf(c.placement_rr, r.ports, row.zone_key(), host);
    lemma_with_placement_wf(
        with_placement(c.placement_rr, row.zone_key(), host),
        r.ports,
        row.region_key(),
        host,
    );
    assert forall|h: HostView| #[trigger] r.public_hosts.contains_key(h) implies r.listed(h)
        && r.ports.contains_key(r.public_hosts[h]) by {
        if h != host {
            assert(c.public_hosts.contains_key(h));
            assert(c.listed(h));
        } else {
            assert(c.public_hosts.contains_key(h) ==> c.listed(h));
        }
    }
}

/// A list of servers keeps what always holds of a cluster.
pub proof fn lemma_after_rows_wf(
    c: ClusterView,
    rows: Seq<RowView>,
    control_host: Seq<char>,
    now: Nanos,
    delay: Nanos,
)
    requires
        c.wf(),
    ensures
        c.after_rows(rows, control_host, now, delay).wf(),
    decreases rows.len(),
{
    if rows.len() > 0 {
        lemma_after_rows_wf(c, rows.drop_last(), control_host, now, delay);
        lemma_after_row_wf(
            c.after_rows(rows.drop_last(), control_host, now, delay),
            rows.last(),
            control_host,
            now,
            delay,
        );
    }
}

} // verus!
