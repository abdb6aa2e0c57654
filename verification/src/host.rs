//! Server addresses, and lists of them.

use vstd::prelude::*;

verus! {

/// The path of a Unix-domain socket.
///
/// `bytes` is the path as the operating system knows it; `debug` is the path as
/// `Debug` prints it, quotes and escapes included.
#[derive(Debug, PartialEq, Eq)]
pub struct UnixPath {
    pub bytes: Vec<u8>,
    pub debug: String,
}

/// A server's address.
#[derive(Debug, PartialEq, Eq)]
pub enum Host {
    Tcp(String),
    Unix(UnixPath),
}

/// What a [`Host`] stands for.
pub enum HostView {
    Tcp(Seq<char>),
    Unix { bytes: Seq<u8>, debug: Seq<char> },
}

impl View for Host {
    type V = HostView;

    open spec fn view(&self) -> HostView {
        match self {
            Host::Tcp(name) => HostView::Tcp(name@),
            Host::Unix(path) => HostView::Unix { bytes: path.bytes@, debug: path.debug@ },
        }
    }
}

/// What a list of hosts stands for, in order.
pub open spec fn views(hosts: Seq<Host>) -> Seq<HostView> {
    hosts.map_values(|h: Host| h@)
}

/// Compares two byte vectors.
fn same_bytes(a: &Vec<u8>, b: &Vec<u8>) -> (r: bool)
    ensures
        r == (a@ == b@),
{
    if a.len() != b.len() {
        return false;
    }
    let mut i: usize = 0;
    while i < a.len()
        invariant
            i <= a.len(),
            a.len() == b.len(),
            forall|j: int| 0 <= j < i ==> a@[j] == b@[j],
        decreases a.len() - i,
    {
        if a[i] != b[i] {
            return false;
        }
        i += 1;
    }
    assert(a@ =~= b@);
    true
}

impl Host {
    /// Whether two addresses are the same one.
    pub fn same(&self, other: &Host) -> (r: bool)
        ensures
            r == (self@ == other@),
    {
        match (self, other) {
            (Host::Tcp(a), Host::Tcp(b)) => *a == *b,
            (Host::Unix(a), Host::Unix(b)) => same_bytes(&a.bytes, &b.bytes) && a.debug == b.debug,
            _ => false,
        }
    }
}

impl Clone for Host {
    fn clone(&self) -> (r: Self)
        ensures
            r@ == self@,
    {
        match self {
            Host::Tcp(name) => Host::Tcp(name.clone()),
            Host::Unix(path) => {
                let bytes: Vec<u8> = path.bytes.clone();
                assert(bytes@ =~= path.bytes@);
                Host::Unix(UnixPath { bytes, debug: path.debug.clone() })
            },
        }
    }
}

/// Where `host` first stands in `hosts`, if it does.
pub fn position(hosts: &Vec<Host>, host: &Host) -> (r: Option<usize>)
    ensures
        match r {
            Some(i) => {
                &&& i < hosts@.len()
                &&& hosts@[i as int]@ == host@
                &&& forall|j: int| 0 <= j < i ==> hosts@[j]@ != host@
            },
            None => !views(hosts@).contains(host@),
        },
{
    let mut i: usize = 0;
    while i < hosts.len()
        invariant
            i <= hosts.len(),
            forall|j: int| 0 <= j < i ==> hosts@[j]@ != host@,
        decreases hosts.len() - i,
    {
        if hosts[i].same(host) {
            return Some(i);
        }
        i += 1;
    }
    None
}

/// Whether `host` is one of `hosts`.
pub fn contains(hosts: &Vec<Host>, host: &Host) -> (r: bool)
    ensures
        r == views(hosts@).contains(host@),
{
    match position(hosts, host) {
        Some(i) => {
            assert(views(hosts@)[i as int] == host@);
            true
        },
        None => false,
    }
}

/// Copies a list of hosts.
pub fn clone_hosts(hosts: &Vec<Host>) -> (r: Vec<Host>)
    ensures
        views(r@) == views(hosts@),
{
    let mut r: Vec<Host> = Vec::new();
    extend_hosts(&mut r, hosts);
    assert(views(r@) =~= views(hosts@));
    r
}

/// Appends copies of `more` to `hosts`.
pub fn extend_hosts(hosts: &mut Vec<Host>, more: &Vec<Host>)
    ensures
        views(final(hosts)@) == views(old(hosts)@) + views(more@),
{
    let mut i: usize = 0;
    while i < more.len()
        invariant
            i <= more.len(),
            views(hosts@) == views(old(hosts)@) + views(more@).take(i as int),
        decreases more.len() - i,
    {
        let ghost before = hosts@;
        hosts.push(more[i].clone());
        assert(views(hosts@) =~= views(before).push(more@[i as int]@));
        assert(views(more@).take(i + 1) =~= views(more@).take(i as int).push(more@[i as int]@));
        i += 1;
    }
    assert(views(more@).take(more@.len() as int) =~= views(more@));
}

} // verus!
