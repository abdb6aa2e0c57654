//! A map from hosts to values.

use vstd::prelude::*;

use crate::host::{Host, HostView};

verus! {

/// A map whose keys are hosts, kept as a list of entries.
///
/// Where two entries have the same key, the earlier one counts.
pub struct HostMap<V> {
    entries: Vec<(Host, V)>,
}

/// The map that a list of entries stands for.
spec fn map_of<V>(entries: Seq<(Host, V)>) -> Map<HostView, V>
    decreases entries.len(),
{
    if entries.len() == 0 {
        Map::empty()
    } else {
        map_of(entries.drop_first()).insert(entries[0].0@, entries[0].1)
    }
}

impl<V> View for HostMap<V> {
    type V = Map<HostView, V>;

    closed spec fn view(&self) -> Map<HostView, V> {
        map_of(self.entries@)
    }
}

/// The entries that precede the first one with key `k` do not matter to `k`.
proof fn lemma_skip<V>(entries: Seq<(Host, V)>, i: int, k: HostView)
    requires
        0 <= i <= entries.len(),
        forall|j: int| 0 <= j < i ==> (#[trigger] entries[j]).0@ != k,
    ensures
        map_of(entries).contains_key(k) == map_of(entries.skip(i)).contains_key(k),
        map_of(entries).contains_key(k) ==> map_of(entries)[k] == map_of(entries.skip(i))[k],
    decreases i,
{
    if i == 0 {
        assert(entries.skip(0) =~= entries);
    } else {
        let rest = entries.drop_first();
        assert forall|j: int| 0 <= j < i - 1 implies (#[trigger] rest[j]).0@ != k by {
            assert(rest[j] == entries[j + 1]);
        }
        lemma_skip(rest, i - 1, k);
        assert(rest.skip(i - 1) =~= entries.skip(i));
        assert(entries[0].0@ != k);
    }
}

/// Replacing the value of the first entry with a key is an insertion.
proof fn lemma_update<V>(entries: Seq<(Host, V)>, i: int, host: Host, value: V)
    requires
        0 <= i < entries.len(),
        entries[i].0@ == host@,
        forall|j: int| 0 <= j < i ==> (#[trigger] entries[j]).0@ != host@,
    ensures
        map_of(entries.update(i, (host, value))) == map_of(entries).insert(host@, value),
    decreases i,
{
    let changed = entries.update(i, (host, value));
    if i == 0 {
        assert(changed.drop_first() =~= entries.drop_first());
        assert(map_of(changed) =~= map_of(entries).insert(host@, value));
    } else {
        let rest = entries.drop_first();
        assert forall|j: int| 0 <= j < i - 1 implies (#[trigger] rest[j]).0@ != host@ by {
            assert(rest[j] == entries[j + 1]);
        }
        lemma_update(rest, i - 1, host, value);
        assert(changed.drop_first() =~= rest.update(i - 1, (host, value)));
        assert(entries[0].0@ != host@);
        assert(map_of(changed) =~= map_of(entries).insert(host@, value));
    }
}

/// Appending an entry with a new key is an insertion.
proof fn lemma_push<V>(entries: Seq<(Host, V)>, host: Host, value: V)
    requires
        forall|j: int| 0 <= j < entries.len() ==> (#[trigger] entries[j]).0@ != host@,
    ensures
        map_of(entries.push((host, value))) == map_of(entries).insert(host@, value),
    decreases entries.len(),
{
    let longer = entries.push((host, value));
    if entries.len() == 0 {
        assert(longer.drop_first() =~= entries);
    } else {
        let rest = entries.drop_first();
        assert forall|j: int| 0 <= j < rest.len() implies (#[trigger] rest[j]).0@ != host@ by {
            assert(rest[j] == entries[j + 1]);
        }
        lemma_push(rest, host, value);
        assert(longer.drop_first() =~= rest.push((host, value)));
        assert(entries[0].0@ != host@);
        assert(map_of(longer) =~= map_of(entries).insert(host@, value));
    }
}

/// Removing the first entry with a key leaves every other key as it was.
proof fn lemma_remove<V>(entries: Seq<(Host, V)>, i: int)
    requires
        0 <= i < entries.len(),
    ensures
        map_of(entries.remove(i)).remove(entries[i].0@) == map_of(entries).remove(entries[i].0@),
    decreases i,
{
    let k = entries[i].0@;
    let shorter = entries.remove(i);
    if i == 0 {
        assert(shorter =~= entries.drop_first());
        assert(map_of(shorter).remove(k) =~= map_of(entries).remove(k));
    } else {
        let rest = entries.drop_first();
        lemma_remove(rest, i - 1);
        assert(shorter.drop_first() =~= rest.remove(i - 1));
        assert(shorter[0] == entries[0]);
        assert(map_of(shorter).remove(k) =~= map_of(entries).remove(k)) by {
            let a = map_of(shorter.drop_first());
            let b = map_of(rest);
            assert(a.remove(k) == b.remove(k));
            assert forall|h: HostView| #[trigger]
                map_of(shorter).remove(k).contains_key(h) == map_of(entries).remove(k).contains_key(
                h,
            ) by {
                assert(a.remove(k).contains_key(h) == b.remove(k).contains_key(h));
            }
            assert forall|h: HostView| #[trigger]
                map_of(shorter).remove(k).contains_key(h) implies map_of(shorter).remove(k)[h]
                == map_of(entries).remove(k)[h] by {
                assert(a.remove(k).contains_key(h) ==> a.remove(k)[h] == b.remove(k)[h]);
            }
        }
    }
}

/// A key that no entry has is not in the map.
proof fn lemma_absent<V>(entries: Seq<(Host, V)>, k: HostView)
    requires
        forall|j: int| 0 <= j < entries.len() ==> (#[trigger] entries[j]).0@ != k,
    ensures
        !map_of(entries).contains_key(k),
{
    lemma_skip(entries, entries.len() as int, k);
    assert(entries.skip(entries.len() as int).len() == 0);
}

proof fn lemma_finite<V>(entries: Seq<(Host, V)>)
    ensures
        map_of(entries).dom().finite(),
    decreases entries.len(),
{
    if entries.len() > 0 {
        lemma_finite(entries.drop_first());
    }
}

impl<V> HostMap<V> {
    /// The empty map.
    pub fn new() -> (r: Self)
        ensures
            r@ == Map::<HostView, V>::empty(),
    {
        HostMap { entries: Vec::new() }
    }

    /// A map holds finitely many keys.
    pub proof fn lemma_finite_keys(&self)
        ensures
            self@.dom().finite(),
    {
        lemma_finite(self.entries@);
    }

    /// Where the first entry with key `host` stands.
    fn find(&self, host: &Host) -> (r: Option<usize>)
        ensures
            match r {
                Some(i) => {
                    &&& i < self.entries@.len()
                    &&& self.entries@[i as int].0@ == host@
                    &&& forall|j: int| 0 <= j < i ==> (#[trigger] self.entries@[j]).0@ != host@
                    &&& self@.contains_key(host@)
                    &&& self@[host@] == self.entries@[i as int].1
                },
                None => {
                    &&& forall|j: int|
                        0 <= j < self.entries@.len() ==> (#[trigger] self.entries@[j]).0@ != host@
                    &&& !self@.contains_key(host@)
                },
            },
    {
        let mut i: usize = 0;
        while i < self.entries.len()
            invariant
                i <= self.entries@.len(),
                forall|j: int| 0 <= j < i ==> (#[trigger] self.entries@[j]).0@ != host@,
            decreases self.entries@.len() - i,
        {
            if self.entries[i].0.same(host) {
                proof {
                    lemma_skip(self.entries@, i as int, host@);
                    assert(self.entries@.skip(i as int)[0] == self.entries@[i as int]);
                }
                return Some(i);
            }
            i += 1;
        }
        proof {
            lemma_absent(self.entries@, host@);
        }
        None
    }

    /// Whether the map has a value for `host`.
    pub fn contains_key(&self, host: &Host) -> (r: bool)
        ensures
            r == self@.contains_key(host@),
    {
        self.find(host).is_some()
    }

    /// The value of `host`, if there is one.
    pub fn get(&self, host: &Host) -> (r: Option<&V>)
        ensures
            match r {
                Some(v) => self@.contains_key(host@) && *v == self@[host@],
                None => !self@.contains_key(host@),
            },
    {
        match self.find(host) {
            Some(i) => Some(&self.entries[i].1),
            None => None,
        }
    }

    /// Gives `host` the value `value`, in place of the one that it has.
    pub fn insert(&mut self, host: Host, value: V)
        ensures
            final(self)@ == old(self)@.insert(host@, value),
    {
        match self.find(&host) {
            Some(i) => {
                proof {
                    lemma_update(self.entries@, i as int, host, value);
                }
                self.entries.set(i, (host, value));
            },
            None => {
                proof {
                    lemma_push(self.entries@, host, value);
                }
                self.entries.push((host, value));
            },
        }
    }

    /// Takes `host` out of the map.
    pub fn remove(&mut self, host: &Host)
        ensures
            final(self)@ == old(self)@.remove(host@),
    {
        loop
            invariant
                self@.remove(host@) == old(self)@.remove(host@),
            ensures
                self@ == old(self)@.remove(host@),
            decreases self.entries@.len(),
        {
            match self.find(host) {
                Some(i) => {
                    proof {
                        lemma_remove(self.entries@, i as int);
                    }
                    self.entries.remove(i);
                },
                None => {
                    assert(self@ =~= self@.remove(host@));
                    break;
                },
            }
        }
    }
}

} // verus!
