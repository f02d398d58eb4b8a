//! A map keyed by IP address, kept as a vector of entries in ascending key order.

use vstd::prelude::*;
use crate::ip::{ip_lt, IpLiteral};

verus! {

/// The keys of `s` ascend strictly, so no key occurs twice.
pub open spec fn keys_ascending<V>(s: Seq<(IpLiteral, V)>) -> bool {
    forall|i: int, j: int| #![trigger s[i], s[j]] 0 <= i < j < s.len() ==> ip_lt(s[i].0, s[j].0)
}

/// Some entry of `s` has the key `ip`.
pub open spec fn has_key<V>(s: Seq<(IpLiteral, V)>, ip: IpLiteral) -> bool {
    exists|i: int| 0 <= i < s.len() && (#[trigger] s[i]).0 == ip
}

/// The place of an entry of `s` with the key `ip`.
pub open spec fn place_of<V>(s: Seq<(IpLiteral, V)>, ip: IpLiteral) -> int {
    choose|i: int| 0 <= i < s.len() && (#[trigger] s[i]).0 == ip
}

/// The map that the entries `s` spell.
pub open spec fn entries_map<V>(s: Seq<(IpLiteral, V)>) -> Map<IpLiteral, V> {
    Map::new(|ip: IpLiteral| has_key(s, ip), |ip: IpLiteral| s[place_of(s, ip)].1)
}

/// An entry of an ascending sequence is what the map holds under its key.
pub proof fn lemma_entry_is_mapped<V>(s: Seq<(IpLiteral, V)>, i: int)
    requires
        keys_ascending(s),
        0 <= i < s.len(),
    ensures
        entries_map(s).contains_key(s[i].0),
        entries_map(s)[s[i].0] == s[i].1,
        place_of(s, s[i].0) == i,
{
    let ip = s[i].0;
    assert(has_key(s, ip));
    let j = place_of(s, ip);
    if j < i {
        assert(ip_lt(s[j].0, s[i].0));
    } else if i < j {
        assert(ip_lt(s[i].0, s[j].0));
    }
}

/// A key that falls strictly between the entries before `k` and those from
/// `k` on is not in the map.
pub proof fn lemma_gap_is_unmapped<V>(s: Seq<(IpLiteral, V)>, k: int, ip: IpLiteral)
    requires
        0 <= k <= s.len(),
        forall|i: int| 0 <= i < k ==> ip_lt((#[trigger] s[i]).0, ip),
        forall|i: int| k <= i < s.len() ==> ip_lt(ip, (#[trigger] s[i]).0),
    ensures
        !entries_map(s).contains_key(ip),
{
    if has_key(s, ip) {
        let j = place_of(s, ip);
        assert(s[j].0 == ip);
        if j < k {
            assert(ip_lt(s[j].0, ip));
        } else {
            assert(ip_lt(ip, s[j].0));
        }
    }
}

/// Putting a new key into its gap keeps the order and adds one entry to the map.
pub proof fn lemma_insert_entry<V>(s: Seq<(IpLiteral, V)>, k: int, ip: IpLiteral, v: V)
    requires
        keys_ascending(s),
        0 <= k <= s.len(),
        forall|i: int| 0 <= i < k ==> ip_lt((#[trigger] s[i]).0, ip),
        forall|i: int| k <= i < s.len() ==> ip_lt(ip, (#[trigger] s[i]).0),
    ensures
        keys_ascending(s.insert(k, (ip, v))),
        entries_map(s.insert(k, (ip, v))) == entries_map(s).insert(ip, v),
{
    let t = s.insert(k, (ip, v));
    assert forall|i: int, j: int| #![trigger t[i], t[j]] 0 <= i < j < t.len() implies ip_lt(
        t[i].0,
        t[j].0,
    ) by {
        let a = if i < k { i } else { i - 1 };
        let b = if j < k { j } else { j - 1 };
        if i == k {
            assert(t[j] == s[b]);
        } else if j == k {
            assert(t[i] == s[a]);
        } else {
            assert(t[i] == s[a]);
            assert(t[j] == s[b]);
        }
    }
    assert forall|key: IpLiteral| #[trigger] has_key(t, key) <==> (key == ip || has_key(s, key)) by {
        if has_key(t, key) {
            let j = place_of(t, key);
            if j < k {
                assert(s[j].0 == key);
            } else if j > k {
                assert(s[j - 1].0 == key);
            }
        }
        if key == ip {
            assert(t[k].0 == key);
        }
        if has_key(s, key) {
            let j = place_of(s, key);
            if j < k {
                assert(t[j].0 == key);
            } else {
                assert(t[j + 1].0 == key);
            }
        }
    }
    assert forall|key: IpLiteral| has_key(t, key) implies #[trigger] entries_map(t)[key]
        == entries_map(s).insert(ip, v)[key] by {
        let j = place_of(t, key);
        lemma_entry_is_mapped(t, j);
        if j < k {
            assert(t[j] == s[j]);
            lemma_entry_is_mapped(s, j);
        } else if j > k {
            assert(t[j] == s[j - 1]);
            lemma_entry_is_mapped(s, j - 1);
        }
    }
    assert(entries_map(t) =~= entries_map(s).insert(ip, v));
}

/// Replacing the value of the entry at `k` keeps the order and updates the map.
pub proof fn lemma_update_entry<V>(s: Seq<(IpLiteral, V)>, k: int, v: V)
    requires
        keys_ascending(s),
        0 <= k < s.len(),
    ensures
        keys_ascending(s.update(k, (s[k].0, v))),
        entries_map(s.update(k, (s[k].0, v))) == entries_map(s).insert(s[k].0, v),
{
    let ip = s[k].0;
    let t = s.update(k, (ip, v));
    assert forall|i: int, j: int| #![trigger t[i], t[j]] 0 <= i < j < t.len() implies ip_lt(
        t[i].0,
        t[j].0,
    ) by {
        assert(t[i].0 == s[i].0);
        assert(t[j].0 == s[j].0);
    }
    assert forall|key: IpLiteral| #[trigger] has_key(t, key) <==> (key == ip || has_key(s, key)) by {
        if has_key(t, key) {
            let j = place_of(t, key);
            assert(s[j].0 == key);
        }
        if key == ip {
            assert(t[k].0 == key);
        }
        if has_key(s, key) {
            let j = place_of(s, key);
            assert(t[j].0 == key);
        }
    }
    assert forall|key: IpLiteral| has_key(t, key) implies #[trigger] entries_map(t)[key]
        == entries_map(s).insert(ip, v)[key] by {
        let j = place_of(t, key);
        lemma_entry_is_mapped(t, j);
        if j != k {
            assert(t[j] == s[j]);
            lemma_entry_is_mapped(s, j);
            lemma_entry_is_mapped(s, k);
        }
    }
    assert(entries_map(t) =~= entries_map(s).insert(ip, v));
}

/// Taking the entry at `k` out keeps the order and removes its key from the map.
pub proof fn lemma_remove_entry<V>(s: Seq<(IpLiteral, V)>, k: int)
    requires
        keys_ascending(s),
        0 <= k < s.len(),
    ensures
        keys_ascending(s.remove(k)),
        entries_map(s.remove(k)) == entries_map(s).remove(s[k].0),
{
    let ip = s[k].0;
    let t = s.remove(k);
    assert forall|i: int, j: int| #![trigger t[i], t[j]] 0 <= i < j < t.len() implies ip_lt(
        t[i].0,
        t[j].0,
    ) by {
        let a = if i < k { i } else { i + 1 };
        let b = if j < k { j } else { j + 1 };
        assert(t[i] == s[a]);
        assert(t[j] == s[b]);
    }
    assert forall|key: IpLiteral| #[trigger] has_key(t, key) <==> (key != ip && has_key(s, key)) by {
        if has_key(t, key) {
            let j = place_of(t, key);
            let a = if j < k { j } else { j + 1 };
            assert(t[j] == s[a]);
            assert(s[a].0 == key);
            if a < k {
                assert(ip_lt(s[a].0, s[k].0));
            } else {
                assert(ip_lt(s[k].0, s[a].0));
            }
        }
        if key != ip && has_key(s, key) {
            let j = place_of(s, key);
            if j < k {
                assert(t[j].0 == key);
            } else {
                assert(t[j - 1].0 == key);
            }
        }
    }
    assert forall|key: IpLiteral| has_key(t, key) implies #[trigger] entries_map(t)[key]
        == entries_map(s).remove(ip)[key] by {
        let j = place_of(t, key);
        lemma_entry_is_mapped(t, j);
        let a = if j < k { j } else { j + 1 };
        assert(t[j] == s[a]);
        lemma_entry_is_mapped(s, a);
    }
    assert(entries_map(t) =~= entries_map(s).remove(ip));
}

/// The map of an ascending sequence is finite and has one key per entry.
pub proof fn lemma_entries_len<V>(s: Seq<(IpLiteral, V)>)
    requires
        keys_ascending(s),
    ensures
        entries_map(s).dom().finite(),
        entries_map(s).dom().len() == s.len(),
    decreases s.len(),
{
    if s.len() == 0 {
        assert(entries_map(s).dom() =~= Set::<IpLiteral>::empty());
    } else {
        let k = s.len() - 1;
        let t = s.remove(k);
        lemma_remove_entry(s, k);
        lemma_entries_len(t);
        lemma_entry_is_mapped(s, k);
        assert(entries_map(s).dom() =~= entries_map(t).dom().insert(s[k].0));
    }
}

/// A map from IP addresses to values. Its entries are kept in ascending
/// order of the address, which is the order in which they are handed out.
#[derive(Clone, Debug)]
pub struct IpMap<V> {
    entries: Vec<(IpLiteral, V)>,
}

impl<V> View for IpMap<V> {
    type V = Map<IpLiteral, V>;

    open spec fn view(&self) -> Map<IpLiteral, V> {
        entries_map(self.entries())
    }
}

impl<V> IpMap<V> {
    /// The entries in the order in which they are kept.
    pub closed spec fn entries(&self) -> Seq<(IpLiteral, V)> {
        self.entries@
    }

    /// The entries ascend strictly by key.
    pub open spec fn wf(&self) -> bool {
        keys_ascending(self.entries())
    }

    /// An empty map.
    pub fn new() -> (m: Self)
        ensures
            m.wf(),
            m.entries() == Seq::<(IpLiteral, V)>::empty(),
            m@ == Map::<IpLiteral, V>::empty(),
    {
        let m = IpMap { entries: Vec::new() };
        assert(m@ =~= Map::<IpLiteral, V>::empty());
        m
    }

    /// The number of entries.
    pub fn len(&self) -> (n: usize)
        requires
            self.wf(),
        ensures
            n == self.entries().len(),
            n == self@.dom().len(),
            self@.dom().finite(),
    {
        proof {
            lemma_entries_len(self.entries());
        }
        self.entries.len()
    }

    /// Whether the map holds nothing.
    pub fn is_empty(&self) -> (r: bool)
        requires
            self.wf(),
        ensures
            r == (self.entries().len() == 0),
            r == (self@ == Map::<IpLiteral, V>::empty()),
    {
        proof {
            if self.entries().len() == 0 {
                assert(self@ =~= Map::<IpLiteral, V>::empty());
            } else {
                lemma_entry_is_mapped(self.entries(), 0);
            }
        }
        self.entries.len() == 0
    }

    /// The first place whose key is not before `ip`.
    fn lower_bound(&self, ip: IpLiteral) -> (k: usize)
        requires
            self.wf(),
        ensures
            k <= self.entries().len(),
            forall|i: int| 0 <= i < k ==> ip_lt((#[trigger] self.entries()[i]).0, ip),
            forall|i: int| k <= i < self.entries().len() ==> !ip_lt((#[trigger] self.entries()[i]).0, ip),
            k < self.entries().len() && self.entries()[k as int].0 != ip ==> forall|i: int|
                k <= i < self.entries().len() ==> ip_lt(ip, (#[trigger] self.entries()[i]).0),
            self@.contains_key(ip) <==> (k < self.entries().len() && self.entries()[k as int].0 == ip),
    {
        let mut k: usize = 0;
        while k < self.entries.len() && self.entries[k].0.lt(&ip)
            invariant
                self.wf(),
                k <= self.entries().len(),
                forall|i: int| 0 <= i < k ==> ip_lt((#[trigger] self.entries()[i]).0, ip),
            decreases self.entries().len() - k,
        {
            k = k + 1;
        }
        proof {
            let s = self.entries();
            assert forall|i: int| k <= i < s.len() implies !ip_lt((#[trigger] s[i]).0, ip) by {
                if k < i {
                    assert(ip_lt(s[k as int].0, s[i].0));
                }
            }
            if k < s.len() && s[k as int].0 != ip {
                assert forall|i: int| k <= i < s.len() implies ip_lt(ip, (#[trigger] s[i]).0) by {
                    if k < i {
                        assert(ip_lt(s[k as int].0, s[i].0));
                    }
                }
                lemma_gap_is_unmapped(s, k as int, ip);
            } else if k < s.len() {
                lemma_entry_is_mapped(s, k as int);
            } else {
                lemma_gap_is_unmapped(s, k as int, ip);
            }
        }
        k
    }

    /// Whether the map has an entry for `ip`.
    pub fn contains_key(&self, ip: &IpLiteral) -> (r: bool)
        requires
            self.wf(),
        ensures
            r == self@.contains_key(*ip),
    {
        let k = self.lower_bound(*ip);
        k < self.entries.len() && self.entries[k].0 == *ip
    }

    /// The value kept for `ip`, if there is one.
    pub fn get(&self, ip: &IpLiteral) -> (r: Option<&V>)
        requires
            self.wf(),
        ensures
            r is Some <==> self@.contains_key(*ip),
            r matches Some(v) ==> *v == self@[*ip],
    {
        let k = self.lower_bound(*ip);
        if k < self.entries.len() && self.entries[k].0 == *ip {
            proof {
                lemma_entry_is_mapped(self.entries(), k as int);
            }
            Some(&self.entries[k].1)
        } else {
            None
        }
    }

    /// Keeps `value` for `ip`, and hands back whether `ip` had no entry before.
    pub fn insert(&mut self, ip: IpLiteral, value: V) -> (fresh: bool)
        requires
            old(self).wf(),
        ensures
            final(self).wf(),
            final(self)@ == old(self)@.insert(ip, value),
            fresh == !old(self)@.contains_key(ip),
    {
        let k = self.lower_bound(ip);
        if k < self.entries.len() && self.entries[k].0 == ip {
            proof {
                lemma_update_entry(self.entries(), k as int, value);
            }
            self.entries.set(k, (ip, value));
            false
        } else {
            proof {
                lemma_insert_entry(self.entries(), k as int, ip, value);
            }
            self.entries.insert(k, (ip, value));
            true
        }
    }

    /// Drops the entry for `ip`, and hands back the value it had.
    pub fn remove(&mut self, ip: &IpLiteral) -> (gone: Option<V>)
        requires
            old(self).wf(),
        ensures
            final(self).wf(),
            final(self)@ == old(self)@.remove(*ip),
            gone is Some <==> old(self)@.contains_key(*ip),
            gone matches Some(v) ==> v == old(self)@[*ip],
    {
        let k = self.lower_bound(*ip);
        if k < self.entries.len() && self.entries[k].0 == *ip {
            proof {
                lemma_remove_entry(self.entries(), k as int);
                lemma_entry_is_mapped(self.entries(), k as int);
            }
            let entry = self.entries.remove(k);
            Some(entry.1)
        } else {
            assert(self@ =~= self@.remove(*ip));
            None
        }
    }

    /// The key of the entry at place `i`.
    pub fn key_at(&self, i: usize) -> (ip: IpLiteral)
        requires
            self.wf(),
            i < self.entries().len(),
        ensures
            ip == self.entries()[i as int].0,
            self@.contains_key(ip),
    {
        proof {
            lemma_entry_is_mapped(self.entries(), i as int);
        }
        self.entries[i].0
    }

    /// The value of the entry at place `i`.
    pub fn value_at(&self, i: usize) -> (value: &V)
        requires
            self.wf(),
            i < self.entries().len(),
        ensures
            *value == self.entries()[i as int].1,
            *value == self@[self.entries()[i as int].0],
    {
        proof {
            lemma_entry_is_mapped(self.entries(), i as int);
        }
        &self.entries[i].1
    }

    /// The entries, in ascending order of their keys.
    pub fn as_slice(&self) -> (entries: &[(IpLiteral, V)])
        ensures
            entries@ == self.entries(),
    {
        self.entries.as_slice()
    }

    /// Takes the map apart into its entries, in ascending order of their keys.
    pub fn into_entries(self) -> (entries: Vec<(IpLiteral, V)>)
        ensures
            entries@ == self.entries(),
    {
        self.entries
    }
}

} // verus!
