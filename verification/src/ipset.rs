//! A set of IP addresses, handed out in ascending order.

use vstd::prelude::*;
use crate::ip::{ip_lt, IpLiteral};
use crate::ipmap::{keys_ascending, lemma_entries_len, lemma_entry_is_mapped, IpMap};

verus! {

/// The addresses of `s` ascend strictly, so none occurs twice.
pub open spec fn ascending(s: Seq<IpLiteral>) -> bool {
    forall|i: int, j: int| 0 <= i < j < s.len() ==> ip_lt(#[trigger] s[i], #[trigger] s[j])
}

/// Two ascending sequences with the same members are the same sequence.
pub proof fn lemma_ascending_unique(a: Seq<IpLiteral>, b: Seq<IpLiteral>)
    requires
        ascending(a),
        ascending(b),
        a.to_set() == b.to_set(),
    ensures
        a == b,
    decreases a.len(),
{
    if a.len() == 0 {
        if b.len() > 0 {
            assert(b.to_set().contains(b[0]));
            assert(a.to_set().contains(b[0]));
        }
        assert(a =~= b);
    } else {
        if b.len() == 0 {
            assert(a.to_set().contains(a[0]));
            assert(b.to_set().contains(a[0]));
        }
        let x = a.last();
        let y = b.last();
        assert(a.to_set().contains(x));
        assert(b.to_set().contains(x));
        assert(b.to_set().contains(y));
        assert(a.to_set().contains(y));
        let i = choose|i: int| 0 <= i < b.len() && b[i] == x;
        let j = choose|j: int| 0 <= j < a.len() && a[j] == y;
        if i < b.len() - 1 {
            assert(ip_lt(b[i], b[b.len() - 1]));
        }
        if j < a.len() - 1 {
            assert(ip_lt(a[j], a[a.len() - 1]));
        }
        assert(x == y);
        let a0 = a.drop_last();
        let b0 = b.drop_last();
        assert forall|z: IpLiteral| a0.to_set().contains(z) <==> b0.to_set().contains(z) by {
            if a0.to_set().contains(z) {
                let k = choose|k: int| 0 <= k < a0.len() && a0[k] == z;
                assert(a[k] == z);
                assert(ip_lt(a[k], a[a.len() - 1]));
                assert(a.to_set().contains(z));
                assert(b.to_set().contains(z));
                let m = choose|m: int| 0 <= m < b.len() && b[m] == z;
                assert(b0[m] == z);
            }
            if b0.to_set().contains(z) {
                let k = choose|k: int| 0 <= k < b0.len() && b0[k] == z;
                assert(b[k] == z);
                assert(ip_lt(b[k], b[b.len() - 1]));
                assert(b.to_set().contains(z));
                assert(a.to_set().contains(z));
                let m = choose|m: int| 0 <= m < a.len() && a[m] == z;
                assert(a0[m] == z);
            }
        }
        assert(a0.to_set() =~= b0.to_set());
        lemma_ascending_unique(a0, b0);
        assert(a =~= a0.push(x));
        assert(b =~= b0.push(y));
    }
}

/// A set of IP addresses.
#[derive(Clone, Debug)]
pub struct IpSet {
    members: IpMap<()>,
}

impl View for IpSet {
    type V = Set<IpLiteral>;

    closed spec fn view(&self) -> Set<IpLiteral> {
        self.members@.dom()
    }
}

impl IpSet {
    /// The members in ascending order, which is the order in which they are
    /// handed out.
    pub closed spec fn seq(&self) -> Seq<IpLiteral> {
        self.members.entries().map_values(|e: (IpLiteral, ())| e.0)
    }

    /// The representation is in order.
    pub closed spec fn wf(&self) -> bool {
        self.members.wf()
    }

    /// What the ordered members and the set have to do with each other.
    pub proof fn lemma_seq(&self)
        requires
            self.wf(),
        ensures
            ascending(self.seq()),
            self.seq().no_duplicates(),
            self.seq().to_set() == self@,
            self@.finite(),
            self@.len() == self.seq().len(),
            forall|i: int| 0 <= i < self.seq().len() ==> self@.contains(#[trigger] self.seq()[i]),
    {
        let s = self.members.entries();
        let q = self.seq();
        assert(keys_ascending(s));
        assert forall|i: int, j: int| 0 <= i < j < q.len() implies ip_lt(
            #[trigger] q[i],
            #[trigger] q[j],
        ) by {
            assert(ip_lt(s[i].0, s[j].0));
        }
        assert forall|i: int, j: int| 0 <= i < q.len() && 0 <= j < q.len() && i != j implies q[i]
            != q[j] by {
            if i < j {
                assert(ip_lt(q[i], q[j]));
            } else {
                assert(ip_lt(q[j], q[i]));
            }
        }
        assert forall|ip: IpLiteral| q.to_set().contains(ip) <==> self@.contains(ip) by {
            if q.to_set().contains(ip) {
                let i = choose|i: int| 0 <= i < q.len() && q[i] == ip;
                assert(s[i].0 == ip);
            }
            if self@.contains(ip) {
                let i = choose|i: int| 0 <= i < s.len() && (#[trigger] s[i]).0 == ip;
                assert(q[i] == ip);
            }
        }
        assert(q.to_set() =~= self@);
        lemma_entries_len(s);
        assert forall|i: int| 0 <= i < q.len() implies self@.contains(#[trigger] q[i]) by {
            lemma_entry_is_mapped(s, i);
        }
    }

    /// An empty set.
    pub fn new() -> (s: Self)
        ensures
            s.wf(),
            s@ == Set::<IpLiteral>::empty(),
            s.seq() == Seq::<IpLiteral>::empty(),
    {
        let s = IpSet { members: IpMap::new() };
        assert(s@ =~= Set::<IpLiteral>::empty());
        assert(s.seq() =~= Seq::<IpLiteral>::empty());
        s
    }

    /// The number of members.
    pub fn len(&self) -> (n: usize)
        requires
            self.wf(),
        ensures
            n == self@.len(),
            n == self.seq().len(),
            self@.finite(),
    {
        self.members.len()
    }

    /// Whether the set has no member.
    pub fn is_empty(&self) -> (r: bool)
        requires
            self.wf(),
        ensures
            r == (self@ == Set::<IpLiteral>::empty()),
            r == (self.seq().len() == 0),
    {
        let r = self.members.is_empty();
        proof {
            if !r {
                lemma_entry_is_mapped(self.members.entries(), 0);
                assert(self@.contains(self.members.entries()[0].0));
            } else {
                assert(self@ =~= Set::<IpLiteral>::empty());
            }
        }
        r
    }

    /// Whether `ip` is a member.
    pub fn contains(&self, ip: &IpLiteral) -> (r: bool)
        requires
            self.wf(),
        ensures
            r == self@.contains(*ip),
    {
        self.members.contains_key(ip)
    }

    /// Makes `ip` a member, and hands back whether it was none before.
    pub fn insert(&mut self, ip: IpLiteral) -> (fresh: bool)
        requires
            old(self).wf(),
        ensures
            final(self).wf(),
            final(self)@ == old(self)@.insert(ip),
            fresh == !old(self)@.contains(ip),
    {
        let fresh = self.members.insert(ip, ());
        assert(self@ =~= old(self)@.insert(ip));
        fresh
    }

    /// Makes `ip` no member, and hands back whether it was one before.
    pub fn remove(&mut self, ip: &IpLiteral) -> (gone: bool)
        requires
            old(self).wf(),
        ensures
            final(self).wf(),
            final(self)@ == old(self)@.remove(*ip),
            gone == old(self)@.contains(*ip),
    {
        let gone = self.members.remove(ip);
        assert(self@ =~= old(self)@.remove(*ip));
        gone.is_some()
    }

    /// The member at place `i` of the ascending order.
    pub fn get(&self, i: usize) -> (ip: IpLiteral)
        requires
            self.wf(),
            i < self.seq().len(),
        ensures
            ip == self.seq()[i as int],
            self@.contains(ip),
    {
        self.members.key_at(i)
    }

    /// The members in ascending order.
    pub fn to_vec(&self) -> (v: Vec<IpLiteral>)
        requires
            self.wf(),
        ensures
            v@ == self.seq(),
    {
        let mut v: Vec<IpLiteral> = Vec::new();
        let n: usize = self.members.len();
        let mut i: usize = 0;
        while i < n
            invariant
                self.wf(),
                n == self.seq().len(),
                i <= n,
                v@ == self.seq().subrange(0, i as int),
            decreases n - i,
        {
            v.push(self.members.key_at(i));
            assert(v@ =~= self.seq().subrange(0, i + 1));
            i = i + 1;
        }
        assert(v@ =~= self.seq());
        v
    }
}

} // verus!
