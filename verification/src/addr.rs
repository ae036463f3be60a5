//! Network addresses and a table keyed by them.
use vstd::prelude::*;

verus! {

/// An IP address, as the number that its octets form in network order.
#[derive(Clone, Copy, Debug, PartialEq, Eq, Structural)]
pub enum IpAddr {
    V4(u32),
    V6(u128),
}

/// The address of a UDP endpoint. `flowinfo` and `scope_id` are those of an
/// IPv6 endpoint, and zero for an IPv4 one.
#[derive(Clone, Copy, Debug, PartialEq, Eq, Structural)]
pub struct SocketAddr {
    pub ip: IpAddr,
    pub port: u16,
    pub flowinfo: u32,
    pub scope_id: u32,
}

/// The endpoint at `ip` and `port`, without flow information or a scope.
pub open spec fn endpoint(ip: IpAddr, port: u16) -> SocketAddr {
    SocketAddr { ip, port, flowinfo: 0, scope_id: 0 }
}

impl SocketAddr {
    /// Makes the endpoint at `ip` and `port`.
    pub fn new(ip: IpAddr, port: u16) -> (r: SocketAddr)
        ensures
            r == endpoint(ip, port),
    {
        SocketAddr { ip, port, flowinfo: 0, scope_id: 0 }
    }
}

/// A value that remembers when its owner was last heard.
pub trait Stamped {
    /// The moment, in nanoseconds of a monotonic clock.
    spec fn spec_stamp(&self) -> u128;

    fn stamp(&self) -> (r: u128)
        ensures
            r == self.spec_stamp(),
    ;
}

/// Whether less than `timeout` has passed between `stamp` and `now`. A moment
/// that lies after `now` counts as no time at all.
pub open spec fn is_recent(stamp: u128, now: u128, timeout: u128) -> bool {
    if stamp <= now {
        now - stamp < timeout
    } else {
        0 < timeout
    }
}

/// Decides [`is_recent`].
pub fn recent(stamp: u128, now: u128, timeout: u128) -> (r: bool)
    ensures
        r == is_recent(stamp, now, timeout),
{
    if stamp <= now {
        now - stamp < timeout
    } else {
        0 < timeout
    }
}

/// A table with one value for each address in it, walked in the order in which
/// the addresses came.
pub struct AddrMap<V> {
    entries: Vec<(SocketAddr, V)>,
}

/// Where `a` stands among `entries`.
spec fn holds_at<V>(entries: Seq<(SocketAddr, V)>, a: SocketAddr, i: int) -> bool {
    0 <= i < entries.len() && entries[i].0 == a
}

spec fn holds<V>(entries: Seq<(SocketAddr, V)>, a: SocketAddr) -> bool {
    exists|i: int| holds_at(entries, a, i)
}

spec fn lookup<V>(entries: Seq<(SocketAddr, V)>, a: SocketAddr) -> V {
    entries[choose|i: int| holds_at(entries, a, i)].1
}

spec fn distinct<V>(entries: Seq<(SocketAddr, V)>) -> bool {
    forall|i: int, j: int|
        0 <= i < j < entries.len() ==> (#[trigger] entries[i]).0 != (#[trigger] entries[j]).0
}

impl<V> View for AddrMap<V> {
    type V = Map<SocketAddr, V>;

    closed spec fn view(&self) -> Map<SocketAddr, V> {
        Map::new(
            |a: SocketAddr| holds(self.entries@, a),
            |a: SocketAddr| lookup(self.entries@, a),
        )
    }
}

impl<V> AddrMap<V> {
    /// No address occurs twice.
    pub closed spec fn wf(&self) -> bool {
        distinct(self.entries@)
    }

    /// The addresses in the order in which they are walked.
    pub closed spec fn keys(&self) -> Seq<SocketAddr> {
        self.entries@.map_values(|e: (SocketAddr, V)| e.0)
    }

    proof fn lemma_entry(&self, i: int)
        requires
            self.wf(),
            0 <= i < self.entries@.len(),
        ensures
            self@.dom().contains(self.entries@[i].0),
            self@[self.entries@[i].0] == self.entries@[i].1,
    {
        let a = self.entries@[i].0;
        assert(holds_at(self.entries@, a, i));
        let k = choose|k: int| holds_at(self.entries@, a, k);
        assert(holds_at(self.entries@, a, k));
        if k < i {
            assert(self.entries@[k].0 != self.entries@[i].0);
        } else if i < k {
            assert(self.entries@[i].0 != self.entries@[k].0);
        }
    }

    proof fn lemma_found(&self, a: SocketAddr) -> (i: int)
        requires
            self.wf(),
            self@.dom().contains(a),
        ensures
            0 <= i < self.entries@.len(),
            self.entries@[i] == (a, self@[a]),
    {
        let i = choose|i: int| holds_at(self.entries@, a, i);
        assert(holds_at(self.entries@, a, i));
        self.lemma_entry(i);
        i
    }

    /// The walk meets every address of the table exactly once.
    pub proof fn lemma_keys(&self)
        requires
            self.wf(),
        ensures
            self.keys().no_duplicates(),
            self.keys().to_set() == self@.dom(),
            self@.dom().finite(),
            self.keys().len() == self@.dom().len(),
    {
        let keys = self.keys();
        assert forall|i: int, j: int| 0 <= i < keys.len() && 0 <= j < keys.len() && i != j implies keys[i]
            != keys[j] by {
            if i < j {
                assert(self.entries@[i].0 != self.entries@[j].0);
            } else {
                assert(self.entries@[j].0 != self.entries@[i].0);
            }
        }
        assert forall|a: SocketAddr| keys.to_set().contains(a) <==> self@.dom().contains(a) by {
            if keys.contains(a) {
                let i = choose|i: int| 0 <= i < keys.len() && keys[i] == a;
                self.lemma_entry(i);
            }
            if self@.dom().contains(a) {
                let i = self.lemma_found(a);
                assert(keys[i] == a);
            }
        }
        assert(keys.to_set() =~= self@.dom());
        keys.unique_seq_to_set();
    }

    /// Makes an empty table.
    pub fn new() -> (r: Self)
        ensures
            r.wf(),
            r@ == Map::<SocketAddr, V>::empty(),
            r.keys() == Seq::<SocketAddr>::empty(),
    {
        let r = AddrMap { entries: Vec::new() };
        assert(r@ =~= Map::<SocketAddr, V>::empty());
        assert(r.keys() =~= Seq::<SocketAddr>::empty());
        r
    }

    /// How many addresses the table holds.
    pub fn len(&self) -> (r: usize)
        requires
            self.wf(),
        ensures
            r == self.keys().len(),
            r == self@.dom().len(),
    {
        proof {
            self.lemma_keys();
        }
        self.entries.len()
    }

    /// Where `a` stands in the walk, if it is in the table.
    pub fn position(&self, a: SocketAddr) -> (r: Option<usize>)
        requires
            self.wf(),
        ensures
            match r {
                Some(i) => {
                    &&& self@.dom().contains(a)
                    &&& i < self.keys().len()
                    &&& self.keys()[i as int] == a
                },
                None => !self@.dom().contains(a),
            },
    {
        let mut i: usize = 0;
        while i < self.entries.len()
            invariant
                self.wf(),
                i <= self.entries@.len(),
                forall|k: int| 0 <= k < i ==> (#[trigger] self.entries@[k]).0 != a,
            decreases self.entries@.len() - i,
        {
            if self.entries[i].0 == a {
                proof {
                    self.lemma_entry(i as int);
                }
                return Some(i);
            }
            i = i + 1;
        }
        proof {
            if self@.dom().contains(a) {
                let k = self.lemma_found(a);
                assert(self.entries@[k].0 == a);
            }
        }
        None
    }

    /// Whether `a` is in the table.
    pub fn contains_key(&self, a: SocketAddr) -> (r: bool)
        requires
            self.wf(),
        ensures
            r == self@.dom().contains(a),
    {
        self.position(a).is_some()
    }

    /// The value of `a`.
    pub fn get(&self, a: SocketAddr) -> (r: Option<&V>)
        requires
            self.wf(),
        ensures
            match r {
                Some(v) => self@.dom().contains(a) && *v == self@[a],
                None => !self@.dom().contains(a),
            },
    {
        match self.position(a) {
            Some(i) => {
                proof {
                    self.lemma_entry(i as int);
                }
                Some(&self.entries[i].1)
            },
            None => None,
        }
    }

    /// The address that comes `i`-th in the walk.
    pub fn key_at(&self, i: usize) -> (r: SocketAddr)
        requires
            self.wf(),
            i < self.keys().len(),
        ensures
            r == self.keys()[i as int],
            self@.dom().contains(r),
    {
        proof {
            self.lemma_entry(i as int);
        }
        self.entries[i].0
    }

    /// The value of the address that comes `i`-th in the walk.
    pub fn value_at(&self, i: usize) -> (r: &V)
        requires
            self.wf(),
            i < self.keys().len(),
        ensures
            self@.dom().contains(self.keys()[i as int]),
            *r == self@[self.keys()[i as int]],
    {
        proof {
            self.lemma_entry(i as int);
        }
        &self.entries[i].1
    }

    /// Access for change to the value of the address that comes `i`-th in the
    /// walk.
    pub fn value_at_mut(&mut self, i: usize) -> (r: &mut V)
        requires
            old(self).wf(),
            i < old(self).keys().len(),
        ensures
            old(self)@.dom().contains(old(self).keys()[i as int]),
            *r == old(self)@[old(self).keys()[i as int]],
            final(self).wf(),
            final(self).keys() == old(self).keys(),
            final(self)@ == old(self)@.insert(old(self).keys()[i as int], *final(r)),
    {
        proof {
            self.lemma_entry(i as int);
            assert forall|v: V, next: AddrMap<V>|
                next.entries@ == self.entries@.update(i as int, (self.entries@[i as int].0, v)) implies {
                &&& next.wf()
                &&& next.keys() == self.keys()
                &&& #[trigger] next@ == #[trigger] self@.insert(self.entries@[i as int].0, v)
            } by {
                self.lemma_update(i as int, v, next);
            }
        }
        &mut self.entries[i].1
    }

    proof fn lemma_update(&self, i: int, v: V, next: AddrMap<V>)
        requires
            self.wf(),
            0 <= i < self.entries@.len(),
            next.entries@ == self.entries@.update(i, (self.entries@[i].0, v)),
        ensures
            next.wf(),
            next.keys() == self.keys(),
            next@ == self@.insert(self.entries@[i].0, v),
    {
        let a = self.entries@[i].0;
        assert forall|j: int, k: int| 0 <= j < k < next.entries@.len() implies (
        #[trigger] next.entries@[j]).0 != (#[trigger] next.entries@[k]).0 by {
            assert(self.entries@[j].0 != self.entries@[k].0);
        }
        assert(next.keys() =~= self.keys());
        assert forall|b: SocketAddr| next@.dom().contains(b) <==> self@.insert(a, v).dom().contains(b) by {
            if next@.dom().contains(b) {
                let k = next.lemma_found(b);
                self.lemma_entry(k);
            }
            if self@.dom().contains(b) {
                let k = self.lemma_found(b);
                next.lemma_entry(k);
            }
            if b == a {
                next.lemma_entry(i);
            }
        }
        assert forall|b: SocketAddr| next@.dom().contains(b) implies next@[b] == self@.insert(a, v)[b] by {
            let k = next.lemma_found(b);
            next.lemma_entry(k);
            self.lemma_entry(k);
            if k != i && b == a {
                if k < i {
                    assert(self.entries@[k].0 != self.entries@[i].0);
                } else {
                    assert(self.entries@[i].0 != self.entries@[k].0);
                }
            }
        }
        assert(next@ =~= self@.insert(a, v));
    }

    /// Gives `a` the value `v`, in place of an earlier one. A new address comes
    /// last in the walk.
    pub fn insert(&mut self, a: SocketAddr, v: V)
        requires
            old(self).wf(),
        ensures
            final(self).wf(),
            final(self)@ == old(self)@.insert(a, v),
            final(self).keys() == (if old(self)@.dom().contains(a) {
                old(self).keys()
            } else {
                old(self).keys().push(a)
            }),
    {
        match self.position(a) {
            Some(i) => {
                let slot = self.value_at_mut(i);
                *slot = v;
            },
            None => {
                let ghost before = *self;
                self.entries.push((a, v));
                proof {
                    assert forall|j: int, k: int| 0 <= j < k < self.entries@.len() implies (
                    #[trigger] self.entries@[j]).0 != (#[trigger] self.entries@[k]).0 by {
                        if k == before.entries@.len() {
                            before.lemma_entry(j);
                        } else {
                            assert(before.entries@[j].0 != before.entries@[k].0);
                        }
                    }
                    assert forall|b: SocketAddr| self@.dom().contains(b) <==> before@.insert(a, v).dom().contains(b) by {
                        if self@.dom().contains(b) {
                            let k = self.lemma_found(b);
                            if k < before.entries@.len() {
                                before.lemma_entry(k);
                            }
                        }
                        if before@.dom().contains(b) {
                            let k = before.lemma_found(b);
                            self.lemma_entry(k);
                        }
                        if b == a {
                            self.lemma_entry(before.entries@.len() as int);
                        }
                    }
                    assert forall|b: SocketAddr| self@.dom().contains(b) implies self@[b] == before@.insert(a, v)[b] by {
                        let k = self.lemma_found(b);
                        if k < before.entries@.len() {
                            before.lemma_entry(k);
                        }
                    }
                    assert(self@ =~= before@.insert(a, v));
                    assert(self.keys() =~= before.keys().push(a));
                }
            },
        }
    }

    /// Empties the table.
    pub fn clear(&mut self)
        ensures
            final(self).wf(),
            final(self)@ == Map::<SocketAddr, V>::empty(),
            final(self).keys() == Seq::<SocketAddr>::empty(),
    {
        self.entries.clear();
        assert(self@ =~= Map::<SocketAddr, V>::empty());
        assert(self.keys() =~= Seq::<SocketAddr>::empty());
    }
}

/// The part of `m` whose owners were heard less than `timeout` before `now`.
pub open spec fn recent_part<V: Stamped>(
    m: Map<SocketAddr, V>,
    now: u128,
    timeout: u128,
) -> Map<SocketAddr, V> {
    Map::new(
        |a: SocketAddr|
            m.dom().contains(a) && is_recent(m[a].spec_stamp(), now, timeout),
        |a: SocketAddr| m[a],
    )
}

impl<V: Stamped> AddrMap<V> {
    /// Takes out every address whose owner was not heard within `timeout`, and
    /// returns how many those were.
    pub fn drop_stale(&mut self, now: u128, timeout: u128) -> (removed: usize)
        requires
            old(self).wf(),
        ensures
            final(self).wf(),
            final(self)@ == recent_part(old(self)@, now, timeout),
            removed == old(self)@.dom().len() - final(self)@.dom().len(),
    {
        let ghost before = *self;
        let total: usize = self.entries.len();
        let mut i: usize = 0;
        while i < self.entries.len()
            invariant
                before.wf(),
                self.wf(),
                i <= self.entries@.len(),
                forall|k: int|
                    0 <= k < i ==> is_recent((#[trigger] self.entries@[k]).1.spec_stamp(), now, timeout),
                forall|a: SocketAddr| #[trigger]
                    self@.dom().contains(a) ==> before@.dom().contains(a) && before@[a] == self@[a],
                forall|a: SocketAddr| #[trigger]
                    before@.dom().contains(a) && is_recent(before@[a].spec_stamp(), now, timeout)
                        ==> self@.dom().contains(a),
            decreases self.entries@.len() - i,
        {
            if recent(self.entries[i].1.stamp(), now, timeout) {
                i = i + 1;
            } else {
                let ghost prev = *self;
                self.entries.remove(i);
                proof {
                    self.lemma_after_remove(prev, i as int);
                    prev.lemma_entry(i as int);
                }
            }
        }
        proof {
            assert forall|a: SocketAddr| #[trigger] self@.dom().contains(a) implies is_recent(
                before@[a].spec_stamp(),
                now,
                timeout,
            ) by {
                let k = self.lemma_found(a);
                assert(is_recent(self.entries@[k].1.spec_stamp(), now, timeout));
            }
            assert(self@ =~= recent_part(before@, now, timeout));
            self.lemma_keys();
            before.lemma_keys();
            vstd::set_lib::lemma_len_subset(self@.dom(), before@.dom());
        }
        total - self.entries.len()
    }
}

impl<V> AddrMap<V> {
    proof fn lemma_after_remove(&self, prev: AddrMap<V>, i: int)
        requires
            prev.wf(),
            0 <= i < prev.entries@.len(),
            self.entries@ == prev.entries@.remove(i),
        ensures
            self.wf(),
            self@ == prev@.remove(prev.entries@[i].0),
    {
        let gone = prev.entries@[i].0;
        assert forall|j: int, k: int| 0 <= j < k < self.entries@.len() implies (
        #[trigger] self.entries@[j]).0 != (#[trigger] self.entries@[k]).0 by {
            let pj = if j < i { j } else { j + 1 };
            let pk = if k < i { k } else { k + 1 };
            assert(prev.entries@[pj].0 != prev.entries@[pk].0);
        }
        assert forall|b: SocketAddr| self@.dom().contains(b) <==> prev@.remove(gone).dom().contains(b) by {
            if self@.dom().contains(b) {
                let k = self.lemma_found(b);
                let pk = if k < i { k } else { k + 1 };
                prev.lemma_entry(pk);
                if pk < i {
                    assert(prev.entries@[pk].0 != prev.entries@[i].0);
                } else {
                    assert(prev.entries@[i].0 != prev.entries@[pk].0);
                }
            }
            if prev@.dom().contains(b) && b != gone {
                let k = prev.lemma_found(b);
                let sk = if k < i { k } else { k - 1 };
                assert(self.entries@[sk] == prev.entries@[k]);
                self.lemma_entry(sk);
            }
        }
        assert forall|b: SocketAddr| self@.dom().contains(b) implies self@[b] == prev@[b] by {
            let k = self.lemma_found(b);
            let pk = if k < i { k } else { k + 1 };
            prev.lemma_entry(pk);
        }
        assert(self@ =~= prev@.remove(gone));
    }
}

/// An endpoint is at the host and on the port that it was made for, without flow
/// information or a scope, and two are the same only where both agree.
pub proof fn endpoints_are_exact(ip: IpAddr, port: u16, other_ip: IpAddr, other_port: u16)
    ensures
        endpoint(ip, port).ip == ip,
        endpoint(ip, port).port == port,
        endpoint(ip, port).flowinfo == 0,
        endpoint(ip, port).scope_id == 0,
        endpoint(ip, port) == endpoint(other_ip, other_port) <==> ip == other_ip && port
            == other_port,
{
}

/// Who was heard at `stamp` counts as recent up to, and not at, the moment that
/// lies `timeout` later. Who was heard later than now counts as just heard.
pub proof fn recent_until_the_timeout(stamp: u128, now: u128, timeout: u128)
    ensures
        stamp <= now ==> (is_recent(stamp, now, timeout) <==> now < stamp + timeout),
        stamp > now ==> (is_recent(stamp, now, timeout) <==> timeout > 0),
        is_recent(stamp, now, timeout) <==> timeout > 0 && now < stamp + timeout,
{
}

/// Who was heard no earlier than someone recent is recent too, and who is recent
/// was so at every moment since.
pub proof fn recency_is_monotone(
    stamp: u128,
    later_stamp: u128,
    earlier_now: u128,
    now: u128,
    timeout: u128,
)
    requires
        is_recent(stamp, now, timeout),
        stamp <= later_stamp,
        stamp <= earlier_now <= now,
    ensures
        is_recent(later_stamp, now, timeout),
        is_recent(stamp, earlier_now, timeout),
{
}

/// Of a table, exactly those stay whose moment lies less than `timeout` back, each
/// with its value as it was. Nobody stays where the timeout is nothing.
pub proof fn stale_entries_go<V: Stamped>(
    m: Map<SocketAddr, V>,
    now: u128,
    timeout: u128,
    a: SocketAddr,
)
    ensures
        recent_part(m, now, timeout).dom().contains(a) <==> m.dom().contains(a) && timeout > 0
            && now < m[a].spec_stamp() + timeout,
        recent_part(m, now, timeout).dom().contains(a) ==> recent_part(m, now, timeout)[a] == m[a],
{
}

} // verus!
