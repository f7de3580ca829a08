//! The reply-dispatch table: one single-shot waiter per in-flight
//! probe identity.
//!
//! A prober registers its identity before sending; the receive task
//! takes the matching entry when a reply arrives; the prober removes
//! its entry itself on timeout or send failure. Waiters are carried as
//! opaque tokens; the event loop maps tokens to its channel ends. The
//! lifecycle model ties the table to the in-flight probe count: the
//! table never holds more entries than there are probes in flight, and
//! it is empty once none is left.

use vstd::prelude::*;
use vstd::seq_lib::*;
use vstd::set_lib::lemma_len_subset;
use crate::addr::IpAddress;

verus! {

/// A probe's identity: the peer, the identifier where the socket
/// preserves it, and the sequence number.
#[derive(Debug, Clone, Copy)]
pub struct ProbeKey {
    pub peer: IpAddress,
    pub ident: Option<u16>,
    pub seq: u16,
}

/// Value equality of two probe identities.
fn key_matches(a: &ProbeKey, b: &ProbeKey) -> (r: bool)
    ensures
        r <==> *a == *b,
{
    let peer_eq = match (&a.peer, &b.peer) {
        (IpAddress::V4(x), IpAddress::V4(y)) => *x == *y,
        (IpAddress::V6(x), IpAddress::V6(y)) => *x == *y,
        _ => false,
    };
    let ident_eq = match (&a.ident, &b.ident) {
        (Option::None, Option::None) => true,
        (Option::Some(x), Option::Some(y)) => *x == *y,
        _ => false,
    };
    peer_eq && ident_eq && a.seq == b.seq
}

/// The dispatch table: identities mapped to waiter tokens, at most one
/// entry per identity.
pub struct DispatchTable {
    pub entries: Vec<(ProbeKey, u64)>,
}

impl DispatchTable {
    /// The registered identities, in registration order.
    pub open spec fn keys(self) -> Seq<ProbeKey> {
        self.entries@.map_values(|e: (ProbeKey, u64)| e.0)
    }

    /// Entries held.
    pub open spec fn spec_len(self) -> int {
        self.entries@.len() as int
    }

    /// An entry for `k` is present.
    pub open spec fn spec_contains(self, k: ProbeKey) -> bool {
        exists|i: int| 0 <= i < self.entries@.len() && (#[trigger] self.entries@[i]).0 == k
    }

    /// The token registered under `k`.
    pub open spec fn spec_token(self, k: ProbeKey) -> u64 {
        let i = choose|i: int| 0 <= i < self.entries@.len() && (#[trigger] self.entries@[i]).0
            == k;
        self.entries@[i].1
    }

    /// At most one entry per identity.
    pub open spec fn wf(self) -> bool {
        forall|i: int, j: int|
            0 <= i < j < self.entries@.len() ==> (#[trigger] self.entries@[i]).0 != (
            #[trigger] self.entries@[j]).0
    }

    /// An empty table.
    pub fn new() -> (r: Self)
        ensures
            r.wf(),
            r.spec_len() == 0,
            forall|k: ProbeKey| !r.spec_contains(k),
    {
        Self { entries: Vec::new() }
    }

    /// Register a waiter under a fresh identity.
    pub fn insert(&mut self, key: ProbeKey, token: u64)
        requires
            old(self).wf(),
            !old(self).spec_contains(key),
        ensures
            final(self).wf(),
            final(self).spec_len() == old(self).spec_len() + 1,
            final(self).spec_contains(key),
            final(self).spec_token(key) == token,
            forall|k2: ProbeKey|
                k2 != key ==> (final(self).spec_contains(k2) <==> old(self).spec_contains(k2)),
            forall|k2: ProbeKey|
                k2 != key && old(self).spec_contains(k2) ==> final(self).spec_token(k2) == old(self).spec_token(k2),
    {
        self.entries.push((key, token));
        proof {
            let n = old(self).entries@.len() as int;
            assert(self.entries@ == old(self).entries@.push((key, token)));
            assert(self.entries@[n].0 == key);
            assert forall|k2: ProbeKey| k2 != key implies (final(self).spec_contains(k2) <==> old(
                self,
            ).spec_contains(k2)) by {
                if final(self).spec_contains(k2) {
                    let j = choose|j: int|
                        0 <= j < self.entries@.len() && (#[trigger] self.entries@[j]).0 == k2;
                    assert(j != n);
                    assert(old(self).entries@[j].0 == k2);
                }
                if old(self).spec_contains(k2) {
                    let j = choose|j: int|
                        0 <= j < old(self).entries@.len() && (#[trigger] old(self).entries@[j]).0
                            == k2;
                    assert(self.entries@[j].0 == k2);
                }
            }
            assert forall|k2: ProbeKey| k2 != key && old(self).spec_contains(k2) implies final(self).spec_token(k2) == old(self).spec_token(k2) by {
                let i = choose|i: int|
                    0 <= i < old(self).entries@.len() && (#[trigger] old(self).entries@[i]).0
                        == k2;
                assert(self.entries@[i].0 == k2);
                let j = choose|j: int|
                    0 <= j < self.entries@.len() && (#[trigger] self.entries@[j]).0 == k2;
                assert(j < n);
            }
        }
    }

    /// Remove and yield the waiter registered under `key`, if any.
    /// Covers the receive task's remove-and-take and the prober's own
    /// cleanup on timeout or send failure.
    pub fn remove(&mut self, key: &ProbeKey) -> (r: Option<u64>)
        requires
            old(self).wf(),
        ensures
            final(self).wf(),
            r is Some <==> old(self).spec_contains(*key),
            r matches Some(t) ==> t == old(self).spec_token(*key),
            !final(self).spec_contains(*key),
            final(self).spec_len() == old(self).spec_len() - if old(self).spec_contains(*key) {
                1int
            } else {
                0int
            },
            forall|k2: ProbeKey|
                k2 != *key ==> (final(self).spec_contains(k2) <==> old(self).spec_contains(k2)),
            forall|k2: ProbeKey|
                k2 != *key && old(self).spec_contains(k2) ==> final(self).spec_token(k2) == old(self).spec_token(k2),
    {
        let n = self.entries.len();
        let mut i: usize = 0;
        while i < n
            invariant
                old(self).wf(),
                *self == *old(self),
                n == self.entries@.len(),
                i <= n,
                forall|j: int| 0 <= j < i ==> (#[trigger] self.entries@[j]).0 != *key,
            decreases n - i,
        {
            if key_matches(&self.entries[i].0, key) {
                let (_, token) = self.entries.remove(i);
                proof {
                    let oldv = old(self).entries@;
                    assert(self.entries@ == oldv.remove(i as int));
                    assert forall|j: int| 0 <= j < self.entries@.len() implies (
                    #[trigger] self.entries@[j]) == if j < i {
                        oldv[j]
                    } else {
                        oldv[j + 1]
                    } by {}
                    assert(old(self).spec_contains(*key));
                    let c = choose|c: int| 0 <= c < oldv.len() && (#[trigger] oldv[c]).0 == *key;
                    assert(c == i);
                    assert forall|j: int|
                        0 <= j < self.entries@.len() implies (#[trigger] self.entries@[j]).0
                        != *key by {
                        if j >= i {
                            assert(self.entries@[j] == oldv[j + 1]);
                        }
                    }
                    assert forall|k2: ProbeKey|
                        k2 != *key && old(self).spec_contains(k2) implies final(self).spec_contains(k2) && final(self).spec_token(k2) == old(self).spec_token(
                        k2,
                    ) by {
                        let a = choose|a: int|
                            0 <= a < oldv.len() && (#[trigger] oldv[a]).0 == k2;
                        let b: int = if a < i {
                            a
                        } else {
                            a - 1
                        };
                        assert(self.entries@[b] == oldv[a]);
                        assert(final(self).spec_contains(k2));
                        let w = choose|w: int|
                            0 <= w < self.entries@.len() && (#[trigger] self.entries@[w]).0 == k2;
                        if w < i {
                            assert(self.entries@[w] == oldv[w]);
                        } else {
                            assert(self.entries@[w] == oldv[w + 1]);
                        }
                    }
                    assert forall|k2: ProbeKey|
                        k2 != *key && final(self).spec_contains(k2) implies old(self).spec_contains(k2) by {
                        let w = choose|w: int|
                            0 <= w < self.entries@.len() && (#[trigger] self.entries@[w]).0 == k2;
                        if w < i {
                            assert(self.entries@[w] == oldv[w]);
                        } else {
                            assert(self.entries@[w] == oldv[w + 1]);
                        }
                    }
                }
                return Some(token);
            }
            i = i + 1;
        }
        proof {
            assert(!old(self).spec_contains(*key));
        }
        None
    }
}

/// The life of ICMP probes against the shared table: every table entry
/// belongs to a probe still in flight.
pub struct ProbeLifecycle {
    pub table: DispatchTable,
    /// Probes begun and not yet resolved.
    pub in_flight: u64,
    /// The identities of those probes.
    pub live: Ghost<Set<ProbeKey>>,
}

impl ProbeLifecycle {
    pub open spec fn inv(self) -> bool {
        &&& self.table.wf()
        &&& self.live@.finite()
        &&& self.live@.len() == self.in_flight
        &&& forall|k: ProbeKey| self.table.spec_contains(k) ==> self.live@.contains(k)
    }

    /// No probes, no entries.
    pub fn new() -> (r: Self)
        ensures
            r.inv(),
            r.in_flight == 0,
            r.table.spec_len() == 0,
    {
        let table = DispatchTable::new();
        ProbeLifecycle { table, in_flight: 0, live: Ghost(Set::empty()) }
    }

    /// A probe begins: its waiter is registered under its identity
    /// before anything is sent, so no reply can be lost to a race.
    pub fn begin_probe(&mut self, key: ProbeKey, token: u64)
        requires
            old(self).inv(),
            !old(self).live@.contains(key),
            old(self).in_flight < u64::MAX,
        ensures
            final(self).inv(),
            final(self).in_flight == old(self).in_flight + 1,
            final(self).table.spec_len() == old(self).table.spec_len() + 1,
            final(self).table.spec_contains(key),
            final(self).table.spec_token(key) == token,
            final(self).live@ == old(self).live@.insert(key),
    {
        self.table.insert(key, token);
        self.in_flight = self.in_flight + 1;
        proof {
            self.live@ = self.live@.insert(key);
        }
    }

    /// The receive task matched a reply: the waiter leaves the table;
    /// the probe resolves only when its waiter is served, so it stays
    /// in flight.
    pub fn dispatch_reply(&mut self, key: &ProbeKey) -> (r: Option<u64>)
        requires
            old(self).inv(),
        ensures
            final(self).inv(),
            final(self).in_flight == old(self).in_flight,
            final(self).live@ == old(self).live@,
            r is Some <==> old(self).table.spec_contains(*key),
            r matches Some(t) ==> t == old(self).table.spec_token(*key),
            !final(self).table.spec_contains(*key),
    {
        self.table.remove(key)
    }

    /// A probe resolves — reply delivered, timeout fired, or the send
    /// failed — and its entry, where one is still present, is cleaned
    /// up with it.
    pub fn complete_probe(&mut self, key: &ProbeKey) -> (r: Option<u64>)
        requires
            old(self).inv(),
            old(self).live@.contains(*key),
        ensures
            final(self).inv(),
            final(self).in_flight == old(self).in_flight - 1,
            final(self).live@ == old(self).live@.remove(*key),
            !final(self).table.spec_contains(*key),
    {
        proof {
            assert(old(self).live@.len() >= 1) by {
                assert(old(self).live@.contains(*key));
                if old(self).live@.len() == 0 {
                    assert(old(self).live@ =~= Set::empty());
                }
            }
        }
        let r = self.table.remove(key);
        self.in_flight = self.in_flight - 1;
        proof {
            self.live@ = self.live@.remove(*key);
        }
        r
    }
}

/// The dispatch table never outgrows the probes in flight, and it is
/// empty once the last probe has resolved.
pub proof fn lemma_table_bounded(l: ProbeLifecycle)
    requires
        l.inv(),
    ensures
        l.table.spec_len() <= l.in_flight,
        l.in_flight == 0 ==> l.table.spec_len() == 0,
{
    let ks = l.table.keys();
    assert(ks.no_duplicates()) by {
        assert forall|i: int, j: int|
            0 <= i < j < ks.len() implies ks[i] != ks[j] by {
            assert(ks[i] == l.table.entries@[i].0);
            assert(ks[j] == l.table.entries@[j].0);
        }
    }
    ks.unique_seq_to_set();
    assert(ks.to_set() <= l.live@) by {
        assert forall|k: ProbeKey| ks.to_set().contains(k) implies l.live@.contains(k) by {
            let i = choose|i: int| 0 <= i < ks.len() && ks[i] == k;
            assert(l.table.entries@[i].0 == k);
            assert(l.table.spec_contains(k));
        }
    }
    lemma_len_subset(ks.to_set(), l.live@);
}

} // verus!
