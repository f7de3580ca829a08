//! Happy Eyeballs address selection.
//!
//! The resolver's address list is interleaved family-by-family
//! starting with IPv6; attempts are then raced with a small delay
//! between starts. The race itself lives in the event loop; its
//! decisions stand here as a state machine.

use vstd::prelude::*;
use crate::addr::IpAddress;

verus! {

/// Nanoseconds between successive attempt starts (50 ms, already
/// inside the clamp bounds of 10 ms and 2 s).
pub open spec fn spec_attempt_delay() -> u64 {
    50_000_000
}

/// Floor on the time between starts after an instant failure (10 ms).
pub open spec fn spec_min_attempt_delay() -> u64 {
    10_000_000
}

/// The IPv6 members of `s`, in order.
pub open spec fn v6_sublist(s: Seq<IpAddress>) -> Seq<IpAddress>
    decreases s.len(),
{
    if s.len() == 0 {
        Seq::empty()
    } else if s.last().spec_is_ipv6() {
        v6_sublist(s.drop_last()).push(s.last())
    } else {
        v6_sublist(s.drop_last())
    }
}

/// The IPv4 members of `s`, in order.
pub open spec fn v4_sublist(s: Seq<IpAddress>) -> Seq<IpAddress>
    decreases s.len(),
{
    if s.len() == 0 {
        Seq::empty()
    } else if s.last().spec_is_ipv6() {
        v4_sublist(s.drop_last())
    } else {
        v4_sublist(s.drop_last()).push(s.last())
    }
}

/// One element of each list in turn, starting with `a`; the longer
/// tail follows.
pub open spec fn zip_alternate(a: Seq<IpAddress>, b: Seq<IpAddress>) -> Seq<IpAddress>
    decreases a.len() + b.len(),
{
    if a.len() == 0 {
        b
    } else if b.len() == 0 {
        a
    } else {
        seq![a[0], b[0]] + zip_alternate(a.skip(1), b.skip(1))
    }
}

/// The interleaved order: families alternate starting with IPv6, each
/// family keeping its resolver order.
pub open spec fn spec_interleave(s: Seq<IpAddress>) -> Seq<IpAddress> {
    zip_alternate(v6_sublist(s), v4_sublist(s))
}

/// What is left of `s` from position `k` on.
pub open spec fn tail_from(s: Seq<IpAddress>, k: int) -> Seq<IpAddress> {
    if 0 <= k <= s.len() {
        s.skip(k)
    } else {
        Seq::empty()
    }
}

/// Interleave the address list family-by-family, IPv6 first.
pub fn interleave_addrs(addrs: Vec<IpAddress>) -> (r: Vec<IpAddress>)
    ensures
        r@ == spec_interleave(addrs@),
{
    let n = addrs.len();
    let mut v6: Vec<IpAddress> = Vec::new();
    let mut v4: Vec<IpAddress> = Vec::new();
    let mut i: usize = 0;
    while i < n
        invariant
            n == addrs@.len(),
            i <= n,
            v6@ == v6_sublist(addrs@.take(i as int)),
            v4@ == v4_sublist(addrs@.take(i as int)),
        decreases n - i,
    {
        proof {
            assert(addrs@.take(i as int + 1).drop_last() =~= addrs@.take(i as int));
            assert(addrs@.take(i as int + 1).last() == addrs@[i as int]);
        }
        let a = addrs[i];
        if a.is_ipv6() {
            v6.push(a);
        } else {
            v4.push(a);
        }
        i = i + 1;
    }
    proof {
        assert(addrs@.take(n as int) =~= addrs@);
    }
    let mut out: Vec<IpAddress> = Vec::new();
    let mut k: usize = 0;
    let n6 = v6.len();
    let n4 = v4.len();
    proof {
        assert(tail_from(v6@, 0) =~= v6@);
        assert(tail_from(v4@, 0) =~= v4@);
    }
    while k < n6 || k < n4
        invariant
            n6 == v6@.len(),
            n4 == v4@.len(),
            zip_alternate(v6@, v4@) == out@ + zip_alternate(
                tail_from(v6@, k as int),
                tail_from(v4@, k as int),
            ),
            k <= n6 + n4,
        decreases n6 + n4 - k,
    {
        let ghost out0 = out@;
        let ghost a = tail_from(v6@, k as int);
        let ghost b = tail_from(v4@, k as int);
        if k < n6 {
            out.push(v6[k]);
        }
        if k < n4 {
            out.push(v4[k]);
        }
        proof {
            let a2 = tail_from(v6@, k as int + 1);
            let b2 = tail_from(v4@, k as int + 1);
            let rest = zip_alternate(a2, b2);
            if k < n6 && k < n4 {
                assert(a.skip(1) =~= a2);
                assert(b.skip(1) =~= b2);
                assert(out@ =~= out0 + seq![a[0], b[0]]);
                assert(out0 + (seq![a[0], b[0]] + rest) =~= (out0 + seq![a[0], b[0]]) + rest);
            } else if k < n6 {
                assert(b =~= Seq::<IpAddress>::empty());
                assert(b2 =~= Seq::<IpAddress>::empty());
                assert(zip_alternate(a, b) == a);
                assert(zip_alternate(a2, b2) == a2);
                assert(a =~= seq![a[0]] + a2);
                assert(out@ =~= out0 + seq![a[0]]);
                assert(out0 + (seq![a[0]] + a2) =~= (out0 + seq![a[0]]) + a2);
            } else {
                assert(a =~= Seq::<IpAddress>::empty());
                assert(a2 =~= Seq::<IpAddress>::empty());
                assert(zip_alternate(a, b) == b);
                assert(zip_alternate(a2, b2) == b2);
                assert(b =~= seq![b[0]] + b2);
                assert(out@ =~= out0 + seq![b[0]]);
                assert(out0 + (seq![b[0]] + b2) =~= (out0 + seq![b[0]]) + b2);
            }
        }
        k = k + 1;
    }
    proof {
        assert(tail_from(v6@, k as int) =~= Seq::<IpAddress>::empty());
        assert(tail_from(v4@, k as int) =~= Seq::<IpAddress>::empty());
        assert(out@ + Seq::<IpAddress>::empty() =~= out@);
    }
    out
}

/// A list with no IPv6 member interleaves to itself.
pub proof fn lemma_interleave_all_v4(s: Seq<IpAddress>)
    requires
        forall|i: int| 0 <= i < s.len() ==> !(#[trigger] s[i]).spec_is_ipv6(),
    ensures
        spec_interleave(s) == s,
{
    lemma_sublists_all_v4(s);
    lemma_zip_empty_left(v4_sublist(s));
}

proof fn lemma_sublists_all_v4(s: Seq<IpAddress>)
    requires
        forall|i: int| 0 <= i < s.len() ==> !(#[trigger] s[i]).spec_is_ipv6(),
    ensures
        v6_sublist(s) == Seq::<IpAddress>::empty(),
        v4_sublist(s) == s,
    decreases s.len(),
{
    if s.len() == 0 {
        assert(v4_sublist(s) =~= s);
    } else {
        lemma_sublists_all_v4(s.drop_last());
        assert(v4_sublist(s.drop_last()).push(s.last()) =~= s);
    }
}

proof fn lemma_zip_empty_left(b: Seq<IpAddress>)
    ensures
        zip_alternate(Seq::empty(), b) == b,
{
}

/// How a selection proceeds for a given address list.
pub enum SelectionPlan {
    /// No address: selection fails at once.
    Empty,
    /// One address: it wins without any probing.
    Single(IpAddress),
    /// Several: race over the interleaved order.
    Race(Vec<IpAddress>),
}

/// Decide how to select a peer from the resolver's list. A single
/// address is returned without probing; an empty list fails; a longer
/// list is raced in interleaved order.
pub fn plan_selection(addrs: Vec<IpAddress>) -> (r: SelectionPlan)
    ensures
        addrs@.len() == 0 ==> r is Empty,
        addrs@.len() == 1 ==> r == SelectionPlan::Single(addrs@[0]),
        addrs@.len() > 1 ==> (r matches SelectionPlan::Race(v) && v@ == spec_interleave(addrs@)),
{
    if addrs.len() == 0 {
        SelectionPlan::Empty
    } else if addrs.len() == 1 {
        SelectionPlan::Single(addrs[0])
    } else {
        SelectionPlan::Race(interleave_addrs(addrs))
    }
}

/// What the race driver must do after an event.
pub enum RaceAction {
    /// Begin probing `addrs[index]` and arm the attempt timer for
    /// `delay_ns`.
    Start { index: usize, delay_ns: u64 },
    /// Re-arm the attempt timer for `delay_ns` without starting.
    ArmTimer { delay_ns: u64 },
    /// This address won; cancel every other attempt.
    Finish(IpAddress),
    /// Every attempt failed.
    Fail,
    /// Nothing to do.
    Idle,
}

/// The racing state over an interleaved address list.
pub struct RaceState {
    /// The interleaved candidates.
    pub addrs: Vec<IpAddress>,
    /// Index of the next attempt to start.
    pub next: usize,
    /// Attempts started and not yet resolved.
    pub pending: u64,
    /// Start instant of the most recent attempt, in nanoseconds.
    pub last_start: u64,
    /// The winning address, once one attempt succeeds.
    pub winner: Option<IpAddress>,
    /// Every attempt has failed.
    pub failed: bool,
}

impl RaceState {
    pub open spec fn inv(self) -> bool {
        &&& self.next <= self.addrs@.len()
        &&& self.pending <= self.next
    }

    /// Open the race by starting the first attempt now.
    pub fn new(addrs: Vec<IpAddress>, now_ns: u64) -> (r: Self)
        requires
            addrs@.len() >= 1,
        ensures
            r.inv(),
            r.addrs == addrs,
            r.next == 1,
            r.pending == 1,
            r.last_start == now_ns,
            r.winner is None,
            !r.failed,
    {
        Self { addrs, next: 1, pending: 1, last_start: now_ns, winner: None, failed: false }
    }

    /// The attempt timer fired: start the next candidate, if one is
    /// left.
    pub fn on_timer(&mut self, now_ns: u64) -> (r: RaceAction)
        requires
            old(self).inv(),
            old(self).pending < u64::MAX,
        ensures
            final(self).inv(),
            final(self).addrs == old(self).addrs,
            final(self).winner == old(self).winner,
            final(self).failed == old(self).failed,
            old(self).next < old(self).addrs@.len() ==> {
                &&& r == (RaceAction::Start {
                    index: old(self).next,
                    delay_ns: spec_attempt_delay(),
                })
                &&& final(self).next == old(self).next + 1
                &&& final(self).pending == old(self).pending + 1
                &&& final(self).last_start == now_ns
            },
            old(self).next >= old(self).addrs@.len() ==> r == RaceAction::Idle && *final(self)
                == *old(self),
    {
        if self.next < self.addrs.len() {
            let index = self.next;
            self.next = self.next + 1;
            self.pending = self.pending + 1;
            self.last_start = now_ns;
            RaceAction::Start { index, delay_ns: 50_000_000 }
        } else {
            RaceAction::Idle
        }
    }

    /// An attempt failed. A further candidate starts at once when the
    /// minimum delay has passed, else the timer is brought forward to
    /// the minimum-delay mark; once candidates and attempts are both
    /// exhausted the race fails.
    pub fn on_failure(&mut self, now_ns: u64) -> (r: RaceAction)
        requires
            old(self).inv(),
            old(self).pending >= 1,
            !old(self).failed,
            now_ns >= old(self).last_start,
        ensures
            final(self).inv(),
            final(self).addrs == old(self).addrs,
            final(self).winner == old(self).winner,
            old(self).next < old(self).addrs@.len() ==> {
                &&& !final(self).failed
                &&& if now_ns - old(self).last_start >= spec_min_attempt_delay() {
                    &&& r == (RaceAction::Start {
                        index: old(self).next,
                        delay_ns: spec_attempt_delay(),
                    })
                    &&& final(self).next == old(self).next + 1
                    &&& final(self).pending == old(self).pending
                    &&& final(self).last_start == now_ns
                } else {
                    &&& r == (RaceAction::ArmTimer {
                        delay_ns: (spec_min_attempt_delay() - (now_ns - old(self).last_start)) as u64,
                    })
                    &&& final(self).next == old(self).next
                    &&& final(self).pending == old(self).pending - 1
                    &&& final(self).last_start == old(self).last_start
                }
            },
            old(self).next >= old(self).addrs@.len() ==> {
                &&& final(self).pending == old(self).pending - 1
                &&& (old(self).pending == 1 ==> r == RaceAction::Fail && final(self).failed)
                &&& (old(self).pending > 1 ==> r == RaceAction::Idle && !final(self).failed)
            },
    {
        if self.next < self.addrs.len() {
            let elapsed = now_ns - self.last_start;
            if elapsed >= 10_000_000 {
                let index = self.next;
                self.next = self.next + 1;
                self.last_start = now_ns;
                RaceAction::Start { index, delay_ns: 50_000_000 }
            } else {
                self.pending = self.pending - 1;
                RaceAction::ArmTimer { delay_ns: 10_000_000 - elapsed }
            }
        } else {
            self.pending = self.pending - 1;
            if self.pending == 0 {
                self.failed = true;
                RaceAction::Fail
            } else {
                RaceAction::Idle
            }
        }
    }

    /// The attempt on `addrs[index]` succeeded: it wins, whatever the
    /// state of earlier attempts.
    pub fn on_success(&mut self, index: usize) -> (r: RaceAction)
        requires
            old(self).inv(),
            index < old(self).next,
        ensures
            final(self).inv(),
            final(self).addrs == old(self).addrs,
            final(self).winner == Some(old(self).addrs@[index as int]),
            r == RaceAction::Finish(old(self).addrs@[index as int]),
    {
        let a = self.addrs[index];
        self.winner = Some(a);
        RaceAction::Finish(a)
    }
}

} // verus!
