//! The session scheduler's decisions, as a state machine.
//!
//! The surrounding event loop owns the timers, the channel and the
//! pingers; on each event it calls one method here and performs the
//! action handed back. The scheduler tracks the sequence counter, the
//! in-flight probe count, the draining state and the per-target
//! statistics, and maintains the session invariants: each target's
//! received count never passes its transmitted count, no more rounds
//! are dispatched than the count limit allows, and the sequence
//! numbers folded into a target's statistics are distinct members of
//! `1..=dispatched`.

use vstd::prelude::*;
use vstd::set_lib::{set_int_range, lemma_int_range, lemma_len_subset};
use crate::addr::IpAddress;
use crate::stats::{PingResult, PingStats};

verus! {

/// What the event loop must do after an interval tick.
#[derive(Debug, Clone, Copy, PartialEq, Eq, Structural)]
pub enum TickAction {
    /// Call `ping(seq)` on every pinger, then report the number of
    /// successful dispatches.
    Send(u64),
    /// The count limit is met: stop ticking and arm a drain timer for
    /// this many nanoseconds.
    Drain(u64),
    /// Ticking is already over; do nothing.
    Idle,
}

/// Whether the session goes on after an event.
#[derive(Debug, Clone, Copy, PartialEq, Eq, Structural)]
pub enum LoopAction {
    Continue,
    Terminate,
}

/// How long the scheduler waits for stragglers once the count limit is
/// met: the per-probe timeout plus a tenth of a second.
pub open spec fn spec_drain_delay(timeout: u64) -> u64 {
    if timeout + 100_000_000 <= u64::MAX {
        (timeout + 100_000_000) as u64
    } else {
        u64::MAX
    }
}

/// The scheduler: the decision state of a running session.
pub struct Scheduler {
    /// Stop after this many rounds, if set.
    pub count: Option<u64>,
    /// Per-probe timeout in nanoseconds.
    pub timeout: u64,
    /// Targets that were successfully started.
    pub n_pingers: u64,
    /// Sequence number the next round will carry; rounds start at 1.
    pub next_seq: u64,
    /// Probes sent whose results have not yet arrived.
    pub in_flight: u64,
    /// No further rounds are sent; stragglers are awaited.
    pub draining: bool,
    /// The session is over.
    pub terminated: bool,
    /// Per-target statistics, in target input order.
    pub stats: Vec<PingStats>,
    /// For each target, the sequence numbers already folded in.
    pub seen: Ghost<Seq<Set<int>>>,
}

impl Scheduler {
    /// Rounds dispatched so far.
    pub open spec fn dispatched(self) -> int {
        self.next_seq - 1
    }

    /// The session invariants.
    pub open spec fn inv(self) -> bool {
        &&& 1 <= self.next_seq
        &&& self.seen@.len() == self.stats@.len()
        &&& self.n_pingers == self.stats@.len()
        &&& self.count matches Some(c) ==> self.dispatched() <= c
        &&& forall|i: int|
            0 <= i < self.stats@.len() ==> (#[trigger] self.stats@[i]).wf()
        &&& forall|i: int|
            0 <= i < self.stats@.len() ==> (#[trigger] self.seen@[i]).finite()
        &&& forall|i: int|
            0 <= i < self.stats@.len() ==> (#[trigger] self.stats@[i]).transmitted
                == self.seen@[i].len()
        &&& forall|i: int|
            0 <= i < self.stats@.len() ==> (#[trigger] self.seen@[i]) <= set_int_range(
                1,
                self.dispatched() + 1,
            )
        &&& forall|i: int, j: int|
            0 <= i < j < self.stats@.len() ==> (#[trigger] self.stats@[i]).target@ != (
            #[trigger] self.stats@[j]).target@
    }

    /// A scheduler before any target or tick.
    pub fn new(count: Option<u64>, timeout: u64) -> (r: Self)
        ensures
            r.inv(),
            r.count == count,
            r.timeout == timeout,
            r.n_pingers == 0,
            r.next_seq == 1,
            r.in_flight == 0,
            !r.draining,
            !r.terminated,
            r.stats@.len() == 0,
    {
        Self {
            count,
            timeout,
            n_pingers: 0,
            next_seq: 1,
            in_flight: 0,
            draining: false,
            terminated: false,
            stats: Vec::new(),
            seen: Ghost(Seq::empty()),
        }
    }

    /// Register a started target. Targets are added before the first
    /// round, each under a fresh name, and keep their input order.
    pub fn add_target(&mut self, target: String, address: IpAddress, start_ns: u64)
        requires
            old(self).inv(),
            old(self).next_seq == 1,
            !old(self).terminated,
            old(self).stats@.len() < u64::MAX,
            forall|i: int|
                0 <= i < old(self).stats@.len() ==> (#[trigger] old(self).stats@[i]).target@
                    != target@,
        ensures
            final(self).inv(),
            final(self).stats@.len() == old(self).stats@.len() + 1,
            final(self).stats@.last().target@ == target@,
            final(self).stats@.last().address == address,
            final(self).stats@.last().transmitted == 0,
            final(self).stats@.last().received == 0,
            final(self).stats@.take(old(self).stats@.len() as int) == old(self).stats@,
            final(self).n_pingers == old(self).n_pingers + 1,
            final(self).count == old(self).count,
            final(self).timeout == old(self).timeout,
            final(self).next_seq == 1,
            final(self).in_flight == old(self).in_flight,
            final(self).draining == old(self).draining,
            !final(self).terminated,
    {
        let st = PingStats::new(target, address, start_ns);
        self.stats.push(st);
        proof {
            self.seen@ = self.seen@.push(Set::empty());
        }
        self.n_pingers = self.n_pingers + 1;
        proof {
            assert(final(self).stats@.take(old(self).stats@.len() as int) =~= old(self).stats@);
        }
    }

    /// An interval tick: dispatch the next round, or begin draining
    /// once the count limit is met.
    pub fn on_tick(&mut self) -> (r: TickAction)
        requires
            old(self).inv(),
            !old(self).terminated,
            old(self).next_seq < u64::MAX,
        ensures
            final(self).inv(),
            final(self).count == old(self).count,
            final(self).timeout == old(self).timeout,
            final(self).stats == old(self).stats,
            final(self).seen == old(self).seen,
            final(self).n_pingers == old(self).n_pingers,
            final(self).in_flight == old(self).in_flight,
            !final(self).terminated,
            old(self).draining ==> r == TickAction::Idle && *final(self) == *old(self),
            !old(self).draining ==> match old(self).count {
                Some(c) => if old(self).next_seq > c {
                    &&& r == TickAction::Drain(spec_drain_delay(old(self).timeout))
                    &&& final(self).draining
                    &&& final(self).next_seq == old(self).next_seq
                } else {
                    &&& r == TickAction::Send(old(self).next_seq)
                    &&& !final(self).draining
                    &&& final(self).next_seq == old(self).next_seq + 1
                },
                None => {
                    &&& r == TickAction::Send(old(self).next_seq)
                    &&& !final(self).draining
                    &&& final(self).next_seq == old(self).next_seq + 1
                },
            },
    {
        if self.draining {
            return TickAction::Idle;
        }
        if let Some(c) = self.count {
            if self.next_seq > c {
                self.draining = true;
                let delay = if self.timeout <= u64::MAX - 100_000_000 {
                    self.timeout + 100_000_000
                } else {
                    u64::MAX
                };
                return TickAction::Drain(delay);
            }
        }
        let seq = self.next_seq;
        self.next_seq = self.next_seq + 1;
        proof {
            assert forall|i: int| 0 <= i < self.stats@.len() implies (#[trigger] self.seen@[i])
                <= set_int_range(1, self.dispatched() + 1) by {
                assert(set_int_range(1, old(self).dispatched() + 1) <= set_int_range(
                    1,
                    self.dispatched() + 1,
                ));
            }
        }
        TickAction::Send(seq)
    }

    /// Report how many pingers the round was actually handed to.
    pub fn record_dispatched(&mut self, n: u64)
        requires
            old(self).inv(),
            n <= old(self).n_pingers,
            old(self).in_flight + n <= u64::MAX,
        ensures
            final(self).inv(),
            *final(self) == (Scheduler { in_flight: (old(self).in_flight + n) as u64, ..*old(self) }),
    {
        self.in_flight = self.in_flight + n;
    }

    /// The index of the target a result belongs to.
    fn find_target(&self, name: &String) -> (r: Option<usize>)
        ensures
            r matches Some(i) ==> i < self.stats@.len() && self.stats@[i as int].target@ == name@,
            r is None ==> forall|i: int|
                0 <= i < self.stats@.len() ==> (#[trigger] self.stats@[i]).target@ != name@,
    {
        let n = self.stats.len();
        let mut i: usize = 0;
        while i < n
            invariant
                n == self.stats@.len(),
                i <= n,
                forall|j: int| 0 <= j < i ==> (#[trigger] self.stats@[j]).target@ != name@,
            decreases n - i,
        {
            if self.stats[i].target == *name {
                return Some(i);
            }
            i = i + 1;
        }
        None
    }

    /// Fold one result in. The result channel delivers each probe's
    /// outcome exactly once, for a probe of a round already dispatched:
    /// the caller vouches for that here.
    pub fn on_result(&mut self, result: &PingResult) -> (r: LoopAction)
        requires
            old(self).inv(),
            !old(self).terminated,
            old(self).in_flight >= 1,
            1 <= result.seq <= old(self).dispatched(),
            forall|i: int|
                0 <= i < old(self).stats@.len() && (#[trigger] old(self).stats@[i]).target@
                    == result.target@ ==> !old(self).seen@[i].contains(result.seq as int),
        ensures
            final(self).inv(),
            final(self).count == old(self).count,
            final(self).timeout == old(self).timeout,
            final(self).n_pingers == old(self).n_pingers,
            final(self).next_seq == old(self).next_seq,
            final(self).draining == old(self).draining,
            final(self).in_flight == old(self).in_flight - 1,
            final(self).stats@.len() == old(self).stats@.len(),
            // the matching target's statistics absorb the result
            forall|i: int|
                0 <= i < old(self).stats@.len() && (#[trigger] old(self).stats@[i]).target@
                    == result.target@ ==> {
                    &&& final(self).stats@[i].transmitted == old(self).stats@[i].transmitted + 1
                    &&& (result.status.is_success() ==> final(self).stats@[i].received == old(
                        self,
                    ).stats@[i].received + 1 && final(self).stats@[i].rtts@ == old(
                        self,
                    ).stats@[i].rtts@.push(result.rtt))
                    &&& (!result.status.is_success() ==> final(self).stats@[i].received == old(
                        self,
                    ).stats@[i].received && final(self).stats@[i].rtts@ == old(self).stats@[i].rtts@)
                    &&& final(self).seen@[i] == old(self).seen@[i].insert(result.seq as int)
                },
            // every other target is untouched
            forall|i: int|
                0 <= i < old(self).stats@.len() && (#[trigger] old(self).stats@[i]).target@
                    != result.target@ ==> final(self).stats@[i] == old(self).stats@[i]
                    && final(self).seen@[i] == old(self).seen@[i],
            // the session ends exactly when the last straggler drains
            r == LoopAction::Terminate <==> (old(self).draining && old(self).in_flight == 1),
            final(self).terminated <==> (old(self).draining && old(self).in_flight == 1),
    {
        self.in_flight = self.in_flight - 1;
        let idx = self.find_target(&result.target);
        if let Some(i) = idx {
            proof {
                lemma_int_range(1, old(self).dispatched() + 1);
                lemma_len_subset(
                    self.seen@[i as int],
                    set_int_range(1, old(self).dispatched() + 1),
                );
            }
            let st = &mut self.stats[i];
            proof {
                assert(old(self).stats@[i as int].transmitted < u64::MAX);
            }
            st.update(result);
            proof {
                self.seen@ = self.seen@.update(
                    i as int,
                    self.seen@[i as int].insert(result.seq as int),
                );
            }
        }
        if self.draining && self.in_flight == 0 {
            self.terminated = true;
            LoopAction::Terminate
        } else {
            LoopAction::Continue
        }
    }

    /// The user's deadline elapsed: the session ends now, whatever the
    /// count limit still owes.
    pub fn on_deadline(&mut self) -> (r: LoopAction)
        requires
            old(self).inv(),
        ensures
            final(self).inv(),
            *final(self) == (Scheduler { terminated: true, ..*old(self) }),
            r == LoopAction::Terminate,
    {
        self.terminated = true;
        LoopAction::Terminate
    }

    /// The drain timer elapsed: stragglers are abandoned.
    pub fn on_drain_expired(&mut self) -> (r: LoopAction)
        requires
            old(self).inv(),
            old(self).draining,
        ensures
            final(self).inv(),
            *final(self) == (Scheduler { terminated: true, ..*old(self) }),
            r == LoopAction::Terminate,
    {
        self.terminated = true;
        LoopAction::Terminate
    }

    /// The user interrupted: the session ends cleanly.
    pub fn on_interrupt(&mut self) -> (r: LoopAction)
        requires
            old(self).inv(),
        ensures
            final(self).inv(),
            *final(self) == (Scheduler { terminated: true, ..*old(self) }),
            r == LoopAction::Terminate,
    {
        self.terminated = true;
        LoopAction::Terminate
    }
}

/// Each target's counts obey the session bounds: received never passes
/// transmitted, and with a count limit set no target's transmitted
/// count passes it.
pub proof fn lemma_counts_bounded(s: Scheduler)
    requires
        s.inv(),
    ensures
        forall|i: int|
            0 <= i < s.stats@.len() ==> (#[trigger] s.stats@[i]).received <= s.stats@[i].transmitted,
        s.count matches Some(c) ==> forall|i: int|
            0 <= i < s.stats@.len() ==> (#[trigger] s.stats@[i]).transmitted <= c,
{
    assert forall|i: int| 0 <= i < s.stats@.len() implies (#[trigger] s.stats@[i]).transmitted
        <= s.dispatched() by {
        lemma_int_range(1, s.dispatched() + 1);
        lemma_len_subset(s.seen@[i], set_int_range(1, s.dispatched() + 1));
    }
}

/// The sequence numbers a target's statistics absorbed are distinct
/// members of `1..=dispatched`: their set has exactly `transmitted`
/// elements and lies inside the dispatched range.
pub proof fn lemma_result_sequences(s: Scheduler, i: int)
    requires
        s.inv(),
        0 <= i < s.stats@.len(),
    ensures
        s.seen@[i].finite(),
        s.seen@[i].len() == s.stats@[i].transmitted,
        forall|q: int| s.seen@[i].contains(q) ==> 1 <= q <= s.dispatched(),
{
    assert forall|q: int| s.seen@[i].contains(q) implies 1 <= q <= s.dispatched() by {
        assert(set_int_range(1, s.dispatched() + 1).contains(q));
    }
}

} // verus!
