//! Probe results and per-target statistics.
//!
//! Every probe yields exactly one result; a target's statistics fold
//! those results into transmitted/received counts and the list of
//! round-trip times, in nanoseconds. The summary values are integer
//! computations over that list.

use vstd::prelude::*;
use crate::addr::IpAddress;

verus! {

/// Outcome of one probe.
#[derive(Debug, Clone)]
pub enum ProbeStatus {
    Success,
    Timeout,
    Error(String),
}

impl ProbeStatus {
    pub open spec fn is_success(self) -> bool {
        self matches ProbeStatus::Success
    }
}

/// One probe's outcome as delivered on the result channel.
#[derive(Debug, Clone)]
pub struct PingResult {
    /// The target string the user supplied.
    pub target: String,
    /// The probed address.
    pub target_addr: IpAddress,
    /// Sequence number of the probe.
    pub seq: u64,
    /// Octets of the reply payload, 0 when none arrived.
    pub bytes: usize,
    /// Hop limit of the reply, where known.
    pub ttl: Option<u8>,
    /// Round-trip nanoseconds; 0 unless the probe succeeded.
    pub rtt: u64,
    pub status: ProbeStatus,
}

/// Smallest element of a non-empty sequence.
pub open spec fn seq_min(s: Seq<u64>) -> u64
    recommends s.len() > 0,
    decreases s.len(),
{
    if s.len() == 0 {
        0
    } else if s.len() == 1 {
        s[0]
    } else if s.last() < seq_min(s.drop_last()) {
        s.last()
    } else {
        seq_min(s.drop_last())
    }
}

/// Largest element of a sequence.
pub open spec fn seq_max(s: Seq<u64>) -> u64
    decreases s.len(),
{
    if s.len() == 0 {
        0
    } else if s.last() > seq_max(s.drop_last()) {
        s.last()
    } else {
        seq_max(s.drop_last())
    }
}

/// Sum of a sequence.
pub open spec fn seq_sum(s: Seq<u64>) -> int
    decreases s.len(),
{
    if s.len() == 0 {
        0
    } else {
        seq_sum(s.drop_last()) + s.last()
    }
}

/// `|a - b|`.
pub open spec fn abs_diff(a: int, b: int) -> int {
    if a >= b {
        a - b
    } else {
        b - a
    }
}

/// Sum of distances of the elements from `center`.
pub open spec fn seq_dev_sum(s: Seq<u64>, center: int) -> int
    decreases s.len(),
{
    if s.len() == 0 {
        0
    } else {
        seq_dev_sum(s.drop_last(), center) + abs_diff(s.last() as int, center)
    }
}

/// `num / den` rounded to the nearest integer, ties to even.
pub open spec fn round_half_even(num: int, den: int) -> int
    recommends den > 0, num >= 0,
{
    let q = num / den;
    let r = num % den;
    if 2 * r > den {
        q + 1
    } else if 2 * r < den {
        q
    } else if q % 2 == 0 {
        q
    } else {
        q + 1
    }
}

/// The loss percentage `100 * (1 - received/transmitted)`, rounded to
/// the nearest whole percent; 0 where nothing was transmitted.
pub open spec fn spec_loss_percent(transmitted: u64, received: u64) -> int
    recommends received <= transmitted,
{
    if transmitted == 0 {
        0
    } else {
        round_half_even(100 * (transmitted - received), transmitted as int)
    }
}

/// The four summary round-trip values, in nanoseconds.
#[derive(Debug, Clone, Copy, PartialEq, Eq, Structural)]
pub struct RttSummary {
    pub min: u64,
    pub max: u64,
    /// Arithmetic mean, rounded down.
    pub avg: u64,
    /// Mean absolute deviation from `avg`, rounded down.
    pub mdev: u64,
}

/// Per-target statistics: one `update` per result received.
#[derive(Debug, Clone)]
pub struct PingStats {
    /// The target string the user supplied.
    pub target: String,
    /// The resolved address the target is probed at.
    pub address: IpAddress,
    /// Results received.
    pub transmitted: u64,
    /// Successful results among them.
    pub received: u64,
    /// The instant the target's probing started, in nanoseconds of the
    /// caller's clock.
    pub start_ns: u64,
    /// Round-trip nanoseconds of each success, in arrival order.
    pub rtts: Vec<u64>,
}

impl PingStats {
    /// Counts agree with each other and with the sample list.
    pub open spec fn wf(self) -> bool {
        &&& self.received <= self.transmitted
        &&& self.rtts@.len() == self.received
    }

    /// Fresh statistics for a target.
    pub fn new(target: String, address: IpAddress, start_ns: u64) -> (r: Self)
        ensures
            r.wf(),
            r.target@ == target@,
            r.address == address,
            r.transmitted == 0,
            r.received == 0,
            r.start_ns == start_ns,
            r.rtts@ =~= Seq::<u64>::empty(),
    {
        Self { target, address, transmitted: 0, received: 0, start_ns, rtts: Vec::new() }
    }

    /// Fold one result in: every result counts as transmitted, a
    /// success also as received with its round-trip time recorded.
    pub fn update(&mut self, result: &PingResult)
        requires
            old(self).wf(),
            old(self).transmitted < u64::MAX,
        ensures
            final(self).wf(),
            final(self).target@ == old(self).target@,
            final(self).address == old(self).address,
            final(self).start_ns == old(self).start_ns,
            final(self).transmitted == old(self).transmitted + 1,
            result.status.is_success() ==> {
                &&& final(self).received == old(self).received + 1
                &&& final(self).rtts@ == old(self).rtts@.push(result.rtt)
            },
            !result.status.is_success() ==> {
                &&& final(self).received == old(self).received
                &&& final(self).rtts@ == old(self).rtts@
            },
    {
        self.transmitted = self.transmitted + 1;
        if let ProbeStatus::Success = result.status {
            self.received = self.received + 1;
            self.rtts.push(result.rtt);
        }
    }

    /// The loss percentage for the counts so far.
    pub fn loss_percent(&self) -> (r: u64)
        requires
            self.wf(),
        ensures
            r == spec_loss_percent(self.transmitted, self.received),
    {
        if self.transmitted == 0 {
            return 0;
        }
        let num: u128 = 100u128 * ((self.transmitted - self.received) as u128);
        let den: u128 = self.transmitted as u128;
        let q: u128 = num / den;
        let rem: u128 = num % den;
        proof {
            assert(q <= 100) by (nonlinear_arith)
                requires
                    den > 0,
                    num <= 100 * den,
                    q == num / den;
        }
        let r: u128 = if 2 * rem > den {
            q + 1
        } else if 2 * rem < den {
            q
        } else if q % 2 == 0 {
            q
        } else {
            q + 1
        };
        r as u64
    }

    /// The summary round-trip values; present exactly when a reply was
    /// received.
    pub fn summary(&self) -> (r: Option<RttSummary>)
        requires
            self.wf(),
        ensures
            r is Some <==> self.received > 0,
            r matches Some(su) ==> {
                &&& su.min == seq_min(self.rtts@)
                &&& su.max == seq_max(self.rtts@)
                &&& su.avg == seq_sum(self.rtts@) / (self.rtts@.len() as int)
                &&& su.mdev == seq_dev_sum(self.rtts@, su.avg as int) / (self.rtts@.len() as int)
            },
    {
        let n = self.rtts.len();
        if n == 0 {
            return None;
        }
        let mut min: u64 = self.rtts[0];
        let mut max: u64 = 0;
        let mut sum: u128 = 0;
        let mut i: usize = 0;
        proof {
            assert(self.rtts@.take(1).drop_last() =~= self.rtts@.take(0));
        }
        while i < n
            invariant
                n == self.rtts@.len(),
                i <= n,
                i > 0 ==> min == seq_min(self.rtts@.take(i as int)),
                i == 0 ==> min == self.rtts@[0],
                max == seq_max(self.rtts@.take(i as int)),
                sum == seq_sum(self.rtts@.take(i as int)),
                sum <= (i as int) * 0xFFFF_FFFF_FFFF_FFFF,
            decreases n - i,
        {
            proof {
                assert(self.rtts@.take(i as int + 1).drop_last() =~= self.rtts@.take(i as int));
                assert(self.rtts@.take(i as int + 1).last() == self.rtts@[i as int]);
                assert((i as int) * 0xFFFF_FFFF_FFFF_FFFF + 0xFFFF_FFFF_FFFF_FFFF == (i + 1)
                    * 0xFFFF_FFFF_FFFF_FFFF) by (nonlinear_arith);
                assert((i + 1) * 0xFFFF_FFFF_FFFF_FFFF < 0x1_0000_0000_0000_0000_0000_0000_0000_0000)
                    by (nonlinear_arith)
                    requires i + 1 <= 0xFFFF_FFFF_FFFF_FFFF;
            }
            let x = self.rtts[i];
            if i == 0 || x < min {
                min = x;
            }
            if x > max {
                max = x;
            }
            sum = sum + (x as u128);
            i = i + 1;
        }
        proof {
            assert(self.rtts@.take(n as int) =~= self.rtts@);
        }
        proof {
            lemma_seq_sum_le_max(self.rtts@);
            assert(sum / (n as u128) <= seq_max(self.rtts@) as u128) by (nonlinear_arith)
                requires
                    n > 0,
                    sum == seq_sum(self.rtts@),
                    seq_sum(self.rtts@) <= (n as int) * (seq_max(self.rtts@) as int);
            assert(seq_sum(self.rtts@) / (n as int) == sum / (n as u128)) by (nonlinear_arith)
                requires
                    sum == seq_sum(self.rtts@),
                    n > 0;
        }
        let avg: u64 = (sum / (n as u128)) as u64;
        let mut dev: u128 = 0;
        let mut j: usize = 0;
        while j < n
            invariant
                n == self.rtts@.len(),
                j <= n,
                dev == seq_dev_sum(self.rtts@.take(j as int), avg as int),
                dev <= (j as int) * 0xFFFF_FFFF_FFFF_FFFF,
            decreases n - j,
        {
            proof {
                assert(self.rtts@.take(j as int + 1).drop_last() =~= self.rtts@.take(j as int));
                assert(self.rtts@.take(j as int + 1).last() == self.rtts@[j as int]);
                assert((j as int) * 0xFFFF_FFFF_FFFF_FFFF + 0xFFFF_FFFF_FFFF_FFFF == (j + 1)
                    * 0xFFFF_FFFF_FFFF_FFFF) by (nonlinear_arith);
                assert((j + 1) * 0xFFFF_FFFF_FFFF_FFFF < 0x1_0000_0000_0000_0000_0000_0000_0000_0000)
                    by (nonlinear_arith)
                    requires j + 1 <= 0xFFFF_FFFF_FFFF_FFFF;
            }
            let x = self.rtts[j];
            let d = if x >= avg {
                x - avg
            } else {
                avg - x
            };
            dev = dev + (d as u128);
            j = j + 1;
        }
        proof {
            assert(self.rtts@.take(n as int) =~= self.rtts@);
            lemma_seq_dev_sum_bound(self.rtts@, avg as int);
            assert(dev / (n as u128) <= 0xFFFF_FFFF_FFFF_FFFF) by (nonlinear_arith)
                requires
                    n > 0,
                    dev <= (n as int) * 0xFFFF_FFFF_FFFF_FFFF;
            assert(seq_dev_sum(self.rtts@, avg as int) / (n as int) == dev / (n as u128))
                by (nonlinear_arith)
                requires
                    dev == seq_dev_sum(self.rtts@, avg as int),
                    n > 0;
        }
        let mdev: u64 = (dev / (n as u128)) as u64;
        Some(RttSummary { min, max, avg, mdev })
    }
}

proof fn lemma_seq_sum_le_max(s: Seq<u64>)
    ensures
        0 <= seq_sum(s),
        seq_sum(s) <= s.len() * (seq_max(s) as int),
    decreases s.len(),
{
    if s.len() > 0 {
        lemma_seq_sum_le_max(s.drop_last());
        lemma_seq_max_monotone(s);
        assert((s.len() - 1) * (seq_max(s.drop_last()) as int) + (s.last() as int) <= s.len()
            * (seq_max(s) as int)) by (nonlinear_arith)
            requires
                s.len() >= 1,
                0 <= seq_max(s.drop_last()) <= seq_max(s),
                s.last() <= seq_max(s);
    }
}

proof fn lemma_seq_max_monotone(s: Seq<u64>)
    requires
        s.len() > 0,
    ensures
        seq_max(s.drop_last()) <= seq_max(s),
        s.last() <= seq_max(s),
{
}

proof fn lemma_seq_dev_sum_bound(s: Seq<u64>, center: int)
    requires
        0 <= center <= 0xFFFF_FFFF_FFFF_FFFF,
    ensures
        0 <= seq_dev_sum(s, center),
        seq_dev_sum(s, center) <= s.len() * 0xFFFF_FFFF_FFFF_FFFF,
    decreases s.len(),
{
    if s.len() > 0 {
        lemma_seq_dev_sum_bound(s.drop_last(), center);
        assert((s.len() - 1) * 0xFFFF_FFFF_FFFF_FFFF + 0xFFFF_FFFF_FFFF_FFFF == s.len()
            * 0xFFFF_FFFF_FFFF_FFFF) by (nonlinear_arith);
    }
}

} // verus!
