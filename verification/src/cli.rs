//! The command-line surface as plain values, and the duration grammar.
//!
//! Durations are held as nanosecond counts. The seconds text a user
//! writes (`1`, `0.5`, `2.`) is read by a decimal automaton; fraction
//! digits beyond the ninth are truncated.

use vstd::prelude::*;
use vstd::string::StringSliceAdditionalSpecFns;

verus! {

/// The options a run is started with. Durations are nanoseconds.
#[derive(Debug, Clone)]
pub struct Cli {
    /// Targets to probe, in input order.
    pub targets: Vec<String>,
    /// Stop after this many probes per target.
    pub count: Option<u64>,
    /// Nanoseconds between probe rounds.
    pub interval: u64,
    /// Nanoseconds to wait for one reply.
    pub timeout: u64,
    /// Total session lifetime in nanoseconds.
    pub deadline: Option<u64>,
    /// Outbound hop limit.
    pub ttl: u32,
    /// Payload octets per probe.
    pub size: usize,
    /// Suppress per-probe lines.
    pub quiet: bool,
    /// Debug logging.
    pub verbose: bool,
    /// Restrict to IPv4 ICMP.
    pub ipv4: bool,
    /// Restrict to IPv6 ICMP.
    pub ipv6: bool,
    /// Treat each target as `host:port`.
    pub tcp: bool,
    /// Treat each target as a URL.
    pub http: bool,
}

/// The transport a target is probed with.
#[derive(Debug, Clone, PartialEq)]
pub enum Protocol {
    Icmp,
    Tcp(u16),
    Http(String),
}

/// Ceiling on the seconds field of a duration: with nine fraction
/// digits the nanosecond count of any accepted text fits in 64 bits.
pub open spec fn max_duration_secs() -> int {
    18_000_000_000
}

/// State of the decimal-seconds automaton.
pub struct DurState {
    /// Whole seconds read so far.
    pub secs: int,
    /// Digits before the dot.
    pub int_digits: int,
    /// Value of the first nine fraction digits, scaled to nanoseconds.
    pub nanos: int,
    /// Fraction digits read so far.
    pub frac_digits: int,
    /// A dot was read.
    pub seen_dot: bool,
}

/// One byte of input advances the decimal-seconds automaton.
pub open spec fn dur_step(st: Option<DurState>, c: u8) -> Option<DurState> {
    match st {
        None => None,
        Some(s) => {
            if 48 <= c <= 57 {
                let d = c - 48;
                if !s.seen_dot {
                    if s.secs * 10 + d > max_duration_secs() {
                        None
                    } else {
                        Some(
                            DurState {
                                secs: s.secs * 10 + d,
                                int_digits: s.int_digits + 1,
                                ..s
                            },
                        )
                    }
                } else {
                    if s.frac_digits < 9 {
                        Some(
                            DurState {
                                nanos: s.nanos * 10 + d,
                                frac_digits: s.frac_digits + 1,
                                ..s
                            },
                        )
                    } else {
                        // further fraction digits are beyond nanosecond
                        // precision and are dropped
                        Some(DurState { frac_digits: s.frac_digits + 1, ..s })
                    }
                }
            } else if c == 46 {
                if s.seen_dot {
                    None
                } else {
                    Some(DurState { seen_dot: true, ..s })
                }
            } else {
                None
            }
        },
    }
}

/// The automaton run over all of `s`.
pub open spec fn dur_run(s: Seq<u8>) -> Option<DurState>
    decreases s.len(),
{
    if s.len() == 0 {
        Some(DurState { secs: 0, int_digits: 0, nanos: 0, frac_digits: 0, seen_dot: false })
    } else {
        dur_step(dur_run(s.drop_last()), s.last())
    }
}

/// Scale a fraction read from `d` digits up to nine digits.
pub open spec fn frac_scale(d: int) -> int
    decreases 9 - d,
{
    if d >= 9 {
        1
    } else {
        10 * frac_scale(d + 1)
    }
}

/// The duration grammar: the nanosecond count of `s` read as decimal
/// seconds, or `None` where `s` is no such text. At least one digit
/// must appear; `1.`, `.5` and `7` are all accepted.
pub open spec fn spec_parse_duration(s: Seq<u8>) -> Option<u64> {
    match dur_run(s) {
        Some(st) => if st.int_digits + st.frac_digits >= 1 {
            Some((st.secs * 1_000_000_000 + st.nanos * frac_scale(st.frac_digits)) as u64)
        } else {
            None
        },
        None => None,
    }
}

/// Bounds every live automaton state satisfies.
pub open spec fn dur_state_ok(s: DurState) -> bool {
    &&& 0 <= s.secs <= max_duration_secs()
    &&& 0 <= s.frac_digits
    &&& 0 <= s.int_digits
    &&& 0 <= s.nanos
    &&& !s.seen_dot ==> s.nanos == 0 && s.frac_digits == 0
    &&& s.nanos < frac_scale_inv(s.frac_digits)
}

/// `10` to the power of `min(d, 9)`.
pub open spec fn frac_scale_inv(d: int) -> int
    decreases d,
{
    if d <= 0 {
        1
    } else if d > 9 {
        1_000_000_000
    } else {
        10 * frac_scale_inv(d - 1)
    }
}

proof fn lemma_frac_scales()
    ensures
        forall|d: int| 0 <= d ==> #[trigger] frac_scale_inv(d) <= 1_000_000_000,
        forall|d: int| 0 <= d ==> #[trigger] frac_scale(d) * frac_scale_inv(d) == 1_000_000_000
            || d > 9,
        forall|d: int| 0 <= d ==> 1 <= #[trigger] frac_scale(d) <= 1_000_000_000,
        forall|d: int| d > 9 ==> #[trigger] frac_scale_inv(d) == 1_000_000_000,
        forall|d: int| d >= 9 ==> #[trigger] frac_scale(d) == 1,
{
    assert forall|d: int| 0 <= d implies #[trigger] frac_scale_inv(d) <= 1_000_000_000 by {
        lemma_frac_scale_inv_value(d);
    }
    assert forall|d: int| 0 <= d implies #[trigger] frac_scale(d) * frac_scale_inv(d)
        == 1_000_000_000 || d > 9 by {
        if d <= 9 {
            lemma_frac_scale_product(d);
        }
    }
    assert forall|d: int| 0 <= d implies 1 <= #[trigger] frac_scale(d) <= 1_000_000_000 by {
        lemma_frac_scale_value(d);
    }
    assert forall|d: int| d > 9 implies #[trigger] frac_scale_inv(d) == 1_000_000_000 by {
        lemma_frac_scale_inv_value(d);
    }
}

proof fn lemma_frac_scale_value(d: int)
    requires
        d >= 0,
    ensures
        1 <= frac_scale(d) <= 1_000_000_000,
    decreases 9 - d,
{
    if d < 9 {
        lemma_frac_scale_value(d + 1);
        assert(frac_scale(d) == 10 * frac_scale(d + 1));
        lemma_frac_scale_pow_bound(d);
    }
}

proof fn lemma_frac_scale_pow_bound(d: int)
    requires
        0 <= d,
    ensures
        frac_scale(d) <= 1_000_000_000,
    decreases 9 - d,
{
    if d >= 9 {
    } else {
        lemma_frac_scale_pow_bound(d + 1);
        lemma_frac_scale_exact(d);
    }
}

proof fn lemma_frac_scale_exact(d: int)
    requires
        0 <= d <= 9,
    ensures
        frac_scale(d) == frac_scale_table(d),
    decreases 9 - d,
{
    if d < 9 {
        lemma_frac_scale_exact(d + 1);
    }
}

/// The ten powers of ten a nine-digit fraction can be scaled by.
pub open spec fn frac_scale_table(d: int) -> int {
    if d <= 0 {
        1_000_000_000
    } else if d == 1 {
        100_000_000
    } else if d == 2 {
        10_000_000
    } else if d == 3 {
        1_000_000
    } else if d == 4 {
        100_000
    } else if d == 5 {
        10_000
    } else if d == 6 {
        1_000
    } else if d == 7 {
        100
    } else if d == 8 {
        10
    } else {
        1
    }
}

proof fn lemma_frac_scale_inv_value(d: int)
    requires
        d >= 0,
    ensures
        1 <= frac_scale_inv(d) <= 1_000_000_000,
        d > 9 ==> frac_scale_inv(d) == 1_000_000_000,
        d <= 9 ==> frac_scale_inv(d) == frac_scale_table(9 - d),
    decreases d,
{
    if d > 0 {
        lemma_frac_scale_inv_value(d - 1);
    }
}

proof fn lemma_frac_scale_product(d: int)
    requires
        0 <= d <= 9,
    ensures
        frac_scale(d) * frac_scale_inv(d) == 1_000_000_000,
{
    lemma_frac_scale_exact(d);
    lemma_frac_scale_inv_value(d);
    assert(frac_scale_table(d) * frac_scale_table(9 - d) == 1_000_000_000);
}

proof fn lemma_dur_run_ok(s: Seq<u8>)
    ensures
        dur_run(s) matches Some(st) ==> dur_state_ok(st),
    decreases s.len(),
{
    if s.len() > 0 {
        lemma_dur_run_ok(s.drop_last());
        if dur_run(s.drop_last()) is Some && dur_run(s) is Some {
            let p = dur_run(s.drop_last()).unwrap();
            lemma_frac_scale_inv_value(p.frac_digits);
            lemma_frac_scale_inv_value(p.frac_digits + 1);
        }
    }
}

/// A dead automaton stays dead to the end of the input.
proof fn lemma_dur_run_fail_persists(s: Seq<u8>, i: int)
    requires
        0 <= i <= s.len(),
        dur_run(s.take(i)) is None,
    ensures
        dur_run(s) is None,
    decreases s.len() - i,
{
    if i < s.len() {
        assert(s.take(i + 1).drop_last() =~= s.take(i));
        lemma_dur_run_fail_persists(s, i + 1);
    } else {
        assert(s.take(i) =~= s);
    }
}

/// Parse a seconds text such as `1`, `0.25` or `3.` into nanoseconds.
pub fn parse_duration(arg: &str) -> (r: Option<u64>)
    ensures
        r == spec_parse_duration(arg.spec_bytes()),
{
    let s = arg.as_bytes();
    let n = s.len();
    let mut secs: u64 = 0;
    let mut int_digits: u64 = 0;
    let mut nanos: u64 = 0;
    let mut frac_digits: u64 = 0;
    let mut seen_dot: bool = false;
    let mut i: usize = 0;
    while i < n
        invariant
            s@ == arg.spec_bytes(),
            n == s@.len(),
            i <= n,
            int_digits <= i,
            frac_digits <= i,
            dur_run(s@.take(i as int)) == Some(
                DurState {
                    secs: secs as int,
                    int_digits: int_digits as int,
                    nanos: nanos as int,
                    frac_digits: frac_digits as int,
                    seen_dot: seen_dot,
                },
            ),
        decreases n - i,
    {
        proof {
            lemma_dur_run_ok(s@.take(i as int));
            assert(s@.take(i as int + 1).drop_last() =~= s@.take(i as int));
            assert(s@.take(i as int + 1).last() == s@[i as int]);
        }
        let c = s[i];
        if 48 <= c && c <= 57 {
            let d = (c - 48) as u64;
            if !seen_dot {
                if secs > 1_800_000_000 || secs * 10 + d > 18_000_000_000 {
                    proof {
                        assert((secs as int) * 10 + (d as int) > max_duration_secs())
                            by (nonlinear_arith)
                            requires
                                (secs as int) > 1_800_000_000 || (secs as int) * 10 + (d as int)
                                    > 18_000_000_000,
                                0 <= (d as int) <= 9,
                                (secs as int) >= 0;
                        lemma_dur_run_fail_persists(s@, i as int + 1);
                    }
                    return None;
                }
                secs = secs * 10 + d;
                int_digits = int_digits + 1;
            } else {
                if frac_digits < 9 {
                    proof {
                        lemma_dur_run_ok(s@.take(i as int));
                        lemma_frac_scale_inv_value(frac_digits as int);
                    }
                    nanos = nanos * 10 + d;
                }
                frac_digits = frac_digits + 1;
            }
        } else if c == 46 {
            if seen_dot {
                proof {
                    lemma_dur_run_fail_persists(s@, i as int + 1);
                }
                return None;
            }
            seen_dot = true;
        } else {
            proof {
                lemma_dur_run_fail_persists(s@, i as int + 1);
            }
            return None;
        }
        i = i + 1;
    }
    proof {
        assert(s@.take(n as int) =~= s@);
        lemma_dur_run_ok(s@);
        lemma_frac_scales();
    }
    if int_digits == 0 && frac_digits == 0 {
        return None;
    }
    let scale = frac_scale_exec(frac_digits);
    proof {
        assert((secs as int) * 1_000_000_000 + (nanos as int) * (scale as int)
            < 0x1_0000_0000_0000_0000) by (nonlinear_arith)
            requires
                0 <= (secs as int) <= 18_000_000_000,
                0 <= (nanos as int) < frac_scale_inv(frac_digits as int),
                (scale as int) == frac_scale(frac_digits as int),
                frac_scale_inv(frac_digits as int) * (scale as int) <= 1_000_000_000 * 1,
                (scale as int) >= 1;
    }
    Some(secs * 1_000_000_000 + nanos * scale)
}

/// `10` to the power of `min(d, 9)`, executable.
fn frac_scale_exec(d: u64) -> (r: u64)
    ensures
        r == frac_scale(d as int),
{
    proof {
        lemma_frac_scales();
        if d <= 9 {
            lemma_frac_scale_exact(d as int);
        }
    }
    if d >= 9 {
        1
    } else if d == 8 {
        10
    } else if d == 7 {
        100
    } else if d == 6 {
        1_000
    } else if d == 5 {
        10_000
    } else if d == 4 {
        100_000
    } else if d == 3 {
        1_000_000
    } else if d == 2 {
        10_000_000
    } else if d == 1 {
        100_000_000
    } else {
        1_000_000_000
    }
}

} // verus!
