//! IP addresses as plain values, and parsing of address literals.
//!
//! An address is held in its numeric form: 32 bits for IPv4, 128 bits
//! for IPv6. The literal grammars are defined as left-to-right automata
//! over the input bytes; the parsers are proved to compute exactly the
//! automaton's verdict.

use vstd::prelude::*;

verus! {

/// An IP address of either family, in numeric form.
#[derive(Debug, Clone, Copy, PartialEq, Eq, Structural)]
pub enum IpAddress {
    V4(u32),
    V6(u128),
}

impl IpAddress {
    pub open spec fn spec_is_ipv6(self) -> bool {
        self matches IpAddress::V6(_)
    }

    /// Whether the address belongs to the IPv6 family.
    pub fn is_ipv6(&self) -> (r: bool)
        ensures
            r == self.spec_is_ipv6(),
    {
        match self {
            IpAddress::V6(_) => true,
            IpAddress::V4(_) => false,
        }
    }

    /// The numeric value of `a.b.c.d`.
    pub open spec fn spec_v4_value(a: u8, b: u8, c: u8, d: u8) -> int {
        ((a as int) * 0x1000000) + ((b as int) * 0x10000) + ((c as int) * 0x100) + (d as int)
    }

    /// The IPv4 address `a.b.c.d`.
    pub fn v4_from_octets(a: u8, b: u8, c: u8, d: u8) -> (r: Self)
        ensures
            r == IpAddress::V4(Self::spec_v4_value(a, b, c, d) as u32),
    {
        let v: u32 = ((a as u32) << 24) | ((b as u32) << 16) | ((c as u32) << 8) | (d as u32);
        proof {
            assert(v == (a as u32) * 0x1000000 + (b as u32) * 0x10000 + (c as u32) * 0x100
                + (d as u32)) by (bit_vector)
                requires
                    v == ((a as u32) << 24) | ((b as u32) << 16) | ((c as u32) << 8) | (
                    d as u32),
                    a <= 0xFF,
                    b <= 0xFF,
                    c <= 0xFF,
                    d <= 0xFF;
        }
        IpAddress::V4(v)
    }

    /// The numeric value of the eight 16-bit segments of an IPv6 address.
    pub open spec fn spec_v6_value(segs: Seq<u16>) -> int
        decreases segs.len(),
    {
        if segs.len() == 0 {
            0
        } else {
            Self::spec_v6_value(segs.drop_last()) * 0x10000 + (segs.last() as int)
        }
    }

    /// The IPv6 address with the given eight segments, most significant
    /// first.
    pub fn v6_from_segments(segs: &[u16; 8]) -> (r: Self)
        ensures
            r == IpAddress::V6(Self::spec_v6_value(segs@) as u128),
    {
        let mut value: u128 = 0;
        let mut i: usize = 0;
        proof {
            lemma_pow_2_16_values();
        }
        while i < 8
            invariant
                i <= 8,
                value == Self::spec_v6_value(segs@.take(i as int)),
            decreases 8 - i,
        {
            proof {
                lemma_pow_2_16_values();
                lemma_v6_value_bound(segs@.take(i as int));
                assert(segs@.take(i as int + 1).drop_last() =~= segs@.take(i as int));
                assert((value as int) * 0x10000 + (segs@[i as int] as int) < pow_2_16(8))
                    by (nonlinear_arith)
                    requires
                        (value as int) < pow_2_16(i as int),
                        0 <= (value as int),
                        i < 8,
                        (segs@[i as int] as int) < 0x10000,
                        pow_2_16(i as int) <= pow_2_16(7),
                        pow_2_16(8) == pow_2_16(7) * 0x10000;
            }
            value = value * 0x10000 + (segs[i] as u128);
            i = i + 1;
        }
        proof {
            assert(segs@.take(8) =~= segs@);
        }
        IpAddress::V6(value)
    }
}

proof fn lemma_v6_value_bound(segs: Seq<u16>)
    requires
        segs.len() <= 8,
    ensures
        0 <= IpAddress::spec_v6_value(segs),
        IpAddress::spec_v6_value(segs) < pow_2_16(segs.len() as int),
    decreases segs.len(),
{
    if segs.len() > 0 {
        lemma_v6_value_bound(segs.drop_last());
        assert(IpAddress::spec_v6_value(segs.drop_last()) * 0x10000 + (segs.last() as int)
            < pow_2_16(segs.len() as int)) by (nonlinear_arith)
            requires
                IpAddress::spec_v6_value(segs.drop_last()) < pow_2_16(segs.len() - 1),
                IpAddress::spec_v6_value(segs.drop_last()) >= 0,
                segs.last() < 0x10000,
                pow_2_16(segs.len() as int) == pow_2_16(segs.len() - 1) * 0x10000;
    }
}

/// State of the dotted-quad automaton: octets already closed by a dot
/// (folded into `acc`), and the digits of the octet being read.
pub struct V4State {
    /// Dots consumed so far.
    pub parts: int,
    /// Value of the closed octets, most significant first.
    pub acc: int,
    /// Digits of the current octet.
    pub len: int,
    /// Value of the current octet.
    pub val: int,
}

/// One byte of input advances the dotted-quad automaton, or kills it.
/// An octet is one to three decimal digits, below 256, with no leading
/// zero; exactly three dots separate the four octets.
pub open spec fn v4_step(st: Option<V4State>, c: u8) -> Option<V4State> {
    match st {
        None => None,
        Some(s) => {
            if 48 <= c <= 57 {
                if s.len == 0 {
                    Some(V4State { parts: s.parts, acc: s.acc, len: 1, val: c - 48 })
                } else if s.val == 0 || s.len >= 3 || s.val * 10 + (c - 48) > 255 {
                    None
                } else {
                    Some(
                        V4State {
                            parts: s.parts,
                            acc: s.acc,
                            len: s.len + 1,
                            val: s.val * 10 + (c - 48),
                        },
                    )
                }
            } else if c == 46 {
                if s.len == 0 || s.parts >= 3 {
                    None
                } else {
                    Some(V4State { parts: s.parts + 1, acc: s.acc * 256 + s.val, len: 0, val: 0 })
                }
            } else {
                None
            }
        },
    }
}

/// The automaton run over all of `s`.
pub open spec fn v4_run(s: Seq<u8>) -> Option<V4State>
    decreases s.len(),
{
    if s.len() == 0 {
        Some(V4State { parts: 0, acc: 0, len: 0, val: 0 })
    } else {
        v4_step(v4_run(s.drop_last()), s.last())
    }
}

/// The IPv4 literal grammar: the numeric value of `s` read as a
/// dotted quad, or `None` where `s` is no such literal.
pub open spec fn spec_parse_ipv4(s: Seq<u8>) -> Option<u32> {
    match v4_run(s) {
        Some(st) => if st.parts == 3 && st.len >= 1 {
            Some((st.acc * 256 + st.val) as u32)
        } else {
            None
        },
        None => None,
    }
}

/// Bounds every live automaton state satisfies.
pub open spec fn v4_state_ok(s: V4State) -> bool {
    &&& 0 <= s.parts <= 3
    &&& 0 <= s.len <= 3
    &&& 0 <= s.val <= 255
    &&& 0 <= s.acc
    &&& s.parts == 0 ==> s.acc == 0
    &&& s.parts == 1 ==> s.acc <= 0xFF
    &&& s.parts == 2 ==> s.acc <= 0xFFFF
    &&& s.parts == 3 ==> s.acc <= 0xFFFFFF
}

proof fn lemma_v4_run_ok(s: Seq<u8>)
    ensures
        v4_run(s) matches Some(st) ==> v4_state_ok(st),
    decreases s.len(),
{
    if s.len() > 0 {
        lemma_v4_run_ok(s.drop_last());
    }
}

/// A dead automaton stays dead to the end of the input.
proof fn lemma_v4_run_fail_persists(s: Seq<u8>, i: int)
    requires
        0 <= i <= s.len(),
        v4_run(s.take(i)) is None,
    ensures
        v4_run(s) is None,
    decreases s.len() - i,
{
    if i < s.len() {
        assert(s.take(i + 1).drop_last() =~= s.take(i));
        lemma_v4_run_fail_persists(s, i + 1);
    } else {
        assert(s.take(i) =~= s);
    }
}

/// Parse `s` as a dotted-quad IPv4 literal.
pub fn parse_ipv4(s: &[u8]) -> (r: Option<u32>)
    ensures
        r == spec_parse_ipv4(s@),
{
    let n = s.len();
    let mut parts: u8 = 0;
    let mut acc: u32 = 0;
    let mut len: u8 = 0;
    let mut val: u32 = 0;
    let mut i: usize = 0;
    while i < n
        invariant
            n == s@.len(),
            i <= n,
            v4_run(s@.take(i as int)) == Some(
                V4State { parts: parts as int, acc: acc as int, len: len as int, val: val as int },
            ),
            v4_state_ok(
                V4State { parts: parts as int, acc: acc as int, len: len as int, val: val as int },
            ),
        decreases n - i,
    {
        let c = s[i];
        proof {
            assert(s@.take(i as int + 1).drop_last() =~= s@.take(i as int));
            assert(s@.take(i as int + 1).last() == s@[i as int]);
        }
        if 48 <= c && c <= 57 {
            if len == 0 {
                len = 1;
                val = (c - 48) as u32;
            } else if val == 0 || len >= 3 || val * 10 + (c as u32 - 48) > 255 {
                proof {
                    lemma_v4_run_fail_persists(s@, i as int + 1);
                }
                return None;
            } else {
                len = len + 1;
                val = val * 10 + (c as u32 - 48);
            }
        } else if c == 46 {
            if len == 0 || parts >= 3 {
                proof {
                    lemma_v4_run_fail_persists(s@, i as int + 1);
                }
                return None;
            }
            parts = parts + 1;
            acc = acc * 256 + val;
            len = 0;
            val = 0;
        } else {
            proof {
                lemma_v4_run_fail_persists(s@, i as int + 1);
            }
            return None;
        }
        i = i + 1;
    }
    proof {
        assert(s@.take(n as int) =~= s@);
    }
    if parts == 3 && len >= 1 {
        Some(acc * 256 + val)
    } else {
        None
    }
}

/// The value of a hexadecimal digit, or 16 where `c` is none.
pub open spec fn hex_value(c: u8) -> int {
    if 48 <= c <= 57 {
        c - 48
    } else if 97 <= c <= 102 {
        c - 97 + 10
    } else if 65 <= c <= 70 {
        c - 65 + 10
    } else {
        16
    }
}

/// State of the IPv6 literal automaton: the groups closed before a
/// `::` (folded into `front_acc`), the groups closed after it, the hex
/// digits of the group being read, and how many colons were just seen.
pub struct V6State {
    pub front_cnt: int,
    pub front_acc: int,
    pub back_cnt: int,
    pub back_acc: int,
    pub seen_dc: bool,
    pub len: int,
    pub val: int,
    pub colons: int,
}

/// One byte of input advances the IPv6 automaton, or kills it. A group
/// is one to four hex digits; single colons separate groups; one `::`
/// stands for the omitted zero groups.
pub open spec fn v6_step(st: Option<V6State>, c: u8) -> Option<V6State> {
    match st {
        None => None,
        Some(s) => {
            if hex_value(c) < 16 {
                if s.colons == 1 && !s.seen_dc && s.front_cnt == 0 {
                    // a digit after a single leading colon
                    None
                } else if s.len >= 4 {
                    None
                } else {
                    Some(
                        V6State {
                            len: s.len + 1,
                            val: s.val * 16 + hex_value(c),
                            colons: 0,
                            ..s
                        },
                    )
                }
            } else if c == 58 {
                if s.colons == 0 {
                    if s.len == 0 {
                        // a colon opening the input: only `::` may follow
                        Some(V6State { colons: 1, ..s })
                    } else if s.seen_dc {
                        if s.front_cnt + s.back_cnt >= 6 {
                            None
                        } else {
                            Some(
                                V6State {
                                    back_cnt: s.back_cnt + 1,
                                    back_acc: s.back_acc * 0x10000 + s.val,
                                    len: 0,
                                    val: 0,
                                    colons: 1,
                                    ..s
                                },
                            )
                        }
                    } else {
                        if s.front_cnt >= 7 {
                            None
                        } else {
                            Some(
                                V6State {
                                    front_cnt: s.front_cnt + 1,
                                    front_acc: s.front_acc * 0x10000 + s.val,
                                    len: 0,
                                    val: 0,
                                    colons: 1,
                                    ..s
                                },
                            )
                        }
                    }
                } else if s.colons == 1 {
                    if s.seen_dc {
                        None
                    } else {
                        Some(V6State { seen_dc: true, colons: 2, ..s })
                    }
                } else {
                    None
                }
            } else {
                None
            }
        },
    }
}

/// The IPv6 automaton run over all of `s`.
pub open spec fn v6_run(s: Seq<u8>) -> Option<V6State>
    decreases s.len(),
{
    if s.len() == 0 {
        Some(
            V6State {
                front_cnt: 0,
                front_acc: 0,
                back_cnt: 0,
                back_acc: 0,
                seen_dc: false,
                len: 0,
                val: 0,
                colons: 0,
            },
        )
    } else {
        v6_step(v6_run(s.drop_last()), s.last())
    }
}

/// The verdict of a final automaton state: without `::` exactly eight
/// groups must have appeared; with `::` at most seven, the missing ones
/// reading as zero.
pub open spec fn v6_eval(st: V6State) -> Option<u128> {
    if st.colons == 1 {
        None
    } else if !st.seen_dc {
        if st.front_cnt == 7 && st.len > 0 {
            Some((st.front_acc * 0x10000 + st.val) as u128)
        } else {
            None
        }
    } else {
        let back_val = if st.len > 0 {
            st.back_acc * 0x10000 + st.val
        } else {
            st.back_acc
        };
        let back_n = st.back_cnt + if st.len > 0 {
            1int
        } else {
            0int
        };
        if st.front_cnt + back_n <= 7 {
            Some((st.front_acc * pow_2_16(8 - st.front_cnt) + back_val) as u128)
        } else {
            None
        }
    }
}

/// The IPv6 literal grammar: the numeric value of `s` read as an IPv6
/// literal, or `None` where `s` is no such literal.
pub open spec fn spec_parse_ipv6(s: Seq<u8>) -> Option<u128> {
    match v6_run(s) {
        Some(st) => v6_eval(st),
        None => None,
    }
}

/// Bounds every live IPv6 automaton state satisfies.
pub open spec fn v6_state_ok(s: V6State) -> bool {
    &&& 0 <= s.front_cnt <= 7
    &&& 0 <= s.back_cnt <= 6
    &&& 0 <= s.len <= 4
    &&& 0 <= s.val
    &&& s.len == 0 ==> s.val == 0
    &&& s.len == 1 ==> s.val <= 0xF
    &&& s.len == 2 ==> s.val <= 0xFF
    &&& s.len == 3 ==> s.val <= 0xFFF
    &&& s.len == 4 ==> s.val <= 0xFFFF
    &&& 0 <= s.front_acc < pow_2_16(s.front_cnt)
    &&& 0 <= s.back_acc < pow_2_16(s.back_cnt)
    &&& (s.colons == 0 || s.colons == 1 || s.colons == 2)
}

proof fn lemma_v6_run_ok(s: Seq<u8>)
    ensures
        v6_run(s) matches Some(st) ==> v6_state_ok(st),
    decreases s.len(),
{
    lemma_pow_2_16_values();
    if s.len() > 0 {
        lemma_v6_run_ok(s.drop_last());
        if v6_run(s.drop_last()) is Some && v6_run(s) is Some {
            let p = v6_run(s.drop_last()).unwrap();
            let c = s.last();
            if hex_value(c) < 16 {
            } else if c == 58 && p.colons == 0 && p.len > 0 {
                if p.seen_dc {
                    assert(p.back_acc * 0x10000 + p.val < pow_2_16(p.back_cnt + 1))
                        by (nonlinear_arith)
                        requires
                            0 <= p.back_acc < pow_2_16(p.back_cnt),
                            0 <= p.val <= 0xFFFF,
                            pow_2_16(p.back_cnt + 1) == pow_2_16(p.back_cnt) * 0x10000;
                } else {
                    assert(p.front_acc * 0x10000 + p.val < pow_2_16(p.front_cnt + 1))
                        by (nonlinear_arith)
                        requires
                            0 <= p.front_acc < pow_2_16(p.front_cnt),
                            0 <= p.val <= 0xFFFF,
                            pow_2_16(p.front_cnt + 1) == pow_2_16(p.front_cnt) * 0x10000;
                }
            }
        }
    }
}

/// A dead IPv6 automaton stays dead to the end of the input.
proof fn lemma_v6_run_fail_persists(s: Seq<u8>, i: int)
    requires
        0 <= i <= s.len(),
        v6_run(s.take(i)) is None,
    ensures
        v6_run(s) is None,
    decreases s.len() - i,
{
    if i < s.len() {
        assert(s.take(i + 1).drop_last() =~= s.take(i));
        lemma_v6_run_fail_persists(s, i + 1);
    } else {
        assert(s.take(i) =~= s);
    }
}

/// Hex value of a byte, or 16 where it is no hex digit.
fn hex_digit(c: u8) -> (r: u8)
    ensures
        r == hex_value(c),
{
    if 48 <= c && c <= 57 {
        c - 48
    } else if 97 <= c && c <= 102 {
        c - 97 + 10
    } else if 65 <= c && c <= 70 {
        c - 65 + 10
    } else {
        16
    }
}

/// Parse `s` as an IPv6 literal.
pub fn parse_ipv6(s: &[u8]) -> (r: Option<u128>)
    ensures
        r == spec_parse_ipv6(s@),
{
    let n = s.len();
    let mut front_cnt: u8 = 0;
    let mut front_acc: u128 = 0;
    let mut back_cnt: u8 = 0;
    let mut back_acc: u128 = 0;
    let mut seen_dc: bool = false;
    let mut len: u8 = 0;
    let mut val: u32 = 0;
    let mut colons: u8 = 0;
    let mut i: usize = 0;
    while i < n
        invariant
            n == s@.len(),
            i <= n,
            v6_run(s@.take(i as int)) == Some(
                V6State {
                    front_cnt: front_cnt as int,
                    front_acc: front_acc as int,
                    back_cnt: back_cnt as int,
                    back_acc: back_acc as int,
                    seen_dc: seen_dc,
                    len: len as int,
                    val: val as int,
                    colons: colons as int,
                },
            ),
        decreases n - i,
    {
        let ghost pre = V6State {
            front_cnt: front_cnt as int,
            front_acc: front_acc as int,
            back_cnt: back_cnt as int,
            back_acc: back_acc as int,
            seen_dc: seen_dc,
            len: len as int,
            val: val as int,
            colons: colons as int,
        };
        proof {
            lemma_pow_2_16_values();
            lemma_v6_run_ok(s@.take(i as int));
            assert(s@.take(i as int + 1).drop_last() =~= s@.take(i as int));
            assert(s@.take(i as int + 1).last() == s@[i as int]);
        }
        let c = s[i];
        let d = hex_digit(c);
        if d < 16 {
            if colons == 1 && !seen_dc && front_cnt == 0 {
                proof {
                    lemma_v6_run_fail_persists(s@, i as int + 1);
                }
                return None;
            }
            if len >= 4 {
                proof {
                    lemma_v6_run_fail_persists(s@, i as int + 1);
                }
                return None;
            }
            len = len + 1;
            val = val * 16 + (d as u32);
            colons = 0;
        } else if c == 58 {
            if colons == 0 {
                if len == 0 {
                    colons = 1;
                } else if seen_dc {
                    if front_cnt + back_cnt >= 6 {
                        proof {
                            lemma_v6_run_fail_persists(s@, i as int + 1);
                        }
                        return None;
                    }
                    proof {
                        assert((back_acc as int) * 0x10000 + (val as int) < pow_2_16(7))
                            by (nonlinear_arith)
                            requires
                                0 <= (back_acc as int) < pow_2_16(back_cnt as int),
                                pow_2_16(back_cnt as int) <= pow_2_16(6),
                                pow_2_16(7) == pow_2_16(6) * 0x10000,
                                0 <= (val as int) <= 0xFFFF;
                    }
                    back_cnt = back_cnt + 1;
                    back_acc = back_acc * 0x10000 + (val as u128);
                    len = 0;
                    val = 0;
                    colons = 1;
                } else {
                    if front_cnt >= 7 {
                        proof {
                            lemma_v6_run_fail_persists(s@, i as int + 1);
                        }
                        return None;
                    }
                    proof {
                        assert((front_acc as int) * 0x10000 + (val as int) < pow_2_16(8))
                            by (nonlinear_arith)
                            requires
                                0 <= (front_acc as int) < pow_2_16(front_cnt as int),
                                pow_2_16(front_cnt as int) <= pow_2_16(7),
                                pow_2_16(8) == pow_2_16(7) * 0x10000,
                                0 <= (val as int) <= 0xFFFF;
                    }
                    front_cnt = front_cnt + 1;
                    front_acc = front_acc * 0x10000 + (val as u128);
                    len = 0;
                    val = 0;
                    colons = 1;
                }
            } else if colons == 1 {
                if seen_dc {
                    proof {
                        lemma_v6_run_fail_persists(s@, i as int + 1);
                    }
                    return None;
                }
                seen_dc = true;
                colons = 2;
            } else {
                proof {
                    lemma_v6_run_fail_persists(s@, i as int + 1);
                }
                return None;
            }
        } else {
            proof {
                lemma_v6_run_fail_persists(s@, i as int + 1);
            }
            return None;
        }
        i = i + 1;
    }
    proof {
        assert(s@.take(n as int) =~= s@);
        lemma_v6_run_ok(s@);
        lemma_pow_2_16_values();
    }
    if colons == 1 {
        None
    } else if !seen_dc {
        if front_cnt == 7 && len >= 1 {
            Some(front_acc * 0x10000 + (val as u128))
        } else {
            None
        }
    } else {
        let back_val: u128 = if len >= 1 {
            back_acc * 0x10000 + (val as u128)
        } else {
            back_acc
        };
        let back_n: u8 = back_cnt + if len >= 1 {
            1
        } else {
            0
        };
        if front_cnt + back_n <= 7 {
            let mut shifted: u128 = front_acc;
            let mut k: u8 = 0;
            proof {
                assert((back_val as int) < pow_2_16((back_n + 1) as int)) by (nonlinear_arith)
                    requires
                        0 <= (back_acc as int) < pow_2_16(back_cnt as int),
                        0 <= (val as int) <= 0xFFFF,
                        (back_val as int) == if len >= 1 {
                            (back_acc as int) * 0x10000 + (val as int)
                        } else {
                            (back_acc as int)
                        },
                        (back_n as int) == (back_cnt as int) + if len >= 1 { 1int } else { 0int },
                        pow_2_16((back_n + 1) as int) == pow_2_16(back_n as int) * 0x10000,
                        pow_2_16(back_cnt as int) <= pow_2_16(back_n as int);
            }
            while k < 8 - front_cnt
                invariant
                    front_cnt <= 7,
                    k <= 8 - front_cnt,
                    (front_acc as int) < pow_2_16(front_cnt as int),
                    shifted as int == (front_acc as int) * pow_2_16(k as int),
                decreases 8 - front_cnt - k,
            {
                proof {
                    lemma_pow_2_16_values();
                    lemma_pow_2_16_mul(front_cnt as int, k as int + 1);
                    assert(pow_2_16((front_cnt + k + 1) as int) <= pow_2_16(8));
                    assert((front_acc as int) * pow_2_16(k as int + 1) <= (pow_2_16(
                        front_cnt as int,
                    ) - 1) * pow_2_16(k as int + 1)) by (nonlinear_arith)
                        requires
                            (front_acc as int) <= pow_2_16(front_cnt as int) - 1,
                            pow_2_16(k as int + 1) >= 0;
                    assert((pow_2_16(front_cnt as int) - 1) * pow_2_16(k as int + 1)
                        <= pow_2_16(8) - pow_2_16(k as int + 1)) by (nonlinear_arith)
                        requires
                            pow_2_16(front_cnt as int) * pow_2_16(k as int + 1) <= pow_2_16(8),
                            pow_2_16(k as int + 1) >= 1;
                    assert((shifted as int) * 0x10000 == (front_acc as int) * pow_2_16(
                        k as int + 1,
                    )) by (nonlinear_arith)
                        requires
                            shifted as int == (front_acc as int) * pow_2_16(k as int),
                            pow_2_16(k as int + 1) == pow_2_16(k as int) * 0x10000;
                }
                shifted = shifted * 0x10000;
                k = k + 1;
            }
            proof {
                lemma_pow_2_16_mul(front_cnt as int, (8 - front_cnt) as int);
                assert((front_acc as int) * pow_2_16((8 - front_cnt) as int) + (back_val as int)
                    < pow_2_16(8)) by (nonlinear_arith)
                    requires
                        (front_acc as int) <= pow_2_16(front_cnt as int) - 1,
                        (back_val as int) < pow_2_16((back_n + 1) as int),
                        pow_2_16((back_n + 1) as int) <= pow_2_16((8 - front_cnt) as int),
                        pow_2_16((8 - front_cnt) as int) >= 1,
                        pow_2_16(front_cnt as int) * pow_2_16((8 - front_cnt) as int) == pow_2_16(
                            8,
                        );
            }
            Some(shifted + back_val)
        } else {
            None
        }
    }
}

proof fn lemma_pow_2_16_mul(a: int, b: int)
    requires
        a >= 0,
        b >= 0,
    ensures
        pow_2_16(a) * pow_2_16(b) == pow_2_16(a + b),
    decreases b,
{
    if b == 0 {
        assert(pow_2_16(a) * 1 == pow_2_16(a)) by (nonlinear_arith);
    } else {
        lemma_pow_2_16_mul(a, b - 1);
        assert(pow_2_16(a) * (pow_2_16(b - 1) * 0x10000) == (pow_2_16(a) * pow_2_16(b - 1))
            * 0x10000) by (nonlinear_arith);
    }
}

/// `0x10000` to the power `n`.
pub open spec fn pow_2_16(n: int) -> int
    decreases n,
{
    if n <= 0 {
        1
    } else {
        pow_2_16(n - 1) * 0x10000
    }
}

proof fn lemma_pow_2_16_values()
    ensures
        pow_2_16(0) == 1,
        pow_2_16(1) == 0x10000,
        pow_2_16(2) == 0x1_0000_0000,
        pow_2_16(3) == 0x1_0000_0000_0000,
        pow_2_16(4) == 0x1_0000_0000_0000_0000,
        pow_2_16(5) == 0x1_0000_0000_0000_0000_0000,
        pow_2_16(6) == 0x1_0000_0000_0000_0000_0000_0000,
        pow_2_16(7) == 0x1_0000_0000_0000_0000_0000_0000_0000,
        pow_2_16(8) == 0x1_0000_0000_0000_0000_0000_0000_0000_0000,
        forall|i: int, j: int| 0 <= i <= j <= 8 ==> pow_2_16(i) <= pow_2_16(j),
{
    assert(pow_2_16(0) == 1);
    assert(pow_2_16(1) == 0x10000);
    assert(pow_2_16(2) == 0x1_0000_0000);
    assert(pow_2_16(3) == 0x1_0000_0000_0000);
    assert(pow_2_16(4) == 0x1_0000_0000_0000_0000);
    assert(pow_2_16(5) == 0x1_0000_0000_0000_0000_0000);
    assert(pow_2_16(6) == 0x1_0000_0000_0000_0000_0000_0000);
    assert(pow_2_16(7) == 0x1_0000_0000_0000_0000_0000_0000_0000);
    assert(pow_2_16(8) == 0x1_0000_0000_0000_0000_0000_0000_0000_0000);
    assert forall|i: int, j: int| 0 <= i <= j <= 8 implies pow_2_16(i) <= pow_2_16(j) by {
        assert(pow_2_16(0) <= pow_2_16(1) <= pow_2_16(2) <= pow_2_16(3) <= pow_2_16(4)
            <= pow_2_16(5) <= pow_2_16(6) <= pow_2_16(7) <= pow_2_16(8));
    }
}

} // verus!
