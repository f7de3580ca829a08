//! The shared ICMP client's decisions: how a received datagram is
//! classified and matched, how a probe's identity is keyed, and what
//! result each probe outcome yields.
//!
//! The sockets, the receive task and the timers live in the event
//! loop; every decision they need stands here as a verified function
//! on plain values.

use vstd::prelude::*;
use crate::addr::IpAddress;
use crate::packet::{spec_decodes, IcmpPacket, IcmpType};
use crate::stats::{PingResult, ProbeStatus};

verus! {

/// A matched Echo reply: the receive instant in nanoseconds, the
/// decoded packet, and the hop limit where known.
#[derive(Debug)]
pub struct Reply {
    pub timestamp: u64,
    pub packet: IcmpPacket,
    pub ttl: Option<u8>,
}

/// The identifier half of a probe's identity. A kernel-mediated
/// datagram socket rewrites the identifier on the wire, so it must
/// not participate in matching there; a raw socket keeps it.
pub fn probe_ident_key(is_dgram: bool, ident: u16) -> (r: Option<u16>)
    ensures
        r == if is_dgram {
            Option::<u16>::None
        } else {
            Some(ident)
        },
{
    if is_dgram {
        None
    } else {
        Some(ident)
    }
}

/// Offset of the ICMP header inside a received datagram. A raw IPv4
/// socket delivers the IP header first: where the version nibble says
/// IPv4 and the stated header length fits, the ICMP message starts
/// after it.
pub open spec fn spec_icmp_offset(data: Seq<u8>, is_v6: bool) -> int {
    if !is_v6 && data.len() >= 20 && data[0] / 16 == 4 && (data[0] % 16) * 4 <= data.len() {
        (data[0] % 16) * 4
    } else {
        0
    }
}

/// The hop limit for a received IPv4 datagram: ancillary data first,
/// the IP header's TTL octet as fallback.
pub open spec fn spec_reply_ttl(data: Seq<u8>, is_v6: bool, msg_ttl: Option<u8>) -> Option<u8> {
    if spec_icmp_offset(data, is_v6) > 0 && msg_ttl is None {
        Some(data[8])
    } else {
        msg_ttl
    }
}

/// The reply type octet of the family.
pub open spec fn spec_reply_type(is_v6: bool) -> u8 {
    if is_v6 {
        IcmpType::EchoReplyV6.spec_value()
    } else {
        IcmpType::EchoReply.spec_value()
    }
}

/// A received datagram is a well-formed Echo reply: long enough to
/// decode past the IP header, with the family's reply type.
pub open spec fn spec_is_echo_reply(data: Seq<u8>, is_v6: bool) -> bool {
    &&& data.len() - spec_icmp_offset(data, is_v6) >= 8
    &&& data[spec_icmp_offset(data, is_v6)] == spec_reply_type(is_v6)
}

/// Classify one received datagram: skip the IPv4 header a raw socket
/// delivers, decode the ICMP message, and keep it only if it is the
/// family's Echo reply. Yields the packet and the hop limit to
/// report.
pub fn classify_datagram(data: &[u8], is_v6: bool, msg_ttl: Option<u8>) -> (r: Option<
    (IcmpPacket, Option<u8>),
>)
    ensures
        r is Some <==> spec_is_echo_reply(data@, is_v6),
        r matches Some(pt) ==> {
            &&& spec_decodes(data@.skip(spec_icmp_offset(data@, is_v6)), pt.0)
            &&& pt.1 == spec_reply_ttl(data@, is_v6, msg_ttl)
        },
{
    let n = data.len();
    let mut offset: usize = 0;
    let mut ttl: Option<u8> = msg_ttl;
    if !is_v6 && n >= 20 && data[0] / 16 == 4 {
        let ihl = ((data[0] % 16) as usize) * 4;
        if ihl <= n {
            offset = ihl;
            if offset > 0 && msg_ttl.is_none() {
                ttl = Some(data[8]);
            }
        }
    }
    let icmp_bytes = vstd::slice::slice_subrange(data, offset, n);
    proof {
        assert(icmp_bytes@ =~= data@.skip(spec_icmp_offset(data@, is_v6)));
    }
    match IcmpPacket::decode(icmp_bytes) {
        Ok(packet) => {
            let reply_type = if is_v6 {
                IcmpType::EchoReplyV6.value()
            } else {
                IcmpType::EchoReply.value()
            };
            if packet.message_type == reply_type {
                Some((packet, ttl))
            } else {
                None
            }
        },
        Err(_) => None,
    }
}

/// What one awaited ICMP probe came to: the reply that arrived in
/// time, or nothing.
pub enum AwaitedReply {
    /// A reply arrived at this nanosecond instant with this hop limit.
    Received { recv_ns: u64, ttl: Option<u8> },
    /// The wait timed out.
    TimedOut,
}

/// The result an ICMP probe reports once its wait ends. A reply
/// within the timeout is a success whose round-trip time is exactly
/// the receive instant minus the pre-send instant; a later reply or
/// none at all is a timeout.
pub fn icmp_wait_result(
    target: String,
    target_addr: IpAddress,
    seq: u64,
    size: usize,
    send_ns: u64,
    timeout_ns: u64,
    outcome: AwaitedReply,
) -> (r: PingResult)
    requires
        outcome matches AwaitedReply::Received { recv_ns, ttl } ==> recv_ns >= send_ns,
    ensures
        r.target@ == target@,
        r.target_addr == target_addr,
        r.seq == seq,
        match outcome {
            AwaitedReply::Received { recv_ns, ttl } => if recv_ns - send_ns <= timeout_ns {
                &&& r.status is Success
                &&& r.rtt == recv_ns - send_ns
                &&& r.ttl == ttl
                &&& r.bytes == size
            } else {
                &&& r.status is Timeout
                &&& r.rtt == 0
                &&& r.ttl is None
                &&& r.bytes == 0
            },
            AwaitedReply::TimedOut => {
                &&& r.status is Timeout
                &&& r.rtt == 0
                &&& r.ttl is None
                &&& r.bytes == 0
            },
        },
{
    match outcome {
        AwaitedReply::Received { recv_ns, ttl } => {
            let rtt = recv_ns - send_ns;
            if rtt <= timeout_ns {
                PingResult {
                    target,
                    target_addr,
                    seq,
                    bytes: size,
                    ttl,
                    rtt,
                    status: ProbeStatus::Success,
                }
            } else {
                PingResult {
                    target,
                    target_addr,
                    seq,
                    bytes: 0,
                    ttl: None,
                    rtt: 0,
                    status: ProbeStatus::Timeout,
                }
            }
        },
        AwaitedReply::TimedOut => PingResult {
            target,
            target_addr,
            seq,
            bytes: 0,
            ttl: None,
            rtt: 0,
            status: ProbeStatus::Timeout,
        },
    }
}

/// The result a probe reports when its send, connect or transport
/// failed outright.
pub fn probe_error_result(
    target: String,
    target_addr: IpAddress,
    seq: u64,
    message: String,
) -> (r: PingResult)
    ensures
        r.target@ == target@,
        r.target_addr == target_addr,
        r.seq == seq,
        r.bytes == 0,
        r.ttl is None,
        r.rtt == 0,
        r.status matches ProbeStatus::Error(m) && m@ == message@,
{
    PingResult {
        target,
        target_addr,
        seq,
        bytes: 0,
        ttl: None,
        rtt: 0,
        status: ProbeStatus::Error(message),
    }
}

/// What one TCP connect attempt came to.
pub enum TcpOutcome {
    /// The handshake completed after this many nanoseconds.
    Connected { rtt_ns: u64 },
    /// The attempt timed out.
    TimedOut,
    /// The connect failed outright (refused, unreachable).
    Failed,
}

/// The result a TCP probe reports: a completed handshake is a success
/// whose round-trip time is the handshake duration; a timer expiry is
/// a timeout; a refused or unreachable connect is an error carrying
/// the failure text.
pub fn tcp_ping_result(
    target: String,
    target_addr: IpAddress,
    seq: u64,
    outcome: TcpOutcome,
    error_message: String,
) -> (r: PingResult)
    ensures
        r.target@ == target@,
        r.target_addr == target_addr,
        r.seq == seq,
        r.bytes == 0,
        r.ttl is None,
        match outcome {
            TcpOutcome::Connected { rtt_ns } => r.status is Success && r.rtt == rtt_ns,
            TcpOutcome::TimedOut => r.status is Timeout && r.rtt == 0,
            TcpOutcome::Failed => (r.status matches ProbeStatus::Error(m) && m@ == error_message@
                && r.rtt == 0),
        },
{
    match outcome {
        TcpOutcome::Connected { rtt_ns } => PingResult {
            target,
            target_addr,
            seq,
            bytes: 0,
            ttl: None,
            rtt: rtt_ns,
            status: ProbeStatus::Success,
        },
        TcpOutcome::TimedOut => PingResult {
            target,
            target_addr,
            seq,
            bytes: 0,
            ttl: None,
            rtt: 0,
            status: ProbeStatus::Timeout,
        },
        TcpOutcome::Failed => PingResult {
            target,
            target_addr,
            seq,
            bytes: 0,
            ttl: None,
            rtt: 0,
            status: ProbeStatus::Error(error_message),
        },
    }
}

/// An HTTP probe succeeds exactly on a 2xx or 3xx response status.
pub fn http_status_is_success(code: u16) -> (r: bool)
    ensures
        r <==> 200 <= code < 400,
{
    200 <= code && code < 400
}

/// The result an HTTP probe reports for a response: 2xx and 3xx are
/// successes with the head-to-headers round-trip time; any other
/// status is an error carrying the caller's `HTTP <code>` text.
pub fn http_ping_result(
    target: String,
    target_addr: IpAddress,
    seq: u64,
    code: u16,
    bytes: usize,
    rtt_ns: u64,
    error_message: String,
) -> (r: PingResult)
    ensures
        r.target@ == target@,
        r.target_addr == target_addr,
        r.seq == seq,
        r.ttl is None,
        200 <= code < 400 ==> (r.status is Success && r.rtt == rtt_ns && r.bytes == bytes),
        !(200 <= code < 400) ==> (r.status matches ProbeStatus::Error(m) && m@ == error_message@
            && r.rtt == rtt_ns && r.bytes == 0),
{
    if http_status_is_success(code) {
        PingResult {
            target,
            target_addr,
            seq,
            bytes,
            ttl: None,
            rtt: rtt_ns,
            status: ProbeStatus::Success,
        }
    } else {
        PingResult {
            target,
            target_addr,
            seq,
            bytes: 0,
            ttl: None,
            rtt: rtt_ns,
            status: ProbeStatus::Error(error_message),
        }
    }
}

} // verus!
